//! The history: what is kept, and how a stretch of it becomes the columns of a chart.
use crate::model::Millis;
use vstd::arithmetic::div_mod::{lemma_div_is_ordered, lemma_fundamental_div_mod};
use vstd::prelude::*;

verus! {

/// How long history is kept.
pub const WEEK_MS: u64 = 604_800_000;

/// What is older than this, at `now`, is dropped: the time a week ago, or the beginning of time.
pub fn prune_cutoff(now: u64) -> (r: u64)
    ensures
        r == if now >= WEEK_MS {
            now - WEEK_MS
        } else {
            0
        },
        r <= now,
        now - r == 7 * 24 * 60 * 60 * 1000 || (r == 0 && now < 7 * 24 * 60 * 60 * 1000),
{
    if now >= WEEK_MS {
        now - WEEK_MS
    } else {
        0
    }
}

/// Dropping what is older than the cutoff drops nothing of the last week.
pub proof fn last_week_is_kept(now: u64, ts: u64)
    requires
        ts <= now,
        now - ts <= WEEK_MS,
    ensures
        ts >= if now >= WEEK_MS {
            now - WEEK_MS
        } else {
            0
        },
{
}

/// Every 720th beat of the heart, five seconds apart, is one on which old history is dropped.
pub fn prunes_on(beat: u64) -> (r: bool)
    ensures
        r == (beat % 720 == 0),
{
    beat % 720 == 0
}

/// The earliest instant that is known of: the oldest sample or the first start, whichever there
/// is and is earlier.
pub fn oldest(sample: Option<i64>, start: Option<i64>) -> (r: Option<u64>)
    ensures
        r == (match (sample, start) {
            (Some(a), Some(b)) => Some(
                if a <= b {
                    a
                } else {
                    b
                } as u64,
            ),
            (Some(a), None) => Some(a as u64),
            (None, Some(b)) => Some(b as u64),
            (None, None) => None,
        }),
        r is None <==> sample is None && start is None,
        r matches Some(t) ==> (sample matches Some(a) && t == a as u64) || (start matches Some(b)
            && t == b as u64),
        sample matches Some(a) ==> start matches Some(b) ==> a >= 0 && b >= 0 ==> (
        r matches Some(t) && t <= a && t <= b),
{
    match (sample, start) {
        (Some(a), Some(b)) => Some(
            if a <= b {
                a
            } else {
                b
            } as u64,
        ),
        (Some(a), None) => Some(a as u64),
        (None, Some(b)) => Some(b as u64),
        (None, None) => None,
    }
}

/// The lower end of the time slider: the earliest instant, or zero where nothing is known.
pub fn get_bounds(oldest: Option<u64>) -> (r: u64)
    ensures
        r == (match oldest {
            Some(t) => t,
            None => 0,
        }),
{
    match oldest {
        Some(t) => t,
        None => 0,
    }
}

// ---- windows ---------------------------------------------------------------

/// A share of attempts that were lost: `lost` of `of`.
#[derive(Clone, Copy, PartialEq, Eq, Structural, Debug)]
pub struct Loss {
    pub lost: i64,
    pub of: i64,
}

/// One time slice of history, which becomes one pixel column. `worst`, `mean` and `best` are the
/// highest, the mean and the lowest round-trip time of the successful probes in it, where there
/// is one; `val` is the one that is drawn; `up` says whether the daemon ran for any part of it.
#[derive(Clone, Copy, PartialEq, Eq, Structural, Debug)]
pub struct Bucket {
    /// When the slice begins.
    pub t: u64,
    pub val: Option<Millis>,
    pub worst: Option<Millis>,
    pub mean: Option<Millis>,
    pub best: Option<Millis>,
    pub loss: Loss,
    /// How many probes were attempted.
    pub count: u32,
    pub up: bool,
}

/// The samples of one slice, summed up.
#[derive(Clone, Copy, PartialEq, Eq, Structural, Debug)]
pub struct SliceRow {
    pub slice: i64,
    pub worst: Option<Millis>,
    pub mean: Option<Millis>,
    pub best: Option<Millis>,
    /// The median or the trimmed mean, where that is the aggregate.
    pub reduced: Option<Millis>,
    pub lost: i64,
    pub count: i64,
}

/// A run of the daemon, from its start to its last sign of life.
#[derive(Clone, Copy, PartialEq, Eq, Structural, Debug)]
pub struct Run {
    pub start: u64,
    pub last: u64,
}

/// How many slices are made: at least one.
pub open spec fn slices(buckets: usize) -> nat {
    if buckets == 0 {
        1
    } else {
        buckets as nat
    }
}

/// How long the window is: at least one millisecond.
pub open spec fn span_of(from: u64, to: u64) -> nat {
    if to > from {
        (to - from) as nat
    } else {
        1
    }
}

/// Where slice `i` of `n` begins.
pub open spec fn slice_start(from: u64, span: nat, n: nat, i: int) -> int {
    from + span * i / n as int
}

/// A slice that no sample fell into, and in which the daemon did not run.
pub open spec fn empty_bucket(t: u64) -> Bucket {
    Bucket {
        t,
        val: None,
        worst: None,
        mean: None,
        best: None,
        loss: Loss { lost: 0, of: 1 },
        count: 0,
        up: false,
    }
}

/// The bucket that a row belongs to: its slice, or the nearest there is.
pub open spec fn row_bucket(slice: i64, n: nat) -> int {
    if slice < 0 {
        0
    } else if slice >= n {
        n - 1
    } else {
        slice as int
    }
}

/// What is drawn of a row under an aggregate: its best, its mean, its median or trimmed mean, or
/// else its worst.
pub open spec fn drawn(agg: Seq<char>, row: SliceRow) -> Option<Millis> {
    if agg == "best"@ {
        row.best
    } else if agg == "mean"@ {
        row.mean
    } else if agg == "median"@ || agg == "trimmed"@ {
        row.reduced
    } else {
        row.worst
    }
}

/// A bucket with what a row says.
pub open spec fn with_row(agg: Seq<char>, b: Bucket, row: SliceRow) -> Bucket {
    Bucket {
        val: drawn(agg, row),
        worst: row.worst,
        mean: row.mean,
        best: row.best,
        count: row.count as u32,
        loss: if row.count > 0 {
            Loss { lost: row.lost, of: row.count }
        } else {
            Loss { lost: 0, of: 1 }
        },
        ..b
    }
}

/// The buckets with what the rows say, one after the other.
pub open spec fn with_rows(agg: Seq<char>, base: Seq<Bucket>, rows: Seq<SliceRow>) -> Seq<Bucket>
    decreases rows.len(),
{
    if rows.len() == 0 {
        base
    } else {
        let b = with_rows(agg, base, rows.drop_last());
        let i = row_bucket(rows.last().slice, base.len());
        b.update(i, with_row(agg, b[i], rows.last()))
    }
}

/// How far into the window a run begins: at its start, or with the window.
pub open spec fn run_from(run: Run, from: u64) -> int {
    if run.start > from {
        run.start - from
    } else {
        0
    }
}

/// How far into the window a run reaches: to its last sign of life, or to the last millisecond of
/// the window.
pub open spec fn run_to(run: Run, from: u64, to: u64) -> int {
    let end = if to == 0 {
        0
    } else {
        to - 1
    };
    let last = if run.last <= end {
        run.last as int
    } else {
        end
    };
    if last > from {
        last - from
    } else {
        0
    }
}

/// The slice that an offset into the window lies in, or the last.
pub open spec fn slice_at(offset: int, span: nat, n: nat) -> int {
    let i = offset * n / span as int;
    if i < n {
        i
    } else {
        n - 1
    }
}

/// The daemon ran in slice `i` during this run.
pub open spec fn run_covers(run: Run, from: u64, to: u64, n: nat, i: int) -> bool {
    slice_at(run_from(run, from), span_of(from, to), n) <= i <= slice_at(
        run_to(run, from, to),
        span_of(from, to),
        n,
    )
}

/// The daemon ran in slice `i`.
pub open spec fn up_in(runs: Seq<Run>, from: u64, to: u64, n: nat, i: int) -> bool {
    exists|k: int| 0 <= k < runs.len() && run_covers(#[trigger] runs[k], from, to, n, i)
}

/// The products that place slices and runs fit in 64 bits.
pub open spec fn window_fits(from: u64, to: u64, buckets: usize, runs: Seq<Run>) -> bool {
    let n = slices(buckets);
    &&& span_of(from, to) * (n - 1) <= u64::MAX
    &&& forall|k: int|
        0 <= k < runs.len() ==> run_from(#[trigger] runs[k], from) * n <= u64::MAX && run_to(
            runs[k],
            from,
            to,
        ) * n <= u64::MAX
}

/// Whether the products that place slices and runs fit in 64 bits.
pub fn fits(from: u64, to: u64, buckets: usize, runs: &Vec<Run>) -> (r: bool)
    ensures
        r == window_fits(from, to, buckets, runs@),
{
    let n: u128 = if buckets == 0 {
        1
    } else {
        buckets as u128
    };
    let span: u128 = if to > from {
        (to - from) as u128
    } else {
        1
    };
    proof {
        lemma_product(span as int, n - 1);
    }
    if span * (n - 1) > u64::MAX as u128 {
        return false;
    }
    for k in 0..runs.len()
        invariant
            n == slices(buckets),
            1 <= n <= u64::MAX,
            span_of(from, to) * (n - 1) <= u64::MAX,
            forall|j: int|
                0 <= j < k ==> run_from(#[trigger] runs@[j], from) * n <= u64::MAX && run_to(
                    runs@[j],
                    from,
                    to,
                ) * n <= u64::MAX,
    {
        let run = runs[k];
        let first: u128 = if run.start > from {
            (run.start - from) as u128
        } else {
            0
        };
        let end: u64 = if to == 0 {
            0
        } else {
            to - 1
        };
        let last: u64 = if run.last <= end {
            run.last
        } else {
            end
        };
        let reach: u128 = if last > from {
            (last - from) as u128
        } else {
            0
        };
        proof {
            lemma_product(first as int, n as int);
            lemma_product(reach as int, n as int);
        }
        if first * n > u64::MAX as u128 || reach * n > u64::MAX as u128 {
            assert(run_from(runs@[k as int], from) == first);
            assert(run_to(runs@[k as int], from, to) == reach);
            return false;
        }
    }
    true
}

/// The product of two 64-bit numbers fits in 128 bits.
proof fn lemma_product(a: int, b: int)
    requires
        0 <= a <= u64::MAX,
        0 <= b <= u64::MAX,
    ensures
        0 <= a * b <= u128::MAX,
{
    assert(0 <= a * b <= u64::MAX * u64::MAX) by (nonlinear_arith)
        requires
            0 <= a <= u64::MAX,
            0 <= b <= u64::MAX,
    ;
}

/// The buckets before the runs are marked.
pub open spec fn filled_buckets(
    from: u64,
    to: u64,
    buckets: usize,
    agg: Seq<char>,
    rows: Seq<SliceRow>,
) -> Seq<Bucket> {
    with_rows(
        agg,
        Seq::new(
            slices(buckets),
            |i: int|
                empty_bucket(
                    slice_start(from, span_of(from, to), slices(buckets), i) as u64,
                ),
        ),
        rows,
    )
}

proof fn lemma_slice_start(from: u64, to: u64, n: nat, i: int)
    requires
        0 <= i < n,
    ensures
        0 <= span_of(from, to) * i / n as int,
        from <= slice_start(from, span_of(from, to), n, i) <= u64::MAX,
        span_of(from, to) * i <= span_of(from, to) * (n - 1),
{
    let span = span_of(from, to);
    assert(0 <= span * i <= span * (n - 1)) by (nonlinear_arith)
        requires
            0 <= i <= n - 1,
            span >= 0,
    ;
    assert(span * i / n as int <= span - 1) by (nonlinear_arith)
        requires
            0 <= i <= n - 1,
            span >= 1,
            n >= 1,
    ;
    assert(0 <= span * i / n as int) by (nonlinear_arith)
        requires
            0 <= span * i,
            n >= 1,
    ;
}

proof fn lemma_with_rows_len(agg: Seq<char>, base: Seq<Bucket>, rows: Seq<SliceRow>)
    requires
        base.len() > 0,
    ensures
        with_rows(agg, base, rows).len() == base.len(),
    decreases rows.len(),
{
    if rows.len() > 0 {
        lemma_with_rows_len(agg, base, rows.drop_last());
    }
}

proof fn lemma_slice_at(offset: int, span: nat, n: nat)
    requires
        0 <= offset,
        span > 0,
        n > 0,
    ensures
        0 <= offset * n,
        0 <= offset * n / span as int <= offset * n,
        0 <= slice_at(offset, span, n) < n,
{
    assert(0 <= offset * n) by (nonlinear_arith)
        requires
            0 <= offset,
    ;
    vstd::arithmetic::div_mod::lemma_div_nonincreasing(offset * n, span as int);
    vstd::arithmetic::div_mod::lemma_div_pos_is_pos(offset * n, span as int);
}

/// Aggregates `[from, to)` into equal time slices, from the samples summed up by slice and the
/// runs of the daemon that touch it.
pub fn window(
    from: u64,
    to: u64,
    buckets: usize,
    agg: &str,
    rows: &Vec<SliceRow>,
    runs: &Vec<Run>,
) -> (r: Vec<Bucket>)
    requires
        window_fits(from, to, buckets, runs@),
    ensures
        r@.len() == slices(buckets),
        forall|i: int|
            0 <= i < r@.len() ==> #[trigger] r@[i] == (Bucket {
                up: up_in(runs@, from, to, slices(buckets), i),
                ..filled_buckets(from, to, buckets, agg@, rows@)[i]
            }),
{
    let n: usize = if buckets == 0 {
        1
    } else {
        buckets
    };
    let span: u64 = if to > from {
        to - from
    } else {
        1
    };
    let ghost base = Seq::new(
        n as nat,
        |i: int| empty_bucket(slice_start(from, span as nat, n as nat, i) as u64),
    );
    let mut out: Vec<Bucket> = Vec::new();
    for i in 0..n
        invariant
            n == slices(buckets),
            span == span_of(from, to),
            span * (n - 1) <= u64::MAX,
            base == Seq::new(
                n as nat,
                |i: int| empty_bucket(slice_start(from, span as nat, n as nat, i) as u64),
            ),
            out@ == base.take(i as int),
    {
        proof {
            lemma_slice_start(from, to, n as nat, i as int);
        }
        let t: u64 = from + span * i as u64 / n as u64;
        out.push(
            Bucket {
                t,
                val: None,
                worst: None,
                mean: None,
                best: None,
                loss: Loss { lost: 0, of: 1 },
                count: 0,
                up: false,
            },
        );
        assert(base.take(i + 1) =~= base.take(i as int).push(base[i as int]));
    }
    assert(base.take(n as int) =~= base);
    assert(rows@.take(0) =~= Seq::<SliceRow>::empty());
    for k in 0..rows.len()
        invariant
            base.len() == n,
            n > 0,
            k <= rows@.len(),
            out@ == with_rows(agg@, base, rows@.take(k as int)),
    {
        proof {
            lemma_with_rows_len(agg@, base, rows@.take(k as int));
            assert(rows@.take(k + 1).drop_last() =~= rows@.take(k as int));
        }
        let row = rows[k];
        let i: usize = if row.slice < 0 {
            0
        } else if row.slice as u64 >= n as u64 {
            n - 1
        } else {
            row.slice as usize
        };
        let loss = if row.count > 0 {
            Loss { lost: row.lost, of: row.count }
        } else {
            Loss { lost: 0, of: 1 }
        };
        let b = out[i];
        let val = if agg.eq("best") {
            row.best
        } else if agg.eq("mean") {
            row.mean
        } else if agg.eq("median") || agg.eq("trimmed") {
            row.reduced
        } else {
            row.worst
        };
        out.set(
            i,
            Bucket {
                t: b.t,
                val,
                worst: row.worst,
                mean: row.mean,
                best: row.best,
                loss,
                count: row.count as u32,
                up: b.up,
            },
        );
    }
    assert(rows@.take(rows@.len() as int) =~= rows@);
    let ghost filled = filled_buckets(from, to, buckets, agg@, rows@);
    proof {
        assert(filled == with_rows(agg@, base, rows@));
        lemma_with_rows_len(agg@, base, rows@);
        lemma_never_up(agg@, base, rows@);
        assert forall|i: int| 0 <= i < n implies #[trigger] out@[i] == (Bucket {
            up: up_in(runs@.take(0), from, to, n as nat, i),
            ..filled[i]
        }) by {
            assert(!filled[i].up);
        }
    }
    for k in 0..runs.len()
        invariant
            n == slices(buckets),
            span == span_of(from, to),
            window_fits(from, to, buckets, runs@),
            k <= runs@.len(),
            out@.len() == n,
            filled.len() == n,
            forall|i: int|
                0 <= i < n ==> #[trigger] out@[i] == (Bucket {
                    up: up_in(runs@.take(k as int), from, to, n as nat, i),
                    ..filled[i]
                }),
    {
        let run = runs[k];
        proof {
            assert(run_from(runs@[k as int], from) * n <= u64::MAX);
            lemma_slice_at(run_from(run, from), span as nat, n as nat);
            lemma_slice_at(run_to(run, from, to), span as nat, n as nat);
        }
        let first: u64 = if run.start > from {
            run.start - from
        } else {
            0
        };
        let end: u64 = if to == 0 {
            0
        } else {
            to - 1
        };
        let last: u64 = if run.last <= end {
            run.last
        } else {
            end
        };
        let reach: u64 = if last > from {
            last - from
        } else {
            0
        };
        let lo = clamp_index(first * n as u64 / span, n);
        let hi = clamp_index(reach * n as u64 / span, n);
        let ghost before = out@;
        mark_up(&mut out, lo, hi);
        proof {
            let now = runs@.take(k + 1);
            assert forall|i: int| 0 <= i < n implies #[trigger] out@[i] == (Bucket {
                up: up_in(now, from, to, n as nat, i),
                ..filled[i]
            }) by {
                assert(before[i] == (Bucket {
                    up: up_in(runs@.take(k as int), from, to, n as nat, i),
                    ..filled[i]
                }));
                if up_in(runs@.take(k as int), from, to, n as nat, i) {
                    let m = choose|m: int|
                        0 <= m < k && run_covers(
                            #[trigger] runs@.take(k as int)[m],
                            from,
                            to,
                            n as nat,
                            i,
                        );
                    assert(run_covers(now[m], from, to, n as nat, i));
                }
                if lo <= i <= hi {
                    assert(run_covers(now[k as int], from, to, n as nat, i));
                }
                if up_in(now, from, to, n as nat, i) && !(lo <= i <= hi) {
                    let m = choose|m: int|
                        0 <= m < now.len() && run_covers(#[trigger] now[m], from, to, n as nat, i);
                    assert(m != k);
                    assert(run_covers(runs@.take(k as int)[m], from, to, n as nat, i));
                }
            }
        }
    }
    assert(runs@.take(runs@.len() as int) =~= runs@);
    out
}

/// `i`, or the last index where there is no `i`-th.
fn clamp_index(i: u64, n: usize) -> (r: usize)
    requires
        n > 0,
    ensures
        r == if i < n {
            i as int
        } else {
            n - 1
        },
{
    if i < n as u64 {
        i as usize
    } else {
        n - 1
    }
}

/// Marks a stretch of buckets as up.
fn mark_up(out: &mut Vec<Bucket>, lo: usize, hi: usize)
    requires
        hi < old(out)@.len(),
    ensures
        final(out)@.len() == old(out)@.len(),
        forall|i: int|
            0 <= i < final(out)@.len() ==> #[trigger] final(out)@[i] == (Bucket {
                up: old(out)@[i].up || lo <= i <= hi,
                ..old(out)@[i]
            }),
{
    let ghost before = out@;
    let mut i: usize = lo;
    while i <= hi
        invariant
            hi < out.len(),
            lo <= i,
            lo <= hi ==> i <= hi + 1,
            lo > hi ==> i == lo,
            out@.len() == before.len(),
            forall|j: int|
                0 <= j < out@.len() ==> #[trigger] out@[j] == (Bucket {
                    up: before[j].up || lo <= j < i && j <= hi,
                    ..before[j]
                }),
        decreases hi + 1 - i,
    {
        let b = out[i];
        out.set(
            i,
            Bucket {
                t: b.t,
                val: b.val,
                worst: b.worst,
                mean: b.mean,
                best: b.best,
                loss: b.loss,
                count: b.count,
                up: true,
            },
        );
        i = i + 1;
    }
}

proof fn lemma_never_up(agg: Seq<char>, base: Seq<Bucket>, rows: Seq<SliceRow>)
    requires
        base.len() > 0,
        forall|i: int| 0 <= i < base.len() ==> !(#[trigger] base[i]).up,
    ensures
        forall|i: int| 0 <= i < base.len() ==> !(#[trigger] with_rows(agg, base, rows)[i]).up,
    decreases rows.len(),
{
    if rows.len() > 0 {
        lemma_never_up(agg, base, rows.drop_last());
        lemma_with_rows_len(agg, base, rows.drop_last());
    }
}

/// The bucket of a single sample, for a view in which each column is one probe.
pub fn sample_bucket(ts: u64, rtt: Option<Millis>) -> (r: Bucket)
    ensures
        r == (Bucket {
            t: ts,
            val: rtt,
            worst: rtt,
            mean: rtt,
            best: rtt,
            loss: Loss {
                lost: if rtt is None {
                    1
                } else {
                    0
                },
                of: 1,
            },
            count: 1,
            up: true,
        }),
        r.t == ts,
        r.val == rtt && r.worst == rtt && r.mean == rtt && r.best == rtt,
        r.loss.lost + (if rtt is Some {
            1int
        } else {
            0
        }) == r.count,
        r.loss.of == r.count == 1,
        r.up,
{
    let lost: i64 = match rtt {
        Some(_) => 0,
        None => 1,
    };
    Bucket {
        t: ts,
        val: rtt,
        worst: rtt,
        mean: rtt,
        best: rtt,
        loss: Loss { lost, of: 1 },
        count: 1,
        up: true,
    }
}

// ---- laws ------------------------------------------------------------------

/// The slice that an instant of the window falls into.
pub open spec fn slice_of(ts: u64, from: u64, to: u64, n: nat) -> int {
    (ts - from) * n / span_of(from, to) as int
}

/// Every instant of a window falls into one of its slices: no earlier than the slice begins, and
/// no later than the next one does.
pub proof fn instants_lie_in_their_slice(ts: u64, from: u64, to: u64, n: nat)
    requires
        n > 0,
        from <= ts < to,
    ensures
        0 <= slice_of(ts, from, to, n) < n,
        slice_start(from, span_of(from, to), n, slice_of(ts, from, to, n)) <= ts,
        ts <= slice_start(from, span_of(from, to), n, slice_of(ts, from, to, n) + 1),
{
    let span = span_of(from, to) as int;
    let x = ts - from;
    let i = slice_of(ts, from, to, n);
    let m = n as int;
    assert(0 <= x < span);
    assert(0 <= x * m) by (nonlinear_arith)
        requires
            0 <= x,
            0 < m,
    ;
    lemma_fundamental_div_mod(x * m, span);
    assert(i >= 0) by (nonlinear_arith)
        requires
            i == (x * m) / span,
            0 <= x * m,
            span > 0,
    ;
    assert(i < m) by (nonlinear_arith)
        requires
            x * m == span * i + (x * m) % span,
            0 <= (x * m) % span,
            0 <= x < span,
            m > 0,
            span > 0,
    ;
    assert((x * m) % span < span);
    // i * span <= x * m < (i + 1) * span
    assert(span * i <= x * m < span * (i + 1)) by (nonlinear_arith)
        requires
            x * m == span * i + (x * m) % span,
            0 <= (x * m) % span < span,
    ;
    assert(span * i / m <= x) by (nonlinear_arith)
        requires
            span * i <= x * m,
            m > 0,
    ;
    assert(x <= span * (i + 1) / m) by (nonlinear_arith)
        requires
            x * m < span * (i + 1),
            m > 0,
    ;
}

/// A slice in which the daemon ran at some instant is marked as up.
pub proof fn running_instants_are_up(ts: u64, from: u64, to: u64, n: nat, runs: Seq<Run>, k: int)
    requires
        n > 0,
        from <= ts < to,
        0 <= k < runs.len(),
        runs[k].start <= ts <= runs[k].last,
    ensures
        up_in(runs, from, to, n, slice_of(ts, from, to, n)),
{
    let span = span_of(from, to) as int;
    let run = runs[k];
    let x = ts - from;
    let a = run_from(run, from);
    let b = run_to(run, from, to);
    instants_lie_in_their_slice(ts, from, to, n);
    assert(0 <= a <= x <= b);
    assert(a * n <= x * n <= b * n) by (nonlinear_arith)
        requires
            0 <= a <= x <= b,
    ;
    lemma_div_is_ordered(a * n, x * n, span);
    lemma_div_is_ordered(x * n, b * n, span);
    lemma_slice_at(a, span as nat, n);
    lemma_slice_at(b, span as nat, n);
    assert(run_covers(runs[k], from, to, n, slice_of(ts, from, to, n)));
}

/// A slice is marked as up only for a run that touches it: one that has begun by the time the
/// next slice begins, and was still alive when the slice began. Anything else stays grey.
pub proof fn up_slices_touch_a_run(from: u64, to: u64, n: nat, runs: Seq<Run>, i: int)
    requires
        from < to,
        0 <= i < n,
        forall|k: int|
            0 <= k < runs.len() ==> (#[trigger] runs[k]).start < to && from <= runs[k].last,
        up_in(runs, from, to, n, i),
    ensures
        exists|k: int|
            0 <= k < runs.len() && (#[trigger] runs[k]).start <= slice_start(
                from,
                span_of(from, to),
                n,
                i + 1,
            ) && slice_start(from, span_of(from, to), n, i) <= runs[k].last,
{
    let k = choose|k: int| 0 <= k < runs.len() && run_covers(#[trigger] runs[k], from, to, n, i);
    let span = span_of(from, to) as int;
    let a = run_from(runs[k], from);
    let b = run_to(runs[k], from, to);
    let m = n as int;
    lemma_slice_at(a, span as nat, n);
    lemma_slice_at(b, span as nat, n);
    lemma_fundamental_div_mod(a * m, span);
    lemma_fundamental_div_mod(b * m, span);
    assert(0 <= a < span && 0 <= b < span);
    let p = a * m / span;
    let q = b * m / span;
    assert(p < m) by (nonlinear_arith)
        requires
            a * m == span * p + (a * m) % span,
            0 <= (a * m) % span,
            0 <= a < span,
            m > 0,
            span > 0,
    ;
    assert(q < m) by (nonlinear_arith)
        requires
            b * m == span * q + (b * m) % span,
            0 <= (b * m) % span,
            0 <= b < span,
            m > 0,
            span > 0,
    ;
    assert(p <= i <= q);
    assert(a * m < span * (i + 1)) by (nonlinear_arith)
        requires
            a * m == span * p + (a * m) % span,
            (a * m) % span < span,
            p <= i,
            span > 0,
    ;
    assert(span * i <= b * m) by (nonlinear_arith)
        requires
            b * m == span * q + (b * m) % span,
            0 <= (b * m) % span,
            i <= q,
            span > 0,
    ;
    assert(a <= span * (i + 1) / m) by (nonlinear_arith)
        requires
            a * m < span * (i + 1),
            m > 0,
    ;
    assert(span * i / m <= b) by (nonlinear_arith)
        requires
            span * i <= b * m,
            m > 0,
    ;
    assert(runs[k].start <= from + a);
    assert(from + b <= runs[k].last);
}

/// Rows of different slices of the window each fill the bucket of their slice, and a slice that
/// no row is about stays empty.
pub proof fn rows_fill_their_slices(agg: Seq<char>, base: Seq<Bucket>, rows: Seq<SliceRow>)
    requires
        base.len() > 0,
        forall|k: int| 0 <= k < rows.len() ==> 0 <= (#[trigger] rows[k]).slice < base.len(),
        forall|j: int, k: int|
            0 <= j < k < rows.len() ==> (#[trigger] rows[j]).slice != (#[trigger] rows[k]).slice,
    ensures
        forall|k: int|
            0 <= k < rows.len() ==> with_rows(agg, base, rows)[(#[trigger] rows[k]).slice as int]
                == with_row(agg, base[rows[k].slice as int], rows[k]),
        forall|i: int|
            0 <= i < base.len() && (forall|k: int|
                0 <= k < rows.len() ==> (#[trigger] rows[k]).slice != i) ==> #[trigger] with_rows(
                agg,
                base,
                rows,
            )[i] == base[i],
    decreases rows.len(),
{
    if rows.len() > 0 {
        let front = rows.drop_last();
        let last = rows.last();
        assert forall|k: int| 0 <= k < front.len() implies 0 <= (#[trigger] front[k]).slice
            < base.len() by {
            assert(front[k] == rows[k]);
        }
        assert forall|j: int, k: int| 0 <= j < k < front.len() implies (#[trigger] front[j]).slice
            != (#[trigger] front[k]).slice by {
            assert(rows[j].slice != rows[k].slice);
        }
        rows_fill_their_slices(agg, base, front);
        lemma_with_rows_len(agg, base, front);
        assert(rows[rows.len() - 1] == last);
        assert forall|k: int| 0 <= k < front.len() implies (#[trigger] front[k]).slice
            != last.slice by {
            assert(rows[k].slice != rows[rows.len() - 1].slice);
        }
        assert forall|k: int| 0 <= k < rows.len() implies with_rows(
            agg,
            base,
            rows,
        )[(#[trigger] rows[k]).slice as int] == with_row(agg, base[rows[k].slice as int], rows[k]) by {
            if k < front.len() {
                assert(front[k].slice != last.slice);
                assert(front[k] == rows[k]);
            } else {
                assert(with_rows(agg, base, front)[last.slice as int] == base[last.slice as int]);
            }
        }
        assert forall|i: int|
            0 <= i < base.len() && (forall|k: int|
                0 <= k < rows.len() ==> (#[trigger] rows[k]).slice != i) implies #[trigger] with_rows(
            agg,
            base,
            rows,
        )[i] == base[i] by {
            assert forall|k: int| 0 <= k < front.len() implies (#[trigger] front[k]).slice != i by {
                assert(rows[k].slice != i);
            }
            assert(with_rows(agg, base, front)[i] == base[i]);
        }
    }
}

/// A sample of the history: when the probe was sent, and its round-trip time unless it was lost.
pub struct Probe {
    pub ts: u64,
    pub rtt: Option<Millis>,
}

/// The probe was sent during slice `i` of `n`.
pub open spec fn sent_in(p: Probe, from: u64, to: u64, n: nat, i: int) -> bool {
    from <= p.ts < to && slice_of(p.ts, from, to, n) == i
}

/// How many probes were sent during slice `i` of `n`; where `lost` says so, only those that were
/// lost.
pub open spec fn tally(ps: Seq<Probe>, from: u64, to: u64, n: nat, i: int, lost: bool) -> nat
    decreases ps.len(),
{
    if ps.len() == 0 {
        0
    } else {
        let p = ps.last();
        tally(ps.drop_last(), from, to, n, i, lost) + if sent_in(p, from, to, n, i) && (!lost
            || p.rtt is None) {
            1nat
        } else {
            0
        }
    }
}

/// This is the highest round-trip time of slice `i` of `n`, or none where every probe in it was
/// lost. Round-trip times are not negative, so their doubles are in the order of their bits.
pub open spec fn is_worst(
    ps: Seq<Probe>,
    from: u64,
    to: u64,
    n: nat,
    i: int,
    worst: Option<Millis>,
) -> bool {
    &&& worst matches Some(m) ==> exists|k: int|
        0 <= k < ps.len() && sent_in(#[trigger] ps[k], from, to, n, i) && ps[k].rtt == Some(m)
    &&& forall|k: int|
        0 <= k < ps.len() && sent_in(#[trigger] ps[k], from, to, n, i) && (ps[k].rtt is Some) ==> (
        worst matches Some(m) && ps[k].rtt->0.bits <= m.bits)
}

/// This is the lowest round-trip time of slice `i` of `n`, or none where every probe in it was
/// lost.
pub open spec fn is_best(
    ps: Seq<Probe>,
    from: u64,
    to: u64,
    n: nat,
    i: int,
    best: Option<Millis>,
) -> bool {
    &&& best matches Some(m) ==> exists|k: int|
        0 <= k < ps.len() && sent_in(#[trigger] ps[k], from, to, n, i) && ps[k].rtt == Some(m)
    &&& forall|k: int|
        0 <= k < ps.len() && sent_in(#[trigger] ps[k], from, to, n, i) && (ps[k].rtt is Some) ==> (
        best matches Some(m) && m.bits <= ps[k].rtt->0.bits)
}

/// The rows sum these samples up by slice: one row for each slice that has a sample.
pub open spec fn sums_up(
    rows: Seq<SliceRow>,
    ps: Seq<Probe>,
    from: u64,
    to: u64,
    n: nat,
) -> bool {
    &&& forall|k: int|
        0 <= k < rows.len() ==> {
            let row = #[trigger] rows[k];
            &&& 0 <= row.slice < n
            &&& row.count > 0
            &&& row.count == tally(ps, from, to, n, row.slice as int, false)
            &&& row.lost == tally(ps, from, to, n, row.slice as int, true)
            &&& is_worst(ps, from, to, n, row.slice as int, row.worst)
            &&& is_best(ps, from, to, n, row.slice as int, row.best)
        }
    &&& forall|j: int, k: int|
        0 <= j < k < rows.len() ==> (#[trigger] rows[j]).slice != (#[trigger] rows[k]).slice
    &&& forall|i: int|
        0 <= i < n && #[trigger] tally(ps, from, to, n, i, false) > 0 ==> exists|k: int|
            0 <= k < rows.len() && (#[trigger] rows[k]).slice == i
}

/// How many probes all these buckets count.
pub open spec fn total_count(bs: Seq<Bucket>) -> int
    decreases bs.len(),
{
    if bs.len() == 0 {
        0
    } else {
        total_count(bs.drop_last()) + bs.last().count
    }
}

/// How many lost probes all these buckets count.
pub open spec fn total_lost(bs: Seq<Bucket>) -> int
    decreases bs.len(),
{
    if bs.len() == 0 {
        0
    } else {
        total_lost(bs.drop_last()) + bs.last().loss.lost
    }
}

/// The tallies of the first `k` slices, added up.
spec fn tallies(ps: Seq<Probe>, from: u64, to: u64, n: nat, lost: bool, k: nat) -> nat
    decreases k,
{
    if k == 0 {
        0
    } else {
        tallies(ps, from, to, n, lost, (k - 1) as nat) + tally(
            ps,
            from,
            to,
            n,
            k - 1,
            lost,
        )
    }
}

/// One probe more counts once, in its slice.
proof fn lemma_one_more(ps: Seq<Probe>, from: u64, to: u64, n: nat, lost: bool, k: nat)
    requires
        ps.len() > 0,
        n > 0,
    ensures
        tallies(ps, from, to, n, lost, k) == tallies(ps.drop_last(), from, to, n, lost, k) + if from
            <= ps.last().ts < to && 0 <= slice_of(ps.last().ts, from, to, n) < k && (!lost
            || ps.last().rtt is None) {
            1nat
        } else {
            0
        },
    decreases k,
{
    if k > 0 {
        lemma_one_more(ps, from, to, n, lost, (k - 1) as nat);
    }
}

/// The tallies of all slices add up to that of the whole window.
proof fn lemma_tallies(ps: Seq<Probe>, from: u64, to: u64, n: nat, lost: bool)
    requires
        n > 0,
    ensures
        tallies(ps, from, to, n, lost, n) == tally(ps, from, to, 1, 0, lost),
    decreases ps.len(),
{
    if ps.len() > 0 {
        lemma_tallies(ps.drop_last(), from, to, n, lost);
        lemma_one_more(ps, from, to, n, lost, n);
        let ts = ps.last().ts;
        if from <= ts < to {
            instants_lie_in_their_slice(ts, from, to, n);
            instants_lie_in_their_slice(ts, from, to, 1);
        }
    } else {
        lemma_no_tallies(ps, from, to, n, lost, n);
    }
}

/// Without probes there is nothing to add up.
proof fn lemma_no_tallies(ps: Seq<Probe>, from: u64, to: u64, n: nat, lost: bool, k: nat)
    requires
        ps.len() == 0,
    ensures
        tallies(ps, from, to, n, lost, k) == 0,
    decreases k,
{
    if k > 0 {
        lemma_no_tallies(ps, from, to, n, lost, (k - 1) as nat);
    }
}

/// No slice counts more than the window does, nor more lost probes than probes.
proof fn lemma_tally_bounds(ps: Seq<Probe>, from: u64, to: u64, n: nat, i: int)
    requires
        n > 0,
    ensures
        tally(ps, from, to, n, i, false) <= tally(ps, from, to, 1, 0, false),
        tally(ps, from, to, n, i, true) <= tally(ps, from, to, n, i, false),
    decreases ps.len(),
{
    if ps.len() > 0 {
        lemma_tally_bounds(ps.drop_last(), from, to, n, i);
        let ts = ps.last().ts;
        if from <= ts < to {
            instants_lie_in_their_slice(ts, from, to, 1);
        }
    }
}

/// A slice with a probe counts at least one.
proof fn lemma_tally_positive(ps: Seq<Probe>, from: u64, to: u64, n: nat, i: int, k: int)
    requires
        0 <= k < ps.len(),
        sent_in(ps[k], from, to, n, i),
    ensures
        tally(ps, from, to, n, i, false) > 0,
    decreases ps.len(),
{
    if k < ps.len() - 1 {
        assert(ps.drop_last()[k] == ps[k]);
        lemma_tally_positive(ps.drop_last(), from, to, n, i, k);
    }
}

/// A bucket of a window says what the samples of its slice come to.
pub proof fn buckets_sum_up_their_samples(
    from: u64,
    to: u64,
    buckets: usize,
    agg: Seq<char>,
    rows: Seq<SliceRow>,
    ps: Seq<Probe>,
    i: int,
)
    requires
        sums_up(rows, ps, from, to, slices(buckets)),
        tally(ps, from, to, 1, 0, false) <= u32::MAX,
        0 <= i < slices(buckets),
    ensures
        ({
            let b = filled_buckets(from, to, buckets, agg, rows)[i];
            let n = slices(buckets);
            &&& filled_buckets(from, to, buckets, agg, rows).len() == n
            &&& b.count == tally(ps, from, to, n, i, false)
            &&& b.loss.lost == tally(ps, from, to, n, i, true)
            &&& b.count > 0 ==> b.loss.of == b.count
            &&& is_worst(ps, from, to, n, i, b.worst)
            &&& is_best(ps, from, to, n, i, b.best)
        }),
{
    let n = slices(buckets);
    let base = Seq::new(
        n,
        |i: int| empty_bucket(slice_start(from, span_of(from, to), n, i) as u64),
    );
    let filled = filled_buckets(from, to, buckets, agg, rows);
    assert(filled == with_rows(agg, base, rows));
    lemma_with_rows_len(agg, base, rows);
    rows_fill_their_slices(agg, base, rows);
    lemma_tally_bounds(ps, from, to, n, i);
    if exists|k: int| 0 <= k < rows.len() && (#[trigger] rows[k]).slice == i {
        let k = choose|k: int| 0 <= k < rows.len() && (#[trigger] rows[k]).slice == i;
        assert(filled[rows[k].slice as int] == with_row(agg, base[i], rows[k]));
    } else {
        assert(filled[i] == base[i]);
        assert(tally(ps, from, to, n, i, false) == 0);
        assert forall|k: int| 0 <= k < ps.len() implies !sent_in(
            #[trigger] ps[k],
            from,
            to,
            n,
            i,
        ) by {
            if sent_in(ps[k], from, to, n, i) {
                lemma_tally_positive(ps, from, to, n, i, k);
            }
        }
    }
}

/// The first `k` buckets count what the first `k` tallies add up to.
proof fn lemma_totals(
    from: u64,
    to: u64,
    buckets: usize,
    agg: Seq<char>,
    rows: Seq<SliceRow>,
    ps: Seq<Probe>,
    k: nat,
)
    requires
        sums_up(rows, ps, from, to, slices(buckets)),
        tally(ps, from, to, 1, 0, false) <= u32::MAX,
        k <= slices(buckets),
    ensures
        total_count(filled_buckets(from, to, buckets, agg, rows).take(k as int)) == tallies(
            ps,
            from,
            to,
            slices(buckets),
            false,
            k,
        ),
        total_lost(filled_buckets(from, to, buckets, agg, rows).take(k as int)) == tallies(
            ps,
            from,
            to,
            slices(buckets),
            true,
            k,
        ),
    decreases k,
{
    let bs = filled_buckets(from, to, buckets, agg, rows);
    if k > 0 {
        lemma_totals(from, to, buckets, agg, rows, ps, (k - 1) as nat);
        buckets_sum_up_their_samples(from, to, buckets, agg, rows, ps, k - 1);
        assert(bs.take(k as int).drop_last() =~= bs.take(k - 1));
        assert(bs.take(k as int).last() == bs[k - 1]);
    }
}

/// A window in one slice agrees with the same window in many: it counts as many probes and as many
/// lost ones as they do together, its worst is the worst of theirs, and its best the best, none
/// where they have none.
pub proof fn one_slice_sums_up_the_slices(
    from: u64,
    to: u64,
    buckets: usize,
    agg: Seq<char>,
    whole: Seq<SliceRow>,
    parts: Seq<SliceRow>,
    ps: Seq<Probe>,
)
    requires
        from < to,
        sums_up(whole, ps, from, to, 1),
        sums_up(parts, ps, from, to, slices(buckets)),
        tally(ps, from, to, 1, 0, false) <= u32::MAX,
    ensures
        ({
            let a = filled_buckets(from, to, 1, agg, whole)[0];
            let bs = filled_buckets(from, to, buckets, agg, parts);
            &&& a.count == total_count(bs)
            &&& a.loss.lost == total_lost(bs)
            &&& a.worst is None <==> forall|i: int|
                0 <= i < bs.len() ==> (#[trigger] bs[i]).worst is None
            &&& a.worst matches Some(m) ==> {
                &&& exists|i: int| 0 <= i < bs.len() && (#[trigger] bs[i]).worst == Some(m)
                &&& forall|i: int|
                    0 <= i < bs.len() && ((#[trigger] bs[i]).worst is Some) ==> bs[i].worst->0.bits
                        <= m.bits
            }
            &&& a.best is None <==> forall|i: int|
                0 <= i < bs.len() ==> (#[trigger] bs[i]).best is None
            &&& a.best matches Some(m) ==> {
                &&& exists|i: int| 0 <= i < bs.len() && (#[trigger] bs[i]).best == Some(m)
                &&& forall|i: int|
                    0 <= i < bs.len() && ((#[trigger] bs[i]).best is Some) ==> m.bits
                        <= bs[i].best->0.bits
            }
        }),
{
    let n = slices(buckets);
    let a = filled_buckets(from, to, 1, agg, whole)[0];
    let bs = filled_buckets(from, to, buckets, agg, parts);
    buckets_sum_up_their_samples(from, to, 1, agg, whole, ps, 0);
    buckets_sum_up_their_samples(from, to, buckets, agg, parts, ps, 0);
    lemma_totals(from, to, buckets, agg, parts, ps, n);
    assert(bs.take(n as int) =~= bs);
    lemma_tallies(ps, from, to, n, false);
    lemma_tallies(ps, from, to, n, true);
    assert forall|i: int| 0 <= i < bs.len() && ((#[trigger] bs[i]).worst is Some) implies (
    a.worst matches Some(m) && bs[i].worst->0.bits <= m.bits) by {
        buckets_sum_up_their_samples(from, to, buckets, agg, parts, ps, i);
        let x = bs[i].worst->0;
        let k = choose|k: int|
            0 <= k < ps.len() && sent_in(#[trigger] ps[k], from, to, n, i) && ps[k].rtt == Some(x);
        instants_lie_in_their_slice(ps[k].ts, from, to, 1);
        assert(sent_in(ps[k], from, to, 1, 0));
    }
    if a.worst is Some {
        let m = a.worst->0;
        let k = choose|k: int|
            0 <= k < ps.len() && sent_in(#[trigger] ps[k], from, to, 1, 0) && ps[k].rtt == Some(m);
        instants_lie_in_their_slice(ps[k].ts, from, to, n);
        let i = slice_of(ps[k].ts, from, to, n);
        assert(sent_in(ps[k], from, to, n, i));
        buckets_sum_up_their_samples(from, to, buckets, agg, parts, ps, i);
        assert(bs[i].worst is Some);
        assert(bs[i].worst->0.bits == m.bits);
        assert(bs[i].worst == Some(m));
    }
    assert forall|i: int| 0 <= i < bs.len() && ((#[trigger] bs[i]).best is Some) implies (
    a.best matches Some(m) && m.bits <= bs[i].best->0.bits) by {
        buckets_sum_up_their_samples(from, to, buckets, agg, parts, ps, i);
        let x = bs[i].best->0;
        let k = choose|k: int|
            0 <= k < ps.len() && sent_in(#[trigger] ps[k], from, to, n, i) && ps[k].rtt == Some(x);
        instants_lie_in_their_slice(ps[k].ts, from, to, 1);
        assert(sent_in(ps[k], from, to, 1, 0));
    }
    if a.best is Some {
        let m = a.best->0;
        let k = choose|k: int|
            0 <= k < ps.len() && sent_in(#[trigger] ps[k], from, to, 1, 0) && ps[k].rtt == Some(m);
        instants_lie_in_their_slice(ps[k].ts, from, to, n);
        let i = slice_of(ps[k].ts, from, to, n);
        assert(sent_in(ps[k], from, to, n, i));
        buckets_sum_up_their_samples(from, to, buckets, agg, parts, ps, i);
        assert(bs[i].best is Some);
        assert(bs[i].best->0.bits == m.bits);
        assert(bs[i].best == Some(m));
    }
}

/// The daemon ran during a window exactly where it ran during some slice of it, for runs that
/// touch the window.
pub proof fn one_slice_is_up_with_the_slices(from: u64, to: u64, n: nat, runs: Seq<Run>)
    requires
        from < to,
        n > 0,
        forall|k: int|
            0 <= k < runs.len() ==> {
                let run = #[trigger] runs[k];
                run.start <= run.last && run.start < to && from <= run.last
            },
    ensures
        up_in(runs, from, to, 1, 0) <==> exists|i: int|
            0 <= i < n && #[trigger] up_in(runs, from, to, n, i),
{
    let span = span_of(from, to);
    if runs.len() > 0 {
        let run = runs[0];
        let a = run_from(run, from);
        let b = run_to(run, from, to);
        assert(0 <= a <= b < span);
        lemma_slice_at(a, span, 1);
        lemma_slice_at(b, span, 1);
        assert(run_covers(runs[0], from, to, 1, 0));
        assert(up_in(runs, from, to, 1, 0));
        lemma_slice_at(a, span, n);
        lemma_slice_at(b, span, n);
        assert(a * n <= b * n) by (nonlinear_arith)
            requires
                0 <= a <= b,
        ;
        lemma_div_is_ordered(a * n, b * n, span as int);
        let i = slice_at(a, span, n);
        assert(run_covers(runs[0], from, to, n, i));
        assert(up_in(runs, from, to, n, i));
    }
}

/// A bucket begins at its share of the window: with the window the first, and each at the whole
/// milliseconds of as many shares as lie before it. A window always has a bucket, and otherwise as
/// many as were asked for.
pub proof fn buckets_begin_evenly(
    from: u64,
    to: u64,
    buckets: usize,
    agg: Seq<char>,
    rows: Seq<SliceRow>,
    i: int,
)
    requires
        from < to,
        0 <= i < filled_buckets(from, to, buckets, agg, rows).len(),
    ensures
        ({
            let bs = filled_buckets(from, to, buckets, agg, rows);
            let n = bs.len();
            &&& n >= 1
            &&& buckets >= 1 ==> n == buckets
            &&& buckets == 0 ==> n == 1
            &&& from <= bs[i].t < to
            &&& (bs[i].t - from) * n <= (to - from) * i < (bs[i].t - from + 1) * n
            &&& bs[0].t == from
        }),
{
    let n = slices(buckets);
    let base = Seq::new(
        n,
        |i: int| empty_bucket(slice_start(from, span_of(from, to), n, i) as u64),
    );
    lemma_with_rows_len(agg, base, rows);
    lemma_same_start(agg, base, rows, i);
    lemma_same_start(agg, base, rows, 0);
    lemma_slice_start(from, to, n, i);
    lemma_slice_start(from, to, n, 0);
    let span = to - from;
    let m = n as int;
    let q = span * i / m;
    lemma_fundamental_div_mod(span * i, m);
    assert(q * m <= span * i < (q + 1) * m) by (nonlinear_arith)
        requires
            span * i == m * q + (span * i) % m,
            0 <= (span * i) % m < m,
    ;
    assert(q < span) by (nonlinear_arith)
        requires
            q * m <= span * i,
            i < m,
            span > 0,
            i >= 0,
    ;
    assert(span * 0 / m == 0) by (nonlinear_arith)
        requires
            m > 0,
    ;
}

/// Rows leave a bucket where it begins.
proof fn lemma_same_start(agg: Seq<char>, base: Seq<Bucket>, rows: Seq<SliceRow>, i: int)
    requires
        0 <= i < base.len(),
    ensures
        with_rows(agg, base, rows)[i].t == base[i].t,
    decreases rows.len(),
{
    if rows.len() > 0 {
        lemma_same_start(agg, base, rows.drop_last(), i);
        lemma_with_rows_len(agg, base, rows.drop_last());
    }
}

/// What is drawn is the figure that the aggregate names, whatever was lost: under `worst` the
/// highest round trip of the slice, under `best` the lowest, each absent only where no probe of the
/// slice was answered; under `mean`, `median` and `trimmed` that figure of the row that sums the
/// slice up. An aggregate of any other name draws the worst.
pub proof fn drawn_values_are_the_aggregates(
    from: u64,
    to: u64,
    buckets: usize,
    agg: Seq<char>,
    rows: Seq<SliceRow>,
    ps: Seq<Probe>,
    i: int,
)
    requires
        sums_up(rows, ps, from, to, slices(buckets)),
        tally(ps, from, to, 1, 0, false) <= u32::MAX,
        0 <= i < slices(buckets),
    ensures
        ({
            let b = filled_buckets(from, to, buckets, agg, rows)[i];
            let n = slices(buckets);
            let answered = exists|k: int|
                0 <= k < ps.len() && sent_in(#[trigger] ps[k], from, to, n, i) && ps[k].rtt is Some;
            &&& b.worst is Some <==> answered
            &&& b.best is Some <==> answered
            &&& agg == "best"@ ==> b.val == b.best && is_best(ps, from, to, n, i, b.val)
            &&& agg == "mean"@ ==> b.val == b.mean
            &&& agg != "best"@ && agg != "mean"@ && agg != "median"@ && agg != "trimmed"@ ==> b.val
                == b.worst && is_worst(ps, from, to, n, i, b.val)
            &&& forall|k: int|
                0 <= k < rows.len() && (#[trigger] rows[k]).slice == i ==> b.mean == rows[k].mean
                    && (agg == "median"@ || agg == "trimmed"@ ==> b.val == rows[k].reduced)
            &&& (forall|k: int| 0 <= k < rows.len() ==> (#[trigger] rows[k]).slice != i) ==> b.val
                is None && b.mean is None
        }),
{
    let n = slices(buckets);
    let base = Seq::new(
        n,
        |i: int| empty_bucket(slice_start(from, span_of(from, to), n, i) as u64),
    );
    let filled = filled_buckets(from, to, buckets, agg, rows);
    buckets_sum_up_their_samples(from, to, buckets, agg, rows, ps, i);
    rows_fill_their_slices(agg, base, rows);
    reveal_strlit("best");
    reveal_strlit("mean");
    reveal_strlit("median");
    reveal_strlit("trimmed");
    assert("best"@[0] != "mean"@[0]);
    assert("best"@.len() == 4 && "mean"@.len() == 4 && "median"@.len() == 6 && "trimmed"@.len()
        == 7);
    if exists|k: int| 0 <= k < rows.len() && (#[trigger] rows[k]).slice == i {
        let k = choose|k: int| 0 <= k < rows.len() && (#[trigger] rows[k]).slice == i;
        assert(filled[rows[k].slice as int] == with_row(agg, base[i], rows[k]));
        assert forall|j: int| 0 <= j < rows.len() && (#[trigger] rows[j]).slice == i implies j
            == k by {}
    } else {
        assert(filled[i] == base[i]);
    }
}

/// Another aggregate draws another figure and changes nothing else.
pub proof fn aggregates_change_the_drawn_value_alone(
    from: u64,
    to: u64,
    buckets: usize,
    a: Seq<char>,
    b: Seq<char>,
    rows: Seq<SliceRow>,
    i: int,
)
    requires
        0 <= i < slices(buckets),
    ensures
        ({
            let x = filled_buckets(from, to, buckets, a, rows)[i];
            let y = filled_buckets(from, to, buckets, b, rows)[i];
            x == (Bucket { val: x.val, ..y })
        }),
{
    let n = slices(buckets);
    let base = Seq::new(
        n,
        |i: int| empty_bucket(slice_start(from, span_of(from, to), n, i) as u64),
    );
    lemma_same_but_drawn(a, b, base, rows, i);
}

proof fn lemma_same_but_drawn(
    a: Seq<char>,
    b: Seq<char>,
    base: Seq<Bucket>,
    rows: Seq<SliceRow>,
    i: int,
)
    requires
        0 <= i < base.len(),
    ensures
        with_rows(a, base, rows)[i] == (Bucket {
            val: with_rows(a, base, rows)[i].val,
            ..with_rows(b, base, rows)[i]
        }),
    decreases rows.len(),
{
    if rows.len() > 0 {
        lemma_same_but_drawn(a, b, base, rows.drop_last(), i);
        lemma_with_rows_len(a, base, rows.drop_last());
        lemma_with_rows_len(b, base, rows.drop_last());
    }
}

/// One row more fills the bucket of its slice, the first for a slice before the window and the last
/// for one behind it, with its own figures, and leaves every other bucket as it is.
pub proof fn each_row_fills_one_bucket(
    from: u64,
    to: u64,
    buckets: usize,
    agg: Seq<char>,
    rows: Seq<SliceRow>,
    row: SliceRow,
    i: int,
)
    requires
        0 <= i < slices(buckets),
        0 <= row.count <= u32::MAX,
    ensures
        ({
            let old_b = filled_buckets(from, to, buckets, agg, rows)[i];
            let b = filled_buckets(from, to, buckets, agg, rows.push(row))[i];
            let last = slices(buckets) - 1;
            if row.slice == i || (row.slice < 0 && i == 0) || (row.slice > last && i == last) {
                &&& b.worst == row.worst && b.mean == row.mean && b.best == row.best
                &&& b.count == row.count
                &&& row.count > 0 ==> b.loss.lost == row.lost && b.loss.of == row.count
                &&& row.count == 0 ==> b.loss.lost == 0 && b.loss.of == 1
                &&& b.val == row.worst || b.val == row.mean || b.val == row.best || b.val
                    == row.reduced
                &&& b.t == old_b.t && b.up == old_b.up
            } else {
                b == old_b
            }
        }),
{
    let n = slices(buckets);
    let base = Seq::new(
        n,
        |i: int| empty_bucket(slice_start(from, span_of(from, to), n, i) as u64),
    );
    lemma_with_rows_len(agg, base, rows);
    assert(rows.push(row).drop_last() =~= rows);
}

/// Without rows every bucket is empty: nothing is drawn, nothing was attempted and nothing lost.
pub proof fn windows_without_rows_are_empty(
    from: u64,
    to: u64,
    buckets: usize,
    agg: Seq<char>,
    i: int,
)
    requires
        0 <= i < slices(buckets),
    ensures
        ({
            let b = filled_buckets(from, to, buckets, agg, Seq::empty())[i];
            &&& b.val is None && b.worst is None && b.mean is None && b.best is None
            &&& b.count == 0 && b.loss.lost == 0 && b.loss.of == 1 && !b.up
        }),
{
}

/// A window fits wherever its length, taken once for each slice, fits in 64 bits and its runs began
/// before it ends.
pub proof fn ordinary_windows_fit(from: u64, to: u64, buckets: usize, runs: Seq<Run>)
    requires
        from < to,
        (to - from) * slices(buckets) <= u64::MAX,
        forall|k: int| 0 <= k < runs.len() ==> (#[trigger] runs[k]).start <= to,
    ensures
        window_fits(from, to, buckets, runs),
{
    let n = slices(buckets) as int;
    let span = to - from;
    assert(span * (n - 1) <= span * n) by (nonlinear_arith)
        requires
            span >= 0,
    ;
    assert forall|k: int| 0 <= k < runs.len() implies run_from(#[trigger] runs[k], from) * n
        <= u64::MAX && run_to(runs[k], from, to) * n <= u64::MAX by {
        let a = run_from(runs[k], from);
        let b = run_to(runs[k], from, to);
        assert(0 <= a <= span && 0 <= b <= span);
        assert(a * n <= span * n && b * n <= span * n) by (nonlinear_arith)
            requires
                0 <= a <= span,
                0 <= b <= span,
                n >= 0,
        ;
    }
}

/// In a window without a length every bucket begins with the window.
pub proof fn empty_windows_have_one_beginning(
    from: u64,
    to: u64,
    buckets: usize,
    agg: Seq<char>,
    rows: Seq<SliceRow>,
    i: int,
)
    requires
        to <= from,
        0 <= i < filled_buckets(from, to, buckets, agg, rows).len(),
    ensures
        filled_buckets(from, to, buckets, agg, rows)[i].t == from,
{
    let n = slices(buckets);
    let base = Seq::new(
        n,
        |i: int| empty_bucket(slice_start(from, span_of(from, to), n, i) as u64),
    );
    lemma_with_rows_len(agg, base, rows);
    lemma_same_start(agg, base, rows, i);
    let m = n as int;
    assert(1 * i / m == 0) by (nonlinear_arith)
        requires
            0 <= i < m,
    ;
}

} // verus!
