//! Handing the collecting over from one running instance to the next.
//!
//! `poller.sem` names the instance that collects, `takeover.sem` one that waits to take over. An
//! instance that starts claims the first; where another that is alive holds it, it writes the
//! second and waits. The collecting instance looks for the second each time it checks in, and
//! gives way. A file that names a process which is gone is removed by whoever notices.
use crate::text::{
    all_white, contains, decimal, decimal_reads_back, first_word,
    first_words_stand_between_white_space, is_white, join_path, joined, leading_word,
    leading_word_is_first, parse_unsigned, push_decimal, read_unsigned,
    texts_are_found_where_they_stand,
};
use vstd::prelude::*;
use vstd::string::StringExecFns;

verus! {

/// How often the collecting instance checks in.
pub const TICK_MS: u64 = 1000;

/// How often a waiting instance looks again.
pub const WAIT_MS: u64 = 250;

/// The file that names the collecting instance.
pub fn poller_path(dir: &str) -> (r: String)
    ensures
        r@ == joined(dir@, "poller.sem"@),
{
    join_path(dir, "poller.sem")
}

/// The file that names a waiting instance.
pub fn takeover_path(dir: &str) -> (r: String)
    ensures
        r@ == joined(dir@, "takeover.sem"@),
{
    join_path(dir, "takeover.sem")
}

/// The process that a file names: its first word, as a number.
pub open spec fn named_pid(content: Option<Seq<char>>) -> Option<u32> {
    match content {
        Some(s) => match first_word(s) {
            Some(w) => match read_unsigned(w, u32::MAX as nat) {
                Some(n) => Some(n as u32),
                None => None,
            },
            None => None,
        },
        None => None,
    }
}

/// The process that a file names, from the file's content where it could be read.
pub fn read_pid(content: Option<String>) -> (r: Option<u32>)
    ensures
        r == named_pid(
            match content {
                Some(s) => Some(s@),
                None => None,
            },
        ),
{
    let s = match content {
        Some(s) => s,
        None => {
            return None;
        },
    };
    match leading_word(s.as_str()) {
        Some(w) => match parse_unsigned(&w, u32::MAX as u64) {
            Some(n) => Some(n as u32),
            None => None,
        },
        None => None,
    }
}

/// What a file holds: the process, and when it last checked in.
pub open spec fn sem_view(pid: u32, now: u64) -> Seq<char> {
    decimal(pid as nat) + " "@ + decimal(now as nat)
}

/// What a file holds: the process, and when it last checked in.
pub fn sem_text(pid: u32, now: u64) -> (r: String)
    ensures
        r@ == sem_view(pid, now),
{
    let mut r = String::new();
    push_decimal(&mut r, pid as u64);
    r.append(" ");
    push_decimal(&mut r, now);
    assert(r@ =~= sem_view(pid, now));
    r
}

/// A file names the process that wrote it.
pub proof fn written_pid_is_read(pid: u32, now: u64)
    ensures
        named_pid(Some(sem_view(pid, now))) == Some(pid),
{
    reveal_strlit(" ");
    decimal_reads_back(pid as nat, u32::MAX as nat);
    let rest = " "@ + decimal(now as nat);
    assert(rest[0] == ' ');
    leading_word_is_first(decimal(pid as nat), rest);
    assert(sem_view(pid, now) =~= decimal(pid as nat) + rest);
}

/// A line of the log: when, which process, and what it did.
pub fn log_line(now: u64, pid: u32, msg: &str) -> (r: String)
    ensures
        r@ == decimal(now as nat) + " pid="@ + decimal(pid as nat) + " "@ + msg@ + "\n"@,
{
    let mut r = String::new();
    push_decimal(&mut r, now);
    r.append(" pid=");
    push_decimal(&mut r, pid as u64);
    r.append(" ");
    r.append(msg);
    r.append("\n");
    assert(r@ =~= decimal(now as nat) + " pid="@ + decimal(pid as nat) + " "@ + msg@ + "\n"@);
    r
}

/// What an instance notes in the log.
#[derive(Clone, Copy, PartialEq, Eq, Structural, Debug)]
pub enum Note {
    Waiting(u32),
    StalePoller(u32),
    TookOver,
    ColdStart,
    HandingOff(u32),
    StaleTakeover(u32),
}

/// The text of a note.
pub open spec fn note_view(n: Note) -> Seq<char> {
    match n {
        Note::Waiting(pid) => "waiting to take over from pid "@ + decimal(pid as nat),
        Note::StalePoller(pid) => "clearing stale poller.sem (dead pid "@ + decimal(pid as nat)
            + ")"@,
        Note::TookOver => "promoted to active poller (took over)"@,
        Note::ColdStart => "claimed active poller (cold start)"@,
        Note::HandingOff(pid) => "handing off to pid "@ + decimal(pid as nat)
            + "; releasing and quitting"@,
        Note::StaleTakeover(pid) => "clearing stale takeover.sem (dead pid "@ + decimal(pid as nat)
            + ")"@,
    }
}

fn around(before: &str, pid: u32, after: &str) -> (r: String)
    ensures
        r@ == before@ + decimal(pid as nat) + after@,
{
    let mut r = before.to_owned();
    push_decimal(&mut r, pid as u64);
    r.append(after);
    r
}

impl Note {
    /// The text of this note.
    pub fn text(self) -> (r: String)
        ensures
            r@ == note_view(self),
    {
        match self {
            Note::Waiting(pid) => {
                let mut r = "waiting to take over from pid ".to_owned();
                push_decimal(&mut r, pid as u64);
                r
            },
            Note::StalePoller(pid) => around("clearing stale poller.sem (dead pid ", pid, ")"),
            Note::TookOver => "promoted to active poller (took over)".to_owned(),
            Note::ColdStart => "claimed active poller (cold start)".to_owned(),
            Note::HandingOff(pid) => around("handing off to pid ", pid, "; releasing and quitting"),
            Note::StaleTakeover(pid) => around("clearing stale takeover.sem (dead pid ", pid, ")"),
        }
    }
}

// ---- the hand-over ---------------------------------------------------------

/// What an instance does.
#[derive(Clone, Copy, PartialEq, Eq, Structural, Debug)]
pub enum Act {
    Log(Note),
    /// Try to create `poller.sem`, which fails where it is there; where it fails, read it.
    Claim,
    /// Write this process into `poller.sem`, then read `takeover.sem`.
    CheckIn,
    WriteTakeover,
    RemovePoller,
    RemoveTakeover,
    SleepMs(u64),
    StartCollecting,
    Exit,
}

/// Where an instance stands.
#[derive(Clone, Copy, PartialEq, Eq, Structural, Debug)]
pub enum Stage {
    /// It is trying to become the collecting one; `announced` once it has said that it waits.
    Acquiring { announced: bool },
    /// It is the collecting one.
    Collecting,
    /// It has given way.
    Gone,
}

/// What an instance learns.
#[derive(Clone, Copy, PartialEq, Eq, Structural, Debug)]
pub enum Learned {
    /// The claim succeeded.
    Claimed,
    /// The file names no process.
    NoOne,
    /// The file names a process that runs.
    Alive(u32),
    /// The file names a process that is gone.
    Dead(u32),
}

/// The stage after `s`, once the instance has learned `l`.
pub open spec fn stage_after(s: Stage, l: Learned) -> Stage {
    match s {
        Stage::Acquiring { announced } => match l {
            Learned::Claimed => Stage::Collecting,
            Learned::Alive(_) => Stage::Acquiring { announced: true },
            _ => s,
        },
        Stage::Collecting => match l {
            Learned::Alive(_) => Stage::Gone,
            _ => s,
        },
        Stage::Gone => s,
    }
}

/// What the instance does, in order, once it has learned `l` in stage `s`.
pub open spec fn acts_after(s: Stage, l: Learned) -> Seq<Act> {
    match s {
        Stage::Acquiring { announced } => match l {
            Learned::Claimed => seq![
                Act::RemoveTakeover,
                Act::Log(
                    if announced {
                        Note::TookOver
                    } else {
                        Note::ColdStart
                    },
                ),
                Act::StartCollecting,
                Act::SleepMs(TICK_MS),
                Act::CheckIn,
            ],
            Learned::Alive(pid) => if announced {
                seq![Act::WriteTakeover, Act::SleepMs(WAIT_MS), Act::Claim]
            } else {
                seq![
                    Act::Log(Note::Waiting(pid)),
                    Act::WriteTakeover,
                    Act::SleepMs(WAIT_MS),
                    Act::Claim,
                ]
            },
            Learned::Dead(pid) => seq![
                Act::Log(Note::StalePoller(pid)),
                Act::RemovePoller,
                Act::Claim,
            ],
            Learned::NoOne => seq![Act::RemovePoller, Act::Claim],
        },
        Stage::Collecting => match l {
            Learned::Alive(pid) => seq![
                Act::Log(Note::HandingOff(pid)),
                Act::RemovePoller,
                Act::Exit,
            ],
            Learned::Dead(pid) => seq![
                Act::Log(Note::StaleTakeover(pid)),
                Act::RemoveTakeover,
                Act::SleepMs(TICK_MS),
                Act::CheckIn,
            ],
            _ => seq![Act::SleepMs(TICK_MS), Act::CheckIn],
        },
        Stage::Gone => Seq::empty(),
    }
}

/// What an instance learns from a process id: whether it is named, is not zero, and runs.
pub fn learned(pid: Option<u32>, runs: bool) -> (r: Learned)
    ensures
        r == (match pid {
            Some(p) => if p != 0 && runs {
                Learned::Alive(p)
            } else {
                Learned::Dead(p)
            },
            None => Learned::NoOne,
        }),
        r is NoOne <==> pid is None,
        r is Alive ==> runs && pid != Some(0u32),
        pid matches Some(p) ==> p > 0 && runs ==> r == Learned::Alive(p),
        pid matches Some(p) ==> !runs ==> r == Learned::Dead(p),
        pid == Some(0u32) ==> r == Learned::Dead(0),
{
    match pid {
        Some(p) => if p != 0 && runs {
            Learned::Alive(p)
        } else {
            Learned::Dead(p)
        },
        None => Learned::NoOne,
    }
}

impl Stage {
    /// The stage of an instance that has just started; its first act is to claim.
    pub fn start() -> (r: Stage)
        ensures
            r == (Stage::Acquiring { announced: false }),
    {
        Stage::Acquiring { announced: false }
    }

    /// Moves on with what was learned, and says what to do, in order.
    pub fn learn(&mut self, l: Learned) -> (acts: Vec<Act>)
        ensures
            *final(self) == stage_after(*old(self), l),
            acts@ == acts_after(*old(self), l),
    {
        let s = *self;
        let acts = match s {
            Stage::Acquiring { announced } => match l {
                Learned::Claimed => {
                    *self = Stage::Collecting;
                    let note = if announced {
                        Note::TookOver
                    } else {
                        Note::ColdStart
                    };
                    vec![
                        Act::RemoveTakeover,
                        Act::Log(note),
                        Act::StartCollecting,
                        Act::SleepMs(TICK_MS),
                        Act::CheckIn,
                    ]
                },
                Learned::Alive(pid) => {
                    *self = Stage::Acquiring { announced: true };
                    if announced {
                        vec![Act::WriteTakeover, Act::SleepMs(WAIT_MS), Act::Claim]
                    } else {
                        vec![
                            Act::Log(Note::Waiting(pid)),
                            Act::WriteTakeover,
                            Act::SleepMs(WAIT_MS),
                            Act::Claim,
                        ]
                    }
                },
                Learned::Dead(pid) => vec![
                    Act::Log(Note::StalePoller(pid)),
                    Act::RemovePoller,
                    Act::Claim,
                ],
                Learned::NoOne => vec![Act::RemovePoller, Act::Claim],
            },
            Stage::Collecting => match l {
                Learned::Alive(pid) => {
                    *self = Stage::Gone;
                    vec![Act::Log(Note::HandingOff(pid)), Act::RemovePoller, Act::Exit]
                },
                Learned::Dead(pid) => vec![
                    Act::Log(Note::StaleTakeover(pid)),
                    Act::RemoveTakeover,
                    Act::SleepMs(TICK_MS),
                    Act::CheckIn,
                ],
                _ => vec![Act::SleepMs(TICK_MS), Act::CheckIn],
            },
            Stage::Gone => Vec::new(),
        };
        assert(acts@ =~= acts_after(s, l));
        acts
    }
}

/// Everything that an instance does, in order, as it learns one thing after another.
pub open spec fn history(s: Stage, ls: Seq<Learned>) -> Seq<Act>
    decreases ls.len(),
{
    if ls.len() == 0 {
        Seq::empty()
    } else {
        acts_after(s, ls[0]) + history(stage_after(s, ls[0]), ls.skip(1))
    }
}

/// How often an act occurs.
pub open spec fn count(acts: Seq<Act>, a: Act) -> nat
    decreases acts.len(),
{
    if acts.len() == 0 {
        0
    } else {
        count(acts.drop_last(), a) + if acts.last() == a {
            1nat
        } else {
            0nat
        }
    }
}

proof fn lemma_count_concat(x: Seq<Act>, y: Seq<Act>, a: Act)
    ensures
        count(x + y, a) == count(x, a) + count(y, a),
    decreases y.len(),
{
    if y.len() == 0 {
        assert(x + y =~= x);
    } else {
        assert((x + y).drop_last() =~= x + y.drop_last());
        lemma_count_concat(x, y.drop_last(), a);
    }
}

proof fn lemma_one_step(s: Stage, l: Learned)
    ensures
        count(acts_after(s, l), Act::StartCollecting) == if s is Acquiring && l == Learned::Claimed {
            1nat
        } else {
            0nat
        },
        count(acts_after(s, l), Act::Exit) == if s is Collecting && l is Alive {
            1nat
        } else {
            0nat
        },
{
    reveal_with_fuel(count, 6);
    let acts = acts_after(s, l);
    if acts.len() >= 1 {
        let a1 = acts.drop_last();
        if a1.len() >= 1 {
            let a2 = a1.drop_last();
            if a2.len() >= 1 {
                let a3 = a2.drop_last();
                if a3.len() >= 1 {
                    let a4 = a3.drop_last();
                    assert(a4.len() <= 1);
                }
            }
        }
    }
}

/// Whatever an instance learns, it starts collecting exactly once if it ever becomes the collecting
/// one, and not at all otherwise; and it exits at most once, and only after that.
pub proof fn collecting_starts_once(ls: Seq<Learned>, s: Stage)
    ensures
        count(history(s, ls), Act::StartCollecting) <= if s is Acquiring {
            1nat
        } else {
            0nat
        },
        count(history(s, ls), Act::Exit) <= if s is Gone {
            0nat
        } else {
            1nat
        },
        s is Acquiring ==> count(history(s, ls), Act::StartCollecting) == if ls.contains(
            Learned::Claimed,
        ) {
            1nat
        } else {
            0nat
        },
        s is Acquiring ==> count(history(s, ls), Act::Exit) <= count(
            history(s, ls),
            Act::StartCollecting,
        ),
    decreases ls.len(),
{
    if ls.len() > 0 {
        assert(ls.contains(Learned::Claimed) <==> ls[0] == Learned::Claimed || ls.skip(1).contains(
            Learned::Claimed,
        )) by {
            if ls.contains(Learned::Claimed) && ls[0] != Learned::Claimed {
                let k = ls.index_of(Learned::Claimed);
                assert(ls.skip(1)[k - 1] == Learned::Claimed);
            }
            if ls.skip(1).contains(Learned::Claimed) {
                let k = ls.skip(1).index_of(Learned::Claimed);
                assert(ls[k + 1] == Learned::Claimed);
            }
        }
        let next = stage_after(s, ls[0]);
        collecting_starts_once(ls.skip(1), next);
        lemma_one_step(s, ls[0]);
        lemma_count_concat(
            acts_after(s, ls[0]),
            history(next, ls.skip(1)),
            Act::StartCollecting,
        );
        lemma_count_concat(acts_after(s, ls[0]), history(next, ls.skip(1)), Act::Exit);
    }
}

/// An instance that gives way frees `poller.sem` before it exits, and does so only for a process
/// that runs.
pub proof fn release_comes_before_exit(s: Stage, l: Learned, i: int)
    requires
        0 <= i < acts_after(s, l).len(),
        acts_after(s, l)[i] == Act::Exit,
    ensures
        s == Stage::Collecting,
        l is Alive,
        i > 0,
        acts_after(s, l)[i - 1] == Act::RemovePoller,
        stage_after(s, l) == Stage::Gone,
{
}

/// A file that names a process which is gone is removed by whoever reads it, and the claim is
/// tried again: a crash blocks no one.
pub proof fn stale_files_are_cleared(s: Stage, pid: u32)
    ensures
        s is Acquiring ==> acts_after(s, Learned::Dead(pid)) == seq![
            Act::Log(Note::StalePoller(pid)),
            Act::RemovePoller,
            Act::Claim,
        ] && stage_after(s, Learned::Dead(pid)) == s,
        s is Collecting ==> acts_after(s, Learned::Dead(pid)).contains(Act::RemoveTakeover)
            && stage_after(s, Learned::Dead(pid)) == s,
{
    if s is Collecting {
        assert(acts_after(s, Learned::Dead(pid))[1] == Act::RemoveTakeover);
    }
}

/// Every process is treated alike: what an instance does, and where it then stands, does not depend
/// on which process it learned of, but for what it notes.
pub proof fn every_process_is_treated_alike(s: Stage, p: u32, q: u32, i: int)
    ensures
        stage_after(s, Learned::Alive(p)) == stage_after(s, Learned::Alive(q)),
        stage_after(s, Learned::Dead(p)) == stage_after(s, Learned::Dead(q)),
        acts_after(s, Learned::Alive(p)).len() == acts_after(s, Learned::Alive(q)).len(),
        acts_after(s, Learned::Dead(p)).len() == acts_after(s, Learned::Dead(q)).len(),
        0 <= i < acts_after(s, Learned::Alive(p)).len() && !(acts_after(s, Learned::Alive(p))[i]
            is Log) ==> acts_after(s, Learned::Alive(p))[i] == acts_after(s, Learned::Alive(q))[i],
        0 <= i < acts_after(s, Learned::Dead(p)).len() && !(acts_after(s, Learned::Dead(p))[i]
            is Log) ==> acts_after(s, Learned::Dead(p))[i] == acts_after(s, Learned::Dead(q))[i],
{
}

/// An instance that finds another collecting marks itself as waiting and claims again a quarter of
/// a second later; it says so the first time only.
pub proof fn waiting_instances_mark_themselves(announced: bool, pid: u32)
    ensures
        ({
            let s = Stage::Acquiring { announced };
            let acts = acts_after(s, Learned::Alive(pid));
            let n = acts.len() as int;
            &&& stage_after(s, Learned::Alive(pid)) == (Stage::Acquiring { announced: true })
            &&& n >= 3
            &&& acts[n - 3] == Act::WriteTakeover
            &&& acts[n - 2] == Act::SleepMs(250)
            &&& acts[n - 1] == Act::Claim
            &&& !announced ==> n == 4 && acts[0] == Act::Log(Note::Waiting(pid))
            &&& announced ==> n == 3
        }),
{
}

/// An instance whose claim succeeded is no longer marked as waiting, notes how it came to collect,
/// and starts; from then on it checks in every second, and goes on for as long as nobody that runs
/// waits.
pub proof fn collecting_instances_check_in(announced: bool, s: Stage)
    requires
        s is Collecting,
    ensures
        stage_after(Stage::Acquiring { announced }, Learned::Claimed) is Collecting,
        ({
            let acts = acts_after(Stage::Acquiring { announced }, Learned::Claimed);
            &&& acts.len() == 5
            &&& acts[0] == Act::RemoveTakeover
            &&& acts[1] == Act::Log(
                if announced {
                    Note::TookOver
                } else {
                    Note::ColdStart
                },
            )
            &&& acts[2] == Act::StartCollecting
            &&& acts[3] == Act::SleepMs(1000)
            &&& acts[4] == Act::CheckIn
        }),
        stage_after(s, Learned::NoOne) is Collecting,
        acts_after(s, Learned::NoOne) == seq![Act::SleepMs(1000), Act::CheckIn],
        stage_after(s, Learned::Claimed) is Collecting,
        acts_after(s, Learned::Claimed) == seq![Act::SleepMs(1000), Act::CheckIn],
{
}

/// The collecting instance gives way to every process that runs and waits: it notes that, frees
/// `poller.sem` and exits, and does nothing ever after. One that is gone it clears away, and goes
/// on checking in.
pub proof fn the_collecting_instance_gives_way(pid: u32, l: Learned)
    ensures
        stage_after(Stage::Collecting, Learned::Alive(pid)) is Gone,
        acts_after(Stage::Collecting, Learned::Alive(pid)) == seq![
            Act::Log(Note::HandingOff(pid)),
            Act::RemovePoller,
            Act::Exit,
        ],
        acts_after(Stage::Collecting, Learned::Dead(pid)) == seq![
            Act::Log(Note::StaleTakeover(pid)),
            Act::RemoveTakeover,
            Act::SleepMs(1000),
            Act::CheckIn,
        ],
        stage_after(Stage::Gone, l) is Gone,
        acts_after(Stage::Gone, l).len() == 0,
{
}

/// A file that names no process is removed and claimed anew, whether or not the instance has
/// waited.
pub proof fn nameless_files_are_cleared(announced: bool)
    ensures
        stage_after(Stage::Acquiring { announced }, Learned::NoOne) == (Stage::Acquiring {
            announced,
        }),
        acts_after(Stage::Acquiring { announced }, Learned::NoOne) == seq![
            Act::RemovePoller,
            Act::Claim,
        ],
{
}

/// A file names the process whose number is its first word, whatever white space comes before it
/// and whatever follows it; a file without a word, with another word first, or that could not be
/// read names none.
pub proof fn files_name_their_first_word(
    a: Seq<char>,
    word: Seq<char>,
    rest: Seq<char>,
    pid: u32,
)
    requires
        all_white(a),
        forall|i: int| 0 <= i < word.len() ==> !is_white(#[trigger] word[i]),
        rest.len() > 0 ==> is_white(rest[0]),
    ensures
        named_pid(Some(a + decimal(pid as nat) + rest)) == Some(pid),
        word.len() > 0 && read_unsigned(word, u32::MAX as nat) is None ==> named_pid(
            Some(a + word + rest),
        ) is None,
        named_pid(Some(a)) is None,
        named_pid(None) is None,
{
    decimal_reads_back(pid as nat, u32::MAX as nat);
    first_words_stand_between_white_space(a, decimal(pid as nat), rest);
    first_words_stand_between_white_space(a, word, rest);
}

/// A file holds the number of the process, a space, and the time.
pub proof fn files_hold_process_and_time(pid: u32, now: u64)
    ensures
        ({
            let n = decimal(pid as nat).len() as int;
            let s = sem_view(pid, now);
            &&& s.take(n) == decimal(pid as nat)
            &&& s[n] == ' '
            &&& s.skip(n + 1) == decimal(now as nat)
        }),
{
    reveal_strlit(" ");
    let n = decimal(pid as nat).len() as int;
    assert(sem_view(pid, now).take(n) =~= decimal(pid as nat));
    assert(sem_view(pid, now).skip(n + 1) =~= decimal(now as nat));
}

/// A note about a process names it.
pub proof fn notes_name_their_process(pid: u32)
    ensures
        contains(note_view(Note::Waiting(pid)), "pid "@ + decimal(pid as nat)),
        contains(note_view(Note::HandingOff(pid)), "pid "@ + decimal(pid as nat)),
        contains(note_view(Note::StalePoller(pid)), "pid "@ + decimal(pid as nat)),
        contains(note_view(Note::StaleTakeover(pid)), "pid "@ + decimal(pid as nat)),
{
    let d = decimal(pid as nat);
    let none = Seq::<char>::empty();
    assert("waiting to take over from pid "@ =~= "waiting to take over from "@ + "pid "@) by {
        reveal_strlit("waiting to take over from pid ");
        reveal_strlit("waiting to take over from ");
        reveal_strlit("pid ");
    }
    lemma_named_in("waiting to take over from "@, "pid "@, d, none);
    assert(note_view(Note::Waiting(pid)) =~= "waiting to take over from pid "@ + d + none);
    assert("handing off to pid "@ =~= "handing off to "@ + "pid "@) by {
        reveal_strlit("handing off to pid ");
        reveal_strlit("handing off to ");
        reveal_strlit("pid ");
    }
    lemma_named_in("handing off to "@, "pid "@, d, "; releasing and quitting"@);
    assert("clearing stale poller.sem (dead pid "@ =~= "clearing stale poller.sem (dead "@
        + "pid "@) by {
        reveal_strlit("clearing stale poller.sem (dead pid ");
        reveal_strlit("clearing stale poller.sem (dead ");
        reveal_strlit("pid ");
    }
    lemma_named_in("clearing stale poller.sem (dead "@, "pid "@, d, ")"@);
    assert("clearing stale takeover.sem (dead pid "@ =~= "clearing stale takeover.sem (dead "@
        + "pid "@) by {
        reveal_strlit("clearing stale takeover.sem (dead pid ");
        reveal_strlit("clearing stale takeover.sem (dead ");
        reveal_strlit("pid ");
    }
    lemma_named_in("clearing stale takeover.sem (dead "@, "pid "@, d, ")"@);
}

/// A text and what follows it stand together between what is around them.
proof fn lemma_named_in(a: Seq<char>, word: Seq<char>, d: Seq<char>, b: Seq<char>)
    ensures
        contains((a + word) + d + b, word + d),
{
    texts_are_found_where_they_stand(a, word + d, b);
    assert((a + word) + d + b =~= a + (word + d) + b);
}

} // verus!
