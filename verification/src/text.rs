//! Plain text: searching, splitting, rendering and reading strings.
use vstd::prelude::*;

verus! {

/// `<str as PartialEq>::eq` from std: two string slices are equal exactly when they hold the
/// same characters.
pub assume_specification[ <str as PartialEq>::eq ](a: &str, b: &str) -> (same: bool)
    ensures
        same == (a@ == b@),
;

/// `String::push` from std: appends one character.
pub assume_specification[ String::push ](s: &mut String, ch: char)
    ensures
        final(s)@ == old(s)@.push(ch),
;

// ---- searching -------------------------------------------------------------

/// `needle` stands in `hay` at position `at`.
pub open spec fn occurs_at(hay: Seq<char>, needle: Seq<char>, at: int) -> bool {
    &&& 0 <= at
    &&& at + needle.len() <= hay.len()
    &&& hay.subrange(at, at + needle.len()) == needle
}

/// `at` is the first position where `needle` stands in `hay`.
pub open spec fn first_at(hay: Seq<char>, needle: Seq<char>, at: int) -> bool {
    &&& occurs_at(hay, needle, at)
    &&& forall|j: int| 0 <= j < at ==> !occurs_at(hay, needle, j)
}

/// `needle` stands somewhere in `hay`.
pub open spec fn contains(hay: Seq<char>, needle: Seq<char>) -> bool {
    exists|at: int| occurs_at(hay, needle, at)
}

/// The first position of `needle` in `hay`, if it occurs.
pub open spec fn find(hay: Seq<char>, needle: Seq<char>) -> Option<int> {
    if contains(hay, needle) {
        Some(choose|at: int| first_at(hay, needle, at))
    } else {
        None
    }
}

/// A first position is the one that [`find`] gives.
pub proof fn lemma_find(hay: Seq<char>, needle: Seq<char>, at: int)
    requires
        first_at(hay, needle, at),
    ensures
        find(hay, needle) == Some(at),
{
    let found = choose|k: int| first_at(hay, needle, k);
    assert(first_at(hay, needle, found));
    if found < at {
        assert(!occurs_at(hay, needle, found));
    } else if at < found {
        assert(!occurs_at(hay, needle, at));
    }
}

/// Where a text occurs, it has a first position.
pub proof fn lemma_first(hay: Seq<char>, needle: Seq<char>)
    requires
        contains(hay, needle),
    ensures
        find(hay, needle) is Some,
        first_at(hay, needle, find(hay, needle)->0),
{
    let some = choose|at: int| occurs_at(hay, needle, at);
    lemma_least(hay, needle, some);
    let least = choose|at: int| first_at(hay, needle, at);
    lemma_find(hay, needle, least);
}

proof fn lemma_least(hay: Seq<char>, needle: Seq<char>, at: int)
    requires
        occurs_at(hay, needle, at),
    ensures
        exists|k: int| first_at(hay, needle, k),
    decreases at,
{
    if exists|j: int| 0 <= j < at && occurs_at(hay, needle, j) {
        let j = choose|j: int| 0 <= j < at && occurs_at(hay, needle, j);
        lemma_least(hay, needle, j);
    } else {
        assert(first_at(hay, needle, at));
    }
}

/// `c` does not occur in `s`.
pub open spec fn lacks(s: Seq<char>, c: char) -> bool {
    forall|i: int| 0 <= i < s.len() ==> s[i] != c
}

/// A text does not occur where one of its characters does not.
pub proof fn lemma_lacks(hay: Seq<char>, needle: Seq<char>, k: int)
    requires
        0 <= k < needle.len(),
        lacks(hay, needle[k]),
    ensures
        find(hay, needle) is None,
{
    assert forall|j: int| !occurs_at(hay, needle, j) by {
        if occurs_at(hay, needle, j) {
            assert(hay.subrange(j, j + needle.len())[k] == hay[j + k]);
        }
    }
}

/// `needle` cannot lie across the seam between `a` and `b`: the character before the seam, or
/// the one after it, stands nowhere in `needle` where it would have to.
pub open spec fn seam(a: Seq<char>, b: Seq<char>, needle: Seq<char>) -> bool {
    ||| a.len() == 0
    ||| b.len() == 0
    ||| forall|k: int| 0 <= k < needle.len() - 1 ==> needle[k] != a.last()
    ||| forall|k: int| 1 <= k < needle.len() ==> needle[k] != b[0]
}

/// Searching two texts that a needle cannot lie across is searching one, then the other.
pub proof fn lemma_find_concat(a: Seq<char>, b: Seq<char>, needle: Seq<char>)
    requires
        needle.len() > 0,
        seam(a, b, needle),
    ensures
        find(a + b, needle) == (match find(a, needle) {
            Some(i) => Some(i),
            None => match find(b, needle) {
                Some(i) => Some(a.len() + i),
                None => None,
            },
        }),
{
    let h = a + b;
    let n = needle.len();
    assert forall|j: int| occurs_at(h, needle, j) implies j + n <= a.len() || a.len() <= j by {
        if j < a.len() < j + n {
            let m = h.subrange(j, j + n);
            assert(m[a.len() - j] == b[0]);
            assert(m[a.len() - 1 - j] == a.last());
            assert(needle[a.len() - j] == b[0]);
            assert(needle[a.len() - 1 - j] == a.last());
        }
    }
    assert forall|j: int| j + n <= a.len() implies occurs_at(h, needle, j) == occurs_at(
        a,
        needle,
        j,
    ) by {
        if 0 <= j {
            assert(h.subrange(j, j + n) =~= a.subrange(j, j + n));
        }
    }
    assert forall|j: int| 0 <= j implies occurs_at(h, needle, a.len() + j) == occurs_at(
        b,
        needle,
        j,
    ) by {
        if j + n <= b.len() {
            assert(h.subrange(a.len() + j, a.len() + j + n) =~= b.subrange(j, j + n));
        }
    }
    if contains(a, needle) {
        lemma_first(a, needle);
        let i = find(a, needle)->0;
        assert(occurs_at(h, needle, i));
        assert forall|j: int| 0 <= j < i implies !occurs_at(h, needle, j) by {
            assert(!occurs_at(a, needle, j));
        }
        lemma_find(h, needle, i);
    } else if contains(b, needle) {
        lemma_first(b, needle);
        let i = find(b, needle)->0;
        assert(occurs_at(h, needle, a.len() + i));
        assert forall|j: int| 0 <= j < a.len() + i implies !occurs_at(h, needle, j) by {
            if j < a.len() {
                if occurs_at(h, needle, j) {
                    assert(occurs_at(a, needle, j));
                }
            } else {
                assert(!occurs_at(b, needle, j - a.len()));
                assert(a.len() + (j - a.len()) == j);
            }
        }
        lemma_find(h, needle, a.len() + i);
    } else {
        assert forall|j: int| !occurs_at(h, needle, j) by {
            if occurs_at(h, needle, j) {
                if j < a.len() {
                    assert(occurs_at(a, needle, j));
                } else {
                    assert(a.len() + (j - a.len()) == j);
                    assert(occurs_at(b, needle, j - a.len()));
                }
            }
        }
    }
}

/// The characters of a string slice, in order.
pub fn chars_of(s: &str) -> (out: Vec<char>)
    ensures
        out@ == s@,
{
    let mut out: Vec<char> = Vec::new();
    for c in it: s.chars()
        invariant
            it.seq() == s@,
            out@ == s@.take(it.index() as int),
    {
        out.push(c);
    }
    out
}

/// The first `n` at or after `from` where `needle` stands in `hay`.
fn find_from(hay: &Vec<char>, from: usize, needle: &Vec<char>) -> (r: Option<usize>)
    requires
        from <= hay@.len(),
    ensures
        match r {
            Some(i) => from <= i && occurs_at(hay@, needle@, i as int) && forall|j: int|
                from <= j < i ==> !occurs_at(hay@, needle@, j),
            None => forall|j: int| from <= j ==> !occurs_at(hay@, needle@, j),
        },
{
    if hay.len() < needle.len() {
        return None;
    }
    let last: usize = hay.len() - needle.len();
    let mut i: usize = from;
    while i <= last
        invariant
            last == hay@.len() - needle@.len(),
            from <= i <= hay@.len() + 1,
            forall|j: int| from <= j < i ==> !occurs_at(hay@, needle@, j),
        decreases hay@.len() + 1 - i,
    {
        let mut k: usize = 0;
        while k < needle.len() && hay[i + k] == needle[k]
            invariant
                i <= last,
                last == hay.len() - needle.len(),
                k <= needle@.len(),
                forall|m: int| 0 <= m < k ==> hay@[i + m] == needle@[m],
            decreases needle@.len() - k,
        {
            k = k + 1;
        }
        if k == needle.len() {
            assert(hay@.subrange(i as int, i + needle@.len()) =~= needle@);
            return Some(i);
        }
        assert(!occurs_at(hay@, needle@, i as int)) by {
            if occurs_at(hay@, needle@, i as int) {
                assert(hay@.subrange(i as int, i + needle@.len())[k as int] == needle@[k as int]);
            }
        }
        if i == last {
            return None;
        }
        i = i + 1;
    }
    None
}

/// The first position of `needle` in `hay`, if it occurs.
pub fn find_chars(hay: &Vec<char>, needle: &Vec<char>) -> (r: Option<usize>)
    ensures
        match r {
            Some(i) => find(hay@, needle@) == Some(i as int) && first_at(hay@, needle@, i as int),
            None => find(hay@, needle@) is None,
        },
{
    let r = find_from(hay, 0, needle);
    proof {
        match r {
            Some(i) => lemma_find(hay@, needle@, i as int),
            None => {
                if contains(hay@, needle@) {
                    let at = choose|at: int| occurs_at(hay@, needle@, at);
                    assert(0 <= at);
                }
            },
        }
    }
    r
}

/// Whether `needle` stands somewhere in `hay`.
pub fn contains_text(hay: &str, needle: &str) -> (r: bool)
    ensures
        r == contains(hay@, needle@),
{
    let h = chars_of(hay);
    let n = chars_of(needle);
    match find_chars(&h, &n) {
        Some(_) => true,
        None => false,
    }
}

/// Whether `hay` begins with `prefix`.
pub open spec fn starts_with(hay: Seq<char>, prefix: Seq<char>) -> bool {
    occurs_at(hay, prefix, 0)
}

/// Whether `hay` begins with `prefix`.
pub fn begins_with(hay: &str, prefix: &str) -> (r: bool)
    ensures
        r == starts_with(hay@, prefix@),
{
    let h = chars_of(hay);
    let p = chars_of(prefix);
    if h.len() < p.len() {
        return false;
    }
    let mut k: usize = 0;
    while k < p.len()
        invariant
            h@ == hay@,
            p@ == prefix@,
            p@.len() <= h@.len(),
            k <= p@.len(),
            forall|m: int| 0 <= m < k ==> h@[m] == p@[m],
        decreases p@.len() - k,
    {
        if h[k] != p[k] {
            assert(h@.subrange(0, p@.len() as int)[k as int] == h@[k as int]);
            return false;
        }
        k = k + 1;
    }
    assert(h@.subrange(0, p@.len() as int) =~= p@);
    true
}

// ---- white space -----------------------------------------------------------

/// The characters that Unicode lists as white space.
pub open spec fn is_white(c: char) -> bool {
    let k = c as int;
    ||| 0x9 <= k <= 0xd
    ||| k == 0x20
    ||| k == 0x85
    ||| k == 0xa0
    ||| k == 0x1680
    ||| 0x2000 <= k <= 0x200a
    ||| k == 0x2028
    ||| k == 0x2029
    ||| k == 0x202f
    ||| k == 0x205f
    ||| k == 0x3000
}

/// Whether `c` is white space.
pub fn white(c: char) -> (r: bool)
    ensures
        r == is_white(c),
{
    let k: u32 = c as u32;
    (0x9 <= k && k <= 0xd) || k == 0x20 || k == 0x85 || k == 0xa0 || k == 0x1680 || (0x2000 <= k
        && k <= 0x200a) || k == 0x2028 || k == 0x2029 || k == 0x202f || k == 0x205f || k == 0x3000
}

/// How many characters at the front of `s` are white space (or are not, as `w` says).
pub open spec fn run_len(s: Seq<char>, w: bool) -> nat
    decreases s.len(),
{
    if s.len() > 0 && is_white(s[0]) == w {
        1 + run_len(s.skip(1), w)
    } else {
        0
    }
}

/// `s` without the white space at its front.
pub open spec fn trim_start(s: Seq<char>) -> Seq<char> {
    s.skip(run_len(s, true) as int)
}

/// `s` without the white space at its end.
pub open spec fn trim_end(s: Seq<char>) -> Seq<char>
    decreases s.len(),
{
    if s.len() > 0 && is_white(s.last()) {
        trim_end(s.drop_last())
    } else {
        s
    }
}

/// `s` without the white space at either end.
pub open spec fn trim(s: Seq<char>) -> Seq<char> {
    trim_end(trim_start(s))
}

/// The first run of characters of `s` that are not white space, if there is one.
pub open spec fn first_word(s: Seq<char>) -> Option<Seq<char>> {
    let t = trim_start(s);
    if t.len() == 0 {
        None
    } else {
        Some(t.take(run_len(t, false) as int))
    }
}

proof fn lemma_run_len(s: Seq<char>, w: bool, k: int)
    requires
        0 <= k <= s.len(),
        forall|i: int| 0 <= i < k ==> is_white(#[trigger] s[i]) == w,
        k < s.len() ==> is_white(s[k]) != w,
    ensures
        run_len(s, w) == k,
    decreases s.len(),
{
    if k > 0 {
        let t = s.skip(1);
        assert forall|i: int| 0 <= i < k - 1 implies is_white(#[trigger] t[i]) == w by {
            assert(t[i] == s[i + 1]);
        }
        if k < s.len() {
            assert(t[k - 1] == s[k]);
        }
        lemma_run_len(t, w, k - 1);
    }
}

/// How many characters of `s` from `from` on are white space (or are not, as `w` says).
fn run_end(s: &Vec<char>, from: usize, w: bool) -> (end: usize)
    requires
        from <= s@.len(),
    ensures
        from <= end <= s@.len(),
        end - from == run_len(s@.skip(from as int), w),
{
    let mut i: usize = from;
    while i < s.len() && white(s[i]) == w
        invariant
            from <= i <= s@.len(),
            forall|j: int| from <= j < i ==> is_white(#[trigger] s@[j]) == w,
        decreases s@.len() - i,
    {
        i = i + 1;
    }
    proof {
        let t = s@.skip(from as int);
        assert forall|j: int| 0 <= j < i - from implies is_white(#[trigger] t[j]) == w by {
            assert(t[j] == s@[from + j]);
        }
        if i < s@.len() {
            assert(t[i - from] == s@[i as int]);
        }
        lemma_run_len(t, w, i - from);
    }
    i
}

fn sub_chars(s: &Vec<char>, lo: usize, hi: usize) -> (out: Vec<char>)
    requires
        lo <= hi <= s@.len(),
    ensures
        out@ == s@.subrange(lo as int, hi as int),
{
    let mut out: Vec<char> = Vec::new();
    let mut i: usize = lo;
    while i < hi
        invariant
            lo <= i <= hi <= s@.len(),
            out@ == s@.subrange(lo as int, i as int),
        decreases hi - i,
    {
        out.push(s[i]);
        i = i + 1;
    }
    out
}

/// The first word of `s`, if it has one.
pub fn leading_word(s: &str) -> (r: Option<Vec<char>>)
    ensures
        match r {
            Some(w) => first_word(s@) == Some(w@),
            None => first_word(s@) is None,
        },
{
    let c = chars_of(s);
    let start = run_end(&c, 0, true);
    assert(c@.skip(0) =~= c@);
    if start == c.len() {
        return None;
    }
    let end = run_end(&c, start, false);
    assert(c@.subrange(start as int, end as int) =~= c@.skip(start as int).take(end - start));
    Some(sub_chars(&c, start, end))
}

/// `s` without the white space at either end.
pub fn trimmed(s: &str) -> (out: Vec<char>)
    ensures
        out@ == trim(s@),
{
    let c = chars_of(s);
    let start = run_end(&c, 0, true);
    assert(c@.skip(0) =~= c@);
    let ghost t = c@.skip(start as int);
    let mut end: usize = c.len();
    assert(t.take(end - start) =~= t);
    while end > start && white(c[end - 1])
        invariant
            t == c@.skip(start as int),
            start <= end <= c@.len(),
            trim_end(t) == trim_end(t.take(end - start)),
        decreases end,
    {
        assert(t.take(end - start).last() == c@[end - 1]);
        assert(t.take(end - start).drop_last() =~= t.take(end - start - 1));
        end = end - 1;
    }
    proof {
        let u = t.take(end - start);
        if u.len() > 0 {
            assert(u.last() == c@[end - 1]);
        }
        assert(c@.subrange(start as int, end as int) =~= u);
    }
    sub_chars(&c, start, end)
}

// ---- decimal numbers -------------------------------------------------------

/// The decimal digit for `d`.
pub open spec fn digit(d: nat) -> char {
    (48 + d) as char
}

/// `n` in decimal, without leading zeros.
pub open spec fn decimal(n: nat) -> Seq<char>
    decreases n,
{
    if n < 10 {
        seq![digit(n)]
    } else {
        decimal(n / 10).push(digit(n % 10))
    }
}

/// Appends `n` in decimal.
pub fn push_decimal(out: &mut String, n: u64)
    ensures
        final(out)@ == old(out)@ + decimal(n as nat),
    decreases n,
{
    if n >= 10 {
        push_decimal(out, n / 10);
    }
    let d: u8 = (n % 10) as u8;
    out.push((48u8 + d) as char);
}

/// `c` is one of the ten decimal digits.
pub open spec fn is_digit(c: char) -> bool {
    48 <= c as int <= 57
}

/// The value of a decimal digit.
fn digit_of(c: char) -> (r: Option<u8>)
    ensures
        match r {
            Some(d) => is_digit(c) && d == c as int - 48,
            None => !is_digit(c),
        },
{
    let k: u32 = c as u32;
    if 48 <= k && k <= 57 {
        Some((k - 48) as u8)
    } else {
        None
    }
}

/// The number that a run of decimal digits stands for.
pub open spec fn digits_value(s: Seq<char>) -> nat
    decreases s.len(),
{
    if s.len() == 0 {
        0
    } else {
        digits_value(s.drop_last()) * 10 + (s.last() as int - 48) as nat
    }
}

/// `s` without a leading `+`.
pub open spec fn after_plus(s: Seq<char>) -> Seq<char> {
    if s.len() > 0 && s[0] == '+' {
        s.skip(1)
    } else {
        s
    }
}

/// An unsigned number as std reads one: an optional `+`, then decimal digits and nothing else,
/// with a value of at most `max`.
pub open spec fn read_unsigned(s: Seq<char>, max: nat) -> Option<nat> {
    let body = after_plus(s);
    if body.len() > 0 && (forall|i: int| 0 <= i < body.len() ==> is_digit(#[trigger] body[i]))
        && digits_value(body) <= max {
        Some(digits_value(body))
    } else {
        None
    }
}

proof fn lemma_digits_value_grows(s: Seq<char>, k: int)
    requires
        0 <= k <= s.len(),
    ensures
        digits_value(s.take(k)) <= digits_value(s),
    decreases s.len() - k,
{
    if k == s.len() {
        assert(s.take(k) =~= s);
    } else {
        assert(s.take(k + 1).drop_last() =~= s.take(k));
        lemma_digits_value_grows(s, k + 1);
    }
}

/// Reads an unsigned number of at most `max`.
pub fn parse_unsigned(s: &Vec<char>, max: u64) -> (r: Option<u64>)
    ensures
        match r {
            Some(n) => read_unsigned(s@, max as nat) == Some(n as nat),
            None => read_unsigned(s@, max as nat) is None,
        },
{
    let start: usize = if s.len() > 0 && s[0] == '+' {
        1
    } else {
        0
    };
    let ghost body = s@.skip(start as int);
    proof {
        if start == 0 {
            assert(body =~= s@);
        }
    }
    if start == s.len() {
        return None;
    }
    let mut total: u64 = 0;
    let mut i: usize = start;
    assert(body.take(0) =~= Seq::<char>::empty());
    while i < s.len()
        invariant
            start <= i <= s@.len(),
            body == s@.skip(start as int),
            body == after_plus(s@),
            total == digits_value(body.take(i - start)),
            total <= max,
            forall|j: int| 0 <= j < i - start ==> is_digit(#[trigger] body[j]),
        decreases s@.len() - i,
    {
        assert(body[i - start] == s@[i as int]);
        let d: u8 = match digit_of(s[i]) {
            Some(d) => d,
            None => {
                assert(!is_digit(body[i - start]));
                return None;
            },
        };
        let next: u128 = total as u128 * 10 + d as u128;
        proof {
            assert(body.take(i - start + 1).drop_last() =~= body.take(i - start));
            assert(body.take(i - start + 1).last() == s@[i as int]);
            lemma_digits_value_grows(body, i - start + 1);
        }
        if next > max as u128 {
            return None;
        }
        total = next as u64;
        i = i + 1;
    }
    assert(body.take(s@.len() - start) =~= body);
    Some(total)
}

proof fn lemma_decimal(n: nat)
    ensures
        decimal(n).len() > 0,
        forall|i: int| 0 <= i < decimal(n).len() ==> is_digit(#[trigger] decimal(n)[i]),
        digits_value(decimal(n)) == n,
    decreases n,
{
    if n < 10 {
        assert(decimal(n).drop_last() =~= Seq::<char>::empty());
        assert(digits_value(decimal(n).drop_last()) == 0);
        assert(decimal(n).last() == digit(n));
    } else {
        lemma_decimal(n / 10);
        assert(decimal(n).drop_last() =~= decimal(n / 10));
        assert(decimal(n).last() == digit(n % 10));
    }
}

/// A number written in decimal reads back as itself, and is one word with no white space in it.
pub proof fn decimal_reads_back(n: nat, max: nat)
    requires
        n <= max,
    ensures
        read_unsigned(decimal(n), max) == Some(n),
        decimal(n).len() > 0,
        forall|i: int| 0 <= i < decimal(n).len() ==> !is_white(#[trigger] decimal(n)[i]),
{
    lemma_decimal(n);
    assert(is_digit(decimal(n)[0]));
    assert(after_plus(decimal(n)) == decimal(n));
}

/// A word followed by white space, or by nothing, is the first word.
pub proof fn leading_word_is_first(word: Seq<char>, rest: Seq<char>)
    requires
        word.len() > 0,
        forall|i: int| 0 <= i < word.len() ==> !is_white(#[trigger] word[i]),
        rest.len() > 0 ==> is_white(rest[0]),
    ensures
        first_word(word + rest) == Some(word),
{
    let s = word + rest;
    assert(s[0] == word[0]);
    lemma_run_len(s, true, 0);
    assert(s.skip(0) =~= s);
    assert forall|i: int| 0 <= i < word.len() implies is_white(#[trigger] s[i]) == false by {
        assert(s[i] == word[i]);
    }
    if word.len() < s.len() {
        assert(s[word.len() as int] == rest[0]);
    }
    lemma_run_len(s, false, word.len() as int);
    assert(s.take(word.len() as int) =~= word);
}

/// Trimming leaves a text alone that has no white space at all.
pub proof fn trim_keeps_words(s: Seq<char>)
    requires
        forall|i: int| 0 <= i < s.len() ==> !is_white(#[trigger] s[i]),
    ensures
        trim(s) == s,
{
    lemma_run_len(s, true, 0);
    assert(s.skip(0) =~= s);
}

// ---- hexadecimal numbers ---------------------------------------------------

/// The lower-case hexadecimal digit for `d`.
pub open spec fn hex_digit(d: nat) -> char {
    if d < 10 {
        (48 + d) as char
    } else {
        (87 + d) as char
    }
}

/// The last `width` hexadecimal digits of `n`, zeros included.
pub open spec fn hex(n: nat, width: nat) -> Seq<char>
    decreases width,
{
    if width == 0 {
        Seq::empty()
    } else {
        hex(n / 16, (width - 1) as nat).push(hex_digit(n % 16))
    }
}

/// Appends the last `width` hexadecimal digits of `n`.
pub fn push_hex(out: &mut String, n: u32, width: u32)
    ensures
        final(out)@ == old(out)@ + hex(n as nat, width as nat),
    decreases width,
{
    if width > 0 {
        push_hex(out, n / 16, width - 1);
        let d: u8 = (n % 16) as u8;
        if d < 10 {
            out.push((48u8 + d) as char);
        } else {
            out.push((87u8 + d) as char);
        }
    }
}

/// `c` is a lower-case hexadecimal digit.
pub open spec fn is_hex_digit(c: char) -> bool {
    48 <= c as int <= 57 || 97 <= c as int <= 102
}

/// Hexadecimal text has the asked width and holds hexadecimal digits only.
pub proof fn hex_shape(n: nat, width: nat)
    ensures
        hex(n, width).len() == width,
        forall|i: int| 0 <= i < width ==> is_hex_digit(#[trigger] hex(n, width)[i]),
    decreases width,
{
    if width > 0 {
        hex_shape(n / 16, (width - 1) as nat);
    }
}

/// Two numbers below `16^width` with the same hexadecimal text are the same number.
pub proof fn hex_is_injective(a: nat, b: nat, width: nat)
    requires
        a < vstd::arithmetic::power::pow(16, width),
        b < vstd::arithmetic::power::pow(16, width),
        hex(a, width) == hex(b, width),
    ensures
        a == b,
    decreases width,
{
    reveal(vstd::arithmetic::power::pow);
    if width > 0 {
        let w = (width - 1) as nat;
        assert(hex(a, width).drop_last() =~= hex(a / 16, w));
        assert(hex(b, width).drop_last() =~= hex(b / 16, w));
        assert(hex(a, width).last() == hex_digit(a % 16));
        assert(hex(b, width).last() == hex_digit(b % 16));
        hex_is_injective(a / 16, b / 16, w);
    }
}

// ---- paths -----------------------------------------------------------------

/// `name` appended to the path `dir`: an absolute `name` replaces it, and a `/` goes between the
/// two unless `dir` is empty or already ends in one.
pub open spec fn joined(dir: Seq<char>, name: Seq<char>) -> Seq<char> {
    if name.len() > 0 && name[0] == '/' {
        name
    } else if dir.len() == 0 || dir.last() == '/' {
        dir + name
    } else {
        dir.push('/') + name
    }
}

/// Appends `name` to the path `dir`.
pub fn join_path(dir: &str, name: &str) -> (out: String)
    ensures
        out@ == joined(dir@, name@),
{
    let d = chars_of(dir);
    let n = chars_of(name);
    if n.len() > 0 && n[0] == '/' {
        return name.to_owned();
    }
    let mut out = dir.to_owned();
    if d.len() > 0 && d[d.len() - 1] != '/' {
        out.push('/');
    }
    out.append(name);
    out
}

// ---- laws ------------------------------------------------------------------

/// A text is found in whatever stands around it, no later than where it was put, and where it is
/// found its characters stand one by one; what does not occur is not found.
pub proof fn texts_are_found_where_they_stand(a: Seq<char>, needle: Seq<char>, b: Seq<char>)
    ensures
        contains(a + needle + b, needle),
        starts_with(needle + b, needle),
        ({
            let hay = a + needle + b;
            &&& find(hay, needle) matches Some(i)
            &&& 0 <= i <= a.len()
            &&& forall|k: int| 0 <= k < needle.len() ==> hay[i + k] == #[trigger] needle[k]
        }),
        !contains(a, needle) <==> find(a, needle) is None,
{
    let hay = a + needle + b;
    let at = a.len() as int;
    assert(hay.subrange(at, at + needle.len()) =~= needle);
    assert(occurs_at(hay, needle, at));
    lemma_first(hay, needle);
    let i = find(hay, needle)->0;
    assert forall|k: int| 0 <= k < needle.len() implies hay[i + k] == #[trigger] needle[k] by {
        assert(hay.subrange(i, i + needle.len())[k] == hay[i + k]);
    }
    assert((needle + b).subrange(0, needle.len() as int) =~= needle);
}

/// A text begins with another exactly where their first characters agree one by one.
pub proof fn beginnings_are_compared_one_by_one(hay: Seq<char>, prefix: Seq<char>)
    ensures
        starts_with(hay, prefix) <==> prefix.len() <= hay.len() && forall|k: int|
            0 <= k < prefix.len() ==> hay[k] == #[trigger] prefix[k],
{
    if prefix.len() <= hay.len() {
        let front = hay.subrange(0, prefix.len() as int);
        assert forall|k: int| 0 <= k < prefix.len() implies #[trigger] front[k] == hay[k] by {}
        if forall|k: int| 0 <= k < prefix.len() ==> hay[k] == #[trigger] prefix[k] {
            assert(front =~= prefix);
        }
        if starts_with(hay, prefix) {
            assert forall|k: int| 0 <= k < prefix.len() implies hay[k] == #[trigger] prefix[k] by {
                assert(front[k] == hay[k]);
            }
        }
    }
}

/// White space is the space, the controls from tab to carriage return, and the 19 other characters
/// that Unicode gives the property.
pub proof fn white_space_is_unicode_white_space(c: char)
    ensures
        is_white(c) <==> seq![
            0x0009int,
            0x000a,
            0x000b,
            0x000c,
            0x000d,
            0x0020,
            0x0085,
            0x00a0,
            0x1680,
            0x2000,
            0x2001,
            0x2002,
            0x2003,
            0x2004,
            0x2005,
            0x2006,
            0x2007,
            0x2008,
            0x2009,
            0x200a,
            0x2028,
            0x2029,
            0x202f,
            0x205f,
            0x3000,
        ].contains(c as int),
{
    let all = seq![
        0x0009int,
        0x000a,
        0x000b,
        0x000c,
        0x000d,
        0x0020,
        0x0085,
        0x00a0,
        0x1680,
        0x2000,
        0x2001,
        0x2002,
        0x2003,
        0x2004,
        0x2005,
        0x2006,
        0x2007,
        0x2008,
        0x2009,
        0x200a,
        0x2028,
        0x2029,
        0x202f,
        0x205f,
        0x3000,
    ];
    let k = c as int;
    if 0x9 <= k <= 0xd {
        assert(all[k - 9] == k);
    } else if 0x2000 <= k <= 0x200a {
        assert(all[k - 0x2000 + 9] == k);
    }
    assert(all[5] == 0x20 && all[6] == 0x85 && all[7] == 0xa0 && all[8] == 0x1680 && all[20]
        == 0x2028 && all[21] == 0x2029 && all[22] == 0x202f && all[23] == 0x205f && all[24]
        == 0x3000);
    if all.contains(k) {
        let i = choose|i: int| 0 <= i < all.len() && all[i] == k;
        assert(all[i] == k);
    }
}

/// Every character of this text is white space.
pub open spec fn all_white(s: Seq<char>) -> bool {
    forall|i: int| 0 <= i < s.len() ==> is_white(#[trigger] s[i])
}

/// Trimming takes away the white space around a text and nothing of the text itself, which neither
/// begins nor ends with white space but may hold some; of white space alone nothing is left.
pub proof fn trim_takes_the_white_space_around(a: Seq<char>, s: Seq<char>, b: Seq<char>)
    requires
        all_white(a),
        all_white(b),
        s.len() > 0 ==> !is_white(s[0]) && !is_white(s.last()),
    ensures
        trim(a + s + b) == s,
{
    let all = a + s + b;
    if s.len() > 0 {
        assert forall|i: int| 0 <= i < a.len() implies is_white(#[trigger] all[i]) == true by {
            assert(all[i] == a[i]);
        }
        assert(all[a.len() as int] == s[0]);
        lemma_run_len(all, true, a.len() as int);
        assert(all.skip(a.len() as int) =~= s + b);
        lemma_trim_end(s, b);
    } else {
        assert forall|i: int| 0 <= i < all.len() implies is_white(#[trigger] all[i]) == true by {
            if i < a.len() {
                assert(all[i] == a[i]);
            } else {
                assert(all[i] == b[i - a.len()]);
            }
        }
        lemma_run_len(all, true, all.len() as int);
        assert(all.skip(all.len() as int) =~= s);
    }
}

/// White space at the end goes.
proof fn lemma_trim_end(s: Seq<char>, b: Seq<char>)
    requires
        all_white(b),
        s.len() > 0,
        !is_white(s.last()),
    ensures
        trim_end(s + b) == s,
    decreases b.len(),
{
    let all = s + b;
    if b.len() == 0 {
        assert(all =~= s);
    } else {
        assert(all.last() == b.last());
        assert(is_white(b[b.len() - 1]));
        assert(all.drop_last() =~= s + b.drop_last());
        assert forall|i: int| 0 <= i < b.drop_last().len() implies is_white(
            #[trigger] b.drop_last()[i],
        ) by {
            assert(b.drop_last()[i] == b[i]);
        }
        lemma_trim_end(s, b.drop_last());
    }
}

/// The first word of a text is what stands between the white space at its front and the next white
/// space, or its end; white space alone has no word.
pub proof fn first_words_stand_between_white_space(a: Seq<char>, word: Seq<char>, rest: Seq<char>)
    requires
        all_white(a),
        forall|i: int| 0 <= i < word.len() ==> !is_white(#[trigger] word[i]),
        rest.len() > 0 ==> is_white(rest[0]),
    ensures
        word.len() > 0 ==> first_word(a + word + rest) == Some(word),
        first_word(a) is None,
{
    let all = a + word + rest;
    if word.len() > 0 {
        assert forall|i: int| 0 <= i < a.len() implies is_white(#[trigger] all[i]) == true by {
            assert(all[i] == a[i]);
        }
        assert(all[a.len() as int] == word[0]);
        lemma_run_len(all, true, a.len() as int);
        let t = word + rest;
        assert(all.skip(a.len() as int) =~= t);
        leading_word_is_first(word, rest);
        assert(t[0] == word[0]);
        lemma_run_len(t, true, 0);
        assert(t.skip(0) =~= t);
    }
    lemma_run_len(a, true, a.len() as int);
}

/// A decimal number is written in digits, and begins with a zero only where it is zero.
pub proof fn decimals_have_no_leading_zero(n: nat)
    ensures
        decimal(n).len() > 0,
        forall|i: int|
            0 <= i < decimal(n).len() ==> '0' <= (#[trigger] decimal(n)[i]) && decimal(n)[i] <= '9',
        decimal(n)[0] == '0' <==> n == 0,
        n < 10 ==> decimal(n).len() == 1,
    decreases n,
{
    lemma_decimal(n);
    assert forall|i: int| 0 <= i < decimal(n).len() implies '0' <= (#[trigger] decimal(n)[i])
        && decimal(n)[i] <= '9' by {
        assert(is_digit(decimal(n)[i]));
    }
    if n >= 10 {
        decimals_have_no_leading_zero(n / 10);
        assert(decimal(n)[0] == decimal(n / 10)[0]);
    } else {
        assert(decimal(n)[0] == digit(n));
    }
}

/// Different numbers are written differently.
pub proof fn decimals_differ(a: nat, b: nat)
    requires
        decimal(a) == decimal(b),
    ensures
        a == b,
{
    lemma_decimal(a);
    lemma_decimal(b);
}

/// A number is read from digits alone: a zero or a `+` before the digits changes nothing, a number
/// beyond the bound is none, and neither is a text without digits or with anything else in it.
pub proof fn numbers_are_read_from_digits_alone(s: Seq<char>, max: nat, n: nat, i: int)
    ensures
        s.len() > 0 && (forall|k: int| 0 <= k < s.len() ==> is_digit(#[trigger] s[k])) ==> {
            &&& read_unsigned(seq!['0'] + s, max) == read_unsigned(s, max)
            &&& read_unsigned(seq!['+'] + s, max) == read_unsigned(s, max)
        },
        n > max ==> read_unsigned(decimal(n), max) is None,
        n <= max ==> read_unsigned(decimal(n), max) == Some(n),
        0 <= i < s.len() && !('0' <= s[i] && s[i] <= '9') && (i > 0 || s[i] != '+')
            ==> read_unsigned(s, max) is None,
        read_unsigned(Seq::<char>::empty(), max) is None,
        read_unsigned(seq!['+'], max) is None,
{
    lemma_decimal(n);
    assert(is_digit(decimal(n)[0]));
    assert(after_plus(decimal(n)) == decimal(n));
    if s.len() > 0 && (forall|k: int| 0 <= k < s.len() ==> is_digit(#[trigger] s[k])) {
        let z = seq!['0'] + s;
        let p = seq!['+'] + s;
        assert(is_digit(s[0]));
        assert(after_plus(s) == s);
        assert(p[0] == '+');
        assert(after_plus(p) =~= s);
        assert(z[0] == '0');
        assert(after_plus(z) == z);
        assert forall|k: int| 0 <= k < z.len() implies is_digit(#[trigger] z[k]) by {
            if k > 0 {
                assert(z[k] == s[k - 1]);
            }
        }
        lemma_leading_zero(s);
    }
    if 0 <= i < s.len() && !('0' <= s[i] && s[i] <= '9') && (i > 0 || s[i] != '+') {
        let body = after_plus(s);
        if s[0] == '+' {
            assert(body[i - 1] == s[i]);
            assert(!is_digit(body[i - 1]));
        } else {
            assert(!is_digit(body[i]));
        }
    }
    assert(after_plus(seq!['+']) =~= Seq::<char>::empty());
}

/// A zero before digits adds nothing.
proof fn lemma_leading_zero(s: Seq<char>)
    ensures
        digits_value(seq!['0'] + s) == digits_value(s),
    decreases s.len(),
{
    let z = seq!['0'] + s;
    if s.len() == 0 {
        assert(z.drop_last() =~= s);
        assert(digits_value(z.drop_last()) == 0);
        assert(z.last() == '0');
    } else {
        assert(z.drop_last() =~= seq!['0'] + s.drop_last());
        assert(z.last() == s.last());
        lemma_leading_zero(s.drop_last());
    }
}

/// A hexadecimal number has its sixteens before its ones, written `0` to `9` and `a` to `f`.
pub proof fn hex_digits_follow_in_order(n: nat, d: nat, width: nat)
    requires
        d < 16,
    ensures
        hex(n * 16 + d, width + 1).len() == width + 1,
        hex(n * 16 + d, width + 1).drop_last() == hex(n, width),
        d < 10 ==> hex(n * 16 + d, width + 1).last() as int == '0' as int + d,
        d >= 10 ==> hex(n * 16 + d, width + 1).last() as int == 'a' as int + d - 10,
{
    hex_shape(n * 16 + d, width + 1);
    assert((n * 16 + d) / 16 == n);
    assert((n * 16 + d) % 16 == d);
    assert(hex(n * 16 + d, width + 1).drop_last() =~= hex(n, width));
}

/// A path that is not absolute is appended: the directory comes first, the name last, and exactly
/// one `/` between them unless the directory is empty. An absolute path stands for itself.
pub proof fn names_are_joined_to_their_directory(dir: Seq<char>, name: Seq<char>)
    ensures
        name.len() > 0 && name[0] == '/' ==> joined(dir, name) == name,
        !(name.len() > 0 && name[0] == '/') ==> {
            let p = joined(dir, name);
            &&& p.len() >= dir.len() + name.len()
            &&& p.take(dir.len() as int) == dir
            &&& p.skip(p.len() - name.len()) == name
            &&& dir.len() == 0 || dir.last() == '/' ==> p.len() == dir.len() + name.len()
            &&& dir.len() > 0 && dir.last() != '/' ==> p.len() == dir.len() + 1 + name.len()
                && p[dir.len() as int] == '/'
        },
{
    if !(name.len() > 0 && name[0] == '/') {
        let p = joined(dir, name);
        assert(p.take(dir.len() as int) =~= dir);
        assert(p.skip(p.len() - name.len()) =~= name);
    }
}

} // verus!
