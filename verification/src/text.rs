//! Character-level text handling: conversions between `str`/`String` and
//! character vectors, trimming, searching, line splitting and editing at a
//! character position.
use vstd::prelude::*;
use crate::git::strs_view;

verus! {

// ── Conversions ─────────────────────────────────────────────────────────────

/// Appends one character to a `String` (std `String::push`): the view of the
/// string grows by exactly that character.
#[verifier::external_body]
pub(crate) fn push_char(s: &mut String, c: char)
    ensures
        final(s)@ == old(s)@.push(c),
{
    s.push(c);
}

/// The characters of a string slice, in order.
pub fn to_chars(s: &str) -> (v: Vec<char>)
    ensures
        v@ == s@,
{
    let mut v: Vec<char> = Vec::new();
    for c in it: s.chars()
        invariant
            v@ == it.seq().take(it.index() as int),
    {
        v.push(c);
    }
    v
}

/// A string holding exactly the given characters.
pub fn from_chars(cs: &[char]) -> (s: String)
    ensures
        s@ == cs@,
{
    let mut s = String::new();
    let mut i: usize = 0;
    while i < cs.len()
        invariant
            i <= cs@.len(),
            s@ == cs@.take(i as int),
        decreases cs@.len() - i,
    {
        push_char(&mut s, cs[i]);
        proof { assert(cs@.take(i + 1) =~= cs@.take(i as int).push(cs@[i as int])); }
        i = i + 1;
    }
    proof { assert(cs@.take(cs@.len() as int) =~= cs@); }
    s
}

/// The characters `cs[lo..hi]` as a new string.
pub fn string_of_range(cs: &[char], lo: usize, hi: usize) -> (s: String)
    requires
        lo <= hi <= cs@.len(),
    ensures
        s@ == cs@.subrange(lo as int, hi as int),
{
    let mut s = String::new();
    let mut i: usize = lo;
    while i < hi
        invariant
            lo <= i <= hi <= cs@.len(),
            s@ == cs@.subrange(lo as int, i as int),
        decreases hi - i,
    {
        push_char(&mut s, cs[i]);
        proof {
            assert(cs@.subrange(lo as int, i + 1) =~= cs@.subrange(lo as int, i as int).push(
                cs@[i as int],
            ));
        }
        i = i + 1;
    }
    s
}

/// Appends the characters of `t` to `s`.
pub fn push_seq(s: &mut String, t: &[char])
    ensures
        final(s)@ == old(s)@ + t@,
{
    let mut i: usize = 0;
    while i < t.len()
        invariant
            i <= t@.len(),
            s@ == old(s)@ + t@.take(i as int),
        decreases t@.len() - i,
    {
        push_char(s, t[i]);
        proof { assert(t@.take(i + 1) =~= t@.take(i as int).push(t@[i as int])); }
        i = i + 1;
    }
    proof { assert(t@.take(t@.len() as int) =~= t@); }
}

/// Appends the characters `t[lo..hi]` to `s`.
pub fn push_seq_range(s: &mut String, t: &[char], lo: usize, hi: usize)
    requires
        lo <= hi <= t@.len(),
    ensures
        final(s)@ == old(s)@ + t@.subrange(lo as int, hi as int),
{
    let mut i: usize = lo;
    while i < hi
        invariant
            lo <= i <= hi <= t@.len(),
            s@ == old(s)@ + t@.subrange(lo as int, i as int),
        decreases hi - i,
    {
        push_char(s, t[i]);
        proof {
            assert(t@.subrange(lo as int, i + 1) =~= t@.subrange(lo as int, i as int).push(
                t@[i as int],
            ));
        }
        i = i + 1;
    }
}

/// Appends a string slice to `s`.
pub fn push_str(s: &mut String, t: &str)
    ensures
        final(s)@ == old(s)@ + t@,
{
    let v = to_chars(t);
    push_seq(s, v.as_slice());
}

/// A copy of a string.
pub fn copy_string(s: &String) -> (r: String)
    ensures
        r@ == s@,
{
    let v = to_chars(s.as_str());
    from_chars(v.as_slice())
}

/// Two strings compared character by character.
pub fn str_eq(a: &str, b: &str) -> (r: bool)
    ensures
        r == (a@ == b@),
{
    let x = to_chars(a);
    let y = to_chars(b);
    seq_eq(x.as_slice(), y.as_slice())
}

/// Two character sequences compared element by element.
pub fn seq_eq(a: &[char], b: &[char]) -> (r: bool)
    ensures
        r == (a@ == b@),
{
    if a.len() != b.len() {
        return false;
    }
    let mut i: usize = 0;
    while i < a.len()
        invariant
            a@.len() == b@.len(),
            i <= a@.len(),
            forall|j: int| 0 <= j < i ==> a@[j] == b@[j],
        decreases a@.len() - i,
    {
        if a[i] != b[i] {
            return false;
        }
        i = i + 1;
    }
    proof { assert(a@ =~= b@); }
    true
}

// ── Whitespace and trimming ─────────────────────────────────────────────────

/// Unicode `White_Space`, the property that `char::is_whitespace` tests.
pub open spec fn is_ws(c: char) -> bool {
    let u = c as u32;
    ||| 9 <= u <= 13
    ||| u == 32
    ||| u == 0x85
    ||| u == 0xA0
    ||| u == 0x1680
    ||| 0x2000 <= u <= 0x200A
    ||| u == 0x2028
    ||| u == 0x2029
    ||| u == 0x202F
    ||| u == 0x205F
    ||| u == 0x3000
}

/// Whitespace test on one character.
pub fn char_is_ws(c: char) -> (r: bool)
    ensures
        r == is_ws(c),
{
    let u = c as u32;
    (9 <= u && u <= 13) || u == 32 || u == 0x85 || u == 0xA0 || u == 0x1680 || (0x2000 <= u
        && u <= 0x200A) || u == 0x2028 || u == 0x2029 || u == 0x202F || u == 0x205F || u
        == 0x3000
}

/// `s` without its leading whitespace.
pub open spec fn trim_start(s: Seq<char>) -> Seq<char>
    decreases s.len(),
{
    if s.len() > 0 && is_ws(s[0]) {
        trim_start(s.drop_first())
    } else {
        s
    }
}

/// `s` without its trailing whitespace.
pub open spec fn trim_end(s: Seq<char>) -> Seq<char>
    decreases s.len(),
{
    if s.len() > 0 && is_ws(s.last()) {
        trim_end(s.drop_last())
    } else {
        s
    }
}

/// `s` without leading and trailing whitespace (`str::trim`).
pub open spec fn trim(s: Seq<char>) -> Seq<char> {
    trim_end(trim_start(s))
}

/// `s` without leading copies of `c`.
pub open spec fn trim_start_char(s: Seq<char>, c: char) -> Seq<char>
    decreases s.len(),
{
    if s.len() > 0 && s[0] == c {
        trim_start_char(s.drop_first(), c)
    } else {
        s
    }
}

/// `s` without trailing copies of `c` (`str::trim_end_matches` with a char).
pub open spec fn trim_end_char(s: Seq<char>, c: char) -> Seq<char>
    decreases s.len(),
{
    if s.len() > 0 && s.last() == c {
        trim_end_char(s.drop_last(), c)
    } else {
        s
    }
}

/// `s` without leading and trailing copies of `c` (`str::trim_matches`).
pub open spec fn trim_char(s: Seq<char>, c: char) -> Seq<char> {
    trim_end_char(trim_start_char(s, c), c)
}

/// Bounds `(lo, hi)` such that `cs[lo..hi]` is `trim(cs[from..to])`.
pub fn trim_bounds(cs: &[char], from: usize, to: usize) -> (r: (usize, usize))
    requires
        from <= to <= cs@.len(),
    ensures
        from <= r.0 <= r.1 <= to,
        cs@.subrange(r.0 as int, r.1 as int) == trim(cs@.subrange(from as int, to as int)),
{
    let mut lo = from;
    while lo < to && char_is_ws(cs[lo])
        invariant
            from <= lo <= to <= cs@.len(),
            trim_start(cs@.subrange(from as int, to as int)) == trim_start(
                cs@.subrange(lo as int, to as int),
            ),
        decreases to - lo,
    {
        proof {
            assert(cs@.subrange(lo as int, to as int).drop_first() =~= cs@.subrange(
                lo + 1,
                to as int,
            ));
        }
        lo = lo + 1;
    }
    let mut hi = to;
    while hi > lo && char_is_ws(cs[hi - 1])
        invariant
            from <= lo <= hi <= to <= cs@.len(),
            trim(cs@.subrange(from as int, to as int)) == trim_end(
                cs@.subrange(lo as int, hi as int),
            ),
        decreases hi - lo,
    {
        proof {
            assert(cs@.subrange(lo as int, hi as int).drop_last() =~= cs@.subrange(
                lo as int,
                hi - 1,
            ));
        }
        hi = hi - 1;
    }
    (lo, hi)
}

/// Bounds `(lo, hi)` such that `cs[lo..hi]` is `trim_char(cs[from..to], c)`.
pub fn trim_char_bounds(cs: &[char], from: usize, to: usize, c: char) -> (r: (usize, usize))
    requires
        from <= to <= cs@.len(),
    ensures
        from <= r.0 <= r.1 <= to,
        cs@.subrange(r.0 as int, r.1 as int) == trim_char(
            cs@.subrange(from as int, to as int),
            c,
        ),
{
    let mut lo = from;
    while lo < to && cs[lo] == c
        invariant
            from <= lo <= to <= cs@.len(),
            trim_start_char(cs@.subrange(from as int, to as int), c) == trim_start_char(
                cs@.subrange(lo as int, to as int),
                c,
            ),
        decreases to - lo,
    {
        proof {
            assert(cs@.subrange(lo as int, to as int).drop_first() =~= cs@.subrange(
                lo + 1,
                to as int,
            ));
        }
        lo = lo + 1;
    }
    let hi = trim_end_char_bound(cs, lo, to, c);
    (lo, hi)
}

/// The end `hi` such that `cs[lo..hi]` is `trim_end_char(cs[lo..to], c)`.
pub fn trim_end_char_bound(cs: &[char], lo: usize, to: usize, c: char) -> (hi: usize)
    requires
        lo <= to <= cs@.len(),
    ensures
        lo <= hi <= to,
        cs@.subrange(lo as int, hi as int) == trim_end_char(cs@.subrange(lo as int, to as int), c),
{
    let mut hi = to;
    while hi > lo && cs[hi - 1] == c
        invariant
            lo <= hi <= to <= cs@.len(),
            trim_end_char(cs@.subrange(lo as int, to as int), c) == trim_end_char(
                cs@.subrange(lo as int, hi as int),
                c,
            ),
        decreases hi - lo,
    {
        proof {
            assert(cs@.subrange(lo as int, hi as int).drop_last() =~= cs@.subrange(
                lo as int,
                hi - 1,
            ));
        }
        hi = hi - 1;
    }
    hi
}

/// `str::trim` on a string slice.
pub fn trim_str(s: &str) -> (r: String)
    ensures
        r@ == trim(s@),
{
    let cs = to_chars(s);
    let (lo, hi) = trim_bounds(cs.as_slice(), 0, cs.len());
    proof { assert(cs@.subrange(0, cs@.len() as int) =~= cs@); }
    string_of_range(cs.as_slice(), lo, hi)
}

// ── Prefixes, suffixes and search ───────────────────────────────────────────

/// `p` occurs in `s` starting at position `i`.
pub open spec fn occurs_at(s: Seq<char>, p: Seq<char>, i: int) -> bool {
    0 <= i && i + p.len() <= s.len() && s.subrange(i, i + p.len()) == p
}

/// `s` begins with `p`.
pub open spec fn starts_with(s: Seq<char>, p: Seq<char>) -> bool {
    occurs_at(s, p, 0)
}

/// `s` ends with `p`.
pub open spec fn ends_with(s: Seq<char>, p: Seq<char>) -> bool {
    p.len() <= s.len() && s.skip(s.len() - p.len()) == p
}

/// `p` occurs somewhere in `s` (`str::contains`).
pub open spec fn contains(s: Seq<char>, p: Seq<char>) -> bool {
    exists|i: int| occurs_at(s, p, i)
}

/// The position of the first occurrence of `p` in `s` (`str::find`).
#[verifier::opaque]
pub open spec fn find(s: Seq<char>, p: Seq<char>) -> Option<int> {
    if contains(s, p) {
        Some(choose|i: int| occurs_at(s, p, i) && forall|j: int| 0 <= j < i ==> !occurs_at(s, p, j))
    } else {
        None
    }
}

/// Whether `p` occurs in `cs` at `i`.
pub fn occurs_at_exec(cs: &[char], p: &[char], i: usize) -> (r: bool)
    ensures
        r == occurs_at(cs@, p@, i as int),
{
    if i > cs.len() || p.len() > cs.len() - i {
        return false;
    }
    let mut k: usize = 0;
    let n = cs.len();
    while k < p.len()
        invariant
            n == cs@.len(),
            i <= cs@.len(),
            i + p@.len() <= cs@.len(),
            k <= p@.len(),
            forall|j: int| 0 <= j < k ==> cs@[i + j] == p@[j],
        decreases p@.len() - k,
    {
        if cs[i + k] != p[k] {
            proof {
                assert(cs@.subrange(i as int, i + p@.len())[k as int] != p@[k as int]);
            }
            return false;
        }
        k = k + 1;
    }
    proof { assert(cs@.subrange(i as int, i + p@.len()) =~= p@); }
    true
}

/// First position at or after `from` where `p` occurs in `cs`.
pub fn find_from(cs: &[char], p: &[char], from: usize) -> (r: Option<usize>)
    ensures
        match r {
            Some(i) => from <= i && occurs_at(cs@, p@, i as int) && forall|j: int|
                from <= j < i ==> !occurs_at(cs@, p@, j),
            None => forall|j: int| from <= j ==> !occurs_at(cs@, p@, j),
        },
{
    if from > cs.len() {
        return None;
    }
    let mut i = from;
    while i < cs.len()
        invariant
            from <= i <= cs@.len(),
            forall|j: int| from <= j < i ==> !occurs_at(cs@, p@, j),
        decreases cs@.len() - i,
    {
        if occurs_at_exec(cs, p, i) {
            return Some(i);
        }
        i = i + 1;
    }
    if occurs_at_exec(cs, p, i) {
        return Some(i);
    }
    None
}

/// `str::find`: the first position where `p` occurs in `cs`.
pub fn find_seq(cs: &[char], p: &[char]) -> (r: Option<usize>)
    ensures
        match r {
            Some(i) => find(cs@, p@) == Some(i as int) && occurs_at(cs@, p@, i as int),
            None => find(cs@, p@) is None && !contains(cs@, p@),
        },
{
    let r = find_from(cs, p, 0);
    proof {
        reveal(find);
        match r {
            Some(i) => {
                assert(contains(cs@, p@));
                let k = choose|k: int|
                    occurs_at(cs@, p@, k) && forall|j: int| 0 <= j < k ==> !occurs_at(cs@, p@, j);
                assert(k == i);
            },
            None => {
                if contains(cs@, p@) {
                    let k = choose|k: int| occurs_at(cs@, p@, k);
                    assert(!occurs_at(cs@, p@, k));
                }
            },
        }
    }
    r
}

/// `str::contains`.
pub fn contains_seq(cs: &[char], p: &[char]) -> (r: bool)
    ensures
        r == contains(cs@, p@),
{
    let r = find_from(cs, p, 0);
    proof {
        if r is None && contains(cs@, p@) {
            let k = choose|k: int| occurs_at(cs@, p@, k);
            assert(!occurs_at(cs@, p@, k));
        }
    }
    r.is_some()
}

/// `str::contains` on string slices.
pub fn str_contains(s: &str, p: &str) -> (r: bool)
    ensures
        r == contains(s@, p@),
{
    let a = to_chars(s);
    let b = to_chars(p);
    contains_seq(a.as_slice(), b.as_slice())
}

/// `str::starts_with` on string slices.
pub fn str_starts_with(s: &str, p: &str) -> (r: bool)
    ensures
        r == starts_with(s@, p@),
{
    let a = to_chars(s);
    let b = to_chars(p);
    occurs_at_exec(a.as_slice(), b.as_slice(), 0)
}

/// `str::ends_with` on character slices.
pub fn ends_with_seq(cs: &[char], p: &[char]) -> (r: bool)
    ensures
        r == ends_with(cs@, p@),
{
    if p.len() > cs.len() {
        return false;
    }
    let r = occurs_at_exec(cs, p, cs.len() - p.len());
    proof {
        assert(cs@.subrange(cs@.len() - p@.len(), cs@.len() as int) =~= cs@.skip(
            cs@.len() - p@.len(),
        ));
    }
    r
}

/// First position at or after `from` (and before `to`) holding `c`.
pub fn find_char_in(cs: &[char], c: char, from: usize, to: usize) -> (r: Option<usize>)
    requires
        from <= to <= cs@.len(),
    ensures
        match r {
            Some(i) => from <= i < to && cs@[i as int] == c && forall|j: int|
                from <= j < i ==> cs@[j] != c,
            None => forall|j: int| from <= j < to ==> cs@[j] != c,
        },
{
    let mut i = from;
    while i < to
        invariant
            from <= i <= to <= cs@.len(),
            forall|j: int| from <= j < i ==> cs@[j] != c,
        decreases to - i,
    {
        if cs[i] == c {
            return Some(i);
        }
        i = i + 1;
    }
    None
}

// ── Lines ───────────────────────────────────────────────────────────────────

/// Length of the first line of `s`: the position of the first `'\n'`, or the
/// whole length when there is none.
pub open spec fn line_end(s: Seq<char>) -> int
    decreases s.len(),
{
    if s.len() == 0 {
        0
    } else if s[0] == '\n' {
        0
    } else {
        1 + line_end(s.drop_first())
    }
}

/// A line without one trailing carriage return.
pub open spec fn strip_cr(l: Seq<char>) -> Seq<char> {
    if l.len() > 0 && l.last() == '\r' {
        l.drop_last()
    } else {
        l
    }
}

/// The lines of `s` as `str::lines` yields them: split at `'\n'`, a `"\r\n"`
/// ending counts as one line ending, and a final line ending is optional.
pub open spec fn lines(s: Seq<char>) -> Seq<Seq<char>>
    decreases s.len(),
{
    if s.len() == 0 {
        Seq::empty()
    } else {
        let e = line_end(s);
        if e >= s.len() {
            seq![s]
        } else {
            proof {
                lemma_line_end_bounds(s);
            }
            seq![strip_cr(s.take(e))].add(lines(s.skip(e + 1)))
        }
    }
}

pub proof fn lemma_line_end_bounds(s: Seq<char>)
    ensures
        0 <= line_end(s) <= s.len(),
        line_end(s) < s.len() ==> s[line_end(s)] == '\n',
        forall|j: int| 0 <= j < line_end(s) ==> s[j] != '\n',
    decreases s.len(),
{
    if s.len() > 0 && s[0] != '\n' {
        lemma_line_end_bounds(s.drop_first());
        assert forall|j: int| 0 <= j < line_end(s) implies s[j] != '\n' by {
            if j > 0 {
                assert(s[j] == s.drop_first()[j - 1]);
            }
        }
    }
}

pub proof fn lemma_line_end_is(s: Seq<char>, k: int)
    requires
        0 <= k <= s.len(),
        k < s.len() ==> s[k] == '\n',
        forall|j: int| 0 <= j < k ==> s[j] != '\n',
    ensures
        line_end(s) == k,
    decreases k,
{
    if k > 0 {
        lemma_line_end_is(s.drop_first(), k - 1);
    }
}

/// A span `[start, end)` of the character sequence it was cut from.
#[derive(Clone, Copy)]
pub struct Span {
    pub start: usize,
    pub end: usize,
}

/// `sp` lies within `cs` and covers exactly the characters `l`.
pub open spec fn span_is(cs: Seq<char>, sp: Span, l: Seq<char>) -> bool {
    sp.start <= sp.end && sp.end <= cs.len() && cs.subrange(sp.start as int, sp.end as int) == l
}

/// The spans of the lines of `cs` (see `lines`).
pub fn line_spans(cs: &[char]) -> (r: Vec<Span>)
    ensures
        r@.len() == lines(cs@).len(),
        forall|i: int| 0 <= i < r@.len() ==> #[trigger] span_is(cs@, r@[i], lines(cs@)[i]),
{
    let mut out: Vec<Span> = Vec::new();
    let mut start: usize = 0;
    let mut i: usize = 0;
    let ghost mut done: Seq<Seq<char>> = Seq::empty();
    proof {
        assert(cs@.skip(0) =~= cs@);
        assert(lines(cs@) =~= done + lines(cs@.skip(0)));
    }
    while i < cs.len()
        invariant
            start <= i <= cs@.len(),
            forall|j: int| start <= j < i ==> cs@[j] != '\n',
            lines(cs@) == done + lines(cs@.skip(start as int)),
            done.len() == out@.len(),
            forall|k: int| 0 <= k < out@.len() ==> #[trigger] span_is(cs@, out@[k], done[k]),
        decreases cs@.len() - i,
    {
        if cs[i] == '\n' {
            let ghost rest = cs@.skip(start as int);
            proof {
                lemma_line_end_is(rest, i - start);
                assert(rest.take(i - start) =~= cs@.subrange(start as int, i as int));
                assert(rest.skip(i - start + 1) =~= cs@.skip(i + 1));
            }
            let mut end = i;
            if end > start && cs[end - 1] == '\r' {
                end = end - 1;
            }
            let ghost prev_done = done;
            let ghost prev = out@;
            proof {
                let l = cs@.subrange(start as int, i as int);
                assert(strip_cr(l) =~= cs@.subrange(start as int, end as int));
                assert(lines(rest) == seq![strip_cr(l)] + lines(cs@.skip(i + 1)));
                done = done.push(strip_cr(l));
                assert(lines(cs@) =~= done + lines(cs@.skip(i + 1)));
            }
            out.push(Span { start, end });
            proof {
                assert forall|k: int| 0 <= k < out@.len() implies #[trigger] span_is(
                    cs@,
                    out@[k],
                    done[k],
                ) by {
                    if k < prev.len() {
                        assert(out@[k] == prev[k]);
                        assert(done[k] == prev_done[k]);
                        assert(span_is(cs@, prev[k], prev_done[k]));
                    }
                }
            }
            start = i + 1;
        }
        i = i + 1;
    }
    if start < cs.len() {
        let ghost rest = cs@.skip(start as int);
        let ghost prev_done = done;
        let ghost prev = out@;
        proof {
            lemma_line_end_is(rest, rest.len() as int);
            assert(rest =~= cs@.subrange(start as int, cs@.len() as int));
            done = done.push(rest);
            assert(lines(cs@) =~= done);
        }
        out.push(Span { start, end: cs.len() });
        proof {
            assert forall|k: int| 0 <= k < out@.len() implies #[trigger] span_is(
                cs@,
                out@[k],
                done[k],
            ) by {
                if k < prev.len() {
                    assert(out@[k] == prev[k]);
                    assert(done[k] == prev_done[k]);
                    assert(span_is(cs@, prev[k], prev_done[k]));
                }
            }
        }
    } else {
        proof {
            assert(cs@.skip(start as int).len() == 0);
            assert(lines(cs@) =~= done);
        }
    }
    out
}


// ── Words ───────────────────────────────────────────────────────────────────

/// Length of the leading run of non-whitespace characters of `s`.
pub open spec fn word_end(s: Seq<char>) -> int
    decreases s.len(),
{
    if s.len() == 0 || is_ws(s[0]) {
        0
    } else {
        1 + word_end(s.drop_first())
    }
}

pub proof fn lemma_word_end_bounds(s: Seq<char>)
    ensures
        0 <= word_end(s) <= s.len(),
        s.len() > 0 && !is_ws(s[0]) ==> word_end(s) > 0,
    decreases s.len(),
{
    if s.len() > 0 && !is_ws(s[0]) {
        lemma_word_end_bounds(s.drop_first());
    }
}

pub proof fn lemma_word_end_is(s: Seq<char>, k: int)
    requires
        0 <= k <= s.len(),
        k < s.len() ==> is_ws(s[k]),
        forall|j: int| 0 <= j < k ==> !is_ws(s[j]),
    ensures
        word_end(s) == k,
    decreases k,
{
    if k > 0 {
        lemma_word_end_is(s.drop_first(), k - 1);
    }
}

/// The whitespace-separated words of `s` (`str::split_whitespace`).
pub open spec fn words(s: Seq<char>) -> Seq<Seq<char>>
    decreases s.len(),
{
    let t = trim_start(s);
    if t.len() == 0 {
        Seq::empty()
    } else {
        let e = word_end(t);
        proof {
            lemma_trim_start_len(s);
            lemma_word_end_bounds(t);
            lemma_trim_start_first(s);
        }
        seq![t.take(e)].add(words(t.skip(e)))
    }
}

pub proof fn lemma_trim_start_len(s: Seq<char>)
    ensures
        trim_start(s).len() <= s.len(),
        trim_start(s) == s.skip(s.len() - trim_start(s).len()),
    decreases s.len(),
{
    if s.len() > 0 && is_ws(s[0]) {
        lemma_trim_start_len(s.drop_first());
        assert(s.drop_first().skip(s.drop_first().len() - trim_start(s).len()) =~= s.skip(
            s.len() - trim_start(s).len(),
        ));
    } else {
        assert(s.skip(0) =~= s);
    }
}

pub proof fn lemma_trim_start_first(s: Seq<char>)
    ensures
        trim_start(s).len() > 0 ==> !is_ws(trim_start(s)[0]),
    decreases s.len(),
{
    if s.len() > 0 && is_ws(s[0]) {
        lemma_trim_start_first(s.drop_first());
    }
}

pub proof fn lemma_trim_start_skip(s: Seq<char>, k: int)
    requires
        0 <= k <= s.len(),
        forall|j: int| 0 <= j < k ==> is_ws(s[j]),
    ensures
        trim_start(s) == trim_start(s.skip(k)),
    decreases k,
{
    if k > 0 {
        assert(s.drop_first().skip(k - 1) =~= s.skip(k));
        lemma_trim_start_skip(s.drop_first(), k - 1);
    } else {
        assert(s.skip(0) =~= s);
    }
}

/// Trimming the end keeps a prefix, and keeps at least the first `k`
/// characters when the `k`-th is not whitespace.
pub proof fn lemma_trim_end_keeps(s: Seq<char>, k: int)
    requires
        0 < k <= s.len(),
        !is_ws(s[k - 1]),
    ensures
        k <= trim_end(s).len() <= s.len(),
        trim_end(s) == s.take(trim_end(s).len() as int),
    decreases s.len(),
{
    if is_ws(s.last()) {
        assert(k < s.len());
        assert(s.drop_last()[k - 1] == s[k - 1]);
        lemma_trim_end_keeps(s.drop_last(), k);
        assert(s.drop_last().take(trim_end(s).len() as int) =~= s.take(trim_end(s).len() as int));
    } else {
        assert(s.take(s.len() as int) =~= s);
    }
}

/// The spans of the first `max` words of `cs[from..to]`, and whether there
/// are more words after them.
pub fn word_spans(cs: &[char], from: usize, to: usize, max: usize) -> (r: Vec<Span>)
    requires
        from <= to <= cs@.len(),
    ensures
        r@.len() == if words(cs@.subrange(from as int, to as int)).len() < max {
            words(cs@.subrange(from as int, to as int)).len() as int
        } else {
            max as int
        },
        forall|i: int|
            0 <= i < r@.len() ==> #[trigger] span_is(
                cs@,
                r@[i],
                words(cs@.subrange(from as int, to as int))[i],
            ),
{
    let ghost all = words(cs@.subrange(from as int, to as int));
    let mut out: Vec<Span> = Vec::new();
    let mut i = from;
    let ghost mut done: Seq<Seq<char>> = Seq::empty();
    proof {
        assert(all =~= done + words(cs@.subrange(i as int, to as int)));
    }
    while out.len() < max
        invariant
            from <= i <= to <= cs@.len(),
            all == done + words(cs@.subrange(i as int, to as int)),
            all == words(cs@.subrange(from as int, to as int)),
            done.len() == out@.len(),
            out@.len() <= max,
            forall|k: int| 0 <= k < out@.len() ==> #[trigger] span_is(cs@, out@[k], done[k]),
        decreases max - out@.len(),
    {
        let ghost rest = cs@.subrange(i as int, to as int);
        let mut s = i;
        while s < to && char_is_ws(cs[s])
            invariant
                i <= s <= to <= cs@.len(),
                rest == cs@.subrange(i as int, to as int),
                forall|j: int| i <= j < s ==> is_ws(cs@[j]),
            decreases to - s,
        {
            s = s + 1;
        }
        proof {
            assert forall|j: int| 0 <= j < s - i implies is_ws(rest[j]) by {
                assert(rest[j] == cs@[i + j]);
            }
            lemma_trim_start_skip(rest, s - i);
            assert(rest.skip(s - i) =~= cs@.subrange(s as int, to as int));
        }
        if s == to {
            proof {
                assert(cs@.subrange(s as int, to as int).len() == 0);
                assert(words(rest) =~= Seq::<Seq<char>>::empty());
                assert(all =~= done);
            }
            return out;
        }
        let mut e = s;
        while e < to && !char_is_ws(cs[e])
            invariant
                s <= e <= to <= cs@.len(),
                forall|j: int| s <= j < e ==> !is_ws(cs@[j]),
            decreases to - e,
        {
            e = e + 1;
        }
        let ghost t = cs@.subrange(s as int, to as int);
        proof {
            assert(trim_start(rest) == t);
            lemma_word_end_is(t, e - s);
            assert(t.take(e - s) =~= cs@.subrange(s as int, e as int));
            assert(t.skip(e - s) =~= cs@.subrange(e as int, to as int));
            assert(words(rest) == seq![t.take(e - s)] + words(t.skip(e - s)));
        }
        let ghost prev_done = done;
        let ghost prev = out@;
        proof {
            done = done.push(cs@.subrange(s as int, e as int));
            assert(all =~= done + words(cs@.subrange(e as int, to as int)));
        }
        out.push(Span { start: s, end: e });
        proof {
            assert forall|k: int| 0 <= k < out@.len() implies #[trigger] span_is(
                cs@,
                out@[k],
                done[k],
            ) by {
                if k < prev.len() {
                    assert(out@[k] == prev[k]);
                    assert(done[k] == prev_done[k]);
                    assert(span_is(cs@, prev[k], prev_done[k]));
                }
            }
        }
        i = e;
    }
    proof {
        assert(all.len() >= done.len());
        assert forall|k: int| 0 <= k < out@.len() implies #[trigger] span_is(
            cs@,
            out@[k],
            all[k],
        ) by {
            assert(all[k] == done[k]);
        }
    }
    out
}

// ── Numbers ─────────────────────────────────────────────────────────────────

/// `c` is an ASCII decimal digit.
pub open spec fn is_digit(c: char) -> bool {
    '0' <= c && c <= '9'
}

/// Every character of `s` is a decimal digit.
pub open spec fn all_digits(s: Seq<char>) -> bool {
    forall|i: int| 0 <= i < s.len() ==> is_digit(s[i])
}

/// The value of a string of decimal digits.
pub open spec fn digits_value(s: Seq<char>) -> int
    decreases s.len(),
{
    if s.len() == 0 {
        0
    } else {
        digits_value(s.drop_last()) * 10 + (s.last() as int - '0' as int)
    }
}

/// What `str::parse::<u32>` gives: an optional `'+'`, then one or more
/// decimal digits whose value fits in a `u32`.
pub open spec fn parse_u32(s: Seq<char>) -> Option<u32> {
    let body = if s.len() > 0 && s[0] == '+' {
        s.drop_first()
    } else {
        s
    };
    if body.len() == 0 || !all_digits(body) || digits_value(body) > u32::MAX {
        None
    } else {
        Some(digits_value(body) as u32)
    }
}

pub proof fn lemma_digits_value_nonneg(s: Seq<char>)
    requires
        forall|i: int| 0 <= i < s.len() ==> is_digit(s[i]),
    ensures
        digits_value(s) >= 0,
    decreases s.len(),
{
    if s.len() > 0 {
        lemma_digits_value_nonneg(s.drop_last());
    }
}

pub proof fn lemma_digits_value_prefix(s: Seq<char>, k: int)
    requires
        0 <= k <= s.len(),
        forall|i: int| 0 <= i < s.len() ==> is_digit(s[i]),
    ensures
        digits_value(s.take(k)) <= digits_value(s),
    decreases s.len() - k,
{
    if k < s.len() {
        lemma_digits_value_prefix(s.drop_last(), k);
        assert(s.drop_last().take(k) =~= s.take(k));
        lemma_digits_value_nonneg(s.drop_last());
    } else {
        assert(s.take(k) =~= s);
    }
}

/// `str::parse::<u32>` on `cs[from..to]`.
pub fn parse_u32_range(cs: &[char], from: usize, to: usize) -> (r: Option<u32>)
    requires
        from <= to <= cs@.len(),
    ensures
        r == parse_u32(cs@.subrange(from as int, to as int)),
{
    let ghost s = cs@.subrange(from as int, to as int);
    let mut i = from;
    if i < to && cs[i] == '+' {
        i = i + 1;
    }
    let ghost body = cs@.subrange(i as int, to as int);
    proof {
        if s.len() > 0 && s[0] == '+' {
            assert(body =~= s.drop_first());
        } else {
            assert(body =~= s);
        }
    }
    if i == to {
        return None;
    }
    let start = i;
    let mut v: u64 = 0;
    while i < to
        invariant
            from <= start <= i <= to <= cs@.len(),
            body == cs@.subrange(start as int, to as int),
            s == cs@.subrange(from as int, to as int),
            (s.len() > 0 && s[0] == '+') ==> body == s.drop_first(),
            !(s.len() > 0 && s[0] == '+') ==> body == s,
            forall|j: int| start <= j < i ==> is_digit(cs@[j]),
            v as int == digits_value(cs@.subrange(start as int, i as int)),
            v <= u32::MAX,
        decreases to - i,
    {
        let c = cs[i];
        if !('0' <= c && c <= '9') {
            proof {
                assert(!is_digit(body[i - start]));
                assert(!all_digits(body));
            }
            return None;
        }
        let d = (c as u32 - '0' as u32) as u64;
        let nv = v * 10 + d;
        proof {
            assert(cs@.subrange(start as int, i + 1).drop_last() =~= cs@.subrange(
                start as int,
                i as int,
            ));
        }
        proof {
            let p = cs@.subrange(start as int, i + 1);
            assert(p.last() == c);
            assert(nv as int == digits_value(p));
        }
        if nv > 0xFFFF_FFFF {
            proof {
                if all_digits(body) {
                    assert(body.take(i + 1 - start) =~= cs@.subrange(start as int, i + 1));
                    lemma_digits_value_prefix(body, i + 1 - start);
                }
            }
            return None;
        }
        v = nv;
        i = i + 1;
    }
    Some(v as u32)
}

// ── Editing at a character position ─────────────────────────────────────────

/// Inserts `c` before the character at position `at` of `s` (at the end when
/// `at` is past the last character).
pub fn insert_char_at(s: &mut String, at: usize, c: char)
    ensures
        final(s)@ == old(s)@.insert(
            if at <= old(s)@.len() {
                at as int
            } else {
                old(s)@.len() as int
            },
            c,
        ),
{
    let mut v = to_chars(s.as_str());
    let pos = if at <= v.len() {
        at
    } else {
        v.len()
    };
    v.insert(pos, c);
    *s = from_chars(v.as_slice());
}

/// Removes the character at position `at` of `s`, when there is one.
pub fn remove_char_at(s: &mut String, at: usize)
    ensures
        at < old(s)@.len() ==> final(s)@ == old(s)@.remove(at as int),
        at >= old(s)@.len() ==> final(s)@ == old(s)@,
{
    let mut v = to_chars(s.as_str());
    if at < v.len() {
        v.remove(at);
        *s = from_chars(v.as_slice());
    }
}

/// Number of characters of a string.
pub fn char_count(s: &str) -> (n: usize)
    ensures
        n == s@.len(),
{
    let v = to_chars(s);
    v.len()
}


// ── First occurrence of a character ─────────────────────────────────────────

/// Position of the first `c` in `s`, or the length of `s` when there is none.
pub open spec fn index_or_len(s: Seq<char>, c: char) -> int
    decreases s.len(),
{
    if s.len() == 0 {
        0
    } else if s[0] == c {
        0
    } else {
        1 + index_or_len(s.drop_first(), c)
    }
}

pub proof fn lemma_index_or_len_is(s: Seq<char>, c: char, k: int)
    requires
        0 <= k <= s.len(),
        k < s.len() ==> s[k] == c,
        forall|j: int| 0 <= j < k ==> s[j] != c,
    ensures
        index_or_len(s, c) == k,
    decreases k,
{
    if k > 0 {
        lemma_index_or_len_is(s.drop_first(), c, k - 1);
    }
}

pub proof fn lemma_index_or_len_bounds(s: Seq<char>, c: char)
    ensures
        0 <= index_or_len(s, c) <= s.len(),
        index_or_len(s, c) < s.len() ==> s[index_or_len(s, c)] == c,
        forall|j: int| 0 <= j < index_or_len(s, c) ==> s[j] != c,
    decreases s.len(),
{
    if s.len() > 0 && s[0] != c {
        lemma_index_or_len_bounds(s.drop_first(), c);
        assert forall|j: int| 0 <= j < index_or_len(s, c) implies s[j] != c by {
            if j > 0 {
                assert(s[j] == s.drop_first()[j - 1]);
            }
        }
    }
}

/// `index_or_len` on `cs[from..to]`, as an absolute position.
pub fn index_or_len_in(cs: &[char], c: char, from: usize, to: usize) -> (r: usize)
    requires
        from <= to <= cs@.len(),
    ensures
        from <= r <= to,
        r - from == index_or_len(cs@.subrange(from as int, to as int), c),
{
    let r = find_char_in(cs, c, from, to);
    let p = match r {
        Some(i) => i,
        None => to,
    };
    proof {
        lemma_index_or_len_is(cs@.subrange(from as int, to as int), c, p - from);
    }
    p
}

// ── UTF-8 byte positions ────────────────────────────────────────────────────

/// Number of bytes of `c` in UTF-8.
pub open spec fn utf8_len(c: char) -> int {
    let u = c as u32;
    if u < 0x80 {
        1
    } else if u < 0x800 {
        2
    } else if u < 0x10000 {
        3
    } else {
        4
    }
}

/// Number of bytes of `s` in UTF-8 (`str::len`).
pub open spec fn byte_len(s: Seq<char>) -> int
    decreases s.len(),
{
    if s.len() == 0 {
        0
    } else {
        utf8_len(s[0]) + byte_len(s.drop_first())
    }
}

/// The number of characters that take up exactly the first `b` bytes of
/// `s`, when byte `b` is a character boundary.
pub open spec fn chars_in_bytes(s: Seq<char>, b: int) -> Option<int>
    decreases s.len(),
{
    if b == 0 {
        Some(0)
    } else if s.len() == 0 || utf8_len(s[0]) > b {
        None
    } else {
        match chars_in_bytes(s.drop_first(), b - utf8_len(s[0])) {
            Some(k) => Some(k + 1),
            None => None,
        }
    }
}

/// Byte length of one character.
pub fn char_utf8_len(c: char) -> (n: usize)
    ensures
        n == utf8_len(c),
{
    let u = c as u32;
    if u < 0x80 {
        1
    } else if u < 0x800 {
        2
    } else if u < 0x10000 {
        3
    } else {
        4
    }
}

/// Whether `cs[from..to]` takes fewer than `n` bytes.
pub fn bytes_less_than(cs: &[char], from: usize, to: usize, n: usize) -> (r: bool)
    requires
        from <= to <= cs@.len(),
        n <= 1000,
    ensures
        r == (byte_len(cs@.subrange(from as int, to as int)) < n),
    decreases to - from,
{
    if from == to {
        return 0 < n;
    }
    let l = char_utf8_len(cs[from]);
    proof {
        assert(cs@.subrange(from as int, to as int).drop_first() =~= cs@.subrange(
            from + 1,
            to as int,
        ));
        lemma_byte_len_nonneg(cs@.subrange(from + 1, to as int));
    }
    if l >= n {
        return false;
    }
    bytes_less_than(cs, from + 1, to, n - l)
}

pub proof fn lemma_byte_len_nonneg(s: Seq<char>)
    ensures
        byte_len(s) >= 0,
    decreases s.len(),
{
    if s.len() > 0 {
        lemma_byte_len_nonneg(s.drop_first());
    }
}

/// `chars_in_bytes` on `cs[from..to]`.
pub fn chars_in_bytes_exec(cs: &[char], from: usize, to: usize, b: usize) -> (r: Option<usize>)
    requires
        from <= to <= cs@.len(),
    ensures
        match chars_in_bytes(cs@.subrange(from as int, to as int), b as int) {
            Some(k) => r == Some(k as usize) && 0 <= k <= to - from,
            None => r is None,
        },
    decreases to - from,
{
    if b == 0 {
        return Some(0);
    }
    if from == to {
        return None;
    }
    let l = char_utf8_len(cs[from]);
    if l > b {
        return None;
    }
    proof {
        assert(cs@.subrange(from as int, to as int).drop_first() =~= cs@.subrange(
            from + 1,
            to as int,
        ));
    }
    match chars_in_bytes_exec(cs, from + 1, to, b - l) {
        Some(k) => Some(k + 1),
        None => None,
    }
}


// ── Decimal numbers ─────────────────────────────────────────────────────────

/// The decimal digit character for `d` (`0 <= d < 10`).
pub open spec fn digit_char(d: nat) -> char {
    ((d + 48) as u32) as char
}

/// The decimal representation of `n`, without leading zeros (`"0"` for 0).
pub open spec fn decimal(n: nat) -> Seq<char>
    decreases n,
{
    if n < 10 {
        seq![digit_char(n)]
    } else {
        decimal(n / 10).push(digit_char(n % 10))
    }
}

/// A decimal representation is one or more digits whose value is the
/// number.
pub proof fn lemma_decimal_digits(n: nat)
    ensures
        decimal(n).len() >= 1,
        all_digits(decimal(n)),
        digits_value(decimal(n)) == n,
    decreases n,
{
    if n < 10 {
        assert(digit_char(n) as int == n + 48);
        assert(decimal(n).drop_last() =~= Seq::<char>::empty());
        assert(digits_value(Seq::<char>::empty()) == 0);
        assert('0' as int == 48);
        assert(digits_value(decimal(n)) == digits_value(decimal(n).drop_last()) * 10 + (decimal(n).last() as int - '0' as int));
    } else {
        lemma_decimal_digits(n / 10);
        let d = decimal(n);
        assert(digit_char(n % 10) as int == n % 10 + 48);
        assert(d.drop_last() =~= decimal(n / 10));
        assert(d.last() == digit_char(n % 10));
        assert(digits_value(d) == digits_value(d.drop_last()) * 10 + (d.last() as int - '0' as int));
        assert((n / 10) * 10 + n % 10 == n) by (nonlinear_arith);
        assert forall|i: int| 0 <= i < d.len() implies is_digit(d[i]) by {
            if i < d.len() - 1 {
                assert(d[i] == decimal(n / 10)[i]);
            }
        }
    }
}

/// `str::parse::<u32>` reads a decimal representation back as its number.
pub proof fn lemma_parse_decimal(n: u32)
    ensures
        parse_u32(decimal(n as nat)) == Some(n),
{
    lemma_decimal_digits(n as nat);
    assert(is_digit(decimal(n as nat)[0]));
}

/// The position of `c` in `a + s` is past `a` when `a` holds no `c`.
pub proof fn lemma_index_or_len_after(a: Seq<char>, s: Seq<char>, c: char)
    requires
        forall|j: int| 0 <= j < a.len() ==> a[j] != c,
    ensures
        index_or_len(a + s, c) == a.len() + index_or_len(s, c),
    decreases a.len(),
{
    if a.len() > 0 {
        assert((a + s).drop_first() =~= a.drop_first() + s);
        lemma_index_or_len_after(a.drop_first(), s, c);
    } else {
        assert(a + s =~= s);
    }
}

/// The words of a text that starts with a word `w` and one whitespace
/// character: `w`, then the words of the rest.
pub proof fn lemma_words_first(w: Seq<char>, sp: char, rest: Seq<char>)
    requires
        w.len() > 0,
        forall|j: int| 0 <= j < w.len() ==> !is_ws(#[trigger] w[j]),
        is_ws(sp),
    ensures
        words(w + seq![sp] + rest) == seq![w] + words(rest),
{
    let s = w + seq![sp] + rest;
    assert(s[0] == w[0]);
    assert(trim_start(s) == s);
    lemma_word_end_of(w, seq![sp] + rest);
    assert(s =~= w + (seq![sp] + rest));
    assert(s.take(w.len() as int) =~= w);
    assert(s.skip(w.len() as int) =~= seq![sp] + rest);
    assert((seq![sp] + rest).drop_first() =~= rest);
    assert(words(seq![sp] + rest) == words(rest));
}

proof fn lemma_word_end_of(w: Seq<char>, x: Seq<char>)
    requires
        forall|j: int| 0 <= j < w.len() ==> !is_ws(#[trigger] w[j]),
        x.len() > 0,
        is_ws(x[0]),
    ensures
        word_end(w + x) == w.len(),
    decreases w.len(),
{
    if w.len() > 0 {
        assert((w + x).drop_first() =~= w.drop_first() + x);
        assert forall|j: int| 0 <= j < w.drop_first().len() implies !is_ws(#[trigger] w.drop_first()[j]) by {
            assert(w.drop_first()[j] == w[j + 1]);
        }
        lemma_word_end_of(w.drop_first(), x);
        assert((w + x)[0] == w[0]);
    } else {
        assert(w + x =~= x);
    }
}

fn digit_of(d: u64) -> (c: char)
    requires
        d < 10,
    ensures
        c == digit_char(d as nat),
{
    if d == 0 {
        '0'
    } else if d == 1 {
        '1'
    } else if d == 2 {
        '2'
    } else if d == 3 {
        '3'
    } else if d == 4 {
        '4'
    } else if d == 5 {
        '5'
    } else if d == 6 {
        '6'
    } else if d == 7 {
        '7'
    } else if d == 8 {
        '8'
    } else {
        '9'
    }
}

/// Appends the decimal representation of `n` to `s`.
pub fn push_decimal(s: &mut String, n: u64)
    ensures
        final(s)@ == old(s)@ + decimal(n as nat),
    decreases n,
{
    if n < 10 {
        push_char(s, digit_of(n));
    } else {
        push_decimal(s, n / 10);
        push_char(s, digit_of(n % 10));
    }
}


// ── Lines as strings ────────────────────────────────────────────────────────

/// `str::lines`, collected into strings.
pub fn split_lines(text: &str) -> (r: Vec<String>)
    ensures
        strs_view(r@) == lines(text@),
{
    let cs = to_chars(text);
    let spans = line_spans(cs.as_slice());
    let mut out: Vec<String> = Vec::new();
    let mut i: usize = 0;
    while i < spans.len()
        invariant
            spans@.len() == lines(cs@).len(),
            forall|k: int| 0 <= k < spans@.len() ==> #[trigger] span_is(cs@, spans@[k], lines(cs@)[k]),
            i <= spans@.len(),
            out@.len() == i,
            forall|k: int| 0 <= k < i ==> #[trigger] out@[k]@ == lines(cs@)[k],
        decreases spans@.len() - i,
    {
        let sp = spans[i];
        proof { assert(span_is(cs@, spans@[i as int], lines(cs@)[i as int])); }
        out.push(string_of_range(cs.as_slice(), sp.start, sp.end));
        i = i + 1;
    }
    proof { assert(strs_view(out@) =~= lines(cs@)); }
    out
}

/// Lines joined with `'\n'` between them, as `join("\n")` writes them.
pub open spec fn joined(ls: Seq<Seq<char>>) -> Seq<char>
    decreases ls.len(),
{
    if ls.len() == 0 {
        Seq::empty()
    } else if ls.len() == 1 {
        ls[0]
    } else {
        joined(ls.drop_last()) + seq!['\n'] + ls.last()
    }
}

/// `join("\n")` on a list of strings.
pub fn join_lines(v: &Vec<String>) -> (r: String)
    ensures
        r@ == joined(strs_view(v@)),
{
    let mut out = String::new();
    let mut i: usize = 0;
    while i < v.len()
        invariant
            i <= v@.len(),
            out@ == joined(strs_view(v@).take(i as int)),
        decreases v@.len() - i,
    {
        proof {
            assert(strs_view(v@).take(i + 1).drop_last() =~= strs_view(v@).take(i as int));
        }
        if i > 0 {
            push_str(&mut out, "\n");
            proof { reveal_strlit("\n"); }
        }
        push_str(&mut out, v[i].as_str());
        proof {
            if i == 0 {
                assert(strs_view(v@).take(1) =~= seq![v@[0]@]);
            }
        }
        i = i + 1;
    }
    proof { assert(strs_view(v@).take(v@.len() as int) =~= strs_view(v@)); }
    out
}

} // verus!
