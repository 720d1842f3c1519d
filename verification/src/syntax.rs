//! The colouring of a source line in the editor: the line is cut after
//! each character that cannot be part of a word, and each piece gets a
//! class from its word.
use vstd::prelude::*;
use crate::git::{char_is_alphanumeric, is_alnum};
use crate::text::{ends_with, starts_with, string_of_range, to_chars, trim, trim_str, str_starts_with};
use crate::ui::{is_function_call, is_keyword, is_operator, is_type, keyword_word, operator_word, type_word};

verus! {

/// The class of a piece of a source line.
#[derive(Debug, Clone, Copy, PartialEq, Eq, Structural)]
pub enum SyntaxKind {
    Comment,
    Keyword,
    Type,
    Function,
    Number,
    Str,
    Operator,
    Plain,
}

/// Whether `char::is_numeric` holds of `c` (Unicode numbers).
pub uninterp spec fn is_num(c: char) -> bool;

/// `char::is_numeric`.
#[verifier::external_body]
fn char_is_numeric(c: char) -> (r: bool)
    ensures
        r == is_num(c),
{
    c.is_numeric()
}

/// A character that ends a piece: neither alphanumeric nor `_`.
pub open spec fn word_sep(c: char) -> bool {
    !is_alnum(c) && c != '_'
}

/// The position of the first separator of `s`, or its length.
pub open spec fn sep_index(s: Seq<char>) -> int
    decreases s.len(),
{
    if s.len() == 0 {
        0
    } else if word_sep(s[0]) {
        0
    } else {
        1 + sep_index(s.drop_first())
    }
}

/// `sep_index` lies within the text.
pub proof fn lemma_sep_index_bounds(s: Seq<char>)
    ensures
        0 <= sep_index(s) <= s.len(),
    decreases s.len(),
{
    if s.len() > 0 && !word_sep(s[0]) {
        lemma_sep_index_bounds(s.drop_first());
    }
}

/// The first separator is at `k` when none comes before and one is there
/// (or `k` is the length).
proof fn lemma_sep_index_is(s: Seq<char>, k: int)
    requires
        0 <= k <= s.len(),
        forall|j: int| 0 <= j < k ==> !word_sep(#[trigger] s[j]),
        k < s.len() ==> word_sep(s[k]),
    ensures
        sep_index(s) == k,
    decreases s.len(),
{
    if s.len() > 0 && k > 0 {
        assert forall|j: int| 0 <= j < k - 1 implies !word_sep(#[trigger] s.drop_first()[j]) by {
            assert(s.drop_first()[j] == s[j + 1]);
        }
        lemma_sep_index_is(s.drop_first(), k - 1);
    }
}

/// The pieces of a line, each ending after a separator (the last one may
/// end without), as `str::split_inclusive` cuts them.
pub open spec fn pieces(s: Seq<char>) -> Seq<Seq<char>>
    decreases s.len(),
{
    if s.len() == 0 {
        Seq::empty()
    } else {
        let k = sep_index(s);
        proof { lemma_sep_index_bounds(s); }
        if k >= s.len() {
            seq![s]
        } else {
            seq![s.take(k + 1)] + pieces(s.skip(k + 1))
        }
    }
}

/// `s` without its leading separators.
pub open spec fn trim_sep_start(s: Seq<char>) -> Seq<char>
    decreases s.len(),
{
    if s.len() > 0 && word_sep(s[0]) {
        trim_sep_start(s.drop_first())
    } else {
        s
    }
}

/// `s` without its trailing separators.
pub open spec fn trim_sep_end(s: Seq<char>) -> Seq<char>
    decreases s.len(),
{
    if s.len() > 0 && word_sep(s.last()) {
        trim_sep_end(s.drop_last())
    } else {
        s
    }
}

/// The word of a piece: the piece without separators at either end.
pub open spec fn word_of(s: Seq<char>) -> Seq<char> {
    trim_sep_end(trim_sep_start(s))
}

/// Every character of `s` is numeric (true of the empty text).
pub open spec fn all_numeric(s: Seq<char>) -> bool {
    forall|i: int| 0 <= i < s.len() ==> is_num(#[trigger] s[i])
}

/// The class of a piece: a keyword or type by its word, a call when it ends
/// in `(`, a number when its word is numeric, a string when it starts or
/// ends with a quote, an operator when made of operator characters.
pub open spec fn kind_of(piece: Seq<char>) -> SyntaxKind {
    let w = word_of(piece);
    if keyword_word(w) {
        SyntaxKind::Keyword
    } else if type_word(w) {
        SyntaxKind::Type
    } else if ends_with(piece, "("@) {
        SyntaxKind::Function
    } else if all_numeric(w) {
        SyntaxKind::Number
    } else if starts_with(piece, "\""@) || ends_with(piece, "\""@) {
        SyntaxKind::Str
    } else if operator_word(piece) {
        SyntaxKind::Operator
    } else {
        SyntaxKind::Plain
    }
}

/// The coloured pieces of a line: the whole line as a comment when it
/// starts (after whitespace) with `//`, else each piece with its class.
pub open spec fn highlighted(line: Seq<char>) -> Seq<(Seq<char>, SyntaxKind)> {
    if starts_with(trim(line), "//"@) {
        seq![(line, SyntaxKind::Comment)]
    } else {
        pieces(line).map_values(|p: Seq<char>| (p, kind_of(p)))
    }
}

/// A line whose text after its leading whitespace starts with `//` is one
/// comment: highlighting gives the whole line as a single piece of class
/// `Comment`, however much whitespace comes first.
pub proof fn lemma_comment_line(lead: Seq<char>, rest: Seq<char>)
    requires
        forall|j: int| 0 <= j < lead.len() ==> crate::text::is_ws(#[trigger] lead[j]),
    ensures
        highlighted(lead + "//"@ + rest) == seq![(lead + "//"@ + rest, SyntaxKind::Comment)],
{
    reveal_strlit("//");
    let line = lead + "//"@ + rest;
    let body = "//"@ + rest;
    assert(line =~= lead + body);
    assert forall|j: int| 0 <= j < lead.len() implies crate::text::is_ws(line[j]) by {
        assert(line[j] == lead[j]);
    }
    crate::text::lemma_trim_start_skip(line, lead.len() as int);
    assert(line.skip(lead.len() as int) =~= body);
    assert(body[0] == '/');
    assert(!crate::text::is_ws('/'));
    assert(crate::text::trim_start(body) == body);
    crate::text::lemma_trim_end_keeps(body, 2);
    let t = trim(line);
    assert(t == crate::text::trim_end(body));
    assert(t.subrange(0, 2) =~= "//"@);
    assert(starts_with(t, "//"@));
}

/// The views of coloured pieces.
pub open spec fn tokens_view(v: Seq<(String, SyntaxKind)>) -> Seq<(Seq<char>, SyntaxKind)> {
    v.map_values(|t: (String, SyntaxKind)| (t.0@, t.1))
}

/// Whether `c` ends a piece.
fn is_word_sep(c: char) -> (r: bool)
    ensures
        r == word_sep(c),
{
    !char_is_alphanumeric(c) && c != '_'
}

/// The word of a piece (see `word_of`).
fn word_of_exec(piece: &str) -> (r: String)
    ensures
        r@ == word_of(piece@),
{
    let cs = to_chars(piece);
    let n = cs.len();
    let mut a: usize = 0;
    proof { assert(cs@.subrange(0, n as int) =~= cs@); }
    while a < n && is_word_sep(cs[a])
        invariant
            a <= n == cs@.len(),
            trim_sep_start(cs@) == trim_sep_start(cs@.subrange(a as int, n as int)),
        decreases n - a,
    {
        proof { assert(cs@.subrange(a as int, n as int).drop_first() =~= cs@.subrange(a + 1, n as int)); }
        a = a + 1;
    }
    let mut b: usize = n;
    proof {
        assert(trim_sep_start(cs@.subrange(a as int, n as int)) == cs@.subrange(a as int, n as int));
    }
    while b > a && is_word_sep(cs[b - 1])
        invariant
            a <= b <= n == cs@.len(),
            trim_sep_end(trim_sep_start(cs@)) == trim_sep_end(cs@.subrange(a as int, b as int)),
        decreases b - a,
    {
        proof { assert(cs@.subrange(a as int, b as int).drop_last() =~= cs@.subrange(a as int, b - 1)); }
        b = b - 1;
    }
    string_of_range(cs.as_slice(), a, b)
}

/// Whether every character is numeric.
fn all_numeric_exec(s: &str) -> (r: bool)
    ensures
        r == all_numeric(s@),
{
    let cs = to_chars(s);
    let mut i: usize = 0;
    while i < cs.len()
        invariant
            i <= cs@.len(),
            cs@ == s@,
            forall|j: int| 0 <= j < i ==> is_num(#[trigger] cs@[j]),
        decreases cs@.len() - i,
    {
        if !char_is_numeric(cs[i]) {
            return false;
        }
        i = i + 1;
    }
    true
}

/// The class of a piece (see `kind_of`).
pub fn kind_of_piece(piece: &str) -> (r: SyntaxKind)
    ensures
        r == kind_of(piece@),
{
    let w = word_of_exec(piece);
    if is_keyword(w.as_str()) {
        SyntaxKind::Keyword
    } else if is_type(w.as_str()) {
        SyntaxKind::Type
    } else if is_function_call(piece) {
        SyntaxKind::Function
    } else if all_numeric_exec(w.as_str()) {
        SyntaxKind::Number
    } else if str_starts_with(piece, "\"") || crate::text::ends_with_seq(to_chars(piece).as_slice(), to_chars("\"").as_slice()) {
        SyntaxKind::Str
    } else if is_operator(piece) {
        SyntaxKind::Operator
    } else {
        SyntaxKind::Plain
    }
}

/// The coloured pieces of a source line (see `highlighted`).
pub fn highlight_line(line: &str) -> (r: Vec<(String, SyntaxKind)>)
    ensures
        tokens_view(r@) == highlighted(line@),
{
    let t = trim_str(line);
    if str_starts_with(t.as_str(), "//") {
        let mut v: Vec<(String, SyntaxKind)> = Vec::new();
        v.push((String::from_str(line), SyntaxKind::Comment));
        proof { assert(tokens_view(v@) =~= seq![(line@, SyntaxKind::Comment)]); }
        return v;
    }
    let cs = to_chars(line);
    let n = cs.len();
    let mut out: Vec<(String, SyntaxKind)> = Vec::new();
    let mut start: usize = 0;
    let mut i: usize = 0;
    let ghost f = |p: Seq<char>| (p, kind_of(p));
    proof { assert(cs@.skip(0) =~= cs@); }
    while i < n
        invariant
            start <= i <= n == cs@.len(),
            cs@ == line@,
            f == (|p: Seq<char>| (p, kind_of(p))),
            pieces(cs@).map_values(f) == tokens_view(out@) + pieces(cs@.skip(start as int)).map_values(f),
            forall|j: int| start <= j < i ==> !word_sep(#[trigger] cs@[j]),
        decreases n - i,
    {
        if is_word_sep(cs[i]) {
            let piece = string_of_range(cs.as_slice(), start, i + 1);
            let kind = kind_of_piece(piece.as_str());
            let ghost rest = cs@.skip(start as int);
            proof {
                assert forall|j: int| 0 <= j < i - start implies !word_sep(#[trigger] rest[j]) by {
                    assert(rest[j] == cs@[start + j]);
                }
                assert(rest[i - start] == cs@[i as int]);
                lemma_sep_index_is(rest, i - start);
                assert(rest.take(i - start + 1) =~= cs@.subrange(start as int, i + 1));
                assert(rest.skip(i - start + 1) =~= cs@.skip(i + 1));
                assert(pieces(rest) == seq![rest.take(i - start + 1)] + pieces(rest.skip(i - start + 1)));
                assert(pieces(rest).map_values(f) =~= seq![(piece@, kind)] + pieces(cs@.skip(i + 1)).map_values(f));
            }
            let ghost before = out@;
            out.push((piece, kind));
            proof {
                assert(tokens_view(out@) =~= tokens_view(before) + seq![(piece@, kind)]);
            }
            start = i + 1;
        }
        i = i + 1;
    }
    if start < n {
        let piece = string_of_range(cs.as_slice(), start, n);
        let kind = kind_of_piece(piece.as_str());
        let ghost rest = cs@.skip(start as int);
        proof {
            assert forall|j: int| 0 <= j < rest.len() implies !word_sep(#[trigger] rest[j]) by {
                assert(rest[j] == cs@[start + j]);
            }
            lemma_sep_index_is(rest, rest.len() as int);
            assert(rest =~= cs@.subrange(start as int, n as int));
            assert(pieces(rest).map_values(f) =~= seq![(piece@, kind)]);
        }
        let ghost before = out@;
        out.push((piece, kind));
        proof { assert(tokens_view(out@) =~= tokens_view(before) + seq![(piece@, kind)]); }
    } else {
        proof { assert(pieces(cs@.skip(start as int)).map_values(f) =~= Seq::<(Seq<char>, SyntaxKind)>::empty()); }
    }
    proof { assert(tokens_view(out@) =~= pieces(line@).map_values(f)); }
    out
}

} // verus!
