//! The git side of the library: file states from `git status --porcelain`,
//! unified diffs and their hunks, the commands each repository operation
//! runs, and the texts it reports.
use vstd::prelude::*;
use crate::text::{
    byte_len, bytes_less_than, char_count, chars_in_bytes, chars_in_bytes_exec, contains, decimal,
    find, find_seq, from_chars, index_or_len, index_or_len_in, line_spans, lines, occurs_at_exec,
    parse_u32, parse_u32_range, push_char, push_decimal, push_seq_range, push_str, span_is,
    split_lines, starts_with, str_contains, str_eq, str_starts_with, string_of_range, to_chars,
    trim, trim_bounds, trim_char, trim_char_bounds, trim_start_char, trim_str, utf8_len,
    word_spans, words,
};

verus! {

// ── File status ─────────────────────────────────────────────────────────────

/// The state of one file in the working tree, as the tree view shows it.
#[derive(Debug, Clone, Copy, PartialEq, Eq, Structural)]
pub enum FileStatus {
    Modified,
    Untracked,
    Staged,
    Added,
    Deleted,
    Renamed,
    Clean,
    Unknown,
}

/// The three-character marker shown before a file of the given state.
pub open spec fn indicator_text(s: FileStatus) -> Seq<char> {
    match s {
        FileStatus::Staged | FileStatus::Added => "[✓]"@,
        FileStatus::Modified => "[M]"@,
        FileStatus::Untracked => "[U]"@,
        FileStatus::Deleted => "[D]"@,
        FileStatus::Renamed => "[R]"@,
        FileStatus::Clean | FileStatus::Unknown => "[ ]"@,
    }
}

/// Whether a state counts as staged for the index.
pub open spec fn staged(s: FileStatus) -> bool {
    s == FileStatus::Staged || s == FileStatus::Added
}

impl FileStatus {
    /// The marker shown before a file in this state.
    pub fn indicator(&self) -> (r: &'static str)
        ensures
            r@ == indicator_text(*self),
    {
        match self {
            FileStatus::Staged | FileStatus::Added => "[✓]",
            FileStatus::Modified => "[M]",
            FileStatus::Untracked => "[U]",
            FileStatus::Deleted => "[D]",
            FileStatus::Renamed => "[R]",
            FileStatus::Clean => "[ ]",
            FileStatus::Unknown => "[ ]",
        }
    }

    /// Whether the change is in the index.
    pub fn is_staged(&self) -> (r: bool)
        ensures
            r == staged(*self),
    {
        match self {
            FileStatus::Staged | FileStatus::Added => true,
            _ => false,
        }
    }
}

/// The state that the two status letters `XY` of a porcelain line stand for.
pub open spec fn porcelain_status(x: char, y: char) -> FileStatus {
    if x == ' ' && y == 'M' {
        FileStatus::Modified
    } else if (x == 'M' && y == ' ') || (x == 'M' && y == 'M') || (x == 'A' && y == ' ') {
        FileStatus::Staged
    } else if x == '?' && y == '?' {
        FileStatus::Untracked
    } else if (x == 'D' && y == ' ') || (x == ' ' && y == 'D') {
        FileStatus::Deleted
    } else if x == 'R' && y == ' ' {
        FileStatus::Renamed
    } else if x == 'A' && y == 'M' {
        FileStatus::Added
    } else {
        FileStatus::Unknown
    }
}

/// The status letters of `xy`: its first two characters, a space standing in
/// for a missing one.
pub open spec fn xy_status(xy: Seq<char>) -> FileStatus {
    let x = if xy.len() > 0 {
        xy[0]
    } else {
        ' '
    };
    let y = if xy.len() > 1 {
        xy[1]
    } else {
        ' '
    };
    porcelain_status(x, y)
}

fn status_of_chars(x: char, y: char) -> (r: FileStatus)
    ensures
        r == porcelain_status(x, y),
{
    if x == ' ' && y == 'M' {
        FileStatus::Modified
    } else if (x == 'M' && y == ' ') || (x == 'M' && y == 'M') || (x == 'A' && y == ' ') {
        FileStatus::Staged
    } else if x == '?' && y == '?' {
        FileStatus::Untracked
    } else if (x == 'D' && y == ' ') || (x == ' ' && y == 'D') {
        FileStatus::Deleted
    } else if x == 'R' && y == ' ' {
        FileStatus::Renamed
    } else if x == 'A' && y == 'M' {
        FileStatus::Added
    } else {
        FileStatus::Unknown
    }
}

fn xy_status_range(cs: &[char], from: usize, to: usize) -> (r: FileStatus)
    requires
        from <= to <= cs@.len(),
    ensures
        r == xy_status(cs@.subrange(from as int, to as int)),
{
    let x = if to > from {
        cs[from]
    } else {
        ' '
    };
    let y = if to - from > 1 {
        cs[from + 1]
    } else {
        ' '
    };
    status_of_chars(x, y)
}

/// The state named by the status letters of a porcelain line.
pub fn parse_porcelain_status(xy: &str) -> (r: FileStatus)
    ensures
        r == xy_status(xy@),
{
    let cs = to_chars(xy);
    proof { assert(cs@.subrange(0, cs@.len() as int) =~= cs@); }
    xy_status_range(cs.as_slice(), 0, cs.len())
}

/// A file of the working tree and its state.
#[derive(Debug)]
pub struct GitFile {
    pub path: String,
    pub status: FileStatus,
}

impl Clone for GitFile {
    fn clone(&self) -> (r: Self)
        ensures
            r == *self,
    {
        GitFile { path: self.path.clone(), status: self.status }
    }
}

/// A file's path and state, as plain values.
pub struct GitFileView {
    pub path: Seq<char>,
    pub status: FileStatus,
}

impl View for GitFile {
    type V = GitFileView;

    open spec fn view(&self) -> GitFileView {
        GitFileView { path: self.path@, status: self.status }
    }
}

/// The file entry a porcelain status line stands for: its first two bytes
/// are the status letters and the path starts after the third byte, with
/// surrounding whitespace and quotes removed. Lines shorter than three bytes
/// stand for nothing.
pub open spec fn status_entry(line: Seq<char>) -> Option<GitFileView> {
    if byte_len(line) < 3 {
        None
    } else {
        let k2 = chars_in_bytes(line, 2).unwrap();
        let k3 = chars_in_bytes(line, 3).unwrap();
        Some(
            GitFileView {
                path: trim_char(trim(line.skip(k3)), '"'),
                status: xy_status(line.take(k2)),
            },
        )
    }
}

/// The entries of all lines, in order.
pub open spec fn status_entries(ls: Seq<Seq<char>>) -> Seq<GitFileView>
    decreases ls.len(),
{
    if ls.len() == 0 {
        Seq::empty()
    } else {
        let prev = status_entries(ls.drop_last());
        match status_entry(ls.last()) {
            Some(e) => prev.push(e),
            None => prev,
        }
    }
}

/// A status line made of two one-byte status letters, a space and a path
/// names the path (trimmed, quotes removed) with the letters' state.
proof fn lemma_status_entry_of(x: char, y: char, p: Seq<char>)
    requires
        (x as u32) < 0x80,
        (y as u32) < 0x80,
    ensures
        status_entry(seq![x, y, ' '] + p) == Some(GitFileView {
            path: trim_char(trim(p), '"'),
            status: xy_status(seq![x, y]),
        }),
{
    let line = seq![x, y, ' '] + p;
    let l1 = line.drop_first();
    let l2 = l1.drop_first();
    let l3 = l2.drop_first();
    assert(line[0] == x);
    assert(l1[0] == y);
    assert(l2[0] == ' ');
    assert(l3 =~= p);
    crate::text::lemma_byte_len_nonneg(p);
    assert(byte_len(l2) == 1 + byte_len(l3));
    assert(byte_len(l1) == 1 + byte_len(l2));
    assert(byte_len(line) == 1 + byte_len(l1));
    assert(utf8_len(' ') == 1);
    assert(utf8_len(x) == 1);
    assert(utf8_len(y) == 1);
    assert(chars_in_bytes(l3, 0) == Some(0int));
    assert(chars_in_bytes(l2, 0) == Some(0int));
    assert(chars_in_bytes(l1, 1) == Some(1int));
    assert(chars_in_bytes(line, 2) == Some(2int));
    assert(chars_in_bytes(l2, 1) == Some(1int));
    assert(chars_in_bytes(l1, 2) == Some(2int));
    assert(chars_in_bytes(line, 3) == Some(3int));
    assert(line.take(2) =~= seq![x, y]);
    assert(line.skip(3) =~= p);
}

/// What the lines of `git status --porcelain` stand for, for any path `p`:
/// a change in the index with a clean worktree (`M `), or in both (`MM`),
/// and a newly added file (`A `) are staged; a change only in the worktree
/// (` M`) is modified; `??` is untracked; `D ` and ` D` are deleted; `R ` is
/// renamed; `AM` is added with further changes. The file is named by the
/// rest of the line, trimmed and without quotes.
#[verifier::spinoff_prover]
#[verifier::rlimit(60)]
pub proof fn lemma_porcelain_lines(p: Seq<char>)
    ensures
        status_entry("M  "@ + p) == Some(GitFileView { path: trim_char(trim(p), '"'), status: FileStatus::Staged }),
        status_entry("MM "@ + p) == Some(GitFileView { path: trim_char(trim(p), '"'), status: FileStatus::Staged }),
        status_entry("A  "@ + p) == Some(GitFileView { path: trim_char(trim(p), '"'), status: FileStatus::Staged }),
        status_entry(" M "@ + p) == Some(GitFileView { path: trim_char(trim(p), '"'), status: FileStatus::Modified }),
        status_entry("?? "@ + p) == Some(GitFileView { path: trim_char(trim(p), '"'), status: FileStatus::Untracked }),
        status_entry("D  "@ + p) == Some(GitFileView { path: trim_char(trim(p), '"'), status: FileStatus::Deleted }),
        status_entry(" D "@ + p) == Some(GitFileView { path: trim_char(trim(p), '"'), status: FileStatus::Deleted }),
        status_entry("R  "@ + p) == Some(GitFileView { path: trim_char(trim(p), '"'), status: FileStatus::Renamed }),
        status_entry("AM "@ + p) == Some(GitFileView { path: trim_char(trim(p), '"'), status: FileStatus::Added }),
{
    reveal_strlit("M  ");
    reveal_strlit("MM ");
    reveal_strlit("A  ");
    reveal_strlit(" M ");
    reveal_strlit("?? ");
    reveal_strlit("D  ");
    reveal_strlit(" D ");
    reveal_strlit("R  ");
    reveal_strlit("AM ");
    assert("M  "@ =~= seq!['M', ' ', ' ']);
    assert("MM "@ =~= seq!['M', 'M', ' ']);
    assert("A  "@ =~= seq!['A', ' ', ' ']);
    assert(" M "@ =~= seq![' ', 'M', ' ']);
    assert("?? "@ =~= seq!['?', '?', ' ']);
    assert("D  "@ =~= seq!['D', ' ', ' ']);
    assert(" D "@ =~= seq![' ', 'D', ' ']);
    assert("R  "@ =~= seq!['R', ' ', ' ']);
    assert("AM "@ =~= seq!['A', 'M', ' ']);
    lemma_status_entry_of('M', ' ', p);
    lemma_status_entry_of('M', 'M', p);
    lemma_status_entry_of('A', ' ', p);
    lemma_status_entry_of(' ', 'M', p);
    lemma_status_entry_of('?', '?', p);
    lemma_status_entry_of('D', ' ', p);
    lemma_status_entry_of(' ', 'D', p);
    lemma_status_entry_of('R', ' ', p);
    lemma_status_entry_of('A', 'M', p);
}

/// A porcelain output of one line `M  <path>` (a file whose change is in the
/// index and whose worktree is clean) lists that one file, staged.
#[verifier::spinoff_prover]
#[verifier::rlimit(60)]
pub proof fn lemma_porcelain_staged_file(p: Seq<char>)
    requires
        plain_line(p),
    ensures
        status_entries(lines("M  "@ + p + "\n"@)) == seq![GitFileView { path: trim_char(trim(p), '"'), status: FileStatus::Staged }],
        staged(status_entries(lines("M  "@ + p + "\n"@))[0].status),
{
    reveal_strlit("M  ");
    reveal_strlit("\n");
    let line = "M  "@ + p;
    assert(line =~= seq!['M', ' ', ' '] + p);
    assert forall|j: int| 0 <= j < line.len() implies line[j] != '\n' by {
        if j >= 3 {
            assert(line[j] == p[j - 3]);
        } else {
            assert(line[j] == seq!['M', ' ', ' '][j]);
        }
    }
    if p.len() > 0 {
        assert(line.last() == p.last());
    } else {
        assert(line.last() == ' ');
    }
    assert(plain_line(line));
    lemma_lines_text_one(line);
    assert(line + "\n"@ =~= line + seq!['\n']);
    assert(forall|j: int| 0 <= j < seq![line].len() ==> #[trigger] plain_line(seq![line][j]));
    lemma_lines_of_text(seq![line]);
    lemma_porcelain_lines(p);
    let ls = seq![line];
    assert(ls.drop_last() =~= Seq::<Seq<char>>::empty());
    assert(status_entries(ls.drop_last()) == Seq::<GitFileView>::empty());
    assert(ls.last() == line);
    assert(status_entry(line) is Some);
    assert(status_entries(ls) =~= seq![status_entry(line)->0]);
}

/// Byte positions 2 and 3 of a line of at least three bytes fall between
/// characters (as they do in every line that git prints).
pub open spec fn porcelain_line_ok(line: Seq<char>) -> bool {
    byte_len(line) >= 3 ==> chars_in_bytes(line, 2) is Some && chars_in_bytes(line, 3) is Some
}

/// Every line of the output can be cut at the status column.
pub open spec fn porcelain_ok(raw: Seq<char>) -> bool {
    forall|i: int| 0 <= i < lines(raw).len() ==> #[trigger] porcelain_line_ok(lines(raw)[i])
}

pub proof fn lemma_chars_in_bytes_bound(s: Seq<char>, b: int)
    ensures
        chars_in_bytes(s, b) matches Some(k) ==> 0 <= k <= s.len(),
    decreases s.len(),
{
    if b != 0 && s.len() > 0 && utf8_len(s[0]) <= b {
        lemma_chars_in_bytes_bound(s.drop_first(), b - utf8_len(s[0]));
    }
}

/// Whether a porcelain status output can be cut at its status columns.
pub fn porcelain_output_ok(raw: &str) -> (r: bool)
    ensures
        r == porcelain_ok(raw@),
{
    let cs = to_chars(raw);
    let spans = line_spans(cs.as_slice());
    let mut i: usize = 0;
    while i < spans.len()
        invariant
            cs@ == raw@,
            spans@.len() == lines(cs@).len(),
            forall|k: int| 0 <= k < spans@.len() ==> #[trigger] span_is(cs@, spans@[k], lines(cs@)[k]),
            i <= spans@.len(),
            forall|k: int| 0 <= k < i ==> #[trigger] porcelain_line_ok(lines(cs@)[k]),
        decreases spans@.len() - i,
    {
        let sp = spans[i];
        proof { assert(span_is(cs@, spans@[i as int], lines(cs@)[i as int])); }
        if !bytes_less_than(cs.as_slice(), sp.start, sp.end, 3) {
            let a = chars_in_bytes_exec(cs.as_slice(), sp.start, sp.end, 2);
            let b = chars_in_bytes_exec(cs.as_slice(), sp.start, sp.end, 3);
            if a.is_none() || b.is_none() {
                proof {
                    assert(!porcelain_line_ok(lines(cs@)[i as int]));
                    assert(!porcelain_ok(cs@));
                }
                return false;
            }
        }
        i = i + 1;
    }
    true
}

/// A repository, known by the path of its working tree.
#[derive(Debug)]
pub struct GitRepo {
    pub root: String,
}

impl GitRepo {
    /// The files that `git status --porcelain` printed, one per line of at
    /// least three bytes, in order.
    pub fn status(porcelain: &str) -> (r: Vec<GitFile>)
        requires
            porcelain_ok(porcelain@),
        ensures
            r@.map_values(|f: GitFile| f@) == status_entries(lines(porcelain@)),
    {
        let cs = to_chars(porcelain);
        let spans = line_spans(cs.as_slice());
        let ghost ls = lines(cs@);
        let mut out: Vec<GitFile> = Vec::new();
        let mut i: usize = 0;
        while i < spans.len()
            invariant
                ls == lines(cs@),
                cs@ == porcelain@,
                spans@.len() == ls.len(),
                forall|k: int| 0 <= k < spans@.len() ==> #[trigger] span_is(cs@, spans@[k], ls[k]),
                forall|k: int| 0 <= k < ls.len() ==> #[trigger] porcelain_line_ok(ls[k]),
                i <= spans@.len(),
                out@.map_values(|f: GitFile| f@) == status_entries(ls.take(i as int)),
            decreases spans@.len() - i,
        {
            let sp = spans[i];
            let ghost line = ls[i as int];
            proof {
                assert(span_is(cs@, spans@[i as int], ls[i as int]));
                assert(porcelain_line_ok(ls[i as int]));
                assert(ls.take(i + 1).drop_last() =~= ls.take(i as int));
                assert(ls.take(i + 1).last() == line);
            }
            if !bytes_less_than(cs.as_slice(), sp.start, sp.end, 3) {
                let k2 = chars_in_bytes_exec(cs.as_slice(), sp.start, sp.end, 2).unwrap();
                let k3 = chars_in_bytes_exec(cs.as_slice(), sp.start, sp.end, 3).unwrap();
                let status = xy_status_range(cs.as_slice(), sp.start, sp.start + k2);
                let (a, b) = trim_bounds(cs.as_slice(), sp.start + k3, sp.end);
                let (c, d) = trim_char_bounds(cs.as_slice(), a, b, '"');
                let path = string_of_range(cs.as_slice(), c, d);
                proof {
                    assert(line.take(k2 as int) =~= cs@.subrange(sp.start as int, sp.start + k2));
                    assert(line.skip(k3 as int) =~= cs@.subrange(sp.start + k3, sp.end as int));
                }
                let ghost before = out@;
                out.push(GitFile { path, status });
                proof {
                    assert(out@.map_values(|f: GitFile| f@) =~= before.map_values(|f: GitFile| f@).push(
                        status_entry(line).unwrap(),
                    ));
                }
            }
            i = i + 1;
        }
        proof { assert(ls.take(ls.len() as int) =~= ls); }
        out
    }
}


// ── Diffs ───────────────────────────────────────────────────────────────────

/// One hunk of a unified diff: its `@@` header line, its body lines and the
/// line ranges the header names.
#[derive(Debug)]
pub struct Hunk {
    pub header: String,
    pub lines: Vec<String>,
    pub old_start: u32,
    pub old_lines: u32,
    pub new_start: u32,
    pub new_lines: u32,
}

/// A hunk as plain values.
pub struct HunkView {
    pub header: Seq<char>,
    pub lines: Seq<Seq<char>>,
    pub old_start: u32,
    pub old_lines: u32,
    pub new_start: u32,
    pub new_lines: u32,
}

/// The views of a list of strings.
pub open spec fn strs_view(v: Seq<String>) -> Seq<Seq<char>> {
    v.map_values(|s: String| s@)
}

impl View for Hunk {
    type V = HunkView;

    open spec fn view(&self) -> HunkView {
        HunkView {
            header: self.header@,
            lines: strs_view(self.lines@),
            old_start: self.old_start,
            old_lines: self.old_lines,
            new_start: self.new_start,
            new_lines: self.new_lines,
        }
    }
}

/// A copy of a list of strings.
pub fn copy_strings(v: &Vec<String>) -> (r: Vec<String>)
    ensures
        strs_view(r@) == strs_view(v@),
{
    let mut out: Vec<String> = Vec::new();
    let mut i: usize = 0;
    while i < v.len()
        invariant
            i <= v@.len(),
            out@.len() == i,
            forall|k: int| 0 <= k < i ==> #[trigger] out@[k]@ == v@[k]@,
        decreases v@.len() - i,
    {
        out.push(v[i].clone());
        i = i + 1;
    }
    proof { assert(strs_view(out@) =~= strs_view(v@)); }
    out
}

impl Clone for Hunk {
    fn clone(&self) -> (r: Self)
        ensures
            r@ == self@,
    {
        Hunk {
            header: self.header.clone(),
            lines: copy_strings(&self.lines),
            old_start: self.old_start,
            old_lines: self.old_lines,
            new_start: self.new_start,
            new_lines: self.new_lines,
        }
    }
}

/// A file's diff: the header lines before the first hunk, then the hunks.
#[derive(Debug)]
pub struct Diff {
    pub file_header: String,
    pub hunks: Vec<Hunk>,
}

/// A diff as plain values.
pub struct DiffView {
    pub file_header: Seq<char>,
    pub hunks: Seq<HunkView>,
}

/// The views of a list of hunks.
pub open spec fn hunks_view(v: Seq<Hunk>) -> Seq<HunkView> {
    v.map_values(|h: Hunk| h@)
}

impl View for Diff {
    type V = DiffView;

    open spec fn view(&self) -> DiffView {
        DiffView { file_header: self.file_header@, hunks: hunks_view(self.hunks@) }
    }
}

/// Lines written one after another, each followed by `'\n'`.
pub open spec fn lines_text(ls: Seq<Seq<char>>) -> Seq<char>
    decreases ls.len(),
{
    if ls.len() == 0 {
        Seq::empty()
    } else {
        lines_text(ls.drop_last()) + ls.last() + seq!['\n']
    }
}

/// Hunks written one after another: each header line, then its lines.
pub open spec fn hunks_text(hs: Seq<HunkView>) -> Seq<char>
    decreases hs.len(),
{
    if hs.len() == 0 {
        Seq::empty()
    } else {
        hunks_text(hs.drop_last()) + hs.last().header + seq!['\n'] + lines_text(hs.last().lines)
    }
}

/// The text of a diff: its file header followed by its hunks.
pub open spec fn diff_text(d: DiffView) -> Seq<char> {
    d.file_header + hunks_text(d.hunks)
}

/// The empty diff.
pub open spec fn empty_diff() -> DiffView {
    DiffView { file_header: Seq::empty(), hunks: Seq::empty() }
}

impl Diff {
    /// A diff with no header and no hunks.
    pub fn new() -> (r: Diff)
        ensures
            r@ == empty_diff(),
    {
        let r = Diff { file_header: String::new(), hunks: Vec::new() };
        proof { assert(r@.hunks =~= Seq::<HunkView>::empty()); }
        r
    }

    /// Whether the diff has no hunks.
    pub fn is_empty(&self) -> (r: bool)
        ensures
            r == (self.hunks@.len() == 0),
    {
        self.hunks.len() == 0
    }

    /// The diff written out again: the file header, then every hunk header
    /// and every hunk line, each on a line of its own.
    pub fn to_string(&self) -> (r: String)
        ensures
            r@ == diff_text(self@),
    {
        let mut out = self.file_header.clone();
        let mut i: usize = 0;
        while i < self.hunks.len()
            invariant
                i <= self.hunks@.len(),
                out@ == self.file_header@ + hunks_text(hunks_view(self.hunks@).take(i as int)),
            decreases self.hunks@.len() - i,
        {
            let h = &self.hunks[i];
            let ghost before = out@;
            push_str(&mut out, h.header.as_str());
            push_char(&mut out, '\n');
            let mut j: usize = 0;
            while j < h.lines.len()
                invariant
                    j <= h.lines@.len(),
                    out@ == before + h.header@ + seq!['\n'] + lines_text(
                        strs_view(h.lines@).take(j as int),
                    ),
                decreases h.lines@.len() - j,
            {
                push_str(&mut out, h.lines[j].as_str());
                push_char(&mut out, '\n');
                proof {
                    let ls = strs_view(h.lines@);
                    assert(ls.take(j + 1).drop_last() =~= ls.take(j as int));
                }
                j = j + 1;
            }
            proof {
                let hs = hunks_view(self.hunks@);
                let ls = strs_view(h.lines@);
                assert(ls.take(ls.len() as int) =~= ls);
                assert(hs.take(i + 1).drop_last() =~= hs.take(i as int));
                assert(hs.take(i + 1).last() == h@);
            }
            i = i + 1;
        }
        proof {
            let hs = hunks_view(self.hunks@);
            assert(hs.take(hs.len() as int) =~= hs);
        }
        out
    }
}


// ── Reading a unified diff ──────────────────────────────────────────────────

/// The range `start[,count]` after the sign of a hunk header field; a value
/// that does not parse counts as 0 for the start and 1 for the count, and a
/// missing count is 1.
pub open spec fn hunk_range(part: Seq<char>, sign: char) -> (u32, u32) {
    let t = trim_start_char(part, sign);
    let p1 = index_or_len(t, ',');
    let start = match parse_u32(t.take(p1)) {
        Some(v) => v,
        None => 0,
    };
    let count = if p1 < t.len() {
        let rest = t.skip(p1 + 1);
        match parse_u32(rest.take(index_or_len(rest, ','))) {
            Some(v) => v,
            None => 1,
        }
    } else {
        1
    };
    (start, count)
}

/// The empty hunk that a header line of at least three words opens.
pub open spec fn hunk_from_header(line: Seq<char>) -> Option<HunkView> {
    let ws = words(line);
    if ws.len() >= 3 {
        let (os, ol) = hunk_range(ws[1], '-');
        let (ns, nl) = hunk_range(ws[2], '+');
        Some(
            HunkView {
                header: line,
                lines: Seq::empty(),
                old_start: os,
                old_lines: ol,
                new_start: ns,
                new_lines: nl,
            },
        )
    } else {
        None
    }
}

/// The state of reading a diff line by line.
pub struct DiffParse {
    pub header: Seq<char>,
    pub hunks: Seq<HunkView>,
    pub cur: Option<HunkView>,
    pub header_done: bool,
}

/// Reading one more line: an `@@` line closes the open hunk and opens the
/// next; before the first `@@` line, lines belong to the file header; after
/// it, to the open hunk (and are dropped when none is open).
pub open spec fn diff_step(st: DiffParse, line: Seq<char>) -> DiffParse {
    if starts_with(line, "@@"@) {
        DiffParse {
            header: st.header,
            hunks: match st.cur {
                Some(h) => st.hunks.push(h),
                None => st.hunks,
            },
            cur: hunk_from_header(line),
            header_done: true,
        }
    } else if !st.header_done {
        DiffParse { header: st.header + line + seq!['\n'], ..st }
    } else {
        match st.cur {
            Some(h) => DiffParse { cur: Some(HunkView { lines: h.lines.push(line), ..h }), ..st },
            None => st,
        }
    }
}

/// The state after reading all of `ls`.
pub open spec fn diff_read(ls: Seq<Seq<char>>) -> DiffParse
    decreases ls.len(),
{
    if ls.len() == 0 {
        DiffParse { header: Seq::empty(), hunks: Seq::empty(), cur: None, header_done: false }
    } else {
        diff_step(diff_read(ls.drop_last()), ls.last())
    }
}

/// The diff that a unified diff text describes.
pub open spec fn parsed_diff(input: Seq<char>) -> DiffView {
    let st = diff_read(lines(input));
    DiffView {
        file_header: st.header,
        hunks: match st.cur {
            Some(h) => st.hunks.push(h),
            None => st.hunks,
        },
    }
}

/// A line that `str::lines` gives back unchanged: no `'\n'` in it and no
/// `'\r'` at its end.
pub open spec fn plain_line(l: Seq<char>) -> bool {
    &&& forall|j: int| 0 <= j < l.len() ==> l[j] != '\n'
    &&& !(l.len() > 0 && l.last() == '\r')
}

/// A plain line that is not a hunk header.
pub open spec fn body_line(l: Seq<char>) -> bool {
    plain_line(l) && !starts_with(l, "@@"@)
}

/// A hunk whose text reads back as itself: a plain `@@` header that gives
/// the hunk's numbers, and plain lines none of which is a hunk header.
pub open spec fn rereadable_hunk(h: HunkView) -> bool {
    &&& plain_line(h.header)
    &&& starts_with(h.header, "@@"@)
    &&& hunk_from_header(h.header) == Some(HunkView { lines: Seq::empty(), ..h })
    &&& forall|j: int| 0 <= j < h.lines.len() ==> #[trigger] body_line(h.lines[j])
}

/// The lines that a list of hunks is written as: each header, then its lines.
pub open spec fn hunk_rows(hs: Seq<HunkView>) -> Seq<Seq<char>>
    decreases hs.len(),
{
    if hs.len() == 0 {
        Seq::empty()
    } else {
        hunk_rows(hs.drop_last()) + seq![hs.last().header] + hs.last().lines
    }
}

proof fn lemma_lines_text_add(a: Seq<Seq<char>>, b: Seq<Seq<char>>)
    ensures
        lines_text(a + b) == lines_text(a) + lines_text(b),
    decreases b.len(),
{
    if b.len() == 0 {
        assert(a + b =~= a);
        assert(lines_text(a) + lines_text(b) =~= lines_text(a));
    } else {
        lemma_lines_text_add(a, b.drop_last());
        assert((a + b).drop_last() =~= a + b.drop_last());
        assert((a + b).last() == b.last());
        assert(lines_text(a) + lines_text(b.drop_last()) + b.last() + seq!['\n'] =~= lines_text(a) + (
        lines_text(b.drop_last()) + b.last() + seq!['\n']));
    }
}

proof fn lemma_lines_text_one(x: Seq<char>)
    ensures
        lines_text(seq![x]) == x + seq!['\n'],
{
    let one = seq![x];
    assert(one.drop_last() =~= Seq::<Seq<char>>::empty());
    assert(one.last() == x);
    assert(lines_text(one.drop_last()) == Seq::<char>::empty());
    assert(lines_text(one) == lines_text(one.drop_last()) + one.last() + seq!['\n']);
    assert(Seq::<char>::empty() + x + seq!['\n'] =~= x + seq!['\n']);
}

proof fn lemma_hunks_text_rows(hs: Seq<HunkView>)
    ensures
        hunks_text(hs) == lines_text(hunk_rows(hs)),
    decreases hs.len(),
{
    if hs.len() > 0 {
        let p = hs.drop_last();
        let h = hs.last();
        lemma_hunks_text_rows(p);
        lemma_lines_text_add(hunk_rows(p) + seq![h.header], h.lines);
        lemma_lines_text_add(hunk_rows(p), seq![h.header]);
        lemma_lines_text_one(h.header);
        assert(hunks_text(p) + h.header + seq!['\n'] + lines_text(h.lines) =~= lines_text(hunk_rows(p))
            + (h.header + seq!['\n']) + lines_text(h.lines));
    }
}

proof fn lemma_rows_plain(hs: Seq<HunkView>)
    requires
        forall|j: int| 0 <= j < hs.len() ==> #[trigger] rereadable_hunk(hs[j]),
    ensures
        forall|j: int| 0 <= j < hunk_rows(hs).len() ==> #[trigger] plain_line(hunk_rows(hs)[j]),
    decreases hs.len(),
{
    if hs.len() > 0 {
        let p = hs.drop_last();
        let h = hs.last();
        assert forall|j: int| 0 <= j < p.len() implies #[trigger] rereadable_hunk(p[j]) by {
            assert(p[j] == hs[j]);
        }
        lemma_rows_plain(p);
        assert(rereadable_hunk(hs[hs.len() - 1]));
        let r = hunk_rows(hs);
        let rp = hunk_rows(p);
        assert forall|j: int| 0 <= j < r.len() implies #[trigger] plain_line(r[j]) by {
            if j < rp.len() {
                assert(r[j] == rp[j]);
            } else if j == rp.len() {
                assert(r[j] == h.header);
            } else {
                assert(r[j] == h.lines[j - rp.len() - 1]);
                assert(body_line(h.lines[j - rp.len() - 1]));
            }
        }
    }
}

proof fn lemma_lines_of_text(ls: Seq<Seq<char>>)
    requires
        forall|j: int| 0 <= j < ls.len() ==> #[trigger] plain_line(ls[j]),
    ensures
        lines(lines_text(ls)) == ls,
    decreases ls.len(),
{
    if ls.len() == 0 {
        assert(lines_text(ls).len() == 0);
    } else {
        let x = ls[0];
        let rest = ls.drop_first();
        assert(ls =~= seq![x] + rest);
        lemma_lines_text_add(seq![x], rest);
        lemma_lines_text_one(x);
        assert forall|j: int| 0 <= j < rest.len() implies #[trigger] plain_line(rest[j]) by {
            assert(rest[j] == ls[j + 1]);
        }
        lemma_lines_of_text(rest);
        assert(plain_line(ls[0]));
        let s = lines_text(ls);
        let k = x.len() as int;
        assert(s =~= x + seq!['\n'] + lines_text(rest));
        assert forall|j: int| 0 <= j < k implies s[j] != '\n' by {
            assert(s[j] == x[j]);
        }
        crate::text::lemma_line_end_is(s, k);
        assert(s.take(k) =~= x);
        assert(s.skip(k + 1) =~= lines_text(rest));
        assert(crate::text::strip_cr(x) == x);
        assert(lines(s) == seq![crate::text::strip_cr(s.take(k))].add(lines(s.skip(k + 1))));
    }
}

/// The reading state after a file header of whole lines.
pub open spec fn header_read(hl: Seq<Seq<char>>) -> DiffParse {
    DiffParse { header: lines_text(hl), hunks: Seq::empty(), cur: None, header_done: false }
}

proof fn lemma_read_header(hl: Seq<Seq<char>>)
    requires
        forall|j: int| 0 <= j < hl.len() ==> #[trigger] body_line(hl[j]),
    ensures
        diff_read(hl) == header_read(hl),
    decreases hl.len(),
{
    if hl.len() > 0 {
        let p = hl.drop_last();
        assert forall|j: int| 0 <= j < p.len() implies #[trigger] body_line(p[j]) by {
            assert(p[j] == hl[j]);
        }
        lemma_read_header(p);
        assert(body_line(hl[hl.len() - 1]));
    }
}

proof fn lemma_read_lines(base: Seq<Seq<char>>, ls: Seq<Seq<char>>, h: HunkView)
    requires
        diff_read(base).header_done,
        diff_read(base).cur == Some(h),
        forall|j: int| 0 <= j < ls.len() ==> #[trigger] body_line(ls[j]),
    ensures
        diff_read(base + ls) == (DiffParse { cur: Some(HunkView { lines: h.lines + ls, ..h }), ..diff_read(base) }),
    decreases ls.len(),
{
    if ls.len() == 0 {
        assert(base + ls =~= base);
        assert(h.lines + ls =~= h.lines);
    } else {
        let p = ls.drop_last();
        assert forall|j: int| 0 <= j < p.len() implies #[trigger] body_line(p[j]) by {
            assert(p[j] == ls[j]);
        }
        lemma_read_lines(base, p, h);
        assert((base + ls).drop_last() =~= base + p);
        assert((base + ls).last() == ls.last());
        assert(body_line(ls[ls.len() - 1]));
        assert((h.lines + p).push(ls.last()) =~= h.lines + ls);
    }
}

proof fn lemma_read_hunks(hl: Seq<Seq<char>>, hs: Seq<HunkView>)
    requires
        forall|j: int| 0 <= j < hl.len() ==> #[trigger] body_line(hl[j]),
        forall|j: int| 0 <= j < hs.len() ==> #[trigger] rereadable_hunk(hs[j]),
    ensures
        diff_read(hl + hunk_rows(hs)) == if hs.len() == 0 {
            header_read(hl)
        } else {
            DiffParse { header: lines_text(hl), hunks: hs.drop_last(), cur: Some(hs.last()), header_done: true }
        },
    decreases hs.len(),
{
    if hs.len() == 0 {
        assert(hl + hunk_rows(hs) =~= hl);
        lemma_read_header(hl);
    } else {
        let p = hs.drop_last();
        let h = hs.last();
        assert forall|j: int| 0 <= j < p.len() implies #[trigger] rereadable_hunk(p[j]) by {
            assert(p[j] == hs[j]);
        }
        lemma_read_hunks(hl, p);
        assert(rereadable_hunk(hs[hs.len() - 1]));
        let base = hl + hunk_rows(p);
        let b2 = base.push(h.header);
        assert(b2.drop_last() =~= base);
        assert(hl + hunk_rows(hs) =~= b2 + h.lines);
        let st = diff_read(b2);
        assert(st.cur == Some(HunkView { lines: Seq::empty(), ..h }));
        assert(st.header_done);
        if p.len() > 0 {
            assert(p.drop_last().push(p.last()) =~= p);
        }
        assert(st.hunks =~= p);
        lemma_read_lines(b2, h.lines, HunkView { lines: Seq::empty(), ..h });
        assert(Seq::<Seq<char>>::empty() + h.lines =~= h.lines);
    }
}

/// A diff written out (`diff_text`, what `to_string` gives) reads back as
/// itself (`parsed_diff`, what `parse_diff` gives) when its text can be
/// read back: the file header is whole plain lines none of which is a hunk
/// header, and every hunk has a plain `@@` header that gives its numbers
/// and plain lines none of which is a hunk header.
pub proof fn lemma_diff_text_parses_back(d: DiffView, header_lines: Seq<Seq<char>>)
    requires
        d.file_header == lines_text(header_lines),
        forall|j: int| 0 <= j < header_lines.len() ==> #[trigger] body_line(header_lines[j]),
        forall|j: int| 0 <= j < d.hunks.len() ==> #[trigger] rereadable_hunk(d.hunks[j]),
    ensures
        parsed_diff(diff_text(d)) == d,
{
    let hl = header_lines;
    let hs = d.hunks;
    lemma_hunks_text_rows(hs);
    lemma_lines_text_add(hl, hunk_rows(hs));
    lemma_rows_plain(hs);
    let all = hl + hunk_rows(hs);
    assert forall|j: int| 0 <= j < all.len() implies #[trigger] plain_line(all[j]) by {
        if j < hl.len() {
            assert(all[j] == hl[j]);
            assert(body_line(hl[j]));
        } else {
            assert(all[j] == hunk_rows(hs)[j - hl.len()]);
        }
    }
    lemma_lines_of_text(all);
    lemma_read_hunks(hl, hs);
    if hs.len() > 0 {
        assert(hs.drop_last().push(hs.last()) =~= hs);
    }
    assert(parsed_diff(diff_text(d)).hunks =~= hs);
}

/// The header line of a hunk as `git diff` writes it:
/// `@@ -old_start,old_lines +new_start,new_lines @@` followed by `tail`
/// (empty, or the section text after a space).
pub open spec fn hunk_header_line(os: u32, ol: u32, ns: u32, nl: u32, tail: Seq<char>) -> Seq<char> {
    "@@ -"@ + decimal(os as nat) + ","@ + decimal(ol as nat) + " +"@ + decimal(ns as nat) + ","@
        + decimal(nl as nat) + " @@"@ + tail
}

/// No character of a decimal representation is whitespace, `'\n'`, or `','`.
proof fn lemma_decimal_plain(n: nat)
    ensures
        decimal(n).len() >= 1,
        crate::text::all_digits(decimal(n)),
        crate::text::digits_value(decimal(n)) == n,
        forall|j: int| 0 <= j < decimal(n).len() ==> !crate::text::is_ws(#[trigger] decimal(n)[j])
            && decimal(n)[j] != '\n' && decimal(n)[j] != ',' && decimal(n)[j] != '-' && decimal(n)[j] != '+',
{
    crate::text::lemma_decimal_digits(n);
    assert forall|j: int| 0 <= j < decimal(n).len() implies !crate::text::is_ws(#[trigger] decimal(n)[j])
        && decimal(n)[j] != '\n' && decimal(n)[j] != ',' && decimal(n)[j] != '-' && decimal(n)[j] != '+' by {
        assert(crate::text::is_digit(decimal(n)[j]));
    }
}

/// `hunk_range` reads a field `sign a,b` written in decimal back as `(a, b)`.
#[verifier::spinoff_prover]
#[verifier::rlimit(40)]
proof fn lemma_hunk_range_of(sign: char, a: u32, b: u32)
    requires
        sign == '-' || sign == '+',
    ensures
        hunk_range(seq![sign] + decimal(a as nat) + seq![','] + decimal(b as nat), sign) == (a, b),
{
    let da = decimal(a as nat);
    let db = decimal(b as nat);
    lemma_decimal_plain(a as nat);
    lemma_decimal_plain(b as nat);
    let part = seq![sign] + da + seq![','] + db;
    let t = da + seq![','] + db;
    assert(part.drop_first() =~= t);
    assert(t[0] == da[0]);
    assert(trim_start_char(t, sign) == t);
    assert(trim_start_char(part, sign) == t);
    crate::text::lemma_index_or_len_after(da, seq![','] + db, ',');
    assert(t =~= da + (seq![','] + db));
    assert(index_or_len(seq![','] + db, ',') == 0);
    let p1 = index_or_len(t, ',');
    assert(p1 == da.len());
    assert(t.take(p1) =~= da);
    crate::text::lemma_parse_decimal(a);
    let rest = t.skip(p1 + 1);
    assert(rest =~= db);
    crate::text::lemma_index_or_len_is(db, ',', db.len() as int);
    assert(db.take(db.len() as int) =~= db);
    crate::text::lemma_parse_decimal(b);
}

/// A hunk whose header is written from its own numbers (`hunk_header_line`)
/// with a plain tail that is empty or starts with a space, and whose lines
/// are plain and none a hunk header, reads back as itself.
#[verifier::spinoff_prover]
#[verifier::rlimit(60)]
pub proof fn lemma_written_hunk_rereadable(h: HunkView, tail: Seq<char>)
    requires
        h.header == hunk_header_line(h.old_start, h.old_lines, h.new_start, h.new_lines, tail),
        tail.len() == 0 || tail[0] == ' ',
        plain_line(tail),
        forall|j: int| 0 <= j < h.lines.len() ==> #[trigger] body_line(h.lines[j]),
    ensures
        rereadable_hunk(h),
{
    reveal_strlit("@@ -");
    reveal_strlit(",");
    reveal_strlit(" +");
    reveal_strlit(" @@");
    let da = decimal(h.old_start as nat);
    let db = decimal(h.old_lines as nat);
    let dc = decimal(h.new_start as nat);
    let dd = decimal(h.new_lines as nat);
    lemma_decimal_plain(h.old_start as nat);
    lemma_decimal_plain(h.old_lines as nat);
    lemma_decimal_plain(h.new_start as nat);
    lemma_decimal_plain(h.new_lines as nat);
    let w1 = seq!['@', '@'];
    let w2 = seq!['-'] + da + seq![','] + db;
    let w3 = seq!['+'] + dc + seq![','] + dd;
    let r3 = seq!['@', '@'] + tail;
    let line = h.header;
    assert(line =~= w1 + seq![' '] + (w2 + seq![' '] + (w3 + seq![' '] + r3)));
    assert forall|j: int| 0 <= j < w2.len() implies !crate::text::is_ws(#[trigger] w2[j]) by {
        if j == 0 {
        } else if j < 1 + da.len() {
            assert(w2[j] == da[j - 1]);
        } else if j == 1 + da.len() {
        } else {
            assert(w2[j] == db[j - 2 - da.len()]);
        }
    }
    assert forall|j: int| 0 <= j < w3.len() implies !crate::text::is_ws(#[trigger] w3[j]) by {
        if j == 0 {
        } else if j < 1 + dc.len() {
            assert(w3[j] == dc[j - 1]);
        } else if j == 1 + dc.len() {
        } else {
            assert(w3[j] == dd[j - 2 - dc.len()]);
        }
    }
    assert forall|j: int| 0 <= j < w1.len() implies !crate::text::is_ws(#[trigger] w1[j]) by {}
    crate::text::lemma_words_first(w3, ' ', r3);
    crate::text::lemma_words_first(w2, ' ', w3 + seq![' '] + r3);
    crate::text::lemma_words_first(w1, ' ', w2 + seq![' '] + (w3 + seq![' '] + r3));
    let ws = words(line);
    assert(ws[1] == w2);
    assert(ws[2] == w3);
    lemma_hunk_range_of('-', h.old_start, h.old_lines);
    lemma_hunk_range_of('+', h.new_start, h.new_lines);
    assert(hunk_from_header(line) == Some(HunkView { lines: Seq::empty(), ..h }));
    lemma_starts_at_at(line);
    assert forall|j: int| 0 <= j < line.len() implies line[j] != '\n' by {
        let pre = line.len() - tail.len();
        if j >= pre {
            assert(line[j] == tail[j - pre]);
        } else {
            let x = w1 + seq![' '] + (w2 + seq![' '] + (w3 + seq![' '] + seq!['@', '@']));
            assert(line =~= x + tail);
            assert(line[j] == x[j]);
            if j >= 3 && j < 3 + w2.len() {
                assert(x[j] == w2[j - 3]);
                assert(!crate::text::is_ws(w2[j - 3]));
            } else if j >= 4 + w2.len() && j < 4 + w2.len() + w3.len() {
                assert(x[j] == w3[j - 4 - w2.len()]);
                assert(!crate::text::is_ws(w3[j - 4 - w2.len()]));
            }
        }
    }
    if tail.len() == 0 {
        assert(line.last() == '@');
    } else {
        assert(line.last() == tail.last());
    }
}

/// A diff whose hunk headers are written from the hunks' own numbers reads
/// back as itself: for a file header of whole plain lines none of which is
/// a hunk header, and hunks whose headers are `hunk_header_line` of their
/// numbers with a plain tail that is empty or starts with a space, and
/// whose lines are plain and none a hunk header, `parse_diff` of
/// `to_string` gives the diff back.
#[verifier::spinoff_prover]
#[verifier::rlimit(60)]
pub proof fn lemma_written_diff_parses_back(d: DiffView, header_lines: Seq<Seq<char>>, tails: Seq<Seq<char>>)
    requires
        d.file_header == lines_text(header_lines),
        forall|j: int| 0 <= j < header_lines.len() ==> #[trigger] body_line(header_lines[j]),
        tails.len() == d.hunks.len(),
        forall|j: int| 0 <= j < d.hunks.len() ==> #[trigger] d.hunks[j].header == hunk_header_line(
            d.hunks[j].old_start,
            d.hunks[j].old_lines,
            d.hunks[j].new_start,
            d.hunks[j].new_lines,
            tails[j],
        ),
        forall|j: int| 0 <= j < tails.len() ==> (#[trigger] tails[j]).len() == 0 || tails[j][0] == ' ',
        forall|j: int| 0 <= j < tails.len() ==> plain_line(#[trigger] tails[j]),
        forall|j: int, k: int| 0 <= j < d.hunks.len() && 0 <= k < d.hunks[j].lines.len() ==> #[trigger] body_line(d.hunks[j].lines[k]),
    ensures
        parsed_diff(diff_text(d)) == d,
{
    assert forall|j: int| 0 <= j < d.hunks.len() implies #[trigger] rereadable_hunk(d.hunks[j]) by {
        assert(tails[j].len() == 0 || tails[j][0] == ' ');
        assert(plain_line(tails[j]));
        assert forall|k: int| 0 <= k < d.hunks[j].lines.len() implies #[trigger] body_line(d.hunks[j].lines[k]) by {}
        lemma_written_hunk_rereadable(d.hunks[j], tails[j]);
    }
    lemma_diff_text_parses_back(d, header_lines);
}

/// A line starts with `"@@"` exactly when its first two characters are `'@'`.
pub proof fn lemma_starts_at_at(line: Seq<char>)
    ensures
        starts_with(line, "@@"@) == (line.len() >= 2 && line[0] == '@' && line[1] == '@'),
{
    reveal_strlit("@@");
    if line.len() >= 2 && line[0] == '@' && line[1] == '@' {
        assert(line.subrange(0, 2) =~= "@@"@);
    }
    if line.len() >= 2 {
        assert(line.subrange(0, 2)[0] == line[0]);
        assert(line.subrange(0, 2)[1] == line[1]);
    }
}

/// `hunk_range` of `cs[from..to]`.
fn hunk_range_exec(cs: &[char], from: usize, to: usize, sign: char) -> (r: (u32, u32))
    requires
        from <= to <= cs@.len(),
    ensures
        r == hunk_range(cs@.subrange(from as int, to as int), sign),
{
    let ghost part = cs@.subrange(from as int, to as int);
    let mut lo = from;
    while lo < to && cs[lo] == sign
        invariant
            from <= lo <= to <= cs@.len(),
            trim_start_char(part, sign) == trim_start_char(cs@.subrange(lo as int, to as int), sign),
        decreases to - lo,
    {
        proof {
            assert(cs@.subrange(lo as int, to as int).drop_first() =~= cs@.subrange(
                lo + 1,
                to as int,
            ));
        }
        lo = lo + 1;
    }
    let ghost t = cs@.subrange(lo as int, to as int);
    proof {
        if lo < to {
            assert(t[0] == cs@[lo as int]);
        }
        assert(trim_start_char(t, sign) == t);
    }
    let p1 = index_or_len_in(cs, ',', lo, to);
    proof {
        assert(t.take(p1 - lo) =~= cs@.subrange(lo as int, p1 as int));
    }
    let start = match parse_u32_range(cs, lo, p1) {
        Some(v) => v,
        None => 0,
    };
    let count = if p1 < to {
        let p2 = index_or_len_in(cs, ',', p1 + 1, to);
        proof {
            let rest = t.skip(p1 - lo + 1);
            assert(rest =~= cs@.subrange(p1 + 1, to as int));
            assert(rest.take(p2 - (p1 + 1)) =~= cs@.subrange(p1 + 1, p2 as int));
        }
        match parse_u32_range(cs, p1 + 1, p2) {
            Some(v) => v,
            None => 1,
        }
    } else {
        1
    };
    (start, count)
}

/// The header's hunk, when the line has at least three words.
fn hunk_from_header_exec(cs: &[char], from: usize, to: usize) -> (r: Option<Hunk>)
    requires
        from <= to <= cs@.len(),
    ensures
        match hunk_from_header(cs@.subrange(from as int, to as int)) {
            Some(h) => r matches Some(x) && x@ == h,
            None => r is None,
        },
{
    let ws = word_spans(cs, from, to, 3);
    if ws.len() < 3 {
        return None;
    }
    let w1 = ws[1];
    let w2 = ws[2];
    proof {
        assert(span_is(cs@, ws@[1], words(cs@.subrange(from as int, to as int))[1]));
        assert(span_is(cs@, ws@[2], words(cs@.subrange(from as int, to as int))[2]));
    }
    let (os, ol) = hunk_range_exec(cs, w1.start, w1.end, '-');
    let (ns, nl) = hunk_range_exec(cs, w2.start, w2.end, '+');
    let h = Hunk {
        header: string_of_range(cs, from, to),
        lines: Vec::new(),
        old_start: os,
        old_lines: ol,
        new_start: ns,
        new_lines: nl,
    };
    proof { assert(h@.lines =~= Seq::<Seq<char>>::empty()); }
    Some(h)
}

/// The view of an optional open hunk.
pub open spec fn opt_hunk_view(h: Option<Hunk>) -> Option<HunkView> {
    match h {
        Some(x) => Some(x@),
        None => None,
    }
}

impl GitRepo {
    /// Reads a unified diff: the lines before the first `@@` line make the
    /// file header, and each `@@` line with at least three words opens a hunk
    /// that collects the lines after it.
    pub fn parse_diff(input: &str) -> (r: Diff)
        ensures
            r@ == parsed_diff(input@),
    {
        let cs = to_chars(input);
        let spans = line_spans(cs.as_slice());
        let ghost ls = lines(cs@);
        let mut diff = Diff::new();
        let mut cur: Option<Hunk> = None;
        let mut header_done = false;
        proof {
            assert(ls.take(0) =~= Seq::<Seq<char>>::empty());
        }
        let mut i: usize = 0;
        while i < spans.len()
            invariant
                ls == lines(cs@),
                spans@.len() == ls.len(),
                forall|k: int| 0 <= k < spans@.len() ==> #[trigger] span_is(cs@, spans@[k], ls[k]),
                i <= spans@.len(),
                diff_read(ls.take(i as int)) == (DiffParse {
                    header: diff.file_header@,
                    hunks: hunks_view(diff.hunks@),
                    cur: opt_hunk_view(cur),
                    header_done,
                }),
            decreases spans@.len() - i,
        {
            let sp = spans[i];
            let ghost line = ls[i as int];
            let ghost st = diff_read(ls.take(i as int));
            proof {
                assert(span_is(cs@, spans@[i as int], ls[i as int]));
                assert(ls.take(i + 1).drop_last() =~= ls.take(i as int));
                assert(ls.take(i + 1).last() == line);
            }
            let line_slice_starts = sp.end - sp.start >= 2 && cs[sp.start] == '@' && cs[sp.start
                + 1] == '@';
            proof {
                if line.len() >= 2 {
                    assert(line[0] == cs@[sp.start as int]);
                    assert(line[1] == cs@[sp.start + 1]);
                }
                lemma_starts_at_at(line);
            }
            if line_slice_starts {
                header_done = true;
                let prev = cur;
                cur = None;
                match prev {
                    Some(h) => {
                        let ghost before = diff.hunks@;
                        diff.hunks.push(h);
                        proof {
                            assert(hunks_view(diff.hunks@) =~= hunks_view(before).push(h@));
                        }
                    },
                    None => {},
                }
                cur = hunk_from_header_exec(cs.as_slice(), sp.start, sp.end);
            } else if !header_done {
                let ghost hb = diff.file_header@;
                push_seq_range(&mut diff.file_header, cs.as_slice(), sp.start, sp.end);
                push_char(&mut diff.file_header, '\n');
                proof {
                    assert(diff.file_header@ =~= hb + line + seq!['\n']);
                }
            } else {
                match cur {
                    Some(mut h) => {
                        let ghost before = h@;
                        h.lines.push(string_of_range(cs.as_slice(), sp.start, sp.end));
                        proof {
                            assert(h@.lines =~= before.lines.push(line));
                        }
                        cur = Some(h);
                    },
                    None => {
                        cur = None;
                    },
                }
            }
            i = i + 1;
        }
        match cur {
            Some(h) => {
                let ghost before = diff.hunks@;
                diff.hunks.push(h);
                proof {
                    assert(hunks_view(diff.hunks@) =~= hunks_view(before).push(h@));
                }
            },
            None => {},
        }
        proof { assert(ls.take(ls.len() as int) =~= ls); }
        diff
    }
}


// ── Listing files ───────────────────────────────────────────────────────────

/// The state that `changed` gives `path`: that of its first entry with this
/// path, or `Clean` when none has it.
pub open spec fn status_of_path(changed: Seq<GitFileView>, path: Seq<char>) -> FileStatus
    decreases changed.len(),
{
    if changed.len() == 0 {
        FileStatus::Clean
    } else if changed[0].path == path {
        changed[0].status
    } else {
        status_of_path(changed.drop_first(), path)
    }
}

/// The views of a list of files.
pub open spec fn files_view(v: Seq<GitFile>) -> Seq<GitFileView> {
    v.map_values(|f: GitFile| f@)
}

fn status_of_path_exec(changed: &[GitFile], cs: &[char], from: usize, to: usize) -> (r: FileStatus)
    requires
        from <= to <= cs@.len(),
    ensures
        r == status_of_path(files_view(changed@), cs@.subrange(from as int, to as int)),
{
    let ghost path = cs@.subrange(from as int, to as int);
    let mut i: usize = 0;
    proof { assert(files_view(changed@).skip(0) =~= files_view(changed@)); }
    while i < changed.len()
        invariant
            from <= to <= cs@.len(),
            i <= changed@.len(),
            path == cs@.subrange(from as int, to as int),
            status_of_path(files_view(changed@), path) == status_of_path(
                files_view(changed@).skip(i as int),
                path,
            ),
        decreases changed@.len() - i,
    {
        let p = to_chars(changed[i].path.as_str());
        let eq = seq_eq_range(p.as_slice(), cs, from, to);
        proof {
            let rest = files_view(changed@).skip(i as int);
            assert(rest[0] == changed@[i as int]@);
            assert(rest.drop_first() =~= files_view(changed@).skip(i + 1));
        }
        if eq {
            return changed[i].status;
        }
        i = i + 1;
    }
    proof {
        assert(files_view(changed@).skip(i as int).len() == 0);
    }
    FileStatus::Clean
}

/// Whether `a` equals `cs[from..to]`.
fn seq_eq_range(a: &[char], cs: &[char], from: usize, to: usize) -> (r: bool)
    requires
        from <= to <= cs@.len(),
    ensures
        r == (a@ == cs@.subrange(from as int, to as int)),
{
    if a.len() != to - from {
        return false;
    }
    let mut k: usize = 0;
    while k < a.len()
        invariant
            a@.len() == to - from,
            from <= to <= cs@.len(),
            k <= a@.len(),
            forall|j: int| 0 <= j < k ==> a@[j] == cs@[from + j],
        decreases a@.len() - k,
    {
        if a[k] != cs[from + k] {
            proof {
                assert(cs@.subrange(from as int, to as int)[k as int] == cs@[from + k]);
            }
            return false;
        }
        k = k + 1;
    }
    proof { assert(a@ =~= cs@.subrange(from as int, to as int)); }
    true
}

/// Every listed path with the state that `changed` gives it.
pub open spec fn listed_files(ls: Seq<Seq<char>>, changed: Seq<GitFileView>) -> Seq<GitFileView> {
    ls.map_values(|l: Seq<char>| GitFileView { path: l, status: status_of_path(changed, l) })
}

impl GitRepo {
    /// Every file that `git ls-files` printed, one per line, each with the
    /// state that the status entries give it (`Clean` for unchanged files).
    pub fn all_files(ls_files: &str, changed: &[GitFile]) -> (r: Vec<GitFile>)
        ensures
            files_view(r@) == listed_files(lines(ls_files@), files_view(changed@)),
    {
        let cs = to_chars(ls_files);
        let spans = line_spans(cs.as_slice());
        let ghost ls = lines(cs@);
        let mut out: Vec<GitFile> = Vec::new();
        let mut i: usize = 0;
        while i < spans.len()
            invariant
                ls == lines(cs@),
                spans@.len() == ls.len(),
                forall|k: int| 0 <= k < spans@.len() ==> #[trigger] span_is(cs@, spans@[k], ls[k]),
                i <= spans@.len(),
                out@.len() == i,
                forall|k: int|
                    0 <= k < i ==> #[trigger] out@[k]@ == (GitFileView {
                        path: ls[k],
                        status: status_of_path(files_view(changed@), ls[k]),
                    }),
            decreases spans@.len() - i,
        {
            let sp = spans[i];
            proof { assert(span_is(cs@, spans@[i as int], ls[i as int])); }
            let status = status_of_path_exec(changed, cs.as_slice(), sp.start, sp.end);
            let path = string_of_range(cs.as_slice(), sp.start, sp.end);
            out.push(GitFile { path, status });
            i = i + 1;
        }
        proof {
            assert(files_view(out@) =~= listed_files(ls, files_view(changed@)));
        }
        out
    }

    /// The branch name that `git rev-parse --abbrev-ref HEAD` printed.
    pub fn current_branch(output: &str) -> (r: String)
        ensures
            r@ == trim(output@),
    {
        trim_str(output)
    }

    /// The URL that `git remote get-url origin` printed.
    pub fn get_remote_url(output: &str) -> (r: String)
        ensures
            r@ == trim(output@),
    {
        trim_str(output)
    }
}

// ── URLs, errors and tokens ─────────────────────────────────────────────────

/// An `https://` URL with any `user[:password]@` part before the host
/// removed; other URLs unchanged.
pub open spec fn clean_url_text(url: Seq<char>) -> Seq<char> {
    if starts_with(url, "https://"@) {
        let rest = url.skip(8);
        let at = index_or_len(rest, '@');
        let host = if at < rest.len() {
            rest.skip(at + 1)
        } else {
            rest
        };
        "https://"@ + host
    } else {
        url
    }
}

/// The text `https://`.
pub fn https_prefix() -> (r: Vec<char>)
    ensures
        r@ == "https://"@,
{
    let r = to_chars("https://");
    r
}

impl GitRepo {
    /// The URL without the credentials that an `https://` URL may carry.
    pub fn clean_url(url: &str) -> (r: String)
        ensures
            r@ == clean_url_text(url@),
    {
        let cs = to_chars(url);
        let pre = https_prefix();
        proof { reveal_strlit("https://"); }
        if !occurs_at_exec(cs.as_slice(), pre.as_slice(), 0) {
            return from_chars(cs.as_slice());
        }
        let ghost rest = cs@.skip(8);
        let at = index_or_len_in(cs.as_slice(), '@', 8, cs.len());
        proof {
            assert(rest =~= cs@.subrange(8, cs@.len() as int));
        }
        let host_start = if at < cs.len() {
            at + 1
        } else {
            8
        };
        proof {
            if at < cs@.len() {
                assert(rest.skip(at - 8 + 1) =~= cs@.subrange(host_start as int, cs@.len() as int));
            } else {
                assert(rest =~= cs@.subrange(host_start as int, cs@.len() as int));
            }
        }
        let mut out = from_chars(pre.as_slice());
        push_seq_range(&mut out, cs.as_slice(), host_start, cs.len());
        out
    }
}

/// The message that a failed push is reported with: a rejection, a push
/// with nothing to send, or git's own words with any token hidden.
pub open spec fn push_error_text(err: Seq<char>) -> Seq<char> {
    let e = redact(err);
    if contains(e, "rejected"@) || contains(e, "non-fast-forward"@) {
        "Rejected: fetch first or force push"@
    } else if contains(e, "Everything up-to-date"@) {
        "Already up-to-date"@
    } else {
        e
    }
}

impl GitRepo {
    /// The message to report for what git printed when a push failed.
    pub fn format_push_error(err: &str) -> (r: String)
        ensures
            r@ == push_error_text(err@),
    {
        let e = redact_tokens(err);
        if str_contains(e.as_str(), "rejected") || str_contains(e.as_str(), "non-fast-forward") {
            String::from_str("Rejected: fetch first or force push")
        } else if str_contains(e.as_str(), "Everything up-to-date") {
            String::from_str("Already up-to-date")
        } else {
            e
        }
    }
}

/// Whether `char::is_alphanumeric` holds of `c` (Unicode letters and numbers).
pub uninterp spec fn is_alnum(c: char) -> bool;

/// `char::is_alphanumeric`.
#[verifier::external_body]
pub(crate) fn char_is_alphanumeric(c: char) -> (r: bool)
    ensures
        r == is_alnum(c),
{
    c.is_alphanumeric()
}

/// A character that can be part of a token: alphanumeric or `'_'`.
pub open spec fn token_char(c: char) -> bool {
    is_alnum(c) || c == '_'
}

/// Length of the leading run of token characters of `s`.
pub open spec fn token_end(s: Seq<char>) -> int
    decreases s.len(),
{
    if s.len() == 0 || !token_char(s[0]) {
        0
    } else {
        1 + token_end(s.drop_first())
    }
}

pub proof fn lemma_token_end_is(s: Seq<char>, k: int)
    requires
        0 <= k <= s.len(),
        k < s.len() ==> !token_char(s[k]),
        forall|j: int| 0 <= j < k ==> token_char(s[j]),
    ensures
        token_end(s) == k,
    decreases k,
{
    if k > 0 {
        lemma_token_end_is(s.drop_first(), k - 1);
    }
}

/// `s` with its first `ghp_` token replaced by `[REDACTED TOKEN]`: from the
/// `ghp_` up to the first character that is neither alphanumeric nor `'_'`.
pub open spec fn redact(s: Seq<char>) -> Seq<char> {
    match find(s, "ghp_"@) {
        None => s,
        Some(start) => {
            let tail = s.skip(start);
            s.take(start) + "[REDACTED TOKEN]"@ + tail.skip(token_end(tail))
        },
    }
}

/// Hides the first GitHub personal access token (`ghp_…`) in a text.
pub fn redact_tokens(input: &str) -> (r: String)
    ensures
        r@ == redact(input@),
{
    let cs = to_chars(input);
    let pat = to_chars("ghp_");
    match find_seq(cs.as_slice(), pat.as_slice()) {
        None => from_chars(cs.as_slice()),
        Some(start) => {
            proof {
                assert(find(cs@, pat@) == Some(start as int));
            }
            let mut e = start;
            while e < cs.len() && (char_is_alphanumeric(cs[e]) || cs[e] == '_')
                invariant
                    start <= e <= cs@.len(),
                    forall|j: int| start <= j < e ==> token_char(cs@[j]),
                decreases cs@.len() - e,
            {
                e = e + 1;
            }
            let ghost tail = cs@.skip(start as int);
            proof {
                lemma_token_end_is(tail, e - start);
                assert(tail.skip(e - start) =~= cs@.subrange(e as int, cs@.len() as int));
                assert(cs@.take(start as int) =~= cs@.subrange(0, start as int));
            }
            let mut out = string_of_range(cs.as_slice(), 0, start);
            push_str(&mut out, "[REDACTED TOKEN]");
            push_seq_range(&mut out, cs.as_slice(), e, cs.len());
            out
        },
    }
}


// ── Commands ────────────────────────────────────────────────────────────────

/// The arguments of one `git` invocation, run in the repository's root.
#[derive(Debug)]
pub struct GitCommand {
    pub args: Vec<String>,
}

/// The arguments of a command as plain values.
pub open spec fn args_view(c: GitCommand) -> Seq<Seq<char>> {
    strs_view(c.args@)
}

/// The views of a list of string slices.
pub open spec fn strs_of(v: Seq<&str>) -> Seq<Seq<char>> {
    v.map_values(|s: &str| s@)
}

/// A command with the given arguments.
pub fn command(parts: &[&str]) -> (r: GitCommand)
    ensures
        args_view(r) == strs_of(parts@),
{
    let mut args: Vec<String> = Vec::new();
    let mut i: usize = 0;
    while i < parts.len()
        invariant
            i <= parts@.len(),
            args@.len() == i,
            forall|k: int| 0 <= k < i ==> #[trigger] args@[k]@ == parts@[k]@,
        decreases parts@.len() - i,
    {
        args.push(String::from_str(parts[i]));
        i = i + 1;
    }
    proof { assert(strs_view(args@) =~= strs_of(parts@)); }
    GitCommand { args }
}

impl GitRepo {
    /// `git add <path>`.
    pub fn stage(path: &str) -> (r: GitCommand)
        ensures
            args_view(r) == seq!["add"@, path@],
    {
        let r = command(&["add", path]);
        proof { assert(strs_of(seq!["add", path]) =~= seq!["add"@, path@]); }
        r
    }

    /// The commands that take a file out of the index, each run whatever
    /// the one before it gave: `git restore --staged`, `git rm --cached` and
    /// `git reset HEAD --`.
    pub fn unstage(path: &str) -> (r: Vec<GitCommand>)
        ensures
            r@.len() == 3,
            args_view(r@[0]) == seq!["restore"@, "--staged"@, path@],
            args_view(r@[1]) == seq!["rm"@, "--cached"@, path@],
            args_view(r@[2]) == seq!["reset"@, "HEAD"@, "--"@, path@],
    {
        let a = command(&["restore", "--staged", path]);
        let b = command(&["rm", "--cached", path]);
        let c = command(&["reset", "HEAD", "--", path]);
        proof {
            assert(strs_of(seq!["restore", "--staged", path]) =~= seq!["restore"@, "--staged"@, path@]);
            assert(strs_of(seq!["rm", "--cached", path]) =~= seq!["rm"@, "--cached"@, path@]);
            assert(strs_of(seq!["reset", "HEAD", "--", path]) =~= seq!["reset"@, "HEAD"@, "--"@, path@]);
        }
        let mut r: Vec<GitCommand> = Vec::new();
        r.push(a);
        r.push(b);
        r.push(c);
        r
    }

    /// `git add <folder>`.
    pub fn stage_folder(path: &str) -> (r: GitCommand)
        ensures
            args_view(r) == seq!["add"@, path@],
    {
        Self::stage(path)
    }

    /// The commands that take a folder out of the index, each run whatever
    /// the one before it gave: `git restore --staged` and `git reset HEAD --`.
    pub fn unstage_folder(path: &str) -> (r: Vec<GitCommand>)
        ensures
            r@.len() == 2,
            args_view(r@[0]) == seq!["restore"@, "--staged"@, path@],
            args_view(r@[1]) == seq!["reset"@, "HEAD"@, "--"@, path@],
    {
        let a = command(&["restore", "--staged", path]);
        let c = command(&["reset", "HEAD", "--", path]);
        proof {
            assert(strs_of(seq!["restore", "--staged", path]) =~= seq!["restore"@, "--staged"@, path@]);
            assert(strs_of(seq!["reset", "HEAD", "--", path]) =~= seq!["reset"@, "HEAD"@, "--"@, path@]);
        }
        let mut r: Vec<GitCommand> = Vec::new();
        r.push(a);
        r.push(c);
        r
    }

    /// `git commit -m <msg>`.
    pub fn commit(msg: &str) -> (r: GitCommand)
        ensures
            args_view(r) == seq!["commit"@, "-m"@, msg@],
    {
        let r = command(&["commit", "-m", msg]);
        proof { assert(strs_of(seq!["commit", "-m", msg]) =~= seq!["commit"@, "-m"@, msg@]); }
        r
    }

    /// `git pull`.
    pub fn pull() -> (r: GitCommand)
        ensures
            args_view(r) == seq!["pull"@],
    {
        let r = command(&["pull"]);
        proof { assert(strs_of(seq!["pull"]) =~= seq!["pull"@]); }
        r
    }
}

/// How a push goes out: over HTTPS with the token, or as a plain command.
/// It may carry the token, so it has no `Debug`.
pub enum PushPlan {
    /// `git push --set-upstream <url> <branch>` with the token as credential.
    WithToken { url: String, token: String, branch: String, force: bool },
    /// A `git push` to `origin`.
    Command(GitCommand),
}

/// The arguments of a push to `origin`.
pub open spec fn origin_push_args(branch: Seq<char>, force: bool) -> Seq<Seq<char>> {
    if force {
        seq!["push"@, "--set-upstream"@, "origin"@, branch, "--force"@]
    } else {
        seq!["push"@, "--set-upstream"@, "origin"@, branch]
    }
}

/// A push to `origin` pushes the branch and sets its upstream, and carries
/// `--force` exactly when it is forced.
pub proof fn lemma_origin_push_force(branch: Seq<char>, force: bool)
    requires
        branch != "--force"@,
    ensures
        origin_push_args(branch, force).take(4) == seq!["push"@, "--set-upstream"@, "origin"@, branch],
        origin_push_args(branch, force).contains("--force"@) <==> force,
{
    reveal_strlit("push");
    reveal_strlit("--set-upstream");
    reveal_strlit("origin");
    reveal_strlit("--force");
    let a = origin_push_args(branch, force);
    assert(a.take(4) =~= seq!["push"@, "--set-upstream"@, "origin"@, branch]);
    assert("push"@.len() != "--force"@.len());
    assert("origin"@.len() != "--force"@.len());
    assert("--set-upstream"@.len() != "--force"@.len());
    if force {
        assert(a[4] == "--force"@);
    } else {
        assert forall|j: int| 0 <= j < a.len() implies a[j] != "--force"@ by {
            if j == 3 {
                assert(a[j] == branch);
            }
        }
    }
}

/// A push with the token carries `--force` exactly when it is forced, and
/// ends with the URL and the branch.
#[verifier::spinoff_prover]
#[verifier::rlimit(60)]
pub proof fn lemma_token_push_force(cred_path: Seq<char>, url: Seq<char>, branch: Seq<char>, force: bool)
    requires
        url != "--force"@,
        branch != "--force"@,
    ensures
        token_push_args(cred_path, url, branch, force).contains("--force"@) <==> force,
        token_push_args(cred_path, url, branch, force).len() >= 2,
        token_push_args(cred_path, url, branch, force).last() == branch,
        token_push_args(cred_path, url, branch, force)[token_push_args(cred_path, url, branch, force).len() - 2] == url,
{
    reveal_strlit("-c");
    reveal_strlit("credential.helper=");
    reveal_strlit("credential.helper=store --file=\"");
    reveal_strlit("\"");
    reveal_strlit("push");
    reveal_strlit("--set-upstream");
    reveal_strlit("--force");
    let a = token_push_args(cred_path, url, branch, force);
    let c = "credential.helper=store --file=\""@ + cred_path + "\""@;
    assert(c[0] == 'c');
    assert("--force"@[0] == '-');
    assert("-c"@.len() != "--force"@.len());
    assert("credential.helper="@[0] == 'c');
    assert("push"@.len() != "--force"@.len());
    assert("--set-upstream"@.len() != "--force"@.len());
    if force {
        assert(a[6] == "--force"@);
    } else {
        assert forall|j: int| 0 <= j < a.len() implies a[j] != "--force"@ by {
            if j == 3 {
                assert(a[j] == c);
            } else if j == 1 {
                assert(a[j][0] == 'c');
            }
        }
    }
}

/// The message for a push from a repository without commits.
pub open spec fn no_commits_text() -> Seq<char> {
    "No commits yet — stage and commit files first"@
}

impl GitRepo {
    /// Decides how to push: nothing without commits; the current branch (or
    /// `branch` when it is unknown); with the token over HTTPS when there is
    /// a token and the origin URL is `https://`, else a plain push to origin.
    pub fn smart_push(
        has_commits: bool,
        current_branch: Option<String>,
        branch: &str,
        token: Option<&str>,
        remote_url: Option<String>,
        force: bool,
    ) -> (r: Result<PushPlan, String>)
        ensures
            !has_commits ==> (r matches Err(e) && e@ == no_commits_text()),
            has_commits ==> {
                let b = match current_branch {
                    Some(c) => c@,
                    None => branch@,
                };
                let remote = match remote_url {
                    Some(u) => u@,
                    None => Seq::<char>::empty(),
                };
                match token {
                    Some(t) if remote.len() > 0 && starts_with(remote, "https://"@) => (r matches Ok(
                        PushPlan::WithToken { url, token: tk, branch: br, force: f },
                    ) && url@ == clean_url_text(remote) && tk@ == t@ && br@ == b && f == force),
                    _ => (r matches Ok(PushPlan::Command(c)) && args_view(c) == origin_push_args(
                        b,
                        force,
                    )),
                }
            },
    {
        if !has_commits {
            return Err(String::from_str("No commits yet — stage and commit files first"));
        }
        let b = match current_branch {
            Some(c) => c,
            None => String::from_str(branch),
        };
        let remote = match remote_url {
            Some(u) => u,
            None => String::new(),
        };
        match token {
            Some(t) => {
                if char_count(remote.as_str()) > 0 && str_starts_with(remote.as_str(), "https://") {
                    let url = GitRepo::clean_url(remote.as_str());
                    return Ok(
                        PushPlan::WithToken { url, token: String::from_str(t), branch: b, force },
                    );
                }
            },
            None => {},
        }
        let bs = b.as_str();
        let c = if force {
            let c = command(&["push", "--set-upstream", "origin", bs, "--force"]);
            proof {
                assert(strs_of(seq!["push", "--set-upstream", "origin", bs, "--force"])
                    =~= origin_push_args(b@, force));
            }
            c
        } else {
            let c = command(&["push", "--set-upstream", "origin", bs]);
            proof {
                assert(strs_of(seq!["push", "--set-upstream", "origin", bs]) =~= origin_push_args(
                    b@,
                    force,
                ));
            }
            c
        };
        Ok(PushPlan::Command(c))
    }
}

// ── Pulls and credentials ─────────────────────────────────────────────────

/// A pull first tries the token when there is one and the origin URL is
/// `https://`.
pub open spec fn pull_tries_token(token: Option<Seq<char>>, remote: Seq<char>) -> bool {
    token is Some && remote.len() > 0 && starts_with(remote, "https://"@)
}

/// The credential line that gives the token to `git` for github.com.
pub open spec fn credential_text(token: Seq<char>) -> Seq<char> {
    "https://x-access-token:"@ + token + "@github.com\n"@
}

/// The arguments of a pull that reads the credentials from `cred_path`.
pub open spec fn token_pull_args(cred_path: Seq<char>) -> Seq<Seq<char>> {
    seq!["-c"@, "credential.helper="@, "-c"@, "credential.helper=store --file="@ + cred_path, "pull"@]
}

/// The arguments of a push to `url` that reads the credentials from
/// `cred_path`.
pub open spec fn token_push_args(cred_path: Seq<char>, url: Seq<char>, branch: Seq<char>, force: bool) -> Seq<Seq<char>> {
    let head = seq!["-c"@, "credential.helper="@, "-c"@, "credential.helper=store --file=\""@ + cred_path + "\""@, "push"@, "--set-upstream"@];
    if force {
        head + seq!["--force"@, url, branch]
    } else {
        head + seq![url, branch]
    }
}

impl GitRepo {
    /// Whether a pull first tries the token (see `pull_tries_token`), given
    /// the origin URL (none when it could not be read).
    pub fn smart_pull(token: Option<&str>, remote_url: Option<String>) -> (r: bool)
        ensures
            r == pull_tries_token(
                match token {
                    Some(t) => Some(t@),
                    None => None,
                },
                match remote_url {
                    Some(u) => u@,
                    None => Seq::<char>::empty(),
                },
            ),
    {
        match (token, remote_url) {
            (Some(_), Some(u)) => char_count(u.as_str()) > 0 && str_starts_with(u.as_str(), "https://"),
            (Some(_), None) => false,
            _ => false,
        }
    }
}

/// A way of pulling.
#[derive(Debug, Clone, Copy, PartialEq, Eq, Structural)]
pub enum PullStep {
    /// `git pull` over SSH, `origin` pointed at its SSH address first.
    ViaSsh,
    /// `git pull` with the token as credential (`token_pull`).
    ViaToken,
    /// A plain `git pull`.
    Plain,
}

/// What comes after a pull has run.
#[derive(Debug)]
pub enum PullNext {
    /// The pull went through, printing this.
    Done(String),
    /// Try this way next.
    Then(PullStep),
    /// The pull failed.
    Failed,
}

/// The first way a pull is tried: over SSH when GitHub answers over SSH,
/// else with the token when `smart_pull` says so, else plainly.
pub fn first_pull(ssh_ok: bool, tries_token: bool) -> (r: PullStep)
    ensures
        r == if ssh_ok {
            PullStep::ViaSsh
        } else if tries_token {
            PullStep::ViaToken
        } else {
            PullStep::Plain
        },
{
    if ssh_ok {
        PullStep::ViaSsh
    } else if tries_token {
        PullStep::ViaToken
    } else {
        PullStep::Plain
    }
}

/// What follows a pull that was tried in the way `step`: its output when it
/// went through; a plain pull after a token pull that ran and failed; else
/// the pull failed (a pull that could not be started, or whose credentials
/// could not be written, is not tried again).
pub fn after_pull(step: PullStep, outcome: crate::events::CommandOutcome) -> (r: PullNext)
    ensures
        match outcome {
            crate::events::CommandOutcome::Done(out) => r matches PullNext::Done(o) && o@ == out@,
            crate::events::CommandOutcome::Failed(_) => if step == PullStep::ViaToken {
                r matches PullNext::Then(PullStep::Plain)
            } else {
                r is Failed
            },
            crate::events::CommandOutcome::NotRun(_) => r is Failed,
        },
{
    match outcome {
        crate::events::CommandOutcome::Done(out) => PullNext::Done(out),
        crate::events::CommandOutcome::Failed(_) => if step == PullStep::ViaToken {
            PullNext::Then(PullStep::Plain)
        } else {
            PullNext::Failed
        },
        crate::events::CommandOutcome::NotRun(_) => PullNext::Failed,
    }
}

/// The credential line for a token (see `credential_text`).
pub fn credential_line(token: &str) -> (r: String)
    ensures
        r@ == credential_text(token@),
{
    let mut s = String::from_str("https://x-access-token:");
    push_str(&mut s, token);
    push_str(&mut s, "@github.com\n");
    s
}

/// The pull that reads the credentials from `cred_path`.
pub fn token_pull(cred_path: &str) -> (r: GitCommand)
    ensures
        args_view(r) == token_pull_args(cred_path@),
{
    let mut helper = String::from_str("credential.helper=store --file=");
    push_str(&mut helper, cred_path);
    let h = helper.as_str();
    let r = command(&["-c", "credential.helper=", "-c", h, "pull"]);
    proof { assert(strs_of(seq!["-c", "credential.helper=", "-c", h, "pull"]) =~= token_pull_args(cred_path@)); }
    r
}

/// The push to `url` that reads the credentials from `cred_path`.
pub fn token_push(cred_path: &str, url: &str, branch: &str, force: bool) -> (r: GitCommand)
    ensures
        args_view(r) == token_push_args(cred_path@, url@, branch@, force),
{
    let mut helper = String::from_str("credential.helper=store --file=\"");
    push_str(&mut helper, cred_path);
    push_str(&mut helper, "\"");
    let h = helper.as_str();
    if force {
        let r = command(&["-c", "credential.helper=", "-c", h, "push", "--set-upstream", "--force", url, branch]);
        proof {
            assert(strs_of(seq!["-c", "credential.helper=", "-c", h, "push", "--set-upstream", "--force", url, branch])
                =~= token_push_args(cred_path@, url@, branch@, force));
        }
        r
    } else {
        let r = command(&["-c", "credential.helper=", "-c", h, "push", "--set-upstream", url, branch]);
        proof {
            assert(strs_of(seq!["-c", "credential.helper=", "-c", h, "push", "--set-upstream", url, branch])
                =~= token_push_args(cred_path@, url@, branch@, force));
        }
        r
    }
}

/// What a command printed, as a pull reports it: its output then its error
/// output, trimmed.
pub fn command_output(stdout: &str, stderr: &str) -> (r: String)
    ensures
        r@ == trim(stdout@ + stderr@),
{
    let mut all = String::from_str(stdout);
    push_str(&mut all, stderr);
    trim_str(all.as_str())
}

// ── Diff of one file ────────────────────────────────────────────────────────

/// The single hunk that shows a new file: every line of its content added.
pub open spec fn new_file_hunk(content: Seq<char>) -> HunkView {
    let ls = lines(content);
    let n = ls.len();
    HunkView {
        header: "@@ -0,0 +1,"@ + decimal(n) + " @@"@,
        lines: if n == 0 {
            seq!["+"@]
        } else {
            ls.map_values(|l: Seq<char>| "+"@ + l)
        },
        old_start: 0,
        old_lines: 0,
        new_start: 1,
        new_lines: n as u32,
    }
}

/// The diff of a file from what git printed for its unstaged and staged
/// changes: when both are empty, a new (untracked or added) file shows its
/// whole content as added and any other file shows nothing; otherwise the
/// staged diff followed by the unstaged one, read as one unified diff.
pub open spec fn file_diff(
    unstaged: Seq<char>,
    staged: Seq<char>,
    status: Option<FileStatus>,
    content: Seq<char>,
) -> DiffView {
    if unstaged.len() == 0 && staged.len() == 0 {
        match status {
            Some(FileStatus::Untracked) | Some(FileStatus::Added) => DiffView {
                file_header: Seq::empty(),
                hunks: seq![new_file_hunk(content)],
            },
            _ => empty_diff(),
        }
    } else {
        parsed_diff(staged + unstaged)
    }
}

/// A new file (untracked or added) for which git prints no diff shows its
/// whole content as one added hunk: from nothing (`-0,0`) to line 1 on, with
/// one `+` line for each line of the content (a lone `+` for an empty file)
/// and as many new lines; any other file with no diff shows no hunk.
pub proof fn lemma_new_file_diff(unstaged: Seq<char>, staged: Seq<char>, st: Option<FileStatus>, content: Seq<char>)
    requires
        unstaged.len() == 0,
        staged.len() == 0,
    ensures
        st == Some(FileStatus::Untracked) || st == Some(FileStatus::Added) ==> {
            let d = file_diff(unstaged, staged, st, content);
            let n = lines(content).len();
            &&& d.hunks.len() == 1
            &&& d.hunks[0].old_start == 0
            &&& d.hunks[0].old_lines == 0
            &&& d.hunks[0].new_start == 1
            &&& n <= u32::MAX ==> d.hunks[0].new_lines == n
            &&& n > 0 ==> d.hunks[0].lines.len() == n
            &&& forall|i: int| 0 <= i < n ==> #[trigger] d.hunks[0].lines[i] == "+"@ + lines(content)[i]
            &&& n == 0 ==> d.hunks[0].lines == seq!["+"@]
            &&& d.hunks[0].header == "@@ -0,0 +1,"@ + decimal(n) + " @@"@
        },
        !(st == Some(FileStatus::Untracked) || st == Some(FileStatus::Added)) ==> file_diff(
            unstaged,
            staged,
            st,
            content,
        ).hunks.len() == 0,
{
}

impl GitRepo {
    /// The hunk that shows a whole new file as added.
    pub fn new_file_hunk(content: &str) -> (r: Hunk)
        ensures
            r@ == new_file_hunk(content@),
    {
        let cs = to_chars(content);
        let spans = line_spans(cs.as_slice());
        let n = spans.len();
        let mut header = String::from_str("@@ -0,0 +1,");
        push_decimal(&mut header, n as u64);
        push_str(&mut header, " @@");
        let ghost ls = lines(cs@);
        let mut out: Vec<String> = Vec::new();
        let mut i: usize = 0;
        while i < n
            invariant
                n == spans@.len(),
                ls == lines(cs@),
                spans@.len() == ls.len(),
                forall|k: int| 0 <= k < spans@.len() ==> #[trigger] span_is(cs@, spans@[k], ls[k]),
                i <= n,
                out@.len() == i,
                forall|k: int| 0 <= k < i ==> #[trigger] out@[k]@ == "+"@ + ls[k],
            decreases n - i,
        {
            let sp = spans[i];
            proof { assert(span_is(cs@, spans@[i as int], ls[i as int])); }
            let mut l = String::from_str("+");
            push_seq_range(&mut l, cs.as_slice(), sp.start, sp.end);
            out.push(l);
            i = i + 1;
        }
        if n == 0 {
            out.push(String::from_str("+"));
        }
        proof {
            if n == 0 {
                assert(strs_view(out@) =~= seq!["+"@]);
            } else {
                assert(strs_view(out@) =~= ls.map_values(|l: Seq<char>| "+"@ + l));
            }
        }
        Hunk {
            header,
            lines: out,
            old_start: 0,
            old_lines: 0,
            new_start: 1,
            new_lines: n as u32,
        }
    }

    /// The diff of one file (see `file_diff`).
    pub fn diff_from_outputs(
        unstaged: &str,
        staged: &str,
        status: Option<FileStatus>,
        content: &str,
    ) -> (r: Diff)
        ensures
            r@ == file_diff(unstaged@, staged@, status, content@),
    {
        if char_count(unstaged) == 0 && char_count(staged) == 0 {
            match status {
                Some(FileStatus::Untracked) | Some(FileStatus::Added) => {
                    let h = Self::new_file_hunk(content);
                    let mut d = Diff::new();
                    d.hunks.push(h);
                    proof { assert(hunks_view(d.hunks@) =~= seq![new_file_hunk(content@)]); }
                    d
                },
                _ => Diff::new(),
            }
        } else {
            let mut both = String::from_str(staged);
            push_str(&mut both, unstaged);
            Self::parse_diff(both.as_str())
        }
    }

    /// The patch that applies one hunk of a file: the file's diff header,
    /// then the hunk header and the hunk's lines.
    pub fn hunk_patch(file_header: &str, hunk: &Hunk) -> (r: String)
        ensures
            r@ == file_header@ + hunk.header@ + seq!['\n'] + lines_text(hunk@.lines),
    {
        let mut out = String::from_str(file_header);
        push_str(&mut out, hunk.header.as_str());
        push_char(&mut out, '\n');
        let ghost before = out@;
        let mut j: usize = 0;
        while j < hunk.lines.len()
            invariant
                j <= hunk.lines@.len(),
                out@ == before + lines_text(strs_view(hunk.lines@).take(j as int)),
            decreases hunk.lines@.len() - j,
        {
            push_str(&mut out, hunk.lines[j].as_str());
            push_char(&mut out, '\n');
            proof {
                let ls = strs_view(hunk.lines@);
                assert(ls.take(j + 1).drop_last() =~= ls.take(j as int));
            }
            j = j + 1;
        }
        proof {
            let ls = strs_view(hunk.lines@);
            assert(ls.take(ls.len() as int) =~= ls);
        }
        out
    }
}

// ── Log output ──────────────────────────────────────────────────────────────

/// A commit of the interactive rebase list.
#[derive(Debug)]
pub struct RebaseCommit {
    pub sha: String,
    pub action: String,
    pub message: String,
}

impl Clone for RebaseCommit {
    fn clone(&self) -> (r: Self)
        ensures
            r == *self,
    {
        RebaseCommit {
            sha: self.sha.clone(),
            action: self.action.clone(),
            message: self.message.clone(),
        }
    }
}

/// A rebase entry as plain values.
pub struct RebaseCommitView {
    pub sha: Seq<char>,
    pub action: Seq<char>,
    pub message: Seq<char>,
}

impl View for RebaseCommit {
    type V = RebaseCommitView;

    open spec fn view(&self) -> RebaseCommitView {
        RebaseCommitView { sha: self.sha@, action: self.action@, message: self.message@ }
    }
}

/// The entries of `git log --oneline` lines: each line with a space splits
/// there into the hash and the message and is picked; other lines are left out.
pub open spec fn rebase_entries(ls: Seq<Seq<char>>) -> Seq<RebaseCommitView>
    decreases ls.len(),
{
    if ls.len() == 0 {
        Seq::empty()
    } else {
        let prev = rebase_entries(ls.drop_last());
        let l = ls.last();
        let k = index_or_len(l, ' ');
        if k < l.len() {
            prev.push(RebaseCommitView { sha: l.take(k), action: "pick"@, message: l.skip(k + 1) })
        } else {
            prev
        }
    }
}

/// The views of a list of rebase entries.
pub open spec fn rebase_view(v: Seq<RebaseCommit>) -> Seq<RebaseCommitView> {
    v.map_values(|c: RebaseCommit| c@)
}

/// The rebase list of what `git log HEAD~15..HEAD --oneline --no-decorate`
/// printed.
pub fn rebase_todo(log: &str) -> (r: Vec<RebaseCommit>)
    ensures
        rebase_view(r@) == rebase_entries(lines(log@)),
{
    let cs = to_chars(log);
    let spans = line_spans(cs.as_slice());
    let ghost ls = lines(cs@);
    let mut out: Vec<RebaseCommit> = Vec::new();
    let mut i: usize = 0;
    proof { assert(ls.take(0) =~= Seq::<Seq<char>>::empty()); }
    while i < spans.len()
        invariant
            ls == lines(cs@),
            spans@.len() == ls.len(),
            forall|k: int| 0 <= k < spans@.len() ==> #[trigger] span_is(cs@, spans@[k], ls[k]),
            i <= spans@.len(),
            rebase_view(out@) == rebase_entries(ls.take(i as int)),
        decreases spans@.len() - i,
    {
        let sp = spans[i];
        let ghost l = ls[i as int];
        proof {
            assert(span_is(cs@, spans@[i as int], ls[i as int]));
            assert(ls.take(i + 1).drop_last() =~= ls.take(i as int));
            assert(ls.take(i + 1).last() == l);
        }
        let k = index_or_len_in(cs.as_slice(), ' ', sp.start, sp.end);
        if k < sp.end {
            proof {
                assert(l.take(k - sp.start) =~= cs@.subrange(sp.start as int, k as int));
                assert(l.skip(k - sp.start + 1) =~= cs@.subrange(k + 1, sp.end as int));
            }
            let c = RebaseCommit {
                sha: string_of_range(cs.as_slice(), sp.start, k),
                action: String::from_str("pick"),
                message: string_of_range(cs.as_slice(), k + 1, sp.end),
            };
            let ghost before = out@;
            out.push(c);
            proof { assert(rebase_view(out@) =~= rebase_view(before).push(c@)); }
        }
        i = i + 1;
    }
    proof { assert(ls.take(ls.len() as int) =~= ls); }
    out
}

/// The lines that `git log -<n> --oneline --no-decorate` printed.
pub fn recent_commits(log: &str) -> (r: Vec<String>)
    ensures
        strs_view(r@) == lines(log@),
{
    split_lines(log)
}


// ── GitHub contents ─────────────────────────────────────────────────────────

/// An entry of a GitHub repository listing (a file or a folder).
#[derive(Debug)]
pub struct RemoteFile {
    pub path: String,
    pub kind: String,
    pub size: Option<u64>,
    pub sha: String,
    pub url: String,
}

impl Clone for RemoteFile {
    fn clone(&self) -> (r: Self)
        ensures
            r == *self,
    {
        RemoteFile {
            path: self.path.clone(),
            kind: self.kind.clone(),
            size: self.size,
            sha: self.sha.clone(),
            url: self.url.clone(),
        }
    }
}

/// A repository of the signed-in user.
#[derive(Debug)]
pub struct RemoteRepoItem {
    pub name: String,
    pub full_name: String,
    pub html_url: String,
}

/// The contents API URL of `path` in `owner/repo` (the root when `path` is
/// empty).
pub open spec fn contents_url(owner: Seq<char>, repo: Seq<char>, path: Option<Seq<char>>) -> Seq<
    char,
> {
    let base = "https://api.github.com/repos/"@ + owner + "/"@ + repo + "/contents"@;
    match path {
        Some(p) => base + "/"@ + p,
        None => base,
    }
}

/// A request to GitHub's contents API.
#[derive(Debug)]
pub struct ContentsRequest {
    pub url: String,
    /// Ask for the file's raw bytes rather than a JSON listing.
    pub raw: bool,
}

fn contents_url_exec(owner: &str, repo: &str, path: Option<&str>) -> (r: String)
    ensures
        r@ == contents_url(
            owner@,
            repo@,
            match path {
                Some(p) => Some(p@),
                None => None,
            },
        ),
{
    let mut u = String::from_str("https://api.github.com/repos/");
    push_str(&mut u, owner);
    push_str(&mut u, "/");
    push_str(&mut u, repo);
    push_str(&mut u, "/contents");
    match path {
        Some(p) => {
            push_str(&mut u, "/");
            push_str(&mut u, p);
        },
        None => {},
    }
    u
}

/// The request that lists the root of `owner/repo`.
pub fn fetch_github_files(owner: &str, repo: &str) -> (r: ContentsRequest)
    ensures
        r.url@ == contents_url(owner@, repo@, None),
        !r.raw,
{
    ContentsRequest { url: contents_url_exec(owner, repo, None), raw: false }
}

/// The request that fetches one listed item: the raw content of a file, or
/// the listing of a folder (whose entries are fetched in turn).
pub fn download_github_item(owner: &str, repo: &str, item: &RemoteFile) -> (r: ContentsRequest)
    ensures
        r.url@ == contents_url(owner@, repo@, Some(item.path@)),
        r.raw == (item.kind@ == "file"@),
{
    let url = contents_url_exec(owner, repo, Some(item.path.as_str()));
    ContentsRequest { url, raw: str_eq(item.kind.as_str(), "file") }
}

/// The HTTPS URL of a GitHub repository.
pub open spec fn github_https_url(owner: Seq<char>, repo: Seq<char>) -> Seq<char> {
    "https://github.com/"@ + owner + "/"@ + repo + ".git"@
}

/// Points `origin` at the repository's HTTPS URL before a push with a
/// token: the URL, and `git remote set-url` when `origin` exists or
/// `git remote add` when it does not.
pub fn set_remote_and_push(owner: &str, repo_name: &str, has_remote: bool) -> (r: (
    String,
    GitCommand,
))
    ensures
        r.0@ == github_https_url(owner@, repo_name@),
        has_remote ==> args_view(r.1) == seq!["remote"@, "set-url"@, "origin"@, r.0@],
        !has_remote ==> args_view(r.1) == seq!["remote"@, "add"@, "origin"@, r.0@],
{
    let mut url = String::from_str("https://github.com/");
    push_str(&mut url, owner);
    push_str(&mut url, "/");
    push_str(&mut url, repo_name);
    push_str(&mut url, ".git");
    let us = url.as_str();
    let c = if has_remote {
        let c = command(&["remote", "set-url", "origin", us]);
        proof {
            assert(strs_of(seq!["remote", "set-url", "origin", us]) =~= seq![
                "remote"@,
                "set-url"@,
                "origin"@,
                url@,
            ]);
        }
        c
    } else {
        let c = command(&["remote", "add", "origin", us]);
        proof {
            assert(strs_of(seq!["remote", "add", "origin", us]) =~= seq![
                "remote"@,
                "add"@,
                "origin"@,
                url@,
            ]);
        }
        c
    };
    (url, c)
}

// ── Opening a repository ────────────────────────────────────────────────────

/// The last component of a path, as `Path::file_name` gives it.
pub uninterp spec fn path_file_name(p: Seq<char>) -> Option<Seq<char>>;

/// `Path::file_name`, converted to a `String`.
#[verifier::external_body]
fn file_name_of(p: &str) -> (r: Option<String>)
    ensures
        match r {
            Some(s) => path_file_name(p@) == Some(s@),
            None => path_file_name(p@) is None,
        },
{
    std::path::Path::new(p).file_name().map(|s| s.to_string_lossy().to_string())
}

/// The path without its last component, as `Path::parent` gives it.
pub uninterp spec fn path_parent(p: Seq<char>) -> Option<Seq<char>>;

/// `Path::parent`, converted to a `String`. The parent is a leading part of
/// the path, so it is shorter.
#[verifier::external_body]
fn parent_of(p: &str) -> (r: Option<String>)
    ensures
        match r {
            Some(s) => path_parent(p@) == Some(s@) && s@.len() < p@.len(),
            None => path_parent(p@) is None,
        },
{
    std::path::Path::new(p).parent().map(|s| s.to_string_lossy().to_string())
}

/// Whether `<p>/.git` exists on disk (`Path::exists`); the answer depends on
/// the file system, so nothing is stated of it.
#[verifier::external_body]
fn has_git_dir(p: &str) -> bool {
    std::path::Path::new(p).join(".git").exists()
}

/// The path reached from `p` by taking the parent `n` times.
pub open spec fn ancestor(p: Seq<char>, n: nat) -> Option<Seq<char>>
    decreases n,
{
    if n == 0 {
        Some(p)
    } else {
        match ancestor(p, (n - 1) as nat) {
            Some(q) => path_parent(q),
            None => None,
        }
    }
}

/// The chain of parents of `p` ends after `n` steps: its `n`-th ancestor
/// exists and has no parent.
pub open spec fn chain_ends_at(p: Seq<char>, n: nat) -> bool {
    ancestor(p, n) matches Some(q) && path_parent(q) is None
}

/// The error text for a path with no repository above it.
pub open spec fn not_a_repo_text(p: Seq<char>) -> Seq<char> {
    "Not a git repository: "@ + p
}

impl GitRepo {
    /// The repository's name: the last component of its root, or `repo`.
    pub fn repo_name(&self) -> (r: String)
        ensures
            r@ == match path_file_name(self.root@) {
                Some(n) => n,
                None => "repo"@,
            },
    {
        match file_name_of(self.root.as_str()) {
            Some(n) => n,
            None => String::from_str("repo"),
        }
    }

    /// The repository that holds `path`: the nearest of `path` and its
    /// ancestors that has a `.git` entry. The folders are asked about, on the
    /// disk, from `path` upward, one `open_step` at a time; an error comes
    /// only once the chain of parents has ended.
    pub fn open(path: &str) -> (r: Result<GitRepo, String>)
        ensures
            match r {
                Ok(repo) => exists|n: nat| ancestor(path@, n) == Some(repo.root@),
                Err(e) => e@ == not_a_repo_text(path@)
                    && exists|n: nat| #[trigger] chain_ends_at(path@, n),
            },
    {
        let mut current = String::from_str(path);
        let ghost mut steps: nat = 0;
        loop
            invariant
                ancestor(path@, steps) == Some(current@),
            decreases current@.len(),
        {
            let found = has_git_dir(current.as_str());
            match open_step(current.as_str(), found) {
                OpenStep::Found(root) => {
                    return Ok(GitRepo { root });
                },
                OpenStep::Up(p) => {
                    proof {
                        steps = steps + 1;
                        assert(ancestor(path@, steps) == path_parent(current@));
                    }
                    current = p;
                },
                OpenStep::NotFound => {
                    proof {
                        assert(chain_ends_at(path@, steps));
                    }
                    let mut e = String::from_str("Not a git repository: ");
                    push_str(&mut e, path);
                    return Err(e);
                },
            }
        }
    }
}

/// One step of the walk up from a folder in search of a repository.
#[derive(Debug)]
pub enum OpenStep {
    /// The folder has `.git`: it is the repository's root.
    Found(String),
    /// It has none: go on with its parent.
    Up(String),
    /// It has none and no parent: there is no repository.
    NotFound,
}

/// What the walk does at folder `current`, given whether it has `.git`:
/// stop there when it has, else go up to its parent, else give up.
pub fn open_step(current: &str, has_git: bool) -> (r: OpenStep)
    ensures
        has_git ==> (r matches OpenStep::Found(s) && s@ == current@),
        !has_git ==> match path_parent(current@) {
            Some(q) => r matches OpenStep::Up(s) && s@ == q && s@.len() < current@.len(),
            None => r is NotFound,
        },
{
    if has_git {
        OpenStep::Found(String::from_str(current))
    } else {
        match parent_of(current) {
            Some(p) => OpenStep::Up(p),
            None => OpenStep::NotFound,
        }
    }
}

/// What opening a folder comes to: an existing repository opened (or the
/// error of opening it), or a folder without `.git` that needs `git init`.
#[derive(Debug)]
pub enum OpenOrInit {
    Opened(Result<GitRepo, String>),
    NeedsInit,
}

impl GitRepo {
    /// Opens the folder `path` as a repository when it has `.git` (as
    /// `has_git` says), else reports that it needs `git init`.
    pub fn open_or_init_with(path: &str, has_git: bool) -> (r: OpenOrInit)
        ensures
            has_git ==> (r matches OpenOrInit::Opened(Ok(repo)) && repo.root@ == path@),
            !has_git ==> r is NeedsInit,
    {
        match open_step(path, has_git) {
            OpenStep::Found(root) => OpenOrInit::Opened(Ok(GitRepo { root })),
            _ => OpenOrInit::NeedsInit,
        }
    }

    /// Opens the repository of a folder that has `.git`, or reports that
    /// the folder needs `git init`: whether it has `.git` is read from the
    /// disk once (`has_git_dir`) and handed to `open_or_init_with`. An
    /// opened repository is rooted at `path` itself, so an existing one is
    /// never initialized again.
    pub fn open_or_init(path: &str) -> (r: OpenOrInit)
        ensures
            r is NeedsInit || (r matches OpenOrInit::Opened(Ok(repo)) && repo.root@ == path@),
    {
        let has_git = has_git_dir(path);
        Self::open_or_init_with(path, has_git)
    }
}


/// A file counts as staged exactly when its marker is `[✓]`.
pub proof fn lemma_staged_marker(s: FileStatus)
    ensures
        staged(s) <==> indicator_text(s) == "[✓]"@,
{
    reveal_strlit("[✓]");
    reveal_strlit("[M]");
    reveal_strlit("[U]");
    reveal_strlit("[D]");
    reveal_strlit("[R]");
    reveal_strlit("[ ]");
    assert("[✓]"@[1] == '✓');
    assert("[M]"@[1] != "[✓]"@[1]);
    assert("[U]"@[1] != "[✓]"@[1]);
    assert("[D]"@[1] != "[✓]"@[1]);
    assert("[R]"@[1] != "[✓]"@[1]);
    assert("[ ]"@[1] != "[✓]"@[1]);
}

} // verus!
