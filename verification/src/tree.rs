//! The collapsible folder trees of file lists: which folders sit directly
//! under a folder, how many files each holds, and the flat list of rows that
//! the expanded folders show.
use vstd::prelude::*;
use crate::git::GitFile;
use crate::text::{
    index_or_len, index_or_len_in, lemma_index_or_len_bounds, occurs_at_exec, push_seq_range,
    push_str, starts_with, string_of_range, to_chars,
};

verus! {

// ── Where a path sits relative to a folder ──────────────────────────────────

/// The part of `p` below the folder `parent` (all of `p` for the root,
/// written as the empty folder).
pub open spec fn child_rel(p: Seq<char>, parent: Seq<char>) -> Option<Seq<char>> {
    if parent.len() == 0 {
        Some(p)
    } else if starts_with(p, parent + "/"@) {
        Some(p.skip((parent.len() + 1) as int))
    } else {
        None
    }
}

/// The folder directly below `parent` that holds `p`, if `p` lies deeper.
pub open spec fn child_dir(p: Seq<char>, parent: Seq<char>) -> Option<Seq<char>> {
    match child_rel(p, parent) {
        Some(rel) => {
            let k = index_or_len(rel, '/');
            if k < rel.len() {
                Some(
                    if parent.len() == 0 {
                        rel.take(k)
                    } else {
                        parent + "/"@ + rel.take(k)
                    },
                )
            } else {
                None
            }
        },
        None => None,
    }
}

/// `p` is a file directly in `parent`.
pub open spec fn is_direct(p: Seq<char>, parent: Seq<char>) -> bool {
    child_rel(p, parent) is Some && child_dir(p, parent) is None
}

/// Lexicographic order on character sequences (the order of `String`).
pub open spec fn seq_less(a: Seq<char>, b: Seq<char>) -> bool
    decreases a.len(),
{
    if a.len() == 0 {
        b.len() > 0
    } else if b.len() == 0 {
        false
    } else if (a[0] as u32) < (b[0] as u32) {
        true
    } else if a[0] == b[0] {
        seq_less(a.drop_first(), b.drop_first())
    } else {
        false
    }
}

/// A row of a folder table: the folder, how many files lie below it, and
/// their summed weight.
pub struct DirRow {
    pub dir: Seq<char>,
    pub count: nat,
    pub weight: nat,
}

/// Adds one file of weight `w` below the folder `d` to a table kept in
/// lexicographic order of folders.
pub open spec fn table_add(t: Seq<DirRow>, d: Seq<char>, w: nat) -> Seq<DirRow>
    decreases t.len(),
{
    if t.len() == 0 {
        seq![DirRow { dir: d, count: 1, weight: w }]
    } else if t[0].dir == d {
        t.update(0, DirRow { dir: d, count: t[0].count + 1, weight: t[0].weight + w })
    } else if seq_less(d, t[0].dir) {
        seq![DirRow { dir: d, count: 1, weight: w }] + t
    } else {
        seq![t[0]] + table_add(t.drop_first(), d, w)
    }
}

/// The folders directly below `parent` that hold the paths, in order, each
/// with its number of files and their summed weight.
pub open spec fn dir_table(paths: Seq<Seq<char>>, ws: Seq<nat>, parent: Seq<char>) -> Seq<DirRow>
    decreases paths.len(),
{
    if paths.len() == 0 {
        Seq::empty()
    } else {
        let t = dir_table(paths.drop_last(), ws.drop_last(), parent);
        match child_dir(paths.last(), parent) {
            Some(d) => table_add(t, d, ws.last()),
            None => t,
        }
    }
}

/// The positions of the files directly in `parent`, in order.
pub open spec fn direct_indices(paths: Seq<Seq<char>>, parent: Seq<char>) -> Seq<int>
    decreases paths.len(),
{
    if paths.len() == 0 {
        Seq::empty()
    } else {
        let prev = direct_indices(paths.drop_last(), parent);
        if is_direct(paths.last(), parent) {
            prev.push(paths.len() - 1)
        } else {
            prev
        }
    }
}


/// Where a path sits relative to a folder.
pub enum Place {
    /// Not below the folder.
    Outside,
    /// Directly in the folder.
    Direct,
    /// Below the folder, inside the child folder made of the path's first
    /// `end` characters.
    InDir { end: usize },
}

/// Where `p` sits relative to `parent`.
pub fn place_of(p: &[char], parent: &[char]) -> (r: Place)
    ensures
        match child_rel(p@, parent@) {
            None => r is Outside,
            Some(_) => match child_dir(p@, parent@) {
                None => r is Direct,
                Some(d) => r matches Place::InDir { end } && end <= p@.len() && d == p@.take(
                    end as int,
                ) && (parent@.len() > 0 ==> parent@.len() < end),
            },
        },
{
    let start: usize;
    if parent.len() == 0 {
        start = 0;
        proof { assert(p@.skip(0) =~= p@); }
    } else {
        if parent.len() >= p.len() {
            proof {
                reveal_strlit("/");
                assert(!starts_with(p@, parent@ + "/"@));
            }
            return Place::Outside;
        }
        let pre = occurs_at_exec(p, parent, 0);
        let slash = p[parent.len()] == '/';
        proof {
            reveal_strlit("/");
            let q = parent@ + "/"@;
            if pre && slash {
                assert(p@.subrange(0, q.len() as int) =~= q);
            } else {
                if starts_with(p@, q) {
                    assert(p@.subrange(0, parent@.len() as int) =~= p@.subrange(0, q.len() as int).subrange(0, parent@.len() as int));
                    assert(p@.subrange(0, parent@.len() as int) =~= parent@);
                    assert(p@[parent@.len() as int] == p@.subrange(0, q.len() as int)[parent@.len() as int]);
                }
            }
        }
        if !(pre && slash) {
            return Place::Outside;
        }
        start = parent.len() + 1;
    }
    let ghost rel = p@.skip(start as int);
    proof {
        assert(child_rel(p@, parent@) == Some(rel));
        assert(rel =~= p@.subrange(start as int, p@.len() as int));
    }
    let k = index_or_len_in(p, '/', start, p.len());
    if k == p.len() {
        return Place::Direct;
    }
    proof {
        assert(rel.take(k - start) =~= p@.subrange(start as int, k as int));
        if parent@.len() == 0 {
            assert(p@.take(k as int) =~= rel.take(k - start));
        } else {
            assert(p@.take(k as int) =~= parent@ + "/"@ + rel.take(k - start)) by {
                reveal_strlit("/");
                assert(p@.subrange(0, parent@.len() as int) =~= parent@);
            }
        }
    }
    Place::InDir { end: k }
}


/// Lexicographic comparison of two character slices.
pub fn less_exec(a: &[char], b: &[char]) -> (r: bool)
    ensures
        r == seq_less(a@, b@),
{
    let mut i: usize = 0;
    proof {
        assert(a@.skip(0) =~= a@);
        assert(b@.skip(0) =~= b@);
    }
    while i < a.len() && i < b.len()
        invariant
            i <= a@.len(),
            i <= b@.len(),
            forall|j: int| 0 <= j < i ==> a@[j] == b@[j],
            seq_less(a@, b@) == seq_less(a@.skip(i as int), b@.skip(i as int)),
        decreases a@.len() - i,
    {
        let x = a[i];
        let y = b[i];
        proof {
            assert(a@.skip(i as int)[0] == x);
            assert(b@.skip(i as int)[0] == y);
            assert(a@.skip(i as int).drop_first() =~= a@.skip(i + 1));
            assert(b@.skip(i as int).drop_first() =~= b@.skip(i + 1));
        }
        if (x as u32) < (y as u32) {
            return true;
        }
        if x != y {
            return false;
        }
        i = i + 1;
    }
    proof {
        if i == a@.len() {
            assert(a@.skip(i as int).len() == 0);
        } else {
            assert(b@.skip(i as int).len() == 0);
        }
    }
    i == a.len() && i < b.len()
}

/// A row of a folder table, in executable form.
pub struct DirEntry {
    pub dir: String,
    pub count: usize,
    pub weight: u64,
}

/// The rows of a table as plain values.
pub open spec fn rows_view(v: Seq<DirEntry>) -> Seq<DirRow> {
    v.map_values(|e: DirEntry| DirRow { dir: e.dir@, count: e.count as nat, weight: e.weight as nat })
}

pub proof fn lemma_table_add_skip(t: Seq<DirRow>, d: Seq<char>, w: nat, i: int)
    requires
        0 <= i <= t.len(),
        forall|j: int| 0 <= j < i ==> t[j].dir != d && !seq_less(d, #[trigger] t[j].dir),
    ensures
        table_add(t, d, w) == t.take(i) + table_add(t.skip(i), d, w),
    decreases i,
{
    if i == 0 {
        assert(t.skip(0) =~= t);
        assert(t.take(0) + table_add(t, d, w) =~= table_add(t, d, w));
    } else {
        assert(t[0].dir != d && !seq_less(d, t[0].dir));
        lemma_table_add_skip(t.drop_first(), d, w, i - 1);
        assert(t.drop_first().skip(i - 1) =~= t.skip(i));
        assert(seq![t[0]] + t.drop_first().take(i - 1) =~= t.take(i));
    }
}

/// Every row holds at most `n` files weighing at most `m` in all.
pub open spec fn rows_bounded(t: Seq<DirRow>, n: nat, m: nat) -> bool {
    forall|j: int| 0 <= j < t.len() ==> #[trigger] t[j].count <= n && t[j].weight <= m
}

pub proof fn lemma_table_add_bounded(t: Seq<DirRow>, d: Seq<char>, w: nat, n: nat, m: nat)
    requires
        rows_bounded(t, n, m),
    ensures
        rows_bounded(table_add(t, d, w), n + 1, m + w),
    decreases t.len(),
{
    if t.len() > 0 && t[0].dir != d && !seq_less(d, t[0].dir) {
        lemma_table_add_bounded(t.drop_first(), d, w, n, m);
        let r = table_add(t, d, w);
        assert forall|j: int| 0 <= j < r.len() implies #[trigger] r[j].count <= n + 1 && r[j].weight
            <= m + w by {
            if j > 0 {
                assert(r[j] == table_add(t.drop_first(), d, w)[j - 1]);
            }
        }
    } else if t.len() > 0 && t[0].dir != d {
        let r = table_add(t, d, w);
        assert forall|j: int| 0 <= j < r.len() implies #[trigger] r[j].count <= n + 1 && r[j].weight
            <= m + w by {
            if j > 0 {
                assert(r[j] == t[j - 1]);
            }
        }
    }
}

/// Adds a file of weight `w` below the folder `p[..end]` to the table.
pub fn table_add_exec(t: &mut Vec<DirEntry>, p: &[char], end: usize, w: u64, n: Ghost<nat>, m: Ghost<nat>)
    requires
        end <= p@.len(),
        rows_bounded(rows_view(old(t)@), n@, m@),
        n@ + 1 <= usize::MAX,
        m@ + w <= u64::MAX,
    ensures
        rows_view(final(t)@) == table_add(rows_view(old(t)@), p@.take(end as int), w as nat),
        rows_bounded(rows_view(final(t)@), n@ + 1, m@ + w as nat),
{
    let ghost d = p@.take(end as int);
    let ghost t0 = rows_view(t@);
    proof { lemma_table_add_bounded(t0, d, w as nat, n@, m@); }
    let dv = slice_prefix(p, end);
    let mut i: usize = 0;
    while i < t.len() && !row_stops(t, i, dv.as_slice())
        invariant
            i <= t@.len(),
            t0 == rows_view(t@),
            dv@ == d,
            forall|j: int| 0 <= j < i ==> t0[j].dir != d && !seq_less(d, #[trigger] t0[j].dir),
        decreases t@.len() - i,
    {
        i = i + 1;
    }
    proof {
        lemma_table_add_skip(t0, d, w as nat, i as int);
    }
    if i == t.len() {
        let dir = crate::text::from_chars(dv.as_slice());
        t.push(DirEntry { dir, count: 1, weight: w });
        proof {
            assert(t0.skip(i as int).len() == 0);
            assert(rows_view(t@) =~= t0.take(i as int) + seq![DirRow { dir: d, count: 1, weight: w as nat }]);
        }
        return;
    }
    let cur = to_chars(t[i].dir.as_str());
    let eq = crate::text::seq_eq(cur.as_slice(), dv.as_slice());
    proof {
        assert(t0[i as int].dir == d || seq_less(d, t0[i as int].dir));
        assert(t0.skip(i as int)[0] == t0[i as int]);
        assert(t0.skip(i as int).drop_first() =~= t0.skip(i + 1));
        assert(t0[i as int].count <= n@);
    }
    if eq {
        let c = t[i].count;
        let wt = t[i].weight;
        let dir = crate::text::from_chars(dv.as_slice());
        t.set(i, DirEntry { dir, count: c + 1, weight: wt + w });
        proof {
            assert(rows_view(t@) =~= t0.take(i as int) + t0.skip(i as int).update(
                0,
                DirRow { dir: d, count: t0[i as int].count + 1, weight: t0[i as int].weight + w as nat },
            ));
        }
    } else {
        let dir = crate::text::from_chars(dv.as_slice());
        t.insert(i, DirEntry { dir, count: 1, weight: w });
        proof {
            assert(rows_view(t@) =~= t0.take(i as int) + (seq![DirRow { dir: d, count: 1, weight: w as nat }] + t0.skip(i as int)));
        }
    }
}

/// Whether the row at `i` holds `d` or a folder after it.
fn row_stops(t: &Vec<DirEntry>, i: usize, d: &[char]) -> (r: bool)
    requires
        i < t@.len(),
    ensures
        r == (t@[i as int].dir@ == d@ || seq_less(d@, t@[i as int].dir@)),
{
    let cur = to_chars(t[i].dir.as_str());
    crate::text::seq_eq(cur.as_slice(), d) || less_exec(d, cur.as_slice())
}

/// The first `end` characters of `p`.
pub fn slice_prefix(p: &[char], end: usize) -> (r: Vec<char>)
    requires
        end <= p@.len(),
    ensures
        r@ == p@.take(end as int),
{
    let mut v: Vec<char> = Vec::new();
    let mut i: usize = 0;
    while i < end
        invariant
            i <= end <= p@.len(),
            v@ == p@.take(i as int),
        decreases end - i,
    {
        v.push(p[i]);
        proof { assert(p@.take(i + 1) =~= p@.take(i as int).push(p@[i as int])); }
        i = i + 1;
    }
    v
}


// ── Tables of executable paths ──────────────────────────────────────────────

/// The views of a list of character vectors.
pub open spec fn chars_view(v: Seq<Vec<char>>) -> Seq<Seq<char>> {
    v.map_values(|c: Vec<char>| c@)
}

/// The longest of the paths.
pub open spec fn max_len(paths: Seq<Seq<char>>) -> nat
    decreases paths.len(),
{
    if paths.len() == 0 {
        0
    } else {
        let m = max_len(paths.drop_last());
        if paths.last().len() > m {
            paths.last().len()
        } else {
            m
        }
    }
}

pub proof fn lemma_max_len(paths: Seq<Seq<char>>)
    ensures
        forall|i: int| 0 <= i < paths.len() ==> #[trigger] paths[i].len() <= max_len(paths),
    decreases paths.len(),
{
    if paths.len() > 0 {
        lemma_max_len(paths.drop_last());
        assert forall|i: int| 0 <= i < paths.len() implies #[trigger] paths[i].len() <= max_len(
            paths,
        ) by {
            if i < paths.len() - 1 {
                assert(paths[i] == paths.drop_last()[i]);
            }
        }
    }
}

/// A folder that can be a child of `parent` among the paths: no longer than
/// the longest path, and longer than a non-root parent.
pub open spec fn dir_ok(paths: Seq<Seq<char>>, parent: Seq<char>, d: Seq<char>) -> bool {
    d.len() <= max_len(paths) && (parent.len() > 0 ==> parent.len() < d.len())
}

/// Every row of the table is a folder that can be a child of `parent`.
pub open spec fn table_ok(paths: Seq<Seq<char>>, parent: Seq<char>, t: Seq<DirRow>) -> bool {
    forall|j: int| 0 <= j < t.len() ==> #[trigger] dir_ok(paths, parent, t[j].dir)
}

pub proof fn lemma_table_add_ok(paths: Seq<Seq<char>>, parent: Seq<char>, t: Seq<DirRow>, d: Seq<char>, w: nat)
    requires
        table_ok(paths, parent, t),
        dir_ok(paths, parent, d),
    ensures
        table_ok(paths, parent, table_add(t, d, w)),
    decreases t.len(),
{
    let r = table_add(t, d, w);
    if t.len() > 0 && t[0].dir != d && !seq_less(d, t[0].dir) {
        lemma_table_add_ok(paths, parent, t.drop_first(), d, w);
        assert forall|j: int| 0 <= j < r.len() implies #[trigger] dir_ok(paths, parent, r[j].dir) by {
            if j > 0 {
                assert(r[j] == table_add(t.drop_first(), d, w)[j - 1]);
            } else {
                assert(r[0] == t[0]);
            }
        }
    } else if t.len() > 0 && t[0].dir != d {
        assert forall|j: int| 0 <= j < r.len() implies #[trigger] dir_ok(paths, parent, r[j].dir) by {
            if j > 0 {
                assert(r[j] == t[j - 1]);
            }
        }
    } else if t.len() > 0 {
        assert forall|j: int| 0 <= j < r.len() implies #[trigger] dir_ok(paths, parent, r[j].dir) by {
            if j > 0 {
                assert(r[j] == t[j]);
            }
        }
    }
}

proof fn lemma_table_add_len(t: Seq<DirRow>, d: Seq<char>, w: nat)
    ensures
        table_add(t, d, w).len() <= t.len() + 1,
    decreases t.len(),
{
    if t.len() > 0 && t[0].dir != d && !seq_less(d, t[0].dir) {
        lemma_table_add_len(t.drop_first(), d, w);
    }
}

/// The summed weights.
pub open spec fn wsum(ws: Seq<nat>) -> nat
    decreases ws.len(),
{
    if ws.len() == 0 {
        0
    } else {
        wsum(ws.drop_last()) + ws.last()
    }
}

pub proof fn lemma_wsum_prefix(ws: Seq<nat>, i: int)
    requires
        0 <= i <= ws.len(),
    ensures
        wsum(ws.take(i)) <= wsum(ws),
    decreases ws.len() - i,
{
    if i < ws.len() {
        lemma_wsum_prefix(ws.drop_last(), i);
        assert(ws.drop_last().take(i) =~= ws.take(i));
    } else {
        assert(ws.take(i) =~= ws);
    }
}

/// The weights as plain numbers.
pub open spec fn weights(ws: Seq<u64>) -> Seq<nat> {
    ws.map_values(|w: u64| w as nat)
}

/// The folder table of the paths below `parent` (see `dir_table`) and the
/// positions of the files directly in it.
pub fn dir_table_exec(paths: &Vec<Vec<char>>, ws: &[u64], parent: &[char]) -> (r: (Vec<DirEntry>, Vec<usize>))
    requires
        ws@.len() == paths@.len(),
        wsum(weights(ws@)) <= u64::MAX,
    ensures
        rows_view(r.0@) == dir_table(chars_view(paths@), weights(ws@), parent@),
        table_ok(chars_view(paths@), parent@, rows_view(r.0@)),
        r.1@.map_values(|i: usize| i as int) == direct_indices(chars_view(paths@), parent@),
        forall|j: int| 0 <= j < r.1@.len() ==> #[trigger] r.1@[j] < paths@.len(),
        r.0@.len() + r.1@.len() <= paths@.len(),
{
    let ghost ps = chars_view(paths@);
    let ghost wv = weights(ws@);
    let mut t: Vec<DirEntry> = Vec::new();
    let mut direct: Vec<usize> = Vec::new();
    let mut i: usize = 0;
    proof {
        lemma_max_len(ps);
        assert(ps.take(0) =~= Seq::<Seq<char>>::empty());
        assert(wv.take(0) =~= Seq::<nat>::empty());
    }
    while i < paths.len()
        invariant
            i <= paths@.len(),
            ws@.len() == paths@.len(),
            wsum(wv) <= u64::MAX,
            ps == chars_view(paths@),
            wv == weights(ws@),
            forall|k: int| 0 <= k < ps.len() ==> #[trigger] ps[k].len() <= max_len(ps),
            rows_view(t@) == dir_table(ps.take(i as int), wv.take(i as int), parent@),
            rows_bounded(rows_view(t@), i as nat, wsum(wv.take(i as int))),
            table_ok(ps, parent@, rows_view(t@)),
            direct@.map_values(|k: usize| k as int) == direct_indices(ps.take(i as int), parent@),
            forall|j: int| 0 <= j < direct@.len() ==> #[trigger] direct@[j] < i,
            t@.len() + direct@.len() <= i,
        decreases paths@.len() - i,
    {
        let p = paths[i].as_slice();
        let w = ws[i];
        proof {
            assert(ps.take(i + 1).drop_last() =~= ps.take(i as int));
            assert(wv.take(i + 1).drop_last() =~= wv.take(i as int));
            assert(ps.take(i + 1).last() == p@);
            assert(wv.take(i + 1).last() == w as nat);
            assert(ps[i as int].len() <= max_len(ps));
            lemma_wsum_prefix(wv, i + 1);
            assert(wsum(wv.take(i + 1)) == wsum(wv.take(i as int)) + w);
            assert forall|j: int| 0 <= j < rows_view(t@).len() implies #[trigger] rows_view(t@)[j].count
                <= (i + 1) as nat && rows_view(t@)[j].weight <= wsum(wv.take(i + 1)) by {
                assert(rows_view(t@)[j].count <= i as nat);
            }
        }
        match place_of(p, parent) {
            Place::Outside => {},
            Place::Direct => {
                let ghost before = direct@;
                direct.push(i);
                proof {
                    assert(direct@.map_values(|k: usize| k as int) =~= before.map_values(
                        |k: usize| k as int,
                    ).push(i as int));
                }
            },
            Place::InDir { end } => {
                proof {
                    lemma_table_add_ok(ps, parent@, rows_view(t@), p@.take(end as int), w as nat);
                    lemma_table_add_len(rows_view(t@), p@.take(end as int), w as nat);
                }
                table_add_exec(&mut t, p, end, w, Ghost(i as nat), Ghost(wsum(wv.take(i as int))));
            },
        }
        i = i + 1;
    }
    proof {
        assert(ps.take(ps.len() as int) =~= ps);
        assert(wv.take(wv.len() as int) =~= wv);
    }
    (t, direct)
}

// ── Rows of the repository tree ─────────────────────────────────────────────

/// A row of the repository view's tree.
#[derive(Debug)]
pub enum DisplayItem {
    /// A folder: its full path, how many entries (files and folders) lie
    /// directly in it, whether it is open, and how deep it is nested.
    FolderHeader { path: String, count: usize, expanded: bool, depth: usize },
    /// A file: its position in the file list and how deep it is nested.
    FileEntry { file_idx: usize, depth: usize },
}

/// A tree row as plain values.
pub enum ItemView {
    Folder { path: Seq<char>, count: nat, expanded: bool, depth: nat },
    File { idx: nat, depth: nat },
}

impl View for DisplayItem {
    type V = ItemView;

    open spec fn view(&self) -> ItemView {
        match self {
            DisplayItem::FolderHeader { path, count, expanded, depth } => ItemView::Folder {
                path: path@,
                count: *count as nat,
                expanded: *expanded,
                depth: *depth as nat,
            },
            DisplayItem::FileEntry { file_idx, depth } => ItemView::File {
                idx: *file_idx as nat,
                depth: *depth as nat,
            },
        }
    }
}

impl Clone for DisplayItem {
    fn clone(&self) -> (r: Self)
        ensures
            r == *self,
    {
        match self {
            DisplayItem::FolderHeader { path, count, expanded, depth } => DisplayItem::FolderHeader {
                path: path.clone(),
                count: *count,
                expanded: *expanded,
                depth: *depth,
            },
            DisplayItem::FileEntry { file_idx, depth } => DisplayItem::FileEntry {
                file_idx: *file_idx,
                depth: *depth,
            },
        }
    }
}

impl DisplayItem {
    /// The file position of a file row.
    pub fn file_idx(&self) -> (r: Option<usize>)
        ensures
            r == match self {
                DisplayItem::FileEntry { file_idx, .. } => Some(*file_idx),
                _ => None,
            },
    {
        match self {
            DisplayItem::FileEntry { file_idx, .. } => Some(*file_idx),
            _ => None,
        }
    }
}

/// The views of a list of rows.
pub open spec fn items_view(v: Seq<DisplayItem>) -> Seq<ItemView> {
    v.map_values(|i: DisplayItem| i@)
}

/// How many more levels the paths allow below `parent`.
pub open spec fn budget(paths: Seq<Seq<char>>, parent: Seq<char>) -> nat {
    if parent.len() <= max_len(paths) {
        (max_len(paths) - parent.len()) as nat
    } else {
        0
    }
}

/// Zero weight for every path.
pub open spec fn zeros(n: nat) -> Seq<nat> {
    Seq::new(n, |i: int| 0nat)
}

/// How many entries lie directly in the folder `d`: its files and its
/// child folders.
pub open spec fn child_count(paths: Seq<Seq<char>>, d: Seq<char>) -> nat {
    dir_table(paths, zeros(paths.len()), d).len() + direct_indices(paths, d).len()
}

/// The rows that the folder `parent` shows at nesting `depth`: each child
/// folder (in order) followed, when it is open, by its own rows; then the
/// files directly in it.
pub open spec fn level_items(paths: Seq<Seq<char>>, exp: Seq<Seq<char>>, parent: Seq<char>, depth: nat) -> Seq<ItemView>
    decreases budget(paths, parent), dir_table(paths, zeros(paths.len()), parent).len() + 1,
{
    folder_items(paths, exp, parent, dir_table(paths, zeros(paths.len()), parent), depth)
        + direct_indices(paths, parent).map_values(|i: int| ItemView::File { idx: i as nat, depth })
}

/// The rows of the folders of a table, each followed by its rows when open.
pub open spec fn folder_items(paths: Seq<Seq<char>>, exp: Seq<Seq<char>>, parent: Seq<char>, t: Seq<DirRow>, depth: nat) -> Seq<ItemView>
    decreases budget(paths, parent), t.len(),
{
    if t.len() == 0 {
        Seq::empty()
    } else {
        let d = t[0].dir;
        let open = exp.contains(d);
        let head = ItemView::Folder { path: d, count: child_count(paths, d), expanded: open, depth };
        let sub = if open && dir_ok(paths, parent, d) && d.len() > parent.len() {
            level_items(paths, exp, d, depth + 1)
        } else {
            Seq::empty()
        };
        seq![head] + sub + folder_items(paths, exp, parent, t.drop_first(), depth)
    }
}

// ── Opening and closing one folder ──────────────────────────────────────────

/// The row is the header of folder `p`.
pub open spec fn is_header_of(r: ItemView, p: Seq<char>) -> bool {
    r matches ItemView::Folder { path, .. } && path == p
}

/// The row with its folder's open mark turned over (a file row as it is).
pub open spec fn flipped(r: ItemView) -> ItemView {
    match r {
        ItemView::Folder { path, count, expanded, depth } => ItemView::Folder { path, count, expanded: !expanded, depth },
        ItemView::File { idx, depth } => ItemView::File { idx, depth },
    }
}

/// The lists of open folders agree on every folder but `p`.
pub open spec fn agree_but(a: Seq<Seq<char>>, b: Seq<Seq<char>>, p: Seq<char>) -> bool {
    forall|d: Seq<char>| d != p ==> a.contains(d) == b.contains(d)
}

/// No row of `rows` is the header of `p`.
pub open spec fn no_header_of(rows: Seq<ItemView>, p: Seq<char>) -> bool {
    forall|j: int| 0 <= j < rows.len() ==> !is_header_of(#[trigger] rows[j], p)
}

/// The rows depend on the open folders only through which folders are
/// open: two lists that hold the same folders give the same rows.
pub proof fn lemma_level_same_open(paths: Seq<Seq<char>>, exp: Seq<Seq<char>>, exp2: Seq<Seq<char>>, parent: Seq<char>, depth: nat)
    requires
        forall|d: Seq<char>| exp.contains(d) == exp2.contains(d),
    ensures
        level_items(paths, exp2, parent, depth) == level_items(paths, exp, parent, depth),
    decreases budget(paths, parent), dir_table(paths, zeros(paths.len()), parent).len() + 1,
{
    lemma_folders_same_open(paths, exp, exp2, parent, dir_table(paths, zeros(paths.len()), parent), depth);
}

proof fn lemma_folders_same_open(paths: Seq<Seq<char>>, exp: Seq<Seq<char>>, exp2: Seq<Seq<char>>, parent: Seq<char>, t: Seq<DirRow>, depth: nat)
    requires
        forall|d: Seq<char>| exp.contains(d) == exp2.contains(d),
    ensures
        folder_items(paths, exp2, parent, t, depth) == folder_items(paths, exp, parent, t, depth),
    decreases budget(paths, parent), t.len(),
{
    if t.len() > 0 {
        let d = t[0].dir;
        assert(exp.contains(d) == exp2.contains(d));
        if exp.contains(d) && dir_ok(paths, parent, d) && d.len() > parent.len() {
            lemma_level_same_open(paths, exp, exp2, d, depth + 1);
        }
        lemma_folders_same_open(paths, exp, exp2, parent, t.drop_first(), depth);
    }
}

proof fn lemma_level_same(paths: Seq<Seq<char>>, exp: Seq<Seq<char>>, exp2: Seq<Seq<char>>, p: Seq<char>, parent: Seq<char>, depth: nat)
    requires
        agree_but(exp, exp2, p),
        no_header_of(level_items(paths, exp, parent, depth), p),
    ensures
        level_items(paths, exp2, parent, depth) == level_items(paths, exp, parent, depth),
    decreases budget(paths, parent), dir_table(paths, zeros(paths.len()), parent).len() + 1,
{
    let t = dir_table(paths, zeros(paths.len()), parent);
    let fa = folder_items(paths, exp, parent, t, depth);
    let a = level_items(paths, exp, parent, depth);
    assert forall|j: int| 0 <= j < fa.len() implies !is_header_of(#[trigger] fa[j], p) by {
        assert(a[j] == fa[j]);
    }
    lemma_folders_same(paths, exp, exp2, p, parent, t, depth);
}

proof fn lemma_folders_same(paths: Seq<Seq<char>>, exp: Seq<Seq<char>>, exp2: Seq<Seq<char>>, p: Seq<char>, parent: Seq<char>, t: Seq<DirRow>, depth: nat)
    requires
        agree_but(exp, exp2, p),
        no_header_of(folder_items(paths, exp, parent, t, depth), p),
    ensures
        folder_items(paths, exp2, parent, t, depth) == folder_items(paths, exp, parent, t, depth),
    decreases budget(paths, parent), t.len(),
{
    if t.len() > 0 {
        let d = t[0].dir;
        let a = folder_items(paths, exp, parent, t, depth);
        assert(!is_header_of(a[0], p));
        assert(d != p);
        assert(exp.contains(d) == exp2.contains(d));
        let open = exp.contains(d);
        let head = ItemView::Folder { path: d, count: child_count(paths, d), expanded: open, depth };
        let sub = if open && dir_ok(paths, parent, d) && d.len() > parent.len() {
            level_items(paths, exp, d, depth + 1)
        } else {
            Seq::empty()
        };
        let rest = folder_items(paths, exp, parent, t.drop_first(), depth);
        assert(a == seq![head] + sub + rest);
        if open && dir_ok(paths, parent, d) && d.len() > parent.len() {
            assert forall|j: int| 0 <= j < sub.len() implies !is_header_of(#[trigger] sub[j], p) by {
                assert(a[1 + j] == sub[j]);
            }
            lemma_level_same(paths, exp, exp2, p, d, depth + 1);
        }
        assert forall|j: int| 0 <= j < rest.len() implies !is_header_of(#[trigger] rest[j], p) by {
            assert(a[1 + sub.len() + j] == rest[j]);
        }
        lemma_folders_same(paths, exp, exp2, p, parent, t.drop_first(), depth);
    }
}

/// Turning folder `p` open or closed leaves the rows before its header as
/// they were and its header where it was, with the open mark turned over.
pub proof fn lemma_level_toggle(paths: Seq<Seq<char>>, exp: Seq<Seq<char>>, exp2: Seq<Seq<char>>, p: Seq<char>, parent: Seq<char>, depth: nat, c: int)
    requires
        agree_but(exp, exp2, p),
        exp.contains(p) != exp2.contains(p),
        0 <= c < level_items(paths, exp, parent, depth).len(),
        is_header_of(level_items(paths, exp, parent, depth)[c], p),
        no_header_of(level_items(paths, exp, parent, depth).take(c), p),
    ensures
        c < level_items(paths, exp2, parent, depth).len(),
        level_items(paths, exp2, parent, depth).take(c) == level_items(paths, exp, parent, depth).take(c),
        level_items(paths, exp2, parent, depth)[c] == flipped(level_items(paths, exp, parent, depth)[c]),
    decreases budget(paths, parent), dir_table(paths, zeros(paths.len()), parent).len() + 1,
{
    let t = dir_table(paths, zeros(paths.len()), parent);
    let fa = folder_items(paths, exp, parent, t, depth);
    let fb = folder_items(paths, exp2, parent, t, depth);
    let files = direct_indices(paths, parent).map_values(|i: int| ItemView::File { idx: i as nat, depth });
    let a = level_items(paths, exp, parent, depth);
    let b = level_items(paths, exp2, parent, depth);
    assert(a == fa + files);
    assert(b == fb + files);
    if c >= fa.len() {
        assert(a[c] == files[c - fa.len()]);
        assert(false);
    }
    assert(fa[c] == a[c]);
    assert forall|j: int| 0 <= j < fa.take(c).len() implies !is_header_of(#[trigger] fa.take(c)[j], p) by {
        assert(fa.take(c)[j] == a.take(c)[j]);
    }
    lemma_folders_toggle(paths, exp, exp2, p, parent, t, depth, c);
    assert(b.take(c) =~= fb.take(c));
    assert(a.take(c) =~= fa.take(c));
}

proof fn lemma_folders_toggle(paths: Seq<Seq<char>>, exp: Seq<Seq<char>>, exp2: Seq<Seq<char>>, p: Seq<char>, parent: Seq<char>, t: Seq<DirRow>, depth: nat, c: int)
    requires
        agree_but(exp, exp2, p),
        exp.contains(p) != exp2.contains(p),
        0 <= c < folder_items(paths, exp, parent, t, depth).len(),
        is_header_of(folder_items(paths, exp, parent, t, depth)[c], p),
        no_header_of(folder_items(paths, exp, parent, t, depth).take(c), p),
    ensures
        c < folder_items(paths, exp2, parent, t, depth).len(),
        folder_items(paths, exp2, parent, t, depth).take(c) == folder_items(paths, exp, parent, t, depth).take(c),
        folder_items(paths, exp2, parent, t, depth)[c] == flipped(folder_items(paths, exp, parent, t, depth)[c]),
    decreases budget(paths, parent), t.len(),
{
    let d = t[0].dir;
    let a = folder_items(paths, exp, parent, t, depth);
    let b = folder_items(paths, exp2, parent, t, depth);
    let cond = dir_ok(paths, parent, d) && d.len() > parent.len();
    let open = exp.contains(d);
    let open2 = exp2.contains(d);
    let sub = if open && cond { level_items(paths, exp, d, depth + 1) } else { Seq::empty() };
    let sub2 = if open2 && cond { level_items(paths, exp2, d, depth + 1) } else { Seq::empty() };
    let rest = folder_items(paths, exp, parent, t.drop_first(), depth);
    let rest2 = folder_items(paths, exp2, parent, t.drop_first(), depth);
    let head = ItemView::Folder { path: d, count: child_count(paths, d), expanded: open, depth };
    let head2 = ItemView::Folder { path: d, count: child_count(paths, d), expanded: open2, depth };
    assert(a == seq![head] + sub + rest);
    assert(b == seq![head2] + sub2 + rest2);
    if d == p {
        if c > 0 {
            assert(a.take(c)[0] == a[0]);
            assert(false);
        }
        assert(b[0] == head2);
        assert(a[0] == head);
        assert(b.take(0) =~= a.take(0));
    } else {
        assert(open == open2);
        assert(head == head2);
        if c == 0 {
            assert(false);
        }
        if c - 1 < sub.len() {
            assert(open && cond);
            let s = level_items(paths, exp, d, depth + 1);
            assert(s[c - 1] == a[c]);
            assert forall|j: int| 0 <= j < s.take(c - 1).len() implies !is_header_of(#[trigger] s.take(c - 1)[j], p) by {
                assert(s.take(c - 1)[j] == a.take(c)[1 + j]);
            }
            lemma_level_toggle(paths, exp, exp2, p, d, depth + 1, c - 1);
            assert(b[c] == sub2[c - 1]);
            assert(b.take(c) =~= seq![head] + sub2.take(c - 1));
            assert(a.take(c) =~= seq![head] + sub.take(c - 1));
        } else {
            if open && cond {
                assert forall|j: int| 0 <= j < sub.len() implies !is_header_of(#[trigger] sub[j], p) by {
                    assert(sub[j] == a.take(c)[1 + j]);
                }
                lemma_level_same(paths, exp, exp2, p, d, depth + 1);
            }
            assert(sub2 == sub);
            let k = c - 1 - sub.len();
            assert(rest[k] == a[c]);
            assert forall|j: int| 0 <= j < rest.take(k).len() implies !is_header_of(#[trigger] rest.take(k)[j], p) by {
                assert(rest.take(k)[j] == a.take(c)[1 + sub.len() + j]);
            }
            lemma_folders_toggle(paths, exp, exp2, p, parent, t.drop_first(), depth, k);
            assert(b[c] == rest2[k]);
            assert(b.take(c) =~= seq![head] + sub + rest2.take(k));
            assert(a.take(c) =~= seq![head] + sub + rest.take(k));
        }
    }
}

/// Every folder header's open mark says whether its folder is open.
pub proof fn lemma_level_flags(paths: Seq<Seq<char>>, exp: Seq<Seq<char>>, parent: Seq<char>, depth: nat)
    ensures
        forall|j: int| 0 <= j < level_items(paths, exp, parent, depth).len() ==>
            (#[trigger] level_items(paths, exp, parent, depth)[j] matches ItemView::Folder { path, expanded, .. } ==> expanded == exp.contains(path)),
    decreases budget(paths, parent), dir_table(paths, zeros(paths.len()), parent).len() + 1,
{
    let t = dir_table(paths, zeros(paths.len()), parent);
    let fa = folder_items(paths, exp, parent, t, depth);
    let files = direct_indices(paths, parent).map_values(|i: int| ItemView::File { idx: i as nat, depth });
    let a = level_items(paths, exp, parent, depth);
    lemma_folders_flags(paths, exp, parent, t, depth);
    assert(a == fa + files);
    assert forall|j: int| 0 <= j < a.len() implies (#[trigger] a[j] matches ItemView::Folder { path, expanded, .. } ==> expanded == exp.contains(path)) by {
        if j < fa.len() {
            assert(a[j] == fa[j]);
        } else {
            assert(a[j] == files[j - fa.len()]);
        }
    }
}

proof fn lemma_folders_flags(paths: Seq<Seq<char>>, exp: Seq<Seq<char>>, parent: Seq<char>, t: Seq<DirRow>, depth: nat)
    ensures
        forall|j: int| 0 <= j < folder_items(paths, exp, parent, t, depth).len() ==>
            (#[trigger] folder_items(paths, exp, parent, t, depth)[j] matches ItemView::Folder { path, expanded, .. } ==> expanded == exp.contains(path)),
    decreases budget(paths, parent), t.len(),
{
    if t.len() > 0 {
        let d = t[0].dir;
        let open = exp.contains(d);
        let cond = open && dir_ok(paths, parent, d) && d.len() > parent.len();
        let head = ItemView::Folder { path: d, count: child_count(paths, d), expanded: open, depth };
        let sub = if cond { level_items(paths, exp, d, depth + 1) } else { Seq::empty() };
        let rest = folder_items(paths, exp, parent, t.drop_first(), depth);
        let a = folder_items(paths, exp, parent, t, depth);
        assert(a == seq![head] + sub + rest);
        if cond {
            lemma_level_flags(paths, exp, d, depth + 1);
        }
        lemma_folders_flags(paths, exp, parent, t.drop_first(), depth);
        assert forall|j: int| 0 <= j < a.len() implies (#[trigger] a[j] matches ItemView::Folder { path, expanded, .. } ==> expanded == exp.contains(path)) by {
            if j == 0 {
            } else if j < 1 + sub.len() {
                assert(a[j] == sub[j - 1]);
            } else {
                assert(a[j] == rest[j - 1 - sub.len()]);
            }
        }
    }
}


// ── Each folder has one header ──────────────────────────────────────────────

/// What paths below `parent` start with: `parent/`, or nothing at the root.
pub open spec fn below_prefix(parent: Seq<char>) -> Seq<char> {
    if parent.len() == 0 {
        Seq::empty()
    } else {
        parent.push('/')
    }
}

/// `d` is a folder directly below `parent`: the prefix, then a name without
/// `/`.
pub open spec fn child_form(d: Seq<char>, parent: Seq<char>) -> bool {
    let pre = below_prefix(parent);
    &&& pre.len() <= d.len()
    &&& d.take(pre.len() as int) == pre
    &&& forall|j: int| pre.len() <= j < d.len() ==> d[j] != '/'
}

/// `x` is the folder `d` or lies below it.
pub open spec fn under(x: Seq<char>, d: Seq<char>) -> bool {
    x == d || (d.len() < x.len() && x.take(d.len() as int) == d && x[d.len() as int] == '/')
}

/// The folder directly below `parent` that `x` belongs to.
pub open spec fn group_key(x: Seq<char>, parent: Seq<char>) -> Seq<char> {
    let n = below_prefix(parent).len();
    x.take(n + index_or_len(x.skip(n as int), '/'))
}

/// The rows of a table are in strictly increasing order of folders.
pub open spec fn dirs_sorted(t: Seq<DirRow>) -> bool {
    forall|i: int, j: int| 0 <= i < j < t.len() ==> seq_less(#[trigger] t[i].dir, #[trigger] t[j].dir)
}

/// Every row of the table is a folder directly below `parent`.
pub open spec fn table_forms(t: Seq<DirRow>, parent: Seq<char>) -> bool {
    forall|j: int| 0 <= j < t.len() ==> child_form(#[trigger] t[j].dir, parent)
}

proof fn lemma_group_key(x: Seq<char>, d: Seq<char>, parent: Seq<char>)
    requires
        child_form(d, parent),
        under(x, d),
    ensures
        group_key(x, parent) == d,
{
    let n = below_prefix(parent).len() as int;
    let rest = x.skip(n);
    let k = d.len() - n;
    assert forall|j: int| 0 <= j < k implies rest[j] != '/' by {
        assert(rest[j] == x[n + j]);
        if x != d {
            assert(x[n + j] == x.take(d.len() as int)[n + j]);
        }
    }
    if x != d {
        assert(rest[k] == x[d.len() as int]);
    }
    crate::text::lemma_index_or_len_is(rest, '/', k);
    assert(x.take(n + k) =~= d) by {
        if x != d {
            assert(x.take(n + k) =~= x.take(d.len() as int));
        }
    }
}

proof fn lemma_child_dir_form(p: Seq<char>, parent: Seq<char>)
    requires
        child_dir(p, parent) is Some,
    ensures
        child_form(child_dir(p, parent)->0, parent),
{
    reveal_strlit("/");
    let rel = child_rel(p, parent)->0;
    let k = index_or_len(rel, '/');
    crate::text::lemma_index_or_len_bounds(rel, '/');
    let d = child_dir(p, parent)->0;
    let pre = below_prefix(parent);
    assert(k < rel.len());
    if parent.len() == 0 {
        assert(d == rel.take(k));
        assert(pre.len() == 0);
        assert(d.take(0) =~= pre);
        assert forall|j: int| pre.len() <= j < d.len() implies d[j] != '/' by {
            assert(d[j] == rel[j]);
        }
    } else {
        assert(parent + "/"@ =~= parent.push('/'));
        assert(d == parent.push('/') + rel.take(k));
        assert(d.take(pre.len() as int) =~= pre);
        assert forall|j: int| pre.len() <= j < d.len() implies d[j] != '/' by {
            assert(d[j] == rel.take(k)[j - pre.len()]);
            assert(rel.take(k)[j - pre.len()] == rel[j - pre.len()]);
        }
    }
}

proof fn lemma_table_add_forms(t: Seq<DirRow>, d: Seq<char>, w: nat, parent: Seq<char>)
    requires
        table_forms(t, parent),
        child_form(d, parent),
    ensures
        table_forms(table_add(t, d, w), parent),
    decreases t.len(),
{
    let r = table_add(t, d, w);
    if t.len() > 0 && t[0].dir != d && !seq_less(d, t[0].dir) {
        assert(table_forms(t.drop_first(), parent)) by {
            assert forall|j: int| 0 <= j < t.drop_first().len() implies child_form(#[trigger] t.drop_first()[j].dir, parent) by {
                assert(t.drop_first()[j] == t[j + 1]);
            }
        }
        lemma_table_add_forms(t.drop_first(), d, w, parent);
        assert forall|j: int| 0 <= j < r.len() implies child_form(#[trigger] r[j].dir, parent) by {
            if j > 0 {
                assert(r[j] == table_add(t.drop_first(), d, w)[j - 1]);
            } else {
                assert(r[0] == t[0]);
            }
        }
    } else if t.len() > 0 && t[0].dir != d {
        assert forall|j: int| 0 <= j < r.len() implies child_form(#[trigger] r[j].dir, parent) by {
            if j > 0 {
                assert(r[j] == t[j - 1]);
            }
        }
    } else if t.len() > 0 {
        assert forall|j: int| 0 <= j < r.len() implies child_form(#[trigger] r[j].dir, parent) by {
            assert(r[j].dir == t[j].dir);
        }
    }
}

/// The folders of `table_add(t, d, w)` are those of `t` and `d`.
proof fn lemma_table_add_dirs(t: Seq<DirRow>, d: Seq<char>, w: nat)
    ensures
        forall|j: int| 0 <= j < table_add(t, d, w).len() ==>
            (#[trigger] table_add(t, d, w)[j]).dir == d || exists|k: int| 0 <= k < t.len() && t[k].dir == table_add(t, d, w)[j].dir,
    decreases t.len(),
{
    let r = table_add(t, d, w);
    if t.len() > 0 && t[0].dir != d && !seq_less(d, t[0].dir) {
        lemma_table_add_dirs(t.drop_first(), d, w);
        assert forall|j: int| 0 <= j < r.len() implies (#[trigger] r[j]).dir == d || exists|k: int| 0 <= k < t.len() && t[k].dir == r[j].dir by {
            if j > 0 {
                let s = table_add(t.drop_first(), d, w);
                assert(r[j] == s[j - 1]);
                if s[j - 1].dir != d {
                    let k = choose|k: int| 0 <= k < t.drop_first().len() && t.drop_first()[k].dir == s[j - 1].dir;
                    assert(t[k + 1].dir == r[j].dir);
                }
            } else {
                assert(t[0].dir == r[0].dir);
            }
        }
    } else if t.len() > 0 && t[0].dir != d {
        assert forall|j: int| 0 <= j < r.len() implies (#[trigger] r[j]).dir == d || exists|k: int| 0 <= k < t.len() && t[k].dir == r[j].dir by {
            if j > 0 {
                assert(t[j - 1].dir == r[j].dir);
            }
        }
    } else if t.len() > 0 {
        assert forall|j: int| 0 <= j < r.len() implies (#[trigger] r[j]).dir == d || exists|k: int| 0 <= k < t.len() && t[k].dir == r[j].dir by {
            assert(t[j].dir == r[j].dir);
        }
    }
}

proof fn lemma_table_add_sorted(t: Seq<DirRow>, d: Seq<char>, w: nat)
    requires
        dirs_sorted(t),
    ensures
        dirs_sorted(table_add(t, d, w)),
    decreases t.len(),
{
    let r = table_add(t, d, w);
    if t.len() > 0 && t[0].dir != d && !seq_less(d, t[0].dir) {
        let s = table_add(t.drop_first(), d, w);
        assert(dirs_sorted(t.drop_first())) by {
            assert forall|i: int, j: int| 0 <= i < j < t.drop_first().len() implies seq_less(#[trigger] t.drop_first()[i].dir, #[trigger] t.drop_first()[j].dir) by {
                assert(seq_less(t[i + 1].dir, t[j + 1].dir));
            }
        }
        lemma_table_add_sorted(t.drop_first(), d, w);
        lemma_table_add_dirs(t.drop_first(), d, w);
        crate::suggest::lemma_less_total(t[0].dir, d);
        assert forall|i: int, j: int| 0 <= i < j < r.len() implies seq_less(#[trigger] r[i].dir, #[trigger] r[j].dir) by {
            assert(r[j] == s[j - 1]);
            if i == 0 {
                assert(r[0] == t[0]);
                if s[j - 1].dir != d {
                    let k = choose|k: int| 0 <= k < t.drop_first().len() && t.drop_first()[k].dir == s[j - 1].dir;
                    assert(seq_less(t[0].dir, t[k + 1].dir));
                }
            } else {
                assert(r[i] == s[i - 1]);
            }
        }
    } else if t.len() > 0 && t[0].dir != d {
        assert forall|i: int, j: int| 0 <= i < j < r.len() implies seq_less(#[trigger] r[i].dir, #[trigger] r[j].dir) by {
            assert(r[j] == t[j - 1]);
            if i == 0 {
                if j - 1 > 0 {
                    assert(seq_less(t[0].dir, t[j - 1].dir));
                    crate::suggest::lemma_less_transitive(d, t[0].dir, t[j - 1].dir);
                }
            } else {
                assert(r[i] == t[i - 1]);
            }
        }
    } else if t.len() > 0 {
        assert forall|i: int, j: int| 0 <= i < j < r.len() implies seq_less(#[trigger] r[i].dir, #[trigger] r[j].dir) by {
            assert(r[i].dir == t[i].dir);
            assert(r[j].dir == t[j].dir);
        }
    }
}

/// The folder table below `parent` is sorted and holds only folders
/// directly below `parent`.
pub proof fn lemma_dir_table_shape(paths: Seq<Seq<char>>, ws: Seq<nat>, parent: Seq<char>)
    ensures
        dirs_sorted(dir_table(paths, ws, parent)),
        table_forms(dir_table(paths, ws, parent), parent),
    decreases paths.len(),
{
    if paths.len() > 0 {
        lemma_dir_table_shape(paths.drop_last(), ws.drop_last(), parent);
        let t = dir_table(paths.drop_last(), ws.drop_last(), parent);
        match child_dir(paths.last(), parent) {
            Some(d) => {
                lemma_child_dir_form(paths.last(), parent);
                lemma_table_add_sorted(t, d, ws.last());
                lemma_table_add_forms(t, d, ws.last(), parent);
            },
            None => {},
        }
    }
}

/// Both rows are headers of the same folder.
pub open spec fn same_header(a: ItemView, b: ItemView) -> bool {
    a matches ItemView::Folder { path: x, .. } && b matches ItemView::Folder { path: y, .. } && x == y
}

/// No two rows are headers of the same folder.
pub open spec fn headers_distinct(rows: Seq<ItemView>) -> bool {
    forall|i: int, j: int| 0 <= i < j < rows.len() ==> !same_header(#[trigger] rows[i], #[trigger] rows[j])
}

/// `x` lies strictly below the folder `p`.
pub open spec fn below(x: Seq<char>, p: Seq<char>) -> bool {
    p.len() < x.len() && x.take(p.len() as int) == p && x[p.len() as int] == '/'
}

/// A header row belongs to the group of one of the table's folders.
pub open spec fn in_groups(r: ItemView, t: Seq<DirRow>) -> bool {
    r matches ItemView::Folder { path, .. } ==> exists|k: int| 0 <= k < t.len() && #[trigger] under(path, t[k].dir)
}

/// A header row lies strictly below `parent` (any row does at the root).
pub open spec fn row_below(r: ItemView, parent: Seq<char>) -> bool {
    r matches ItemView::Folder { path, .. } ==> (parent.len() > 0 ==> below(path, parent))
}

proof fn lemma_groups_disjoint(x: Seq<char>, d1: Seq<char>, d2: Seq<char>, parent: Seq<char>)
    requires
        child_form(d1, parent),
        child_form(d2, parent),
        under(x, d1),
        under(x, d2),
    ensures
        d1 == d2,
{
    lemma_group_key(x, d1, parent);
    lemma_group_key(x, d2, parent);
}

proof fn lemma_under_child_below(x: Seq<char>, y: Seq<char>, parent: Seq<char>)
    requires
        parent.len() > 0,
        child_form(y, parent),
        under(x, y),
    ensures
        below(x, parent),
{
    let pre = parent.push('/');
    assert(below_prefix(parent) == pre);
    assert(y.take(pre.len() as int) == pre);
    if x != y {
        assert(x.take(pre.len() as int) =~= x.take(y.len() as int).take(pre.len() as int));
    }
    assert(x.len() >= pre.len());
    assert(x.take(pre.len() as int) == pre);
    assert(pre.take(parent.len() as int) =~= parent);
    assert(x.take(parent.len() as int) =~= pre.take(parent.len() as int));
    assert(x[parent.len() as int] == x.take(pre.len() as int)[parent.len() as int]);
    assert(pre[parent.len() as int] == '/');
}

proof fn lemma_level_unique(paths: Seq<Seq<char>>, exp: Seq<Seq<char>>, parent: Seq<char>, depth: nat)
    ensures
        headers_distinct(level_items(paths, exp, parent, depth)),
        forall|i: int| 0 <= i < level_items(paths, exp, parent, depth).len() ==> row_below(#[trigger] level_items(paths, exp, parent, depth)[i], parent),
    decreases budget(paths, parent), dir_table(paths, zeros(paths.len()), parent).len() + 1,
{
    let t = dir_table(paths, zeros(paths.len()), parent);
    lemma_dir_table_shape(paths, zeros(paths.len()), parent);
    lemma_folders_unique(paths, exp, parent, t, depth);
    let fa = folder_items(paths, exp, parent, t, depth);
    let files = direct_indices(paths, parent).map_values(|i: int| ItemView::File { idx: i as nat, depth });
    let a = level_items(paths, exp, parent, depth);
    assert(a == fa + files);
    assert forall|i: int, j: int| 0 <= i < j < a.len() implies !same_header(#[trigger] a[i], #[trigger] a[j]) by {
        if j >= fa.len() {
            assert(a[j] == files[j - fa.len()]);
        } else {
            assert(a[i] == fa[i] && a[j] == fa[j]);
        }
    }
    assert forall|i: int| 0 <= i < a.len() implies row_below(#[trigger] a[i], parent) by {
        if i >= fa.len() {
            assert(a[i] == files[i - fa.len()]);
        } else {
            assert(a[i] == fa[i]);
            assert(in_groups(fa[i], t));
            if fa[i] is Folder && parent.len() > 0 {
                let x = fa[i]->Folder_path;
                let k = choose|k: int| 0 <= k < t.len() && #[trigger] under(x, t[k].dir);
                assert(child_form(t[k].dir, parent));
                lemma_under_child_below(x, t[k].dir, parent);
            }
        }
    }
}

proof fn lemma_folders_unique(paths: Seq<Seq<char>>, exp: Seq<Seq<char>>, parent: Seq<char>, t: Seq<DirRow>, depth: nat)
    requires
        table_forms(t, parent),
        dirs_sorted(t),
    ensures
        headers_distinct(folder_items(paths, exp, parent, t, depth)),
        forall|i: int| 0 <= i < folder_items(paths, exp, parent, t, depth).len() ==> in_groups(#[trigger] folder_items(paths, exp, parent, t, depth)[i], t),
    decreases budget(paths, parent), t.len(),
{
    if t.len() > 0 {
        let d = t[0].dir;
        let open = exp.contains(d);
        let cond = open && dir_ok(paths, parent, d) && d.len() > parent.len();
        let head = ItemView::Folder { path: d, count: child_count(paths, d), expanded: open, depth };
        let sub = if cond { level_items(paths, exp, d, depth + 1) } else { Seq::empty() };
        let t2 = t.drop_first();
        let rest = folder_items(paths, exp, parent, t2, depth);
        let a = folder_items(paths, exp, parent, t, depth);
        assert(a == seq![head] + sub + rest);
        if cond {
            lemma_level_unique(paths, exp, d, depth + 1);
        }
        assert(table_forms(t2, parent)) by {
            assert forall|j: int| 0 <= j < t2.len() implies child_form(#[trigger] t2[j].dir, parent) by {
                assert(t2[j] == t[j + 1]);
            }
        }
        assert(dirs_sorted(t2)) by {
            assert forall|i: int, j: int| 0 <= i < j < t2.len() implies seq_less(#[trigger] t2[i].dir, #[trigger] t2[j].dir) by {
                assert(seq_less(t[i + 1].dir, t[j + 1].dir));
            }
        }
        lemma_folders_unique(paths, exp, parent, t2, depth);
        assert(child_form(t[0].dir, parent));
        // Every header of the first group lies under `d`; every header of
        // the rest lies under a later folder.
        assert forall|i: int| 0 <= i < 1 + sub.len() implies (#[trigger] a[i] matches ItemView::Folder { path, .. } ==> under(path, d)) by {
            if i > 0 {
                assert(a[i] == sub[i - 1]);
                assert(row_below(sub[i - 1], d));
            }
        }
        assert forall|i: int| 0 <= i < rest.len() implies (#[trigger] rest[i] matches ItemView::Folder { path, .. } ==> exists|k: int| 1 <= k < t.len() && under(path, t[k].dir)) by {
            assert(in_groups(rest[i], t2));
            if rest[i] is Folder {
                let x = rest[i]->Folder_path;
                let k = choose|k: int| 0 <= k < t2.len() && #[trigger] under(x, t2[k].dir);
                assert(t2[k] == t[k + 1]);
            }
        }
        assert forall|i: int| 0 <= i < a.len() implies in_groups(#[trigger] a[i], t) by {
            if i < 1 + sub.len() {
                if a[i] is Folder {
                    assert(under(a[i]->Folder_path, t[0].dir));
                }
            } else {
                assert(a[i] == rest[i - 1 - sub.len()]);
                if a[i] is Folder {
                    let x = a[i]->Folder_path;
                    let k = choose|k: int| 1 <= k < t.len() && under(x, t[k].dir);
                    assert(under(x, t[k].dir));
                }
            }
        }
        assert forall|i: int, j: int| 0 <= i < j < a.len() implies !same_header(#[trigger] a[i], #[trigger] a[j]) by {
            if same_header(a[i], a[j]) {
                let x = a[i]->Folder_path;
                if j < 1 + sub.len() {
                    assert(a[j] == sub[j - 1]);
                    assert(row_below(sub[j - 1], d));
                    if i == 0 {
                        assert(a[i] == head);
                    } else {
                        assert(a[i] == sub[i - 1]);
                        assert(headers_distinct(sub));
                        assert(!same_header(sub[i - 1], sub[j - 1]));
                    }
                } else if i >= 1 + sub.len() {
                    assert(a[i] == rest[i - 1 - sub.len()]);
                    assert(a[j] == rest[j - 1 - sub.len()]);
                    assert(!same_header(rest[i - 1 - sub.len()], rest[j - 1 - sub.len()]));
                } else {
                    assert(under(x, d));
                    assert(a[j] == rest[j - 1 - sub.len()]);
                    let k = choose|k: int| 1 <= k < t.len() && under(x, t[k].dir);
                    assert(child_form(t[k].dir, parent));
                    lemma_groups_disjoint(x, d, t[k].dir, parent);
                    assert(seq_less(t[0].dir, t[k].dir));
                    crate::suggest::lemma_less_irreflexive(d);
                }
            }
        }
    }
}

/// No folder has two headers among the rows of the tree.
pub proof fn lemma_tree_headers_distinct(paths: Seq<Seq<char>>, exp: Seq<Seq<char>>)
    ensures
        headers_distinct(level_items(paths, exp, Seq::empty(), 0)),
{
    lemma_level_unique(paths, exp, Seq::empty(), 0);
}

/// Both rows are rows of the same file.
pub open spec fn same_file(a: ItemView, b: ItemView) -> bool {
    a matches ItemView::File { idx: x, .. } && b matches ItemView::File { idx: y, .. } && x == y
}

/// No file has two rows.
pub open spec fn files_distinct(rows: Seq<ItemView>) -> bool {
    forall|i: int, j: int| 0 <= i < j < rows.len() ==> !same_file(#[trigger] rows[i], #[trigger] rows[j])
}

/// A file row names a file strictly below `parent` (any file at the root).
pub open spec fn file_below(r: ItemView, paths: Seq<Seq<char>>, parent: Seq<char>) -> bool {
    r matches ItemView::File { idx, .. } ==> (idx < paths.len() && (parent.len() > 0 ==> below(paths[idx as int], parent)))
}

/// A file row names a file strictly below one of the table's folders.
pub open spec fn file_in_groups(r: ItemView, paths: Seq<Seq<char>>, t: Seq<DirRow>) -> bool {
    r matches ItemView::File { idx, .. } ==> (idx < paths.len() && exists|k: int| 0 <= k < t.len() && #[trigger] below(paths[idx as int], t[k].dir))
}

proof fn lemma_direct_indices(paths: Seq<Seq<char>>, parent: Seq<char>)
    ensures
        forall|j: int| 0 <= j < direct_indices(paths, parent).len() ==>
            0 <= #[trigger] direct_indices(paths, parent)[j] < paths.len() && is_direct(paths[direct_indices(paths, parent)[j]], parent),
        forall|i: int, j: int| 0 <= i < j < direct_indices(paths, parent).len() ==>
            #[trigger] direct_indices(paths, parent)[i] < #[trigger] direct_indices(paths, parent)[j],
    decreases paths.len(),
{
    if paths.len() > 0 {
        let p = paths.drop_last();
        lemma_direct_indices(p, parent);
        let prev = direct_indices(p, parent);
        assert forall|j: int| 0 <= j < prev.len() implies paths[prev[j]] == p[prev[j]] by {}
    }
}

proof fn lemma_direct_not_below(p: Seq<char>, y: Seq<char>, parent: Seq<char>)
    requires
        is_direct(p, parent),
        child_form(y, parent),
    ensures
        !below(p, y),
{
    reveal_strlit("/");
    if below(p, y) {
        let pre = below_prefix(parent);
        let rel = child_rel(p, parent)->0;
        if parent.len() > 0 {
            assert(parent + "/"@ =~= parent.push('/'));
        }
        assert(rel =~= p.skip(pre.len() as int));
        crate::text::lemma_index_or_len_bounds(rel, '/');
        assert(index_or_len(rel, '/') >= rel.len());
        let k = y.len() - pre.len();
        assert(rel[k] == p[y.len() as int]);
    }
}

proof fn lemma_direct_below(p: Seq<char>, parent: Seq<char>)
    requires
        is_direct(p, parent),
        parent.len() > 0,
    ensures
        below(p, parent),
{
    reveal_strlit("/");
    let q = parent + "/"@;
    assert(starts_with(p, q));
    assert(q.len() == parent.len() + 1);
    assert(p.take(q.len() as int) == q);
    assert(p.take(parent.len() as int) =~= q.take(parent.len() as int));
    assert(q.take(parent.len() as int) =~= parent);
    assert(p[parent.len() as int] == p.take(q.len() as int)[parent.len() as int]);
}

proof fn lemma_below_chain(x: Seq<char>, d: Seq<char>, parent: Seq<char>)
    requires
        below(x, d),
        child_form(d, parent),
        parent.len() > 0,
    ensures
        below(x, parent),
{
    assert(under(x, d));
    lemma_under_child_below(x, d, parent);
}

proof fn lemma_level_files(paths: Seq<Seq<char>>, exp: Seq<Seq<char>>, parent: Seq<char>, depth: nat)
    ensures
        files_distinct(level_items(paths, exp, parent, depth)),
        forall|i: int| 0 <= i < level_items(paths, exp, parent, depth).len() ==> file_below(#[trigger] level_items(paths, exp, parent, depth)[i], paths, parent),
    decreases budget(paths, parent), dir_table(paths, zeros(paths.len()), parent).len() + 1,
{
    let t = dir_table(paths, zeros(paths.len()), parent);
    lemma_dir_table_shape(paths, zeros(paths.len()), parent);
    lemma_folders_files(paths, exp, parent, t, depth);
    lemma_direct_indices(paths, parent);
    let di = direct_indices(paths, parent);
    let fa = folder_items(paths, exp, parent, t, depth);
    let files = di.map_values(|i: int| ItemView::File { idx: i as nat, depth });
    let a = level_items(paths, exp, parent, depth);
    assert(a == fa + files);
    assert forall|i: int| 0 <= i < a.len() implies file_below(#[trigger] a[i], paths, parent) by {
        if i >= fa.len() {
            let j = i - fa.len();
            assert(a[i] == files[j]);
            assert(files[j] == ItemView::File { idx: di[j] as nat, depth });
            if parent.len() > 0 {
                lemma_direct_below(paths[di[j]], parent);
            }
        } else {
            assert(a[i] == fa[i]);
            assert(file_in_groups(fa[i], paths, t));
            if fa[i] is File && parent.len() > 0 {
                let x = paths[fa[i]->File_idx as int];
                let k = choose|k: int| 0 <= k < t.len() && #[trigger] below(x, t[k].dir);
                assert(child_form(t[k].dir, parent));
                lemma_below_chain(x, t[k].dir, parent);
            }
        }
    }
    assert forall|i: int, j: int| 0 <= i < j < a.len() implies !same_file(#[trigger] a[i], #[trigger] a[j]) by {
        if same_file(a[i], a[j]) {
            if i >= fa.len() {
                assert(a[i] == files[i - fa.len()]);
                assert(a[j] == files[j - fa.len()]);
                assert(di[i - fa.len()] < di[j - fa.len()]);
            } else if j < fa.len() {
                assert(a[i] == fa[i] && a[j] == fa[j]);
            } else {
                assert(a[i] == fa[i]);
                assert(file_in_groups(fa[i], paths, t));
                let jj = j - fa.len();
                assert(a[j] == files[jj]);
                let x = paths[di[jj]];
                let k = choose|k: int| 0 <= k < t.len() && #[trigger] below(x, t[k].dir);
                assert(child_form(t[k].dir, parent));
                lemma_direct_not_below(x, t[k].dir, parent);
            }
        }
    }
}

proof fn lemma_folders_files(paths: Seq<Seq<char>>, exp: Seq<Seq<char>>, parent: Seq<char>, t: Seq<DirRow>, depth: nat)
    requires
        table_forms(t, parent),
        dirs_sorted(t),
    ensures
        files_distinct(folder_items(paths, exp, parent, t, depth)),
        forall|i: int| 0 <= i < folder_items(paths, exp, parent, t, depth).len() ==> file_in_groups(#[trigger] folder_items(paths, exp, parent, t, depth)[i], paths, t),
    decreases budget(paths, parent), t.len(),
{
    if t.len() > 0 {
        let d = t[0].dir;
        let open = exp.contains(d);
        let cond = open && dir_ok(paths, parent, d) && d.len() > parent.len();
        let head = ItemView::Folder { path: d, count: child_count(paths, d), expanded: open, depth };
        let sub = if cond { level_items(paths, exp, d, depth + 1) } else { Seq::empty() };
        let t2 = t.drop_first();
        let rest = folder_items(paths, exp, parent, t2, depth);
        let a = folder_items(paths, exp, parent, t, depth);
        assert(a == seq![head] + sub + rest);
        if cond {
            lemma_level_files(paths, exp, d, depth + 1);
        }
        assert(table_forms(t2, parent)) by {
            assert forall|j: int| 0 <= j < t2.len() implies child_form(#[trigger] t2[j].dir, parent) by {
                assert(t2[j] == t[j + 1]);
            }
        }
        assert(dirs_sorted(t2)) by {
            assert forall|i: int, j: int| 0 <= i < j < t2.len() implies seq_less(#[trigger] t2[i].dir, #[trigger] t2[j].dir) by {
                assert(seq_less(t[i + 1].dir, t[j + 1].dir));
            }
        }
        lemma_folders_files(paths, exp, parent, t2, depth);
        assert(child_form(d, parent));
        assert forall|i: int| 0 <= i < 1 + sub.len() implies (#[trigger] a[i] matches ItemView::File { idx, .. } ==> idx < paths.len() && below(paths[idx as int], d)) by {
            if i > 0 {
                assert(a[i] == sub[i - 1]);
                assert(file_below(sub[i - 1], paths, d));
            }
        }
        assert forall|i: int| 0 <= i < rest.len() implies (#[trigger] rest[i] matches ItemView::File { idx, .. } ==> idx < paths.len() && exists|k: int| 1 <= k < t.len() && below(paths[idx as int], t[k].dir)) by {
            assert(file_in_groups(rest[i], paths, t2));
            if rest[i] is File {
                let x = paths[rest[i]->File_idx as int];
                let k = choose|k: int| 0 <= k < t2.len() && #[trigger] below(x, t2[k].dir);
                assert(t2[k] == t[k + 1]);
            }
        }
        assert forall|i: int| 0 <= i < a.len() implies file_in_groups(#[trigger] a[i], paths, t) by {
            if i < 1 + sub.len() {
                if a[i] is File {
                    assert(below(paths[a[i]->File_idx as int], t[0].dir));
                }
            } else {
                assert(a[i] == rest[i - 1 - sub.len()]);
                if a[i] is File {
                    let x = paths[a[i]->File_idx as int];
                    let k = choose|k: int| 1 <= k < t.len() && below(x, t[k].dir);
                    assert(below(x, t[k].dir));
                }
            }
        }
        assert forall|i: int, j: int| 0 <= i < j < a.len() implies !same_file(#[trigger] a[i], #[trigger] a[j]) by {
            if same_file(a[i], a[j]) {
                if j < 1 + sub.len() {
                    assert(a[j] == sub[j - 1]);
                    assert(i > 0);
                    assert(a[i] == sub[i - 1]);
                    assert(!same_file(sub[i - 1], sub[j - 1]));
                } else if i >= 1 + sub.len() {
                    assert(a[i] == rest[i - 1 - sub.len()]);
                    assert(a[j] == rest[j - 1 - sub.len()]);
                    assert(!same_file(rest[i - 1 - sub.len()], rest[j - 1 - sub.len()]));
                } else {
                    let x = paths[a[i]->File_idx as int];
                    assert(below(x, d));
                    assert(a[j] == rest[j - 1 - sub.len()]);
                    let k = choose|k: int| 1 <= k < t.len() && below(x, t[k].dir);
                    assert(child_form(t[k].dir, parent));
                    lemma_groups_disjoint(x, d, t[k].dir, parent);
                    assert(seq_less(t[0].dir, t[k].dir));
                    crate::suggest::lemma_less_irreflexive(d);
                }
            }
        }
    }
}

/// No file has two rows in the tree, and every file row names one of the
/// files.
pub proof fn lemma_tree_files_distinct(paths: Seq<Seq<char>>, exp: Seq<Seq<char>>)
    ensures
        files_distinct(level_items(paths, exp, Seq::empty(), 0)),
        forall|i: int| 0 <= i < level_items(paths, exp, Seq::empty(), 0).len() ==>
            (#[trigger] level_items(paths, exp, Seq::empty(), 0)[i] matches ItemView::File { idx, .. } ==> idx < paths.len()),
{
    lemma_level_files(paths, exp, Seq::empty(), 0);
    assert forall|i: int| 0 <= i < level_items(paths, exp, Seq::empty(), 0).len() implies
        (#[trigger] level_items(paths, exp, Seq::empty(), 0)[i] matches ItemView::File { idx, .. } ==> idx < paths.len()) by {
        assert(file_below(level_items(paths, exp, Seq::empty(), 0)[i], paths, Seq::empty()));
    }
}

/// Every folder on the way from `parent` down to the file `p` is open.
pub open spec fn opened_along(p: Seq<char>, parent: Seq<char>, exp: Seq<Seq<char>>) -> bool {
    forall|k: int| below_prefix(parent).len() <= k < p.len() && p[k] == '/' ==> exp.contains(#[trigger] p.take(k))
}

/// A file row names a file whose folders below `parent` are all open.
pub open spec fn file_shown_open(r: ItemView, paths: Seq<Seq<char>>, parent: Seq<char>, exp: Seq<Seq<char>>) -> bool {
    r matches ItemView::File { idx, .. } ==> opened_along(paths[idx as int], parent, exp)
}

proof fn lemma_direct_opened(p: Seq<char>, parent: Seq<char>, exp: Seq<Seq<char>>)
    requires
        is_direct(p, parent),
    ensures
        opened_along(p, parent, exp),
{
    reveal_strlit("/");
    let pre = below_prefix(parent);
    let rel = child_rel(p, parent)->0;
    if parent.len() > 0 {
        assert(parent + "/"@ =~= parent.push('/'));
    }
    assert(rel =~= p.skip(pre.len() as int));
    crate::text::lemma_index_or_len_bounds(rel, '/');
    assert forall|k: int| pre.len() <= k < p.len() && p[k] == '/' implies exp.contains(#[trigger] p.take(k)) by {
        assert(rel[k - pre.len()] == p[k]);
    }
}

proof fn lemma_opened_through(p: Seq<char>, d: Seq<char>, parent: Seq<char>, exp: Seq<Seq<char>>)
    requires
        child_form(d, parent),
        d.len() > 0,
        below(p, d),
        exp.contains(d),
        opened_along(p, d, exp),
    ensures
        opened_along(p, parent, exp),
{
    let pre = below_prefix(parent);
    assert(below_prefix(d) == d.push('/'));
    assert forall|k: int| pre.len() <= k < p.len() && p[k] == '/' implies exp.contains(#[trigger] p.take(k)) by {
        if k < d.len() {
            assert(p[k] == p.take(d.len() as int)[k]);
            assert(d[k] != '/');
        } else if k == d.len() {
            assert(p.take(k) == d);
        }
    }
}

proof fn lemma_level_opened(paths: Seq<Seq<char>>, exp: Seq<Seq<char>>, parent: Seq<char>, depth: nat)
    ensures
        forall|i: int| 0 <= i < level_items(paths, exp, parent, depth).len() ==>
            file_shown_open(#[trigger] level_items(paths, exp, parent, depth)[i], paths, parent, exp),
    decreases budget(paths, parent), dir_table(paths, zeros(paths.len()), parent).len() + 1,
{
    let t = dir_table(paths, zeros(paths.len()), parent);
    lemma_dir_table_shape(paths, zeros(paths.len()), parent);
    lemma_folders_opened(paths, exp, parent, t, depth);
    lemma_direct_indices(paths, parent);
    let di = direct_indices(paths, parent);
    let fa = folder_items(paths, exp, parent, t, depth);
    let files = di.map_values(|i: int| ItemView::File { idx: i as nat, depth });
    let a = level_items(paths, exp, parent, depth);
    assert(a == fa + files);
    assert forall|i: int| 0 <= i < a.len() implies file_shown_open(#[trigger] a[i], paths, parent, exp) by {
        if i >= fa.len() {
            let j = i - fa.len();
            assert(a[i] == files[j]);
            lemma_direct_opened(paths[di[j]], parent, exp);
        } else {
            assert(a[i] == fa[i]);
        }
    }
}

proof fn lemma_folders_opened(paths: Seq<Seq<char>>, exp: Seq<Seq<char>>, parent: Seq<char>, t: Seq<DirRow>, depth: nat)
    requires
        table_forms(t, parent),
    ensures
        forall|i: int| 0 <= i < folder_items(paths, exp, parent, t, depth).len() ==>
            file_shown_open(#[trigger] folder_items(paths, exp, parent, t, depth)[i], paths, parent, exp),
    decreases budget(paths, parent), t.len(),
{
    if t.len() > 0 {
        let d = t[0].dir;
        let open = exp.contains(d);
        let cond = open && dir_ok(paths, parent, d) && d.len() > parent.len();
        let head = ItemView::Folder { path: d, count: child_count(paths, d), expanded: open, depth };
        let sub = if cond { level_items(paths, exp, d, depth + 1) } else { Seq::empty() };
        let t2 = t.drop_first();
        let rest = folder_items(paths, exp, parent, t2, depth);
        let a = folder_items(paths, exp, parent, t, depth);
        assert(a == seq![head] + sub + rest);
        if cond {
            lemma_level_opened(paths, exp, d, depth + 1);
            lemma_level_files(paths, exp, d, depth + 1);
        }
        assert(table_forms(t2, parent)) by {
            assert forall|j: int| 0 <= j < t2.len() implies child_form(#[trigger] t2[j].dir, parent) by {
                assert(t2[j] == t[j + 1]);
            }
        }
        lemma_folders_opened(paths, exp, parent, t2, depth);
        assert(child_form(d, parent));
        assert forall|i: int| 0 <= i < a.len() implies file_shown_open(#[trigger] a[i], paths, parent, exp) by {
            if 0 < i < 1 + sub.len() {
                assert(a[i] == sub[i - 1]);
                if a[i] is File {
                    assert(file_below(sub[i - 1], paths, d));
                    assert(file_shown_open(sub[i - 1], paths, d, exp));
                    lemma_opened_through(paths[a[i]->File_idx as int], d, parent, exp);
                }
            } else if i >= 1 + sub.len() {
                assert(a[i] == rest[i - 1 - sub.len()]);
            }
        }
    }
}

/// A file has a row in the tree only when every folder on its path is open.
pub proof fn lemma_tree_files_open(paths: Seq<Seq<char>>, exp: Seq<Seq<char>>)
    ensures
        forall|i: int| 0 <= i < level_items(paths, exp, Seq::empty(), 0).len() ==>
            (#[trigger] level_items(paths, exp, Seq::empty(), 0)[i] matches ItemView::File { idx, .. } ==>
                forall|k: int| 0 <= k < paths[idx as int].len() && paths[idx as int][k] == '/' ==> exp.contains(#[trigger] paths[idx as int].take(k))),
{
    lemma_level_opened(paths, exp, Seq::empty(), 0);
    assert forall|i: int| 0 <= i < level_items(paths, exp, Seq::empty(), 0).len() implies
        (#[trigger] level_items(paths, exp, Seq::empty(), 0)[i] matches ItemView::File { idx, .. } ==>
            forall|k: int| 0 <= k < paths[idx as int].len() && paths[idx as int][k] == '/' ==> exp.contains(#[trigger] paths[idx as int].take(k))) by {
        assert(file_shown_open(level_items(paths, exp, Seq::empty(), 0)[i], paths, Seq::empty(), exp));
        assert(below_prefix(Seq::<char>::empty()).len() == 0);
    }
}

/// The row is a row of file `i`.
pub open spec fn file_row_of(r: ItemView, i: int) -> bool {
    r matches ItemView::File { idx, .. } && idx == i
}

/// The table has a row for folder `d`.
pub open spec fn has_dir(t: Seq<DirRow>, d: Seq<char>) -> bool {
    exists|k: int| 0 <= k < t.len() && #[trigger] t[k].dir == d
}

proof fn lemma_table_add_has(t: Seq<DirRow>, d: Seq<char>, w: nat, e: Seq<char>)
    requires
        e == d || has_dir(t, e),
    ensures
        has_dir(table_add(t, d, w), e),
    decreases t.len(),
{
    let r = table_add(t, d, w);
    if t.len() == 0 {
        assert(r[0].dir == d);
    } else if t[0].dir == d {
        if e == d {
            assert(r[0].dir == d);
        } else {
            let k = choose|k: int| 0 <= k < t.len() && #[trigger] t[k].dir == e;
            assert(r[k].dir == e);
        }
    } else if seq_less(d, t[0].dir) {
        if e == d {
            assert(r[0].dir == d);
        } else {
            let k = choose|k: int| 0 <= k < t.len() && #[trigger] t[k].dir == e;
            assert(r[k + 1].dir == e);
        }
    } else {
        if e == t[0].dir {
            assert(r[0].dir == e);
        } else {
            if e != d {
                let k = choose|k: int| 0 <= k < t.len() && #[trigger] t[k].dir == e;
                assert(t.drop_first()[k - 1].dir == e);
            }
            lemma_table_add_has(t.drop_first(), d, w, e);
            let s = table_add(t.drop_first(), d, w);
            let k = choose|k: int| 0 <= k < s.len() && #[trigger] s[k].dir == e;
            assert(r[k + 1] == s[k]);
        }
    }
}

proof fn lemma_dir_table_has(paths: Seq<Seq<char>>, ws: Seq<nat>, parent: Seq<char>, i: int)
    requires
        0 <= i < paths.len(),
        ws.len() == paths.len(),
        child_dir(paths[i], parent) is Some,
    ensures
        has_dir(dir_table(paths, ws, parent), child_dir(paths[i], parent)->0),
    decreases paths.len(),
{
    let e = child_dir(paths[i], parent)->0;
    let t = dir_table(paths.drop_last(), ws.drop_last(), parent);
    if i < paths.len() - 1 {
        assert(paths.drop_last()[i] == paths[i]);
        lemma_dir_table_has(paths.drop_last(), ws.drop_last(), parent, i);
        match child_dir(paths.last(), parent) {
            Some(d) => lemma_table_add_has(t, d, ws.last(), e),
            None => {},
        }
    } else {
        lemma_table_add_has(t, e, ws.last(), e);
    }
}

proof fn lemma_direct_has(paths: Seq<Seq<char>>, parent: Seq<char>, i: int)
    requires
        0 <= i < paths.len(),
        is_direct(paths[i], parent),
    ensures
        direct_indices(paths, parent).contains(i),
    decreases paths.len(),
{
    let prev = direct_indices(paths.drop_last(), parent);
    if i < paths.len() - 1 {
        assert(paths.drop_last()[i] == paths[i]);
        lemma_direct_has(paths.drop_last(), parent, i);
        let k = choose|k: int| 0 <= k < prev.len() && prev[k] == i;
        if is_direct(paths.last(), parent) {
            assert(prev.push(paths.len() - 1)[k] == i);
        }
    } else {
        assert(prev.push(i)[prev.len() as int] == i);
    }
}

proof fn lemma_folders_contain(paths: Seq<Seq<char>>, exp: Seq<Seq<char>>, parent: Seq<char>, t: Seq<DirRow>, depth: nat, k: int, i: int)
    requires
        0 <= k < t.len(),
        exp.contains(t[k].dir) && dir_ok(paths, parent, t[k].dir) && t[k].dir.len() > parent.len(),
        exists|j: int| 0 <= j < level_items(paths, exp, t[k].dir, depth + 1).len() && #[trigger] file_row_of(level_items(paths, exp, t[k].dir, depth + 1)[j], i),
    ensures
        exists|j: int| 0 <= j < folder_items(paths, exp, parent, t, depth).len() && #[trigger] file_row_of(folder_items(paths, exp, parent, t, depth)[j], i),
    decreases t.len(),
{
    let d = t[0].dir;
    let open = exp.contains(d);
    let cond = open && dir_ok(paths, parent, d) && d.len() > parent.len();
    let head = ItemView::Folder { path: d, count: child_count(paths, d), expanded: open, depth };
    let sub = if cond { level_items(paths, exp, d, depth + 1) } else { Seq::empty() };
    let t2 = t.drop_first();
    let rest = folder_items(paths, exp, parent, t2, depth);
    let a = folder_items(paths, exp, parent, t, depth);
    assert(a == seq![head] + sub + rest);
    if k == 0 {
        let j = choose|j: int| 0 <= j < sub.len() && #[trigger] file_row_of(sub[j], i);
        assert(a[1 + j] == sub[j]);
    } else {
        assert(t2[k - 1] == t[k]);
        lemma_folders_contain(paths, exp, parent, t2, depth, k - 1, i);
        let j = choose|j: int| 0 <= j < rest.len() && #[trigger] file_row_of(rest[j], i);
        assert(a[1 + sub.len() + j] == rest[j]);
    }
}

proof fn lemma_level_complete(paths: Seq<Seq<char>>, exp: Seq<Seq<char>>, parent: Seq<char>, depth: nat, i: int)
    requires
        0 <= i < paths.len(),
        parent.len() > 0 ==> below(paths[i], parent),
        parent.len() == 0 ==> paths[i].len() == 0 || paths[i][0] != '/',
        opened_along(paths[i], parent, exp),
    ensures
        exists|j: int| 0 <= j < level_items(paths, exp, parent, depth).len() && #[trigger] file_row_of(level_items(paths, exp, parent, depth)[j], i),
    decreases budget(paths, parent), dir_table(paths, zeros(paths.len()), parent).len() + 1,
{
    reveal_strlit("/");
    let p = paths[i];
    let t = dir_table(paths, zeros(paths.len()), parent);
    let di = direct_indices(paths, parent);
    let fa = folder_items(paths, exp, parent, t, depth);
    let files = di.map_values(|x: int| ItemView::File { idx: x as nat, depth });
    let a = level_items(paths, exp, parent, depth);
    assert(a == fa + files);
    let pre = below_prefix(parent);
    if parent.len() > 0 {
        assert(parent + "/"@ =~= parent.push('/'));
        assert(p.take(pre.len() as int) =~= parent.push('/')) by {
            assert forall|j: int| 0 <= j < pre.len() implies p.take(pre.len() as int)[j] == parent.push('/')[j] by {
                if j < parent.len() {
                    assert(p[j] == p.take(parent.len() as int)[j]);
                }
            }
        }
        assert(starts_with(p, parent + "/"@));
    }
    assert(child_rel(p, parent) == Some(p.skip(pre.len() as int)));
    match child_dir(p, parent) {
        None => {
            lemma_direct_has(paths, parent, i);
            let k = choose|k: int| 0 <= k < di.len() && di[k] == i;
            assert(a[fa.len() + k] == files[k]);
            assert(file_row_of(a[fa.len() + k], i));
        },
        Some(d) => {
            lemma_child_dir_form(p, parent);
            lemma_dir_table_has(paths, zeros(paths.len()), parent, i);
            let k = choose|k: int| 0 <= k < t.len() && #[trigger] t[k].dir == d;
            let rel = p.skip(pre.len() as int);
            let m = index_or_len(rel, '/');
            crate::text::lemma_index_or_len_bounds(rel, '/');
            assert(m < rel.len());
            if parent.len() == 0 {
                assert(rel[0] == p[0]);
                assert(m > 0);
                assert(d == rel.take(m));
            } else {
                assert(d == parent + "/"@ + rel.take(m));
            }
            assert(d.len() == pre.len() + m);
            assert(p[d.len() as int] == rel[m]);
            assert(d =~= p.take(d.len() as int)) by {
                assert forall|j: int| 0 <= j < d.len() implies d[j] == p.take(d.len() as int)[j] by {
                    if j < pre.len() {
                        assert(p.take(pre.len() as int)[j] == p[j]);
                    } else {
                        assert(rel[j - pre.len()] == p[j]);
                    }
                }
            }
            assert(exp.contains(p.take(d.len() as int)));
            lemma_max_len(paths);
            assert(dir_ok(paths, parent, d));
            assert(below(p, d));
            assert(below_prefix(d) == d.push('/'));
            assert(opened_along(p, d, exp));
            lemma_level_complete(paths, exp, d, depth + 1, i);
            lemma_folders_contain(paths, exp, parent, t, depth, k, i);
            let j = choose|j: int| 0 <= j < fa.len() && #[trigger] file_row_of(fa[j], i);
            assert(a[j] == fa[j]);
        },
    }
}

/// A file whose folders are all open has a row in the tree (when its path
/// does not start with `/`).
pub proof fn lemma_tree_files_complete(paths: Seq<Seq<char>>, exp: Seq<Seq<char>>, i: int)
    requires
        0 <= i < paths.len(),
        paths[i].len() == 0 || paths[i][0] != '/',
        forall|k: int| 0 <= k < paths[i].len() && paths[i][k] == '/' ==> exp.contains(#[trigger] paths[i].take(k)),
    ensures
        exists|j: int| 0 <= j < level_items(paths, exp, Seq::empty(), 0).len() && #[trigger] file_row_of(level_items(paths, exp, Seq::empty(), 0)[j], i),
{
    assert(below_prefix(Seq::<char>::empty()).len() == 0);
    lemma_level_complete(paths, exp, Seq::empty(), 0, i);
}

/// How many `/` a path holds.
pub open spec fn slashes(s: Seq<char>) -> nat
    decreases s.len(),
{
    if s.len() == 0 {
        0
    } else {
        slashes(s.drop_last()) + if s.last() == '/' { 1nat } else { 0nat }
    }
}

/// The nesting of the rows shown below `parent`.
pub open spec fn base_depth(parent: Seq<char>) -> nat {
    if parent.len() == 0 { 0 } else { slashes(parent) + 1 }
}

/// Every row is nested as deep as its path has `/`s.
pub open spec fn depths_ok(r: ItemView, paths: Seq<Seq<char>>) -> bool {
    match r {
        ItemView::Folder { path, depth, .. } => depth == slashes(path),
        ItemView::File { idx, depth } => depth == slashes(paths[idx as int]),
    }
}

proof fn lemma_slashes_add(a: Seq<char>, b: Seq<char>)
    ensures
        slashes(a + b) == slashes(a) + slashes(b),
    decreases b.len(),
{
    if b.len() == 0 {
        assert(a + b =~= a);
    } else {
        lemma_slashes_add(a, b.drop_last());
        assert((a + b).drop_last() =~= a + b.drop_last());
        assert((a + b).last() == b.last());
    }
}

proof fn lemma_slashes_none(s: Seq<char>)
    requires
        forall|j: int| 0 <= j < s.len() ==> s[j] != '/',
    ensures
        slashes(s) == 0,
    decreases s.len(),
{
    if s.len() > 0 {
        lemma_slashes_none(s.drop_last());
    }
}

/// A path made of `parent/` (nothing at the root) and a name without `/`
/// holds as many `/`s as the rows below `parent` are deep.
proof fn lemma_slashes_child(p: Seq<char>, parent: Seq<char>)
    requires
        below_prefix(parent).len() <= p.len(),
        p.take(below_prefix(parent).len() as int) == below_prefix(parent),
        forall|j: int| below_prefix(parent).len() <= j < p.len() ==> p[j] != '/',
    ensures
        slashes(p) == base_depth(parent),
{
    let pre = below_prefix(parent);
    let rest = p.skip(pre.len() as int);
    assert(p =~= pre + rest);
    lemma_slashes_add(pre, rest);
    assert forall|j: int| 0 <= j < rest.len() implies rest[j] != '/' by {
        assert(rest[j] == p[j + pre.len()]);
    }
    lemma_slashes_none(rest);
    if parent.len() > 0 {
        assert(pre.drop_last() =~= parent);
    }
}

proof fn lemma_direct_slashes(p: Seq<char>, parent: Seq<char>)
    requires
        is_direct(p, parent),
    ensures
        slashes(p) == base_depth(parent),
{
    reveal_strlit("/");
    let pre = below_prefix(parent);
    let rel = child_rel(p, parent)->0;
    if parent.len() > 0 {
        assert(parent + "/"@ =~= parent.push('/'));
        assert(p.take(pre.len() as int) == pre);
    } else {
        assert(p.take(0) =~= pre);
    }
    assert(rel =~= p.skip(pre.len() as int));
    crate::text::lemma_index_or_len_bounds(rel, '/');
    assert forall|j: int| pre.len() <= j < p.len() implies p[j] != '/' by {
        assert(rel[j - pre.len()] == p[j]);
    }
    lemma_slashes_child(p, parent);
}

proof fn lemma_level_depths(paths: Seq<Seq<char>>, exp: Seq<Seq<char>>, parent: Seq<char>, depth: nat)
    requires
        depth == base_depth(parent),
    ensures
        forall|i: int| 0 <= i < level_items(paths, exp, parent, depth).len() ==> depths_ok(#[trigger] level_items(paths, exp, parent, depth)[i], paths),
    decreases budget(paths, parent), dir_table(paths, zeros(paths.len()), parent).len() + 1,
{
    let t = dir_table(paths, zeros(paths.len()), parent);
    lemma_dir_table_shape(paths, zeros(paths.len()), parent);
    lemma_folders_depths(paths, exp, parent, t, depth);
    lemma_direct_indices(paths, parent);
    let di = direct_indices(paths, parent);
    let fa = folder_items(paths, exp, parent, t, depth);
    let files = di.map_values(|i: int| ItemView::File { idx: i as nat, depth });
    let a = level_items(paths, exp, parent, depth);
    assert(a == fa + files);
    assert forall|i: int| 0 <= i < a.len() implies depths_ok(#[trigger] a[i], paths) by {
        if i >= fa.len() {
            let j = i - fa.len();
            assert(a[i] == files[j]);
            lemma_direct_slashes(paths[di[j]], parent);
        } else {
            assert(a[i] == fa[i]);
        }
    }
}

proof fn lemma_folders_depths(paths: Seq<Seq<char>>, exp: Seq<Seq<char>>, parent: Seq<char>, t: Seq<DirRow>, depth: nat)
    requires
        depth == base_depth(parent),
        table_forms(t, parent),
    ensures
        forall|i: int| 0 <= i < folder_items(paths, exp, parent, t, depth).len() ==> depths_ok(#[trigger] folder_items(paths, exp, parent, t, depth)[i], paths),
    decreases budget(paths, parent), t.len(),
{
    if t.len() > 0 {
        let d = t[0].dir;
        let open = exp.contains(d);
        let cond = open && dir_ok(paths, parent, d) && d.len() > parent.len();
        let head = ItemView::Folder { path: d, count: child_count(paths, d), expanded: open, depth };
        let sub = if cond { level_items(paths, exp, d, depth + 1) } else { Seq::empty() };
        let t2 = t.drop_first();
        let rest = folder_items(paths, exp, parent, t2, depth);
        let a = folder_items(paths, exp, parent, t, depth);
        assert(a == seq![head] + sub + rest);
        assert(child_form(d, parent));
        lemma_slashes_child(d, parent);
        if cond {
            assert(base_depth(d) == depth + 1);
            lemma_level_depths(paths, exp, d, depth + 1);
        }
        assert(table_forms(t2, parent)) by {
            assert forall|j: int| 0 <= j < t2.len() implies child_form(#[trigger] t2[j].dir, parent) by {
                assert(t2[j] == t[j + 1]);
            }
        }
        lemma_folders_depths(paths, exp, parent, t2, depth);
        assert forall|i: int| 0 <= i < a.len() implies depths_ok(#[trigger] a[i], paths) by {
            if 0 < i < 1 + sub.len() {
                assert(a[i] == sub[i - 1]);
            } else if i >= 1 + sub.len() {
                assert(a[i] == rest[i - 1 - sub.len()]);
            }
        }
    }
}

/// Every row of the tree is nested as deep as its path has `/`s.
pub proof fn lemma_tree_depths(paths: Seq<Seq<char>>, exp: Seq<Seq<char>>)
    ensures
        forall|i: int| 0 <= i < level_items(paths, exp, Seq::empty(), 0).len() ==> depths_ok(#[trigger] level_items(paths, exp, Seq::empty(), 0)[i], paths),
{
    lemma_level_depths(paths, exp, Seq::empty(), 0);
}

/// A header row names a folder whose folders below `parent` are all open.
pub open spec fn header_shown_open(r: ItemView, parent: Seq<char>, exp: Seq<Seq<char>>) -> bool {
    r matches ItemView::Folder { path, .. } ==> opened_along(path, parent, exp)
}

/// The row is the header of folder `d`.
pub open spec fn header_row_of(r: ItemView, d: Seq<char>) -> bool {
    r matches ItemView::Folder { path, .. } && path == d
}

proof fn lemma_level_headers_open(paths: Seq<Seq<char>>, exp: Seq<Seq<char>>, parent: Seq<char>, depth: nat)
    ensures
        forall|i: int| 0 <= i < level_items(paths, exp, parent, depth).len() ==>
            header_shown_open(#[trigger] level_items(paths, exp, parent, depth)[i], parent, exp),
    decreases budget(paths, parent), dir_table(paths, zeros(paths.len()), parent).len() + 1,
{
    let t = dir_table(paths, zeros(paths.len()), parent);
    lemma_dir_table_shape(paths, zeros(paths.len()), parent);
    lemma_folders_headers_open(paths, exp, parent, t, depth);
    let di = direct_indices(paths, parent);
    let fa = folder_items(paths, exp, parent, t, depth);
    let files = di.map_values(|i: int| ItemView::File { idx: i as nat, depth });
    let a = level_items(paths, exp, parent, depth);
    assert(a == fa + files);
    assert forall|i: int| 0 <= i < a.len() implies header_shown_open(#[trigger] a[i], parent, exp) by {
        if i >= fa.len() {
            assert(a[i] == files[i - fa.len()]);
        } else {
            assert(a[i] == fa[i]);
        }
    }
}

proof fn lemma_folders_headers_open(paths: Seq<Seq<char>>, exp: Seq<Seq<char>>, parent: Seq<char>, t: Seq<DirRow>, depth: nat)
    requires
        table_forms(t, parent),
    ensures
        forall|i: int| 0 <= i < folder_items(paths, exp, parent, t, depth).len() ==>
            header_shown_open(#[trigger] folder_items(paths, exp, parent, t, depth)[i], parent, exp),
    decreases budget(paths, parent), t.len(),
{
    if t.len() > 0 {
        let d = t[0].dir;
        let open = exp.contains(d);
        let cond = open && dir_ok(paths, parent, d) && d.len() > parent.len();
        let head = ItemView::Folder { path: d, count: child_count(paths, d), expanded: open, depth };
        let sub = if cond { level_items(paths, exp, d, depth + 1) } else { Seq::empty() };
        let t2 = t.drop_first();
        let rest = folder_items(paths, exp, parent, t2, depth);
        let a = folder_items(paths, exp, parent, t, depth);
        assert(a == seq![head] + sub + rest);
        assert(child_form(d, parent));
        if cond {
            lemma_level_headers_open(paths, exp, d, depth + 1);
            lemma_level_unique(paths, exp, d, depth + 1);
        }
        assert(table_forms(t2, parent)) by {
            assert forall|j: int| 0 <= j < t2.len() implies child_form(#[trigger] t2[j].dir, parent) by {
                assert(t2[j] == t[j + 1]);
            }
        }
        lemma_folders_headers_open(paths, exp, parent, t2, depth);
        assert forall|i: int| 0 <= i < a.len() implies header_shown_open(#[trigger] a[i], parent, exp) by {
            if i == 0 {
                assert(a[0] == head);
                assert forall|k: int| below_prefix(parent).len() <= k < d.len() && d[k] == '/' implies exp.contains(#[trigger] d.take(k)) by {}
            } else if i < 1 + sub.len() {
                assert(a[i] == sub[i - 1]);
                if a[i] is Folder {
                    let x = a[i]->Folder_path;
                    assert(row_below(sub[i - 1], d));
                    assert(header_shown_open(sub[i - 1], d, exp));
                    lemma_opened_through(x, d, parent, exp);
                }
            } else {
                assert(a[i] == rest[i - 1 - sub.len()]);
            }
        }
    }
}

/// A folder has a header in the tree only when every folder above it is
/// open.
pub proof fn lemma_tree_headers_open(paths: Seq<Seq<char>>, exp: Seq<Seq<char>>)
    ensures
        forall|i: int| 0 <= i < level_items(paths, exp, Seq::empty(), 0).len() ==>
            (#[trigger] level_items(paths, exp, Seq::empty(), 0)[i] matches ItemView::Folder { path, .. } ==>
                forall|k: int| 0 <= k < path.len() && path[k] == '/' ==> exp.contains(#[trigger] path.take(k))),
{
    lemma_level_headers_open(paths, exp, Seq::empty(), 0);
    assert forall|i: int| 0 <= i < level_items(paths, exp, Seq::empty(), 0).len() implies
        (#[trigger] level_items(paths, exp, Seq::empty(), 0)[i] matches ItemView::Folder { path, .. } ==>
            forall|k: int| 0 <= k < path.len() && path[k] == '/' ==> exp.contains(#[trigger] path.take(k))) by {
        assert(header_shown_open(level_items(paths, exp, Seq::empty(), 0)[i], Seq::empty(), exp));
        assert(below_prefix(Seq::<char>::empty()).len() == 0);
    }
}

proof fn lemma_folders_contain_header(paths: Seq<Seq<char>>, exp: Seq<Seq<char>>, parent: Seq<char>, t: Seq<DirRow>, depth: nat, k: int, e: Seq<char>)
    requires
        0 <= k < t.len(),
        t[k].dir == e || (exp.contains(t[k].dir) && dir_ok(paths, parent, t[k].dir) && t[k].dir.len() > parent.len()
            && exists|j: int| 0 <= j < level_items(paths, exp, t[k].dir, depth + 1).len() && #[trigger] header_row_of(level_items(paths, exp, t[k].dir, depth + 1)[j], e)),
    ensures
        exists|j: int| 0 <= j < folder_items(paths, exp, parent, t, depth).len() && #[trigger] header_row_of(folder_items(paths, exp, parent, t, depth)[j], e),
    decreases t.len(),
{
    let d = t[0].dir;
    let open = exp.contains(d);
    let cond = open && dir_ok(paths, parent, d) && d.len() > parent.len();
    let head = ItemView::Folder { path: d, count: child_count(paths, d), expanded: open, depth };
    let sub = if cond { level_items(paths, exp, d, depth + 1) } else { Seq::empty() };
    let t2 = t.drop_first();
    let rest = folder_items(paths, exp, parent, t2, depth);
    let a = folder_items(paths, exp, parent, t, depth);
    assert(a == seq![head] + sub + rest);
    if k == 0 {
        if d == e {
            assert(header_row_of(a[0], e));
        } else {
            let j = choose|j: int| 0 <= j < sub.len() && #[trigger] header_row_of(sub[j], e);
            assert(a[1 + j] == sub[j]);
        }
    } else {
        assert(t2[k - 1] == t[k]);
        lemma_folders_contain_header(paths, exp, parent, t2, depth, k - 1, e);
        let j = choose|j: int| 0 <= j < rest.len() && #[trigger] header_row_of(rest[j], e);
        assert(a[1 + sub.len() + j] == rest[j]);
    }
}

proof fn lemma_level_header_complete(paths: Seq<Seq<char>>, exp: Seq<Seq<char>>, parent: Seq<char>, depth: nat, i: int, n: int)
    requires
        0 <= i < paths.len(),
        parent.len() > 0 ==> below(paths[i], parent),
        parent.len() == 0 ==> paths[i].len() == 0 || paths[i][0] != '/',
        below_prefix(parent).len() <= n < paths[i].len(),
        paths[i][n] == '/',
        forall|k: int| below_prefix(parent).len() <= k < n && paths[i][k] == '/' ==> exp.contains(#[trigger] paths[i].take(k)),
    ensures
        exists|j: int| 0 <= j < level_items(paths, exp, parent, depth).len() && #[trigger] header_row_of(level_items(paths, exp, parent, depth)[j], paths[i].take(n)),
    decreases budget(paths, parent), dir_table(paths, zeros(paths.len()), parent).len() + 1,
{
    reveal_strlit("/");
    let p = paths[i];
    let e = p.take(n);
    let t = dir_table(paths, zeros(paths.len()), parent);
    let fa = folder_items(paths, exp, parent, t, depth);
    let a = level_items(paths, exp, parent, depth);
    let di = direct_indices(paths, parent);
    let files = di.map_values(|x: int| ItemView::File { idx: x as nat, depth });
    assert(a == fa + files);
    let pre = below_prefix(parent);
    if parent.len() > 0 {
        assert(parent + "/"@ =~= parent.push('/'));
        assert(p.take(pre.len() as int) =~= parent.push('/')) by {
            assert forall|j: int| 0 <= j < pre.len() implies p.take(pre.len() as int)[j] == parent.push('/')[j] by {
                if j < parent.len() {
                    assert(p[j] == p.take(parent.len() as int)[j]);
                }
            }
        }
        assert(starts_with(p, parent + "/"@));
    }
    assert(child_rel(p, parent) == Some(p.skip(pre.len() as int)));
    let rel = p.skip(pre.len() as int);
    let m = index_or_len(rel, '/');
    crate::text::lemma_index_or_len_bounds(rel, '/');
    assert(rel[n - pre.len()] == p[n]);
    assert(m <= n - pre.len());
    let d = child_dir(p, parent)->0;
    if parent.len() == 0 {
        assert(rel[0] == p[0]);
        assert(m > 0);
        assert(d == rel.take(m));
    } else {
        assert(d == parent + "/"@ + rel.take(m));
    }
    assert(d.len() == pre.len() + m);
    assert(p[d.len() as int] == rel[m]);
    assert(d =~= p.take(d.len() as int)) by {
        assert forall|j: int| 0 <= j < d.len() implies d[j] == p.take(d.len() as int)[j] by {
            if j < pre.len() {
                assert(p.take(pre.len() as int)[j] == p[j]);
            } else {
                assert(rel[j - pre.len()] == p[j]);
            }
        }
    }
    lemma_child_dir_form(p, parent);
    lemma_dir_table_has(paths, zeros(paths.len()), parent, i);
    let k = choose|k: int| 0 <= k < t.len() && #[trigger] t[k].dir == d;
    lemma_max_len(paths);
    if d.len() == n {
        lemma_folders_contain_header(paths, exp, parent, t, depth, k, e);
    } else {
        assert(exp.contains(p.take(d.len() as int)));
        assert(dir_ok(paths, parent, d));
        assert(below(p, d));
        assert(below_prefix(d) == d.push('/'));
        lemma_level_header_complete(paths, exp, d, depth + 1, i, n);
        lemma_folders_contain_header(paths, exp, parent, t, depth, k, e);
    }
    let j = choose|j: int| 0 <= j < fa.len() && #[trigger] header_row_of(fa[j], e);
    assert(a[j] == fa[j]);
}

/// A folder on the path of a file (the path up to one of its `/`) has a
/// header in the tree when every folder above it is open (when the path
/// does not start with `/`).
pub proof fn lemma_tree_headers_complete(paths: Seq<Seq<char>>, exp: Seq<Seq<char>>, i: int, n: int)
    requires
        0 <= i < paths.len(),
        paths[i].len() == 0 || paths[i][0] != '/',
        0 <= n < paths[i].len(),
        paths[i][n] == '/',
        forall|k: int| 0 <= k < n && paths[i][k] == '/' ==> exp.contains(#[trigger] paths[i].take(k)),
    ensures
        exists|j: int| 0 <= j < level_items(paths, exp, Seq::empty(), 0).len() && #[trigger] header_row_of(level_items(paths, exp, Seq::empty(), 0)[j], paths[i].take(n)),
{
    assert(below_prefix(Seq::<char>::empty()).len() == 0);
    lemma_level_header_complete(paths, exp, Seq::empty(), 0, i, n);
}

/// `d` is a folder on the path of one of the files: the path up to one of
/// its `/`.
pub open spec fn is_path_folder(paths: Seq<Seq<char>>, d: Seq<char>) -> bool {
    exists|i: int, n: int| 0 <= i < paths.len() && 0 <= n < paths[i].len() && paths[i][n] == '/' && #[trigger] paths[i].take(n) == d
}

proof fn lemma_child_dir_is_path_folder(paths: Seq<Seq<char>>, i: int, parent: Seq<char>)
    requires
        0 <= i < paths.len(),
        child_dir(paths[i], parent) is Some,
    ensures
        is_path_folder(paths, child_dir(paths[i], parent)->0),
{
    reveal_strlit("/");
    let p = paths[i];
    let pre = below_prefix(parent);
    if parent.len() > 0 {
        assert(parent + "/"@ =~= parent.push('/'));
        assert(starts_with(p, parent + "/"@));
        assert(p.take(pre.len() as int) == pre);
    } else {
        assert(p.take(0) =~= pre);
    }
    let rel = p.skip(pre.len() as int);
    assert(child_rel(p, parent) == Some(rel));
    let m = index_or_len(rel, '/');
    crate::text::lemma_index_or_len_bounds(rel, '/');
    let d = child_dir(p, parent)->0;
    if parent.len() == 0 {
        assert(d == rel.take(m));
    } else {
        assert(d == parent + "/"@ + rel.take(m));
    }
    assert(p[pre.len() + m] == rel[m]);
    assert(d =~= p.take(pre.len() + m)) by {
        assert forall|j: int| 0 <= j < d.len() implies d[j] == p.take(pre.len() + m)[j] by {
            if j < pre.len() {
                assert(p.take(pre.len() as int)[j] == p[j]);
            } else {
                assert(rel[j - pre.len()] == p[j]);
            }
        }
    }
    assert(paths[i].take(pre.len() + m) == d);
}

proof fn lemma_table_path_folders(paths: Seq<Seq<char>>, ws: Seq<nat>, parent: Seq<char>)
    ensures
        forall|k: int| 0 <= k < dir_table(paths, ws, parent).len() ==> is_path_folder(paths, #[trigger] dir_table(paths, ws, parent)[k].dir),
    decreases paths.len(),
{
    if paths.len() > 0 {
        let q = paths.drop_last();
        lemma_table_path_folders(q, ws.drop_last(), parent);
        let t = dir_table(q, ws.drop_last(), parent);
        let r = dir_table(paths, ws, parent);
        assert forall|k: int| 0 <= k < t.len() implies is_path_folder(paths, #[trigger] t[k].dir) by {
            assert(is_path_folder(q, t[k].dir));
            let (i, n) = choose|i: int, n: int| 0 <= i < q.len() && 0 <= n < q[i].len() && q[i][n] == '/' && #[trigger] q[i].take(n) == t[k].dir;
            assert(paths[i] == q[i]);
            assert(paths[i].take(n) == t[k].dir);
        }
        match child_dir(paths.last(), parent) {
            Some(d) => {
                lemma_child_dir_is_path_folder(paths, paths.len() - 1, parent);
                lemma_table_add_dirs(t, d, ws.last());
                assert forall|k: int| 0 <= k < r.len() implies is_path_folder(paths, #[trigger] r[k].dir) by {
                    if r[k].dir != d {
                        let k2 = choose|k2: int| 0 <= k2 < t.len() && t[k2].dir == r[k].dir;
                        assert(is_path_folder(paths, t[k2].dir));
                    }
                }
            },
            None => {},
        }
    }
}

proof fn lemma_level_path_folders(paths: Seq<Seq<char>>, exp: Seq<Seq<char>>, parent: Seq<char>, depth: nat)
    ensures
        forall|i: int| 0 <= i < level_items(paths, exp, parent, depth).len() ==>
            (#[trigger] level_items(paths, exp, parent, depth)[i] matches ItemView::Folder { path, .. } ==> is_path_folder(paths, path)),
    decreases budget(paths, parent), dir_table(paths, zeros(paths.len()), parent).len() + 1,
{
    let t = dir_table(paths, zeros(paths.len()), parent);
    lemma_table_path_folders(paths, zeros(paths.len()), parent);
    lemma_folders_path_folders(paths, exp, parent, t, depth);
    let di = direct_indices(paths, parent);
    let fa = folder_items(paths, exp, parent, t, depth);
    let files = di.map_values(|i: int| ItemView::File { idx: i as nat, depth });
    let a = level_items(paths, exp, parent, depth);
    assert(a == fa + files);
    assert forall|i: int| 0 <= i < a.len() implies (#[trigger] a[i] matches ItemView::Folder { path, .. } ==> is_path_folder(paths, path)) by {
        if i >= fa.len() {
            assert(a[i] == files[i - fa.len()]);
        } else {
            assert(a[i] == fa[i]);
        }
    }
}

proof fn lemma_folders_path_folders(paths: Seq<Seq<char>>, exp: Seq<Seq<char>>, parent: Seq<char>, t: Seq<DirRow>, depth: nat)
    requires
        forall|k: int| 0 <= k < t.len() ==> is_path_folder(paths, #[trigger] t[k].dir),
    ensures
        forall|i: int| 0 <= i < folder_items(paths, exp, parent, t, depth).len() ==>
            (#[trigger] folder_items(paths, exp, parent, t, depth)[i] matches ItemView::Folder { path, .. } ==> is_path_folder(paths, path)),
    decreases budget(paths, parent), t.len(),
{
    if t.len() > 0 {
        let d = t[0].dir;
        let open = exp.contains(d);
        let cond = open && dir_ok(paths, parent, d) && d.len() > parent.len();
        let head = ItemView::Folder { path: d, count: child_count(paths, d), expanded: open, depth };
        let sub = if cond { level_items(paths, exp, d, depth + 1) } else { Seq::empty() };
        let t2 = t.drop_first();
        let rest = folder_items(paths, exp, parent, t2, depth);
        let a = folder_items(paths, exp, parent, t, depth);
        assert(a == seq![head] + sub + rest);
        if cond {
            lemma_level_path_folders(paths, exp, d, depth + 1);
        }
        assert forall|k: int| 0 <= k < t2.len() implies is_path_folder(paths, #[trigger] t2[k].dir) by {
            assert(t2[k] == t[k + 1]);
        }
        lemma_folders_path_folders(paths, exp, parent, t2, depth);
        assert forall|i: int| 0 <= i < a.len() implies (#[trigger] a[i] matches ItemView::Folder { path, .. } ==> is_path_folder(paths, path)) by {
            if i == 0 {
                assert(is_path_folder(paths, t[0].dir));
            } else if i < 1 + sub.len() {
                assert(a[i] == sub[i - 1]);
            } else {
                assert(a[i] == rest[i - 1 - sub.len()]);
            }
        }
    }
}

/// Every header of the tree is a folder on the path of one of the files.
pub proof fn lemma_tree_headers_are_path_folders(paths: Seq<Seq<char>>, exp: Seq<Seq<char>>)
    ensures
        forall|i: int| 0 <= i < level_items(paths, exp, Seq::empty(), 0).len() ==>
            (#[trigger] level_items(paths, exp, Seq::empty(), 0)[i] matches ItemView::Folder { path, .. } ==> is_path_folder(paths, path)),
{
    lemma_level_path_folders(paths, exp, Seq::empty(), 0);
}

/// Every folder on the path `p` (the path up to each of its `/`) is open.
pub open spec fn path_open(p: Seq<char>, exp: Seq<Seq<char>>) -> bool {
    forall|k: int| 0 <= k < p.len() && p[k] == '/' ==> exp.contains(#[trigger] p.take(k))
}

/// The layout of the repository tree (the rows `build_display_items` gives
/// for files with these paths), for paths that do not start with `/`:
/// a file has a row exactly when every folder on its path is open, and then
/// one row only; a folder on a file's path has a header exactly when every
/// folder above it is open, and then one header only; every header is such
/// a folder; every row is nested as deep as its path has `/`s; and every
/// file row names one of the files.
pub proof fn lemma_tree_layout(paths: Seq<Seq<char>>, exp: Seq<Seq<char>>)
    requires
        forall|i: int| 0 <= i < paths.len() ==> (#[trigger] paths[i]).len() == 0 || paths[i][0] != '/',
    ensures
        forall|i: int| 0 <= i < paths.len() ==> (
            (exists|j: int| 0 <= j < level_items(paths, exp, Seq::empty(), 0).len()
                && #[trigger] file_row_of(level_items(paths, exp, Seq::empty(), 0)[j], i))
            <==> path_open(#[trigger] paths[i], exp)),
        files_distinct(level_items(paths, exp, Seq::empty(), 0)),
        forall|i: int, n: int| 0 <= i < paths.len() && 0 <= n < paths[i].len() && paths[i][n] == '/' ==> (
            (exists|j: int| 0 <= j < level_items(paths, exp, Seq::empty(), 0).len()
                && #[trigger] header_row_of(level_items(paths, exp, Seq::empty(), 0)[j], paths[i].take(n)))
            <==> path_open(#[trigger] paths[i].take(n), exp)),
        forall|j: int| 0 <= j < level_items(paths, exp, Seq::empty(), 0).len() ==>
            (#[trigger] level_items(paths, exp, Seq::empty(), 0)[j] matches ItemView::Folder { path, .. } ==>
                is_path_folder(paths, path) && path_open(path, exp)),
        headers_distinct(level_items(paths, exp, Seq::empty(), 0)),
        forall|j: int| 0 <= j < level_items(paths, exp, Seq::empty(), 0).len() ==>
            depths_ok(#[trigger] level_items(paths, exp, Seq::empty(), 0)[j], paths),
        forall|j: int| 0 <= j < level_items(paths, exp, Seq::empty(), 0).len() ==>
            (#[trigger] level_items(paths, exp, Seq::empty(), 0)[j] matches ItemView::File { idx, .. } ==> idx < paths.len()),
{
    let rows = level_items(paths, exp, Seq::empty(), 0);
    lemma_tree_files_distinct(paths, exp);
    lemma_tree_files_open(paths, exp);
    lemma_tree_headers_distinct(paths, exp);
    lemma_tree_headers_open(paths, exp);
    lemma_tree_headers_are_path_folders(paths, exp);
    lemma_tree_depths(paths, exp);
    assert forall|i: int| 0 <= i < paths.len() implies (
        (exists|j: int| 0 <= j < rows.len() && #[trigger] file_row_of(rows[j], i)) <==> path_open(#[trigger] paths[i], exp)) by {
        if path_open(paths[i], exp) {
            assert(paths[i].len() == 0 || paths[i][0] != '/');
            lemma_tree_files_complete(paths, exp, i);
        }
        if exists|j: int| 0 <= j < rows.len() && #[trigger] file_row_of(rows[j], i) {
            let j = choose|j: int| 0 <= j < rows.len() && #[trigger] file_row_of(rows[j], i);
            assert(rows[j] matches ItemView::File { idx, .. } && idx == i);
        }
    }
    assert forall|i: int, n: int| 0 <= i < paths.len() && 0 <= n < paths[i].len() && paths[i][n] == '/' implies (
        (exists|j: int| 0 <= j < rows.len() && #[trigger] header_row_of(rows[j], paths[i].take(n)))
        <==> path_open(#[trigger] paths[i].take(n), exp)) by {
        let q = paths[i].take(n);
        if path_open(q, exp) {
            assert(paths[i].len() == 0 || paths[i][0] != '/');
            assert forall|k: int| 0 <= k < n && paths[i][k] == '/' implies exp.contains(#[trigger] paths[i].take(k)) by {
                assert(q[k] == paths[i][k]);
                assert(q.take(k) =~= paths[i].take(k));
            }
            lemma_tree_headers_complete(paths, exp, i, n);
        }
        if exists|j: int| 0 <= j < rows.len() && #[trigger] header_row_of(rows[j], q) {
            let j = choose|j: int| 0 <= j < rows.len() && #[trigger] header_row_of(rows[j], q);
            assert(rows[j] matches ItemView::Folder { path, .. } && path == q);
        }
    }
}

/// The order within each level of the tree: the child folders come in
/// increasing order of their paths, and the files directly in a folder in
/// increasing order of their positions.
pub proof fn lemma_level_order(paths: Seq<Seq<char>>, parent: Seq<char>)
    ensures
        dirs_sorted(dir_table(paths, zeros(paths.len()), parent)),
        forall|i: int, j: int| 0 <= i < j < direct_indices(paths, parent).len() ==>
            #[trigger] direct_indices(paths, parent)[i] < #[trigger] direct_indices(paths, parent)[j],
{
    lemma_dir_table_shape(paths, zeros(paths.len()), parent);
    lemma_direct_indices(paths, parent);
}

/// Whether `d` is one of the folders in `exp`.
pub fn contains_chars(exp: &Vec<Vec<char>>, d: &[char]) -> (r: bool)
    ensures
        r == chars_view(exp@).contains(d@),
{
    let mut i: usize = 0;
    while i < exp.len()
        invariant
            i <= exp@.len(),
            forall|j: int| 0 <= j < i ==> chars_view(exp@)[j] != d@,
        decreases exp@.len() - i,
    {
        if crate::text::seq_eq(exp[i].as_slice(), d) {
            proof { assert(chars_view(exp@)[i as int] == d@); }
            return true;
        }
        i = i + 1;
    }
    false
}

/// No folder in the list is the empty path.
pub open spec fn no_empty(exp: Seq<Seq<char>>) -> bool {
    forall|i: int| 0 <= i < exp.len() ==> #[trigger] exp[i].len() > 0
}

fn build_level(
    paths: &Vec<Vec<char>>,
    zero_ws: &Vec<u64>,
    exp: &Vec<Vec<char>>,
    parent: &[char],
    depth: usize,
    out: &mut Vec<DisplayItem>,
)
    requires
        zero_ws@.len() == paths@.len(),
        forall|i: int| 0 <= i < zero_ws@.len() ==> #[trigger] zero_ws@[i] == 0,
        no_empty(chars_view(exp@)),
        depth <= parent@.len(),
    ensures
        items_view(final(out)@) == items_view(old(out)@) + level_items(
            chars_view(paths@),
            chars_view(exp@),
            parent@,
            depth as nat,
        ),
    decreases budget(chars_view(paths@), parent@),
{
    let ghost ps = chars_view(paths@);
    let ghost ev = chars_view(exp@);
    proof {
        assert(weights(zero_ws@) =~= zeros(paths@.len()));
        assert(wsum(weights(zero_ws@)) == 0) by {
            lemma_wsum_zero(weights(zero_ws@));
        }
    }
    let (t, direct) = dir_table_exec(paths, zero_ws.as_slice(), parent);
    let ghost tv = rows_view(t@);
    let ghost out0 = items_view(out@);
    let mut k: usize = 0;
    proof {
        assert(tv.skip(0) =~= tv);
        assert(out0 + folder_items(ps, ev, parent@, tv, depth as nat) =~= items_view(out@)
            + folder_items(ps, ev, parent@, tv.skip(0), depth as nat));
    }
    while k < t.len()
        invariant
            k <= t@.len(),
            tv == rows_view(t@),
            ps == chars_view(paths@),
            ev == chars_view(exp@),
            table_ok(ps, parent@, tv),
            tv == dir_table(ps, zeros(ps.len()), parent@),
            zero_ws@.len() == paths@.len(),
            forall|i: int| 0 <= i < zero_ws@.len() ==> #[trigger] zero_ws@[i] == 0,
            no_empty(ev),
            depth <= parent@.len(),
            out0 + folder_items(ps, ev, parent@, tv, depth as nat) == items_view(out@)
                + folder_items(ps, ev, parent@, tv.skip(k as int), depth as nat),
        decreases t@.len() - k,
    {
        let dv = to_chars(t[k].dir.as_str());
        let is_open = contains_chars(exp, dv.as_slice());
        let ghost row = tv[k as int];
        proof {
            assert(tv.skip(k as int)[0] == row);
            assert(tv.skip(k as int).drop_first() =~= tv.skip(k + 1));
            assert(dir_ok(ps, parent@, row.dir));
            if is_open {
                let j = choose|j: int| 0 <= j < ev.len() && ev[j] == row.dir;
                assert(ev[j].len() > 0);
            }
        }
        proof {
            assert(weights(zero_ws@) =~= zeros(paths@.len()));
            lemma_wsum_zero(weights(zero_ws@));
        }
        let (sub_t, sub_direct) = dir_table_exec(paths, zero_ws.as_slice(), dv.as_slice());
        let total = paths.len();
        assert(sub_t@.len() + sub_direct@.len() <= total);
        let count = sub_t.len() + sub_direct.len();
        proof {
            assert(weights(zero_ws@) =~= zeros(paths@.len()));
            assert(sub_direct@.map_values(|i: usize| i as int).len() == sub_direct@.len());
        }
        let ghost before = items_view(out@);
        out.push(DisplayItem::FolderHeader {
            path: t[k].dir.clone(),
            count,
            expanded: is_open,
            depth,
        });
        proof {
            assert(items_view(out@) =~= before.push(ItemView::Folder { path: row.dir, count: child_count(ps, row.dir), expanded: is_open, depth: depth as nat }));
        }
        if is_open {
            let dl = dv.len();
            assert(depth < dl);
            build_level(paths, zero_ws, exp, dv.as_slice(), depth + 1, out);
        }
        proof {
            let head = ItemView::Folder { path: row.dir, count: child_count(ps, row.dir), expanded: is_open, depth: depth as nat };
            let sub = if is_open && dir_ok(ps, parent@, row.dir) && row.dir.len() > parent@.len() {
                level_items(ps, ev, row.dir, depth as nat + 1)
            } else {
                Seq::empty()
            };
            assert(folder_items(ps, ev, parent@, tv.skip(k as int), depth as nat) == seq![head] + sub
                + folder_items(ps, ev, parent@, tv.skip(k + 1), depth as nat));
            assert(items_view(out@) =~= before.push(head) + sub);
        }
        k = k + 1;
    }
    let ghost mid = items_view(out@);
    proof {
        assert(tv.skip(k as int).len() == 0);
        assert(mid =~= out0 + folder_items(ps, ev, parent@, tv, depth as nat));
    }
    let mut j: usize = 0;
    let ghost files = direct_indices(ps, parent@).map_values(|i: int| ItemView::File { idx: i as nat, depth: depth as nat });
    while j < direct.len()
        invariant
            j <= direct@.len(),
            direct@.map_values(|i: usize| i as int) == direct_indices(ps, parent@),
            files == direct_indices(ps, parent@).map_values(|i: int| ItemView::File { idx: i as nat, depth: depth as nat }),
            items_view(out@) == mid + files.take(j as int),
        decreases direct@.len() - j,
    {
        let ghost before = items_view(out@);
        out.push(DisplayItem::FileEntry { file_idx: direct[j], depth });
        proof {
            assert(direct@.map_values(|i: usize| i as int)[j as int] == direct@[j as int] as int);
            assert(files.take(j + 1) =~= files.take(j as int).push(files[j as int]));
            assert(items_view(out@) =~= before.push(ItemView::File { idx: direct@[j as int] as nat, depth: depth as nat }));
        }
        j = j + 1;
    }
    proof {
        assert(files.take(j as int) =~= files);
        assert(items_view(out@) =~= out0 + level_items(ps, ev, parent@, depth as nat));
    }
}

pub proof fn lemma_wsum_zero(ws: Seq<nat>)
    requires
        forall|i: int| 0 <= i < ws.len() ==> ws[i] == 0,
    ensures
        wsum(ws) == 0,
    decreases ws.len(),
{
    if ws.len() > 0 {
        lemma_wsum_zero(ws.drop_last());
    }
}

/// The paths of a list of files.
pub open spec fn file_paths(files: Seq<GitFile>) -> Seq<Seq<char>> {
    files.map_values(|f: GitFile| f.path@)
}

/// The character vectors of a list of strings.
pub fn chars_of_strings(v: &[String]) -> (r: Vec<Vec<char>>)
    ensures
        chars_view(r@) == crate::git::strs_view(v@),
{
    let mut out: Vec<Vec<char>> = Vec::new();
    let mut i: usize = 0;
    while i < v.len()
        invariant
            i <= v@.len(),
            out@.len() == i,
            forall|k: int| 0 <= k < i ==> #[trigger] out@[k]@ == v@[k]@,
        decreases v@.len() - i,
    {
        out.push(to_chars(v[i].as_str()));
        i = i + 1;
    }
    proof { assert(chars_view(out@) =~= crate::git::strs_view(v@)); }
    out
}

/// The character vectors of the paths of a list of files.
pub fn chars_of_paths(v: &[GitFile]) -> (r: Vec<Vec<char>>)
    ensures
        chars_view(r@) == file_paths(v@),
{
    let mut out: Vec<Vec<char>> = Vec::new();
    let mut i: usize = 0;
    while i < v.len()
        invariant
            i <= v@.len(),
            out@.len() == i,
            forall|k: int| 0 <= k < i ==> #[trigger] out@[k]@ == v@[k].path@,
        decreases v@.len() - i,
    {
        out.push(to_chars(v[i].path.as_str()));
        i = i + 1;
    }
    proof { assert(chars_view(out@) =~= file_paths(v@)); }
    out
}

/// A weight of zero for each of `n` files.
fn zero_weights(n: usize) -> (r: Vec<u64>)
    ensures
        r@.len() == n,
        forall|i: int| 0 <= i < n ==> #[trigger] r@[i] == 0,
{
    let mut v: Vec<u64> = Vec::new();
    let mut i: usize = 0;
    while i < n
        invariant
            i <= n,
            v@.len() == i,
            forall|k: int| 0 <= k < i ==> #[trigger] v@[k] == 0,
        decreases n - i,
    {
        v.push(0);
        i = i + 1;
    }
    v
}

/// The rows of the repository tree for the files and open folders: the
/// root's child folders in order (each followed by its rows when open),
/// then the files at the root.
pub fn build_display_items(files: &[GitFile], expanded: &[String]) -> (r: Vec<DisplayItem>)
    requires
        no_empty(crate::git::strs_view(expanded@)),
    ensures
        items_view(r@) == level_items(
            file_paths(files@),
            crate::git::strs_view(expanded@),
            Seq::empty(),
            0,
        ),
{
    let paths = chars_of_paths(files);
    let exp = chars_of_strings(expanded);
    let ws = zero_weights(paths.len());
    let root: Vec<char> = Vec::new();
    let mut out: Vec<DisplayItem> = Vec::new();
    build_level(&paths, &ws, &exp, root.as_slice(), 0, &mut out);
    proof {
        assert(items_view(Seq::<DisplayItem>::empty()) =~= Seq::<ItemView>::empty());
        assert(root@ =~= Seq::<char>::empty());
    }
    out
}

// ── Rows of the remote file picker ──────────────────────────────────────────

/// A row of the remote picker: a folder (by its full path) or a file (by
/// its position in the listing).
#[derive(Debug)]
pub enum CursorItem {
    Folder(String),
    File(usize),
}

/// A picker row as plain values.
pub enum CursorView {
    Folder(Seq<char>),
    File(nat),
}

impl View for CursorItem {
    type V = CursorView;

    open spec fn view(&self) -> CursorView {
        match self {
            CursorItem::Folder(p) => CursorView::Folder(p@),
            CursorItem::File(i) => CursorView::File(*i as nat),
        }
    }
}

/// The views of a list of picker rows.
pub open spec fn cursor_view(v: Seq<CursorItem>) -> Seq<CursorView> {
    v.map_values(|c: CursorItem| c@)
}

/// The rows the picker shows for `parent`: the files directly in it, then
/// each child folder (in order) followed by its rows when it is open.
pub open spec fn picker_items(paths: Seq<Seq<char>>, exp: Seq<Seq<char>>, parent: Seq<char>) -> Seq<CursorView>
    decreases budget(paths, parent), dir_table(paths, zeros(paths.len()), parent).len() + 1,
{
    direct_indices(paths, parent).map_values(|i: int| CursorView::File(i as nat))
        + picker_folders(paths, exp, parent, dir_table(paths, zeros(paths.len()), parent))
}

/// The picker rows of the folders of a table.
pub open spec fn picker_folders(paths: Seq<Seq<char>>, exp: Seq<Seq<char>>, parent: Seq<char>, t: Seq<DirRow>) -> Seq<CursorView>
    decreases budget(paths, parent), t.len(),
{
    if t.len() == 0 {
        Seq::empty()
    } else {
        let d = t[0].dir;
        let sub = if exp.contains(d) && dir_ok(paths, parent, d) && d.len() > parent.len() {
            picker_items(paths, exp, d)
        } else {
            Seq::empty()
        };
        seq![CursorView::Folder(d)] + sub + picker_folders(paths, exp, parent, t.drop_first())
    }
}

fn push_direct_files(direct: &Vec<usize>, out: &mut Vec<CursorItem>, ghost_d: Ghost<Seq<int>>)
    requires
        direct@.map_values(|i: usize| i as int) == ghost_d@,
    ensures
        cursor_view(final(out)@) == cursor_view(old(out)@) + ghost_d@.map_values(|i: int| CursorView::File(i as nat)),
{
    let ghost files = ghost_d@.map_values(|i: int| CursorView::File(i as nat));
    let ghost start = cursor_view(out@);
    let mut j: usize = 0;
    proof { assert(files.take(0) =~= Seq::<CursorView>::empty()); assert(start + files.take(0) =~= start); }
    while j < direct.len()
        invariant
            j <= direct@.len(),
            direct@.map_values(|i: usize| i as int) == ghost_d@,
            files == ghost_d@.map_values(|i: int| CursorView::File(i as nat)),
            cursor_view(out@) == start + files.take(j as int),
        decreases direct@.len() - j,
    {
        let ghost before = cursor_view(out@);
        out.push(CursorItem::File(direct[j]));
        proof {
            assert(direct@.map_values(|i: usize| i as int)[j as int] == direct@[j as int] as int);
            assert(files.take(j + 1) =~= files.take(j as int).push(files[j as int]));
            assert(cursor_view(out@) =~= before.push(CursorView::File(direct@[j as int] as nat)));
        }
        j = j + 1;
    }
    proof { assert(files.take(j as int) =~= files); }
}

fn picker_level(
    paths: &Vec<Vec<char>>,
    zero_ws: &Vec<u64>,
    exp: &Vec<Vec<char>>,
    parent: &[char],
    out: &mut Vec<CursorItem>,
)
    requires
        zero_ws@.len() == paths@.len(),
        forall|i: int| 0 <= i < zero_ws@.len() ==> #[trigger] zero_ws@[i] == 0,
        no_empty(chars_view(exp@)),
    ensures
        cursor_view(final(out)@) == cursor_view(old(out)@) + picker_items(
            chars_view(paths@),
            chars_view(exp@),
            parent@,
        ),
    decreases budget(chars_view(paths@), parent@),
{
    let ghost ps = chars_view(paths@);
    let ghost ev = chars_view(exp@);
    proof {
        assert(weights(zero_ws@) =~= zeros(paths@.len()));
        lemma_wsum_zero(weights(zero_ws@));
    }
    let (t, direct) = dir_table_exec(paths, zero_ws.as_slice(), parent);
    let ghost tv = rows_view(t@);
    push_direct_files(&direct, out, Ghost(direct_indices(ps, parent@)));
    let ghost out0 = cursor_view(out@);
    let mut k: usize = 0;
    proof {
        assert(tv.skip(0) =~= tv);
    }
    while k < t.len()
        invariant
            k <= t@.len(),
            tv == rows_view(t@),
            ps == chars_view(paths@),
            ev == chars_view(exp@),
            table_ok(ps, parent@, tv),
            zero_ws@.len() == paths@.len(),
            forall|i: int| 0 <= i < zero_ws@.len() ==> #[trigger] zero_ws@[i] == 0,
            no_empty(ev),
            out0 + picker_folders(ps, ev, parent@, tv) == cursor_view(out@) + picker_folders(
                ps,
                ev,
                parent@,
                tv.skip(k as int),
            ),
        decreases t@.len() - k,
    {
        let dv = to_chars(t[k].dir.as_str());
        let is_open = contains_chars(exp, dv.as_slice());
        let ghost row = tv[k as int];
        proof {
            assert(tv.skip(k as int)[0] == row);
            assert(tv.skip(k as int).drop_first() =~= tv.skip(k + 1));
            assert(dir_ok(ps, parent@, row.dir));
            if is_open {
                let j = choose|j: int| 0 <= j < ev.len() && ev[j] == row.dir;
                assert(ev[j].len() > 0);
            }
        }
        let ghost before = cursor_view(out@);
        out.push(CursorItem::Folder(t[k].dir.clone()));
        if is_open {
            picker_level(paths, zero_ws, exp, dv.as_slice(), out);
        }
        proof {
            let sub = if is_open && dir_ok(ps, parent@, row.dir) && row.dir.len() > parent@.len() {
                picker_items(ps, ev, row.dir)
            } else {
                Seq::empty()
            };
            assert(picker_folders(ps, ev, parent@, tv.skip(k as int)) == seq![CursorView::Folder(row.dir)] + sub
                + picker_folders(ps, ev, parent@, tv.skip(k + 1)));
            assert(cursor_view(out@) =~= before.push(CursorView::Folder(row.dir)) + sub);
        }
        k = k + 1;
    }
    proof {
        assert(tv.skip(k as int).len() == 0);
        assert(tv == dir_table(ps, zeros(ps.len()), parent@));
    }
}

/// The picker rows for a listing and its open folders.
pub fn picker_rows(files: &[crate::git::RemoteFile], expanded: &[String]) -> (r: Vec<CursorItem>)
    requires
        no_empty(crate::git::strs_view(expanded@)),
    ensures
        cursor_view(r@) == picker_items(
            remote_paths(files@),
            crate::git::strs_view(expanded@),
            Seq::empty(),
        ),
{
    let paths = chars_of_remote_paths(files);
    let exp = chars_of_strings(expanded);
    let ws = zero_weights(paths.len());
    let root: Vec<char> = Vec::new();
    let mut out: Vec<CursorItem> = Vec::new();
    picker_level(&paths, &ws, &exp, root.as_slice(), &mut out);
    proof {
        assert(cursor_view(Seq::<CursorItem>::empty()) =~= Seq::<CursorView>::empty());
        assert(root@ =~= Seq::<char>::empty());
    }
    out
}

/// The paths of a listing.
pub open spec fn remote_paths(files: Seq<crate::git::RemoteFile>) -> Seq<Seq<char>> {
    files.map_values(|f: crate::git::RemoteFile| f.path@)
}

/// The character vectors of the paths of a listing.
pub fn chars_of_remote_paths(v: &[crate::git::RemoteFile]) -> (r: Vec<Vec<char>>)
    ensures
        chars_view(r@) == remote_paths(v@),
{
    let mut out: Vec<Vec<char>> = Vec::new();
    let mut i: usize = 0;
    while i < v.len()
        invariant
            i <= v@.len(),
            out@.len() == i,
            forall|k: int| 0 <= k < i ==> #[trigger] out@[k]@ == v@[k].path@,
        decreases v@.len() - i,
    {
        out.push(to_chars(v[i].path.as_str()));
        i = i + 1;
    }
    proof { assert(chars_view(out@) =~= remote_paths(v@)); }
    out
}

/// The number of rows the picker shows.
pub fn tree_len(files: &[crate::git::RemoteFile], expanded: &[String]) -> (r: usize)
    requires
        no_empty(crate::git::strs_view(expanded@)),
    ensures
        r == picker_items(remote_paths(files@), crate::git::strs_view(expanded@), Seq::empty()).len(),
{
    let rows = picker_rows(files, expanded);
    rows.len()
}

/// The picker row at the cursor, if there is one.
pub fn tree_cursor_path(files: &[crate::git::RemoteFile], expanded: &[String], cursor: usize) -> (r: Option<CursorItem>)
    requires
        no_empty(crate::git::strs_view(expanded@)),
    ensures
        ({
            let rows = picker_items(remote_paths(files@), crate::git::strs_view(expanded@), Seq::empty());
            if cursor < rows.len() {
                r matches Some(c) && c@ == rows[cursor as int]
            } else {
                r is None
            }
        }),
{
    let mut rows = picker_rows(files, expanded);
    if cursor < rows.len() {
        let ghost v = cursor_view(rows@);
        let c = rows.swap_remove(cursor);
        proof { assert(c@ == v[cursor as int]); }
        Some(c)
    } else {
        None
    }
}

// ── Rows of the download picker ─────────────────────────────────────────────

/// A row of the download picker: a folder with its name (last component),
/// file count, total size and state, or a file with its nesting.
#[derive(Debug)]
pub enum TreeItem {
    Folder { name: String, file_count: usize, total_bytes: u64, expanded: bool },
    File { file_idx: usize, depth: usize },
}

/// A download-picker row as plain values.
pub enum TreeItemView {
    Folder { name: Seq<char>, file_count: nat, total_bytes: nat, expanded: bool },
    File { idx: nat, depth: nat },
}

impl View for TreeItem {
    type V = TreeItemView;

    open spec fn view(&self) -> TreeItemView {
        match self {
            TreeItem::Folder { name, file_count, total_bytes, expanded } => TreeItemView::Folder {
                name: name@,
                file_count: *file_count as nat,
                total_bytes: *total_bytes as nat,
                expanded: *expanded,
            },
            TreeItem::File { file_idx, depth } => TreeItemView::File {
                idx: *file_idx as nat,
                depth: *depth as nat,
            },
        }
    }
}

/// The views of a list of download-picker rows.
pub open spec fn tree_view(v: Seq<TreeItem>) -> Seq<TreeItemView> {
    v.map_values(|c: TreeItem| c@)
}

/// The part of a path after its last `'/'` (all of it when it has none).
pub open spec fn last_component(d: Seq<char>) -> Seq<char>
    decreases d.len(),
{
    if d.len() == 0 {
        d
    } else if d.last() == '/' {
        Seq::empty()
    } else {
        last_component(d.drop_last()).push(d.last())
    }
}

/// The last component of `d`.
pub fn last_component_exec(d: &[char]) -> (r: String)
    ensures
        r@ == last_component(d@),
{
    let mut k = d.len();
    proof {
        assert(d@.take(d@.len() as int) =~= d@);
        assert(d@ + d@.subrange(d@.len() as int, d@.len() as int) =~= d@);
    }
    while k > 0 && d[k - 1] != '/'
        invariant
            k <= d@.len(),
            forall|j: int| k <= j < d@.len() ==> d@[j] != '/',
            last_component(d@) == last_component(d@.take(k as int)) + d@.subrange(k as int, d@.len() as int),
        decreases k,
    {
        proof {
            let pre = d@.take(k as int);
            assert(pre.drop_last() =~= d@.take(k - 1));
            assert(pre.last() == d@[k - 1]);
            assert(last_component(pre) == last_component(d@.take(k - 1)).push(d@[k - 1]));
            assert(last_component(d@.take(k - 1)).push(d@[k - 1]) + d@.subrange(k as int, d@.len() as int)
                =~= last_component(d@.take(k - 1)) + d@.subrange(k - 1, d@.len() as int));
        }
        k = k - 1;
    }
    proof {
        if k > 0 {
            let pre = d@.take(k as int);
            assert(pre.last() == '/');
            assert(last_component(pre) =~= Seq::<char>::empty());
        } else {
            assert(d@.take(0).len() == 0);
        }
    }
    string_of_range(d, k, d.len())
}

/// The rows the download picker shows for `parent`: the files directly in
/// it at nesting `depth`, then each child folder (in order, with its name,
/// file count and total size) followed by its rows when it is open.
pub open spec fn grab_items(paths: Seq<Seq<char>>, ws: Seq<nat>, exp: Seq<Seq<char>>, parent: Seq<char>, depth: nat) -> Seq<TreeItemView>
    decreases budget(paths, parent), dir_table(paths, ws, parent).len() + 1,
{
    direct_indices(paths, parent).map_values(|i: int| TreeItemView::File { idx: i as nat, depth })
        + grab_folders(paths, ws, exp, parent, dir_table(paths, ws, parent), depth)
}

/// The download-picker rows of the folders of a table.
pub open spec fn grab_folders(paths: Seq<Seq<char>>, ws: Seq<nat>, exp: Seq<Seq<char>>, parent: Seq<char>, t: Seq<DirRow>, depth: nat) -> Seq<TreeItemView>
    decreases budget(paths, parent), t.len(),
{
    if t.len() == 0 {
        Seq::empty()
    } else {
        let d = t[0].dir;
        let open = exp.contains(d);
        let head = TreeItemView::Folder { name: last_component(d), file_count: t[0].count, total_bytes: t[0].weight, expanded: open };
        let sub = if open && dir_ok(paths, parent, d) && d.len() > parent.len() {
            grab_items(paths, ws, exp, d, depth + 1)
        } else {
            Seq::empty()
        };
        seq![head] + sub + grab_folders(paths, ws, exp, parent, t.drop_first(), depth)
    }
}

fn push_grab_files(direct: &Vec<usize>, depth: usize, out: &mut Vec<TreeItem>, ghost_d: Ghost<Seq<int>>)
    requires
        direct@.map_values(|i: usize| i as int) == ghost_d@,
    ensures
        tree_view(final(out)@) == tree_view(old(out)@) + ghost_d@.map_values(|i: int| TreeItemView::File { idx: i as nat, depth: depth as nat }),
{
    let ghost files = ghost_d@.map_values(|i: int| TreeItemView::File { idx: i as nat, depth: depth as nat });
    let ghost start = tree_view(out@);
    let mut j: usize = 0;
    proof { assert(start + files.take(0) =~= start); }
    while j < direct.len()
        invariant
            j <= direct@.len(),
            direct@.map_values(|i: usize| i as int) == ghost_d@,
            files == ghost_d@.map_values(|i: int| TreeItemView::File { idx: i as nat, depth: depth as nat }),
            tree_view(out@) == start + files.take(j as int),
        decreases direct@.len() - j,
    {
        let ghost before = tree_view(out@);
        out.push(TreeItem::File { file_idx: direct[j], depth });
        proof {
            assert(direct@.map_values(|i: usize| i as int)[j as int] == direct@[j as int] as int);
            assert(files.take(j + 1) =~= files.take(j as int).push(files[j as int]));
            assert(tree_view(out@) =~= before.push(TreeItemView::File { idx: direct@[j as int] as nat, depth: depth as nat }));
        }
        j = j + 1;
    }
    proof { assert(files.take(j as int) =~= files); }
}

fn grab_level(
    paths: &Vec<Vec<char>>,
    ws: &Vec<u64>,
    exp: &Vec<Vec<char>>,
    parent: &[char],
    depth: usize,
    out: &mut Vec<TreeItem>,
)
    requires
        ws@.len() == paths@.len(),
        wsum(weights(ws@)) <= u64::MAX,
        no_empty(chars_view(exp@)),
        depth <= parent@.len(),
    ensures
        tree_view(final(out)@) == tree_view(old(out)@) + grab_items(
            chars_view(paths@),
            weights(ws@),
            chars_view(exp@),
            parent@,
            depth as nat,
        ),
    decreases budget(chars_view(paths@), parent@),
{
    let ghost ps = chars_view(paths@);
    let ghost wv = weights(ws@);
    let ghost ev = chars_view(exp@);
    let (t, direct) = dir_table_exec(paths, ws.as_slice(), parent);
    let ghost tv = rows_view(t@);
    push_grab_files(&direct, depth, out, Ghost(direct_indices(ps, parent@)));
    let ghost out0 = tree_view(out@);
    let mut k: usize = 0;
    proof {
        assert(tv.skip(0) =~= tv);
    }
    while k < t.len()
        invariant
            k <= t@.len(),
            tv == rows_view(t@),
            ps == chars_view(paths@),
            wv == weights(ws@),
            ev == chars_view(exp@),
            table_ok(ps, parent@, tv),
            ws@.len() == paths@.len(),
            wsum(wv) <= u64::MAX,
            no_empty(ev),
            depth <= parent@.len(),
            out0 + grab_folders(ps, wv, ev, parent@, tv, depth as nat) == tree_view(out@) + grab_folders(
                ps,
                wv,
                ev,
                parent@,
                tv.skip(k as int),
                depth as nat,
            ),
        decreases t@.len() - k,
    {
        let dv = to_chars(t[k].dir.as_str());
        let is_open = contains_chars(exp, dv.as_slice());
        let ghost row = tv[k as int];
        proof {
            assert(tv.skip(k as int)[0] == row);
            assert(tv.skip(k as int).drop_first() =~= tv.skip(k + 1));
            assert(dir_ok(ps, parent@, row.dir));
            if is_open {
                let j = choose|j: int| 0 <= j < ev.len() && ev[j] == row.dir;
                assert(ev[j].len() > 0);
            }
        }
        let ghost before = tree_view(out@);
        let name = last_component_exec(dv.as_slice());
        out.push(TreeItem::Folder { name, file_count: t[k].count, total_bytes: t[k].weight, expanded: is_open });
        if is_open {
            let dl = dv.len();
            assert(depth < dl);
            grab_level(paths, ws, exp, dv.as_slice(), depth + 1, out);
        }
        proof {
            let head = TreeItemView::Folder { name: last_component(row.dir), file_count: row.count, total_bytes: row.weight, expanded: is_open };
            let sub = if is_open && dir_ok(ps, parent@, row.dir) && row.dir.len() > parent@.len() {
                grab_items(ps, wv, ev, row.dir, depth as nat + 1)
            } else {
                Seq::empty()
            };
            assert(grab_folders(ps, wv, ev, parent@, tv.skip(k as int), depth as nat) == seq![head] + sub
                + grab_folders(ps, wv, ev, parent@, tv.skip(k + 1), depth as nat));
            assert(tree_view(out@) =~= before.push(head) + sub);
        }
        k = k + 1;
    }
    proof {
        assert(tv.skip(k as int).len() == 0);
        assert(tv == dir_table(ps, wv, parent@));
    }
}

/// The sizes of a listing's entries (0 when GitHub gives none).
pub open spec fn remote_sizes(files: Seq<crate::git::RemoteFile>) -> Seq<nat> {
    files.map_values(|f: crate::git::RemoteFile| match f.size { Some(s) => s as nat, None => 0nat })
}

/// The download-picker rows for a listing and its open folders.
pub fn build_tree(files: &[crate::git::RemoteFile], expanded: &[String]) -> (r: Vec<TreeItem>)
    requires
        no_empty(crate::git::strs_view(expanded@)),
        wsum(remote_sizes(files@)) <= u64::MAX,
    ensures
        tree_view(r@) == grab_items(
            remote_paths(files@),
            remote_sizes(files@),
            crate::git::strs_view(expanded@),
            Seq::empty(),
            0,
        ),
{
    let paths = chars_of_remote_paths(files);
    let exp = chars_of_strings(expanded);
    let mut ws: Vec<u64> = Vec::new();
    let mut i: usize = 0;
    while i < files.len()
        invariant
            i <= files@.len(),
            ws@.len() == i,
            forall|k: int| 0 <= k < i ==> #[trigger] ws@[k] as nat == remote_sizes(files@)[k],
        decreases files@.len() - i,
    {
        ws.push(match files[i].size { Some(s) => s, None => 0 });
        i = i + 1;
    }
    proof {
        assert(weights(ws@) =~= remote_sizes(files@));
        assert(paths@.len() == chars_view(paths@).len());
    }
    let root: Vec<char> = Vec::new();
    let mut out: Vec<TreeItem> = Vec::new();
    grab_level(&paths, &ws, &exp, root.as_slice(), 0, &mut out);
    proof {
        assert(tree_view(Seq::<TreeItem>::empty()) =~= Seq::<TreeItemView>::empty());
        assert(root@ =~= Seq::<char>::empty());
    }
    out
}

} // verus!
