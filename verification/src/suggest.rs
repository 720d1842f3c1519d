//! Folder suggestions for a typed path: which folders of a directory a
//! typed name picks, and the order in which they are offered.
use vstd::prelude::*;
use vstd::relations::{sorted_by, total_ordering};
use vstd::seq_lib::{lemma_sorted_unique, to_multiset_build, to_multiset_insert};
use crate::git::strs_view;
use crate::text::{char_count, from_chars, starts_with, str_starts_with, to_chars};
use crate::tree::{chars_view, less_exec, seq_less, slice_prefix};
use crate::ui::{lowercase, to_lowercase};

verus! {

/// The most folders suggested at once.
pub const MAX_SUGGESTIONS: usize = 8;

/// A folder whose name starts with `.` is hidden.
pub open spec fn hidden(name: Seq<char>) -> bool {
    name.len() > 0 && name[0] == '.'
}

/// A folder is offered for a typed name when it is not hidden and the typed
/// name is empty or, both lower-cased, begins its name.
pub open spec fn picked(name: Seq<char>, typed: Seq<char>) -> bool {
    !hidden(name) && (typed.len() == 0 || starts_with(lowercase(name), lowercase(typed)))
}

/// The path of a (name, path) entry when the typed name picks it.
pub open spec fn pick_fn(typed: Seq<char>) -> spec_fn((Seq<char>, Seq<char>)) -> Option<Seq<char>> {
    |e: (Seq<char>, Seq<char>)| if picked(e.0, typed) { Some(e.1) } else { None }
}

/// The order of paths, that of `String`: `a` comes no later than `b`.
pub open spec fn path_order() -> spec_fn(Seq<char>, Seq<char>) -> bool {
    |a: Seq<char>, b: Seq<char>| !seq_less(b, a)
}

/// The (name, path) entries as plain values.
pub open spec fn entries_view(v: Seq<(String, String)>) -> Seq<(Seq<char>, Seq<char>)> {
    v.map_values(|e: (String, String)| (e.0@, e.1@))
}

/// The suggestions for a typed name among a directory's folders: the paths
/// of the folders it picks, sorted, the first eight.
pub open spec fn suggestions(entries: Seq<(Seq<char>, Seq<char>)>, typed: Seq<char>) -> Seq<Seq<char>> {
    let s = entries.filter_map(pick_fn(typed)).sort_by(path_order());
    if s.len() <= MAX_SUGGESTIONS {
        s
    } else {
        s.take(MAX_SUGGESTIONS as int)
    }
}

pub(crate) proof fn lemma_less_irreflexive(a: Seq<char>)
    ensures
        !seq_less(a, a),
    decreases a.len(),
{
    if a.len() > 0 {
        lemma_less_irreflexive(a.drop_first());
    }
}

pub(crate) proof fn lemma_less_asymmetric(a: Seq<char>, b: Seq<char>)
    requires
        seq_less(a, b),
    ensures
        !seq_less(b, a),
    decreases a.len(),
{
    if a.len() > 0 && b.len() > 0 && a[0] == b[0] {
        lemma_less_asymmetric(a.drop_first(), b.drop_first());
    }
}

pub(crate) proof fn lemma_less_total(a: Seq<char>, b: Seq<char>)
    ensures
        a == b || seq_less(a, b) || seq_less(b, a),
    decreases a.len(),
{
    if a.len() > 0 && b.len() > 0 && a[0] == b[0] {
        lemma_less_total(a.drop_first(), b.drop_first());
        if a.drop_first() == b.drop_first() {
            assert(a.len() == b.len()) by {
                assert(a.drop_first().len() == b.drop_first().len());
            }
            assert forall|i: int| 0 <= i < a.len() implies a[i] == b[i] by {
                if i > 0 {
                    assert(a[i] == a.drop_first()[i - 1]);
                    assert(b[i] == b.drop_first()[i - 1]);
                }
            }
            assert(a =~= b);
        }
    } else if a.len() == 0 && b.len() == 0 {
        assert(a =~= b);
    } else if a.len() > 0 && b.len() > 0 {
        lemma_code_distinct(a[0], b[0]);
    }
}

proof fn lemma_code_distinct(c: char, d: char)
    requires
        c != d,
    ensures
        (c as u32) != (d as u32),
{
    assert((c as u32) as int == c as int);
    assert((d as u32) as int == d as int);
}

pub(crate) proof fn lemma_less_transitive(a: Seq<char>, b: Seq<char>, c: Seq<char>)
    requires
        seq_less(a, b),
        seq_less(b, c),
    ensures
        seq_less(a, c),
    decreases a.len(),
{
    if a.len() > 0 && b.len() > 0 && c.len() > 0 && a[0] == b[0] && b[0] == c[0] {
        lemma_less_transitive(a.drop_first(), b.drop_first(), c.drop_first());
    }
}

/// Paths are totally ordered as `String` orders them.
pub proof fn lemma_path_order()
    ensures
        total_ordering(path_order()),
{
    assert forall|x: Seq<char>| #[trigger] path_order()(x, x) by {
        lemma_less_irreflexive(x);
    }
    assert forall|x: Seq<char>, y: Seq<char>| #[trigger] path_order()(x, y) && #[trigger] path_order()(y, x) implies x == y by {
        lemma_less_total(x, y);
    }
    assert forall|x: Seq<char>, y: Seq<char>, z: Seq<char>| #[trigger] path_order()(x, y) && #[trigger] path_order()(y, z) implies path_order()(x, z) by {
        if seq_less(z, x) {
            lemma_less_total(x, y);
            if seq_less(x, y) {
                lemma_less_transitive(z, x, y);
            }
        }
    }
    assert forall|x: Seq<char>, y: Seq<char>| #[trigger] path_order()(x, y) || #[trigger] path_order()(y, x) by {
        if seq_less(y, x) {
            lemma_less_asymmetric(y, x);
        }
    }
}

/// The paths sorted in the order of `String`.
fn sort_paths(v: &Vec<Vec<char>>) -> (r: Vec<Vec<char>>)
    ensures
        sorted_by(chars_view(r@), path_order()),
        chars_view(r@).to_multiset() == chars_view(v@).to_multiset(),
{
    proof { lemma_path_order(); }
    let mut out: Vec<Vec<char>> = Vec::new();
    let mut i: usize = 0;
    proof { assert(chars_view(out@) =~= Seq::<Seq<char>>::empty()); assert(chars_view(v@).take(0) =~= Seq::<Seq<char>>::empty()); }
    while i < v.len()
        invariant
            i <= v@.len(),
            total_ordering(path_order()),
            sorted_by(chars_view(out@), path_order()),
            chars_view(out@).to_multiset() == chars_view(v@).take(i as int).to_multiset(),
        decreases v@.len() - i,
    {
        let x = slice_prefix(v[i].as_slice(), v[i].len());
        proof { assert(x@ =~= v@[i as int]@); }
        let mut k: usize = 0;
        while k < out.len() && !less_exec(x.as_slice(), out[k].as_slice())
            invariant
                k <= out@.len(),
                forall|j: int| 0 <= j < k ==> !seq_less(x@, #[trigger] out@[j]@),
            decreases out@.len() - k,
        {
            k = k + 1;
        }
        let ghost old_view = chars_view(out@);
        proof {
            if k < out@.len() {
                assert(seq_less(x@, out@[k as int]@));
            }
        }
        out.insert(k, x);
        proof {
            let nv = chars_view(out@);
            assert(nv =~= old_view.insert(k as int, x@));
            assert forall|a: int, b: int| 0 <= a < b < nv.len() implies #[trigger] path_order()(nv[a], nv[b]) by {
                if b < k {
                    assert(path_order()(old_view[a], old_view[b]));
                } else if b == k {
                    assert(!seq_less(x@, out@[a]@));
                    assert(out@[a]@ == old_view[a]);
                } else if a == k {
                    assert(seq_less(x@, old_view[k as int]));
                    lemma_less_asymmetric(x@, old_view[k as int]);
                    if b - 1 > k {
                        assert(path_order()(old_view[k as int], old_view[b - 1]));
                    }
                    assert(path_order()(x@, old_view[k as int]));
                } else if a < k {
                    assert(path_order()(old_view[a], old_view[b - 1]));
                } else {
                    assert(path_order()(old_view[a - 1], old_view[b - 1]));
                }
            }
            to_multiset_insert(old_view, k as int, x@);
            let t = chars_view(v@).take(i as int);
            assert(chars_view(v@).take(i + 1) =~= t.push(x@));
            to_multiset_build(t, x@);
        }
        i = i + 1;
    }
    proof { assert(chars_view(v@).take(v@.len() as int) =~= chars_view(v@)); }
    out
}

/// Of a directory's folders, each given by its name and its path, the
/// paths that the typed name picks (see `picked`), sorted as `String`
/// sorts them, the first eight.
pub fn pick_subdirs(entries: &Vec<(String, String)>, typed: &str) -> (r: Vec<String>)
    ensures
        strs_view(r@) == suggestions(entries_view(entries@), typed@),
{
    let ghost ev = entries_view(entries@);
    let low_typed = to_lowercase(typed);
    let any_typed = char_count(typed) > 0;
    let mut kept: Vec<Vec<char>> = Vec::new();
    let mut i: usize = 0;
    proof { assert(ev.take(0) =~= Seq::<(Seq<char>, Seq<char>)>::empty()); }
    while i < entries.len()
        invariant
            i <= entries@.len(),
            ev == entries_view(entries@),
            low_typed@ == lowercase(typed@),
            any_typed == (typed@.len() > 0),
            chars_view(kept@) == ev.take(i as int).filter_map(pick_fn(typed@)),
        decreases entries@.len() - i,
    {
        let name = to_chars(entries[i].0.as_str());
        let is_hidden = name.len() > 0 && name[0] == '.';
        let takes = !is_hidden && (!any_typed || str_starts_with(to_lowercase(entries[i].0.as_str()).as_str(), low_typed.as_str()));
        proof {
            assert(ev[i as int] == (entries@[i as int].0@, entries@[i as int].1@));
            assert(takes == picked(ev[i as int].0, typed@));
            assert(ev.take(i + 1).drop_last() =~= ev.take(i as int));
            assert(ev.take(i + 1).last() == ev[i as int]);
        }
        if takes {
            let ghost before = kept@;
            kept.push(to_chars(entries[i].1.as_str()));
            proof { assert(chars_view(kept@) =~= chars_view(before).push(ev[i as int].1)); }
        }
        i = i + 1;
    }
    proof { assert(ev.take(entries@.len() as int) =~= ev); }
    let sorted = sort_paths(&kept);
    let ghost all = ev.filter_map(pick_fn(typed@));
    proof {
        lemma_path_order();
        all.lemma_sort_by_ensures(path_order());
        lemma_sorted_unique(chars_view(sorted@), all.sort_by(path_order()), path_order());
    }
    let n = if sorted.len() <= MAX_SUGGESTIONS { sorted.len() } else { MAX_SUGGESTIONS };
    let mut out: Vec<String> = Vec::new();
    let mut j: usize = 0;
    while j < n
        invariant
            j <= n,
            n <= sorted@.len(),
            out@.len() == j,
            forall|t: int| 0 <= t < j ==> #[trigger] out@[t]@ == sorted@[t]@,
        decreases n - j,
    {
        out.push(from_chars(sorted[j].as_slice()));
        j = j + 1;
    }
    proof {
        assert(strs_view(out@) =~= chars_view(sorted@).take(n as int));
        assert(chars_view(sorted@).take(chars_view(sorted@).len() as int) =~= chars_view(sorted@));
    }
    out
}

/// The suggestions come in the order of `String`, at most eight, each the
/// path of a folder the typed name picks.
pub proof fn lemma_suggestions_sorted(entries: Seq<(Seq<char>, Seq<char>)>, typed: Seq<char>)
    ensures
        sorted_by(suggestions(entries, typed), path_order()),
        suggestions(entries, typed).len() <= MAX_SUGGESTIONS,
        forall|p: Seq<char>| suggestions(entries, typed).contains(p) ==> entries.filter_map(pick_fn(typed)).contains(p),
{
    let all = entries.filter_map(pick_fn(typed));
    lemma_path_order();
    all.lemma_sort_by_ensures(path_order());
    let s = all.sort_by(path_order());
    assert forall|p: Seq<char>| suggestions(entries, typed).contains(p) implies all.contains(p) by {
        let i = choose|i: int| 0 <= i < suggestions(entries, typed).len() && suggestions(entries, typed)[i] == p;
        assert(s.contains(p)) by {
            assert(s[i] == p);
        }
        if !all.contains(p) {
            assert(!s.contains(p));
        }
    }
}

} // verus!
