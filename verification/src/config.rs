//! The settings kept in `~/.swiftgit/config.json`: the token, the names
//! shown, whether the SSH key is on GitHub, and the recently opened projects.
use vstd::prelude::*;

verus! {

/// A recently opened project.
#[derive(Debug)]
pub struct RecentProject {
    pub path: String,
    pub name: String,
}

impl Clone for RecentProject {
    fn clone(&self) -> (r: Self)
        ensures
            r == *self,
    {
        RecentProject { path: self.path.clone(), name: self.name.clone() }
    }
}

/// A recent project as plain values.
pub struct RecentProjectView {
    pub path: Seq<char>,
    pub name: Seq<char>,
}

impl View for RecentProject {
    type V = RecentProjectView;

    open spec fn view(&self) -> RecentProjectView {
        RecentProjectView { path: self.path@, name: self.name@ }
    }
}

/// The views of a list of recent projects.
pub open spec fn projects_view(v: Seq<RecentProject>) -> Seq<RecentProjectView> {
    v.map_values(|p: RecentProject| p@)
}

/// The most recent projects kept.
pub open spec fn max_recent() -> int {
    10
}

/// The user's settings.
pub struct SwiftGitConfig {
    pub github_token: Option<String>,
    pub username: Option<String>,
    pub display_name: Option<String>,
    pub ssh_key_added: bool,
    pub recent_projects: Vec<RecentProject>,
}

impl SwiftGitConfig {
    /// Settings with nothing set.
    pub fn new() -> (r: SwiftGitConfig)
        ensures
            r.github_token is None,
            r.username is None,
            r.display_name is None,
            !r.ssh_key_added,
            r.recent_projects@.len() == 0,
    {
        SwiftGitConfig {
            github_token: None,
            username: None,
            display_name: None,
            ssh_key_added: false,
            recent_projects: Vec::new(),
        }
    }
}

impl Default for SwiftGitConfig {
    fn default() -> (r: SwiftGitConfig)
        ensures
            r.github_token is None,
            r.username is None,
            r.display_name is None,
            !r.ssh_key_added,
            r.recent_projects@.len() == 0,
    {
        SwiftGitConfig::new()
    }
}

/// `ps` without the projects at `path`, in order.
pub open spec fn without_path(ps: Seq<RecentProjectView>, path: Seq<char>) -> Seq<RecentProjectView>
    decreases ps.len(),
{
    if ps.len() == 0 {
        Seq::empty()
    } else {
        let prev = without_path(ps.drop_last(), path);
        if ps.last().path == path {
            prev
        } else {
            prev.push(ps.last())
        }
    }
}

/// The list after opening `path` (named `name`): that project first, then
/// the others in their order, at most ten in all.
pub open spec fn with_recent(ps: Seq<RecentProjectView>, path: Seq<char>, name: Seq<char>) -> Seq<
    RecentProjectView,
> {
    let all = seq![RecentProjectView { path, name }] + without_path(ps, path);
    if all.len() > max_recent() {
        all.take(max_recent())
    } else {
        all
    }
}

pub proof fn lemma_without_path(ps: Seq<RecentProjectView>, path: Seq<char>)
    ensures
        without_path(ps, path).len() <= ps.len(),
        forall|i: int|
            0 <= i < without_path(ps, path).len() ==> #[trigger] without_path(ps, path)[i].path
                != path,
        forall|i: int|
            0 <= i < without_path(ps, path).len() ==> ps.contains(
                #[trigger] without_path(ps, path)[i],
            ),
    decreases ps.len(),
{
    if ps.len() > 0 {
        lemma_without_path(ps.drop_last(), path);
        let prev = without_path(ps.drop_last(), path);
        assert forall|i: int| 0 <= i < without_path(ps, path).len() implies ps.contains(
            #[trigger] without_path(ps, path)[i],
        ) by {
            if i < prev.len() {
                let x = prev[i];
                assert(ps.drop_last().contains(x));
                let k = choose|k: int| 0 <= k < ps.drop_last().len() && ps.drop_last()[k] == x;
                assert(ps[k] == x);
            } else {
                assert(ps[ps.len() - 1] == ps.last());
            }
        }
    }
}

/// Where the entries of `without_path(ps, path)` stand in `ps`: in
/// increasing positions, and every entry of `ps` at another path among them.
proof fn lemma_without_path_positions(ps: Seq<RecentProjectView>, path: Seq<char>) -> (q: Seq<int>)
    ensures
        q.len() == without_path(ps, path).len(),
        forall|i: int| 0 <= i < q.len() ==> 0 <= #[trigger] q[i] < ps.len() && without_path(ps, path)[i] == ps[q[i]],
        forall|i: int, j: int| 0 <= i < j < q.len() ==> #[trigger] q[i] < #[trigger] q[j],
        forall|k: int| 0 <= k < ps.len() && #[trigger] ps[k].path != path ==> exists|i: int| 0 <= i < q.len() && q[i] == k,
    decreases ps.len(),
{
    if ps.len() == 0 {
        Seq::empty()
    } else {
        let p = ps.drop_last();
        let q0 = lemma_without_path_positions(p, path);
        let last = ps.len() - 1;
        assert forall|k: int| 0 <= k < last implies #[trigger] ps[k] == p[k] by {}
        if ps.last().path == path {
            assert forall|k: int| 0 <= k < ps.len() && #[trigger] ps[k].path != path implies exists|i: int| 0 <= i < q0.len() && q0[i] == k by {
                assert(k < last);
                assert(p[k].path != path);
            }
            q0
        } else {
            let q = q0.push(last);
            let w = without_path(ps, path);
            assert forall|i: int| 0 <= i < q.len() implies 0 <= #[trigger] q[i] < ps.len() && w[i] == ps[q[i]] by {
                if i < q0.len() {
                    assert(q[i] == q0[i]);
                }
            }
            assert forall|k: int| 0 <= k < ps.len() && #[trigger] ps[k].path != path implies exists|i: int| 0 <= i < q.len() && q[i] == k by {
                if k < last {
                    assert(p[k].path != path);
                    let i = choose|i: int| 0 <= i < q0.len() && q0[i] == k;
                    assert(q[i] == k);
                } else {
                    assert(q[q0.len() as int] == k);
                }
            }
            q
        }
    }
}

/// Opening a project puts it first; the entries after it are old entries
/// at other paths, standing at the positions `pos` of the old list, which
/// only increase (the old order is kept); and every old entry at another
/// path is among them, unless the list is full at ten and the entry came
/// after all of them.
pub proof fn lemma_recent_order(ps: Seq<RecentProjectView>, path: Seq<char>, name: Seq<char>) -> (pos: Seq<int>)
    ensures
        with_recent(ps, path, name).len() >= 1,
        with_recent(ps, path, name).len() <= max_recent(),
        with_recent(ps, path, name)[0] == (RecentProjectView { path, name }),
        pos.len() == with_recent(ps, path, name).len() - 1,
        forall|i: int| 0 <= i < pos.len() ==> 0 <= #[trigger] pos[i] < ps.len()
            && with_recent(ps, path, name)[i + 1] == ps[pos[i]] && ps[pos[i]].path != path,
        forall|i: int, j: int| 0 <= i < j < pos.len() ==> #[trigger] pos[i] < #[trigger] pos[j],
        forall|k: int| 0 <= k < ps.len() && #[trigger] ps[k].path != path ==>
            (exists|i: int| 0 <= i < pos.len() && pos[i] == k)
            || (with_recent(ps, path, name).len() == max_recent() && forall|i: int| 0 <= i < pos.len() ==> pos[i] < k),
{
    let w = without_path(ps, path);
    let q = lemma_without_path_positions(ps, path);
    lemma_without_path(ps, path);
    let r = with_recent(ps, path, name);
    let all = seq![RecentProjectView { path, name }] + w;
    let m = (r.len() - 1) as int;
    let pos = q.take(m);
    assert forall|i: int| 0 <= i < pos.len() implies 0 <= #[trigger] pos[i] < ps.len()
        && r[i + 1] == ps[pos[i]] && ps[pos[i]].path != path by {
        assert(pos[i] == q[i]);
        assert(r[i + 1] == all[i + 1]);
        assert(all[i + 1] == w[i]);
        assert(w[i].path != path);
    }
    assert forall|i: int, j: int| 0 <= i < j < pos.len() implies #[trigger] pos[i] < #[trigger] pos[j] by {
        assert(pos[i] == q[i] && pos[j] == q[j]);
    }
    assert forall|k: int| 0 <= k < ps.len() && #[trigger] ps[k].path != path implies
        (exists|i: int| 0 <= i < pos.len() && pos[i] == k)
        || (r.len() == max_recent() && forall|i: int| 0 <= i < pos.len() ==> pos[i] < k) by {
        let i = choose|i: int| 0 <= i < q.len() && q[i] == k;
        if i < pos.len() {
            assert(pos[i] == k);
        } else {
            assert(all.len() > max_recent());
            assert forall|j: int| 0 <= j < pos.len() implies pos[j] < k by {
                assert(pos[j] == q[j]);
                assert(q[j] < q[i]);
            }
        }
    }
    pos
}

impl SwiftGitConfig {
    /// Puts a project at the front of the recent list, removing any older
    /// entry for the same path and keeping at most ten.
    pub fn add_recent_project(&mut self, path: String, name: String)
        ensures
            projects_view(final(self).recent_projects@) == with_recent(
                projects_view(old(self).recent_projects@),
                path@,
                name@,
            ),
            final(self).github_token == old(self).github_token,
            final(self).username == old(self).username,
            final(self).display_name == old(self).display_name,
            final(self).ssh_key_added == old(self).ssh_key_added,
    {
        let ghost old_ps = projects_view(self.recent_projects@);
        let mut kept: Vec<RecentProject> = Vec::new();
        let mut i: usize = 0;
        proof {
            assert(old_ps.take(0) =~= Seq::<RecentProjectView>::empty());
        }
        while i < self.recent_projects.len()
            invariant
                i <= self.recent_projects@.len(),
                old_ps == projects_view(self.recent_projects@),
                projects_view(kept@) == without_path(old_ps.take(i as int), path@),
            decreases self.recent_projects@.len() - i,
        {
            let same = self.recent_projects[i].path == path;
            proof {
                assert(old_ps.take(i + 1).drop_last() =~= old_ps.take(i as int));
                assert(old_ps.take(i + 1).last() == self.recent_projects@[i as int]@);
            }
            if !same {
                let ghost before = kept@;
                kept.push(self.recent_projects[i].clone());
                proof {
                    assert(projects_view(kept@) =~= projects_view(before).push(
                        self.recent_projects@[i as int]@,
                    ));
                }
            }
            i = i + 1;
        }
        proof { assert(old_ps.take(old_ps.len() as int) =~= old_ps); }
        let mut out: Vec<RecentProject> = Vec::new();
        out.push(RecentProject { path, name });
        let mut j: usize = 0;
        let ghost all = seq![RecentProjectView { path: path@, name: name@ }] + projects_view(kept@);
        while j < kept.len() && out.len() < 10
            invariant
                j <= kept@.len(),
                out@.len() == j + 1,
                j + 1 <= 10,
                all == seq![RecentProjectView { path: path@, name: name@ }] + projects_view(kept@),
                projects_view(out@) == all.take(j + 1),
            decreases kept@.len() - j,
        {
            let ghost before = out@;
            out.push(kept[j].clone());
            proof {
                assert(projects_view(out@) =~= projects_view(before).push(kept@[j as int]@));
                assert(all.take(j + 2) =~= all.take(j + 1).push(all[j + 1]));
            }
            j = j + 1;
        }
        proof {
            if all.len() > 10 {
                assert(j + 1 == 10);
            } else {
                assert(all.take(j + 1) =~= all);
            }
        }
        self.recent_projects = out;
    }
}

/// Opening a project puts it first, leaves no other entry for its path,
/// keeps at most ten entries, and every other entry was in the list before.
pub proof fn lemma_recent_project_front(
    ps: Seq<RecentProjectView>,
    path: Seq<char>,
    name: Seq<char>,
)
    ensures
        with_recent(ps, path, name).len() >= 1,
        with_recent(ps, path, name)[0] == (RecentProjectView { path, name }),
        with_recent(ps, path, name).len() <= max_recent(),
        forall|i: int|
            1 <= i < with_recent(ps, path, name).len() ==> #[trigger] with_recent(
                ps,
                path,
                name,
            )[i].path != path && ps.contains(with_recent(ps, path, name)[i]),
{
    lemma_without_path(ps, path);
    let w = without_path(ps, path);
    let all = seq![RecentProjectView { path, name }] + w;
    assert forall|i: int| 1 <= i < with_recent(ps, path, name).len() implies #[trigger] with_recent(
        ps,
        path,
        name,
    )[i].path != path && ps.contains(with_recent(ps, path, name)[i]) by {
        assert(with_recent(ps, path, name)[i] == all[i]);
        assert(all[i] == w[i - 1]);
    }
}

} // verus!
