//! The interactive rebase list: choosing an action for each commit and
//! reordering them.
use vstd::prelude::*;
use crate::context::repo::toasted;
use crate::events::{KeyCode, KeyEvent, Reaction, react};
use crate::git::RebaseCommit;
use crate::model::{AppMode, Model, ToastType};

verus! {

/// The rebase list.
pub struct RebaseContext;

/// `s` with the entries at `i` and `j` exchanged.
pub open spec fn swapped<A>(s: Seq<A>, i: int, j: int) -> Seq<A> {
    s.update(i, s[j]).update(j, s[i])
}

/// The action a letter sets, if any.
pub open spec fn action_of(c: char) -> Option<Seq<char>> {
    if c == 'p' {
        Some("pick"@)
    } else if c == 'd' {
        Some("drop"@)
    } else if c == 'r' {
        Some("reword"@)
    } else if c == 'f' {
        Some("fixup"@)
    } else {
        None
    }
}

/// The last position of the list (0 when empty).
pub open spec fn last_pos(n: nat) -> usize {
    if n == 0 { 0 } else { (n - 1) as usize }
}

/// What the rebase list does with a key, from `m` to `n`.
pub open spec fn rebase_step(m: Model, n: Model, key: KeyEvent, r: Reaction) -> bool {
    let i = m.rebase_cursor;
    let cs = m.rebase_commits@;
    &&& r.effect is Nothing
    &&& match key.code {
        KeyCode::Esc => r.handled && n == (Model { mode: AppMode::RepoView, ..m }),
        KeyCode::Enter => r.handled && toasted(n, "Rebase applied (simulated)"@, ToastType::Success)
            && n == (Model { toast: n.toast, mode: AppMode::RepoView, ..m }),
        KeyCode::Up | KeyCode::Char('k') => !r.handled && if i > 0 {
            if key.ctrl {
                n.rebase_commits@ == swapped(cs, i as int, i - 1)
                    && n == (Model { rebase_commits: n.rebase_commits, rebase_cursor: (i - 1) as usize, ..m })
            } else {
                n == (Model { rebase_cursor: (i - 1) as usize, ..m })
            }
        } else {
            n == m
        },
        KeyCode::Down | KeyCode::Char('j') => !r.handled && if i < last_pos(cs.len()) {
            if key.ctrl {
                n.rebase_commits@ == swapped(cs, i as int, i + 1)
                    && n == (Model { rebase_commits: n.rebase_commits, rebase_cursor: (i + 1) as usize, ..m })
            } else {
                n == (Model { rebase_cursor: (i + 1) as usize, ..m })
            }
        } else {
            n == m
        },
        KeyCode::Char(c) => !r.handled && match action_of(c) {
            Some(a) => if i < cs.len() {
                n.rebase_commits@.len() == cs.len() && n.rebase_commits@[i as int]@.action == a
                    && n.rebase_commits@[i as int].sha == cs[i as int].sha
                    && n.rebase_commits@[i as int].message == cs[i as int].message
                    && (forall|j: int| 0 <= j < cs.len() && j != i ==> n.rebase_commits@[j] == cs[j])
                    && n == (Model { rebase_commits: n.rebase_commits, ..m })
            } else {
                n == m
            },
            None => n == m,
        },
        _ => !r.handled && n == m,
    }
}

/// The list can take the key without panicking: moving a commit up needs
/// the cursor on a commit.
pub open spec fn rebase_key_ok(m: Model, key: KeyEvent) -> bool {
    (key.code is Up || key.code == KeyCode::Char('k')) && key.ctrl && m.rebase_cursor > 0
        ==> m.rebase_cursor < m.rebase_commits@.len()
}

/// Exchanges the entries at `i` and `j`.
fn swap_commits(v: &mut Vec<RebaseCommit>, i: usize, j: usize)
    requires
        i < old(v)@.len(),
        j < old(v)@.len(),
    ensures
        final(v)@ == swapped(old(v)@, i as int, j as int),
{
    let a = v[i].clone();
    let b = v[j].clone();
    v[i] = b;
    v[j] = a;
}

impl RebaseContext {
    /// The name of the view.
    pub fn view_name(&self) -> (r: &'static str)
        ensures
            r@ == "rebase"@,
    {
        "rebase"
    }

    /// What the rebase list does with a key, as `rebase_step` says: Up and
    /// Down (`k`/`j`) move the cursor, with Control they move the commit;
    /// `p`, `d`, `r`, `f` set the commit's action; Enter applies, Esc
    /// leaves.
    pub fn handle_event(&self, key: KeyEvent, model: &mut Model) -> (r: Reaction)
        requires
            rebase_key_ok(*old(model), key),
        ensures
            rebase_step(*old(model), *final(model), key, r),
    {
        let i = model.rebase_cursor;
        match key.code {
            KeyCode::Esc => {
                model.mode = AppMode::RepoView;
                react(true)
            },
            KeyCode::Enter => {
                model.show_toast(String::from_str("Rebase applied (simulated)"), ToastType::Success);
                model.mode = AppMode::RepoView;
                react(true)
            },
            KeyCode::Up | KeyCode::Char('k') => {
                if i > 0 {
                    if key.ctrl {
                        swap_commits(&mut model.rebase_commits, i, i - 1);
                    }
                    model.rebase_cursor = i - 1;
                }
                react(false)
            },
            KeyCode::Down | KeyCode::Char('j') => {
                let len = model.rebase_commits.len();
                let max = if len > 0 {
                    len - 1
                } else {
                    0
                };
                if i < max {
                    if key.ctrl {
                        swap_commits(&mut model.rebase_commits, i, i + 1);
                    }
                    model.rebase_cursor = i + 1;
                }
                react(false)
            },
            KeyCode::Char(c) => {
                let action = if c == 'p' {
                    Some("pick")
                } else if c == 'd' {
                    Some("drop")
                } else if c == 'r' {
                    Some("reword")
                } else if c == 'f' {
                    Some("fixup")
                } else {
                    None
                };
                match action {
                    Some(a) => {
                        if i < model.rebase_commits.len() {
                            let mut e = model.rebase_commits[i].clone();
                            e.action = String::from_str(a);
                            model.rebase_commits[i] = e;
                        }
                    },
                    None => {},
                }
                react(false)
            },
            _ => react(false),
        }
    }
}


/// Moving a commit down with Ctrl+Down and back up with Ctrl+Up restores
/// the list and the cursor.
pub proof fn lemma_move_down_then_up(m: Model, n1: Model, n2: Model, r1: Reaction, r2: Reaction)
    requires
        m.rebase_cursor < last_pos(m.rebase_commits@.len()),
        rebase_step(m, n1, KeyEvent { code: KeyCode::Down, ctrl: true }, r1),
        rebase_step(n1, n2, KeyEvent { code: KeyCode::Up, ctrl: true }, r2),
    ensures
        n2.rebase_commits@ == m.rebase_commits@,
        n2.rebase_cursor == m.rebase_cursor,
{
    let s = m.rebase_commits@;
    let i = m.rebase_cursor as int;
    assert(swapped(swapped(s, i, i + 1), i + 1, i) =~= s);
}


/// The shas of a list of commits.
pub open spec fn shas(cs: Seq<RebaseCommit>) -> Seq<Seq<char>> {
    cs.map_values(|c: RebaseCommit| c.sha@)
}

/// No key of the rebase list adds, removes or duplicates a commit: the shas
/// stay the same multiset.
pub proof fn lemma_rebase_keeps_commits(m: Model, n: Model, key: KeyEvent, r: Reaction)
    requires
        rebase_key_ok(m, key),
        rebase_step(m, n, key, r),
    ensures
        shas(n.rebase_commits@).to_multiset() == shas(m.rebase_commits@).to_multiset(),
{
    let cs = m.rebase_commits@;
    let t = shas(cs);
    let i = m.rebase_cursor as int;
    if n.rebase_commits@ =~= cs {
        assert(shas(n.rebase_commits@) =~= t);
    } else if n.rebase_commits@.len() == cs.len() && (forall|j: int| 0 <= j < cs.len() ==> #[trigger] n.rebase_commits@[j].sha == cs[j].sha) {
        assert(shas(n.rebase_commits@) =~= t);
    } else {
        let j = if n.rebase_cursor < m.rebase_cursor { i - 1 } else { i + 1 };
        assert(0 <= i < cs.len() && 0 <= j < cs.len() && i != j);
        assert(n.rebase_commits@ == swapped(cs, i, j));
        let u1 = t.update(i, t[j]);
        assert(shas(n.rebase_commits@) =~= u1.update(j, t[i]));
        vstd::seq_lib::to_multiset_update(t, i, t[j]);
        vstd::seq_lib::to_multiset_update(u1, j, t[i]);
        assert(u1[j] == t[j]);
        broadcast use vstd::multiset::group_multiset_axioms;
        assert(t.to_multiset().contains(t[i])) by {
            vstd::seq_lib::to_multiset_contains(t, t[i]);
        }
        assert(t.to_multiset().insert(t[j]).remove(t[i]).insert(t[i]).remove(t[j]) =~= t.to_multiset());
    }
}

} // verus!
