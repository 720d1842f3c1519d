//! The filter box of the repository view.
use vstd::prelude::*;
use crate::events::{KeyCode, KeyEvent, Reaction, react};
use crate::git::strs_view;
use crate::model::{AppMode, Model, clamped, filtered_rows};
use crate::text::{to_chars, from_chars, push_char};
use crate::tree::{items_view, no_empty};

verus! {

/// The filter box.
pub struct SearchContext;

/// `n` is `m` with the filter `f` applied and the screen `mode`: the tree
/// shows the files the filter keeps, by their positions in the whole
/// list, and the cursor stays on a row.
pub open spec fn filtered_to(m: Model, n: Model, f: Seq<char>, mode: AppMode) -> bool {
    &&& n.filter@ == f
    &&& items_view(n.display_items@) == filtered_rows(m.git_files@, f, m.expanded_folders@)
    &&& n == (Model {
        filter: n.filter,
        display_items: n.display_items,
        repo_cursor: clamped(m.repo_cursor, n.display_items@.len()),
        mode: mode,
        ..m
    })
}

/// What the filter box does with a key, from `m` to `n`.
pub open spec fn search_step(m: Model, n: Model, key: KeyEvent, r: Reaction) -> bool {
    &&& r.effect is Nothing
    &&& match key.code {
        KeyCode::Esc => r.handled && filtered_to(m, n, Seq::empty(), AppMode::RepoView),
        KeyCode::Enter => r.handled && n == (Model { mode: AppMode::RepoView, ..m }),
        KeyCode::Backspace => !r.handled && filtered_to(
            m,
            n,
            if key.ctrl || m.filter@.len() == 0 { Seq::empty() } else { m.filter@.drop_last() },
            m.mode,
        ),
        KeyCode::Char(c) => !r.handled && if key.ctrl {
            n == m
        } else {
            filtered_to(m, n, m.filter@.push(c), m.mode)
        },
        _ => !r.handled && n == m,
    }
}

impl SearchContext {
    /// The name of the view.
    pub fn view_name(&self) -> (r: &'static str)
        ensures
            r@ == "search"@,
    {
        "search"
    }

    /// What the filter box does with a key, as `search_step` says: each
    /// character typed or removed filters the tree again; Ctrl+Backspace
    /// clears the filter; Esc clears it and goes back, Enter keeps it and
    /// goes back.
    pub fn handle_event(&self, key: KeyEvent, model: &mut Model) -> (r: Reaction)
        requires
            no_empty(strs_view(old(model).expanded_folders@)),
        ensures
            search_step(*old(model), *final(model), key, r),
    {
        match key.code {
            KeyCode::Esc => {
                refilter(model, String::new(), AppMode::RepoView);
                react(true)
            },
            KeyCode::Enter => {
                model.mode = AppMode::RepoView;
                react(true)
            },
            KeyCode::Backspace => {
                let f = if key.ctrl {
                    String::new()
                } else {
                    let mut cs = to_chars(model.filter.as_str());
                    if cs.len() > 0 {
                        let ghost before = cs@;
                        cs.pop();
                        proof { assert(cs@ =~= before.drop_last()); }
                    } else {
                        proof { assert(cs@ =~= Seq::<char>::empty()); }
                    }
                    from_chars(cs.as_slice())
                };
                let mode = model.mode;
                refilter(model, f, mode);
                react(false)
            },
            KeyCode::Char(c) => {
                if !key.ctrl {
                    let mut f = model.filter.clone();
                    push_char(&mut f, c);
                    let mode = model.mode;
                    refilter(model, f, mode);
                }
                react(false)
            },
            _ => react(false),
        }
    }
}

/// Sets the filter, applies it, and shows `mode`.
fn refilter(model: &mut Model, f: String, mode: AppMode)
    requires
        no_empty(strs_view(old(model).expanded_folders@)),
    ensures
        filtered_to(*old(model), *final(model), f@, mode),
{
    model.filter = f;
    model.apply_filter();
    model.mode = mode;
}

} // verus!
