//! The confirmation before removing a repository's `.git` folder.
use vstd::prelude::*;
use crate::context::repo::toasted;
use crate::events::{Effect, KeyCode, KeyEvent, Reaction, react, react_with};
use crate::git::empty_diff;
use crate::model::{AppMode, Model, ToastType};
use crate::text::push_str;

verus! {

/// The deinit confirmation.
pub struct DeinitConfirmContext;

/// What the deinit confirmation does with a key, from `m` to `n`; it takes
/// every key.
pub open spec fn deinit_step(m: Model, n: Model, key: KeyEvent, r: Reaction) -> bool {
    &&& r.handled
    &&& match key.code {
        KeyCode::Esc | KeyCode::Char('q') => r.effect is Nothing && toasted(n, "Cancelled"@, ToastType::Info)
            && n == (Model { mode: AppMode::RepoView, toast: n.toast, ..m }),
        KeyCode::Left | KeyCode::Char('h') | KeyCode::BackTab => r.effect is Nothing
            && n == (Model { deinit_confirm_cursor: 0, ..m }),
        KeyCode::Right | KeyCode::Char('l') | KeyCode::Tab => r.effect is Nothing
            && n == (Model { deinit_confirm_cursor: 1, ..m }),
        KeyCode::Enter => if m.deinit_confirm_cursor == 1 {
            n == m && if m.repo is Some { r.effect is Deinit } else { r.effect is Nothing }
        } else {
            r.effect is Nothing && toasted(n, "Cancelled"@, ToastType::Info)
                && n == (Model { mode: AppMode::RepoView, toast: n.toast, ..m })
        },
        _ => r.effect is Nothing && n == m,
    }
}

impl DeinitConfirmContext {
    /// The name of the view.
    pub fn view_name(&self) -> (r: &'static str)
        ensures
            r@ == "deinit_confirm"@,
    {
        "deinit_confirm"
    }

    /// What the confirmation does with a key, as `deinit_step` says: Esc or
    /// `q` cancel; Left/Right choose between cancelling and removing; Enter
    /// carries out the choice.
    pub fn handle_event(&self, key: KeyEvent, model: &mut Model) -> (r: Reaction)
        ensures
            deinit_step(*old(model), *final(model), key, r),
    {
        match key.code {
            KeyCode::Esc | KeyCode::Char('q') => {
                model.mode = AppMode::RepoView;
                model.show_toast(String::from_str("Cancelled"), ToastType::Info);
                react(true)
            },
            KeyCode::Left | KeyCode::Char('h') | KeyCode::BackTab => {
                model.deinit_confirm_cursor = 0;
                react(true)
            },
            KeyCode::Right | KeyCode::Char('l') | KeyCode::Tab => {
                model.deinit_confirm_cursor = 1;
                react(true)
            },
            KeyCode::Enter => {
                if model.deinit_confirm_cursor == 1 {
                    if model.repo.is_some() {
                        react_with(true, Effect::Deinit)
                    } else {
                        react(true)
                    }
                } else {
                    model.mode = AppMode::RepoView;
                    model.show_toast(String::from_str("Cancelled"), ToastType::Info);
                    react(true)
                }
            },
            _ => react(true),
        }
    }

    /// Shows how removing `.git` ended: the repository is closed and its
    /// files, rows, branch and diff cleared before the dashboard comes back;
    /// or the error is shown over the repository view.
    pub fn finish_deinit(&self, model: &mut Model, outcome: Result<(), String>)
        ensures
            match outcome {
                Ok(()) => {
                    &&& final(model).repo is None
                    &&& final(model).git_files@.len() == 0
                    &&& final(model).display_items@.len() == 0
                    &&& final(model).branch@.len() == 0
                    &&& final(model).diff_content@.len() == 0
                    &&& final(model).status_msg@.len() == 0
                    &&& toasted(*final(model), "✅ Deinitialized — .git removed. Folder still intact."@, ToastType::Success)
                    &&& *final(model) == (Model {
                        repo: None,
                        git_files: final(model).git_files,
                        display_items: final(model).display_items,
                        branch: final(model).branch,
                        diff_content: final(model).diff_content,
                        mode: AppMode::Dashboard,
                        status_msg: final(model).status_msg,
                        toast: final(model).toast,
                        ..*old(model)
                    })
                },
                Err(e) => toasted(*final(model), "❌ Deinit failed: "@ + e@, ToastType::Error)
                    && *final(model) == (Model { mode: AppMode::RepoView, toast: final(model).toast, ..*old(model) }),
            },
    {
        match outcome {
            Ok(()) => {
                model.repo = None;
                model.git_files = Vec::new();
                model.display_items = Vec::new();
                model.branch = String::new();
                model.diff_content = String::new();
                model.mode = AppMode::Dashboard;
                model.status_msg = String::new();
                model.show_toast(
                    String::from_str("✅ Deinitialized — .git removed. Folder still intact."),
                    ToastType::Success,
                );
            },
            Err(e) => {
                model.mode = AppMode::RepoView;
                let mut msg = String::from_str("❌ Deinit failed: ");
                push_str(&mut msg, e.as_str());
                proof { reveal_strlit("❌ Deinit failed: "); }
                model.show_toast(msg, ToastType::Error);
            },
        }
    }
}

} // verus!
