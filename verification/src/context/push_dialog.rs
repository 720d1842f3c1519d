//! The push dialog: its fields, the branch dropdown, starting a push, and
//! the confirmation of a force push after a rejected one.
use vstd::prelude::*;
use crate::context::repo::{toasted, copy_opt};
use crate::events::{Effect, KeyCode, KeyEvent, Reaction, react, react_with};
use crate::model::{AppMode, Model, ToastType};
use crate::text::{char_count, contains, push_str, str_contains, trim, trim_str};
use crate::ui::{
    PushDialogState, PushField, push_active, push_active_set, push_active_string, push_next, push_prev,
    insert_pos, backspace_pos, origin_of, spinner_char, spinner_glyph,
};

verus! {

/// The push dialog.
pub struct PushDialogContext;

/// `m` with the push dialog `d`.
pub open spec fn with_dlg(m: Model, d: PushDialogState) -> Model {
    Model { push_dlg: d, ..m }
}

/// What starting a push does, from `m` to `n`, asking for `e`: nothing
/// while something is loading; otherwise the dialog says it is pushing and
/// the push goes out with the trimmed repository and branch names, the
/// token, the repository's root and the user name, unless the repository
/// name is empty, no token is stored or no repository is open, which the
/// dialog reports instead.
pub open spec fn push_started(m: Model, n: Model, e: Effect) -> bool {
    if m.is_loading {
        n == m && e is Nothing
    } else {
        let name = trim(m.push_dlg.repo_name@);
        let waiting = spinner_glyph((((m.frame_count / 2) as usize) % 10) as int) + " Pushing…"@;
        &&& n.loading_label@ == "Pushing to remote"@
        &&& if name.len() == 0 {
            e is Nothing && !n.is_loading && n.push_dlg.status_msg@ == "❌ Repo name is required"@
        } else if m.config.github_token is None {
            e is Nothing && !n.is_loading && n.push_dlg.status_msg@ == "❌ No GitHub token"@
        } else if m.repo is None {
            e is Nothing && !n.is_loading && n.push_dlg.status_msg@ == "❌ No repo open"@
        } else {
            &&& n.is_loading
            &&& n.push_dlg.status_msg@ == waiting
            &&& e matches Effect::Push { access_token, root, repo_name, branch, username, force } && {
                &&& Some(access_token) == m.config.github_token
                &&& root == m.repo->Some_0.root
                &&& repo_name@ == name
                &&& branch@ == trim(m.push_dlg.branch@)
                &&& username@ == match m.config.username {
                    Some(u) => u@,
                    None => Seq::<char>::empty(),
                }
                &&& force == m.push_dlg.force_push
            }
        }
        &&& n == (Model {
            push_dlg: PushDialogState { status_msg: n.push_dlg.status_msg, ..m.push_dlg },
            loading_label: n.loading_label,
            is_loading: n.is_loading,
            ..m
        })
    }
}

/// The keys of the force-push confirmation.
pub open spec fn confirm_step(m: Model, n: Model, key: KeyEvent, r: Reaction) -> bool {
    &&& r.handled
    &&& match key.code {
        KeyCode::Left | KeyCode::Right | KeyCode::Char('h') | KeyCode::Char('l') | KeyCode::Tab => r.effect is Nothing
            && n == (Model { force_push_confirm_cursor: (1 - m.force_push_confirm_cursor) as usize, ..m }),
        KeyCode::Esc | KeyCode::Char('n') => r.effect is Nothing && n == (Model { mode: AppMode::PushDialog, ..m }),
        KeyCode::Enter | KeyCode::Char('y') => if m.force_push_confirm_cursor == 1 {
            push_started(
                Model { push_dlg: PushDialogState { force_push: true, ..m.push_dlg }, mode: AppMode::PushDialog, ..m },
                n,
                r.effect,
            )
        } else {
            r.effect is Nothing && n == (Model { mode: AppMode::PushDialog, ..m })
        },
        _ => r.effect is Nothing && n == m,
    }
}

/// The keys of the dialog's fields and dropdown.
pub open spec fn dialog_step(m: Model, n: Model, key: KeyEvent, r: Reaction) -> bool {
    let d = m.push_dlg;
    &&& !r.handled
    &&& match key.code {
        KeyCode::Esc => r.effect is Nothing && if d.branch_open {
            n == with_dlg(m, PushDialogState { branch_open: false, ..d })
        } else {
            n == (Model { mode: AppMode::RepoView, ..m })
        },
        KeyCode::Enter if !d.branch_open => push_started(m, n, r.effect),
        _ => r.effect is Nothing && n == with_dlg(m, n.push_dlg) && dlg_keys(d, n.push_dlg, key),
    }
}

/// The keys that change only the dialog: the dropdown's cursor and choice,
/// the focus, and the focused field.
pub open spec fn dlg_keys(d: PushDialogState, e: PushDialogState, key: KeyEvent) -> bool {
    match key.code {
        KeyCode::Tab | KeyCode::Down => if d.branch_open {
            if d.branch_list@.len() > 0 && d.branch_cursor < d.branch_list@.len() - 1 {
                e == PushDialogState { branch_cursor: (d.branch_cursor + 1) as usize, ..d }
            } else {
                e == d
            }
        } else {
            focus_moved(d, e, push_next(d.focused))
        },
        KeyCode::BackTab | KeyCode::Up => if d.branch_open {
            if d.branch_cursor > 0 {
                e == PushDialogState { branch_cursor: (d.branch_cursor - 1) as usize, ..d }
            } else {
                e == d
            }
        } else {
            focus_moved(d, e, push_prev(d.focused))
        },
        KeyCode::Enter => if d.branch_cursor < d.branch_list@.len() {
            let b = d.branch_list@[d.branch_cursor as int];
            &&& e.origin@ == if d.username@.len() > 0 && d.repo_name@.len() > 0 {
                origin_of(d.username@, d.repo_name@)
            } else {
                Seq::<char>::empty()
            }
            &&& e == PushDialogState { branch: b, branch_open: false, origin: e.origin, ..d }
        } else {
            e == d
        },
        _ => field_step(d, e, key),
    }
}

/// The dialog after the focus moved to field `f`, with the text cursor
/// kept within the field's text.
pub open spec fn focus_moved(d0: PushDialogState, e: PushDialogState, f: PushField) -> bool {
    let d = PushDialogState { focused: f, ..d0 };
    e == PushDialogState {
        cursor: if d.cursor > push_active(d).len() { push_active(d).len() as usize } else { d.cursor },
        ..d
    }
}

/// Space on the branch field, and the editing keys of the focused field.
pub open spec fn field_step(d: PushDialogState, e: PushDialogState, key: KeyEvent) -> bool {
    match key.code {
        KeyCode::Char(' ') if d.focused == PushField::Branch => {
            let opened = !d.branch_open;
            &&& e.branch_open == opened
            &&& !opened ==> e == PushDialogState { branch_open: false, ..d }
            &&& opened ==> e == PushDialogState { branch_open: true, branch_cursor: e.branch_cursor, ..d }
        },
        KeyCode::Left => e == if d.cursor > 0 {
            PushDialogState { cursor: (d.cursor - 1) as usize, ..d }
        } else {
            d
        },
        KeyCode::Right => e == if d.cursor < push_active(d).len() {
            PushDialogState { cursor: (d.cursor + 1) as usize, ..d }
        } else {
            d
        },
        KeyCode::Backspace => if d.cursor == 0 {
            e == d
        } else {
            push_active(e) == push_active(d).remove(backspace_pos(push_active(d).len(), d.cursor))
                && e == PushDialogState { cursor: (d.cursor - 1) as usize, ..push_active_set(d, push_active_string(e)) }
        },
        KeyCode::Char(c) => if key.ctrl {
            e == d
        } else {
            push_active(e) == push_active(d).insert(insert_pos(push_active(d).len(), d.cursor), c)
                && e == PushDialogState { cursor: (d.cursor + 1) as usize, ..push_active_set(d, push_active_string(e)) }
        },
        _ => e == d,
    }
}

/// What the push dialog does with a key: in the force-push confirmation as
/// `confirm_step` says, else as `dialog_step` says.
pub open spec fn push_step(m: Model, n: Model, key: KeyEvent, r: Reaction) -> bool {
    if m.mode == AppMode::ForcePushConfirm {
        confirm_step(m, n, key, r)
    } else {
        dialog_step(m, n, key, r)
    }
}

/// The dialog can take the key without panicking: the confirmation cursor
/// is 0 or 1 when it flips, typing leaves room for the cursor, and
/// Backspace away from the start has a character to remove.
pub open spec fn push_key_ok(m: Model, key: KeyEvent) -> bool {
    if m.mode == AppMode::ForcePushConfirm {
        m.force_push_confirm_cursor <= 1
    } else {
        &&& key.code is Char && !key.ctrl ==> m.push_dlg.cursor < usize::MAX
        &&& key.code is Backspace && m.push_dlg.cursor > 0 ==> push_active(m.push_dlg).len() > 0
    }
}

/// Whether a push's error says the remote rejected it.
pub open spec fn rejected(e: Seq<char>) -> bool {
    contains(e, "rejected"@) || contains(e, "non-fast-forward"@) || contains(e, "fetch first"@)
}

/// The message of a push that went out, given what it printed.
pub open spec fn pushed_text(out: Seq<char>, user: Seq<char>, repo: Seq<char>) -> Seq<char> {
    if contains(out, "Everything up-to-date"@) || contains(out, "up to date"@) {
        "✅ Already up-to-date"@
    } else {
        "✅ Pushed to "@ + user + "/"@ + repo + "!"@
    }
}

impl PushDialogContext {
    /// The name of the view.
    pub fn view_name(&self) -> (r: &'static str)
        ensures
            r@ == "push_dialog"@,
    {
        "push_dialog"
    }

    /// What the push dialog does with a key, as `push_step` says.
    pub fn handle_event(&self, key: KeyEvent, model: &mut Model) -> (r: Reaction)
        requires
            push_key_ok(*old(model), key),
        ensures
            push_step(*old(model), *final(model), key, r),
    {
        if model.mode == AppMode::ForcePushConfirm {
            self.confirm(key, model)
        } else {
            self.dialog(key, model)
        }
    }

    fn confirm(&self, key: KeyEvent, model: &mut Model) -> (r: Reaction)
        requires
            old(model).force_push_confirm_cursor <= 1,
        ensures
            confirm_step(*old(model), *final(model), key, r),
    {
        match key.code {
            KeyCode::Left | KeyCode::Right | KeyCode::Char('h') | KeyCode::Char('l') | KeyCode::Tab => {
                model.force_push_confirm_cursor = 1 - model.force_push_confirm_cursor;
                react(true)
            },
            KeyCode::Esc | KeyCode::Char('n') => {
                model.mode = AppMode::PushDialog;
                react(true)
            },
            KeyCode::Enter | KeyCode::Char('y') => {
                if model.force_push_confirm_cursor == 1 {
                    model.push_dlg.force_push = true;
                    model.mode = AppMode::PushDialog;
                    let e = self.trigger_push(model);
                    react_with(true, e)
                } else {
                    model.mode = AppMode::PushDialog;
                    react(true)
                }
            },
            _ => react(true),
        }
    }

    fn dialog(&self, key: KeyEvent, model: &mut Model) -> (r: Reaction)
        requires
            key.code is Char && !key.ctrl ==> old(model).push_dlg.cursor < usize::MAX,
            key.code is Backspace && old(model).push_dlg.cursor > 0 ==> push_active(old(model).push_dlg).len() > 0,
        ensures
            dialog_step(*old(model), *final(model), key, r),
    {
        match key.code {
            KeyCode::Esc => {
                if model.push_dlg.branch_open {
                    model.push_dlg.branch_open = false;
                } else {
                    model.mode = AppMode::RepoView;
                }
                react(false)
            },
            KeyCode::Enter if !model.push_dlg.branch_open => {
                let e = self.trigger_push(model);
                react_with(false, e)
            },
            _ => {
                dlg_key(&mut model.push_dlg, key);
                react(false)
            },
        }
    }

    /// Starts a push, as `push_started` says.
    pub fn trigger_push(&self, model: &mut Model) -> (e: Effect)
        ensures
            push_started(*old(model), *final(model), e),
    {
        if model.is_loading {
            return Effect::Nothing;
        }
        let repo_name = trim_str(model.push_dlg.repo_name.as_str());
        let branch = trim_str(model.push_dlg.branch.as_str());
        let token = copy_opt(&model.config.github_token);
        let username = match &model.config.username {
            Some(u) => u.clone(),
            None => String::new(),
        };
        let force = model.push_dlg.force_push;
        let mut waiting = String::from_str(spinner_char(model.frame_count));
        push_str(&mut waiting, " Pushing…");
        model.push_dlg.status_msg = waiting;
        model.loading_label = String::from_str("Pushing to remote");
        model.is_loading = true;
        if char_count(repo_name.as_str()) == 0 {
            model.push_dlg.status_msg = String::from_str("❌ Repo name is required");
            model.is_loading = false;
            return Effect::Nothing;
        }
        let access_token = match token {
            Some(t) => t,
            None => {
                model.push_dlg.status_msg = String::from_str("❌ No GitHub token");
                model.is_loading = false;
                return Effect::Nothing;
            },
        };
        let root = match &model.repo {
            Some(r) => r.root.clone(),
            None => {
                model.push_dlg.status_msg = String::from_str("❌ No repo open");
                model.is_loading = false;
                return Effect::Nothing;
            },
        };
        Effect::Push { access_token, root, repo_name, branch, username, force }
    }

    /// Shows how a push ended (`None` when its task was lost): the loading
    /// state ends; a push that went out is reported and the repository view
    /// comes back; a rejected push that was not forced asks whether to
    /// force it; any other failure is reported.
    #[verifier::rlimit(50)]
    pub fn finish_push(&self, model: &mut Model, username: &str, repo: &str, force: bool, outcome: Option<Result<String, String>>)
        ensures
            match outcome {
                Some(Ok(out)) => {
                    let msg = pushed_text(out@, username@, repo@);
                    &&& final(model).push_dlg.status_msg@ == msg
                    &&& final(model).status_msg@ == msg
                    &&& toasted(*final(model), msg, ToastType::Success)
                    &&& *final(model) == (Model {
                        is_loading: false,
                        push_dlg: PushDialogState { status_msg: final(model).push_dlg.status_msg, ..old(model).push_dlg },
                        status_msg: final(model).status_msg,
                        toast: final(model).toast,
                        mode: AppMode::RepoView,
                        ..*old(model)
                    })
                },
                Some(Err(e)) => if rejected(e@) && !force {
                    &&& final(model).push_dlg.status_msg@ == "⚠ Push rejected — force push?"@
                    &&& *final(model) == (Model {
                        is_loading: false,
                        push_dlg: PushDialogState { status_msg: final(model).push_dlg.status_msg, ..old(model).push_dlg },
                        force_push_confirm_cursor: 0,
                        mode: AppMode::ForcePushConfirm,
                        ..*old(model)
                    })
                } else {
                    &&& final(model).push_dlg.status_msg@ == "❌ Push failed: "@ + e@
                    &&& toasted(*final(model), "❌ Push failed: "@ + e@, ToastType::Error)
                    &&& *final(model) == (Model {
                        is_loading: false,
                        push_dlg: PushDialogState { status_msg: final(model).push_dlg.status_msg, ..old(model).push_dlg },
                        toast: final(model).toast,
                        ..*old(model)
                    })
                },
                None => toasted(*final(model), "Push failed"@, ToastType::Error)
                    && *final(model) == (Model { is_loading: false, toast: final(model).toast, ..*old(model) }),
            },
    {
        model.is_loading = false;
        match outcome {
            Some(Ok(out)) => {
                let msg = if str_contains(out.as_str(), "Everything up-to-date") || str_contains(out.as_str(), "up to date") {
                    String::from_str("✅ Already up-to-date")
                } else {
                    let mut m = String::from_str("✅ Pushed to ");
                    push_str(&mut m, username);
                    push_str(&mut m, "/");
                    push_str(&mut m, repo);
                    push_str(&mut m, "!");
                    proof {
                        reveal_strlit("✅ Pushed to ");
                        reveal_strlit("/");
                        reveal_strlit("!");
                    }
                    m
                };
                model.push_dlg.status_msg = msg.clone();
                model.status_msg = msg.clone();
                model.show_toast(msg, ToastType::Success);
                model.mode = AppMode::RepoView;
            },
            Some(Err(e)) => {
                let is_rejected = str_contains(e.as_str(), "rejected") || str_contains(e.as_str(), "non-fast-forward")
                    || str_contains(e.as_str(), "fetch first");
                if is_rejected && !force {
                    model.force_push_confirm_cursor = 0;
                    model.mode = AppMode::ForcePushConfirm;
                    model.push_dlg.status_msg = String::from_str("⚠ Push rejected — force push?");
                } else {
                    let mut msg = String::from_str("❌ Push failed: ");
                    push_str(&mut msg, e.as_str());
                    proof { reveal_strlit("❌ Push failed: "); }
                    model.push_dlg.status_msg = msg.clone();
                    model.show_toast(msg, ToastType::Error);
                }
            },
            None => {
                model.show_toast(String::from_str("Push failed"), ToastType::Error);
            },
        }
    }
}

/// The keys that change only the dialog, as `dlg_keys` says.
fn dlg_key(d: &mut PushDialogState, key: KeyEvent)
    requires
        key.code is Char && !key.ctrl ==> old(d).cursor < usize::MAX,
        key.code is Backspace && old(d).cursor > 0 ==> push_active(*old(d)).len() > 0,
    ensures
        dlg_keys(*old(d), *final(d), key),
{
    match key.code {
        KeyCode::Tab | KeyCode::Down => {
            if d.branch_open {
                let n = d.branch_list.len();
                if n > 0 && d.branch_cursor < n - 1 {
                    d.branch_cursor = d.branch_cursor + 1;
                }
            } else {
                let next = d.focused.next();
                d.focused = next;
                d.clamp_cursor();
            }
        },
        KeyCode::BackTab | KeyCode::Up => {
            if d.branch_open {
                if d.branch_cursor > 0 {
                    d.branch_cursor = d.branch_cursor - 1;
                }
            } else {
                let prev = d.focused.prev();
                d.focused = prev;
                d.clamp_cursor();
            }
        },
        KeyCode::Enter => {
            if d.branch_cursor < d.branch_list.len() {
                let b = d.branch_list[d.branch_cursor].clone();
                d.branch = b;
                d.branch_open = false;
                d.update_origin();
            }
        },
        _ => field_key(d, key),
    }
}

/// Space on the branch field and the editing keys, as `field_step` says.
fn field_key(d: &mut PushDialogState, key: KeyEvent)
    requires
        key.code is Char && !key.ctrl ==> old(d).cursor < usize::MAX,
        key.code is Backspace && old(d).cursor > 0 ==> push_active(*old(d)).len() > 0,
    ensures
        field_step(*old(d), *final(d), key),
{
    match key.code {
        KeyCode::Char(' ') if d.focused == PushField::Branch => {
            d.branch_open = !d.branch_open;
            if d.branch_open {
                d.sync_branch_cursor();
            }
        },
        KeyCode::Left => {
            if d.cursor > 0 {
                d.cursor = d.cursor - 1;
            }
        },
        KeyCode::Right => {
            let len = char_count(d.active_text());
            if d.cursor < len {
                d.cursor = d.cursor + 1;
            }
        },
        KeyCode::Backspace => {
            d.backspace();
        },
        KeyCode::Char(c) => {
            if !key.ctrl {
                d.type_char(c);
            }
        },
        _ => {},
    }
}

} // verus!
