//! The sign-in screen, where a GitHub token is typed and checked.
use vstd::prelude::*;
use crate::config::SwiftGitConfig;
use crate::context::repo::toasted;
use crate::events::{Effect, KeyCode, KeyEvent, Reaction, edit_field, field_after, field_ok, react, react_with};
use crate::model::{AppMode, Model, ToastType};
use crate::text::{char_count, push_str, trim, trim_str};

verus! {

/// The sign-in screen.
pub struct AuthContext;

/// What the sign-in screen does with a key, from `m` to `n`.
pub open spec fn auth_step(m: Model, n: Model, key: KeyEvent, r: Reaction) -> bool {
    match key.code {
        KeyCode::Esc => r.handled && r.effect is Nothing && n == (Model { mode: AppMode::Dashboard, ..m }),
        KeyCode::Enter => r.handled && if trim(m.token_input@).len() == 0 {
            r.effect is Nothing && n == (Model { mode: AppMode::Dashboard, ..m })
        } else {
            &&& r.effect matches Effect::ValidateToken { candidate } && candidate@ == trim(m.token_input@)
            &&& n.auth_status@ == "Validating..."@
            &&& n == (Model { is_validating: true, auth_status: n.auth_status, ..m })
        },
        _ => {
            &&& !r.handled
            &&& r.effect is Nothing
            &&& (n.token_input@, n.token_cursor) == field_after(m.token_input@, m.token_cursor, key, true)
            &&& n == (Model { token_input: n.token_input, token_cursor: n.token_cursor, ..m })
        },
    }
}

impl AuthContext {
    /// The name of the view.
    pub fn view_name(&self) -> (r: &'static str)
        ensures
            r@ == "auth"@,
    {
        "auth"
    }

    /// What the sign-in screen does with a key, as `auth_step` says: Esc
    /// skips to the dashboard; Enter checks the trimmed token (an empty one
    /// skips too); the editing keys edit it.
    pub fn handle_event(&self, key: KeyEvent, model: &mut Model) -> (r: Reaction)
        requires
            field_ok(old(model).token_input@, old(model).token_cursor, key),
        ensures
            auth_step(*old(model), *final(model), key, r),
    {
        match key.code {
            KeyCode::Esc => {
                model.mode = AppMode::Dashboard;
                react(true)
            },
            KeyCode::Enter => {
                let token = trim_str(model.token_input.as_str());
                if char_count(token.as_str()) == 0 {
                    model.mode = AppMode::Dashboard;
                    return react(true);
                }
                model.is_validating = true;
                model.auth_status = String::from_str("Validating...");
                react_with(true, Effect::ValidateToken { candidate: token })
            },
            _ => {
                let mut text = model.token_input.clone();
                let mut cursor = model.token_cursor;
                edit_field(&mut text, &mut cursor, key, true);
                model.token_input = text;
                model.token_cursor = cursor;
                react(false)
            },
        }
    }

    /// Takes GitHub's answer about `token`: the user it belongs to, who is
    /// greeted and stored with the token (the settings are then saved) before
    /// the dashboard comes back; or the error, shown on the screen.
    pub fn finish_token_check(&self, model: &mut Model, token: String, outcome: Result<String, String>) -> (r: Effect)
        ensures
            match outcome {
                Ok(user) => {
                    &&& r is SaveConfig
                    &&& final(model).auth_status@ == "Welcome, "@ + user@ + "!"@
                    &&& toasted(*final(model), "Logged in as @"@ + user@, ToastType::Success)
                    &&& *final(model) == (Model {
                        auth_status: final(model).auth_status,
                        config: SwiftGitConfig { github_token: Some(token), username: Some(user), ..old(model).config },
                        toast: final(model).toast,
                        mode: AppMode::Dashboard,
                        is_validating: false,
                        ..*old(model)
                    })
                },
                Err(e) => {
                    &&& r is Nothing
                    &&& final(model).auth_status@ == "Invalid token: "@ + e@
                    &&& *final(model) == (Model { auth_status: final(model).auth_status, is_validating: false, ..*old(model) })
                },
            },
    {
        match outcome {
            Ok(user) => {
                let mut status = String::from_str("Welcome, ");
                push_str(&mut status, user.as_str());
                push_str(&mut status, "!");
                let mut msg = String::from_str("Logged in as @");
                push_str(&mut msg, user.as_str());
                proof {
                    reveal_strlit("Welcome, ");
                    reveal_strlit("!");
                    reveal_strlit("Logged in as @");
                }
                model.auth_status = status;
                model.config.github_token = Some(token);
                model.config.username = Some(user);
                model.show_toast(msg, ToastType::Success);
                model.mode = AppMode::Dashboard;
                model.is_validating = false;
                Effect::SaveConfig
            },
            Err(e) => {
                let mut status = String::from_str("Invalid token: ");
                push_str(&mut status, e.as_str());
                proof { reveal_strlit("Invalid token: "); }
                model.auth_status = status;
                model.is_validating = false;
                Effect::Nothing
            },
        }
    }
}

} // verus!
