//! The settings dialog: the display name, user name and token kept in the
//! settings file.
use vstd::prelude::*;
use crate::config::SwiftGitConfig;
use crate::events::{Effect, KeyCode, KeyEvent, Reaction, react, react_with};
use crate::model::{AppMode, Model};
use crate::text::{char_count, trim, trim_str};
use crate::ui::{
    SettingsDialogState, SettingsField, settings_active, settings_active_set, settings_active_string,
    settings_next, settings_prev, insert_pos, backspace_pos,
};

verus! {

/// The settings dialog.
pub struct SettingsContext;

/// An optional setting from a field: none when the trimmed text is empty.
pub open spec fn setting_of(text: Seq<char>) -> Option<Seq<char>> {
    if trim(text).len() == 0 {
        None
    } else {
        Some(trim(text))
    }
}

/// The view of an optional string.
pub open spec fn opt_view(o: Option<String>) -> Option<Seq<char>> {
    match o {
        Some(s) => Some(s@),
        None => None,
    }
}

/// The dialog after the focus moved to `f`: the cursor at the end of the
/// field's text, and the token hidden when the token field gets the focus.
pub open spec fn settings_focused(d: SettingsDialogState, e: SettingsDialogState, f: SettingsField) -> bool {
    let moved = SettingsDialogState { focused: f, ..d };
    e == SettingsDialogState {
        cursor: settings_active(moved).len() as usize,
        show_token: if f == SettingsField::Token { false } else { d.show_token },
        ..moved
    }
}

/// The keys that change only the dialog.
pub open spec fn settings_dlg_keys(d: SettingsDialogState, e: SettingsDialogState, key: KeyEvent) -> bool {
    match key.code {
        KeyCode::Tab | KeyCode::Down => settings_focused(d, e, settings_next(d.focused)),
        KeyCode::BackTab | KeyCode::Up => settings_focused(d, e, settings_prev(d.focused)),
        KeyCode::Char('v') if key.ctrl => if d.focused == SettingsField::Token {
            e == SettingsDialogState { show_token: !d.show_token, ..d }
        } else {
            let moved = SettingsDialogState { focused: settings_prev(d.focused), ..d };
            e == SettingsDialogState { cursor: settings_active(moved).len() as usize, ..moved }
        },
        KeyCode::Left => e == if d.cursor > 0 { SettingsDialogState { cursor: (d.cursor - 1) as usize, ..d } } else { d },
        KeyCode::Right => e == if d.cursor < settings_active(d).len() {
            SettingsDialogState { cursor: (d.cursor + 1) as usize, ..d }
        } else {
            d
        },
        KeyCode::Backspace => if d.cursor == 0 {
            e == d
        } else {
            settings_active(e) == settings_active(d).remove(backspace_pos(settings_active(d).len(), d.cursor))
                && e == SettingsDialogState { cursor: (d.cursor - 1) as usize, ..settings_active_set(d, settings_active_string(e)) }
        },
        KeyCode::Char(c) => if key.ctrl {
            e == d
        } else {
            settings_active(e) == settings_active(d).insert(insert_pos(settings_active(d).len(), d.cursor), c)
                && e == SettingsDialogState { cursor: (d.cursor + 1) as usize, ..settings_active_set(d, settings_active_string(e)) }
        },
        _ => e == d,
    }
}

/// What the settings dialog does with a key, from `m` to `n`; it takes
/// every key.
pub open spec fn settings_step(m: Model, n: Model, key: KeyEvent, r: Reaction) -> bool {
    let d = m.settings_dlg;
    &&& r.handled
    &&& if key.ctrl && key.code == KeyCode::Char('w') || key.code is Esc {
        r.effect is Nothing && n == (Model { mode: m.settings_prev_mode, ..m })
    } else if key.code is Enter {
        &&& r.effect is SaveConfig
        &&& opt_view(n.config.display_name) == setting_of(d.display_name@)
        &&& opt_view(n.config.username) == setting_of(d.username@)
        &&& opt_view(n.config.github_token) == setting_of(d.token@)
        &&& n == (Model {
            config: SwiftGitConfig {
                display_name: n.config.display_name,
                username: n.config.username,
                github_token: n.config.github_token,
                ..m.config
            },
            mode: m.settings_prev_mode,
            ..m
        })
    } else {
        r.effect is Nothing && n == (Model { settings_dlg: n.settings_dlg, ..m }) && settings_dlg_keys(d, n.settings_dlg, key)
    }
}

/// The dialog can take the key without panicking.
pub open spec fn settings_key_ok(m: Model, key: KeyEvent) -> bool {
    &&& key.code is Char && !key.ctrl ==> m.settings_dlg.cursor < usize::MAX
    &&& key.code is Backspace && m.settings_dlg.cursor > 0 ==> settings_active(m.settings_dlg).len() > 0
}

/// The trimmed text as a setting, none when empty.
fn setting_from(text: &str) -> (r: Option<String>)
    ensures
        opt_view(r) == setting_of(text@),
{
    let t = trim_str(text);
    if char_count(t.as_str()) == 0 {
        None
    } else {
        Some(t)
    }
}

/// The keys that change only the dialog, as `settings_dlg_keys` says.
fn settings_key(d: &mut SettingsDialogState, key: KeyEvent)
    requires
        key.code is Char && !key.ctrl ==> old(d).cursor < usize::MAX,
        key.code is Backspace && old(d).cursor > 0 ==> settings_active(*old(d)).len() > 0,
    ensures
        settings_dlg_keys(*old(d), *final(d), key),
{
    match key.code {
        KeyCode::Tab | KeyCode::Down => {
            let next = d.focused.next();
            d.focused = next;
            d.cursor = char_count(d.active_field_text());
            if d.focused == SettingsField::Token {
                d.show_token = false;
            }
        },
        KeyCode::BackTab | KeyCode::Up => {
            let prev = d.focused.prev();
            d.focused = prev;
            d.cursor = char_count(d.active_field_text());
            if d.focused == SettingsField::Token {
                d.show_token = false;
            }
        },
        KeyCode::Char('v') if key.ctrl => {
            if d.focused == SettingsField::Token {
                d.show_token = !d.show_token;
            } else {
                let prev = d.focused.prev();
                d.focused = prev;
                d.cursor = char_count(d.active_field_text());
            }
        },
        KeyCode::Left => {
            if d.cursor > 0 {
                d.cursor = d.cursor - 1;
            }
        },
        KeyCode::Right => {
            let len = char_count(d.active_field_text());
            if d.cursor < len {
                d.cursor = d.cursor + 1;
            }
        },
        KeyCode::Backspace => {
            d.backspace();
        },
        KeyCode::Char(c) => {
            if !key.ctrl {
                d.type_char(c);
            }
        },
        _ => {},
    }
}

impl SettingsContext {
    /// The name of the view.
    pub fn view_name(&self) -> (r: &'static str)
        ensures
            r@ == "settings"@,
    {
        "settings"
    }

    /// What the settings dialog does with a key, as `settings_step` says:
    /// Ctrl+W and Esc close it; Enter stores the trimmed fields (an empty
    /// one unsets its setting), saves and closes; Tab/Shift+Tab move the
    /// focus; Ctrl+V shows or hides the token; the editing keys edit the
    /// focused field.
    pub fn handle_event(&self, key: KeyEvent, model: &mut Model) -> (r: Reaction)
        requires
            settings_key_ok(*old(model), key),
        ensures
            settings_step(*old(model), *final(model), key, r),
    {
        if key.ctrl && key.code == KeyCode::Char('w') || key.code == KeyCode::Esc {
            model.mode = model.settings_prev_mode;
            return react(true);
        }
        if key.code == KeyCode::Enter {
            let name = setting_from(model.settings_dlg.display_name.as_str());
            let user = setting_from(model.settings_dlg.username.as_str());
            let token = setting_from(model.settings_dlg.token.as_str());
            model.config.display_name = name;
            model.config.username = user;
            model.config.github_token = token;
            model.mode = model.settings_prev_mode;
            return react_with(true, Effect::SaveConfig);
        }
        settings_key(&mut model.settings_dlg, key);
        react(true)
    }
}

} // verus!
