//! The help overlay and the loading screen.
use vstd::prelude::*;
use crate::events::{KeyCode, KeyEvent, Reaction, react};
use crate::model::{AppMode, Model};

verus! {

/// The help overlay.
pub struct HelpContext;

/// The loading screen.
pub struct LoadingContext;

/// What the help overlay does with a key: Esc, `?` or `q` close it; it
/// takes every key.
pub open spec fn help_step(m: Model, n: Model, key: KeyEvent, r: Reaction) -> bool {
    &&& r.handled
    &&& r.effect is Nothing
    &&& if key.code is Esc || key.code == KeyCode::Char('?') || key.code == KeyCode::Char('q') {
        n == (Model { mode: m.help_prev_mode, ..m })
    } else {
        n == m
    }
}

/// What the loading screen does with a key: Esc goes back to the
/// dashboard; other keys pass.
pub open spec fn loading_step(m: Model, n: Model, key: KeyEvent, r: Reaction) -> bool {
    &&& r.effect is Nothing
    &&& if key.code is Esc {
        r.handled && n == (Model { mode: AppMode::Dashboard, ..m })
    } else {
        !r.handled && n == m
    }
}

impl HelpContext {
    /// The name of the view.
    pub fn view_name(&self) -> (r: &'static str)
        ensures
            r@ == "help"@,
    {
        "help"
    }

    /// What the help overlay does with a key, as `help_step` says.
    pub fn handle_event(&self, key: KeyEvent, model: &mut Model) -> (r: Reaction)
        ensures
            help_step(*old(model), *final(model), key, r),
    {
        if key.code == KeyCode::Esc || key.code == KeyCode::Char('?') || key.code == KeyCode::Char('q') {
            model.mode = model.help_prev_mode;
        }
        react(true)
    }
}

impl LoadingContext {
    /// The name of the view.
    pub fn view_name(&self) -> (r: &'static str)
        ensures
            r@ == "loading"@,
    {
        "loading"
    }

    /// What the loading screen does with a key, as `loading_step` says.
    pub fn handle_event(&self, key: KeyEvent, model: &mut Model) -> (r: Reaction)
        ensures
            loading_step(*old(model), *final(model), key, r),
    {
        if key.code == KeyCode::Esc {
            model.mode = AppMode::Dashboard;
            return react(true);
        }
        react(false)
    }
}

} // verus!
