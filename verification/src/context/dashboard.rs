//! The dashboard: its menu of opening a folder, cloning, and the recent
//! projects.
use vstd::prelude::*;
use crate::context::repo::toasted;
use crate::events::{KeyCode, KeyEvent, Reaction, react};
use crate::model::{AppMode, Model, ToastType};

verus! {

/// The dashboard.
pub struct DashboardContext;

/// The number of entries of the dashboard's menu.
pub open spec fn menu_len() -> int {
    3
}

/// What the dashboard does with a key, from `m` to `n`; it takes no key.
pub open spec fn dashboard_step(m: Model, n: Model, key: KeyEvent, r: Reaction) -> bool {
    &&& !r.handled
    &&& r.effect is Nothing
    &&& match key.code {
        KeyCode::Up => n == (Model {
            dashboard_cursor: if m.dashboard_cursor > 0 { (m.dashboard_cursor - 1) as usize } else { m.dashboard_cursor },
            ..m
        }),
        KeyCode::Down => n == (Model {
            dashboard_cursor: if m.dashboard_cursor < menu_len() - 1 { (m.dashboard_cursor + 1) as usize } else { m.dashboard_cursor },
            ..m
        }),
        KeyCode::Enter => {
            &&& n.status_msg@.len() == 0
            &&& if m.dashboard_cursor == 0 {
                n.text_input@.len() == 0 && n.dir_suggestions@.len() == 0 && n == (Model {
                    status_msg: n.status_msg,
                    text_input: n.text_input,
                    text_cursor: 0,
                    dir_suggestions: n.dir_suggestions,
                    suggestion_cursor: None,
                    mode: AppMode::FolderInput,
                    ..m
                })
            } else if m.dashboard_cursor == 1 {
                n.text_input@.len() == 0 && n == (Model {
                    status_msg: n.status_msg,
                    text_input: n.text_input,
                    text_cursor: 0,
                    mode: AppMode::CloneInput,
                    ..m
                })
            } else if m.dashboard_cursor == 2 {
                if m.config.recent_projects@.len() > 0 {
                    n == (Model { status_msg: n.status_msg, recent_projects_cursor: 0, mode: AppMode::RecentProjects, ..m })
                } else {
                    toasted(n, "No recent projects yet"@, ToastType::Info)
                        && n == (Model { status_msg: n.status_msg, toast: n.toast, ..m })
                }
            } else {
                n == (Model { status_msg: n.status_msg, ..m })
            }
        },
        _ => n == m,
    }
}

impl DashboardContext {
    /// The name of the view.
    pub fn view_name(&self) -> (r: &'static str)
        ensures
            r@ == "dashboard"@,
    {
        "dashboard"
    }

    /// What the dashboard does with a key, as `dashboard_step` says: Up and
    /// Down move through the menu; Enter opens the folder box, the clone box
    /// or the recent projects (a note when there are none).
    pub fn handle_event(&self, key: KeyEvent, model: &mut Model) -> (r: Reaction)
        ensures
            dashboard_step(*old(model), *final(model), key, r),
    {
        match key.code {
            KeyCode::Up => {
                if model.dashboard_cursor > 0 {
                    model.dashboard_cursor = model.dashboard_cursor - 1;
                }
            },
            KeyCode::Down => {
                if model.dashboard_cursor < 2 {
                    model.dashboard_cursor = model.dashboard_cursor + 1;
                }
            },
            KeyCode::Enter => {
                model.status_msg = String::new();
                if model.dashboard_cursor == 0 {
                    model.text_input = String::new();
                    model.text_cursor = 0;
                    model.dir_suggestions = Vec::new();
                    model.suggestion_cursor = None;
                    model.mode = AppMode::FolderInput;
                } else if model.dashboard_cursor == 1 {
                    model.text_input = String::new();
                    model.text_cursor = 0;
                    model.mode = AppMode::CloneInput;
                } else if model.dashboard_cursor == 2 {
                    if model.config.recent_projects.len() > 0 {
                        model.recent_projects_cursor = 0;
                        model.mode = AppMode::RecentProjects;
                    } else {
                        model.show_toast(String::from_str("No recent projects yet"), ToastType::Info);
                    }
                }
            },
            _ => {},
        }
        react(false)
    }
}

} // verus!
