//! The list of recent projects: opening one, forgetting one or all.
use vstd::prelude::*;
use crate::config::SwiftGitConfig;
use crate::context::rebase::last_pos;
use crate::context::repo::toasted;
use crate::events::{Effect, KeyCode, KeyEvent, OpenedRepo, Reaction, react, react_with};
use crate::model::{AppMode, Model, ToastType};
use crate::text::push_str;

verus! {

/// The recent projects list.
pub struct RecentProjectsContext;

/// What the recent projects list does with a key, from `m` to `n`.
pub open spec fn recent_step(m: Model, n: Model, key: KeyEvent, r: Reaction) -> bool {
    let ps = m.config.recent_projects@;
    let c = m.recent_projects_cursor;
    match key.code {
        KeyCode::Esc => r.handled && r.effect is Nothing && n == (Model { mode: AppMode::Dashboard, ..m }),
        KeyCode::Up | KeyCode::Char('k') => !r.handled && r.effect is Nothing && n == (Model {
            recent_projects_cursor: if c > 0 { (c - 1) as usize } else { c },
            ..m
        }),
        KeyCode::Down | KeyCode::Char('j') => !r.handled && r.effect is Nothing && n == (Model {
            recent_projects_cursor: if c < last_pos(ps.len()) { (c + 1) as usize } else { c },
            ..m
        }),
        KeyCode::Enter => !r.handled && n == m && if c < ps.len() {
            r.effect matches Effect::OpenRecent { path } && path == ps[c as int].path
        } else {
            r.effect is Nothing
        },
        KeyCode::Char('d') => !r.handled && if ps.len() > 0 {
            let rest = ps.remove(c as int);
            &&& r.effect is SaveConfig
            &&& n.config.recent_projects@ == rest
            &&& n == (Model {
                config: SwiftGitConfig { recent_projects: n.config.recent_projects, ..m.config },
                recent_projects_cursor: if c > last_pos(rest.len()) { last_pos(rest.len()) } else { c },
                mode: if rest.len() == 0 { AppMode::Dashboard } else { m.mode },
                ..m
            })
        } else {
            r.effect is Nothing && n == m
        },
        KeyCode::Char('C') => !r.handled && r.effect is SaveConfig && n.config.recent_projects@.len() == 0
            && n == (Model {
                config: SwiftGitConfig { recent_projects: n.config.recent_projects, ..m.config },
                recent_projects_cursor: 0,
                mode: AppMode::Dashboard,
                ..m
            }),
        _ => !r.handled && r.effect is Nothing && n == m,
    }
}

impl RecentProjectsContext {
    /// The name of the view.
    pub fn view_name(&self) -> (r: &'static str)
        ensures
            r@ == "recent_projects"@,
    {
        "recent_projects"
    }

    /// What the list does with a key, as `recent_step` says: Up and Down
    /// (`k`/`j`) move; Enter opens the project; `d` forgets it and `C`
    /// forgets them all (the settings are then saved); Esc goes back.
    pub fn handle_event(&self, key: KeyEvent, model: &mut Model) -> (r: Reaction)
        requires
            key.code == KeyCode::Char('d') && old(model).config.recent_projects@.len() > 0
                ==> old(model).recent_projects_cursor < old(model).config.recent_projects@.len(),
        ensures
            recent_step(*old(model), *final(model), key, r),
    {
        let c = model.recent_projects_cursor;
        match key.code {
            KeyCode::Esc => {
                model.mode = AppMode::Dashboard;
                react(true)
            },
            KeyCode::Up | KeyCode::Char('k') => {
                if c > 0 {
                    model.recent_projects_cursor = c - 1;
                }
                react(false)
            },
            KeyCode::Down | KeyCode::Char('j') => {
                let len = model.config.recent_projects.len();
                if len > 0 && c < len - 1 {
                    model.recent_projects_cursor = c + 1;
                }
                react(false)
            },
            KeyCode::Enter => {
                if c < model.config.recent_projects.len() {
                    let path = model.config.recent_projects[c].path.clone();
                    react_with(false, Effect::OpenRecent { path })
                } else {
                    react(false)
                }
            },
            KeyCode::Char('d') => {
                if model.config.recent_projects.len() > 0 {
                    model.config.recent_projects.remove(c);
                    let len = model.config.recent_projects.len();
                    let max = if len > 0 {
                        len - 1
                    } else {
                        0
                    };
                    if c > max {
                        model.recent_projects_cursor = max;
                    }
                    if len == 0 {
                        model.mode = AppMode::Dashboard;
                    }
                    react_with(false, Effect::SaveConfig)
                } else {
                    react(false)
                }
            },
            KeyCode::Char('C') => {
                model.config.recent_projects = Vec::new();
                model.recent_projects_cursor = 0;
                model.mode = AppMode::Dashboard;
                react_with(false, Effect::SaveConfig)
            },
            _ => react(false),
        }
    }

    /// Shows the recent project that was opened (and asks for its status to
    /// be read), or why it could not be opened.
    pub fn finish_open_recent(&self, model: &mut Model, outcome: Result<OpenedRepo, String>) -> (r: Effect)
        ensures
            match outcome {
                Ok(o) => {
                    &&& r is RefreshStatus
                    &&& toasted(*final(model), "Opened project"@, ToastType::Success)
                    &&& final(model).mode == AppMode::RepoView
                    &&& final(model).repo == Some(o.repo)
                    &&& final(model).git_files == o.files
                },
                Err(e) => r is Nothing && toasted(*final(model), "Error: "@ + e@, ToastType::Error)
                    && *final(model) == (Model { toast: final(model).toast, ..*old(model) }),
            },
    {
        match outcome {
            Ok(o) => {
                model.open_repo(o.path, o.repo, o.branch, o.files);
                model.show_toast(String::from_str("Opened project"), ToastType::Success);
                Effect::RefreshStatus
            },
            Err(e) => {
                let mut msg = String::from_str("Error: ");
                push_str(&mut msg, e.as_str());
                proof { reveal_strlit("Error: "); }
                model.show_toast(msg, ToastType::Error);
                Effect::Nothing
            },
        }
    }
}

} // verus!
