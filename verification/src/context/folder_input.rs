//! The box where a folder path is typed to open it, with suggestions of
//! folders that continue the typed path.
use vstd::prelude::*;
use crate::context::repo::toasted;
use crate::events::{Effect, FolderOutcome, KeyCode, KeyEvent, Reaction, edit_field, field_after, field_ok, react, react_with};
use crate::git::strs_view;
use crate::model::{AppMode, Model, ToastType};
use crate::text::{char_count, push_str, trim, trim_str};

verus! {

/// The folder box.
pub struct FolderInputContext;

/// `m` with suggestion `k` chosen: the suggestion cursor on it and, when
/// there is such a suggestion, its text in the box with the text cursor at
/// the end.
pub open spec fn suggestion_taken(m: Model, n: Model, k: usize) -> bool {
    if k < m.dir_suggestions@.len() {
        &&& n.text_input@ == m.dir_suggestions@[k as int]@
        &&& n == (Model {
            suggestion_cursor: Some(k),
            text_input: n.text_input,
            text_cursor: m.dir_suggestions@[k as int]@.len() as usize,
            ..m
        })
    } else {
        n == (Model { suggestion_cursor: Some(k), ..m })
    }
}

/// The suggestion after the chosen one (the first when none is), wrapping.
pub open spec fn next_index(c: Option<usize>, len: nat) -> usize {
    match c {
        None => 0,
        Some(i) => ((i + 1) % (len as int)) as usize,
    }
}

/// The suggestion before the chosen one (the last when none or the first
/// is).
pub open spec fn prev_index(c: Option<usize>, len: nat) -> usize {
    match c {
        Some(i) => if i == 0 { (len - 1) as usize } else { (i - 1) as usize },
        None => (len - 1) as usize,
    }
}

/// What the folder box does with a key, from `m` to `n`.
pub open spec fn folder_step(m: Model, n: Model, key: KeyEvent, r: Reaction) -> bool {
    let len = m.dir_suggestions@.len();
    match key.code {
        KeyCode::Esc => r.handled && r.effect is Nothing && n == (Model { mode: AppMode::Dashboard, ..m }),
        KeyCode::Tab => !r.handled && if len == 0 {
            r.effect matches Effect::DirSuggestions { input, then_next } && input@ == m.text_input@ && then_next && n == m
        } else {
            r.effect is Nothing && suggestion_taken(m, n, next_index(m.suggestion_cursor, len))
        },
        KeyCode::Down => !r.handled && r.effect is Nothing && if len == 0 {
            n == m
        } else {
            suggestion_taken(m, n, next_index(m.suggestion_cursor, len))
        },
        KeyCode::Up => !r.handled && r.effect is Nothing && if len == 0 {
            n == m
        } else {
            suggestion_taken(m, n, prev_index(m.suggestion_cursor, len))
        },
        KeyCode::Enter => !r.handled && if trim(m.text_input@).len() == 0 {
            toasted(n, "Please enter a path"@, ToastType::Warning) && n == (Model { toast: n.toast, ..m })
                && r.effect is Nothing
        } else {
            r.effect matches Effect::OpenFolder { raw } && raw@ == trim(m.text_input@) && n == m
        },
        _ => {
            &&& !r.handled
            &&& (n.text_input@, n.text_cursor) == field_after(m.text_input@, m.text_cursor, key, true)
            &&& n == (Model { text_input: n.text_input, text_cursor: n.text_cursor, ..m })
            &&& if key.code is Backspace || (key.code is Char && !key.ctrl) {
                r.effect matches Effect::DirSuggestions { input, then_next } && input@ == n.text_input@ && !then_next
            } else {
                r.effect is Nothing
            }
        },
    }
}

impl FolderInputContext {
    /// The name of the view.
    pub fn view_name(&self) -> (r: &'static str)
        ensures
            r@ == "folder_input"@,
    {
        "folder_input"
    }

    /// What the folder box does with a key, as `folder_step` says: Esc goes
    /// back; Tab and Down take the next suggestion (Tab lists them first
    /// when there are none), Up the previous one; Enter opens the trimmed
    /// path; the editing keys edit it and list the suggestions again.
    pub fn handle_event(&self, key: KeyEvent, model: &mut Model) -> (r: Reaction)
        requires
            field_ok(old(model).text_input@, old(model).text_cursor, key),
        ensures
            folder_step(*old(model), *final(model), key, r),
    {
        match key.code {
            KeyCode::Esc => {
                model.mode = AppMode::Dashboard;
                react(true)
            },
            KeyCode::Tab => {
                if model.dir_suggestions.len() == 0 {
                    let input = model.text_input.clone();
                    react_with(false, Effect::DirSuggestions { input, then_next: true })
                } else {
                    self.next_suggestion(model);
                    react(false)
                }
            },
            KeyCode::Down => {
                self.next_suggestion(model);
                react(false)
            },
            KeyCode::Up => {
                let len = model.dir_suggestions.len();
                if len > 0 {
                    let k = match model.suggestion_cursor {
                        Some(i) => if i == 0 {
                            len - 1
                        } else {
                            i - 1
                        },
                        None => len - 1,
                    };
                    self.take(model, k);
                }
                react(false)
            },
            KeyCode::Enter => {
                let raw = trim_str(model.text_input.as_str());
                if char_count(raw.as_str()) == 0 {
                    model.show_toast(String::from_str("Please enter a path"), ToastType::Warning);
                    return react(false);
                }
                react_with(false, Effect::OpenFolder { raw })
            },
            _ => {
                let mut text = model.text_input.clone();
                let mut cursor = model.text_cursor;
                edit_field(&mut text, &mut cursor, key, true);
                model.text_input = text;
                model.text_cursor = cursor;
                if key.code == KeyCode::Backspace || (matches!(key.code, KeyCode::Char(_)) && !key.ctrl) {
                    let input = model.text_input.clone();
                    react_with(false, Effect::DirSuggestions { input, then_next: false })
                } else {
                    react(false)
                }
            },
        }
    }

    fn take(&self, model: &mut Model, k: usize)
        ensures
            suggestion_taken(*old(model), *final(model), k),
    {
        model.suggestion_cursor = Some(k);
        if k < model.dir_suggestions.len() {
            let t = model.dir_suggestions[k].clone();
            model.text_cursor = char_count(t.as_str());
            model.text_input = t;
        }
    }

    /// Steps to the next folder suggestion (the first when none is chosen),
    /// wrapping round; nothing when there are none.
    pub fn next_suggestion(&self, model: &mut Model)
        ensures
            old(model).dir_suggestions@.len() == 0 ==> *final(model) == *old(model),
            old(model).dir_suggestions@.len() > 0 ==> suggestion_taken(
                *old(model),
                *final(model),
                next_index(old(model).suggestion_cursor, old(model).dir_suggestions@.len()),
            ),
    {
        let len = model.dir_suggestions.len();
        if len > 0 {
            let k = match model.suggestion_cursor {
                None => 0,
                Some(i) => {
                    let j = i % len;
                    proof {
                        assert((j + 1) % (len as int) == (i + 1) % (len as int)) by (nonlinear_arith)
                            requires j == i % len, len > 0;
                    }
                    (j + 1) % len
                },
            };
            self.take(model, k);
        }
    }

    /// Shows how opening the typed folder ended: a missing path is
    /// reported; otherwise the suggestions are cleared and the opened
    /// repository is shown (with a note when it was just initialized), or
    /// the error is reported. The caller reads the diff and recent commits
    /// of an opened repository afterwards.
    pub fn finish_open_folder(&self, model: &mut Model, outcome: FolderOutcome)
        ensures
            match outcome {
                FolderOutcome::Missing(shown) => toasted(*final(model), "Path not found: "@ + shown@, ToastType::Error)
                    && *final(model) == (Model { toast: final(model).toast, ..*old(model) }),
                FolderOutcome::Opened { opened, initialized } => {
                    &&& final(model).dir_suggestions@.len() == 0
                    &&& final(model).suggestion_cursor is None
                    &&& final(model).mode == AppMode::RepoView
                    &&& final(model).repo == Some(opened.repo)
                    &&& final(model).git_files == opened.files
                    &&& initialized ==> toasted(*final(model), "Initialized new git repo!"@, ToastType::Success)
                    &&& !initialized ==> final(model).toast == old(model).toast
                },
                FolderOutcome::Failed(e) => {
                    &&& final(model).dir_suggestions@.len() == 0
                    &&& toasted(*final(model), "Error: "@ + e@, ToastType::Error)
                    &&& *final(model) == (Model {
                        dir_suggestions: final(model).dir_suggestions,
                        suggestion_cursor: None,
                        toast: final(model).toast,
                        ..*old(model)
                    })
                },
            },
    {
        match outcome {
            FolderOutcome::Missing(shown) => {
                let mut msg = String::from_str("Path not found: ");
                push_str(&mut msg, shown.as_str());
                proof { reveal_strlit("Path not found: "); }
                model.show_toast(msg, ToastType::Error);
            },
            FolderOutcome::Opened { opened, initialized } => {
                model.dir_suggestions = Vec::new();
                model.suggestion_cursor = None;
                model.open_repo(opened.path, opened.repo, opened.branch, opened.files);
                if initialized {
                    model.show_toast(String::from_str("Initialized new git repo!"), ToastType::Success);
                }
            },
            FolderOutcome::Failed(e) => {
                model.dir_suggestions = Vec::new();
                model.suggestion_cursor = None;
                let mut msg = String::from_str("Error: ");
                push_str(&mut msg, e.as_str());
                proof { reveal_strlit("Error: "); }
                model.show_toast(msg, ToastType::Error);
            },
        }
    }
}

} // verus!
