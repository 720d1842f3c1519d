//! The box where a repository URL is typed to clone it or browse its files.
use vstd::prelude::*;
use crate::auth::{github_owner_repo, parse_github_url};
use crate::context::remote_picker::{clone_name, clone_name_of};
use crate::context::repo::{copy_opt, toasted};
use crate::events::{CloneOutcome, Effect, KeyCode, KeyEvent, Reaction, edit_field, field_after, field_ok, react, react_with};
use crate::git::RemoteFile;
use crate::model::{AppMode, Model, ToastType};
use crate::text::{push_str, trim, trim_str, char_count};

verus! {

/// The clone box.
pub struct CloneInputContext;

/// What Enter in the clone box does with a non-empty URL `url`, from `m` to
/// `n`: a GitHub URL lists the repository's files for the picker, any
/// other URL is cloned whole.
pub open spec fn clone_enter(m: Model, n: Model, url: Seq<char>, r: Reaction) -> bool {
    match github_owner_repo(url) {
        Some((owner, repo)) => {
            &&& n.remote_url@ == url
            &&& n.remote_owner@ == owner
            &&& n.remote_repo@ == repo
            &&& n.remote_files@.len() == 0
            &&& n.remote_selected@ == Set::<usize>::empty()
            &&& n.loading_label@ == "Fetching file list for "@ + owner + "/"@ + repo + "..."@
            &&& n == (Model {
                remote_url: n.remote_url,
                remote_owner: n.remote_owner,
                remote_repo: n.remote_repo,
                remote_files: n.remote_files,
                remote_selected: n.remote_selected,
                remote_cursor: 0,
                remote_scroll: 0,
                is_loading: true,
                loading_label: n.loading_label,
                mode: AppMode::Loading,
                ..m
            })
            &&& r.effect matches Effect::FetchRemote { owner: o, repo: p, token }
                && o@ == owner && p@ == repo && token == m.config.github_token
        },
        None => {
            &&& n.loading_label@ == "Cloning "@ + url + "..."@
            &&& n == (Model { loading_label: n.loading_label, is_loading: true, mode: AppMode::Loading, ..m })
            &&& r.effect matches Effect::Clone { url: u, name } && u@ == url && name@ == clone_name(url)
        },
    }
}

/// What the clone box does with a key, from `m` to `n`.
pub open spec fn clone_step(m: Model, n: Model, key: KeyEvent, r: Reaction) -> bool {
    if key.ctrl && key.code == KeyCode::Char('g') {
        r.handled && r.effect is Nothing && n.text_input@ == "https://github.com/"@
            && n == (Model { text_input: n.text_input, text_cursor: 19, ..m })
    } else {
        match key.code {
            KeyCode::Esc => r.handled && r.effect is Nothing && n == (Model { mode: AppMode::Dashboard, ..m }),
            KeyCode::Enter => r.handled && if m.is_loading {
                n == m && r.effect is Nothing
            } else if trim(m.text_input@).len() == 0 {
                toasted(n, "Please enter a URL"@, ToastType::Warning) && n == (Model { toast: n.toast, ..m })
                    && r.effect is Nothing
            } else {
                clone_enter(m, n, trim(m.text_input@), r)
            },
            _ => !r.handled && r.effect is Nothing && (n.text_input@, n.text_cursor) == field_after(
                m.text_input@,
                m.text_cursor,
                key,
                true,
            ) && n == (Model { text_input: n.text_input, text_cursor: n.text_cursor, ..m }),
        }
    }
}

/// The messages of a finished clone: of success, of a failed open, of a
/// failed clone, of a clone that could not start, of a lost task.
pub open spec fn clone_result_text(name: Seq<char>, existing: bool, o: CloneOutcome) -> (Seq<char>, ToastType) {
    match o {
        CloneOutcome::Opened(_) => (if existing { "Opened existing repo: "@ } else { "Cloned: "@ } + name, ToastType::Success),
        CloneOutcome::OpenFailed(e) => (e@, ToastType::Warning),
        CloneOutcome::Failed(err) => ("Clone failed: "@ + trim(err@), ToastType::Error),
        CloneOutcome::NotRun(e) => ("Command error: "@ + e@, ToastType::Error),
        CloneOutcome::Lost => ("Task panicked"@, ToastType::Error),
    }
}

impl CloneInputContext {
    /// The name of the view.
    pub fn view_name(&self) -> (r: &'static str)
        ensures
            r@ == "clone_input"@,
    {
        "clone_input"
    }

    /// What the clone box does with a key, as `clone_step` says: Ctrl+G
    /// fills in the GitHub prefix, Esc goes back to the dashboard, Enter
    /// starts on the trimmed URL, the editing keys edit it.
    pub fn handle_event(&self, key: KeyEvent, model: &mut Model) -> (r: Reaction)
        requires
            field_ok(old(model).text_input@, old(model).text_cursor, key),
        ensures
            clone_step(*old(model), *final(model), key, r),
    {
        if key.ctrl && key.code == KeyCode::Char('g') {
            model.text_input = String::from_str("https://github.com/");
            proof { reveal_strlit("https://github.com/"); }
            model.text_cursor = char_count(model.text_input.as_str());
            return react(true);
        }
        match key.code {
            KeyCode::Esc => {
                model.mode = AppMode::Dashboard;
                react(true)
            },
            KeyCode::Enter => self.enter(model),
            _ => {
                let mut text = model.text_input.clone();
                let mut cursor = model.text_cursor;
                edit_field(&mut text, &mut cursor, key, true);
                model.text_input = text;
                model.text_cursor = cursor;
                react(false)
            },
        }
    }

    fn enter(&self, model: &mut Model) -> (r: Reaction)
        ensures
            clone_step(*old(model), *final(model), KeyEvent { code: KeyCode::Enter, ctrl: false }, r),
    {
        if model.is_loading {
            return react(true);
        }
        let url = trim_str(model.text_input.as_str());
        if char_count(url.as_str()) == 0 {
            model.show_toast(String::from_str("Please enter a URL"), ToastType::Warning);
            return react(true);
        }
        match parse_github_url(url.as_str()) {
            Some((owner, repo)) => {
                let mut label = String::from_str("Fetching file list for ");
                push_str(&mut label, owner.as_str());
                push_str(&mut label, "/");
                push_str(&mut label, repo.as_str());
                push_str(&mut label, "...");
                model.remote_url = url;
                model.remote_owner = owner.clone();
                model.remote_repo = repo.clone();
                model.remote_files = Vec::new();
                model.remote_selected.clear();
                model.remote_cursor = 0;
                model.remote_scroll = 0;
                model.is_loading = true;
                model.loading_label = label;
                model.mode = AppMode::Loading;
                let token = copy_opt(&model.config.github_token);
                react_with(true, Effect::FetchRemote { owner, repo, token })
            },
            None => {
                let mut label = String::from_str("Cloning ");
                push_str(&mut label, url.as_str());
                push_str(&mut label, "...");
                model.loading_label = label;
                model.is_loading = true;
                model.mode = AppMode::Loading;
                let name = clone_name_of(url.as_str());
                react_with(true, Effect::Clone { url, name })
            },
        }
    }

    /// Shows the files listed for the picker, or why listing them failed
    /// (`None` when the task was lost); the loading state ends.
    pub fn finish_fetch_remote(&self, model: &mut Model, outcome: Option<Result<Vec<RemoteFile>, String>>)
        ensures
            match outcome {
                Some(Ok(files)) => *final(model) == (Model {
                    is_loading: false,
                    remote_files: files,
                    mode: AppMode::RemotePicker,
                    ..*old(model)
                }),
                Some(Err(e)) => toasted(*final(model), "Failed to fetch files: "@ + e@, ToastType::Error)
                    && *final(model) == (Model {
                        is_loading: false,
                        toast: final(model).toast,
                        mode: AppMode::CloneInput,
                        ..*old(model)
                    }),
                None => toasted(*final(model), "Task panicked"@, ToastType::Error) && *final(model) == (Model {
                    is_loading: false,
                    toast: final(model).toast,
                    mode: AppMode::CloneInput,
                    ..*old(model)
                }),
            },
    {
        model.is_loading = false;
        match outcome {
            Some(Ok(files)) => {
                model.remote_files = files;
                model.mode = AppMode::RemotePicker;
            },
            Some(Err(e)) => {
                let mut msg = String::from_str("Failed to fetch files: ");
                push_str(&mut msg, e.as_str());
                proof { reveal_strlit("Failed to fetch files: "); }
                model.show_toast(msg, ToastType::Error);
                model.mode = AppMode::CloneInput;
            },
            None => {
                model.show_toast(String::from_str("Task panicked"), ToastType::Error);
                model.mode = AppMode::CloneInput;
            },
        }
    }

    /// Shows how a clone ended (`existing` when the repository was already
    /// in the clone folder and only opened): the loading state ends; an
    /// opened repository is shown with a toast of success; otherwise the
    /// dashboard comes back with the error. The caller reads the diff and
    /// recent commits of an opened repository afterwards.
    pub fn finish_clone(&self, model: &mut Model, name: &str, existing: bool, outcome: CloneOutcome)
        ensures
            toasted(*final(model), clone_result_text(name@, existing, outcome).0, clone_result_text(name@, existing, outcome).1),
            !final(model).is_loading,
            match outcome {
                CloneOutcome::Opened(o) => final(model).mode == AppMode::RepoView && final(model).repo == Some(o.repo)
                    && final(model).git_files == o.files && final(model).branch == o.branch,
                _ => *final(model) == (Model {
                    is_loading: false,
                    toast: final(model).toast,
                    mode: AppMode::Dashboard,
                    ..*old(model)
                }),
            },
    {
        let ghost o = outcome;
        model.is_loading = false;
        match outcome {
            CloneOutcome::Opened(opened) => {
                model.open_repo(opened.path, opened.repo, opened.branch, opened.files);
                let mut msg = if existing {
                    String::from_str("Opened existing repo: ")
                } else {
                    String::from_str("Cloned: ")
                };
                push_str(&mut msg, name);
                proof {
                    reveal_strlit("Opened existing repo: ");
                    reveal_strlit("Cloned: ");
                }
                model.show_toast(msg, ToastType::Success);
            },
            CloneOutcome::OpenFailed(e) => {
                model.mode = AppMode::Dashboard;
                model.show_toast(e, ToastType::Warning);
            },
            CloneOutcome::Failed(err) => {
                model.mode = AppMode::Dashboard;
                let mut msg = String::from_str("Clone failed: ");
                let t = trim_str(err.as_str());
                push_str(&mut msg, t.as_str());
                proof { reveal_strlit("Clone failed: "); }
                model.show_toast(msg, ToastType::Error);
            },
            CloneOutcome::NotRun(e) => {
                model.mode = AppMode::Dashboard;
                let mut msg = String::from_str("Command error: ");
                push_str(&mut msg, e.as_str());
                proof { reveal_strlit("Command error: "); }
                model.show_toast(msg, ToastType::Error);
            },
            CloneOutcome::Lost => {
                model.mode = AppMode::Dashboard;
                model.show_toast(String::from_str("Task panicked"), ToastType::Error);
            },
        }
    }
}

} // verus!
