//! The repository view: the file tree, the diff of the file under the
//! cursor, staging, committing and pulling.
use vstd::prelude::*;
use crate::events::{Effect, KeyCode, KeyEvent, Reaction, CommandOutcome, react, react_with, edit_field, field_after, field_ok};
use crate::git::{GitFile, RebaseCommit, staged, strs_view};
use crate::model::{AppMode, Model, Toast, ToastType, current_file_of, moved_up, moved_down, entered, expand_ok, stage_applies, stage_request_of};
use crate::text::{lines, contains, trim, push_str, push_decimal, decimal, trim_str, str_contains, split_lines, copy_string};
use crate::ui::{spinner_char, spinner_glyph};

verus! {

/// The repository view.
pub struct RepoContext;

/// The hunk that Tab selects: the first when none is, else the next one,
/// wrapping round.
pub open spec fn hunk_next(hc: Option<usize>, n: nat) -> usize {
    match hc {
        None => 0,
        Some(i) => ((i + 1) % (n as int)) as usize,
    }
}

/// The hunk that Shift+Tab selects: the last when none or the first is,
/// else the one before.
pub open spec fn hunk_prev(hc: Option<usize>, n: nat) -> usize {
    match hc {
        Some(i) => if i == 0 {
            (n - 1) as usize
        } else {
            (i - 1) as usize
        },
        None => (n - 1) as usize,
    }
}

/// Some file of the list is staged.
pub open spec fn any_staged(files: Seq<GitFile>) -> bool {
    exists|i: int| 0 <= i < files.len() && staged(#[trigger] files[i].status)
}

/// `m` with a toast.
pub open spec fn toasted(m: Model, msg: Seq<char>, kind: ToastType) -> bool {
    &&& m.toast matches Some(t)
    &&& t.message@ == msg
    &&& t.kind == kind
}

/// The browsing keys of the repository view (outside the commit box),
/// from `m` to `n`, with reaction `r`.
pub open spec fn repo_browse(m: Model, n: Model, key: KeyEvent, r: Reaction) -> bool {
    match key.code {
        KeyCode::Char('q') => n == m && !r.handled && r.effect is Nothing,
        KeyCode::Esc => n.status_msg@.len() == 0 && n == (Model { mode: AppMode::Dashboard, status_msg: n.status_msg, ..m })
            && r.handled && r.effect is Nothing,
        KeyCode::Up | KeyCode::Char('k') => !r.handled && if m.active_frame == 2 {
            n == (Model { diff_scroll: if m.diff_scroll > 0 { (m.diff_scroll - 1) as usize } else { 0 }, ..m })
                && r.effect is Nothing
        } else {
            n == (Model { hunk_cursor: None, diff_scroll: 0, ..moved_up(m) }) && r.effect is RefreshDiff
        },
        KeyCode::Down | KeyCode::Char('j') => !r.handled && if m.active_frame == 2 {
            n == (Model { diff_scroll: (m.diff_scroll + 1) as usize, ..m }) && r.effect is Nothing
        } else {
            n == (Model { hunk_cursor: None, diff_scroll: 0, ..moved_down(m) }) && r.effect is RefreshDiff
        },
        KeyCode::Tab | KeyCode::Char('n') => !r.handled && r.effect is Nothing && if m.diff_struct.hunks@.len() > 0 {
            n == (Model { hunk_cursor: Some(hunk_next(m.hunk_cursor, m.diff_struct.hunks@.len())), ..m })
        } else {
            n == m
        },
        _ => repo_browse_more(m, n, key, r),
    }
}

/// Space, Enter and the letter commands of the repository view.
pub open spec fn repo_browse_more(m: Model, n: Model, key: KeyEvent, r: Reaction) -> bool {
    match key.code {
        KeyCode::BackTab => !r.handled && r.effect is Nothing && if key.ctrl || m.diff_struct.hunks@.len() == 0 {
            n == m
        } else {
            n == (Model { hunk_cursor: Some(hunk_prev(m.hunk_cursor, m.diff_struct.hunks@.len())), ..m })
        },
        KeyCode::Char('p') => !r.handled && r.effect is Nothing && if !key.ctrl && m.hunk_cursor is Some {
            if m.diff_struct.hunks@.len() == 0 {
                n == m
            } else {
                n == (Model { hunk_cursor: Some(hunk_prev(m.hunk_cursor, m.diff_struct.hunks@.len())), ..m })
            }
        } else {
            n == (Model { mode: AppMode::PushDialog, ..m })
        },
        KeyCode::Char(' ') => n == m && !r.handled && match m.hunk_cursor {
            Some(hc) => match current_file_of(m) {
                Some(f) => if hc < m.diff_struct.hunks@.len() && m.repo is Some {
                    r.effect matches Effect::ApplyHunk { path, hunk, number, unstage }
                        && path@ == f.path@ && hunk@ == m.diff_struct.hunks@[hc as int]@
                        && number == hc && unstage == staged(f.status)
                } else {
                    r.effect is RefreshStatus
                },
                None => r.effect is RefreshStatus,
            },
            None => if stage_applies(m) {
                r.effect matches Effect::Stage(req) && stage_request_of(m, req)
            } else {
                r.effect is RefreshStatus
            },
        },
        KeyCode::Enter => !r.handled && exists|refresh: bool| entered(m, n, refresh)
            && (if refresh { r.effect is RefreshDiff } else { r.effect is Nothing }),
        KeyCode::Char('c') => !r.handled && if any_staged(m.git_files@) {
            n.commit_input@.len() == 0 && n == (Model {
                commit_mode: true,
                commit_input: n.commit_input,
                commit_cursor: 0,
                ..m
            }) && if m.repo is Some {
                r.effect matches Effect::LoadCommitHistory { count } && count == 5
            } else {
                r.effect is Nothing
            }
        } else {
            toasted(n, "No staged files — Space to stage"@, ToastType::Warning)
                && n == (Model { toast: n.toast, ..m }) && r.effect is Nothing
        },
        KeyCode::Char('s') => n == m && !r.handled && if m.repo is Some {
            r.effect is StageAll
        } else {
            r.effect is Nothing
        },
        KeyCode::Char('P') => if m.is_loading {
            n == m && r.handled && r.effect is Nothing
        } else {
            &&& !r.handled
            &&& n.status_msg@ == spinner_glyph((((m.frame_count / 2) as usize) % 10) as int) + " Pulling…"@
            &&& n.loading_label@ == "Pulling from remote"@
            &&& n == (Model { status_msg: n.status_msg, loading_label: n.loading_label, is_loading: true, ..m })
            &&& if m.repo is Some {
                r.effect matches Effect::Pull { token } && token == m.config.github_token
            } else {
                r.effect is Nothing
            }
        },
        _ => repo_browse_rest(m, n, key, r),
    }
}

/// The remaining letter commands of the repository view.
pub open spec fn repo_browse_rest(m: Model, n: Model, key: KeyEvent, r: Reaction) -> bool {
    match key.code {
        KeyCode::Char('r') => !r.handled && r.effect is RefreshStatus && toasted(n, "Refreshed"@, ToastType::Info)
            && n == (Model { toast: n.toast, ..m }),
        KeyCode::Char('X') => !r.handled && r.effect is Nothing
            && n == (Model { deinit_confirm_cursor: 0, mode: AppMode::DeinitConfirm, ..m }),
        KeyCode::Char('e') => !r.handled && match current_file_of(m) {
            Some(f) => n == m && if m.repo is Some {
                r.effect matches Effect::OpenEditor { path } && path@ == f.path@
            } else {
                r.effect is Nothing
            },
            None => toasted(n, "Navigate to a file first, then press e"@, ToastType::Info)
                && n == (Model { toast: n.toast, ..m }) && r.effect is Nothing,
        },
        KeyCode::Char('i') => n == m && !r.handled && if m.repo is Some {
            r.effect is LoadRebase
        } else {
            r.effect is Nothing
        },
        KeyCode::Char('/') => !r.handled && r.effect is Nothing && n.filter@.len() == 0
            && n == (Model { filter: n.filter, mode: AppMode::Search, ..m }),
        KeyCode::Char('1') => !r.handled && r.effect is Nothing && n == (Model { active_frame: 1, ..m }),
        KeyCode::Char('2') => !r.handled && r.effect is Nothing && n == (Model { active_frame: 2, ..m }),
        _ => n == m && !r.handled && r.effect is Nothing,
    }
}

/// The keys of the commit box: Esc leaves it and clears the message, Enter
/// commits the trimmed message (a warning when it is empty), the editing
/// keys edit the message.
pub open spec fn commit_box(m: Model, n: Model, key: KeyEvent, r: Reaction) -> bool {
    &&& !r.handled
    &&& match key.code {
        KeyCode::Esc => r.effect is Nothing && n.commit_input@.len() == 0
            && n == (Model { commit_mode: false, commit_input: n.commit_input, ..m }),
        KeyCode::Enter => if trim(m.commit_input@).len() == 0 {
            toasted(n, "Commit message cannot be empty"@, ToastType::Warning)
                && n == (Model { toast: n.toast, ..m }) && r.effect is Nothing
        } else {
            n == m && if m.repo is Some {
                r.effect matches Effect::Commit { message } && message@ == trim(m.commit_input@)
            } else {
                r.effect is Nothing
            }
        },
        _ => r.effect is Nothing && (n.commit_input@, n.commit_cursor) == field_after(
            m.commit_input@,
            m.commit_cursor,
            key,
            false,
        ) && n == (Model { commit_input: n.commit_input, commit_cursor: n.commit_cursor, ..m }),
    }
}

/// The repository view can take the key without panicking.
pub open spec fn repo_key_ok(m: Model, key: KeyEvent) -> bool {
    if m.commit_mode {
        field_ok(m.commit_input@, m.commit_cursor, key)
    } else {
        &&& (key.code is Down || key.code == KeyCode::Char('j')) && m.active_frame == 2 ==> m.diff_scroll < usize::MAX
        &&& key.code is Enter ==> expand_ok(m)
    }
}

/// The first line of a command's output, or `fallback` when it printed
/// nothing.
pub open spec fn first_line_or(out: Seq<char>, fallback: Seq<char>) -> Seq<char> {
    if lines(out).len() > 0 {
        lines(out)[0]
    } else {
        fallback
    }
}

/// The message of a finished pull.
pub open spec fn pull_text(out: Seq<char>) -> Seq<char> {
    let first = first_line_or(out, "Pulled"@);
    if contains(first, "Already up to date"@) || contains(first, "up-to-date"@) {
        "✅ Already up-to-date"@
    } else {
        "✅ "@ + first
    }
}

/// A copy of an optional string.
pub fn copy_opt(o: &Option<String>) -> (r: Option<String>)
    ensures
        r == *o,
{
    match o {
        Some(s) => Some(s.clone()),
        None => None,
    }
}

/// Whether some file of the list is staged.
fn has_staged(files: &Vec<GitFile>) -> (r: bool)
    ensures
        r == any_staged(files@),
{
    let mut i: usize = 0;
    while i < files.len()
        invariant
            i <= files@.len(),
            forall|j: int| 0 <= j < i ==> !staged(#[trigger] files@[j].status),
        decreases files@.len() - i,
    {
        if files[i].status.is_staged() {
            return true;
        }
        i = i + 1;
    }
    false
}

/// The first line of a text, or `fallback`.
fn first_line(out: &str, fallback: &str) -> (r: String)
    ensures
        r@ == first_line_or(out@, fallback@),
{
    let ls = split_lines(out);
    if ls.len() > 0 {
        proof { assert(strs_view(ls@)[0] == ls@[0]@); }
        copy_string(&ls[0])
    } else {
        String::from_str(fallback)
    }
}

impl RepoContext {
    /// The name of the view.
    pub fn view_name(&self) -> (r: &'static str)
        ensures
            r@ == "repo_view"@,
    {
        "repo_view"
    }

    /// What the repository view does with a key: in the commit box as
    /// `commit_box` says, else as `repo_browse` says.
    pub fn handle_event(&self, key: KeyEvent, model: &mut Model) -> (r: Reaction)
        requires
            repo_key_ok(*old(model), key),
        ensures
            old(model).commit_mode ==> commit_box(*old(model), *final(model), key, r),
            !old(model).commit_mode ==> repo_browse(*old(model), *final(model), key, r),
    {
        if model.commit_mode {
            self.handle_commit_input(key, model)
        } else {
            self.browse(key, model)
        }
    }

    /// The browsing keys, as `repo_browse` says.
    #[verifier::rlimit(60)]
    fn browse(&self, key: KeyEvent, model: &mut Model) -> (r: Reaction)
        requires
            (key.code is Down || key.code == KeyCode::Char('j')) && old(model).active_frame == 2 ==> old(model).diff_scroll < usize::MAX,
            key.code is Enter ==> expand_ok(*old(model)),
        ensures
            repo_browse(*old(model), *final(model), key, r),
    {
        match key.code {
            KeyCode::Char('q') => react(false),
            KeyCode::Esc => {
                model.mode = AppMode::Dashboard;
                model.status_msg = String::new();
                react(true)
            },
            KeyCode::Up | KeyCode::Char('k') => {
                if model.active_frame == 2 {
                    if model.diff_scroll > 0 {
                        model.diff_scroll = model.diff_scroll - 1;
                    }
                    react(false)
                } else {
                    model.move_up();
                    model.hunk_cursor = None;
                    model.diff_scroll = 0;
                    react_with(false, Effect::RefreshDiff)
                }
            },
            KeyCode::Down | KeyCode::Char('j') => {
                if model.active_frame == 2 {
                    model.diff_scroll = model.diff_scroll + 1;
                    react(false)
                } else {
                    model.move_down();
                    model.hunk_cursor = None;
                    model.diff_scroll = 0;
                    react_with(false, Effect::RefreshDiff)
                }
            },
            KeyCode::Tab | KeyCode::Char('n') => {
                let n = model.diff_struct.hunks.len();
                if n > 0 {
                    let next = match model.hunk_cursor {
                        None => 0,
                        Some(i) => {
                            let k = i % n;
                            proof { assert((k + 1) % (n as int) == (i + 1) % (n as int)) by (nonlinear_arith)
                                requires k == i % n, n > 0; }
                            (k + 1) % n
                        },
                    };
                    model.hunk_cursor = Some(next);
                }
                react(false)
            },
            _ => self.more(key, model),
        }
    }

    /// Space, Enter and the first letter commands, as `repo_browse_more` says.
    fn more(&self, key: KeyEvent, model: &mut Model) -> (r: Reaction)
        requires
            key.code is Enter ==> expand_ok(*old(model)),
        ensures
            repo_browse_more(*old(model), *final(model), key, r),
    {
        match key.code {
            KeyCode::BackTab => {
                if !key.ctrl {
                    self.hunk_back(model);
                }
                react(false)
            },
            KeyCode::Char('p') => {
                if !key.ctrl && model.hunk_cursor.is_some() {
                    self.hunk_back(model);
                } else {
                    model.mode = AppMode::PushDialog;
                }
                react(false)
            },
            KeyCode::Char(' ') => self.space(model),
            KeyCode::Enter => {
                let refresh = model.enter_expand_collapse();
                if refresh {
                    react_with(false, Effect::RefreshDiff)
                } else {
                    react(false)
                }
            },
            KeyCode::Char('c') => {
                if has_staged(&model.git_files) {
                    model.commit_mode = true;
                    model.commit_input = String::new();
                    model.commit_cursor = 0;
                    if model.repo.is_some() {
                        react_with(false, Effect::LoadCommitHistory { count: 5 })
                    } else {
                        react(false)
                    }
                } else {
                    model.show_toast(String::from_str("No staged files — Space to stage"), ToastType::Warning);
                    react(false)
                }
            },
            KeyCode::Char('s') => {
                if model.repo.is_some() {
                    react_with(false, Effect::StageAll)
                } else {
                    react(false)
                }
            },
            KeyCode::Char('P') => {
                if model.is_loading {
                    return react(true);
                }
                let mut msg = String::from_str(spinner_char(model.frame_count));
                push_str(&mut msg, " Pulling…");
                model.status_msg = msg;
                model.loading_label = String::from_str("Pulling from remote");
                model.is_loading = true;
                if model.repo.is_some() {
                    react_with(false, Effect::Pull { token: copy_opt(&model.config.github_token) })
                } else {
                    react(false)
                }
            },
            _ => self.letter(key, model),
        }
    }

    /// Shift+Tab, or `p` without Control: the previous hunk.
    fn hunk_back(&self, model: &mut Model)
        ensures
            old(model).diff_struct.hunks@.len() == 0 ==> *final(model) == *old(model),
            old(model).diff_struct.hunks@.len() > 0 ==> *final(model) == (Model {
                hunk_cursor: Some(hunk_prev(old(model).hunk_cursor, old(model).diff_struct.hunks@.len())),
                ..*old(model)
            }),
    {
        let n = model.diff_struct.hunks.len();
        if n > 0 {
            let prev = match model.hunk_cursor {
                Some(i) => if i == 0 {
                    n - 1
                } else {
                    i - 1
                },
                None => n - 1,
            };
            model.hunk_cursor = Some(prev);
        }
    }

    /// Space: the selected hunk is staged or unstaged when there is one,
    /// else the row under the cursor; the status is read again after.
    fn space(&self, model: &mut Model) -> (r: Reaction)
        ensures
            repo_browse_more(*old(model), *final(model), KeyEvent { code: KeyCode::Char(' '), ctrl: false }, r),
    {
        match model.hunk_cursor {
            Some(hc) => {
                let n = model.diff_struct.hunks.len();
                match model.current_file() {
                    Some(f) => {
                        if hc < n && model.repo.is_some() {
                            let path = copy_string(&f.path);
                            let unstage = f.status.is_staged();
                            let hunk = model.diff_struct.hunks[hc].clone();
                            react_with(false, Effect::ApplyHunk { path, hunk, number: hc, unstage })
                        } else {
                            react_with(false, Effect::RefreshStatus)
                        }
                    },
                    None => react_with(false, Effect::RefreshStatus),
                }
            },
            None => match model.space_stage_unstage() {
                Some(req) => react_with(false, Effect::Stage(req)),
                None => react_with(false, Effect::RefreshStatus),
            },
        }
    }

    /// The letter commands after `P`.
    fn letter(&self, key: KeyEvent, model: &mut Model) -> (r: Reaction)
        ensures
            repo_browse_rest(*old(model), *final(model), key, r),
    {
        match key.code {
            KeyCode::Char('r') => {
                model.show_toast(String::from_str("Refreshed"), ToastType::Info);
                react_with(false, Effect::RefreshStatus)
            },
            KeyCode::Char('X') => {
                model.deinit_confirm_cursor = 0;
                model.mode = AppMode::DeinitConfirm;
                react(false)
            },
            KeyCode::Char('e') => {
                let path = match model.current_file() {
                    Some(f) => Some(copy_string(&f.path)),
                    None => None,
                };
                match path {
                    Some(p) => {
                        if model.repo.is_some() {
                            react_with(false, Effect::OpenEditor { path: p })
                        } else {
                            react(false)
                        }
                    },
                    None => {
                        model.show_toast(String::from_str("Navigate to a file first, then press e"), ToastType::Info);
                        react(false)
                    },
                }
            },
            KeyCode::Char('i') => {
                if model.repo.is_some() {
                    react_with(false, Effect::LoadRebase)
                } else {
                    react(false)
                }
            },
            KeyCode::Char('/') => {
                model.filter = String::new();
                model.mode = AppMode::Search;
                react(false)
            },
            KeyCode::Char('1') => {
                model.active_frame = 1;
                react(false)
            },
            KeyCode::Char('2') => {
                model.active_frame = 2;
                react(false)
            },
            _ => react(false),
        }
    }

    /// The keys of the commit box, as `commit_box` says.
    fn handle_commit_input(&self, key: KeyEvent, model: &mut Model) -> (r: Reaction)
        requires
            field_ok(old(model).commit_input@, old(model).commit_cursor, key),
        ensures
            commit_box(*old(model), *final(model), key, r),
    {
        match key.code {
            KeyCode::Esc => {
                model.commit_mode = false;
                model.commit_input = String::new();
                react(false)
            },
            KeyCode::Enter => {
                let msg = trim_str(model.commit_input.as_str());
                if msg.as_str().unicode_len() == 0 {
                    model.show_toast(String::from_str("Commit message cannot be empty"), ToastType::Warning);
                    return react(false);
                }
                if model.repo.is_some() {
                    react_with(false, Effect::Commit { message: msg })
                } else {
                    react(false)
                }
            },
            _ => {
                let mut text = model.commit_input.clone();
                let mut cursor = model.commit_cursor;
                edit_field(&mut text, &mut cursor, key, false);
                model.commit_input = text;
                model.commit_cursor = cursor;
                react(false)
            },
        }
    }
}

/// The message of a hunk applied to the index or taken out of it.
pub open spec fn hunk_text(number: usize, unstaged: bool) -> Seq<char> {
    "Hunk "@ + decimal((number + 1) as nat) + " "@ + if unstaged { "unstaged"@ } else { "staged"@ }
}

/// The message of `git add -A` that ran, failed with this error output, or
/// could not start.
pub open spec fn stage_all_text(o: CommandOutcome) -> (Seq<char>, ToastType) {
    match o {
        CommandOutcome::Done(_) => ("✅ Staged all changes"@, ToastType::Success),
        CommandOutcome::Failed(err) => ("❌ Stage all failed: "@ + trim(err@), ToastType::Error),
        CommandOutcome::NotRun(e) => ("❌ "@ + e@, ToastType::Error),
    }
}

impl RepoContext {
    /// Shows how applying hunk `number` went: which hunk was staged or
    /// unstaged, or the error. The status is read again afterwards.
    pub fn finish_hunk(&self, model: &mut Model, number: usize, unstaged: bool, outcome: Result<(), String>)
        requires
            number < usize::MAX,
        ensures
            *final(model) == (Model { toast: final(model).toast, ..*old(model) }),
            outcome is Ok ==> toasted(*final(model), hunk_text(number, unstaged), ToastType::Success),
            outcome matches Err(e) ==> toasted(*final(model), "Error: "@ + e@, ToastType::Error),
    {
        match outcome {
            Ok(()) => {
                let mut msg = String::from_str("Hunk ");
                push_decimal(&mut msg, (number + 1) as u64);
                push_str(&mut msg, " ");
                push_str(&mut msg, if unstaged {
                    "unstaged"
                } else {
                    "staged"
                });
                proof {
                    reveal_strlit("Hunk ");
                    reveal_strlit(" ");
                    reveal_strlit("unstaged");
                    reveal_strlit("staged");
                    assert(msg@ =~= hunk_text(number, unstaged));
                }
                model.show_toast(msg, ToastType::Success);
            },
            Err(e) => {
                let mut msg = String::from_str("Error: ");
                push_str(&mut msg, e.as_str());
                proof { reveal_strlit("Error: "); }
                model.show_toast(msg, ToastType::Error);
            },
        }
    }

    /// Shows how `git add -A` went. The status is read again afterwards.
    pub fn finish_stage_all(&self, model: &mut Model, outcome: CommandOutcome)
        ensures
            *final(model) == (Model { toast: final(model).toast, ..*old(model) }),
            toasted(*final(model), stage_all_text(outcome).0, stage_all_text(outcome).1),
    {
        let ghost o = outcome;
        match outcome {
            CommandOutcome::Done(_) => {
                model.show_toast(String::from_str("✅ Staged all changes"), ToastType::Success);
            },
            CommandOutcome::Failed(err) => {
                let mut msg = String::from_str("❌ Stage all failed: ");
                let t = trim_str(err.as_str());
                push_str(&mut msg, t.as_str());
                proof { reveal_strlit("❌ Stage all failed: "); }
                model.show_toast(msg, ToastType::Error);
            },
            CommandOutcome::NotRun(e) => {
                let mut msg = String::from_str("❌ ");
                push_str(&mut msg, e.as_str());
                proof { reveal_strlit("❌ "); }
                model.show_toast(msg, ToastType::Error);
            },
        }
    }

    /// Shows how a pull ended, given what it printed (`None` when it
    /// failed): the loading state ends; on success the first line printed
    /// (or that it was already up to date) is shown and the status is read
    /// again; on failure the status line and a toast say so.
    pub fn finish_pull(&self, model: &mut Model, outcome: Option<String>) -> (r: Effect)
        ensures
            match outcome {
                Some(out) => {
                    &&& r is RefreshStatus
                    &&& final(model).status_msg@.len() == 0
                    &&& toasted(*final(model), pull_text(out@), ToastType::Success)
                    &&& *final(model) == (Model {
                        is_loading: false,
                        status_msg: final(model).status_msg,
                        toast: final(model).toast,
                        ..*old(model)
                    })
                },
                None => {
                    &&& r is Nothing
                    &&& final(model).status_msg@ == "❌ Pull failed"@
                    &&& toasted(*final(model), "❌ Pull failed"@, ToastType::Error)
                    &&& *final(model) == (Model {
                        is_loading: false,
                        status_msg: final(model).status_msg,
                        toast: final(model).toast,
                        ..*old(model)
                    })
                },
            },
    {
        model.is_loading = false;
        match outcome {
            Some(out) => {
                let first = first_line(out.as_str(), "Pulled");
                let msg = if str_contains(first.as_str(), "Already up to date") || str_contains(first.as_str(), "up-to-date") {
                    String::from_str("✅ Already up-to-date")
                } else {
                    let mut m = String::from_str("✅ ");
                    push_str(&mut m, first.as_str());
                    proof { reveal_strlit("✅ "); }
                    m
                };
                model.status_msg = String::new();
                model.show_toast(msg, ToastType::Success);
                Effect::RefreshStatus
            },
            None => {
                model.status_msg = String::from_str("❌ Pull failed");
                model.show_toast(String::from_str("❌ Pull failed"), ToastType::Error);
                Effect::Nothing
            },
        }
    }

    /// Shows how a commit ended, given what `git commit` printed or its
    /// error: on success the commit box closes and empties, the first line
    /// printed is shown, the cursor returns to the top and the status is
    /// read again; on failure the error is shown.
    pub fn finish_commit(&self, model: &mut Model, outcome: Result<String, String>) -> (r: Effect)
        ensures
            match outcome {
                Ok(out) => {
                    &&& r is RefreshStatus
                    &&& final(model).commit_input@.len() == 0
                    &&& final(model).status_msg@.len() == 0
                    &&& toasted(*final(model), "✅ "@ + first_line_or(out@, "Committed"@), ToastType::Success)
                    &&& *final(model) == (Model {
                        commit_mode: false,
                        commit_input: final(model).commit_input,
                        commit_cursor: 0,
                        status_msg: final(model).status_msg,
                        toast: final(model).toast,
                        repo_cursor: 0,
                        repo_scroll: 0,
                        ..*old(model)
                    })
                },
                Err(e) => {
                    &&& r is Nothing
                    &&& toasted(*final(model), "❌ Commit failed: "@ + e@, ToastType::Error)
                    &&& *final(model) == (Model { toast: final(model).toast, ..*old(model) })
                },
            },
    {
        match outcome {
            Ok(out) => {
                let summary = first_line(out.as_str(), "Committed");
                model.commit_mode = false;
                model.commit_input = String::new();
                model.commit_cursor = 0;
                model.status_msg = String::new();
                let mut msg = String::from_str("✅ ");
                push_str(&mut msg, summary.as_str());
                proof { reveal_strlit("✅ "); }
                model.show_toast(msg, ToastType::Success);
                model.repo_cursor = 0;
                model.repo_scroll = 0;
                Effect::RefreshStatus
            },
            Err(e) => {
                let mut msg = String::from_str("❌ Commit failed: ");
                push_str(&mut msg, e.as_str());
                proof { reveal_strlit("❌ Commit failed: "); }
                model.show_toast(msg, ToastType::Error);
                Effect::Nothing
            },
        }
    }

    /// Opens the interactive rebase on the commits read from the log, or
    /// shows why they could not be read.
    pub fn finish_rebase_todo(&self, model: &mut Model, outcome: Result<Vec<RebaseCommit>, String>)
        ensures
            match outcome {
                Ok(commits) => *final(model) == (Model {
                    rebase_commits: commits,
                    rebase_cursor: 0,
                    mode: AppMode::Rebase,
                    ..*old(model)
                }),
                Err(e) => toasted(*final(model), "❌ Failed to get rebase todo: "@ + e@, ToastType::Error)
                    && *final(model) == (Model { toast: final(model).toast, ..*old(model) }),
            },
    {
        match outcome {
            Ok(commits) => {
                model.rebase_commits = commits;
                model.rebase_cursor = 0;
                model.mode = AppMode::Rebase;
            },
            Err(e) => {
                let mut msg = String::from_str("❌ Failed to get rebase todo: ");
                push_str(&mut msg, e.as_str());
                proof { reveal_strlit("❌ Failed to get rebase todo: "); }
                model.show_toast(msg, ToastType::Error);
            },
        }
    }
}

/// Tab then Shift+Tab (or Shift+Tab then Tab) comes back to the hunk it
/// started from.
pub proof fn lemma_hunk_next_prev(hc: usize, n: nat)
    requires
        hc < n <= usize::MAX,
    ensures
        hunk_prev(Some(hunk_next(Some(hc), n)), n) == hc,
        hunk_next(Some(hunk_prev(Some(hc), n)), n) == hc,
{
    let nx = hunk_next(Some(hc), n);
    if hc + 1 < n {
        assert((hc + 1) % (n as int) == hc + 1) by (nonlinear_arith)
            requires hc + 1 < n;
        assert(nx == hc + 1);
    } else {
        assert((hc + 1) % (n as int) == 0) by (nonlinear_arith)
            requires hc + 1 == n;
        assert(nx == 0);
    }
    let pv = hunk_prev(Some(hc), n);
    if hc > 0 {
        assert(pv == hc - 1);
        assert(((hc - 1) + 1) % (n as int) == hc) by (nonlinear_arith)
            requires hc < n, hc > 0;
    } else {
        assert(pv == n - 1);
        assert(((n - 1) + 1) % (n as int) == 0) by (nonlinear_arith)
            requires n > 0;
    }
}

/// Tab from a selected hunk always selects one of the diff's hunks.
pub proof fn lemma_hunk_next_in_range(hc: Option<usize>, n: nat)
    requires
        0 < n <= usize::MAX,
    ensures
        hunk_next(hc, n) < n,
{
    match hc {
        Some(i) => {
            assert((i + 1) % (n as int) < n) by (nonlinear_arith)
                requires n > 0;
        },
        None => {},
    }
}

} // verus!
