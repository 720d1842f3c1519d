//! Keys as the interface reads them, the outside work that a key asks for,
//! and the editing of one-line text fields.
use vstd::prelude::*;
use crate::git::{Hunk, RemoteFile, GitRepo, GitFile};
use crate::model::StageRequest;
use crate::text::{insert_char_at, remove_char_at, char_count};

verus! {

/// A key of the keyboard.
#[derive(Debug, Clone, Copy, PartialEq, Eq, Structural)]
pub enum KeyCode {
    Char(char),
    Enter,
    Esc,
    Backspace,
    Delete,
    Left,
    Right,
    Up,
    Down,
    Home,
    End,
    Tab,
    BackTab,
    F(u8),
    Other,
}

/// A key press, with whether Control was held.
#[derive(Debug, Clone, Copy, PartialEq, Eq, Structural)]
pub struct KeyEvent {
    pub code: KeyCode,
    pub ctrl: bool,
}

/// The outside work a key asks for, which the caller performs and reports
/// back through the screens' `finish_*` functions and the model's methods.
/// It carries tokens, so it has no `Debug`.
pub enum Effect {
    /// Nothing.
    Nothing,
    /// Read the diff of the file under the tree cursor (`refresh_diff`).
    RefreshDiff,
    /// Read the file list, branch and recent commits again
    /// (`refresh_status`, `refresh_diff`, `refresh_commit_history`).
    RefreshStatus,
    /// Run the staging commands (`finish_stage_unstage`), then read the
    /// status again.
    Stage(StageRequest),
    /// Apply one hunk of a file to the index, or take it out
    /// (`finish_hunk`), then read the status again.
    ApplyHunk { path: String, hunk: Hunk, number: usize, unstage: bool },
    /// Read the last `count` commits into the commit history.
    LoadCommitHistory { count: usize },
    /// Run `git add -A` (`finish_stage_all`), then read the status again.
    StageAll,
    /// Pull from the remote, over SSH when it answers, else with the token
    /// (`finish_pull`).
    Pull { token: Option<String> },
    /// Read a file of the repository into the editor (`editor_open`).
    OpenEditor { path: String },
    /// Write the editor's text to its file (`finish_editor_save`).
    SaveEditor { path: String, content: String },
    /// Read the commits of the interactive rebase (`finish_rebase_todo`).
    LoadRebase,
    /// Commit the staged files with the message (`finish_commit`).
    Commit { message: String },
    /// List the folders that the typed path may continue with
    /// (`update_dir_suggestions`), then, when `then_next`, step to the
    /// next suggestion (`next_suggestion`).
    DirSuggestions { input: String, then_next: bool },
    /// Open the folder at the typed path, `~` standing for the home folder
    /// (`finish_open_folder`).
    OpenFolder { raw: String },
    /// Open a project of the recent list (`finish_open_recent`).
    OpenRecent { path: String },
    /// List the files of a GitHub repository (`finish_fetch_remote`).
    FetchRemote { owner: String, repo: String, token: Option<String> },
    /// Clone a repository into the clone folder, or open it there when it
    /// is already cloned (`finish_clone`).
    Clone { url: String, name: String },
    /// Clone a repository into the clone folder (`finish_clone_all`).
    CloneAll { url: String, name: String },
    /// Download the selected entries of a GitHub repository
    /// (`finish_download`).
    Download { owner: String, repo: String, token: Option<String>, items: Vec<RemoteFile> },
    /// Ask GitHub who owns the token (`finish_token_check`).
    ValidateToken { candidate: String },
    /// Write the settings to disk.
    SaveConfig,
    /// Look for an SSH key (`finish_ssh_detect`).
    DetectSsh,
    /// Create an SSH key for the address (`finish_ssh_generate`).
    GenerateSshKey { email: String },
    /// Add the public key to the GitHub account of the token
    /// (`finish_ssh_register`).
    RegisterKey { access_token: String, pubkey: String },
    /// Test the SSH connection to GitHub (`finish_ssh_test`).
    TestSsh,
    /// Push the repository (`finish_push`).
    Push { access_token: String, root: String, repo_name: String, branch: String, username: String, force: bool },
    /// Remove the repository's `.git` folder (`finish_deinit`).
    Deinit,
}

/// What a context did with a key: whether it took the key, and the outside
/// work it asks for.
pub struct Reaction {
    pub handled: bool,
    pub effect: Effect,
}

/// A reaction with nothing to do outside.
pub fn react(handled: bool) -> (r: Reaction)
    ensures
        r.handled == handled,
        r.effect is Nothing,
{
    Reaction { handled, effect: Effect::Nothing }
}

/// A reaction that asks for outside work.
pub fn react_with(handled: bool, effect: Effect) -> (r: Reaction)
    ensures
        r.handled == handled,
        r.effect == effect,
{
    Reaction { handled, effect }
}

/// How a `git` command ran: it succeeded, it failed with this error output,
/// or it could not be started for this reason.
#[derive(Debug)]
pub enum CommandOutcome {
    Done(String),
    Failed(String),
    NotRun(String),
}

/// How cloning a repository ended.
#[derive(Debug)]
pub enum CloneOutcome {
    /// It was cloned (or found cloned) and opened.
    Opened(OpenedRepo),
    /// It was cloned, but opening it failed with this error.
    OpenFailed(String),
    /// `git clone` failed with this error output.
    Failed(String),
    /// `git clone` could not be started, for this reason.
    NotRun(String),
    /// The task that ran the clone ended abnormally.
    Lost,
}

/// How opening a typed folder ended.
#[derive(Debug)]
pub enum FolderOutcome {
    /// Nothing exists at the path, shown as given.
    Missing(String),
    /// The repository was opened, after `git init` when `initialized`.
    Opened { opened: OpenedRepo, initialized: bool },
    /// Opening or initializing it failed with this error.
    Failed(String),
}

/// A repository that has just been opened, with what was read from it.
#[derive(Debug)]
pub struct OpenedRepo {
    pub path: String,
    pub repo: GitRepo,
    pub branch: String,
    pub files: Vec<GitFile>,
}

// ── One-line text fields ────────────────────────────────────────────────────

/// A field can take the key without panicking: typing needs room for the
/// cursor to move on, and backspace away from the start needs a character.
pub open spec fn field_ok(text: Seq<char>, cursor: usize, key: KeyEvent) -> bool {
    &&& key.code is Char && !key.ctrl ==> cursor < usize::MAX
    &&& key.code is Backspace && cursor > 0 ==> text.len() > 0
}

/// Where a typed character lands: at the cursor, or at the end when the
/// cursor is past it.
pub open spec fn insert_at(len: nat, cursor: usize) -> int {
    if cursor <= len {
        cursor as int
    } else {
        len as int
    }
}

/// Which character Backspace removes: the one before the cursor, or the
/// first one when the cursor is past the end.
pub open spec fn remove_at(len: nat, cursor: usize) -> int {
    if cursor - 1 < len {
        cursor - 1
    } else {
        0
    }
}

/// The text and cursor of a field after a key: Ctrl+Backspace clears it
/// (when `ctrl_clears`), Backspace removes the character before the cursor,
/// Left and Right move the cursor within the text, a character typed
/// without Control goes in at the cursor; other keys change nothing.
pub open spec fn field_after(text: Seq<char>, cursor: usize, key: KeyEvent, ctrl_clears: bool) -> (Seq<char>, usize) {
    match key.code {
        KeyCode::Backspace => if ctrl_clears && key.ctrl {
            (Seq::empty(), 0usize)
        } else if cursor > 0 {
            (text.remove(remove_at(text.len(), cursor)), (cursor - 1) as usize)
        } else {
            (text, cursor)
        },
        KeyCode::Left => if cursor > 0 {
            (text, (cursor - 1) as usize)
        } else {
            (text, cursor)
        },
        KeyCode::Right => if cursor < text.len() {
            (text, (cursor + 1) as usize)
        } else {
            (text, cursor)
        },
        KeyCode::Char(c) => if !key.ctrl {
            (text.insert(insert_at(text.len(), cursor), c), (cursor + 1) as usize)
        } else {
            (text, cursor)
        },
        _ => (text, cursor),
    }
}

/// Edits a one-line field with a key, as `field_after` says.
pub fn edit_field(text: &mut String, cursor: &mut usize, key: KeyEvent, ctrl_clears: bool)
    requires
        field_ok(old(text)@, *old(cursor), key),
    ensures
        (final(text)@, *final(cursor)) == field_after(old(text)@, *old(cursor), key, ctrl_clears),
{
    match key.code {
        KeyCode::Backspace => {
            if ctrl_clears && key.ctrl {
                *text = String::new();
                *cursor = 0;
            } else if *cursor > 0 {
                let len = char_count(text.as_str());
                let at = if *cursor - 1 < len {
                    *cursor - 1
                } else {
                    0
                };
                remove_char_at(text, at);
                *cursor = *cursor - 1;
            }
        },
        KeyCode::Left => {
            if *cursor > 0 {
                *cursor = *cursor - 1;
            }
        },
        KeyCode::Right => {
            if *cursor < char_count(text.as_str()) {
                *cursor = *cursor + 1;
            }
        },
        KeyCode::Char(c) => {
            if !key.ctrl {
                insert_char_at(text, *cursor, c);
                *cursor = *cursor + 1;
            }
        },
        _ => {},
    }
}


/// Typing a character and then Backspace leaves a field as it was, when
/// the cursor was within its text.
pub proof fn lemma_field_type_then_erase(text: Seq<char>, cursor: usize, c: char, ctrl_clears: bool)
    requires
        cursor <= text.len(),
        cursor < usize::MAX,
    ensures
        ({
            let (t1, c1) = field_after(text, cursor, KeyEvent { code: KeyCode::Char(c), ctrl: false }, ctrl_clears);
            field_after(t1, c1, KeyEvent { code: KeyCode::Backspace, ctrl: false }, ctrl_clears) == (text, cursor)
        }),
{
    assert(text.insert(cursor as int, c).remove(cursor as int) =~= text);
}

} // verus!
