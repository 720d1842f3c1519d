//! What each screen shows, gathered from the model for drawing.
use vstd::prelude::*;
use crate::git::{Diff, GitFile};
use crate::model::Model;
use crate::tree::DisplayItem;
use crate::ui::SshSetupStep;

verus! {

/// What the editor panel shows.
pub struct EditorState<'a> {
    pub lines: &'a [String],
    pub cursor_line: usize,
    pub cursor_col: usize,
    pub scroll_top: usize,
    pub file_path: &'a str,
    pub modified: bool,
    pub frame_count: u64,
}

/// What the repository view shows.
pub struct RepoViewState<'a> {
    pub repo_name: &'a str,
    pub branch: &'a str,
    pub files: &'a [GitFile],
    pub display_items: &'a [DisplayItem],
    pub cursor: usize,
    pub scroll_offset: usize,
    pub diff_scroll: usize,
    pub diff_content: &'a str,
    pub diff_struct: &'a Diff,
    pub hunk_cursor: Option<usize>,
    pub commit_mode: bool,
    pub commit_input: &'a str,
    pub commit_cursor: usize,
    pub commit_history: &'a [String],
    pub status_msg: &'a str,
    pub is_loading: bool,
    pub is_diff_loading: bool,
    pub frame_count: u64,
    pub active_frame: u8,
}

/// What the SSH setup screen shows.
pub struct SshSetupState<'a> {
    pub step: &'a SshSetupStep,
    pub frame_count: u64,
}

/// The parts of the interface that a refresh can read again.
#[derive(Debug, Clone, Copy, PartialEq, Eq, Structural)]
pub enum RefreshableView {
    Files,
    Commits,
    Branches,
    Status,
    All,
}

/// Reads parts of the interface again.
pub struct Refresher;

impl<'a> EditorState<'a> {
    /// The editor panel of the model.
    pub fn of(m: &'a Model) -> (r: EditorState<'a>)
        ensures
            r.lines@ == m.editor_lines@,
            r.cursor_line == m.editor_cursor_line,
            r.cursor_col == m.editor_cursor_col,
            r.scroll_top == m.editor_scroll_line,
            r.file_path@ == m.editor_path@,
            r.modified == m.editor_modified,
            r.frame_count == m.frame_count,
    {
        EditorState {
            lines: m.editor_lines.as_slice(),
            cursor_line: m.editor_cursor_line,
            cursor_col: m.editor_cursor_col,
            scroll_top: m.editor_scroll_line,
            file_path: m.editor_path.as_str(),
            modified: m.editor_modified,
            frame_count: m.frame_count,
        }
    }
}

impl<'a> RepoViewState<'a> {
    /// The repository view of the model, under the name `repo_name`.
    pub fn of(m: &'a Model, repo_name: &'a str) -> (r: RepoViewState<'a>)
        ensures
            r.repo_name@ == repo_name@,
            r.branch@ == m.branch@,
            r.files@ == m.git_files@,
            r.display_items@ == m.display_items@,
            r.cursor == m.repo_cursor,
            r.scroll_offset == m.repo_scroll,
            r.diff_scroll == m.diff_scroll,
            r.diff_content@ == m.diff_content@,
            *r.diff_struct == m.diff_struct,
            r.hunk_cursor == m.hunk_cursor,
            r.commit_mode == m.commit_mode,
            r.commit_input@ == m.commit_input@,
            r.commit_cursor == m.commit_cursor,
            r.commit_history@ == m.commit_history@,
            r.status_msg@ == m.status_msg@,
            r.is_loading == m.is_loading,
            r.is_diff_loading == m.is_diff_loading,
            r.frame_count == m.frame_count,
            r.active_frame == (m.active_frame % 256) as u8,
    {
        RepoViewState {
            repo_name,
            branch: m.branch.as_str(),
            files: m.git_files.as_slice(),
            display_items: m.display_items.as_slice(),
            cursor: m.repo_cursor,
            scroll_offset: m.repo_scroll,
            diff_scroll: m.diff_scroll,
            diff_content: m.diff_content.as_str(),
            diff_struct: &m.diff_struct,
            hunk_cursor: m.hunk_cursor,
            commit_mode: m.commit_mode,
            commit_input: m.commit_input.as_str(),
            commit_cursor: m.commit_cursor,
            commit_history: m.commit_history.as_slice(),
            status_msg: m.status_msg.as_str(),
            is_loading: m.is_loading,
            is_diff_loading: m.is_diff_loading,
            frame_count: m.frame_count,
            active_frame: (m.active_frame % 256) as u8,
        }
    }
}

impl<'a> SshSetupState<'a> {
    /// The SSH setup screen of the model.
    pub fn of(m: &'a Model) -> (r: SshSetupState<'a>)
        ensures
            *r.step == m.ssh_step,
            r.frame_count == m.frame_count,
    {
        SshSetupState { step: &m.ssh_step, frame_count: m.frame_count }
    }
}

} // verus!
