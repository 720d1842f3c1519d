//! The state of the whole interface and the operations on it that do not
//! wait for the outside world.
use vstd::prelude::*;
use crate::config::{SwiftGitConfig, projects_view, with_recent};
use crate::git::{Diff, GitFile, GitRepo, GitCommand, RebaseCommit, RemoteFile, empty_diff, strs_view, diff_text, recent_commits, args_view, staged, path_file_name};
use crate::tree::{DisplayItem, ItemView, build_display_items, items_view, level_items, file_paths, no_empty, flipped, is_header_of, same_header, lemma_level_flags, lemma_level_toggle, lemma_tree_headers_distinct, lemma_tree_files_distinct, lemma_level_same_open};
use crate::ui::{PushDialogState, SettingsDialogState, SshSetupStep, lowercase, to_lowercase};
use crate::text::{split_lines, join_lines, joined, contains, str_contains, lines, char_count, str_eq, starts_with, str_starts_with, push_str};

verus! {

/// The kind of a toast, which sets its colour.
#[derive(Debug, Clone, Copy, PartialEq, Eq, Structural)]
pub enum ToastType {
    Success,
    Error,
    Warning,
    Info,
}

/// A short message shown over the screen.
#[derive(Debug)]
pub struct Toast {
    pub message: String,
    pub kind: ToastType,
}

/// The screen the interface shows.
#[derive(Debug, Clone, Copy, PartialEq, Eq, Structural)]
pub enum AppMode {
    Auth,
    Dashboard,
    FolderInput,
    CloneInput,
    RepoView,
    Loading,
    RemotePicker,
    PushDialog,
    ForcePushConfirm,
    DeinitConfirm,
    SshSetup,
    Editor,
    Settings,
    RecentProjects,
    Rebase,
    Search,
    Help,
}

/// Everything the interface shows and edits.
pub struct Model {
    pub mode: AppMode,
    pub frame_count: u64,
    pub toast: Option<Toast>,
    pub token_input: String,
    pub token_cursor: usize,
    pub auth_status: String,
    pub is_validating: bool,
    pub dashboard_cursor: usize,
    pub recent_projects_cursor: usize,
    pub text_input: String,
    pub text_cursor: usize,
    pub dir_suggestions: Vec<String>,
    pub suggestion_cursor: Option<usize>,
    pub repo: Option<GitRepo>,
    pub git_files: Vec<GitFile>,
    pub display_items: Vec<DisplayItem>,
    pub expanded_folders: Vec<String>,
    pub repo_cursor: usize,
    pub repo_scroll: usize,
    pub diff_scroll: usize,
    pub diff_content: String,
    pub diff_struct: Diff,
    pub hunk_cursor: Option<usize>,
    pub commit_mode: bool,
    pub commit_input: String,
    pub commit_cursor: usize,
    pub commit_history: Vec<String>,
    pub status_msg: String,
    pub is_loading: bool,
    pub is_diff_loading: bool,
    pub branch: String,
    pub loading_label: String,
    pub filter: String,
    pub remote_url: String,
    pub remote_owner: String,
    pub remote_repo: String,
    pub remote_files: Vec<RemoteFile>,
    pub remote_cursor: usize,
    pub remote_scroll: usize,
    pub remote_selected: std::collections::HashSet<usize>,
    pub remote_expanded: Vec<String>,
    pub config: SwiftGitConfig,
    pub push_dlg: PushDialogState,
    pub ssh_step: SshSetupStep,
    pub ssh_pubkey: String,
    pub deinit_confirm_cursor: usize,
    pub force_push_confirm_cursor: usize,
    pub rebase_commits: Vec<RebaseCommit>,
    pub rebase_cursor: usize,
    pub editor_lines: Vec<String>,
    pub editor_cursor_line: usize,
    pub editor_cursor_col: usize,
    pub editor_scroll_line: usize,
    pub editor_scroll_col: usize,
    pub editor_modified: bool,
    pub editor_path: String,
    pub active_frame: usize,
    pub settings_dlg: SettingsDialogState,
    pub settings_prev_mode: AppMode,
    pub help_prev_mode: AppMode,
}

/// Rows shown at once in the file tree.
pub open spec fn tree_rows() -> int {
    20
}

/// Lines shown at once in the editor.
pub open spec fn editor_rows() -> int {
    30
}

/// The scroll offset that keeps `cursor` within a window of `rows` rows
/// starting at `scroll`, moving the window as little as possible.
pub open spec fn scrolled(cursor: usize, scroll: usize, rows: int) -> usize {
    if cursor < scroll {
        cursor
    } else if cursor >= scroll + rows {
        (cursor - rows + 1) as usize
    } else {
        scroll
    }
}

/// The largest position of a list of `n` rows (0 when empty).
pub open spec fn last_index(n: nat) -> usize {
    if n == 0 {
        0
    } else {
        (n - 1) as usize
    }
}

/// The positions of the files whose lower-cased path contains `low`, in
/// order.
pub open spec fn matching_positions(files: Seq<GitFile>, low: Seq<char>) -> Seq<int>
    decreases files.len(),
{
    if files.len() == 0 {
        Seq::empty()
    } else {
        let prev = matching_positions(files.drop_last(), low);
        if contains(lowercase(files.last().path@), low) {
            prev.push(files.len() - 1)
        } else {
            prev
        }
    }
}

/// The positions of the files a filter keeps: those whose lower-cased path
/// contains the lower-cased filter (all of them for an empty filter).
pub open spec fn kept_positions(files: Seq<GitFile>, filter: Seq<char>) -> Seq<int> {
    if filter.len() == 0 {
        Seq::new(files.len(), |i: int| i)
    } else {
        matching_positions(files, lowercase(filter))
    }
}

/// The files a filter keeps, in their order.
pub open spec fn filtered_files(files: Seq<GitFile>, filter: Seq<char>) -> Seq<GitFile> {
    kept_positions(files, filter).map_values(|i: int| files[i])
}

/// A row built over a part of the file list, with a file row's position
/// taken back to the whole list through `pos`.
pub open spec fn row_in(r: ItemView, pos: Seq<int>) -> ItemView {
    match r {
        ItemView::File { idx, depth } => ItemView::File { idx: pos[idx as int] as nat, depth },
        _ => r,
    }
}

/// The rows the tree shows for the files a filter keeps, each file row
/// naming its file's position in the whole list.
pub open spec fn filtered_rows(files: Seq<GitFile>, filter: Seq<char>, expanded: Seq<String>) -> Seq<ItemView> {
    tree_rows_of(filtered_files(files, filter), expanded).map_values(
        |r: ItemView| row_in(r, kept_positions(files, filter)),
    )
}

/// `cursor`, pulled back onto the last of `n` rows when it is past it.
pub open spec fn clamped(cursor: usize, n: nat) -> usize {
    if cursor > last_index(n) {
        last_index(n)
    } else {
        cursor
    }
}

/// The file under the tree cursor, when the cursor is on a file row whose
/// position names a file of the list.
pub open spec fn current_file_of(m: Model) -> Option<GitFile> {
    if m.repo_cursor < m.display_items@.len() {
        match m.display_items@[m.repo_cursor as int] {
            DisplayItem::FileEntry { file_idx, .. } => if file_idx < m.git_files@.len() {
                Some(m.git_files@[file_idx as int])
            } else {
                None
            },
            _ => None,
        }
    } else {
        None
    }
}

/// The rows the tree shows for a file list and the open folders.
pub open spec fn tree_rows_of(files: Seq<GitFile>, expanded: Seq<String>) -> Seq<ItemView> {
    level_items(file_paths(files), strs_view(expanded), Seq::empty(), 0)
}

/// The positions of the files a filter keeps (see `kept_positions`).
fn kept_of(v: &Vec<GitFile>, filter: &str) -> (r: Vec<usize>)
    ensures
        r@.map_values(|i: usize| i as int) == kept_positions(v@, filter@),
        forall|j: int| 0 <= j < r@.len() ==> #[trigger] r@[j] < v@.len(),
{
    let all = char_count(filter) == 0;
    let low = to_lowercase(filter);
    let mut out: Vec<usize> = Vec::new();
    let mut i: usize = 0;
    while i < v.len()
        invariant
            i <= v@.len(),
            all == (filter@.len() == 0),
            low@ == lowercase(filter@),
            all ==> out@.map_values(|k: usize| k as int) == Seq::new(i as nat, |k: int| k),
            !all ==> out@.map_values(|k: usize| k as int) == matching_positions(v@.subrange(0, i as int), low@),
            forall|j: int| 0 <= j < out@.len() ==> #[trigger] out@[j] < i,
        decreases v@.len() - i,
    {
        let ghost before = out@;
        let keep = if all {
            true
        } else {
            let p = to_lowercase(v[i].path.as_str());
            str_contains(p.as_str(), low.as_str())
        };
        proof {
            assert(v@.subrange(0, i + 1).drop_last() =~= v@.subrange(0, i as int));
            assert(v@.subrange(0, i + 1).last() == v@[i as int]);
        }
        if keep {
            out.push(i);
            proof {
                assert(out@.map_values(|k: usize| k as int) =~= before.map_values(|k: usize| k as int).push(i as int));
            }
        }
        proof {
            if all {
                assert(Seq::new((i + 1) as nat, |k: int| k) =~= Seq::new(i as nat, |k: int| k).push(i as int));
            }
        }
        i = i + 1;
    }
    proof {
        assert(v@.subrange(0, v@.len() as int) =~= v@);
        if filter@.len() == 0 {
            assert(filter@ =~= Seq::<char>::empty());
        }
    }
    out
}

/// The files at the given positions, in that order.
fn files_at(v: &Vec<GitFile>, pos: &Vec<usize>) -> (r: Vec<GitFile>)
    requires
        forall|j: int| 0 <= j < pos@.len() ==> #[trigger] pos@[j] < v@.len(),
    ensures
        r@ == pos@.map_values(|i: usize| v@[i as int]),
{
    let mut out: Vec<GitFile> = Vec::new();
    let mut j: usize = 0;
    while j < pos.len()
        invariant
            j <= pos@.len(),
            forall|k: int| 0 <= k < pos@.len() ==> #[trigger] pos@[k] < v@.len(),
            out@ == pos@.take(j as int).map_values(|i: usize| v@[i as int]),
        decreases pos@.len() - j,
    {
        let k = pos[j];
        out.push(v[k].clone());
        proof {
            assert(pos@.take(j + 1) =~= pos@.take(j as int).push(k));
            assert(out@ =~= pos@.take(j + 1).map_values(|i: usize| v@[i as int]));
        }
        j = j + 1;
    }
    proof { assert(pos@.take(pos@.len() as int) =~= pos@); }
    out
}

/// The rows with each file row's position taken back through `pos`.
fn rows_through(rows: Vec<DisplayItem>, pos: &Vec<usize>) -> (r: Vec<DisplayItem>)
    requires
        forall|j: int| 0 <= j < rows@.len() ==>
            (#[trigger] items_view(rows@)[j] matches ItemView::File { idx, .. } ==> idx < pos@.len()),
    ensures
        items_view(r@) == items_view(rows@).map_values(
            |x: ItemView| row_in(x, pos@.map_values(|i: usize| i as int)),
        ),
{
    let ghost pv = pos@.map_values(|i: usize| i as int);
    let ghost want = items_view(rows@).map_values(|x: ItemView| row_in(x, pv));
    let mut out: Vec<DisplayItem> = Vec::new();
    let mut j: usize = 0;
    while j < rows.len()
        invariant
            j <= rows@.len(),
            pv == pos@.map_values(|i: usize| i as int),
            want == items_view(rows@).map_values(|x: ItemView| row_in(x, pv)),
            forall|k: int| 0 <= k < rows@.len() ==>
                (#[trigger] items_view(rows@)[k] matches ItemView::File { idx, .. } ==> idx < pos@.len()),
            items_view(out@) == want.take(j as int),
        decreases rows@.len() - j,
    {
        let ghost before = items_view(out@);
        let ghost x = items_view(rows@)[j as int];
        match &rows[j] {
            DisplayItem::FileEntry { file_idx, depth } => {
                assert(x matches ItemView::File { idx, .. } && idx == *file_idx as nat);
                out.push(DisplayItem::FileEntry { file_idx: pos[*file_idx], depth: *depth });
            },
            DisplayItem::FolderHeader { .. } => {
                out.push(rows[j].clone());
            },
        }
        proof {
            assert(want.take(j + 1) =~= want.take(j as int).push(want[j as int]));
            assert(items_view(out@) =~= before.push(want[j as int]));
        }
        j = j + 1;
    }
    proof { assert(want.take(rows@.len() as int) =~= want); }
    out
}

/// The list of open folders without `p`.
pub open spec fn without_str(v: Seq<String>, p: Seq<char>) -> Seq<String>
    decreases v.len(),
{
    if v.len() == 0 {
        v
    } else {
        let prev = without_str(v.drop_last(), p);
        if v.last()@ == p {
            prev
        } else {
            prev.push(v.last())
        }
    }
}

/// The list of open folders with `p` added, unless it is there already.
pub open spec fn with_str(v: Seq<String>, p: String) -> Seq<String> {
    if strs_view(v).contains(p@) {
        v
    } else {
        v.push(p)
    }
}

pub proof fn lemma_without_str_no_empty(v: Seq<String>, p: Seq<char>)
    requires
        no_empty(strs_view(v)),
    ensures
        no_empty(strs_view(without_str(v, p))),
    decreases v.len(),
{
    if v.len() > 0 {
        assert(no_empty(strs_view(v.drop_last()))) by {
            assert forall|i: int| 0 <= i < strs_view(v.drop_last()).len() implies #[trigger] strs_view(v.drop_last())[i].len() > 0 by {
                assert(strs_view(v)[i].len() > 0);
            }
        }
        lemma_without_str_no_empty(v.drop_last(), p);
        let prev = without_str(v.drop_last(), p);
        if v.last()@ != p {
            assert(strs_view(v)[v.len() - 1].len() > 0);
            assert forall|i: int| 0 <= i < strs_view(prev.push(v.last())).len() implies #[trigger] strs_view(prev.push(v.last()))[i].len() > 0 by {
                if i < prev.len() {
                    assert(strs_view(prev)[i].len() > 0);
                }
            }
        }
    }
}

/// Whether `p` is one of the strings.
pub fn has_str(v: &Vec<String>, p: &str) -> (r: bool)
    ensures
        r == strs_view(v@).contains(p@),
{
    let mut i: usize = 0;
    while i < v.len()
        invariant
            i <= v@.len(),
            forall|j: int| 0 <= j < i ==> strs_view(v@)[j] != p@,
        decreases v@.len() - i,
    {
        if str_eq(v[i].as_str(), p) {
            proof { assert(strs_view(v@)[i as int] == p@); }
            return true;
        }
        i = i + 1;
    }
    false
}

/// The strings other than `p`, in order.
pub fn drop_str(v: &Vec<String>, p: &str) -> (r: Vec<String>)
    ensures
        r@ == without_str(v@, p@),
{
    let mut out: Vec<String> = Vec::new();
    let mut i: usize = 0;
    while i < v.len()
        invariant
            i <= v@.len(),
            out@ == without_str(v@.subrange(0, i as int), p@),
        decreases v@.len() - i,
    {
        proof {
            assert(v@.subrange(0, i + 1).drop_last() =~= v@.subrange(0, i as int));
            assert(v@.subrange(0, i + 1).last() == v@[i as int]);
        }
        if !str_eq(v[i].as_str(), p) {
            out.push(v[i].clone());
        }
        i = i + 1;
    }
    proof { assert(v@.subrange(0, v@.len() as int) =~= v@); }
    out
}

/// The `git` commands that Space runs on the row under the cursor, whether
/// a failure of one of them is an error, and the message shown when they
/// have run.
#[derive(Debug)]
pub struct StageRequest {
    pub commands: Vec<GitCommand>,
    pub must_succeed: bool,
    pub success: String,
}

/// A file lies below the folder `path`.
pub open spec fn under_folder(file: Seq<char>, path: Seq<char>) -> bool {
    starts_with(file, path + "/"@)
}

/// Space on a folder stages it when no file lies below it or one below it
/// is not staged; else it unstages it.
pub open spec fn folder_needs_stage(files: Seq<GitFile>, path: Seq<char>) -> bool {
    (forall|i: int| 0 <= i < files.len() ==> !under_folder(#[trigger] files[i].path@, path))
        || exists|i: int| 0 <= i < files.len() && under_folder(#[trigger] files[i].path@, path) && !staged(files[i].status)
}

/// Whether Space stages the folder `path`.
fn folder_stage_state(files: &Vec<GitFile>, path: &str) -> (r: bool)
    ensures
        r == folder_needs_stage(files@, path@),
{
    let mut pre = String::from_str(path);
    push_str(&mut pre, "/");
    proof { reveal_strlit("/"); }
    let mut found = false;
    let mut i: usize = 0;
    while i < files.len()
        invariant
            i <= files@.len(),
            pre@ == path@ + "/"@,
            found == exists|j: int| 0 <= j < i && under_folder(#[trigger] files@[j].path@, path@),
            forall|j: int| 0 <= j < i && under_folder(#[trigger] files@[j].path@, path@) ==> staged(files@[j].status),
        decreases files@.len() - i,
    {
        if str_starts_with(files[i].path.as_str(), pre.as_str()) {
            found = true;
            if !files[i].status.is_staged() {
                proof { assert(under_folder(files@[i as int].path@, path@)); }
                return true;
            }
        }
        i = i + 1;
    }
    !found
}

/// The message shown once Space has staged or unstaged a folder.
pub open spec fn folder_stage_text(path: Seq<char>, stage: bool) -> Seq<char> {
    (if stage { "✅ Staged"@ } else { "Unstaged"@ }) + " folder: "@ + path + "/"@
}

/// The message shown once Space has staged or unstaged a file.
pub open spec fn file_stage_text(path: Seq<char>, was_staged: bool) -> Seq<char> {
    if was_staged { "Unstaged: "@ + path } else { "✅ Staged: "@ + path }
}

/// What Space asks of `git` for the row under the tree cursor: the
/// commands, whether their failure counts, and the message of success.
pub open spec fn stage_request_of(m: Model, r: StageRequest) -> bool {
    match m.display_items@[m.repo_cursor as int] {
        DisplayItem::FolderHeader { path, .. } => {
            let stage = folder_needs_stage(m.git_files@, path@);
            &&& r.success@ == folder_stage_text(path@, stage)
            &&& r.must_succeed == stage
            &&& stage ==> r.commands@.len() == 1 && args_view(r.commands@[0]) == seq!["add"@, path@]
            &&& !stage ==> r.commands@.len() == 2
                && args_view(r.commands@[0]) == seq!["restore"@, "--staged"@, path@]
                && args_view(r.commands@[1]) == seq!["reset"@, "HEAD"@, "--"@, path@]
        },
        DisplayItem::FileEntry { file_idx, .. } => {
            let f = m.git_files@[file_idx as int];
            let was = staged(f.status);
            &&& r.success@ == file_stage_text(f.path@, was)
            &&& r.must_succeed == !was
            &&& !was ==> r.commands@.len() == 1 && args_view(r.commands@[0]) == seq!["add"@, f.path@]
            &&& was ==> r.commands@.len() == 3
                && args_view(r.commands@[0]) == seq!["restore"@, "--staged"@, f.path@]
                && args_view(r.commands@[1]) == seq!["rm"@, "--cached"@, f.path@]
                && args_view(r.commands@[2]) == seq!["reset"@, "HEAD"@, "--"@, f.path@]
        },
    }
}

/// Space has something to do: a repository is open and the cursor is on a
/// folder row, or on a file row that names a file of the list.
pub open spec fn stage_applies(m: Model) -> bool {
    &&& m.repo is Some
    &&& m.repo_cursor < m.display_items@.len()
    &&& match m.display_items@[m.repo_cursor as int] {
        DisplayItem::FolderHeader { .. } => true,
        DisplayItem::FileEntry { file_idx, .. } => file_idx < m.git_files@.len(),
    }
}

/// Enter on a folder row opens it when closed and closes it when open; the
/// folder list must then still hold no empty path.
pub open spec fn expand_ok(m: Model) -> bool {
    &&& no_empty(strs_view(m.expanded_folders@))
    &&& m.repo_cursor < m.display_items@.len() ==> match m.display_items@[m.repo_cursor as int] {
        DisplayItem::FolderHeader { path, expanded, .. } => !expanded ==> path@.len() > 0,
        _ => true,
    }
}

/// Enter in the tree, from `m` to `n`: the hunk cursor is cleared; on a
/// folder row the folder opens when closed (closes when open) and the rows
/// are rebuilt; on a file row the diff scrolls to the top and `refresh`
/// asks for the file's diff to be read again.
pub open spec fn entered(m: Model, n: Model, refresh: bool) -> bool {
    &&& no_empty(strs_view(n.expanded_folders@))
    &&& m.repo_cursor >= m.display_items@.len() ==> !refresh && n == (Model { hunk_cursor: None, ..m })
    &&& m.repo_cursor < m.display_items@.len() ==> match m.display_items@[m.repo_cursor as int] {
        DisplayItem::FolderHeader { path, expanded, .. } => {
            &&& !refresh
            &&& n.expanded_folders@ == if expanded {
                without_str(m.expanded_folders@, path@)
            } else {
                with_str(m.expanded_folders@, path)
            }
            &&& items_view(n.display_items@) == tree_rows_of(m.git_files@, n.expanded_folders@)
            &&& n == (Model {
                hunk_cursor: None,
                expanded_folders: n.expanded_folders,
                display_items: n.display_items,
                repo_cursor: clamped(m.repo_cursor, n.display_items@.len()),
                ..m
            })
        },
        DisplayItem::FileEntry { .. } => refresh && n == (Model { hunk_cursor: None, diff_scroll: 0, ..m }),
    }
}

/// The model after the tree cursor moves one row up (nothing on the first
/// row), scrolling when the cursor leaves the window.
pub open spec fn moved_up(m: Model) -> Model {
    if m.repo_cursor > 0 {
        Model {
            repo_cursor: (m.repo_cursor - 1) as usize,
            repo_scroll: scrolled((m.repo_cursor - 1) as usize, m.repo_scroll, tree_rows()),
            ..m
        }
    } else {
        m
    }
}

/// The model after the tree cursor moves one row down (nothing on the last
/// row), scrolling when the cursor leaves the window.
pub open spec fn moved_down(m: Model) -> Model {
    if m.repo_cursor < last_index(m.display_items@.len()) {
        Model {
            repo_cursor: (m.repo_cursor + 1) as usize,
            repo_scroll: scrolled((m.repo_cursor + 1) as usize, m.repo_scroll, tree_rows()),
            ..m
        }
    } else {
        m
    }
}

/// The lines the editor shows for a file's text: its lines, or a single
/// empty line when it has none.
pub open spec fn editor_lines_of(text: Seq<char>) -> Seq<Seq<char>> {
    if lines(text).len() == 0 {
        seq![Seq::<char>::empty()]
    } else {
        lines(text)
    }
}

/// The error toast of a failed `git` command.
pub open spec fn error_text(e: Seq<char>) -> Seq<char> {
    "❌ Error: "@ + e
}

impl Model {
    /// The state at start-up: the dashboard with nothing open.
    pub fn new(config: SwiftGitConfig) -> (r: Model)
        ensures
            r.mode == AppMode::Dashboard,
            r.frame_count == 0,
            r.toast is None,
            r.token_input@ == Seq::<char>::empty(),
            r.token_cursor == 0,
            r.auth_status@ == Seq::<char>::empty(),
            !r.is_validating,
            r.dashboard_cursor == 0,
            r.recent_projects_cursor == 0,
            r.text_input@ == Seq::<char>::empty(),
            r.text_cursor == 0,
            r.dir_suggestions@.len() == 0,
            r.suggestion_cursor is None,
            r.repo is None,
            r.git_files@.len() == 0,
            r.display_items@.len() == 0,
            r.expanded_folders@.len() == 0,
            r.repo_cursor == 0,
            r.repo_scroll == 0,
            r.diff_scroll == 0,
            r.diff_content@ == Seq::<char>::empty(),
            r.diff_struct@ == empty_diff(),
            r.hunk_cursor is None,
            !r.commit_mode,
            r.commit_input@ == Seq::<char>::empty(),
            r.commit_cursor == 0,
            r.commit_history@.len() == 0,
            r.status_msg@ == Seq::<char>::empty(),
            !r.is_loading,
            !r.is_diff_loading,
            r.branch@ == Seq::<char>::empty(),
            r.loading_label@ == Seq::<char>::empty(),
            r.filter@ == Seq::<char>::empty(),
            r.remote_url@ == Seq::<char>::empty(),
            r.remote_owner@ == Seq::<char>::empty(),
            r.remote_repo@ == Seq::<char>::empty(),
            r.remote_files@.len() == 0,
            r.remote_cursor == 0,
            r.remote_scroll == 0,
            r.remote_selected@ == Set::<usize>::empty(),
            r.remote_expanded@.len() == 0,
            r.config == config,
            r.push_dlg.branch@ == "main"@,
            strs_view(r.push_dlg.branch_list@) == seq!["main"@],
            r.push_dlg.focused == crate::ui::PushField::RepoName,
            r.push_dlg.cursor == 0,
            r.push_dlg.repo_name@.len() == 0,
            r.push_dlg.origin@.len() == 0,
            r.push_dlg.has_commits,
            !r.push_dlg.force_push,
            !r.push_dlg.branch_open,
            r.ssh_step == SshSetupStep::Detecting,
            r.ssh_pubkey@ == Seq::<char>::empty(),
            r.deinit_confirm_cursor == 0,
            r.force_push_confirm_cursor == 0,
            r.rebase_commits@.len() == 0,
            r.rebase_cursor == 0,
            r.editor_lines@.len() == 0,
            r.editor_cursor_line == 0,
            r.editor_cursor_col == 0,
            r.editor_scroll_line == 0,
            r.editor_scroll_col == 0,
            !r.editor_modified,
            r.editor_path@ == Seq::<char>::empty(),
            r.active_frame == 1,
            r.settings_dlg.focused == crate::ui::SettingsField::DisplayName,
            r.settings_dlg.cursor == 0,
            r.settings_dlg.display_name@.len() == 0,
            r.settings_dlg.username@.len() == 0,
            r.settings_dlg.token@.len() == 0,
            !r.settings_dlg.show_token,
            r.settings_prev_mode == AppMode::Dashboard,
            r.help_prev_mode == AppMode::Dashboard,
    {
        Model {
            mode: AppMode::Dashboard,
            frame_count: 0,
            toast: None,
            token_input: String::new(),
            token_cursor: 0,
            auth_status: String::new(),
            is_validating: false,
            dashboard_cursor: 0,
            recent_projects_cursor: 0,
            text_input: String::new(),
            text_cursor: 0,
            dir_suggestions: Vec::new(),
            suggestion_cursor: None,
            repo: None,
            git_files: Vec::new(),
            display_items: Vec::new(),
            expanded_folders: Vec::new(),
            repo_cursor: 0,
            repo_scroll: 0,
            diff_scroll: 0,
            diff_content: String::new(),
            diff_struct: Diff::new(),
            hunk_cursor: None,
            commit_mode: false,
            commit_input: String::new(),
            commit_cursor: 0,
            commit_history: Vec::new(),
            status_msg: String::new(),
            is_loading: false,
            is_diff_loading: false,
            branch: String::new(),
            loading_label: String::new(),
            filter: String::new(),
            remote_url: String::new(),
            remote_owner: String::new(),
            remote_repo: String::new(),
            remote_files: Vec::new(),
            remote_cursor: 0,
            remote_scroll: 0,
            remote_selected: std::collections::HashSet::new(),
            remote_expanded: Vec::new(),
            config,
            push_dlg: PushDialogState::new(),
            ssh_step: SshSetupStep::Detecting,
            ssh_pubkey: String::new(),
            deinit_confirm_cursor: 0,
            force_push_confirm_cursor: 0,
            rebase_commits: Vec::new(),
            rebase_cursor: 0,
            editor_lines: Vec::new(),
            editor_cursor_line: 0,
            editor_cursor_col: 0,
            editor_scroll_line: 0,
            editor_scroll_col: 0,
            editor_modified: false,
            editor_path: String::new(),
            active_frame: 1,
            settings_dlg: SettingsDialogState::new(),
            settings_prev_mode: AppMode::Dashboard,
            help_prev_mode: AppMode::Dashboard,
        }
    }

    /// Shows a toast.
    pub fn show_toast(&mut self, msg: String, t: ToastType)
        ensures
            *final(self) == (Model { toast: Some(Toast { message: msg, kind: t }), ..*old(self) }),
    {
        self.toast = Some(Toast { message: msg, kind: t });
    }

    /// Moves the tree cursor one row up, scrolling when it leaves the
    /// window; nothing on the first row.
    pub fn move_up(&mut self)
        ensures
            *final(self) == moved_up(*old(self)),
    {
        if self.repo_cursor > 0 {
            self.repo_cursor = self.repo_cursor - 1;
            self.adjust_scroll();
        }
    }

    /// Moves the tree cursor one row down, scrolling when it leaves the
    /// window; nothing on the last row.
    pub fn move_down(&mut self)
        ensures
            *final(self) == moved_down(*old(self)),
    {
        let n = self.display_items.len();
        let max: usize = if n > 0 {
            n - 1
        } else {
            0
        };
        if self.repo_cursor < max {
            self.repo_cursor = self.repo_cursor + 1;
            self.adjust_scroll();
        }
    }

    /// Rebuilds the tree rows from the files and the open folders, and pulls
    /// the cursor back onto the last row when it is past it.
    pub fn rebuild_display_items(&mut self)
        requires
            no_empty(strs_view(old(self).expanded_folders@)),
        ensures
            items_view(final(self).display_items@) == tree_rows_of(old(self).git_files@, old(self).expanded_folders@),
            *final(self) == (Model {
                display_items: final(self).display_items,
                repo_cursor: clamped(old(self).repo_cursor, final(self).display_items@.len()),
                ..*old(self)
            }),
    {
        self.display_items = build_display_items(self.git_files.as_slice(), self.expanded_folders.as_slice());
        let n = self.display_items.len();
        let max: usize = if n > 0 {
            n - 1
        } else {
            0
        };
        if self.repo_cursor > max {
            self.repo_cursor = max;
        }
    }

    /// The file under the tree cursor, when the cursor is on a file row.
    pub fn current_file(&self) -> (r: Option<&GitFile>)
        ensures
            match r {
                Some(f) => current_file_of(*self) == Some(*f),
                None => current_file_of(*self) is None,
            },
    {
        if self.repo_cursor < self.display_items.len() {
            match &self.display_items[self.repo_cursor] {
                DisplayItem::FileEntry { file_idx, .. } => {
                    if *file_idx < self.git_files.len() {
                        Some(&self.git_files[*file_idx])
                    } else {
                        None
                    }
                },
                _ => None,
            }
        } else {
            None
        }
    }

    /// Takes the recent commits from the lines of `git log` (run in the open
    /// repository); nothing when no repository is open.
    pub fn refresh_commit_history(&mut self, log: &str)
        ensures
            old(self).repo is None ==> *final(self) == *old(self),
            old(self).repo is Some ==> strs_view(final(self).commit_history@) == lines(log@)
                && *final(self) == (Model { commit_history: final(self).commit_history, ..*old(self) }),
    {
        if self.repo.is_some() {
            self.commit_history = recent_commits(log);
        }
    }

    /// Shows the rows of the files that the filter keeps: all files for an
    /// empty filter, else those whose lower-cased path contains the
    /// lower-cased filter. Each file row names its file's position in
    /// `git_files`; the cursor is pulled back onto the last row.
    pub fn apply_filter(&mut self)
        requires
            no_empty(strs_view(old(self).expanded_folders@)),
        ensures
            items_view(final(self).display_items@) == filtered_rows(
                old(self).git_files@,
                old(self).filter@,
                old(self).expanded_folders@,
            ),
            *final(self) == (Model {
                display_items: final(self).display_items,
                repo_cursor: clamped(old(self).repo_cursor, final(self).display_items@.len()),
                ..*old(self)
            }),
    {
        let pos = kept_of(&self.git_files, self.filter.as_str());
        let kept = files_at(&self.git_files, &pos);
        let ghost pv = pos@.map_values(|i: usize| i as int);
        proof {
            assert(kept@ =~= filtered_files(self.git_files@, self.filter@)) by {
                assert forall|j: int| 0 <= j < kept@.len() implies kept@[j] == filtered_files(self.git_files@, self.filter@)[j] by {
                    assert(pv[j] == pos@[j] as int);
                }
            }
            lemma_tree_files_distinct(file_paths(kept@), strs_view(self.expanded_folders@));
        }
        let rows = build_display_items(kept.as_slice(), self.expanded_folders.as_slice());
        proof {
            assert forall|j: int| 0 <= j < rows@.len() implies
                (#[trigger] items_view(rows@)[j] matches ItemView::File { idx, .. } ==> idx < pos@.len()) by {
                assert(items_view(rows@)[j] == level_items(file_paths(kept@), strs_view(self.expanded_folders@), Seq::empty(), 0)[j]);
            }
        }
        self.display_items = rows_through(rows, &pos);
        let n = self.display_items.len();
        let max: usize = if n > 0 {
            n - 1
        } else {
            0
        };
        if self.repo_cursor > max {
            self.repo_cursor = max;
        }
    }

    /// Takes a new file list and branch name from the open repository and
    /// shows them through the filter; nothing when no repository is open.
    /// The diff of the file under the cursor and the recent commits follow
    /// through `refresh_diff` and `refresh_commit_history`.
    pub fn refresh_status(&mut self, files: Vec<GitFile>, branch: String)
        requires
            no_empty(strs_view(old(self).expanded_folders@)),
        ensures
            old(self).repo is None ==> *final(self) == *old(self),
            old(self).repo is Some ==> {
                &&& items_view(final(self).display_items@) == filtered_rows(
                    files@,
                    old(self).filter@,
                    old(self).expanded_folders@,
                )
                &&& *final(self) == (Model {
                    git_files: files,
                    branch: branch,
                    display_items: final(self).display_items,
                    repo_cursor: clamped(old(self).repo_cursor, final(self).display_items@.len()),
                    ..*old(self)
                })
            },
    {
        if self.repo.is_some() {
            self.git_files = files;
            self.branch = branch;
            self.apply_filter();
        }
    }

    /// Shows the diff of the file under the cursor, read from the open
    /// repository (`None` when reading it failed): its text and hunks, or
    /// nothing when the read failed or the cursor is not on a file; no
    /// change when no repository is open.
    pub fn refresh_diff(&mut self, diff: Option<Diff>)
        ensures
            old(self).repo is None ==> *final(self) == *old(self),
            old(self).repo is Some ==> *final(self) == (Model {
                diff_content: final(self).diff_content,
                diff_struct: final(self).diff_struct,
                ..*old(self)
            }),
            old(self).repo is Some ==> match (current_file_of(*old(self)), diff) {
                (Some(_), Some(d)) => final(self).diff_struct == d && final(self).diff_content@ == diff_text(d@),
                _ => final(self).diff_content@ == Seq::<char>::empty() && final(self).diff_struct@ == empty_diff(),
            },
    {
        if self.repo.is_some() {
            let has_file = self.current_file().is_some();
            if has_file {
                match diff {
                    Some(d) => {
                        self.diff_content = d.to_string();
                        self.diff_struct = d;
                    },
                    None => {
                        self.diff_content = String::new();
                        self.diff_struct = Diff::new();
                    },
                }
            } else {
                self.diff_content = String::new();
                self.diff_struct = Diff::new();
            }
        }
    }

    /// What Space asks of `git` on the row under the tree cursor: a folder
    /// is staged when nothing below it is staged yet or something below it
    /// is not, else unstaged; a file is unstaged when staged, else staged.
    /// `None` when no repository is open or there is no such row.
    pub fn space_stage_unstage(&self) -> (r: Option<StageRequest>)
        ensures
            r is Some <==> stage_applies(*self),
            r matches Some(req) ==> stage_request_of(*self, req),
    {
        if self.repo.is_none() || self.repo_cursor >= self.display_items.len() {
            return None;
        }
        match &self.display_items[self.repo_cursor] {
            DisplayItem::FolderHeader { path, .. } => {
                let stage = folder_stage_state(&self.git_files, path.as_str());
                let mut success = if stage {
                    String::from_str("✅ Staged")
                } else {
                    String::from_str("Unstaged")
                };
                push_str(&mut success, " folder: ");
                push_str(&mut success, path.as_str());
                push_str(&mut success, "/");
                let commands = if stage {
                    let mut v: Vec<GitCommand> = Vec::new();
                    v.push(GitRepo::stage_folder(path.as_str()));
                    v
                } else {
                    GitRepo::unstage_folder(path.as_str())
                };
                proof {
                    reveal_strlit("✅ Staged");
                    reveal_strlit("Unstaged");
                    reveal_strlit(" folder: ");
                    reveal_strlit("/");
                    assert(success@ =~= folder_stage_text(path@, stage));
                }
                Some(StageRequest { commands, must_succeed: stage, success })
            },
            DisplayItem::FileEntry { file_idx, .. } => {
                if *file_idx >= self.git_files.len() {
                    return None;
                }
                let file = &self.git_files[*file_idx];
                let was = file.status.is_staged();
                let mut success = if was {
                    String::from_str("Unstaged: ")
                } else {
                    String::from_str("✅ Staged: ")
                };
                push_str(&mut success, file.path.as_str());
                let commands = if was {
                    GitRepo::unstage(file.path.as_str())
                } else {
                    let mut v: Vec<GitCommand> = Vec::new();
                    v.push(GitRepo::stage(file.path.as_str()));
                    v
                };
                proof {
                    reveal_strlit("Unstaged: ");
                    reveal_strlit("✅ Staged: ");
                    assert(success@ =~= file_stage_text(file.path@, was));
                }
                Some(StageRequest { commands, must_succeed: !was, success })
            },
        }
    }

    /// Shows how a Space request ended: its message of success, or the
    /// error of the `git` command that failed. The file list is read again
    /// afterwards through `refresh_status`.
    pub fn finish_stage_unstage(&mut self, req: StageRequest, outcome: Result<(), String>)
        ensures
            outcome is Ok ==> *final(self) == (Model {
                toast: Some(Toast { message: req.success, kind: ToastType::Success }),
                ..*old(self)
            }),
            outcome matches Err(e) ==> final(self).toast matches Some(t) && t.kind == ToastType::Error
                && t.message@ == error_text(e@)
                && *final(self) == (Model { toast: final(self).toast, ..*old(self) }),
    {
        match outcome {
            Ok(()) => self.show_toast(req.success, ToastType::Success),
            Err(e) => {
                let mut msg = String::from_str("❌ Error: ");
                push_str(&mut msg, e.as_str());
                proof {
                    reveal_strlit("❌ Error: ");
                    assert(msg@ =~= error_text(e@));
                }
                self.show_toast(msg, ToastType::Error);
            },
        }
    }

    /// Enter in the tree: clears the hunk cursor; on a folder row opens the
    /// folder when closed (closes it when open) and rebuilds the rows; on a
    /// file row scrolls the diff to the top and answers `true`, asking for
    /// the diff of that file to be read again.
    pub fn enter_expand_collapse(&mut self) -> (r: bool)
        requires
            expand_ok(*old(self)),
        ensures
            entered(*old(self), *final(self), r),
    {
        self.hunk_cursor = None;
        if self.repo_cursor >= self.display_items.len() {
            return false;
        }
        let item = self.display_items[self.repo_cursor].clone();
        match item {
            DisplayItem::FolderHeader { path, expanded, .. } => {
                if expanded {
                    proof { lemma_without_str_no_empty(self.expanded_folders@, path@); }
                    self.expanded_folders = drop_str(&self.expanded_folders, path.as_str());
                } else {
                    if !has_str(&self.expanded_folders, path.as_str()) {
                        proof {
                            let v = self.expanded_folders@;
                            assert forall|i: int| 0 <= i < strs_view(v.push(path)).len() implies #[trigger] strs_view(v.push(path))[i].len() > 0 by {
                                if i < v.len() {
                                    assert(strs_view(v)[i].len() > 0);
                                }
                            }
                        }
                        self.expanded_folders.push(path);
                    }
                }
                self.rebuild_display_items();
                false
            },
            DisplayItem::FileEntry { .. } => {
                self.diff_scroll = 0;
                true
            },
        }
    }

    /// Shows a repository that has just been opened: records it first among
    /// the recent projects, takes its branch and files, closes all folders,
    /// clears the filter, puts the cursor on the first row and switches to
    /// the repository view. The diff and the recent commits follow through
    /// `refresh_diff` and `refresh_commit_history`.
    pub fn open_repo(&mut self, path: String, repo: GitRepo, branch: String, files: Vec<GitFile>)
        ensures
            projects_view(final(self).config.recent_projects@) == with_recent(
                projects_view(old(self).config.recent_projects@),
                path@,
                match path_file_name(repo.root@) {
                    Some(n) => n,
                    None => "repo"@,
                },
            ),
            final(self).config.github_token == old(self).config.github_token,
            final(self).config.username == old(self).config.username,
            final(self).config.display_name == old(self).config.display_name,
            final(self).config.ssh_key_added == old(self).config.ssh_key_added,
            final(self).expanded_folders@.len() == 0,
            final(self).filter@ == Seq::<char>::empty(),
            items_view(final(self).display_items@) == tree_rows_of(files@, Seq::empty()),
            *final(self) == (Model {
                config: final(self).config,
                branch: branch,
                git_files: files,
                expanded_folders: final(self).expanded_folders,
                filter: final(self).filter,
                display_items: final(self).display_items,
                repo_cursor: 0,
                repo_scroll: 0,
                repo: Some(repo),
                mode: AppMode::RepoView,
                ..*old(self)
            }),
    {
        let name = repo.repo_name();
        self.config.add_recent_project(path, name);
        self.branch = branch;
        self.git_files = files;
        self.expanded_folders = Vec::new();
        self.filter = String::new();
        proof {
            assert(strs_view(self.expanded_folders@) =~= Seq::<Seq<char>>::empty());
        }
        self.rebuild_display_items();
        self.repo_cursor = 0;
        self.repo_scroll = 0;
        self.repo = Some(repo);
        self.mode = AppMode::RepoView;
    }

    /// Loads a file of the open repository into the editor, given the text
    /// read from it (or why it could not be read): the editor shows its
    /// lines from the top with nothing modified, and takes the right frame;
    /// a read error is shown instead. Nothing when no repository is open.
    pub fn editor_open(&mut self, rel_path: String, content: Result<String, String>)
        ensures
            old(self).repo is None ==> *final(self) == *old(self),
            old(self).repo is Some ==> match content {
                Ok(text) => strs_view(final(self).editor_lines@) == editor_lines_of(text@)
                    && *final(self) == (Model {
                        editor_lines: final(self).editor_lines,
                        editor_path: rel_path,
                        editor_cursor_line: 0,
                        editor_cursor_col: 0,
                        editor_scroll_line: 0,
                        editor_scroll_col: 0,
                        editor_modified: false,
                        active_frame: 2,
                        mode: AppMode::Editor,
                        ..*old(self)
                    }),
                Err(e) => final(self).toast matches Some(t) && t.kind == ToastType::Error
                    && t.message@ == "Cannot open: "@ + e@
                    && *final(self) == (Model { toast: final(self).toast, ..*old(self) }),
            },
    {
        if self.repo.is_none() {
            return;
        }
        match content {
            Ok(text) => {
                let mut ls = split_lines(text.as_str());
                if ls.len() == 0 {
                    ls.push(String::new());
                    proof { assert(strs_view(ls@) =~= seq![Seq::<char>::empty()]); }
                }
                self.editor_lines = ls;
                self.editor_path = rel_path;
                self.editor_cursor_line = 0;
                self.editor_cursor_col = 0;
                self.editor_scroll_line = 0;
                self.editor_scroll_col = 0;
                self.editor_modified = false;
                self.active_frame = 2;
                self.mode = AppMode::Editor;
            },
            Err(e) => {
                let mut msg = String::from_str("Cannot open: ");
                push_str(&mut msg, e.as_str());
                proof { reveal_strlit("Cannot open: "); }
                self.show_toast(msg, ToastType::Error);
            },
        }
    }

    /// The editor's lines joined with newlines, as they are written to the
    /// file.
    pub fn editor_text(&self) -> (r: String)
        ensures
            r@ == joined(strs_view(self.editor_lines@)),
    {
        join_lines(&self.editor_lines)
    }

    /// Takes a status read in the background for the open repository: the
    /// files, the branch and the recent commits (lines of `git log`); the
    /// tree rows are rebuilt from all files and the open folders. The diff
    /// of the file under the cursor follows through `refresh_diff`.
    pub fn status_loaded(&mut self, files: Vec<GitFile>, branch: String, log: &str)
        requires
            no_empty(strs_view(old(self).expanded_folders@)),
        ensures
            strs_view(final(self).commit_history@) == lines(log@),
            items_view(final(self).display_items@) == tree_rows_of(files@, old(self).expanded_folders@),
            *final(self) == (Model {
                git_files: files,
                branch: branch,
                commit_history: final(self).commit_history,
                display_items: final(self).display_items,
                repo_cursor: clamped(old(self).repo_cursor, final(self).display_items@.len()),
                ..*old(self)
            }),
    {
        self.git_files = files;
        self.branch = branch;
        self.commit_history = recent_commits(log);
        self.rebuild_display_items();
    }

    /// Starts reading the diff of the file under the cursor in the
    /// background: its path, with the diff marked as loading, when a
    /// repository is open and the cursor is on a file; otherwise the diff
    /// text is cleared and nothing is read.
    pub fn begin_diff_load(&mut self) -> (r: Option<String>)
        ensures
            match (old(self).repo, current_file_of(*old(self))) {
                (Some(_), Some(f)) => r matches Some(p) && p@ == f.path@
                    && *final(self) == (Model { is_diff_loading: true, ..*old(self) }),
                _ => r is None && final(self).diff_content@.len() == 0 && *final(self) == (Model {
                    diff_content: final(self).diff_content,
                    is_diff_loading: false,
                    ..*old(self)
                }),
            },
    {
        let path = match self.current_file() {
            Some(f) => Some(f.path.clone()),
            None => None,
        };
        if self.repo.is_some() && path.is_some() {
            self.is_diff_loading = true;
            path
        } else {
            self.diff_content = String::new();
            self.is_diff_loading = false;
            None
        }
    }

    /// Takes the diff read in the background for `path` (`None` when the
    /// read failed): it is shown only when the cursor is still on that file,
    /// and the hunk cursor goes back to the first hunk (or to none when there
    /// are no hunks) when it is past them; the loading mark ends either way.
    pub fn finish_diff_load(&mut self, path: &str, diff: Option<Diff>)
        ensures
            match (diff, current_file_of(*old(self))) {
                (Some(d), Some(f)) => if f.path@ == path@ {
                    &&& final(self).diff_struct == d
                    &&& final(self).diff_content@ == diff_text(d@)
                    &&& final(self).hunk_cursor == match old(self).hunk_cursor {
                        Some(hc) => if hc >= d.hunks@.len() {
                            if d.hunks@.len() == 0 { None } else { Some(0usize) }
                        } else {
                            Some(hc)
                        },
                        None => None,
                    }
                    &&& *final(self) == (Model {
                        diff_content: final(self).diff_content,
                        diff_struct: final(self).diff_struct,
                        hunk_cursor: final(self).hunk_cursor,
                        is_diff_loading: false,
                        ..*old(self)
                    })
                } else {
                    *final(self) == (Model { is_diff_loading: false, ..*old(self) })
                },
                _ => *final(self) == (Model { is_diff_loading: false, ..*old(self) }),
            },
    {
        match diff {
            Some(d) => {
                let same = match self.current_file() {
                    Some(f) => str_eq(f.path.as_str(), path),
                    None => false,
                };
                if same {
                    self.diff_content = d.to_string();
                    self.diff_struct = d;
                    match self.hunk_cursor {
                        Some(hc) => {
                            let n = self.diff_struct.hunks.len();
                            if hc >= n {
                                self.hunk_cursor = if n == 0 {
                                    None
                                } else {
                                    Some(0)
                                };
                            }
                        },
                        None => {},
                    }
                }
            },
            None => {},
        }
        self.is_diff_loading = false;
    }

    /// Keeps the editor's cursor line inside the visible window of thirty
    /// lines.
    pub fn editor_adjust_scroll(&mut self)
        ensures
            *final(self) == (Model {
                editor_scroll_line: scrolled(old(self).editor_cursor_line, old(self).editor_scroll_line, editor_rows()),
                ..*old(self)
            }),
    {
        let vis: usize = 30;
        if self.editor_cursor_line < self.editor_scroll_line {
            self.editor_scroll_line = self.editor_cursor_line;
        } else if self.editor_cursor_line - self.editor_scroll_line >= vis {
            self.editor_scroll_line = self.editor_cursor_line - vis + 1;
        }
    }

    /// Takes the folder suggestions found for the typed path and clears the
    /// suggestion cursor.
    pub fn update_dir_suggestions(&mut self, suggestions: Vec<String>)
        ensures
            *final(self) == (Model { dir_suggestions: suggestions, suggestion_cursor: None, ..*old(self) }),
    {
        self.dir_suggestions = suggestions;
        self.suggestion_cursor = None;
    }

    /// Keeps the tree cursor inside the visible window of twenty rows.
    pub fn adjust_scroll(&mut self)
        ensures
            *final(self) == (Model {
                repo_scroll: scrolled(old(self).repo_cursor, old(self).repo_scroll, tree_rows()),
                ..*old(self)
            }),
    {
        let visible: usize = 20;
        if self.repo_cursor < self.repo_scroll {
            self.repo_scroll = self.repo_cursor;
        } else if self.repo_cursor - self.repo_scroll >= visible {
            self.repo_scroll = self.repo_cursor - visible + 1;
        }
    }
}


/// Opening a closed folder and closing it again restores the list of open
/// folders.
pub proof fn lemma_open_then_close(v: Seq<String>, p: String)
    requires
        !strs_view(v).contains(p@),
    ensures
        without_str(with_str(v, p), p@) == v,
{
    lemma_without_absent(v, p@);
    assert(v.push(p).drop_last() =~= v);
}

/// Removing a folder that is not in the list changes nothing.
pub proof fn lemma_without_absent(v: Seq<String>, p: Seq<char>)
    requires
        !strs_view(v).contains(p),
    ensures
        without_str(v, p) == v,
    decreases v.len(),
{
    if v.len() > 0 {
        assert(!strs_view(v.drop_last()).contains(p)) by {
            if strs_view(v.drop_last()).contains(p) {
                let k = choose|k: int| 0 <= k < strs_view(v.drop_last()).len() && #[trigger] strs_view(v.drop_last())[k] == p;
                assert(strs_view(v)[k] == p);
            }
        }
        lemma_without_absent(v.drop_last(), p);
        assert(strs_view(v)[v.len() - 1] != p);
        assert(v.drop_last().push(v.last()) =~= v);
    }
}

/// A folder is open after it is removed from the list exactly when it was
/// open before and is another folder.
proof fn lemma_without_str_contains(v: Seq<String>, p: Seq<char>, d: Seq<char>)
    ensures
        strs_view(without_str(v, p)).contains(d) == (strs_view(v).contains(d) && d != p),
    decreases v.len(),
{
    if v.len() > 0 {
        let prev = without_str(v.drop_last(), p);
        lemma_without_str_contains(v.drop_last(), p, d);
        assert(strs_view(v) =~= strs_view(v.drop_last()).push(v.last()@));
        lemma_push_contains(strs_view(v.drop_last()), v.last()@, d);
        if v.last()@ != p {
            assert(strs_view(prev.push(v.last())) =~= strs_view(prev).push(v.last()@));
            lemma_push_contains(strs_view(prev), v.last()@, d);
        }
    }
}

proof fn lemma_push_contains(s: Seq<Seq<char>>, x: Seq<char>, d: Seq<char>)
    ensures
        s.push(x).contains(d) == (s.contains(d) || x == d),
{
    if s.push(x).contains(d) {
        let k = choose|k: int| 0 <= k < s.push(x).len() && s.push(x)[k] == d;
        if k < s.len() {
            assert(s[k] == d);
        }
    }
    if s.contains(d) {
        let k = choose|k: int| 0 <= k < s.len() && s[k] == d;
        assert(s.push(x)[k] == d);
    }
    if x == d {
        assert(s.push(x)[s.len() as int] == d);
    }
}

/// Enter on the header of a folder opens or closes that folder and keeps
/// the cursor on its header, whose open mark turns over; the rows before
/// it stay as they were.
pub proof fn lemma_enter_keeps_header(m: Model, n: Model, refresh: bool, p: Seq<char>)
    requires
        entered(m, n, refresh),
        items_view(m.display_items@) == tree_rows_of(m.git_files@, m.expanded_folders@),
        m.repo_cursor < m.display_items@.len(),
        m.display_items@[m.repo_cursor as int] matches DisplayItem::FolderHeader { path, .. } && path@ == p,
    ensures
        n.repo_cursor == m.repo_cursor,
        n.repo_cursor < n.display_items@.len(),
        items_view(n.display_items@).take(n.repo_cursor as int) == items_view(m.display_items@).take(m.repo_cursor as int),
        items_view(n.display_items@)[n.repo_cursor as int] == flipped(items_view(m.display_items@)[m.repo_cursor as int]),
{
    let c = m.repo_cursor as int;
    let paths = file_paths(m.git_files@);
    let exp = strs_view(m.expanded_folders@);
    let exp2 = strs_view(n.expanded_folders@);
    let a = items_view(m.display_items@);
    assert(a[c] == m.display_items@[c]@);
    lemma_level_flags(paths, exp, Seq::empty(), 0);
    let was_open = exp.contains(p);
    assert(a[c] matches ItemView::Folder { path, expanded, .. } && path == p && expanded == was_open);
    lemma_tree_headers_distinct(paths, exp);
    assert forall|j: int| 0 <= j < a.take(c).len() implies !is_header_of(#[trigger] a.take(c)[j], p) by {
        assert(a.take(c)[j] == a[j]);
        assert(!same_header(a[j], a[c]));
    }
    if was_open {
        assert(n.expanded_folders@ == without_str(m.expanded_folders@, p));
        assert forall|d: Seq<char>| d != p implies exp.contains(d) == exp2.contains(d) by {
            lemma_without_str_contains(m.expanded_folders@, p, d);
        }
        lemma_without_str_contains(m.expanded_folders@, p, p);
    } else {
        match m.display_items@[c] {
            DisplayItem::FolderHeader { path, .. } => {
                assert(n.expanded_folders@ == with_str(m.expanded_folders@, path));
                assert(exp2 =~= exp.push(p));
            },
            _ => {},
        }
        assert(exp2.contains(p)) by {
            assert(exp2[exp.len() as int] == p);
        }
        assert forall|d: Seq<char>| d != p implies exp.contains(d) == exp2.contains(d) by {
            if exp2.contains(d) {
                let k = choose|k: int| 0 <= k < exp2.len() && exp2[k] == d;
                assert(exp[k] == d);
            }
            if exp.contains(d) {
                let k = choose|k: int| 0 <= k < exp.len() && exp[k] == d;
                assert(exp2[k] == d);
            }
        }
    }
    lemma_level_toggle(paths, exp, exp2, p, Seq::empty(), 0, c);
    assert(items_view(n.display_items@) == level_items(paths, exp2, Seq::empty(), 0));
    assert(c < n.display_items@.len());
    assert(n.display_items@.len() == n.display_items.len());
    assert(m.repo_cursor <= last_index(n.display_items@.len()));
}

/// Enter pressed twice on the header of a folder undoes itself: the same
/// folders are open as before the first press (the very list of open
/// folders when the folder was closed), the rows are those from before, and
/// the cursor is back on the folder's header.
pub proof fn lemma_enter_twice(m0: Model, m1: Model, m2: Model, r1: bool, r2: bool, p: Seq<char>)
    requires
        entered(m0, m1, r1),
        entered(m1, m2, r2),
        items_view(m0.display_items@) == tree_rows_of(m0.git_files@, m0.expanded_folders@),
        m0.repo_cursor < m0.display_items@.len(),
        m0.display_items@[m0.repo_cursor as int] matches DisplayItem::FolderHeader { path, .. } && path@ == p,
    ensures
        forall|d: Seq<char>| strs_view(m2.expanded_folders@).contains(d) == strs_view(m0.expanded_folders@).contains(d),
        !strs_view(m0.expanded_folders@).contains(p) ==> m2.expanded_folders@ == m0.expanded_folders@,
        items_view(m2.display_items@) == items_view(m0.display_items@),
        m2.repo_cursor == m0.repo_cursor,
        items_view(m2.display_items@)[m2.repo_cursor as int] == items_view(m0.display_items@)[m0.repo_cursor as int],
        m2 == (Model {
            hunk_cursor: None,
            expanded_folders: m2.expanded_folders,
            display_items: m2.display_items,
            ..m0
        }),
{
    let c = m0.repo_cursor as int;
    let paths = file_paths(m0.git_files@);
    let e0 = m0.expanded_folders@;
    lemma_enter_keeps_header(m0, m1, r1, p);
    let a0 = items_view(m0.display_items@);
    let a1 = items_view(m1.display_items@);
    assert(a0[c] == m0.display_items@[c]@);
    assert(a1[c] == m1.display_items@[c]@);
    lemma_level_flags(paths, strs_view(e0), Seq::empty(), 0);
    let was_open = strs_view(e0).contains(p);
    assert(m1.display_items@[c] matches DisplayItem::FolderHeader { path, expanded, .. } && path@ == p && expanded == !was_open);
    assert(items_view(m1.display_items@) == tree_rows_of(m1.git_files@, m1.expanded_folders@));
    lemma_enter_keeps_header(m1, m2, r2, p);
    let e2 = m2.expanded_folders@;
    match m0.display_items@[c] {
        DisplayItem::FolderHeader { path, .. } => {
            if was_open {
                assert(m1.expanded_folders@ == without_str(e0, p));
                lemma_without_str_contains(e0, p, p);
                match m1.display_items@[c] {
                    DisplayItem::FolderHeader { path: path1, .. } => {
                        assert(e2 == with_str(m1.expanded_folders@, path1));
                        assert(strs_view(e2) =~= strs_view(m1.expanded_folders@).push(p));
                    },
                    _ => {},
                }
                assert forall|d: Seq<char>| strs_view(e2).contains(d) == strs_view(e0).contains(d) by {
                    lemma_push_contains(strs_view(m1.expanded_folders@), p, d);
                    lemma_without_str_contains(e0, p, d);
                }
            } else {
                assert(m1.expanded_folders@ == with_str(e0, path));
                assert(strs_view(e0.push(path)) =~= strs_view(e0).push(p));
                lemma_push_contains(strs_view(e0), p, p);
                assert(e2 == without_str(m1.expanded_folders@, p));
                lemma_open_then_close(e0, path);
            }
        },
        _ => {},
    }
    lemma_level_same_open(paths, strs_view(e0), strs_view(e2), Seq::empty(), 0);
}

/// After a scroll, the cursor is inside the window of `rows` rows.
pub proof fn lemma_scrolled_shows_cursor(cursor: usize, scroll: usize, rows: int)
    requires
        rows > 0,
        rows <= usize::MAX,
    ensures
        scrolled(cursor, scroll, rows) <= cursor < scrolled(cursor, scroll, rows) + rows,
{
}

/// Pulling the cursor back keeps it on a row of a non-empty list.
pub proof fn lemma_clamped_in_rows(cursor: usize, n: nat)
    requires
        0 < n <= usize::MAX,
    ensures
        clamped(cursor, n) < n,
        cursor < n ==> clamped(cursor, n) == cursor,
{
}

} // verus!
