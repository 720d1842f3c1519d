//! The picker of a GitHub repository's files: browsing the listing,
//! selecting entries, and cloning or downloading.
use vstd::prelude::*;
use crate::auth::{trim_end_str, trim_end_matches_str};
use crate::context::repo::{copy_opt, toasted};
use crate::events::{CloneOutcome, Effect, KeyCode, KeyEvent, Reaction, react, react_with};
use crate::git::{RemoteFile, strs_view};
use crate::model::{AppMode, Model, ToastType, without_str, has_str, drop_str};
use crate::text::{decimal, push_decimal, push_str, starts_with, str_eq, str_starts_with, to_chars, trim, trim_end_char, trim_end_char_bound, trim_str};
use crate::tree::{CursorItem, CursorView, last_component, last_component_exec, no_empty, picker_items, remote_paths, tree_cursor_path, tree_len};

verus! {

/// The remote file picker.
pub struct RemotePickerContext;

/// Rows the picker shows at once.
pub open spec fn picker_window() -> int {
    25
}

/// The rows of the picker for the model's listing and open folders.
pub open spec fn picker_rows_of(m: Model) -> Seq<CursorView> {
    picker_items(remote_paths(m.remote_files@), strs_view(m.remote_expanded@), Seq::empty())
}

/// The folder name a clone of `url` gets: its last `/`-separated part once
/// trailing slashes are removed, without trailing `.git`.
pub open spec fn clone_name(url: Seq<char>) -> Seq<char> {
    trim_end_str(last_component(trim_end_char(url, '/')), ".git"@)
}

/// The entries of the listing that Space on folder `p` selects: the folder
/// itself and everything below it.
pub open spec fn folder_targets(files: Seq<RemoteFile>, p: Seq<char>) -> Set<usize> {
    Set::new(|i: usize| i < files.len() && (files[i as int].path@ == p || starts_with(files[i as int].path@, p + "/"@)))
}

/// The selection after Space on the row `row`: a file is selected when it
/// was not and unselected when it was; a folder's entries are all
/// unselected when they all were, else all selected; nothing for a folder
/// without entries.
pub open spec fn selection_after(files: Seq<RemoteFile>, sel: Set<usize>, row: CursorView) -> Set<usize> {
    match row {
        CursorView::File(i) => if sel.contains(i as usize) {
            sel.remove(i as usize)
        } else {
            sel.insert(i as usize)
        },
        CursorView::Folder(p) => {
            let t = folder_targets(files, p);
            if t == Set::<usize>::empty() {
                sel
            } else if t.subset_of(sel) {
                sel.difference(t)
            } else {
                sel.union(t)
            }
        },
    }
}

/// The picker can take the key: the open folders hold no empty path, and
/// Enter does not open a folder with an empty path.
pub open spec fn picker_key_ok(m: Model, key: KeyEvent) -> bool {
    &&& no_empty(strs_view(m.remote_expanded@))
    &&& key.code is Enter && m.remote_cursor < picker_rows_of(m).len() ==> match picker_rows_of(m)[m.remote_cursor as int] {
        CursorView::Folder(p) => p.len() > 0,
        _ => true,
    }
}

/// The moving keys of the picker.
pub open spec fn picker_moves(m: Model, n: Model, key: KeyEvent, r: Reaction) -> bool {
    match key.code {
        KeyCode::Esc | KeyCode::Char('q') => r.handled && r.effect is Nothing && n == (Model { mode: AppMode::CloneInput, ..m }),
        KeyCode::Up | KeyCode::Char('k') => !r.handled && r.effect is Nothing && if m.remote_cursor > 0 {
            let c = (m.remote_cursor - 1) as usize;
            n == (Model { remote_cursor: c, remote_scroll: if c < m.remote_scroll { c } else { m.remote_scroll }, ..m })
        } else {
            n == m
        },
        KeyCode::Down | KeyCode::Char('j') => !r.handled && r.effect is Nothing && {
            let len = picker_rows_of(m).len();
            if len > 0 && m.remote_cursor < len - 1 {
                let c = (m.remote_cursor + 1) as usize;
                n == (Model {
                    remote_cursor: c,
                    remote_scroll: if c >= m.remote_scroll + picker_window() {
                        (c - picker_window() + 1) as usize
                    } else {
                        m.remote_scroll
                    },
                    ..m
                })
            } else {
                n == m
            }
        },
        _ => true,
    }
}

/// What the picker does with a key, from `m` to `n`.
pub open spec fn picker_step(m: Model, n: Model, key: KeyEvent, r: Reaction) -> bool {
    match key.code {
        KeyCode::Esc | KeyCode::Char('q') | KeyCode::Up | KeyCode::Char('k') | KeyCode::Down | KeyCode::Char('j') => picker_moves(m, n, key, r),
        KeyCode::Enter => !r.handled && r.effect is Nothing && if m.remote_cursor < picker_rows_of(m).len() {
            match picker_rows_of(m)[m.remote_cursor as int] {
                CursorView::Folder(p) => {
                    &&& strs_view(n.remote_expanded@) == if strs_view(m.remote_expanded@).contains(p) {
                        strs_view(without_str(m.remote_expanded@, p))
                    } else {
                        strs_view(m.remote_expanded@).push(p)
                    }
                    &&& no_empty(strs_view(n.remote_expanded@))
                    &&& n == (Model { remote_expanded: n.remote_expanded, ..m })
                },
                CursorView::File(_) => n == m,
            }
        } else {
            n == m
        },
        KeyCode::Char(' ') => !r.handled && r.effect is Nothing && if m.remote_cursor < picker_rows_of(m).len() {
            &&& n.remote_selected@ == selection_after(
                m.remote_files@,
                m.remote_selected@,
                picker_rows_of(m)[m.remote_cursor as int],
            )
            &&& n == (Model { remote_selected: n.remote_selected, ..m })
        } else {
            n == m
        },
        KeyCode::Char('a') => if m.is_loading {
            r.handled && r.effect is Nothing && n == m
        } else {
            &&& !r.handled
            &&& n.loading_label@ == "Cloning all from "@ + m.remote_url@ + "..."@
            &&& n == (Model { loading_label: n.loading_label, is_loading: true, mode: AppMode::Loading, ..m })
            &&& r.effect matches Effect::CloneAll { url, name } && url@ == m.remote_url@ && name@ == clone_name(m.remote_url@)
        },
        KeyCode::Char('d') => if m.is_loading {
            r.handled && r.effect is Nothing && n == m
        } else if m.remote_selected@.is_empty() {
            r.handled && r.effect is Nothing && toasted(n, "No files selected — Space to select, 'a' for all"@, ToastType::Warning)
                && n == (Model { toast: n.toast, ..m })
        } else {
            &&& !r.handled
            &&& r.effect matches Effect::Download { owner, repo, token, items } && {
                &&& owner@ == m.remote_owner@
                &&& repo@ == m.remote_repo@
                &&& token == m.config.github_token
                &&& items@ == selected_files(m.remote_files@, m.remote_selected@)
                &&& n.loading_label@ == "Downloading "@ + decimal(items@.len()) + " item(s)..."@
            }
            &&& n == (Model { loading_label: n.loading_label, is_loading: true, mode: AppMode::Loading, ..m })
        },
        _ => n == m && !r.handled && r.effect is Nothing,
    }
}

/// The listed entries whose positions are selected, in the listing's order.
pub open spec fn selected_files(files: Seq<RemoteFile>, sel: Set<usize>) -> Seq<RemoteFile>
    decreases files.len(),
{
    if files.len() == 0 {
        Seq::empty()
    } else {
        let prev = selected_files(files.drop_last(), sel);
        if sel.contains((files.len() - 1) as usize) {
            prev.push(files.last())
        } else {
            prev
        }
    }
}

/// The folder name a clone of `url` gets.
pub fn clone_name_of(url: &str) -> (r: String)
    ensures
        r@ == clone_name(url@),
{
    let cs = to_chars(url);
    let e = trim_end_char_bound(cs.as_slice(), 0, cs.len(), '/');
    proof { assert(cs@.subrange(0, cs@.len() as int) =~= cs@); }
    let mut head: Vec<char> = Vec::new();
    let mut i: usize = 0;
    while i < e
        invariant
            i <= e <= cs@.len(),
            head@ == cs@.subrange(0, i as int),
        decreases e - i,
    {
        head.push(cs[i]);
        proof { assert(cs@.subrange(0, i + 1) =~= cs@.subrange(0, i as int).push(cs@[i as int])); }
        i = i + 1;
    }
    let seg = last_component_exec(head.as_slice());
    trim_end_matches_str(seg.as_str(), ".git")
}

/// Removes every position of `t` from the selection.
fn unselect_all(sel: &mut std::collections::HashSet<usize>, t: &Vec<usize>)
    ensures
        final(sel)@ == old(sel)@.difference(t@.to_set()),
{
    broadcast use vstd::std_specs::hash::group_hash_axioms;
    let mut i: usize = 0;
    while i < t.len()
        invariant
            i <= t@.len(),
            sel@ == old(sel)@.difference(t@.take(i as int).to_set()),
        decreases t@.len() - i,
    {
        sel.remove(&t[i]);
        proof {
            assert(t@.take(i + 1) =~= t@.take(i as int).push(t@[i as int]));
            t@.take(i as int).lemma_push_to_set_commute(t@[i as int]);
            assert(sel@ =~= old(sel)@.difference(t@.take(i + 1).to_set()));
        }
        i = i + 1;
    }
    proof { assert(t@.take(t@.len() as int) =~= t@); }
}

/// Adds every position of `t` to the selection.
fn select_all(sel: &mut std::collections::HashSet<usize>, t: &Vec<usize>)
    ensures
        final(sel)@ == old(sel)@.union(t@.to_set()),
{
    broadcast use vstd::std_specs::hash::group_hash_axioms;
    let mut i: usize = 0;
    while i < t.len()
        invariant
            i <= t@.len(),
            sel@ == old(sel)@.union(t@.take(i as int).to_set()),
        decreases t@.len() - i,
    {
        sel.insert(t[i]);
        proof {
            assert(t@.take(i + 1) =~= t@.take(i as int).push(t@[i as int]));
            t@.take(i as int).lemma_push_to_set_commute(t@[i as int]);
            assert(sel@ =~= old(sel)@.union(t@.take(i + 1).to_set()));
        }
        i = i + 1;
    }
    proof { assert(t@.take(t@.len() as int) =~= t@); }
}

/// The positions of the entries at or below folder `p`.
fn folder_indices(files: &Vec<RemoteFile>, p: &str) -> (r: Vec<usize>)
    ensures
        r@.to_set() == folder_targets(files@, p@),
{
    let mut pre = String::from_str(p);
    push_str(&mut pre, "/");
    proof { reveal_strlit("/"); }
    let mut out: Vec<usize> = Vec::new();
    let mut i: usize = 0;
    while i < files.len()
        invariant
            i <= files@.len(),
            pre@ == p@ + "/"@,
            forall|y: usize| out@.contains(y) <==> (y < i && folder_targets(files@, p@).contains(y)),
        decreases files@.len() - i,
    {
        let ghost before0 = out@;
        let hit = str_eq(files[i].path.as_str(), p) || str_starts_with(files[i].path.as_str(), pre.as_str());
        if hit {
            let ghost before = out@;
            out.push(i);
            proof {
                assert forall|y: usize| out@.contains(y) <==> (before.contains(y) || y == i) by {
                    if out@.contains(y) {
                        let k = choose|k: int| 0 <= k < out@.len() && #[trigger] out@[k] == y;
                        if k < before.len() {
                            assert(before[k] == y);
                        }
                    }
                    if before.contains(y) {
                        let k = choose|k: int| 0 <= k < before.len() && #[trigger] before[k] == y;
                        assert(out@[k] == y);
                    }
                    if y == i {
                        assert(out@[before.len() as int] == y);
                    }
                }
            }
        }
        proof {
            assert forall|y: usize| #[trigger] out@.contains(y) <==> (y < i + 1 && folder_targets(files@, p@).contains(y)) by {
                assert(before0.contains(y) <==> (y < i && folder_targets(files@, p@).contains(y)));
                if hit {
                    assert(out@.contains(y) <==> (before0.contains(y) || y == i));
                } else {
                    assert(out@ == before0);
                }
                if y == i {
                    assert(folder_targets(files@, p@).contains(y) == hit);
                    if !hit {
                        assert(!before0.contains(y));
                    }
                }
            }
        }
        i = i + 1;
    }
    proof { assert(out@.to_set() =~= folder_targets(files@, p@)); }
    out
}

/// Whether every position of `t` is in `sel`.
fn all_in(t: &Vec<usize>, sel: &std::collections::HashSet<usize>) -> (r: bool)
    ensures
        r == t@.to_set().subset_of(sel@),
{
    broadcast use vstd::std_specs::hash::group_hash_axioms;
    let mut i: usize = 0;
    while i < t.len()
        invariant
            i <= t@.len(),
            forall|j: int| 0 <= j < i ==> sel@.contains(#[trigger] t@[j]),
        decreases t@.len() - i,
    {
        if !sel.contains(&t[i]) {
            proof { assert(t@.to_set().contains(t@[i as int])); }
            return false;
        }
        i = i + 1;
    }
    proof {
        assert forall|y: usize| t@.to_set().contains(y) implies sel@.contains(y) by {
            let k = choose|k: int| 0 <= k < t@.len() && #[trigger] t@[k] == y;
        }
    }
    true
}

/// The listed entries at the selected positions, in the listing's order.
fn selected_of(files: &Vec<RemoteFile>, sel: &std::collections::HashSet<usize>) -> (r: Vec<RemoteFile>)
    ensures
        r@ == selected_files(files@, sel@),
{
    broadcast use vstd::std_specs::hash::group_hash_axioms;
    let mut out: Vec<RemoteFile> = Vec::new();
    let mut i: usize = 0;
    while i < files.len()
        invariant
            i <= files@.len(),
            out@ == selected_files(files@.take(i as int), sel@),
        decreases files@.len() - i,
    {
        proof {
            assert(files@.take(i + 1).drop_last() =~= files@.take(i as int));
            assert(files@.take(i + 1).last() == files@[i as int]);
        }
        if sel.contains(&i) {
            out.push(files[i].clone());
        }
        i = i + 1;
    }
    proof { assert(files@.take(files@.len() as int) =~= files@); }
    out
}

impl RemotePickerContext {
    /// The name of the view.
    pub fn view_name(&self) -> (r: &'static str)
        ensures
            r@ == "remote_picker"@,
    {
        "remote_picker"
    }

    /// What the picker does with a key, as `picker_step` says: Esc or `q`
    /// go back to the URL box; Up/Down (`k`/`j`) move the cursor within
    /// the rows, scrolling a window of 25; Enter opens or closes the folder
    /// under the cursor; Space selects or unselects the row's entries; `a`
    /// clones the whole repository; `d` downloads the selection.
    pub fn handle_event(&self, key: KeyEvent, model: &mut Model) -> (r: Reaction)
        requires
            picker_key_ok(*old(model), key),
        ensures
            picker_step(*old(model), *final(model), key, r),
    {
        match key.code {
            KeyCode::Esc | KeyCode::Char('q') => {
                model.mode = AppMode::CloneInput;
                react(true)
            },
            KeyCode::Up | KeyCode::Char('k') => {
                if model.remote_cursor > 0 {
                    model.remote_cursor = model.remote_cursor - 1;
                    if model.remote_cursor < model.remote_scroll {
                        model.remote_scroll = model.remote_cursor;
                    }
                }
                react(false)
            },
            KeyCode::Down | KeyCode::Char('j') => {
                self.down(model);
                react(false)
            },
            KeyCode::Enter => {
                self.toggle_folder(model);
                react(false)
            },
            KeyCode::Char(' ') => {
                self.toggle_selection(model);
                react(false)
            },
            KeyCode::Char('a') => self.clone_all(model),
            KeyCode::Char('d') => self.download(model),
            _ => react(false),
        }
    }

    fn down(&self, model: &mut Model)
        requires
            no_empty(strs_view(old(model).remote_expanded@)),
        ensures
            picker_moves(*old(model), *final(model), KeyEvent { code: KeyCode::Down, ctrl: false }, react_spec(false)),
    {
        let len = tree_len(model.remote_files.as_slice(), model.remote_expanded.as_slice());
        if len > 0 && model.remote_cursor < len - 1 {
            model.remote_cursor = model.remote_cursor + 1;
            if model.remote_cursor >= model.remote_scroll && model.remote_cursor - model.remote_scroll >= 25 {
                model.remote_scroll = model.remote_cursor - 25 + 1;
            }
        }
    }

    fn toggle_folder(&self, model: &mut Model)
        requires
            picker_key_ok(*old(model), KeyEvent { code: KeyCode::Enter, ctrl: false }),
        ensures
            picker_step(*old(model), *final(model), KeyEvent { code: KeyCode::Enter, ctrl: false }, react_spec(false)),
    {
        let row = tree_cursor_path(model.remote_files.as_slice(), model.remote_expanded.as_slice(), model.remote_cursor);
        match row {
            Some(CursorItem::Folder(path)) => {
                if has_str(&model.remote_expanded, path.as_str()) {
                    proof { crate::model::lemma_without_str_no_empty(model.remote_expanded@, path@); }
                    model.remote_expanded = drop_str(&model.remote_expanded, path.as_str());
                } else {
                    proof {
                        let v = model.remote_expanded@;
                        assert forall|i: int| 0 <= i < strs_view(v.push(path)).len() implies #[trigger] strs_view(v.push(path))[i].len() > 0 by {
                            if i < v.len() {
                                assert(strs_view(v)[i].len() > 0);
                            }
                        }
                        assert(strs_view(v.push(path)) =~= strs_view(v).push(path@));
                    }
                    model.remote_expanded.push(path);
                }
            },
            _ => {},
        }
    }

    fn toggle_selection(&self, model: &mut Model)
        requires
            no_empty(strs_view(old(model).remote_expanded@)),
        ensures
            picker_step(*old(model), *final(model), KeyEvent { code: KeyCode::Char(' '), ctrl: false }, react_spec(false)),
    {
        let row = tree_cursor_path(model.remote_files.as_slice(), model.remote_expanded.as_slice(), model.remote_cursor);
        match row {
            Some(CursorItem::File(idx)) => {
                if model.remote_selected.contains(&idx) {
                    model.remote_selected.remove(&idx);
                } else {
                    model.remote_selected.insert(idx);
                }
            },
            Some(CursorItem::Folder(path)) => {
                let t = folder_indices(&model.remote_files, path.as_str());
                if t.len() > 0 {
                    proof { assert(t@.to_set().contains(t@[0])); }
                    if all_in(&t, &model.remote_selected) {
                        unselect_all(&mut model.remote_selected, &t);
                    } else {
                        select_all(&mut model.remote_selected, &t);
                    }
                } else {
                    proof { assert(folder_targets(model.remote_files@, path@) =~= Set::<usize>::empty()); }
                }
            },
            None => {},
        }
    }

    fn clone_all(&self, model: &mut Model) -> (r: Reaction)
        ensures
            picker_step(*old(model), *final(model), KeyEvent { code: KeyCode::Char('a'), ctrl: false }, r),
    {
        if model.is_loading {
            return react(true);
        }
        let mut label = String::from_str("Cloning all from ");
        push_str(&mut label, model.remote_url.as_str());
        push_str(&mut label, "...");
        model.loading_label = label;
        model.is_loading = true;
        model.mode = AppMode::Loading;
        let url = model.remote_url.clone();
        let name = clone_name_of(url.as_str());
        react_with(false, Effect::CloneAll { url, name })
    }

    fn download(&self, model: &mut Model) -> (r: Reaction)
        ensures
            picker_step(*old(model), *final(model), KeyEvent { code: KeyCode::Char('d'), ctrl: false }, r),
    {
        if model.is_loading {
            return react(true);
        }
        if model.remote_selected.is_empty() {
            model.show_toast(String::from_str("No files selected — Space to select, 'a' for all"), ToastType::Warning);
            return react(true);
        }
        let items = selected_of(&model.remote_files, &model.remote_selected);
        let mut label = String::from_str("Downloading ");
        push_decimal(&mut label, items.len() as u64);
        push_str(&mut label, " item(s)...");
        model.is_loading = true;
        model.loading_label = label;
        model.mode = AppMode::Loading;
        let owner = model.remote_owner.clone();
        let repo = model.remote_repo.clone();
        let token = copy_opt(&model.config.github_token);
        react_with(false, Effect::Download { owner, repo, token, items })
    }
}

/// A reaction with nothing to do outside.
pub open spec fn react_spec(handled: bool) -> Reaction {
    Reaction { handled, effect: Effect::Nothing }
}

/// The messages of a finished whole-repository clone.
pub open spec fn clone_all_text(name: Seq<char>, o: CloneOutcome) -> (Seq<char>, ToastType) {
    match o {
        CloneOutcome::Opened(_) => ("Cloned all: "@ + name, ToastType::Success),
        CloneOutcome::OpenFailed(e) => (e@, ToastType::Warning),
        CloneOutcome::Failed(err) => ("Clone all failed: "@ + trim(err@), ToastType::Error),
        _ => ("Clone all task failed or panicked"@, ToastType::Error),
    }
}

/// The messages of a finished download: how many items failed, or where
/// they went; or that the task was lost.
pub open spec fn download_text(repo: Seq<char>, errors: Option<usize>) -> (Seq<char>, ToastType) {
    match errors {
        Some(k) => if k > 0 {
            (decimal(k as nat) + " error(s) during download"@, ToastType::Warning)
        } else {
            ("Downloaded items to ~/swiftgit-repos/"@ + repo, ToastType::Success)
        },
        None => ("Download task failed or panicked"@, ToastType::Error),
    }
}

impl RemotePickerContext {
    /// Shows how cloning the whole repository ended: the loading state
    /// ends; an opened clone is shown with a toast of success, otherwise the
    /// dashboard comes back with the error. The caller reads the diff and
    /// recent commits of an opened repository afterwards.
    pub fn finish_clone_all(&self, model: &mut Model, name: &str, outcome: CloneOutcome)
        ensures
            toasted(*final(model), clone_all_text(name@, outcome).0, clone_all_text(name@, outcome).1),
            !final(model).is_loading,
            match outcome {
                CloneOutcome::Opened(o) => final(model).mode == AppMode::RepoView && final(model).repo == Some(o.repo)
                    && final(model).git_files == o.files && final(model).branch == o.branch,
                _ => *final(model) == (Model {
                    is_loading: false,
                    toast: final(model).toast,
                    mode: AppMode::Dashboard,
                    ..*old(model)
                }),
            },
    {
        let ghost o = outcome;
        model.is_loading = false;
        match outcome {
            CloneOutcome::Opened(opened) => {
                model.open_repo(opened.path, opened.repo, opened.branch, opened.files);
                let mut msg = String::from_str("Cloned all: ");
                push_str(&mut msg, name);
                proof { reveal_strlit("Cloned all: "); }
                model.show_toast(msg, ToastType::Success);
            },
            CloneOutcome::OpenFailed(e) => {
                model.mode = AppMode::Dashboard;
                model.show_toast(e, ToastType::Warning);
            },
            CloneOutcome::Failed(err) => {
                model.mode = AppMode::Dashboard;
                let mut msg = String::from_str("Clone all failed: ");
                let t = trim_str(err.as_str());
                push_str(&mut msg, t.as_str());
                proof { reveal_strlit("Clone all failed: "); }
                model.show_toast(msg, ToastType::Error);
            },
            _ => {
                model.mode = AppMode::Dashboard;
                model.show_toast(String::from_str("Clone all task failed or panicked"), ToastType::Error);
            },
        }
    }

    /// Shows how a download ended, given how many items failed (`None` when
    /// the task was lost): the loading state ends and the dashboard comes
    /// back with a toast.
    pub fn finish_download(&self, model: &mut Model, repo: &str, errors: Option<usize>)
        ensures
            toasted(*final(model), download_text(repo@, errors).0, download_text(repo@, errors).1),
            *final(model) == (Model {
                is_loading: false,
                toast: final(model).toast,
                mode: AppMode::Dashboard,
                ..*old(model)
            }),
    {
        model.is_loading = false;
        match errors {
            Some(k) => {
                if k > 0 {
                    let mut msg = String::new();
                    push_decimal(&mut msg, k as u64);
                    push_str(&mut msg, " error(s) during download");
                    proof {
                        reveal_strlit(" error(s) during download");
                        assert(msg@ =~= decimal(k as nat) + " error(s) during download"@);
                    }
                    model.show_toast(msg, ToastType::Warning);
                } else {
                    let mut msg = String::from_str("Downloaded items to ~/swiftgit-repos/");
                    push_str(&mut msg, repo);
                    proof { reveal_strlit("Downloaded items to ~/swiftgit-repos/"); }
                    model.show_toast(msg, ToastType::Success);
                }
            },
            None => {
                model.show_toast(String::from_str("Download task failed or panicked"), ToastType::Error);
            },
        }
        model.mode = AppMode::Dashboard;
    }
}


/// Space twice on a file row leaves the selection as it was; so does Space
/// twice on a folder whose entries were all selected or none of them.
pub proof fn lemma_select_twice(files: Seq<RemoteFile>, sel: Set<usize>, row: CursorView)
    requires
        row matches CursorView::Folder(p) ==> {
            let t = folder_targets(files, p);
            t.subset_of(sel) || t.disjoint(sel)
        },
    ensures
        selection_after(files, selection_after(files, sel, row), row) == sel,
{
    match row {
        CursorView::File(i) => {
            let x = #[verifier::truncate] (i as usize);
            if sel.contains(x) {
                assert(sel.remove(x).insert(x) =~= sel);
            } else {
                assert(sel.insert(x).remove(x) =~= sel);
            }
        },
        CursorView::Folder(p) => {
            let t = folder_targets(files, p);
            if t == Set::<usize>::empty() {
            } else if t.subset_of(sel) {
                let once = sel.difference(t);
                assert(exists|x: usize| t.contains(x)) by {
                    if !(exists|x: usize| t.contains(x)) {
                        assert(t =~= Set::<usize>::empty());
                    }
                }
                assert(!t.subset_of(once)) by {
                    let x = choose|x: usize| t.contains(x);
                    assert(!once.contains(x));
                }
                assert(once.union(t) =~= sel);
            } else {
                let once = sel.union(t);
                assert(t.subset_of(once));
                assert(once.difference(t) =~= sel);
            }
        },
    }
}

} // verus!
