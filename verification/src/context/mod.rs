//! The screens of the interface and what each does with a key. A screen
//! changes the model and names the outside work the key asks for; the
//! caller performs it and hands the result to the screen's `finish_*`
//! function.
pub mod repo;
pub mod remote_picker;
pub mod clone_input;
pub mod editor;
pub mod ssh_setup;
pub mod push_dialog;
pub mod folder_input;
pub mod auth;
pub mod dashboard;
pub mod deinit_confirm;
pub mod rebase;
pub mod recent_projects;
pub mod search;
pub mod settings;
pub mod help;

use vstd::prelude::*;
use crate::config::SwiftGitConfig;
use crate::events::{KeyCode, KeyEvent};
use crate::model::{AppMode, Model};
use crate::text::char_count;
use crate::ui::SettingsField;

verus! {

/// The screens, as the stack of open screens records them.
#[derive(Debug, Clone, Copy, PartialEq, Eq, Structural)]
pub enum ViewKind {
    Dashboard,
    FolderInput,
    CloneInput,
    Auth,
    RecentProjects,
    Repo,
    Editor,
    Loading,
    Settings,
    RemotePicker,
    PushDialog,
    SshSetup,
    DeinitConfirm,
    Rebase,
    Search,
    Help,
}

/// The name of a screen.
pub open spec fn view_name_of(v: ViewKind) -> Seq<char> {
    match v {
        ViewKind::Dashboard => "dashboard"@,
        ViewKind::FolderInput => "folder_input"@,
        ViewKind::CloneInput => "clone_input"@,
        ViewKind::Auth => "auth"@,
        ViewKind::RecentProjects => "recent_projects"@,
        ViewKind::Repo => "repo_view"@,
        ViewKind::Editor => "editor"@,
        ViewKind::Loading => "loading"@,
        ViewKind::Settings => "settings"@,
        ViewKind::RemotePicker => "remote_picker"@,
        ViewKind::PushDialog => "push_dialog"@,
        ViewKind::SshSetup => "ssh_setup"@,
        ViewKind::DeinitConfirm => "deinit_confirm"@,
        ViewKind::Rebase => "rebase"@,
        ViewKind::Search => "search"@,
        ViewKind::Help => "help"@,
    }
}

/// The screen that shows a mode: the push dialog shows the force-push
/// confirmation too.
pub open spec fn view_of_mode(mode: AppMode) -> ViewKind {
    match mode {
        AppMode::Dashboard => ViewKind::Dashboard,
        AppMode::FolderInput => ViewKind::FolderInput,
        AppMode::CloneInput => ViewKind::CloneInput,
        AppMode::Auth => ViewKind::Auth,
        AppMode::RecentProjects => ViewKind::RecentProjects,
        AppMode::RepoView => ViewKind::Repo,
        AppMode::Editor => ViewKind::Editor,
        AppMode::Loading => ViewKind::Loading,
        AppMode::Settings => ViewKind::Settings,
        AppMode::RemotePicker => ViewKind::RemotePicker,
        AppMode::PushDialog | AppMode::ForcePushConfirm => ViewKind::PushDialog,
        AppMode::SshSetup => ViewKind::SshSetup,
        AppMode::DeinitConfirm => ViewKind::DeinitConfirm,
        AppMode::Rebase => ViewKind::Rebase,
        AppMode::Search => ViewKind::Search,
        AppMode::Help => ViewKind::Help,
    }
}

impl ViewKind {
    /// The name of the screen.
    pub fn view_name(&self) -> (r: &'static str)
        ensures
            r@ == view_name_of(*self),
    {
        match self {
            ViewKind::Dashboard => "dashboard",
            ViewKind::FolderInput => "folder_input",
            ViewKind::CloneInput => "clone_input",
            ViewKind::Auth => "auth",
            ViewKind::RecentProjects => "recent_projects",
            ViewKind::Repo => "repo_view",
            ViewKind::Editor => "editor",
            ViewKind::Loading => "loading",
            ViewKind::Settings => "settings",
            ViewKind::RemotePicker => "remote_picker",
            ViewKind::PushDialog => "push_dialog",
            ViewKind::SshSetup => "ssh_setup",
            ViewKind::DeinitConfirm => "deinit_confirm",
            ViewKind::Rebase => "rebase",
            ViewKind::Search => "search",
            ViewKind::Help => "help",
        }
    }
}

/// The screen that shows a mode.
pub fn view_for_mode(mode: AppMode) -> (r: ViewKind)
    ensures
        r == view_of_mode(mode),
{
    match mode {
        AppMode::Dashboard => ViewKind::Dashboard,
        AppMode::FolderInput => ViewKind::FolderInput,
        AppMode::CloneInput => ViewKind::CloneInput,
        AppMode::Auth => ViewKind::Auth,
        AppMode::RecentProjects => ViewKind::RecentProjects,
        AppMode::RepoView => ViewKind::Repo,
        AppMode::Editor => ViewKind::Editor,
        AppMode::Loading => ViewKind::Loading,
        AppMode::Settings => ViewKind::Settings,
        AppMode::RemotePicker => ViewKind::RemotePicker,
        AppMode::PushDialog | AppMode::ForcePushConfirm => ViewKind::PushDialog,
        AppMode::SshSetup => ViewKind::SshSetup,
        AppMode::DeinitConfirm => ViewKind::DeinitConfirm,
        AppMode::Rebase => ViewKind::Rebase,
        AppMode::Search => ViewKind::Search,
        AppMode::Help => ViewKind::Help,
    }
}

/// The stack of open screens; the last one is shown and takes the keys.
#[derive(Debug)]
pub struct ContextStack {
    stack: Vec<ViewKind>,
}

impl View for ContextStack {
    type V = Seq<ViewKind>;

    closed spec fn view(&self) -> Seq<ViewKind> {
        self.stack@
    }
}

/// The stack with the screens above the topmost dashboard taken off (all
/// of them when there is no dashboard).
pub open spec fn down_to_dashboard(s: Seq<ViewKind>) -> Seq<ViewKind>
    decreases s.len(),
{
    if s.len() == 0 || s.last() == ViewKind::Dashboard {
        s
    } else {
        down_to_dashboard(s.drop_last())
    }
}

/// The stack once the screen of `mode` is brought up: nothing changes when
/// it is shown already; for the dashboard, the screens above the topmost
/// dashboard are closed; any other screen is opened on top.
pub open spec fn synced(s: Seq<ViewKind>, mode: AppMode) -> Seq<ViewKind> {
    let target = view_of_mode(mode);
    if s.len() > 0 && s.last() == target {
        s
    } else if target == ViewKind::Dashboard {
        down_to_dashboard(s)
    } else {
        s.push(target)
    }
}

impl ContextStack {
    /// An empty stack.
    pub fn new() -> (r: ContextStack)
        ensures
            r@ == Seq::<ViewKind>::empty(),
    {
        ContextStack { stack: Vec::new() }
    }

    /// Opens a screen on top.
    pub fn push(&mut self, v: ViewKind)
        ensures
            final(self)@ == old(self)@.push(v),
    {
        self.stack.push(v);
    }

    /// Closes the screen on top and gives it back (`None` when no screen is
    /// open).
    pub fn pop(&mut self) -> (r: Option<ViewKind>)
        ensures
            old(self)@.len() == 0 ==> r is None && final(self)@ == old(self)@,
            old(self)@.len() > 0 ==> r == Some(old(self)@.last()) && final(self)@ == old(self)@.drop_last(),
    {
        self.stack.pop()
    }

    /// The screen on top, if any.
    pub fn current(&self) -> (r: Option<ViewKind>)
        ensures
            r == if self@.len() == 0 { None } else { Some(self@.last()) },
    {
        let n = self.stack.len();
        if n == 0 {
            None
        } else {
            Some(self.stack[n - 1])
        }
    }

    /// Brings up the screen of a mode, as `synced` says.
    pub fn sync_to_mode(&mut self, mode: AppMode)
        ensures
            final(self)@ == synced(old(self)@, mode),
    {
        let target = view_for_mode(mode);
        match self.current() {
            Some(c) => {
                if c == target {
                    return;
                }
            },
            None => {},
        }
        if target == ViewKind::Dashboard {
            proof {
                let s = old(self)@;
                if s.len() > 0 && s.last() == ViewKind::Dashboard {
                    assert(down_to_dashboard(s) == s);
                }
            }
            loop
                invariant
                    down_to_dashboard(self@) == down_to_dashboard(old(self)@),
                    view_of_mode(mode) == ViewKind::Dashboard,
                    synced(old(self)@, mode) == down_to_dashboard(old(self)@),
                decreases self@.len(),
            {
                match self.current() {
                    Some(c) => {
                        if c == ViewKind::Dashboard {
                            return;
                        }
                    },
                    None => {
                        return;
                    },
                }
                let _ = self.pop();
            }
        } else {
            self.push(target);
        }
    }
}

/// After the screen of a mode is brought up, that screen is shown, unless
/// the mode is the dashboard and no dashboard was open, in which case no
/// screen is left.
pub proof fn lemma_sync_shows_mode(s: Seq<ViewKind>, mode: AppMode)
    ensures
        ({
            let t = synced(s, mode);
            if view_of_mode(mode) == ViewKind::Dashboard && !s.contains(ViewKind::Dashboard) {
                t.len() == 0
            } else {
                t.len() > 0 && t.last() == view_of_mode(mode)
            }
        }),
    decreases s.len(),
{
    lemma_down_to_dashboard(s);
}

/// Closing the screens above the topmost dashboard leaves that dashboard on
/// top, or nothing when there is none.
pub proof fn lemma_down_to_dashboard(s: Seq<ViewKind>)
    ensures
        s.contains(ViewKind::Dashboard) ==> down_to_dashboard(s).len() > 0 && down_to_dashboard(s).last() == ViewKind::Dashboard,
        !s.contains(ViewKind::Dashboard) ==> down_to_dashboard(s).len() == 0,
    decreases s.len(),
{
    if s.len() > 0 && s.last() != ViewKind::Dashboard {
        lemma_down_to_dashboard(s.drop_last());
        assert(s.contains(ViewKind::Dashboard) ==> s.drop_last().contains(ViewKind::Dashboard)) by {
            if s.contains(ViewKind::Dashboard) {
                let k = choose|k: int| 0 <= k < s.len() && #[trigger] s[k] == ViewKind::Dashboard;
                assert(s.drop_last()[k] == ViewKind::Dashboard);
            }
        }
        assert(s.drop_last().contains(ViewKind::Dashboard) ==> s.contains(ViewKind::Dashboard)) by {
            if s.drop_last().contains(ViewKind::Dashboard) {
                let k = choose|k: int| 0 <= k < s.drop_last().len() && #[trigger] s.drop_last()[k] == ViewKind::Dashboard;
                assert(s[k] == ViewKind::Dashboard);
            }
        }
    } else if s.len() > 0 {
        assert(s[s.len() - 1] == ViewKind::Dashboard);
    }
}

/// Closing the screen just opened gives it back and restores the stack.
pub proof fn lemma_push_then_pop(s: Seq<ViewKind>, v: ViewKind)
    ensures
        s.push(v).len() > 0,
        s.push(v).last() == v,
        s.push(v).drop_last() == s,
{
    assert(s.push(v).drop_last() =~= s);
}

// ── Keys handled before the screens ─────────────────────────────────────────

/// What a key comes to before the screens see it.
#[derive(Debug, Clone, Copy, PartialEq, Eq, Structural)]
pub enum GlobalOutcome {
    /// Ctrl+C or Ctrl+Q: the program ends.
    Quit,
    /// The key opened or closed the settings or the help.
    Handled,
    /// The key goes to the screen on top.
    PassOn,
}

/// The settings dialog as Ctrl+W opens it: the stored display name, user
/// name and token (empty when unset), the display name focused with the
/// cursor at its end, the token hidden.
pub open spec fn settings_opened(m: Model, n: Model) -> bool {
    &&& n.settings_dlg.display_name@ == crate::context::settings::opt_view(m.config.display_name).unwrap_or(Seq::empty())
    &&& n.settings_dlg.username@ == crate::context::settings::opt_view(m.config.username).unwrap_or(Seq::empty())
    &&& n.settings_dlg.token@ == crate::context::settings::opt_view(m.config.github_token).unwrap_or(Seq::empty())
    &&& n.settings_dlg.focused == SettingsField::DisplayName
    &&& n.settings_dlg.cursor == n.settings_dlg.display_name@.len()
    &&& !n.settings_dlg.show_token
    &&& n == (Model { settings_prev_mode: m.mode, settings_dlg: n.settings_dlg, mode: AppMode::Settings, ..m })
}

/// What the keys handled before the screens do, from `m` to `n`.
pub open spec fn global_step(m: Model, n: Model, key: KeyEvent, r: GlobalOutcome) -> bool {
    if key.ctrl && (key.code == KeyCode::Char('c') || key.code == KeyCode::Char('q')) {
        r == GlobalOutcome::Quit && n == m
    } else if key.ctrl && key.code == KeyCode::Char('w') {
        r == GlobalOutcome::Handled && if m.mode == AppMode::Settings {
            n == (Model { mode: m.settings_prev_mode, ..m })
        } else {
            settings_opened(m, n)
        }
    } else if key.code == KeyCode::Char('?') {
        r == GlobalOutcome::Handled && if m.mode == AppMode::Help {
            n == (Model { mode: m.help_prev_mode, ..m })
        } else {
            n == (Model { help_prev_mode: m.mode, mode: AppMode::Help, ..m })
        }
    } else {
        r == GlobalOutcome::PassOn && n == m
    }
}

/// A copy of an optional setting, empty when unset.
fn setting_text(o: &Option<String>) -> (r: String)
    ensures
        r@ == crate::context::settings::opt_view(*o).unwrap_or(Seq::empty()),
{
    match o {
        Some(s) => s.clone(),
        None => String::new(),
    }
}

/// The keys handled before the screens, as `global_step` says: Ctrl+C and
/// Ctrl+Q quit; Ctrl+W opens the settings (filled from the stored ones) or
/// closes them; `?` opens or closes the help.
pub fn global_key(key: KeyEvent, model: &mut Model) -> (r: GlobalOutcome)
    ensures
        global_step(*old(model), *final(model), key, r),
{
    if key.ctrl && (key.code == KeyCode::Char('c') || key.code == KeyCode::Char('q')) {
        return GlobalOutcome::Quit;
    }
    if key.ctrl && key.code == KeyCode::Char('w') {
        if model.mode == AppMode::Settings {
            model.mode = model.settings_prev_mode;
        } else {
            model.settings_prev_mode = model.mode;
            model.settings_dlg.display_name = setting_text(&model.config.display_name);
            model.settings_dlg.username = setting_text(&model.config.username);
            model.settings_dlg.token = setting_text(&model.config.github_token);
            model.settings_dlg.focused = SettingsField::DisplayName;
            model.settings_dlg.cursor = char_count(model.settings_dlg.display_name.as_str());
            model.settings_dlg.show_token = false;
            model.mode = AppMode::Settings;
        }
        return GlobalOutcome::Handled;
    }
    if key.code == KeyCode::Char('?') {
        if model.mode == AppMode::Help {
            model.mode = model.help_prev_mode;
        } else {
            model.help_prev_mode = model.mode;
            model.mode = AppMode::Help;
        }
        return GlobalOutcome::Handled;
    }
    GlobalOutcome::PassOn
}

/// Pressing Ctrl+W twice, or `?` twice, comes back to the screen it
/// started from.
pub proof fn lemma_overlay_toggle_returns(m: Model, n1: Model, n2: Model, key: KeyEvent, r1: GlobalOutcome, r2: GlobalOutcome)
    requires
        key.ctrl && key.code == KeyCode::Char('w') && m.mode != AppMode::Settings
            || key.code == KeyCode::Char('?') && !(key.ctrl && key.code == KeyCode::Char('w')) && m.mode != AppMode::Help,
        global_step(m, n1, key, r1),
        global_step(n1, n2, key, r2),
    ensures
        n2.mode == m.mode,
{
}

/// The screen the program starts on: the SSH setup when no key was added
/// and none is found, else the sign-in when no token is stored, else the
/// dashboard.
pub fn initial_mode(config: &SwiftGitConfig, key_found: bool) -> (r: AppMode)
    ensures
        r == if !config.ssh_key_added && !key_found {
            AppMode::SshSetup
        } else if config.github_token is None {
            AppMode::Auth
        } else {
            AppMode::Dashboard
        },
{
    if !config.ssh_key_added && !key_found {
        AppMode::SshSetup
    } else if config.github_token.is_none() {
        AppMode::Auth
    } else {
        AppMode::Dashboard
    }
}

/// Counts a drawn frame, wrapping round.
pub fn tick(model: &mut Model)
    ensures
        *final(model) == (Model {
            frame_count: if old(model).frame_count == u64::MAX { 0 } else { (old(model).frame_count + 1) as u64 },
            ..*old(model)
        }),
{
    model.frame_count = if model.frame_count == u64::MAX {
        0
    } else {
        model.frame_count + 1
    };
}

} // verus!
