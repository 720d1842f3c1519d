use std::collections::HashSet;
use swiftgit::config::SwiftGitConfig;
use swiftgit::context::dashboard::DashboardContext;
use swiftgit::context::editor::EditorContext;
use swiftgit::context::push_dialog::PushDialogContext;
use swiftgit::context::rebase::RebaseContext;
use swiftgit::context::recent_projects::RecentProjectsContext;
use swiftgit::context::remote_picker::{clone_name_of, RemotePickerContext};
use swiftgit::context::repo::RepoContext;
use swiftgit::context::search::SearchContext;
use swiftgit::context::settings::SettingsContext;
use swiftgit::context::clone_input::CloneInputContext;
use swiftgit::context::folder_input::FolderInputContext;
use swiftgit::context::auth::AuthContext;
use swiftgit::context::ssh_setup::SshSetupContext;
use swiftgit::context::{global_key, initial_mode, view_for_mode, ContextStack, GlobalOutcome, ViewKind};
use swiftgit::events::{CloneOutcome, Effect, KeyCode, KeyEvent};
use swiftgit::git::{FileStatus, GitFile, GitRepo, RebaseCommit, RemoteFile};
use swiftgit::model::{AppMode, Model, ToastType};
use swiftgit::ui::SshSetupStep;

fn key(code: KeyCode) -> KeyEvent {
    KeyEvent { code, ctrl: false }
}

fn ctrl(c: char) -> KeyEvent {
    KeyEvent { code: KeyCode::Char(c), ctrl: true }
}

fn repo_model(files: Vec<GitFile>) -> Model {
    let mut m = Model::new(SwiftGitConfig::new());
    let repo = GitRepo { root: "/tmp/demo".to_string() };
    m.open_repo("/tmp/demo".to_string(), repo, "main".to_string(), files);
    m
}

fn remote(path: &str, kind: &str) -> RemoteFile {
    RemoteFile { path: path.to_string(), kind: kind.to_string(), size: Some(10), sha: String::new(), url: String::new() }
}

#[test]
fn tab_cycles_hunks_and_back_tab_returns() {
    let mut m = repo_model(vec![GitFile { path: "a.rs".to_string(), status: FileStatus::Modified }]);
    m.diff_struct = GitRepo::parse_diff("@@ -1 +1 @@\n-a\n+b\n@@ -5 +5 @@\n-c\n+d\n@@ -9 +9 @@\n");
    let ctx = RepoContext;
    ctx.handle_event(key(KeyCode::Tab), &mut m);
    assert_eq!(m.hunk_cursor, Some(0));
    ctx.handle_event(key(KeyCode::Char('n')), &mut m);
    ctx.handle_event(key(KeyCode::Tab), &mut m);
    assert_eq!(m.hunk_cursor, Some(2));
    ctx.handle_event(key(KeyCode::Tab), &mut m);
    assert_eq!(m.hunk_cursor, Some(0));
    ctx.handle_event(key(KeyCode::BackTab), &mut m);
    assert_eq!(m.hunk_cursor, Some(2));
    ctx.handle_event(key(KeyCode::Char('p')), &mut m);
    assert_eq!(m.hunk_cursor, Some(1));
}

#[test]
fn p_without_a_hunk_opens_the_push_dialog() {
    let mut m = repo_model(vec![GitFile { path: "a.rs".to_string(), status: FileStatus::Modified }]);
    let r = RepoContext.handle_event(key(KeyCode::Char('p')), &mut m);
    assert!(!r.handled);
    assert_eq!(m.mode, AppMode::PushDialog);
}

#[test]
fn space_on_a_hunk_applies_it() {
    let mut m = repo_model(vec![GitFile { path: "a.rs".to_string(), status: FileStatus::Staged }]);
    m.diff_struct = GitRepo::parse_diff("@@ -1 +1 @@\n-a\n+b\n");
    m.hunk_cursor = Some(0);
    let r = RepoContext.handle_event(key(KeyCode::Char(' ')), &mut m);
    match r.effect {
        Effect::ApplyHunk { path, number, unstage, .. } => {
            assert_eq!(path, "a.rs");
            assert_eq!(number, 0);
            assert!(unstage);
        }
        _ => panic!("unexpected effect"),
    }
    RepoContext.finish_hunk(&mut m, 0, true, Ok(()));
    assert_eq!(m.toast.as_ref().unwrap().message, "Hunk 1 unstaged");
}

#[test]
fn commit_box_needs_staged_files_and_a_message() {
    let mut m = repo_model(vec![GitFile { path: "a.rs".to_string(), status: FileStatus::Modified }]);
    RepoContext.handle_event(key(KeyCode::Char('c')), &mut m);
    assert!(!m.commit_mode);
    assert_eq!(m.toast.as_ref().unwrap().kind, ToastType::Warning);

    let mut m = repo_model(vec![GitFile { path: "a.rs".to_string(), status: FileStatus::Staged }]);
    let r = RepoContext.handle_event(key(KeyCode::Char('c')), &mut m);
    assert!(m.commit_mode);
    assert!(matches!(r.effect, Effect::LoadCommitHistory { count: 5 }));
    RepoContext.handle_event(key(KeyCode::Enter), &mut m);
    assert_eq!(m.toast.as_ref().unwrap().message, "Commit message cannot be empty");
    for c in " fix bug ".chars() {
        RepoContext.handle_event(key(KeyCode::Char(c)), &mut m);
    }
    RepoContext.handle_event(key(KeyCode::Backspace), &mut m);
    let r = RepoContext.handle_event(key(KeyCode::Enter), &mut m);
    match r.effect {
        Effect::Commit { message } => assert_eq!(message, "fix bug"),
        _ => panic!("unexpected effect"),
    }
    let e = RepoContext.finish_commit(&mut m, Ok("[main 1a2b] fix bug\n 1 file changed".to_string()));
    assert!(matches!(e, Effect::RefreshStatus));
    assert!(!m.commit_mode);
    assert_eq!(m.toast.as_ref().unwrap().message, "✅ [main 1a2b] fix bug");
}

#[test]
fn pull_reports_up_to_date() {
    let mut m = repo_model(vec![]);
    let r = RepoContext.handle_event(key(KeyCode::Char('P')), &mut m);
    assert!(m.is_loading);
    assert!(matches!(r.effect, Effect::Pull { .. }));
    let again = RepoContext.handle_event(key(KeyCode::Char('P')), &mut m);
    assert!(again.handled);
    RepoContext.finish_pull(&mut m, Some("Already up to date.".to_string()));
    assert!(!m.is_loading);
    assert_eq!(m.toast.as_ref().unwrap().message, "✅ Already up-to-date");
    RepoContext.finish_pull(&mut m, None);
    assert_eq!(m.status_msg, "❌ Pull failed");
}

#[test]
fn editor_split_and_join() {
    let mut m = repo_model(vec![]);
    m.editor_open("a.rs".to_string(), Ok("hello world".to_string()));
    m.editor_cursor_col = 5;
    EditorContext.handle_event(key(KeyCode::Enter), &mut m);
    assert_eq!(m.editor_lines, vec!["hello".to_string(), " world".to_string()]);
    assert_eq!((m.editor_cursor_line, m.editor_cursor_col), (1, 0));
    EditorContext.handle_event(key(KeyCode::Backspace), &mut m);
    assert_eq!(m.editor_lines, vec!["hello world".to_string()]);
    assert_eq!((m.editor_cursor_line, m.editor_cursor_col), (0, 5));
    EditorContext.handle_event(key(KeyCode::Tab), &mut m);
    assert_eq!(m.editor_lines[0], "hello     world");
    EditorContext.handle_event(key(KeyCode::End), &mut m);
    assert_eq!(m.editor_cursor_col, 15);
    EditorContext.handle_event(key(KeyCode::Delete), &mut m);
    assert!(m.editor_modified);
    let r = EditorContext.handle_event(ctrl('q'), &mut m);
    assert!(r.handled);
    assert_eq!(m.mode, AppMode::Editor);
    let r = EditorContext.handle_event(ctrl('s'), &mut m);
    match r.effect {
        Effect::SaveEditor { path, content } => {
            assert_eq!(path, "a.rs");
            assert_eq!(content, "hello     world");
        }
        _ => panic!("unexpected effect"),
    }
    EditorContext.finish_editor_save(&mut m, Ok(()));
    assert!(!m.editor_modified);
    assert_eq!(m.toast.as_ref().unwrap().message, "✅ Saved: a.rs");
    EditorContext.handle_event(key(KeyCode::Esc), &mut m);
    assert_eq!(m.mode, AppMode::RepoView);
}

#[test]
fn picker_selects_and_downloads() {
    let mut m = Model::new(SwiftGitConfig::new());
    m.remote_files = vec![remote("README.md", "file"), remote("src", "dir"), remote("src/lib.rs", "file")];
    m.remote_owner = "o".to_string();
    m.remote_repo = "r".to_string();
    let ctx = RemotePickerContext;
    let r = ctx.handle_event(key(KeyCode::Char('d')), &mut m);
    assert!(r.handled);
    assert_eq!(m.toast.as_ref().unwrap().message, "No files selected — Space to select, 'a' for all");
    ctx.handle_event(key(KeyCode::Char(' ')), &mut m);
    assert_eq!(m.remote_selected, HashSet::from([0]));
    ctx.handle_event(key(KeyCode::Char(' ')), &mut m);
    assert!(m.remote_selected.is_empty());
    ctx.handle_event(key(KeyCode::Down), &mut m);
    assert_eq!(m.remote_cursor, 1);
    ctx.handle_event(key(KeyCode::Down), &mut m);
    assert_eq!(m.remote_cursor, 2);
    ctx.handle_event(key(KeyCode::Char(' ')), &mut m);
    assert_eq!(m.remote_selected, HashSet::from([1, 2]));
    let r = ctx.handle_event(key(KeyCode::Char('d')), &mut m);
    assert_eq!(m.loading_label, "Downloading 2 item(s)...");
    match r.effect {
        Effect::Download { owner, repo, items, .. } => {
            assert_eq!(owner, "o");
            assert_eq!(repo, "r");
            assert_eq!(items.len(), 2);
        }
        _ => panic!("unexpected effect"),
    }
    ctx.finish_download(&mut m, "r", Some(1));
    assert_eq!(m.toast.as_ref().unwrap().message, "1 error(s) during download");
    assert_eq!(m.mode, AppMode::Dashboard);
}

#[test]
fn picker_folders_open_and_close() {
    let mut m = Model::new(SwiftGitConfig::new());
    m.remote_files = vec![remote("docs/a.md", "file"), remote("docs/b.md", "file")];
    let ctx = RemotePickerContext;
    ctx.handle_event(key(KeyCode::Enter), &mut m);
    assert_eq!(m.remote_expanded, vec!["docs".to_string()]);
    ctx.handle_event(key(KeyCode::Enter), &mut m);
    assert!(m.remote_expanded.is_empty());
}

#[test]
fn clone_names_come_from_urls() {
    assert_eq!(clone_name_of("https://gitlab.com/group/proj.git/"), "proj");
    assert_eq!(clone_name_of("git@host:me/tool"), "tool");
}

#[test]
fn clone_box_routes_github_and_other_urls() {
    let mut m = Model::new(SwiftGitConfig::new());
    CloneInputContext.handle_event(ctrl('g'), &mut m);
    assert_eq!(m.text_input, "https://github.com/");
    assert_eq!(m.text_cursor, 19);
    for c in "o/r".chars() {
        CloneInputContext.handle_event(key(KeyCode::Char(c)), &mut m);
    }
    let r = CloneInputContext.handle_event(key(KeyCode::Enter), &mut m);
    assert_eq!(m.loading_label, "Fetching file list for o/r...");
    assert!(matches!(r.effect, Effect::FetchRemote { .. }));
    CloneInputContext.finish_fetch_remote(&mut m, Some(Err("404".to_string())));
    assert_eq!(m.mode, AppMode::CloneInput);
    assert_eq!(m.toast.as_ref().unwrap().message, "Failed to fetch files: 404");

    let mut m = Model::new(SwiftGitConfig::new());
    m.text_input = "https://gitlab.com/g/p.git".to_string();
    let r = CloneInputContext.handle_event(key(KeyCode::Enter), &mut m);
    match r.effect {
        Effect::Clone { name, .. } => assert_eq!(name, "p"),
        _ => panic!("unexpected effect"),
    }
    CloneInputContext.finish_clone(&mut m, "p", false, CloneOutcome::Failed("fatal: no\n".to_string()));
    assert_eq!(m.toast.as_ref().unwrap().message, "Clone failed: fatal: no");
    assert_eq!(m.mode, AppMode::Dashboard);
}

#[test]
fn folder_box_cycles_suggestions() {
    let mut m = Model::new(SwiftGitConfig::new());
    let r = FolderInputContext.handle_event(key(KeyCode::Tab), &mut m);
    assert!(matches!(r.effect, Effect::DirSuggestions { then_next: true, .. }));
    m.update_dir_suggestions(vec!["/a".to_string(), "/b".to_string()]);
    FolderInputContext.next_suggestion(&mut m);
    assert_eq!(m.text_input, "/a");
    FolderInputContext.handle_event(key(KeyCode::Down), &mut m);
    assert_eq!(m.text_input, "/b");
    assert_eq!(m.text_cursor, 2);
    FolderInputContext.handle_event(key(KeyCode::Up), &mut m);
    assert_eq!(m.text_input, "/a");
    m.text_input = "   ".to_string();
    FolderInputContext.handle_event(key(KeyCode::Enter), &mut m);
    assert_eq!(m.toast.as_ref().unwrap().message, "Please enter a path");
}

#[test]
fn sign_in_stores_token_and_user() {
    let mut m = Model::new(SwiftGitConfig::new());
    m.mode = AppMode::Auth;
    for c in " ghp_x ".chars() {
        AuthContext.handle_event(key(KeyCode::Char(c)), &mut m);
    }
    let r = AuthContext.handle_event(key(KeyCode::Enter), &mut m);
    match r.effect {
        Effect::ValidateToken { candidate } => assert_eq!(candidate, "ghp_x"),
        _ => panic!("unexpected effect"),
    }
    assert!(m.is_validating);
    AuthContext.finish_token_check(&mut m, "ghp_x".to_string(), Ok("octo".to_string()));
    assert_eq!(m.auth_status, "Welcome, octo!");
    assert_eq!(m.config.github_token.as_deref(), Some("ghp_x"));
    assert_eq!(m.mode, AppMode::Dashboard);
    AuthContext.finish_token_check(&mut m, "bad".to_string(), Err("Invalid token".to_string()));
    assert_eq!(m.auth_status, "Invalid token: Invalid token");
}

#[test]
fn dashboard_menu() {
    let mut m = Model::new(SwiftGitConfig::new());
    DashboardContext.handle_event(key(KeyCode::Down), &mut m);
    DashboardContext.handle_event(key(KeyCode::Down), &mut m);
    DashboardContext.handle_event(key(KeyCode::Down), &mut m);
    assert_eq!(m.dashboard_cursor, 2);
    DashboardContext.handle_event(key(KeyCode::Enter), &mut m);
    assert_eq!(m.toast.as_ref().unwrap().message, "No recent projects yet");
    DashboardContext.handle_event(key(KeyCode::Up), &mut m);
    DashboardContext.handle_event(key(KeyCode::Enter), &mut m);
    assert_eq!(m.mode, AppMode::CloneInput);
}

#[test]
fn recent_projects_forget_one_or_all() {
    let mut m = Model::new(SwiftGitConfig::new());
    m.config.add_recent_project("/a".to_string(), "a".to_string());
    m.config.add_recent_project("/b".to_string(), "b".to_string());
    m.mode = AppMode::RecentProjects;
    RecentProjectsContext.handle_event(key(KeyCode::Down), &mut m);
    assert_eq!(m.recent_projects_cursor, 1);
    let r = RecentProjectsContext.handle_event(key(KeyCode::Char('d')), &mut m);
    assert!(matches!(r.effect, Effect::SaveConfig));
    assert_eq!(m.config.recent_projects.len(), 1);
    assert_eq!(m.recent_projects_cursor, 0);
    RecentProjectsContext.handle_event(key(KeyCode::Char('C')), &mut m);
    assert!(m.config.recent_projects.is_empty());
    assert_eq!(m.mode, AppMode::Dashboard);
}

#[test]
fn rebase_moves_commits() {
    let mut m = Model::new(SwiftGitConfig::new());
    m.rebase_commits = vec![
        RebaseCommit { sha: "1".to_string(), action: "pick".to_string(), message: "a".to_string() },
        RebaseCommit { sha: "2".to_string(), action: "pick".to_string(), message: "b".to_string() },
    ];
    RebaseContext.handle_event(KeyEvent { code: KeyCode::Down, ctrl: true }, &mut m);
    assert_eq!(m.rebase_commits[0].sha, "2");
    assert_eq!(m.rebase_cursor, 1);
    RebaseContext.handle_event(key(KeyCode::Char('d')), &mut m);
    assert_eq!(m.rebase_commits[1].action, "drop");
    RebaseContext.handle_event(KeyEvent { code: KeyCode::Up, ctrl: true }, &mut m);
    assert_eq!(m.rebase_commits[0].sha, "1");
    assert_eq!(m.rebase_cursor, 0);
}

#[test]
fn search_filters_as_you_type() {
    let mut m = repo_model(vec![
        GitFile { path: "alpha.rs".to_string(), status: FileStatus::Clean },
        GitFile { path: "beta.rs".to_string(), status: FileStatus::Clean },
    ]);
    m.mode = AppMode::Search;
    SearchContext.handle_event(key(KeyCode::Char('B')), &mut m);
    assert_eq!(m.display_items.len(), 1);
    SearchContext.handle_event(key(KeyCode::Backspace), &mut m);
    assert_eq!(m.display_items.len(), 2);
    SearchContext.handle_event(key(KeyCode::Char('z')), &mut m);
    assert_eq!(m.display_items.len(), 0);
    SearchContext.handle_event(key(KeyCode::Esc), &mut m);
    assert_eq!(m.filter, "");
    assert_eq!(m.mode, AppMode::RepoView);
}

#[test]
fn settings_open_edit_and_save() {
    let mut m = Model::new(SwiftGitConfig::new());
    m.config.username = Some("me".to_string());
    assert_eq!(global_key(ctrl('w'), &mut m), GlobalOutcome::Handled);
    assert_eq!(m.mode, AppMode::Settings);
    assert_eq!(m.settings_dlg.display_name, "");
    SettingsContext.handle_event(key(KeyCode::Tab), &mut m);
    assert_eq!(m.settings_dlg.cursor, 2);
    SettingsContext.handle_event(key(KeyCode::Char('!')), &mut m);
    SettingsContext.handle_event(key(KeyCode::Tab), &mut m);
    for c in "  tok  ".chars() {
        SettingsContext.handle_event(key(KeyCode::Char(c)), &mut m);
    }
    let r = SettingsContext.handle_event(key(KeyCode::Enter), &mut m);
    assert!(matches!(r.effect, Effect::SaveConfig));
    assert_eq!(m.config.username.as_deref(), Some("me!"));
    assert_eq!(m.config.github_token.as_deref(), Some("tok"));
    assert_eq!(m.config.display_name, None);
    assert_eq!(m.mode, AppMode::Dashboard);
}

#[test]
fn global_keys() {
    let mut m = Model::new(SwiftGitConfig::new());
    assert_eq!(global_key(ctrl('q'), &mut m), GlobalOutcome::Quit);
    assert_eq!(global_key(key(KeyCode::Char('?')), &mut m), GlobalOutcome::Handled);
    assert_eq!(m.mode, AppMode::Help);
    assert_eq!(global_key(key(KeyCode::Char('?')), &mut m), GlobalOutcome::Handled);
    assert_eq!(m.mode, AppMode::Dashboard);
    assert_eq!(global_key(key(KeyCode::Char('x')), &mut m), GlobalOutcome::PassOn);
}

#[test]
fn stack_follows_mode() {
    let mut s = ContextStack::new();
    s.push(ViewKind::Dashboard);
    s.sync_to_mode(AppMode::RepoView);
    s.sync_to_mode(AppMode::Editor);
    assert_eq!(s.current(), Some(ViewKind::Editor));
    s.sync_to_mode(AppMode::Dashboard);
    assert_eq!(s.current(), Some(ViewKind::Dashboard));
    assert_eq!(s.pop(), Some(ViewKind::Dashboard));
    assert_eq!(s.pop(), None);
    assert_eq!(view_for_mode(AppMode::ForcePushConfirm), ViewKind::PushDialog);
    assert_eq!(ViewKind::Repo.view_name(), "repo_view");
}

#[test]
fn start_screen() {
    let mut c = SwiftGitConfig::new();
    assert_eq!(initial_mode(&c, false), AppMode::SshSetup);
    assert_eq!(initial_mode(&c, true), AppMode::Auth);
    c.github_token = Some("t".to_string());
    assert_eq!(initial_mode(&c, true), AppMode::Dashboard);
}

#[test]
fn push_flow_with_rejection() {
    let mut m = repo_model(vec![]);
    m.mode = AppMode::PushDialog;
    let r = PushDialogContext.handle_event(key(KeyCode::Enter), &mut m);
    assert!(matches!(r.effect, Effect::Nothing));
    assert_eq!(m.push_dlg.status_msg, "❌ Repo name is required");
    for c in "proj".chars() {
        PushDialogContext.handle_event(key(KeyCode::Char(c)), &mut m);
    }
    let r = PushDialogContext.handle_event(key(KeyCode::Enter), &mut m);
    assert_eq!(m.push_dlg.status_msg, "❌ No GitHub token");
    assert!(matches!(r.effect, Effect::Nothing));
    m.config.github_token = Some("tok".to_string());
    let r = PushDialogContext.handle_event(key(KeyCode::Enter), &mut m);
    assert!(m.is_loading);
    match r.effect {
        Effect::Push { repo_name, branch, force, .. } => {
            assert_eq!(repo_name, "proj");
            assert_eq!(branch, "main");
            assert!(!force);
        }
        _ => panic!("unexpected effect"),
    }
    PushDialogContext.finish_push(&mut m, "me", "proj", false, Some(Err("! [rejected] (fetch first)".to_string())));
    assert_eq!(m.mode, AppMode::ForcePushConfirm);
    PushDialogContext.handle_event(key(KeyCode::Right), &mut m);
    assert_eq!(m.force_push_confirm_cursor, 1);
    let r = PushDialogContext.handle_event(key(KeyCode::Enter), &mut m);
    assert!(m.push_dlg.force_push);
    assert!(matches!(r.effect, Effect::Push { force: true, .. }));
    PushDialogContext.finish_push(&mut m, "me", "proj", true, Some(Ok("To github.com:me/proj".to_string())));
    assert_eq!(m.toast.as_ref().unwrap().message, "✅ Pushed to me/proj!");
    assert_eq!(m.mode, AppMode::RepoView);
}

#[test]
fn ssh_setup_steps() {
    let mut m = Model::new(SwiftGitConfig::new());
    let r = SshSetupContext.handle_event(key(KeyCode::Enter), &mut m);
    assert!(matches!(r.effect, Effect::DetectSsh));
    SshSetupContext.finish_ssh_detect(&mut m, swiftgit::auth::SshStatus::NoKey);
    assert_eq!(m.ssh_step, SshSetupStep::NeedGenerate);
    let r = SshSetupContext.handle_event(key(KeyCode::Enter), &mut m);
    match r.effect {
        Effect::GenerateSshKey { email } => assert_eq!(email, "swiftgit@local"),
        _ => panic!("unexpected effect"),
    }
    SshSetupContext.finish_ssh_generate(&mut m, Ok("ssh-ed25519 K".to_string()));
    assert_eq!(m.ssh_step, SshSetupStep::ShowPubkey { pubkey: "ssh-ed25519 K".to_string(), auto_added: false });
    SshSetupContext.handle_event(key(KeyCode::Enter), &mut m);
    assert_eq!(m.ssh_step, SshSetupStep::Testing);
    let e = SshSetupContext.finish_ssh_test(&mut m, Ok("octo".to_string()));
    assert!(matches!(e, Effect::SaveConfig));
    assert!(m.config.ssh_key_added);
    SshSetupContext.handle_event(key(KeyCode::Esc), &mut m);
    assert_eq!(m.mode, AppMode::Auth);
}
