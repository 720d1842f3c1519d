use swiftgit::auth::{detect_ssh_status, parse_github_url, to_ssh_url, validate_github_token, validate_pat, SshStatus};
use swiftgit::config::SwiftGitConfig;
use swiftgit::git::{FileStatus, GitFile, GitRepo};
use swiftgit::model::{AppMode, Model};
use swiftgit::tree::{build_display_items, DisplayItem};
use swiftgit::ui::{file_icon, is_keyword, is_type, spinner_char, PushDialogState, PushField, SettingsDialogState};

fn file(p: &str, s: FileStatus) -> GitFile {
    GitFile { path: p.to_string(), status: s }
}

fn repo_model(files: Vec<GitFile>) -> Model {
    let mut m = Model::new(SwiftGitConfig::new());
    let repo = GitRepo { root: "/tmp/demo".to_string() };
    m.open_repo("/tmp/demo".to_string(), repo, "main".to_string(), files);
    m
}

#[test]
fn tree_shows_folders_then_files() {
    let files = vec![file("src/a.rs", FileStatus::Modified), file("src/ui/b.rs", FileStatus::Clean), file("README.md", FileStatus::Clean)];
    let items = build_display_items(&files, &[]);
    assert_eq!(items.len(), 2);
    match &items[0] {
        DisplayItem::FolderHeader { path, count, expanded, depth } => {
            assert_eq!(path, "src");
            assert_eq!(*count, 2);
            assert!(!*expanded);
            assert_eq!(*depth, 0);
        }
        _ => panic!("folder expected"),
    }
    assert_eq!(items[1].file_idx(), Some(2));
}

#[test]
fn open_folders_show_their_rows() {
    let files = vec![file("src/a.rs", FileStatus::Modified), file("src/ui/b.rs", FileStatus::Clean), file("README.md", FileStatus::Clean)];
    let items = build_display_items(&files, &["src".to_string()]);
    assert_eq!(items.len(), 4);
    match &items[1] {
        DisplayItem::FolderHeader { path, count, depth, .. } => {
            assert_eq!(path, "src/ui");
            assert_eq!(*count, 1);
            assert_eq!(*depth, 1);
        }
        _ => panic!("folder expected"),
    }
    assert!(matches!(items[2], DisplayItem::FileEntry { file_idx: 0, depth: 1 }));
    assert!(matches!(items[3], DisplayItem::FileEntry { file_idx: 2, depth: 0 }));
}

#[test]
fn opening_a_repo_records_it_and_shows_tree() {
    let m = repo_model(vec![file("a.rs", FileStatus::Modified)]);
    assert_eq!(m.mode, AppMode::RepoView);
    assert_eq!(m.config.recent_projects.len(), 1);
    assert_eq!(m.config.recent_projects[0].name, "demo");
    assert_eq!(m.display_items.len(), 1);
    assert_eq!(m.current_file().unwrap().path, "a.rs");
}

#[test]
fn recent_projects_keep_newest_first_and_no_duplicates() {
    let mut c = SwiftGitConfig::new();
    c.add_recent_project("/a".to_string(), "a".to_string());
    c.add_recent_project("/b".to_string(), "b".to_string());
    c.add_recent_project("/a".to_string(), "a2".to_string());
    assert_eq!(c.recent_projects.len(), 2);
    assert_eq!(c.recent_projects[0].path, "/a");
    assert_eq!(c.recent_projects[0].name, "a2");
    assert_eq!(c.recent_projects[1].path, "/b");
    for i in 0..12 {
        c.add_recent_project(format!("/p{}", i), "p".to_string());
    }
    assert_eq!(c.recent_projects.len(), 10);
    assert_eq!(c.recent_projects[0].path, "/p11");
}

#[test]
fn cursor_moves_and_scrolls() {
    let files: Vec<GitFile> = (0..30).map(|i| file(&format!("f{:02}.rs", i), FileStatus::Clean)).collect();
    let mut m = repo_model(files);
    for _ in 0..25 {
        m.move_down();
    }
    assert_eq!(m.repo_cursor, 25);
    assert_eq!(m.repo_scroll, 6);
    for _ in 0..40 {
        m.move_down();
    }
    assert_eq!(m.repo_cursor, 29);
    for _ in 0..29 {
        m.move_up();
    }
    assert_eq!(m.repo_cursor, 0);
    assert_eq!(m.repo_scroll, 0);
    m.move_up();
    assert_eq!(m.repo_cursor, 0);
}

#[test]
fn filter_keeps_matching_paths_case_insensitively() {
    let mut m = repo_model(vec![file("src/Main.rs", FileStatus::Clean), file("README.md", FileStatus::Clean)]);
    m.filter = "main".to_string();
    m.apply_filter();
    assert_eq!(m.display_items.len(), 1);
    m.filter.clear();
    m.apply_filter();
    assert_eq!(m.display_items.len(), 2);
}

#[test]
fn enter_opens_and_closes_a_folder() {
    let mut m = repo_model(vec![file("src/a.rs", FileStatus::Clean)]);
    assert_eq!(m.display_items.len(), 1);
    assert!(!m.enter_expand_collapse());
    assert_eq!(m.expanded_folders, vec!["src".to_string()]);
    assert_eq!(m.display_items.len(), 2);
    assert!(!m.enter_expand_collapse());
    assert!(m.expanded_folders.is_empty());
    assert_eq!(m.display_items.len(), 1);
}

#[test]
fn enter_on_a_file_asks_for_its_diff() {
    let mut m = repo_model(vec![file("a.rs", FileStatus::Modified)]);
    m.diff_scroll = 7;
    m.hunk_cursor = Some(0);
    assert!(m.enter_expand_collapse());
    assert_eq!(m.diff_scroll, 0);
    assert_eq!(m.hunk_cursor, None);
}

#[test]
fn space_stages_unstaged_and_unstages_staged() {
    let m = repo_model(vec![file("a.rs", FileStatus::Modified)]);
    let req = m.space_stage_unstage().unwrap();
    assert!(req.must_succeed);
    assert_eq!(req.success, "✅ Staged: a.rs");
    assert_eq!(req.commands[0].args, vec!["add".to_string(), "a.rs".to_string()]);

    let m = repo_model(vec![file("a.rs", FileStatus::Staged)]);
    let req = m.space_stage_unstage().unwrap();
    assert!(!req.must_succeed);
    assert_eq!(req.success, "Unstaged: a.rs");
    assert_eq!(req.commands.len(), 3);
}

#[test]
fn space_on_folder_stages_when_something_is_unstaged() {
    let m = repo_model(vec![file("src/a.rs", FileStatus::Staged), file("src/b.rs", FileStatus::Modified)]);
    let req = m.space_stage_unstage().unwrap();
    assert_eq!(req.success, "✅ Staged folder: src/");
    let m = repo_model(vec![file("src/a.rs", FileStatus::Staged)]);
    let req = m.space_stage_unstage().unwrap();
    assert_eq!(req.success, "Unstaged folder: src/");
    assert_eq!(req.commands.len(), 2);
}

#[test]
fn stage_errors_become_toasts() {
    let mut m = repo_model(vec![file("a.rs", FileStatus::Modified)]);
    let req = m.space_stage_unstage().unwrap();
    m.finish_stage_unstage(req, Err("pathspec did not match".to_string()));
    assert_eq!(m.toast.as_ref().unwrap().message, "❌ Error: pathspec did not match");
}

#[test]
fn diff_loads_only_for_the_same_file() {
    let mut m = repo_model(vec![file("a.rs", FileStatus::Modified)]);
    assert_eq!(m.begin_diff_load(), Some("a.rs".to_string()));
    assert!(m.is_diff_loading);
    m.hunk_cursor = Some(5);
    let d = GitRepo::parse_diff("@@ -1 +1 @@\n-a\n+b\n");
    m.finish_diff_load("a.rs", Some(d));
    assert!(!m.is_diff_loading);
    assert_eq!(m.diff_struct.hunks.len(), 1);
    assert_eq!(m.hunk_cursor, Some(0));
    let d2 = GitRepo::parse_diff("@@ -1 +1 @@\n-x\n+y\n@@ -5 +5 @@\n");
    m.finish_diff_load("other.rs", Some(d2));
    assert_eq!(m.diff_struct.hunks.len(), 1);
}

#[test]
fn editor_loads_lines() {
    let mut m = repo_model(vec![file("a.rs", FileStatus::Modified)]);
    m.editor_open("a.rs".to_string(), Ok("one\ntwo\n".to_string()));
    assert_eq!(m.mode, AppMode::Editor);
    assert_eq!(m.editor_lines, vec!["one".to_string(), "two".to_string()]);
    assert_eq!(m.active_frame, 2);
    assert_eq!(m.editor_text(), "one\ntwo");
    m.editor_open("b.rs".to_string(), Ok(String::new()));
    assert_eq!(m.editor_lines, vec![String::new()]);
    m.editor_open("c.rs".to_string(), Err("No such file".to_string()));
    assert_eq!(m.toast.as_ref().unwrap().message, "Cannot open: No such file");
}

#[test]
fn github_urls_are_parsed() {
    assert_eq!(parse_github_url("https://github.com/rust-lang/rust.git"), Some(("rust-lang".to_string(), "rust".to_string())));
    assert_eq!(parse_github_url("git@github.com:o/r"), Some(("o".to_string(), "r".to_string())));
    assert_eq!(parse_github_url("https://gitlab.com/o/r"), None);
    assert_eq!(parse_github_url("https://github.com/only"), None);
}

#[test]
fn https_urls_become_ssh() {
    assert_eq!(to_ssh_url("https://github.com/o/r"), "git@github.com:o/r.git");
    assert_eq!(to_ssh_url("git@github.com:o/r.git"), "git@github.com:o/r.git");
}

#[test]
fn ssh_status_from_findings() {
    assert!(matches!(detect_ssh_status(None, None, false), SshStatus::NoKey));
    match detect_ssh_status(Some("/home/u/.ssh/id_ed25519.pub"), Some("ssh-ed25519 AAAA me\n"), true) {
        SshStatus::Ready { key_path, pubkey } => {
            assert_eq!(key_path, "/home/u/.ssh/id_ed25519");
            assert_eq!(pubkey, "ssh-ed25519 AAAA me");
        }
        _ => panic!("ready expected"),
    }
}

#[test]
fn token_answers() {
    assert_eq!(validate_pat(200, "200 OK", "{\"login\":\"octo\"}"), Ok("octo".to_string()));
    assert_eq!(validate_pat(401, "401", ""), Err("Invalid token".to_string()));
    assert_eq!(validate_pat(403, "403", ""), Err("Token lacks permissions".to_string()));
    assert_eq!(validate_pat(500, "500 Internal Server Error", ""), Err("GitHub returned 500 Internal Server Error".to_string()));
    assert_eq!(validate_github_token(200, "200 OK", "{\"id\":1}"), Ok("user".to_string()));
    assert_eq!(
        validate_pat(200, "200 OK", "not json"),
        Err("error decoding response body: expected ident at line 1 column 2".to_string())
    );
}

#[test]
fn icons_and_words() {
    assert_eq!(file_icon("MAIN.RS"), "🦀");
    assert_eq!(file_icon("notes.md"), "📝");
    assert!(is_keyword("fn"));
    assert!(!is_keyword("main"));
    assert!(is_type("String"));
    assert_eq!(spinner_char(0), "⠋");
    assert_eq!(spinner_char(2), "⠙");
    assert_eq!(spinner_char(20), "⠋");
}

#[test]
fn push_dialog_fields_cycle() {
    let mut d = PushDialogState::new();
    assert_eq!(d.focused, PushField::RepoName);
    let f = d.focused.next().next().next().next();
    assert_eq!(f, PushField::RepoName);
    d.type_char('x');
    d.type_char('y');
    assert_eq!(d.repo_name, "xy");
    d.backspace();
    assert_eq!(d.repo_name, "x");
    d.username = "me".to_string();
    d.update_origin();
    assert_eq!(d.origin, "https://github.com/me/x.git");
}

#[test]
fn folder_count_is_its_direct_entries() {
    let files = vec![file("a/b/c.rs", FileStatus::Clean), file("a/b/d.rs", FileStatus::Clean), file("a/e.rs", FileStatus::Clean)];
    let items = build_display_items(&files, &[]);
    assert_eq!(items.len(), 1);
    match &items[0] {
        DisplayItem::FolderHeader { path, count, expanded, depth } => {
            assert_eq!(path, "a");
            assert_eq!(*count, 2);
            assert!(!*expanded);
            assert_eq!(*depth, 0);
        }
        _ => panic!("folder expected"),
    }
    let open = build_display_items(&files, &["a".to_string()]);
    assert_eq!(open.len(), 3);
    match &open[1] {
        DisplayItem::FolderHeader { path, count, depth, .. } => {
            assert_eq!(path, "a/b");
            assert_eq!(*count, 2);
            assert_eq!(*depth, 1);
        }
        _ => panic!("folder expected"),
    }
}

#[test]
fn filtered_rows_name_files_by_their_place_in_the_list() {
    let mut m = repo_model(vec![file("a.txt", FileStatus::Modified), file("b.txt", FileStatus::Modified)]);
    m.filter = "B".to_string();
    m.apply_filter();
    assert_eq!(m.display_items.len(), 1);
    assert!(matches!(m.display_items[0], DisplayItem::FileEntry { file_idx: 1, depth: 0 }));
    assert_eq!(m.current_file().unwrap().path, "b.txt");
}

#[test]
fn tree_icons_follow_the_documented_palette() {
    assert_eq!(file_icon("main.rs"), "🦀");
    assert_eq!(file_icon("a.py"), "🐍");
    assert_eq!(file_icon("a.js"), "JS");
    assert_eq!(file_icon("a.ts"), "TS");
    assert_eq!(file_icon("a.json"), "{}");
    assert_eq!(file_icon("a.md"), "📝");
    assert_eq!(file_icon("Cargo.toml"), "⚙️");
    assert_eq!(file_icon("setup.ini"), "⚙️");
    assert_eq!(file_icon("a.sh"), "⚡");
    assert_eq!(file_icon("Cargo.lock"), "🔒");
    assert_eq!(file_icon("Dockerfile"), "🐳");
    assert_eq!(file_icon("deploy/Dockerfile"), "🐳");
    assert_eq!(file_icon("logo.png"), "🖼️");
    assert_eq!(file_icon("a.zip"), "📦");
    assert_eq!(file_icon("notes.txt"), "📄");
}

#[test]
fn typing_then_backspace_gives_the_dialog_back() {
    let mut d = PushDialogState::new();
    d.repo_name = "abc".to_string();
    d.cursor = 1;
    d.type_char('z');
    assert_eq!(d.repo_name, "azbc");
    assert_eq!(d.cursor, 2);
    d.backspace();
    assert_eq!(d.repo_name, "abc");
    assert_eq!(d.cursor, 1);
    assert_eq!(d.focused, PushField::RepoName);
    assert_eq!(d.branch, "main");
}

#[test]
fn a_file_row_needs_every_folder_on_its_path_open() {
    let files = vec![file("a/b/c.rs", FileStatus::Clean), file("top.rs", FileStatus::Clean)];
    let some = build_display_items(&files, &["a".to_string()]);
    assert_eq!(some.len(), 3);
    assert!(matches!(&some[1], DisplayItem::FolderHeader { path, depth: 1, .. } if path == "a/b"));
    assert!(some.iter().all(|r| r.file_idx() != Some(0)));
    let all = build_display_items(&files, &["a".to_string(), "a/b".to_string()]);
    assert_eq!(all.len(), 4);
    assert!(matches!(all[2], DisplayItem::FileEntry { file_idx: 0, depth: 2 }));
    assert!(matches!(all[3], DisplayItem::FileEntry { file_idx: 1, depth: 0 }));
}

#[test]
fn typing_then_backspace_gives_the_settings_back() {
    let mut s = SettingsDialogState::new();
    s.display_name = "Ann".to_string();
    s.cursor = 3;
    s.type_char('e');
    assert_eq!(s.display_name, "Anne");
    s.backspace();
    assert_eq!(s.display_name, "Ann");
    assert_eq!(s.cursor, 3);
    assert_eq!(s.username, "");
}
