use swiftgit::config::SwiftGitConfig;
use swiftgit::context::rebase::RebaseContext;
use swiftgit::events::{CommandOutcome, KeyCode, KeyEvent};
use swiftgit::git::{after_pull, first_pull, open_step, FileStatus, GitFile, GitRepo, OpenOrInit, OpenStep, PullNext, PullStep, RebaseCommit};
use swiftgit::model::{AppMode, Model};
use swiftgit::tree::DisplayItem;

fn ctrl(code: KeyCode) -> KeyEvent {
    KeyEvent { code, ctrl: true }
}

#[test]
fn the_walk_stops_at_a_folder_with_git() {
    match open_step("/a/b", true) {
        OpenStep::Found(s) => assert_eq!(s, "/a/b"),
        _ => panic!("expected the folder itself"),
    }
}

#[test]
fn the_walk_goes_up_to_the_parent() {
    match open_step("/a/b", false) {
        OpenStep::Up(s) => assert_eq!(s, "/a"),
        _ => panic!("expected the parent"),
    }
}

#[test]
fn the_walk_ends_at_the_root() {
    assert!(matches!(open_step("/", false), OpenStep::NotFound));
}

#[test]
fn a_folder_with_git_is_opened_not_initialized() {
    match GitRepo::open_or_init_with("/w/p", true) {
        OpenOrInit::Opened(Ok(r)) => assert_eq!(r.root, "/w/p"),
        _ => panic!("expected the repository"),
    }
    assert!(matches!(GitRepo::open_or_init_with("/w/p", false), OpenOrInit::NeedsInit));
}

#[test]
fn pulls_go_over_ssh_then_token_then_plain() {
    assert_eq!(first_pull(true, true), PullStep::ViaSsh);
    assert_eq!(first_pull(false, true), PullStep::ViaToken);
    assert_eq!(first_pull(false, false), PullStep::Plain);
}

#[test]
fn a_failed_token_pull_falls_back_to_a_plain_one() {
    assert!(matches!(after_pull(PullStep::ViaToken, CommandOutcome::Failed("denied".to_string())), PullNext::Then(PullStep::Plain)));
    assert!(matches!(after_pull(PullStep::ViaToken, CommandOutcome::NotRun("no file".to_string())), PullNext::Failed));
    assert!(matches!(after_pull(PullStep::ViaSsh, CommandOutcome::Failed("x".to_string())), PullNext::Failed));
    assert!(matches!(after_pull(PullStep::Plain, CommandOutcome::Failed("x".to_string())), PullNext::Failed));
    match after_pull(PullStep::Plain, CommandOutcome::Done("Already up to date.".to_string())) {
        PullNext::Done(o) => assert_eq!(o, "Already up to date."),
        _ => panic!("expected the output"),
    }
}

#[test]
fn a_written_diff_reads_back_as_itself() {
    let text = "diff --git a/x b/x\n--- a/x\n+++ b/x\n@@ -1,2 +1,2 @@ fn f\n a\n-b\n+c\n@@ -10 +10,3 @@\n+d\n";
    let d = GitRepo::parse_diff(text);
    let again = GitRepo::parse_diff(&d.to_string());
    assert_eq!(again.file_header, d.file_header);
    assert_eq!(again.hunks.len(), 2);
    for (x, y) in again.hunks.iter().zip(d.hunks.iter()) {
        assert_eq!(x.header, y.header);
        assert_eq!(x.lines, y.lines);
        assert_eq!((x.old_start, x.old_lines, x.new_start, x.new_lines), (y.old_start, y.old_lines, y.new_start, y.new_lines));
    }
    assert_eq!(d.to_string(), text);
}

#[test]
fn rebase_keys_never_change_the_commits() {
    let mut m = Model::new(SwiftGitConfig::new());
    m.mode = AppMode::Rebase;
    m.rebase_commits = ["a1", "b2", "c3"]
        .iter()
        .map(|s| RebaseCommit { sha: s.to_string(), action: "pick".to_string(), message: "m".to_string() })
        .collect();
    for k in [ctrl(KeyCode::Down), KeyEvent { code: KeyCode::Char('d'), ctrl: false }, ctrl(KeyCode::Down), ctrl(KeyCode::Up)] {
        RebaseContext.handle_event(k, &mut m);
    }
    let mut shas: Vec<String> = m.rebase_commits.iter().map(|c| c.sha.clone()).collect();
    shas.sort();
    assert_eq!(shas, vec!["a1", "b2", "c3"]);
}

#[test]
fn enter_keeps_the_cursor_on_the_folder() {
    let mut m = Model::new(SwiftGitConfig::new());
    let files = vec![
        GitFile { path: "a/x.rs".to_string(), status: FileStatus::Clean },
        GitFile { path: "b/y.rs".to_string(), status: FileStatus::Clean },
        GitFile { path: "b/z.rs".to_string(), status: FileStatus::Clean },
    ];
    m.open_repo("/r".to_string(), GitRepo { root: "/r".to_string() }, "main".to_string(), files);
    m.repo_cursor = 1;
    assert!(!m.enter_expand_collapse());
    assert_eq!(m.repo_cursor, 1);
    assert!(matches!(&m.display_items[1], DisplayItem::FolderHeader { path, expanded: true, .. } if path == "b"));
    assert_eq!(m.display_items.len(), 4);
    assert!(!m.enter_expand_collapse());
    assert!(matches!(&m.display_items[1], DisplayItem::FolderHeader { path, expanded: false, .. } if path == "b"));
    assert_eq!(m.display_items.len(), 2);
}

#[test]
fn enter_twice_on_an_open_folder_gives_the_rows_back() {
    let mut m = Model::new(SwiftGitConfig::new());
    let files = vec![
        GitFile { path: "a/x.rs".to_string(), status: FileStatus::Clean },
        GitFile { path: "b/y.rs".to_string(), status: FileStatus::Clean },
        GitFile { path: "b/z.rs".to_string(), status: FileStatus::Clean },
    ];
    m.open_repo("/r".to_string(), GitRepo { root: "/r".to_string() }, "main".to_string(), files);
    m.repo_cursor = 1;
    assert!(!m.enter_expand_collapse());
    m.repo_cursor = 0;
    assert!(!m.enter_expand_collapse());
    let rows = format!("{:?}", m.display_items);
    assert_eq!(m.display_items.len(), 5);
    m.repo_cursor = 2;
    assert!(!m.enter_expand_collapse());
    assert_eq!(m.display_items.len(), 3);
    assert!(!m.enter_expand_collapse());
    assert_eq!(m.repo_cursor, 2);
    assert_eq!(format!("{:?}", m.display_items), rows);
    let mut open = m.expanded_folders.clone();
    open.sort();
    assert_eq!(open, vec!["a".to_string(), "b".to_string()]);
}

#[test]
fn hunk_headers_written_from_their_numbers_read_back() {
    let text = "--- a/m\n+++ b/m\n@@ -120,7 +121,8 @@\n x\n+y\n@@ -4000,0 +4001,12 @@ impl Foo\n+z\n";
    let d = GitRepo::parse_diff(text);
    assert_eq!(d.hunks.len(), 2);
    assert_eq!((d.hunks[0].old_start, d.hunks[0].old_lines, d.hunks[0].new_start, d.hunks[0].new_lines), (120, 7, 121, 8));
    assert_eq!((d.hunks[1].old_start, d.hunks[1].old_lines, d.hunks[1].new_start, d.hunks[1].new_lines), (4000, 0, 4001, 12));
    let again = GitRepo::parse_diff(&d.to_string());
    assert_eq!(again.to_string(), text);
    assert_eq!(again.hunks[1].header, "@@ -4000,0 +4001,12 @@ impl Foo");
}
