use swiftgit::auth::{choose_key_pair, key_exists_refusal, ssh_key_names};
use swiftgit::suggest::pick_subdirs;
use swiftgit::syntax::{highlight_line, SyntaxKind};
use swiftgit::ui::{file_icon, grab_file_icon};

fn entries(v: &[(&str, &str)]) -> Vec<(String, String)> {
    v.iter().map(|(n, p)| (n.to_string(), p.to_string())).collect()
}

#[test]
fn suggestions_leave_out_hidden_folders_and_sort_paths() {
    let e = entries(&[("src", "/p/src"), (".git", "/p/.git"), ("app", "/p/app"), ("docs", "/p/docs")]);
    assert_eq!(pick_subdirs(&e, ""), vec!["/p/app", "/p/docs", "/p/src"]);
}

#[test]
fn suggestions_match_the_typed_name_ignoring_case() {
    let e = entries(&[("Documents", "/h/Documents"), ("downloads", "/h/downloads"), ("Desktop", "/h/Desktop"), ("music", "/h/music")]);
    assert_eq!(pick_subdirs(&e, "do"), vec!["/h/Documents", "/h/downloads"]);
    assert_eq!(pick_subdirs(&e, "DE"), vec!["/h/Desktop"]);
    assert!(pick_subdirs(&e, "x").is_empty());
}

#[test]
fn suggestions_stop_at_eight() {
    let names = ["j", "i", "h", "g", "f", "e", "d", "c", "b", "a"];
    let e: Vec<(String, String)> = names.iter().map(|n| (n.to_string(), format!("/r/{}", n))).collect();
    let got = pick_subdirs(&e, "");
    assert_eq!(got, vec!["/r/a", "/r/b", "/r/c", "/r/d", "/r/e", "/r/f", "/r/g", "/r/h"]);
}

#[test]
fn suggestions_of_a_hidden_prefix_stay_hidden() {
    let e = entries(&[(".config", "/h/.config"), (".cache", "/h/.cache")]);
    assert!(pick_subdirs(&e, ".c").is_empty());
}

#[test]
fn highlighting_splits_keywords_numbers_and_strings() {
    let got = highlight_line("let x = 42;");
    let kinds: Vec<SyntaxKind> = got.iter().map(|(_, k)| *k).collect();
    let text: String = got.iter().map(|(t, _)| t.as_str()).collect();
    assert_eq!(text, "let x = 42;");
    assert!(kinds.contains(&SyntaxKind::Keyword));
    assert!(kinds.contains(&SyntaxKind::Number));
}

#[test]
fn highlighting_marks_unicode_digits_as_numbers() {
    let got = highlight_line("١٢٣");
    assert_eq!(got.len(), 1);
    assert_eq!(got[0].1, SyntaxKind::Number);
}

#[test]
fn icons_ignore_the_case_of_the_extension() {
    assert_eq!(file_icon("MAIN.RS"), file_icon("main.rs"));
    assert_ne!(file_icon("MAIN.RS"), file_icon("main.txt"));
    assert_eq!(grab_file_icon("README.MD"), grab_file_icon("readme.md"));
}

#[test]
fn picker_icons_follow_the_documented_palette() {
    assert_eq!(grab_file_icon("main.rs"), "🦀");
    assert_eq!(grab_file_icon("a.py"), "🐍");
    assert_eq!(grab_file_icon("a.js"), "JS");
    assert_eq!(grab_file_icon("a.ts"), "TS");
    assert_eq!(grab_file_icon("a.json"), "{}");
    assert_eq!(grab_file_icon("a.md"), "📝");
    assert_eq!(grab_file_icon("a.sh"), "⚡");
    assert_eq!(grab_file_icon("Cargo.lock"), "🔒");
    assert_eq!(grab_file_icon("Dockerfile"), "🐳");
    assert_eq!(grab_file_icon("LICENSE"), "  ");
}

#[test]
fn opening_a_path_without_a_repository_names_the_path() {
    let p = "/no-such-swiftgit-folder/a/b";
    match swiftgit::git::GitRepo::open(p) {
        Err(e) => assert_eq!(e, format!("Not a git repository: {}", p)),
        Ok(r) => panic!("unexpected repository at {}", r.root),
    }
}

#[test]
fn the_first_present_key_pair_is_chosen() {
    assert_eq!(ssh_key_names(), vec!["id_ed25519".to_string(), "id_rsa".to_string(), "id_ecdsa".to_string()]);
    assert_eq!(choose_key_pair(&[false, true, true]), Some(1));
    assert_eq!(choose_key_pair(&[true, true, false]), Some(0));
    assert_eq!(choose_key_pair(&[false, false, false]), None);
}

#[test]
fn an_existing_key_is_never_replaced() {
    assert_eq!(key_exists_refusal(true, "/home/u/.ssh/id_ed25519"), Some("SSH key already exists at /home/u/.ssh/id_ed25519".to_string()));
    assert_eq!(key_exists_refusal(false, "/home/u/.ssh/id_ed25519"), None);
}
