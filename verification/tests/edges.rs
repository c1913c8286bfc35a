use task_scheduler::entries::{sort_entries, workspace_entry, WorkspaceEntry};
use task_scheduler::git::{diff_args, git_status_from, status_paths};
use task_scheduler::oauth::{callback_timeout_secs, callback_url, CallbackError};
use task_scheduler::paths::{check_found, check_workspace, TargetError, TargetKind};
use task_scheduler::scan::{split_lines, word_after_first};
use task_scheduler::secrets::{
    cleared_secret, failure_message, loaded_secret, service, SecretKind, SecretStep, StoreAnswer,
};
use task_scheduler::text::{chars_of, same_text};

fn entry(name: &str, is_dir: bool) -> WorkspaceEntry {
    workspace_entry(name.to_string(), name, is_dir, !is_dir, 7)
}

fn names(entries: &[WorkspaceEntry]) -> Vec<String> {
    entries.iter().map(|e| e.name.clone()).collect()
}

#[test]
fn lines_of_a_text() {
    assert_eq!(split_lines("a\nb\nc"), vec!["a", "b", "c"]);
    assert_eq!(split_lines("a\nb\n"), vec!["a", "b"]);
    assert_eq!(split_lines("a\r\nb\r\n"), vec!["a", "b"]);
    assert_eq!(split_lines("a\n\nb"), vec!["a", "", "b"]);
    assert_eq!(split_lines("\n"), vec![""]);
    assert_eq!(split_lines(""), Vec::<String>::new());
    assert_eq!(split_lines("only"), vec!["only"]);
    assert_eq!(split_lines("tail\r"), vec!["tail\r"]);
    assert_eq!(split_lines("x\r\r\ny"), vec!["x\r", "y"]);
    assert_eq!(split_lines("\r\n"), vec![""]);
}

#[test]
fn lines_agree_with_the_standard_library() {
    for text in ["", "a", "a\n", "\n\n", "a\r\nb", "a\rb\n", "é\nü\r\n\r\n", "\r", "x\n\r"] {
        let expected: Vec<String> = text.lines().map(|l| l.to_string()).collect();
        assert_eq!(split_lines(text), expected, "lines of {text:?}");
    }
}

#[test]
fn second_word_of_a_text() {
    assert_eq!(word_after_first("GET /cb?code=1 HTTP/1.1"), Some("/cb?code=1".to_string()));
    assert_eq!(word_after_first("  GET\t/x  "), Some("/x".to_string()));
    assert_eq!(word_after_first("GET"), None);
    assert_eq!(word_after_first("GET   "), None);
    assert_eq!(word_after_first(""), None);
    assert_eq!(word_after_first("   "), None);
    assert_eq!(word_after_first("a b"), Some("b".to_string()));
}

#[test]
fn second_word_agrees_with_the_standard_library() {
    for text in ["", " ", "one", "one two", " one  two three ", "a\u{a0}b c", "x\ty\nz"] {
        let expected = text.split_whitespace().nth(1).map(|w| w.to_string());
        assert_eq!(word_after_first(text), expected, "second word of {text:?}");
    }
}

#[test]
fn characters_and_equal_texts() {
    assert_eq!(chars_of("aé€"), vec!['a', 'é', '€']);
    assert_eq!(chars_of(""), Vec::<char>::new());
    assert!(same_text("abc", "abc"));
    assert!(!same_text("abc", "abd"));
    assert!(!same_text("abc", "ab"));
}

#[test]
fn callback_address_is_read_from_the_request_line() {
    let request = "GET /callback?code=abc&state=xyz HTTP/1.1\r\nHost: 127.0.0.1:1455\r\n\r\n";
    assert_eq!(
        callback_url(request, 1455),
        Ok("http://127.0.0.1:1455/callback?code=abc&state=xyz".to_string())
    );
    assert_eq!(callback_url("GET / HTTP/1.1\n", 80), Ok("http://127.0.0.1:80/".to_string()));
    assert_eq!(callback_url("POST /x", 65535), Ok("http://127.0.0.1:65535/x".to_string()));
    assert_eq!(callback_url("GET /zero", 0), Ok("http://127.0.0.1:0/zero".to_string()));
}

#[test]
fn callback_without_a_target_is_rejected() {
    assert_eq!(callback_url("", 1), Err(CallbackError::InvalidRequest));
    assert_eq!(callback_url("GET\r\n/late HTTP/1.1", 1), Err(CallbackError::InvalidRequest));
    assert_eq!(callback_url("\n GET /x", 1), Err(CallbackError::InvalidRequest));
    assert_eq!(CallbackError::InvalidRequest.message(), "Invalid callback request.");
}

#[test]
fn callback_waits_two_minutes_unless_told() {
    assert_eq!(callback_timeout_secs(None), 120);
    assert_eq!(callback_timeout_secs(Some(5)), 5);
    assert_eq!(callback_timeout_secs(Some(0)), 0);
}

#[test]
fn diff_arguments() {
    assert_eq!(diff_args("/repo".to_string(), None), vec!["-C", "/repo", "diff"]);
    assert_eq!(
        diff_args("/repo".to_string(), Some("src/a.rs".to_string())),
        vec!["-C", "/repo", "diff", "--", "src/a.rs"]
    );
    assert_eq!(diff_args("/repo".to_string(), Some("  ".to_string())), vec!["-C", "/repo", "diff"]);
    assert_eq!(diff_args("/repo".to_string(), Some(String::new())), vec!["-C", "/repo", "diff"]);
}

#[test]
fn paths_of_a_short_status() {
    let out = " M src/lib.rs\n?? new file.txt\nA  añadido.rs\n";
    assert_eq!(status_paths(out), vec!["src/lib.rs", "new file.txt", "añadido.rs"]);
    assert_eq!(status_paths(""), Vec::<String>::new());
    assert_eq!(status_paths("M \n??\n\nabc\nabcd\n"), vec!["d"]);
    assert_eq!(status_paths(" M a\r\n M b\r\n"), vec!["a", "b"]);
}

#[test]
fn status_of_a_directory() {
    let outside = git_status_from(false, Some("main\n".to_string()), " M a\n");
    assert!(!outside.is_repo);
    assert_eq!(outside.branch, None);
    assert!(outside.modified_files.is_empty());
    let inside = git_status_from(true, Some("feature/x\n".to_string()), " M a\n D b\n");
    assert!(inside.is_repo);
    assert_eq!(inside.branch, Some("feature/x".to_string()));
    assert_eq!(inside.modified_files, vec!["a", "b"]);
    let detached = git_status_from(true, None, "");
    assert!(detached.is_repo);
    assert_eq!(detached.branch, None);
    assert!(detached.modified_files.is_empty());
}

#[test]
fn entry_turns_backslashes_and_sizes_only_files() {
    let file = workspace_entry("a.txt".to_string(), "dir\\sub\\a.txt", false, true, 42);
    assert_eq!(file.name, "a.txt");
    assert_eq!(file.relative_path, "dir/sub/a.txt");
    assert!(!file.is_dir);
    assert_eq!(file.size, 42);
    let dir = workspace_entry("sub".to_string(), "dir/sub", true, false, 4096);
    assert_eq!(dir.relative_path, "dir/sub");
    assert!(dir.is_dir);
    assert_eq!(dir.size, 0);
    let other = workspace_entry("sock".to_string(), "sock", false, false, 9);
    assert_eq!(other.size, 0);
}

#[test]
fn entries_show_directories_first_then_names_without_case() {
    let found = vec![
        entry("zeta.txt", false),
        entry("Alpha.txt", false),
        entry("src", true),
        entry("beta.txt", false),
        entry("Docs", true),
        entry("app", true),
    ];
    let shown = sort_entries(&found);
    assert_eq!(names(&shown), vec!["app", "Docs", "src", "Alpha.txt", "beta.txt", "zeta.txt"]);
    assert_eq!(shown.len(), found.len());
    assert!(sort_entries(&Vec::new()).is_empty());
}

#[test]
fn entries_with_the_same_key_keep_their_order() {
    let found = vec![
        entry("readme", false),
        entry("README", false),
        entry("ReadMe", false),
        entry("a", false),
        entry("ab", false),
        entry("A", false),
    ];
    let shown = sort_entries(&found);
    assert_eq!(names(&shown), vec!["a", "A", "ab", "readme", "README", "ReadMe"]);
}

#[test]
fn entries_agree_with_the_standard_sort() {
    let found = vec![
        entry("b", false),
        entry("é", true),
        entry("B", true),
        entry("a", false),
        entry("Z", false),
        entry("z", true),
        entry("", false),
        entry("aa", true),
    ];
    let mut expected: Vec<String> = Vec::new();
    let mut sorted: Vec<&WorkspaceEntry> = found.iter().collect();
    sorted.sort_by(|a, b| {
        b.is_dir.cmp(&a.is_dir).then_with(|| a.name.to_lowercase().cmp(&b.name.to_lowercase()))
    });
    for e in sorted {
        expected.push(e.name.clone());
    }
    assert_eq!(names(&sort_entries(&found)), expected);
}

#[test]
fn targets_must_exist_and_be_of_the_expected_kind() {
    assert_eq!(check_found(TargetKind::Directory, true, true), Ok(()));
    assert_eq!(check_found(TargetKind::File, true, true), Ok(()));
    assert_eq!(
        check_found(TargetKind::Directory, false, false),
        Err(TargetError::DirectoryMissing)
    );
    assert_eq!(check_found(TargetKind::Directory, false, true), Err(TargetError::DirectoryMissing));
    assert_eq!(check_found(TargetKind::Directory, true, false), Err(TargetError::NotDirectory));
    assert_eq!(check_found(TargetKind::File, false, false), Err(TargetError::FileMissing));
    assert_eq!(check_found(TargetKind::File, true, false), Err(TargetError::NotFile));
    assert_eq!(check_workspace(true), Ok(()));
    assert_eq!(check_workspace(false), Err(TargetError::WorkspaceNotDirectory));
    assert_eq!(
        TargetError::WorkspaceNotDirectory.message(),
        "Workspace path must be a directory."
    );
    assert_eq!(TargetError::DirectoryMissing.message(), "Directory does not exist.");
    assert_eq!(TargetError::NotDirectory.message(), "Target is not a directory.");
    assert_eq!(TargetError::FileMissing.message(), "File does not exist.");
    assert_eq!(TargetError::NotFile.message(), "Target is not a file.");
}

#[test]
fn secrets_are_kept_under_fixed_names() {
    assert_eq!(service(), "codex-app-for-windows");
    assert_eq!(SecretKind::RefreshToken.account(), "oauth-refresh-token");
    assert_eq!(SecretKind::ApiKey.account(), "openai-api-key");
    assert_eq!(SecretKind::RefreshToken.label(), "refresh token");
    assert_eq!(SecretKind::ApiKey.label(), "API key");
}

#[test]
fn a_missing_secret_is_no_error() {
    let kind = SecretKind::RefreshToken;
    assert_eq!(
        loaded_secret(kind, StoreAnswer::Found("tok".to_string())),
        Ok(Some("tok".to_string()))
    );
    assert_eq!(loaded_secret(kind, StoreAnswer::NoEntry), Ok(None));
    assert_eq!(
        loaded_secret(kind, StoreAnswer::Failed("locked".to_string())),
        Err("Failed to read refresh token: locked".to_string())
    );
    assert_eq!(
        loaded_secret(SecretKind::ApiKey, StoreAnswer::Failed("locked".to_string())),
        Err("Failed to read API key: locked".to_string())
    );
    assert_eq!(cleared_secret(kind, StoreAnswer::Found(String::new())), Ok(()));
    assert_eq!(cleared_secret(kind, StoreAnswer::NoEntry), Ok(()));
    assert_eq!(
        cleared_secret(SecretKind::ApiKey, StoreAnswer::Failed("denied".to_string())),
        Err("Failed to clear API key: denied".to_string())
    );
}

#[test]
fn store_failures_are_worded_by_step() {
    let token = SecretKind::RefreshToken;
    let key = SecretKind::ApiKey;
    assert_eq!(failure_message(token, SecretStep::Open, "x"), "Token store unavailable: x");
    assert_eq!(failure_message(key, SecretStep::Open, "x"), "Token store unavailable: x");
    assert_eq!(failure_message(token, SecretStep::Save, "x"), "Failed to save refresh token: x");
    assert_eq!(failure_message(key, SecretStep::Save, "x"), "Failed to save API key: x");
    assert_eq!(failure_message(key, SecretStep::Read, ""), "Failed to read API key: ");
    assert_eq!(failure_message(token, SecretStep::Clear, "y"), "Failed to clear refresh token: y");
}
