use querypie_cli::failure::Failure;
use querypie_cli::lockfile::{after_attempt, is_stale, LockAttempt, LockNext};
use querypie_cli::paths::{env_dir, host_cache_file_name, host_file_stem, host_lock_file_name, webview_dir_name};

#[test]
fn lock_path_uses_host_file_name() {
    let host = "https://querypie.example.com/";
    let path = host_lock_file_name(host);
    assert!(path.ends_with("querypie.example.com.lock"));
}

#[test]
fn host_files_replace_separators() {
    assert_eq!(host_file_stem("http://h.example:8443/"), "h.example_8443");
    assert_eq!(host_cache_file_name("h.example/x"), "h.example_x.json");
    assert_eq!(webview_dir_name("h:1/2"), "h_1_2");
}

#[test]
fn blank_env_dirs_are_ignored() {
    assert_eq!(env_dir(Some("  ".to_string())), None);
    assert_eq!(env_dir(Some("/x".to_string())), Some("/x".to_string()));
    assert_eq!(env_dir(None), None);
}

#[test]
fn lock_attempts_retry_until_timeout() {
    assert!(matches!(after_attempt(LockAttempt::Created, 0, "/l"), LockNext::Acquired));
    assert!(matches!(after_attempt(LockAttempt::Exists, 60_000_000_000, "/l"), LockNext::Retry));
    match after_attempt(LockAttempt::Exists, 60_000_000_001, "/l") {
        LockNext::Fail(Failure::Message(m)) => assert_eq!(m, "timed out waiting for lock /l"),
        _ => panic!("expected a timeout"),
    }
    match after_attempt(LockAttempt::Failed, 0, "/l") {
        LockNext::Fail(Failure::Message(m)) => assert_eq!(m, "create lock /l"),
        _ => panic!("expected a failure"),
    }
}

#[test]
fn stale_locks_are_older_than_ten_minutes() {
    assert!(!is_stale(None));
    assert!(!is_stale(Some(600_000_000_000)));
    assert!(is_stale(Some(600_000_000_001)));
}
