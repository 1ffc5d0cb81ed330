use contextdock::git::{get_git_info, git_info_from_outputs, missing_path_message, not_a_repository, GitOutputs};
use contextdock::text::lines_chars;

fn no_outputs() -> GitOutputs {
    GitOutputs {
        branch: None,
        status: None,
        staged: None,
        unstaged: None,
        untracked: None,
        last_hash: None,
        last_message: None,
        last_date: None,
        log: None,
    }
}

#[test]
fn test_git_info_non_repo() {
    let result = get_git_info("/tmp/contextdock-test/test-non-repo", true, false, &no_outputs());
    assert!(result.is_ok());
    let info = result.unwrap();
    assert!(!info.is_repo);
    assert!(info.branch.is_none());
}

#[test]
fn test_git_info_repo() {
    let outputs = GitOutputs {
        branch: Some("master".to_string()),
        status: Some(String::new()),
        staged: Some(String::new()),
        unstaged: Some(String::new()),
        untracked: Some(String::new()),
        last_hash: Some("0123456789abcdef".to_string()),
        last_message: Some("initial".to_string()),
        last_date: Some("1 second ago".to_string()),
        log: Some("0123456789abcdef|initial|1 second ago|Test".to_string()),
    };
    let result = get_git_info("/tmp/contextdock-test/test-repo", true, true, &outputs);
    assert!(result.is_ok());
    let info = result.unwrap();
    assert!(info.is_repo);
    assert!(!info.recent_commits.is_empty());
}

#[test]
fn test_git_info_nonexistent_path() {
    let path = "/tmp/contextdock-test/definitely-does-not-exist-12345";
    let result = get_git_info(path, false, false, &no_outputs());
    assert!(result.is_err());
    assert_eq!(
        result.err().unwrap(),
        "Project path does not exist: /tmp/contextdock-test/definitely-does-not-exist-12345"
    );
}

#[test]
fn git_outputs_are_split_into_files_and_commits() {
    let outputs = GitOutputs {
        branch: Some("main".to_string()),
        status: Some(" M a.rs\r\n?? b.rs\nA  c.rs".to_string()),
        staged: Some("c.rs".to_string()),
        unstaged: Some("a.rs\r\nd.rs".to_string()),
        untracked: Some("b.rs".to_string()),
        last_hash: Some("abc".to_string()),
        last_message: Some("msg".to_string()),
        last_date: None,
        log: Some("h1|m1|d1|a1\nbroken|line\nh2|m|2|d2|a2|extra".to_string()),
    };
    let info = git_info_from_outputs(&outputs);
    assert!(info.is_repo);
    assert!(!info.is_clean);
    assert_eq!(info.changed_files_count, 3);
    assert_eq!(info.staged_files, vec!["c.rs"]);
    assert_eq!(info.unstaged_files, vec!["a.rs", "d.rs"]);
    assert_eq!(info.untracked_files, vec!["b.rs"]);
    assert_eq!(info.branch.as_deref(), Some("main"));
    assert_eq!(info.last_commit_date, None);
    assert_eq!(info.recent_commits.len(), 2);
    assert_eq!(info.recent_commits[0].hash, "h1");
    assert_eq!(info.recent_commits[0].author, "a1");
    assert_eq!(info.recent_commits[1].message, "m");
    assert_eq!(info.recent_commits[1].date, "2");
    assert_eq!(info.recent_commits[1].author, "d2");
}

#[test]
fn failed_status_counts_as_clean() {
    let info = git_info_from_outputs(&no_outputs());
    assert!(info.is_clean);
    assert_eq!(info.changed_files_count, 0);
    assert!(info.staged_files.is_empty());
    assert!(info.recent_commits.is_empty());
}

#[test]
fn empty_lines_and_trailing_newline() {
    let mut outputs = no_outputs();
    outputs.staged = Some("a\n\nb\n".to_string());
    let info = git_info_from_outputs(&outputs);
    assert_eq!(info.staged_files, vec!["a", "", "b"]);
}

#[test]
fn non_repository_is_empty() {
    let info = not_a_repository();
    assert!(!info.is_repo && info.is_clean && info.changed_files_count == 0);
    assert!(info.recent_commits.is_empty() && info.last_commit_hash.is_none());
    assert_eq!(missing_path_message("x"), "Project path does not exist: x");
}

#[test]
fn clean_exactly_when_nothing_changed() {
    let mut outputs = no_outputs();
    outputs.status = Some(" M a.rs".to_string());
    outputs.log = Some("abcdef1234|msg|now|me".to_string());
    let info = get_git_info("/r", true, true, &outputs).unwrap();
    assert!(info.is_repo);
    assert!(!info.is_clean);
    assert_eq!(info.changed_files_count, 1);
    assert_eq!(info.recent_commits.len(), 1);
    let clean = get_git_info("/r", true, true, &no_outputs()).unwrap();
    assert!(clean.is_clean);
    assert_eq!(clean.changed_files_count, 0);
}

#[test]
fn lines_keep_a_final_bare_carriage_return() {
    let text: Vec<char> = "a\r\nb\n\rc\r".chars().collect();
    let lines: Vec<String> = lines_chars(&text).iter().map(|l| l.iter().collect()).collect();
    assert_eq!(lines, vec!["a", "b", "\rc\r"]);
    let ended: Vec<char> = "x\r\n".chars().collect();
    let lines: Vec<String> = lines_chars(&ended).iter().map(|l| l.iter().collect()).collect();
    assert_eq!(lines, vec!["x"]);
}
