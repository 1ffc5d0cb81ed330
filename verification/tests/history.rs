use contextdock::history::{
    check_history_read, check_inside_history, free_snapshot_name, check_history_filename, history_file_missing_message, list_prompt_history, modified_text, snapshot_file_name,
    HistoryFile,
};

fn file(name: &str) -> HistoryFile {
    HistoryFile {
        filename: name.to_string(),
        path: format!("/p/.context-bridge/history/{}", name),
        size_bytes: name.len() as u64,
        modified_secs: Some(0),
    }
}

#[test]
fn test_list_prompt_history_returns_snapshots() {
    let files = vec![
        file("2025-01-01_120000-launch-prompt.md"),
        file("2025-06-01_120000-launch-prompt.md"),
        file("2025-03-15_093000-launch-prompt.md"),
    ];
    let entries = list_prompt_history("/p", true, true, &files).unwrap();
    assert_eq!(entries.len(), 3, "Expected 3 entries, got {}", entries.len());
    assert!(entries[0].filename > entries[1].filename, "Should be sorted newest first");
    assert!(entries[1].filename > entries[2].filename, "Should be sorted newest first");
    assert_eq!(entries[0].filename, "2025-06-01_120000-launch-prompt.md");
    assert_eq!(entries[0].path, "/p/.context-bridge/history/2025-06-01_120000-launch-prompt.md");
    assert_eq!(entries[0].size_bytes, 34);
    assert_eq!(entries[0].modified, "1970-01-01 00:00:00");
}

#[test]
fn test_list_prompt_history_empty_when_no_history_dir() {
    let files = vec![file("2025-01-01_120000-launch-prompt.md")];
    assert!(list_prompt_history("/p", true, false, &files).unwrap().is_empty());
    assert_eq!(
        list_prompt_history("/nope", false, false, &files).err(),
        Some("Project path does not exist: /nope".to_string())
    );
}

#[test]
fn test_list_prompt_history_ignores_non_md_files() {
    let files = vec![file("2025-01-01_120000-launch-prompt.md"), file("notes.txt")];
    assert_eq!(list_prompt_history("/p", true, true, &files).unwrap().len(), 1, "Should only list .md files");
}

#[test]
fn modified_times() {
    assert_eq!(modified_text(None), "unknown");
    assert_eq!(modified_text(Some(1_700_000_000)), "2023-11-14 22:13:20");
    assert_eq!(modified_text(Some(86_399)), "1970-01-01 23:59:59");
    // beyond the dates chrono can represent: the epoch
    assert_eq!(modified_text(Some(u64::MAX / 2)), "1970-01-01 00:00:00");
    // the last second chrono dates, and the first it does not
    assert_eq!(modified_text(Some(8_210_266_876_799)), "+262142-12-31 23:59:59");
    assert_eq!(modified_text(Some(8_210_266_876_800)), "1970-01-01 00:00:00");
    // seconds past i64::MAX are read as negative
    assert_eq!(modified_text(Some(u64::MAX)), "1969-12-31 23:59:59");
}

#[test]
fn snapshot_file_name_passes_the_read_check() {
    assert!(check_history_filename("2025-06-15_080000-launch-prompt.md").is_ok());
}

#[test]
fn test_read_prompt_history_rejects_slash() {
    let result = check_history_filename("../secret.md");
    assert!(result.is_err());
    assert!(result.unwrap_err().contains("Invalid"));
}

#[test]
fn test_read_prompt_history_rejects_backslash() {
    let result = check_history_filename("..\\secret.md");
    assert!(result.is_err());
    assert!(result.unwrap_err().contains("Invalid"));
}

#[test]
fn test_read_prompt_history_rejects_dot_dot() {
    let result = check_history_filename("../launch-prompt.md");
    assert!(result.is_err());
    assert!(result.unwrap_err().contains("Invalid"));
}

#[test]
fn test_read_prompt_history_rejects_non_md() {
    let result = check_history_filename("notes.txt");
    assert!(result.is_err());
    assert_eq!(result.unwrap_err(), "Only .md files can be read.");
}

#[test]
fn history_name_edge_cases() {
    assert_eq!(check_history_filename("").unwrap_err(), "Invalid filename.");
    assert_eq!(check_history_filename("a..md").unwrap_err(), "Invalid filename.");
    assert!(check_history_filename(".md").is_ok());
    assert_eq!(history_file_missing_message("x.md"), "History file not found: x.md");
}

#[test]
fn snapshot_names() {
    assert_eq!(snapshot_file_name("2025-06-01_120000", 1), "2025-06-01_120000-launch-prompt.md");
    assert_eq!(snapshot_file_name("2025-06-01_120000", 2), "2025-06-01_120000-2-launch-prompt.md");
    assert_eq!(snapshot_file_name("2025-06-01_120000", 12), "2025-06-01_120000-12-launch-prompt.md");
    assert!(check_history_filename(&snapshot_file_name("2025-06-01_120000", 3)).is_ok());
}

#[test]
fn free_snapshot_name_takes_first_free_counter() {
    let ts = "2025-01-01_120000";
    assert_eq!(free_snapshot_name(ts, &vec![]), "2025-01-01_120000-launch-prompt.md");
    let taken = vec![
        "2025-01-01_120000-launch-prompt.md".to_string(),
        "2025-01-01_120000-2-launch-prompt.md".to_string(),
        "2025-01-01_120000-4-launch-prompt.md".to_string(),
        "notes.md".to_string(),
    ];
    assert_eq!(free_snapshot_name(ts, &taken), "2025-01-01_120000-3-launch-prompt.md");
    let other = vec!["2024-12-31_235959-launch-prompt.md".to_string()];
    assert_eq!(free_snapshot_name(ts, &other), "2025-01-01_120000-launch-prompt.md");
}

fn comps(parts: &[&str]) -> Vec<Vec<u8>> {
    parts.iter().map(|p| p.as_bytes().to_vec()).collect()
}

#[test]
fn inside_history_by_components() {
    let base = comps(&["/", "p", ".context-bridge", "history"]);
    assert!(check_inside_history(&base, &comps(&["/", "p", ".context-bridge", "history", "a.md"])).is_ok());
    assert_eq!(
        check_inside_history(&base, &comps(&["/", "p", "secret.md"])).unwrap_err(),
        "Access denied: file is outside the history directory."
    );
    assert!(check_inside_history(&base, &comps(&["/", "p", ".context-bridge", "history2", "a.md"])).is_err());
    assert!(check_inside_history(&base, &comps(&["/", "p", ".context-bridge"])).is_err());
}

#[test]
fn history_read_refusals_in_order() {
    assert_eq!(check_history_read("/p", "../x.md", false, false).unwrap_err(), "Invalid filename.");
    assert_eq!(check_history_read("/p", "x.txt", false, false).unwrap_err(), "Only .md files can be read.");
    assert_eq!(check_history_read("/p", "x.md", false, false).unwrap_err(), "Project path does not exist: /p");
    assert_eq!(check_history_read("/p", "x.md", true, false).unwrap_err(), "History file not found: x.md");
    assert!(check_history_read("/p", "x.md", true, true).is_ok());
}

#[test]
fn two_generations_leave_two_snapshots() {
    let ts = "2025-01-01_120000";
    let mut folder: Vec<String> = vec!["older-launch-prompt.md".to_string()];
    let first = free_snapshot_name(ts, &folder);
    assert!(!folder.contains(&first));
    folder.push(first.clone());
    let second = free_snapshot_name(ts, &folder);
    assert!(!folder.contains(&second));
    folder.push(second.clone());
    assert_eq!(folder.len(), 3);
    assert_eq!(first, "2025-01-01_120000-launch-prompt.md");
    assert_eq!(second, "2025-01-01_120000-2-launch-prompt.md");
    assert!(second.ends_with("-launch-prompt.md"));
}
