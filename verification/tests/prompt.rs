use contextdock::git::{not_a_repository, CommitInfo, GitInfo};
use contextdock::projects::ContextFiles;
use contextdock::prompt::{
    build_launch_prompt, check_launch_prompt, hash_cuttable, launch_prompt_for, prompt_hashes_ok, requested_task_given,
    CONTEXT_NOT_INITIALIZED, DEFAULT_REQUESTED_TASK,
};

fn test_context() -> ContextFiles {
    ContextFiles {
        meta: None,
        current: Some("# Current Focus\n\nTesting launch prompt.".to_string()),
        architecture: Some("# Architecture\n\nTest arch.".to_string()),
        recent_work: Some("# Recent Work\n\nTest work.".to_string()),
    }
}

#[test]
fn launch_prompt_uses_context_and_default_task() {
    let content = launch_prompt_for(Some("proj".to_string()), "/tmp/proj", &not_a_repository(), &test_context(), &None);
    assert!(content.contains("Current Goal"));
    assert!(content.contains("Testing launch prompt"));
    assert!(content.contains(DEFAULT_REQUESTED_TASK));
}

#[test]
fn launch_prompt_with_custom_task() {
    let custom = "Fix the login bug in auth module.";
    let content = launch_prompt_for(Some("proj".to_string()), "/tmp/proj", &not_a_repository(), &test_context(), &Some(custom.to_string()));
    assert!(content.contains(custom));
    assert!(!content.contains(DEFAULT_REQUESTED_TASK));
}

#[test]
fn launch_prompt_blank_task_uses_default() {
    let content = launch_prompt_for(Some("proj".to_string()), "/tmp/proj", &not_a_repository(), &test_context(), &Some("   ".to_string()));
    assert!(content.contains(DEFAULT_REQUESTED_TASK));
    assert_eq!(requested_task_given(&Some(" \n".to_string())), None);
    assert_eq!(requested_task_given(&Some(" x ".to_string())).as_deref(), Some(" x "));
}

#[test]
fn missing_context_message_names_folder() {
    assert!(CONTEXT_NOT_INITIALIZED.contains(".context-bridge"));
}

#[test]
fn launch_prompt_exact_text_for_non_repository() {
    let ctx = ContextFiles { meta: None, current: Some("# Current Focus\n".to_string()), architecture: None, recent_work: Some("  \n".to_string()) };
    let p = build_launch_prompt("demo", "/d", &not_a_repository(), &ctx, Some("Do it."));
    let expected = "# OpenCode Launch Prompt\n\n## Project\n\n- Name: demo\n- Path: /d\n- Git repository: no\n- Branch: unknown\n\n## Current Goal\n\nNo current focus has been set yet.\n\n## Architecture\n\n(No architecture saved yet.)\n\n## Recent Work\n\n(No recent work saved yet.)\n\n## Git Status\n\n- Branch: unknown\n- Changed files: 0\n\n### Changed Files\n\n(No changes)\n\n## Recent Commits\n\n(No commits)\n\n ## Instructions for OpenCode\n\nYou are working inside this local project.\n\nFollow these rules:\n- Preserve the existing architecture.\n- Do not redesign the app unless explicitly requested.\n- Do not add heavy dependencies.\n- Do not add external APIs unless explicitly requested.\n- Prefer small, reviewable changes.\n- Explain what files you changed and why.\n- After changes, run the project's normal validation commands if available.\n- Do not touch deployment configuration unless explicitly requested.\n\n## Requested Task\n\nDo it.\n";
    assert_eq!(p, expected);
}

fn commit(hash: &str, message: &str) -> CommitInfo {
    CommitInfo { hash: hash.to_string(), message: message.to_string(), date: "2 days ago".to_string(), author: "a".to_string() }
}

#[test]
fn launch_prompt_git_sections() {
    let staged: Vec<String> = (0..12).map(|i| format!("s{}.rs", i)).collect();
    let g = GitInfo {
        is_repo: true,
        branch: Some("main".to_string()),
        is_clean: false,
        changed_files_count: 14,
        staged_files: staged,
        unstaged_files: vec![],
        untracked_files: vec!["new.txt".to_string()],
        last_commit_hash: None,
        last_commit_message: None,
        last_commit_date: None,
        recent_commits: vec![
            commit("0123456789abcdef", "first"),
            commit("abc", "short"),
            commit("h3", "m3"),
            commit("h4", "m4"),
            commit("h5", "m5"),
            commit("h6", "m6"),
        ],
    };
    assert!(prompt_hashes_ok(&g));
    let p = build_launch_prompt("x", "/x", &g, &test_context(), None);
    assert!(p.contains("- Git repository: yes\n- Branch: main\n"));
    assert!(p.contains("- Changed files: 14\n\n### Changed Files\n\n**Staged (12):**\n- s0.rs\n"));
    assert!(p.contains("- s9.rs\n\n**Untracked (1):**\n- new.txt\n\n\n## Recent Commits\n"));
    assert!(!p.contains("s10.rs"));
    assert!(!p.contains("Modified"));
    assert!(p.contains("## Recent Commits\n\n- `0123456` - first (2 days ago)\n- `abc` - short (2 days ago)\n"));
    assert!(p.contains("- `h5` - m5 (2 days ago)\n\n ## Instructions"));
    assert!(!p.contains("m6"));
    assert!(p.contains("## Current Goal\n\n# Current Focus\n\nTesting launch prompt.\n\n"));
    assert!(p.contains("## Architecture\n\n# Architecture\n\nTest arch.\n\n"));
}

#[test]
fn short_hash_boundaries() {
    assert!(hash_cuttable("0123456789"));
    assert!(hash_cuttable("héllo!"));
    assert!(hash_cuttable("abcdeé"));
    assert!(!hash_cuttable("abcdefé"));
    assert!(hash_cuttable("abcdeéz"));
    let mut g = not_a_repository();
    g.recent_commits = vec![commit("abcdefé!", "m")];
    assert!(!prompt_hashes_ok(&g));
    g.recent_commits = vec![commit("abcdeé!", "m")];
    assert!(prompt_hashes_ok(&g));
    let p = build_launch_prompt("x", "/x", &g, &test_context(), None);
    assert!(p.contains("- `abcdeé` - m"));
}

#[test]
fn unnamed_project_is_unknown() {
    let p = launch_prompt_for(None, "/", &not_a_repository(), &test_context(), &None);
    assert!(p.contains("- Name: unknown\n- Path: /\n"));
}

#[test]
fn launch_prompt_refusals() {
    assert_eq!(check_launch_prompt("/p", false, false).unwrap_err(), "Project path does not exist: /p");
    assert_eq!(
        check_launch_prompt("/p", true, false).unwrap_err(),
        ".context-bridge directory not initialized. Please initialize context first."
    );
    assert!(check_launch_prompt("/p", true, true).is_ok());
}
