use contextdock::projects::{init_plan, FileState, FolderEntry, FolderProbe, ProjectType};

fn probe(existing: &[&str], package: Option<&str>) -> FolderProbe {
    FolderProbe {
        existing: existing.iter().map(|s| s.to_string()).collect(),
        directories: existing.iter().filter(|s| **s == ".git").map(|s| s.to_string()).collect(),
        package_json: match package {
            Some(c) => FileState::Contents(c.to_string()),
            None => FileState::Missing,
        },
    }
}

fn entries() -> Vec<FolderEntry> {
    vec![
        FolderEntry { name: "src".to_string(), is_dir: true },
        FolderEntry { name: "package.json".to_string(), is_dir: false },
        FolderEntry { name: ".git".to_string(), is_dir: true },
    ]
}

#[test]
fn init_plan_lists_everything_written() {
    let p = probe(&["package.json", ".git"], Some("{\"dependencies\":{\"react\":\"1\"}}"));
    let plan = init_plan(
        "/work/My App",
        true,
        &p,
        Some("My App".to_string()),
        "17.000000001Z",
        &FileState::Contents("target\n".to_string()),
        &entries(),
    )
    .unwrap();
    assert_eq!(plan.meta.id, "my-app");
    assert_eq!(plan.meta.name, "My App");
    assert_eq!(plan.meta.path, "/work/My App");
    assert_eq!(plan.meta.project_type, ProjectType::Node);
    assert_eq!(plan.meta.created_at, "17.000000001Z");
    assert_eq!(plan.meta.last_context_update_at.as_deref(), Some("17.000000001Z"));
    assert_eq!(plan.directories, vec![".context-bridge", ".context-bridge/history"]);
    let names: Vec<&str> = plan.files.iter().map(|f| f.0.as_str()).collect();
    assert_eq!(names, vec!["architecture.md", "current.md", "recent-work.md", "sessions.json"]);
    assert_eq!(
        plan.files[0].1,
        "# Architecture\n\nGenerated from lightweight folder scan.\n\n## Detected stack\n\n- React\n\n## Folder structure\n\n```txt\nsrc/\npackage.json\n```\n"
    );
    assert_eq!(plan.files[1].1, "# Current Focus\n\n");
    assert_eq!(plan.files[2].1, "# Recent Work\n\n");
    assert_eq!(plan.files[3].1, "{\"sessions\":[]}");
    assert_eq!(plan.gitignore.as_deref(), Some("target\n\n# ContextDock\n.context-bridge/\n"));
}

#[test]
fn init_plan_leaves_gitignore_alone_without_git() {
    let p = probe(&["package.json"], Some("{}"));
    let plan = init_plan("/w/a", true, &p, Some("a".to_string()), "1.000000000Z", &FileState::Missing, &entries())
        .unwrap();
    assert_eq!(plan.gitignore, None);
    let with_git = probe(&["package.json", ".git"], Some("{}"));
    let plan = init_plan("/w/a", true, &with_git, Some("a".to_string()), "1.000000000Z", &FileState::Missing, &entries())
        .unwrap();
    assert_eq!(plan.gitignore.as_deref(), Some("\n# ContextDock\n.context-bridge/\n"));
    let listed = FileState::Contents(".context-bridge/\n".to_string());
    let plan = init_plan("/w/a", true, &with_git, None, "1.000000000Z", &listed, &entries()).unwrap();
    assert_eq!(plan.gitignore, None);
    assert_eq!(plan.meta.name, "unknown");
}

#[test]
fn init_plan_refusals() {
    let p = probe(&[], None);
    assert_eq!(
        init_plan("/nope", false, &p, None, "0.000000000Z", &FileState::Missing, &vec![]).err(),
        Some("Project path does not exist: /nope".to_string())
    );
    let done = probe(&[".context-bridge"], None);
    assert_eq!(
        init_plan("/w", true, &done, None, "0.000000000Z", &FileState::Missing, &vec![]).err(),
        Some("Project already has .context-bridge/ folder.".to_string())
    );
}
