use contextdock::projects::{
    append_to_gitignore, architecture_markdown, check_context_write, check_gitignore_for_context_bridge,
    chrono_now, detect_project_markers, detect_project_type, detect_stack, get_init_preview, init_context,
    initial_context_files, is_hidden_or_system, is_ignored_dir, is_internal_dir, is_project_root,
    probed_names, scan_dir_for_structure, scan_projects, select_projects, FileState, FolderEntry, FolderProbe,
    ProjectCandidate, ProjectType,
};

fn probe(existing: &[&str], dirs: &[&str], package: Option<&str>) -> FolderProbe {
    FolderProbe {
        existing: existing.iter().map(|s| s.to_string()).collect(),
        directories: dirs.iter().map(|s| s.to_string()).collect(),
        package_json: match package {
            Some(c) => FileState::Contents(c.to_string()),
            None => FileState::Missing,
        },
    }
}

fn folder(name: &str, path: &str, p: FolderProbe) -> ProjectCandidate {
    ProjectCandidate {
        name: name.to_string(),
        path: path.to_string(),
        is_dir: true,
        probe: p,
        meta_last_opened: None,
    }
}

fn node_project(root: &str, name: &str) -> ProjectCandidate {
    folder(name, &format!("{}/{}", root, name), probe(&["package.json"], &[], Some("{}")))
}

const ROOT: &str = "/tmp/contextdock-scan";

#[test]
fn test_scan_root_contains_child_project() {
    let root = folder("contextdock-scan", ROOT, probe(&[], &[], None));
    let result = scan_projects(ROOT, true, &root, &vec![node_project(ROOT, "my-app")]);
    assert!(result.is_ok());
    let projects = result.unwrap();
    assert_eq!(projects.len(), 1);
    assert_eq!(projects[0].name, "my-app");
    assert!(matches!(projects[0].project_type, ProjectType::Node));
}

#[test]
fn test_scan_root_is_itself_a_project() {
    let root = folder("contextdock-scan", ROOT, probe(&["package.json"], &[], Some("{}")));
    let result = scan_projects(ROOT, true, &root, &vec![]);
    assert!(result.is_ok());
    let projects = result.unwrap();
    assert_eq!(projects.len(), 1);
    assert_eq!(projects[0].path, ROOT);
    assert!(matches!(projects[0].project_type, ProjectType::Node));
}

#[test]
fn test_scan_root_project_with_app_subfolder_ignores_app() {
    let root = folder("contextdock-scan", ROOT, probe(&["package.json", "app"], &["app"], Some("{}")));
    let app = folder("app", "/tmp/contextdock-scan/app", probe(&[], &[], None));
    let result = scan_projects(ROOT, true, &root, &vec![app]);
    assert!(result.is_ok());
    let projects = result.unwrap();
    assert_eq!(projects.len(), 1, "app/ subfolder should not be treated as a standalone project");
    assert_eq!(projects[0].path, ROOT);
}

#[test]
fn test_scan_root_project_with_app_that_has_own_packagejson() {
    let root = folder("contextdock-scan", ROOT, probe(&["package.json", "app"], &["app"], Some("{}")));
    let app = node_project(ROOT, "app");
    let result = scan_projects(ROOT, true, &root, &vec![app]);
    assert!(result.is_ok());
    let projects = result.unwrap();
    assert_eq!(projects.len(), 2, "app/ with its own package.json should be a project");
}

#[test]
fn test_scan_multiple_child_projects() {
    let root = folder("contextdock-scan", ROOT, probe(&[], &[], None));
    let children = vec![
        node_project(ROOT, "project-c"),
        node_project(ROOT, "project-a"),
        node_project(ROOT, "project-b"),
    ];
    let result = scan_projects(ROOT, true, &root, &children);
    assert!(result.is_ok());
    let projects = result.unwrap();
    assert_eq!(projects.len(), 3);
    let names: Vec<&str> = projects.iter().map(|p| p.name.as_str()).collect();
    assert!(names.contains(&"project-a"));
    assert!(names.contains(&"project-b"));
    assert!(names.contains(&"project-c"));
    assert_eq!(names, vec!["project-a", "project-b", "project-c"]);
}

#[test]
fn test_scan_nonexistent_path() {
    let path = "/tmp/contextdock-nonexistent/definitely-does-not-exist-98765";
    let root = folder("definitely-does-not-exist-98765", path, probe(&[], &[], None));
    let result = scan_projects(path, false, &root, &vec![]);
    assert!(result.is_err());
    assert_eq!(
        result.err().unwrap(),
        "Path does not exist: /tmp/contextdock-nonexistent/definitely-does-not-exist-98765"
    );
}

#[test]
fn scan_skips_hidden_ignored_and_files() {
    let root = folder("r", "/r", probe(&[".git"], &[".git"], None));
    let mut file = node_project("/r", "notes");
    file.is_dir = false;
    let mut with_meta = folder("zeta", "/r/zeta", probe(&[".context-bridge", "Cargo.toml"], &[".context-bridge"], None));
    with_meta.meta_last_opened = Some("yesterday".to_string());
    let mut no_context = node_project("/r", "alpha");
    no_context.meta_last_opened = Some("ignored".to_string());
    let children = vec![
        with_meta,
        node_project("/r", ".hidden"),
        node_project("/r", "node_modules"),
        node_project("/r", "$RECYCLE.BIN"),
        file,
        no_context,
        folder("docs", "/r/docs", probe(&[], &[], None)),
    ];
    let projects = select_projects(&root, &children);
    let names: Vec<&str> = projects.iter().map(|p| p.name.as_str()).collect();
    assert_eq!(names, vec!["alpha", "r", "zeta"]);
    assert!(matches!(projects[1].project_type, ProjectType::Unknown));
    assert!(projects[2].has_context);
    assert!(matches!(projects[2].project_type, ProjectType::Rust));
    assert_eq!(projects[2].last_opened_at.as_deref(), Some("yesterday"));
    assert_eq!(projects[0].last_opened_at, None);
    assert_eq!(projects[0].id, "alpha");
}

#[test]
fn scan_keeps_order_of_equal_names() {
    let root = folder("same", "/same", probe(&["package.json"], &[], Some("{}")));
    let child = node_project("/same", "same");
    let projects = select_projects(&root, &vec![child]);
    assert_eq!(projects.len(), 2);
    assert_eq!(projects[0].path, "/same");
    assert_eq!(projects[1].path, "/same/same");
}

#[test]
fn test_is_project_root_detects_package_json() {
    assert!(is_project_root(&probe(&["package.json"], &[], Some("{}"))));
}

#[test]
fn test_is_project_root_detects_cargo_toml() {
    assert!(is_project_root(&probe(&["Cargo.toml"], &[], None)));
}

#[test]
fn test_is_project_root_detects_git_dir() {
    assert!(is_project_root(&probe(&[".git"], &[".git"], None)));
}

#[test]
fn test_is_project_root_false_for_empty_dir() {
    assert!(!is_project_root(&probe(&[], &[], None)));
}

#[test]
fn test_is_project_root_false_for_readme_only() {
    assert!(!is_project_root(&probe(&["README.md"], &[], None)));
}

#[test]
fn git_file_is_not_a_project_root() {
    assert!(!is_project_root(&probe(&[".git"], &[], None)));
    assert!(is_project_root(&probe(&["vite.config.ts"], &[], None)));
}

#[test]
fn test_is_internal_dir_true() {
    assert!(is_internal_dir("app"));
    assert!(is_internal_dir("src"));
    assert!(is_internal_dir("components"));
}

#[test]
fn test_is_internal_dir_false_for_regular_names() {
    assert!(!is_internal_dir("my-project"));
    assert!(!is_internal_dir("backend"));
}

#[test]
fn ignored_and_hidden_names() {
    for n in ["node_modules", ".next", ".turbo", "dist", "build", "coverage", "__pycache__", ".venv", "venv", "target", ".cache", ".context-bridge"] {
        assert!(is_ignored_dir(n), "{}", n);
    }
    assert!(!is_ignored_dir("src"));
    assert!(is_hidden_or_system(".git"));
    assert!(is_hidden_or_system("$RECYCLE.BIN"));
    assert!(is_hidden_or_system("System Volume Information"));
    assert!(!is_hidden_or_system("project"));
}

#[test]
fn project_type_detection() {
    assert!(matches!(detect_project_type(&probe(&["package.json"], &[], Some("{\"dependencies\":{\"next\":\"15\"}}"))), ProjectType::Nextjs));
    assert!(matches!(detect_project_type(&probe(&["package.json", "Cargo.toml"], &[], Some("{}"))), ProjectType::Node));
    let mut unreadable = probe(&["package.json", "Cargo.toml"], &[], None);
    unreadable.package_json = FileState::Unreadable;
    assert!(matches!(detect_project_type(&unreadable), ProjectType::Rust));
    assert!(matches!(detect_project_type(&probe(&["requirements.txt"], &[], None)), ProjectType::Python));
    assert!(matches!(detect_project_type(&probe(&[], &[], None)), ProjectType::Unknown));
    assert_eq!(ProjectType::Nextjs.label(), "Next.js");
    assert!(matches!(ProjectType::default(), ProjectType::Unknown));
}

#[test]
fn markers_files_then_folders_at_most_ten() {
    let p = probe(
        &["package.json", "Cargo.toml", "pyproject.toml", "requirements.txt", "README.md", ".gitignore", "tsconfig.json", "next.config.ts", "src", "app", "lib"],
        &["src", "app", "lib"],
        Some("{}"),
    );
    let m = detect_project_markers(&p);
    assert_eq!(
        m,
        vec!["package.json", "Cargo.toml", "pyproject.toml", "requirements.txt", "README.md", ".gitignore", "tsconfig.json", "next.config.ts", "src/", "app/"]
    );
    let q = probe(&["README.md", "docs"], &["docs"], None);
    assert_eq!(detect_project_markers(&q), vec!["README.md", "docs/"]);
}

#[test]
fn stack_detection() {
    let p = probe(
        &["package.json", "next.config.js", "tailwind.config.ts", "pyproject.toml", "requirements.txt"],
        &[],
        Some("{\"next\":1,\"react\":1,\"typescript\":1}"),
    );
    assert_eq!(detect_stack(&p), vec!["Next.js", "React", "TypeScript", "Tailwind CSS", "Python", "Python"]);
    let q = probe(&["next.config.ts", "Cargo.toml"], &[], None);
    assert_eq!(detect_stack(&q), vec!["Next.js", "Rust"]);
}

#[test]
fn gitignore_check_and_update() {
    assert!(!check_gitignore_for_context_bridge(&FileState::Missing));
    assert!(!check_gitignore_for_context_bridge(&FileState::Unreadable));
    assert!(check_gitignore_for_context_bridge(&FileState::Contents("node_modules\n  .context-bridge/ \r\n".to_string())));
    assert!(!check_gitignore_for_context_bridge(&FileState::Contents("x/.context-bridge/".to_string())));
    assert_eq!(append_to_gitignore(&FileState::Missing).as_deref(), Some("\n# ContextDock\n.context-bridge/\n"));
    assert_eq!(append_to_gitignore(&FileState::Unreadable), None);
    assert_eq!(append_to_gitignore(&FileState::Contents("x/.context-bridge/".to_string())), None);
    let updated = append_to_gitignore(&FileState::Contents("target".to_string())).unwrap();
    assert_eq!(updated, "target\n# ContextDock\n.context-bridge/\n");
    assert!(check_gitignore_for_context_bridge(&FileState::Contents(updated.clone())));
    assert_eq!(append_to_gitignore(&FileState::Contents(updated)), None);
}

#[test]
fn structure_lists_folders_first() {
    let e = |n: &str, d: bool| FolderEntry { name: n.to_string(), is_dir: d };
    let entries = vec![
        e("zeta.txt", false),
        e(".gitignore", false),
        e("node_modules", true),
        e("src", true),
        e(".git", true),
        e("alpha.md", false),
        e("app", true),
        e("target", false),
    ];
    assert_eq!(
        scan_dir_for_structure(&entries, 0),
        vec!["app/", "src/", ".gitignore", "alpha.md", "zeta.txt"]
    );
    assert!(scan_dir_for_structure(&entries, 2).is_empty());
    let many: Vec<FolderEntry> = (0..60).map(|i| e(&format!("f{:02}", i), false)).collect();
    let lines = scan_dir_for_structure(&many, 1);
    assert_eq!(lines.len(), 50);
    assert_eq!(lines[49], "f49");
}

#[test]
fn init_preview_and_refusals() {
    let p = probe(&["package.json", ".git", "src"], &[".git", "src"], Some("{}"));
    let preview = get_init_preview("/p", true, &p, &FileState::Contents("dist\n".to_string())).unwrap();
    assert_eq!(preview.will_create.len(), 7);
    assert_eq!(preview.will_create[0], ".context-bridge/");
    assert_eq!(preview.will_create[6], ".context-bridge/history/");
    assert!(matches!(preview.project_type, ProjectType::Node));
    assert_eq!(preview.detected_files, vec!["package.json", "src/"]);
    assert!(preview.gitignore_needs_update);
    let listed = get_init_preview("/p", true, &p, &FileState::Contents(".context-bridge/".to_string())).unwrap();
    assert!(!listed.gitignore_needs_update);
    assert_eq!(get_init_preview("/p", false, &p, &FileState::Missing).err().unwrap(), "Project path does not exist: /p");
    let done = probe(&[".context-bridge"], &[".context-bridge"], None);
    assert_eq!(
        get_init_preview("/p", true, &done, &FileState::Missing).err().unwrap(),
        "Project already has .context-bridge/ folder."
    );
}

#[test]
fn init_context_meta() {
    let p = probe(&["Cargo.toml"], &[], None);
    let meta = init_context("/home/u/My Project", true, &p, Some("My Project".to_string()), "12.000000005Z").unwrap();
    assert_eq!(meta.id, "my-project");
    assert_eq!(meta.name, "My Project");
    assert_eq!(meta.path, "/home/u/My Project");
    assert!(matches!(meta.project_type, ProjectType::Rust));
    assert_eq!(meta.created_at, "12.000000005Z");
    assert_eq!(meta.last_context_update_at.as_deref(), Some("12.000000005Z"));
    assert!(meta.last_opened_at.is_none() && meta.last_session_id.is_none() && !meta.favorite);
    let unnamed = init_context("/", true, &p, None, "0.000000000Z").unwrap();
    assert_eq!(unnamed.name, "unknown");
    assert_eq!(unnamed.id, "unknown");
    assert!(init_context("/x", false, &p, None, "0").is_err());
}

#[test]
fn architecture_file_text() {
    let md = architecture_markdown(&vec!["Rust".to_string(), "Python".to_string()], &vec!["src/".to_string(), "Cargo.toml".to_string()]);
    assert_eq!(
        md,
        "# Architecture\n\nGenerated from lightweight folder scan.\n\n## Detected stack\n\n- Rust\n- Python\n\n## Folder structure\n\n```txt\nsrc/\nCargo.toml\n```\n"
    );
    let empty = architecture_markdown(&vec![], &vec![]);
    assert_eq!(
        empty,
        "# Architecture\n\nGenerated from lightweight folder scan.\n\n## Detected stack\n\n- (not detected)\n\n## Folder structure\n\n```txt\n\n```\n"
    );
    let files = initial_context_files(&vec![], &vec![]);
    assert_eq!(files.len(), 4);
    assert_eq!(files[0].0, "architecture.md");
    assert_eq!(files[1], ("current.md".to_string(), "# Current Focus\n\n".to_string()));
    assert_eq!(files[2], ("recent-work.md".to_string(), "# Recent Work\n\n".to_string()));
    assert_eq!(files[3], ("sessions.json".to_string(), "{\"sessions\":[]}".to_string()));
}

#[test]
fn context_write_whitelist() {
    for f in ["meta.json", "current.md", "architecture.md", "recent-work.md", "sessions.json", "launch-prompt.md"] {
        assert!(check_context_write(true, f).is_ok());
    }
    assert_eq!(check_context_write(true, "../x.md").err().unwrap(), "Invalid filename: ../x.md");
    assert_eq!(check_context_write(false, "current.md").err().unwrap(), ".context-bridge directory not initialized");
}

#[test]
fn timestamps_pad_nanoseconds() {
    assert_eq!(chrono_now(1700000000, 5), "1700000000.000000005Z");
    assert_eq!(chrono_now(0, 123456789), "0.123456789Z");
    assert_eq!(chrono_now(18446744073709551615, 0), "18446744073709551615.000000000Z");
}

#[test]
fn probed_names_cover_markers() {
    let names = probed_names();
    for n in ["package.json", ".git", ".context-bridge", "tailwind.config.js", "docs", "webpack.config.js"] {
        assert!(names.iter().any(|x| x == n));
    }
}
