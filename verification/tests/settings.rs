use contextdock::settings::{default_settings, dirs_next, get_settings_path, join_path, launch_command, AppSettings, Platform};

#[test]
fn settings_locations() {
    assert_eq!(dirs_next(Platform::Linux, None, Some("/home/u".to_string())).as_deref(), Some("/home/u/.config"));
    assert_eq!(
        dirs_next(Platform::MacOs, None, Some("/Users/u/".to_string())).as_deref(),
        Some("/Users/u/Library/Application Support")
    );
    assert_eq!(
        dirs_next(Platform::Windows, Some("C:\\Users\\u\\AppData\\Roaming".to_string()), None).as_deref(),
        Some("C:\\Users\\u\\AppData\\Roaming")
    );
    assert_eq!(dirs_next(Platform::Linux, None, None), None);
    assert_eq!(dirs_next(Platform::Other, None, Some("/h".to_string())), None);
    assert_eq!(get_settings_path(Platform::Linux, Some("/home/u/.config".to_string())), "/home/u/.config/contextdock-settings.json");
    assert_eq!(get_settings_path(Platform::Linux, None), "./contextdock-settings.json");
    assert_eq!(
        get_settings_path(Platform::Windows, Some("C:\\AppData".to_string())),
        "C:\\AppData\\contextdock-settings.json"
    );
}

#[test]
fn joining_paths() {
    assert_eq!(join_path(Platform::Linux, "", "a"), "a");
    assert_eq!(join_path(Platform::Linux, "/", "a"), "/a");
    assert_eq!(join_path(Platform::Linux, "x\\", "a"), "x\\/a");
    assert_eq!(join_path(Platform::Windows, "x/", "a"), "x/a");
    assert_eq!(join_path(Platform::Windows, "C:", "a"), "C:a");
    assert_eq!(join_path(Platform::Windows, "C:\\", "a"), "C:\\a");
}

#[test]
fn default_settings_per_platform() {
    let s = default_settings(Platform::Linux, Some("/home/u/.config".to_string()));
    assert_eq!(s.root_projects_path, "/home/u/.config/Projects");
    assert_eq!(s.opencode_command, "opencode");
    assert_eq!(s.theme, "dark");
    let w = default_settings(Platform::Windows, Some("C:\\Users\\u\\AppData\\Roaming".to_string()));
    assert_eq!(w.root_projects_path, "C:\\Users\\u\\AppData\\Roaming\\Documents\\Codex");
    assert_eq!(w.opencode_command, "opencode.cmd");
    let none = default_settings(Platform::MacOs, None);
    assert_eq!(none.root_projects_path, "./Projects");
}

#[test]
fn launch_command_needs_a_command() {
    let mut s = AppSettings { root_projects_path: String::new(), opencode_command: "  opencode \n".to_string(), theme: "dark".to_string() };
    assert_eq!(launch_command(&s).unwrap(), "opencode");
    s.opencode_command = " \t ".to_string();
    assert_eq!(launch_command(&s).unwrap_err(), "OpenCode command not configured. Please set it in Settings.");
}
