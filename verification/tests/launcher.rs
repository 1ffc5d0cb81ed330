use contextdock::shell::{
    direct_launch_command, macos_terminal_script, build_shell_command, escape_powershell_single_quoted, escape_single_quoted_bash,
    generate_linux_launch_script, generate_windows_launch_script, shell_escape_single_quotes,
    linux_launch_attempt, terminal_launch_args,
};

// --- shell command line ---

#[test]
fn test_build_shell_command_without_prompt() {
    let result = build_shell_command("opencode", None);
    assert_eq!(result, "opencode");
}

#[test]
fn test_build_shell_command_with_prompt() {
    let escaped_path = "/test/project/.context-bridge/launch-prompt.md";
    let result = build_shell_command("opencode", Some(escaped_path));
    assert!(
        result.contains("--prompt"),
        "Command should contain --prompt flag, got: {}",
        result
    );
    assert!(
        result.contains("$(cat '"),
        "Command should use $(cat) for prompt content, got: {}",
        result
    );
}

#[test]
fn test_build_shell_command_no_prompt_path_as_positional() {
    let escaped_path = "/test/project/.context-bridge/launch-prompt.md";
    let result = build_shell_command("opencode", Some(escaped_path));

    let after_opencode = result.strip_prefix("opencode ").unwrap_or("");
    assert!(
        after_opencode.starts_with("--prompt"),
        "First argument after opencode should be --prompt, not a path. Got: {}",
        result
    );
}

#[test]
fn build_shell_command_exact_text() {
    let result = build_shell_command("opencode", Some("/p/it'\\''s.md"));
    assert_eq!(result, "opencode --prompt \"$(cat '/p/it'\\''s.md')\"");
}

// --- Linux launcher helpers ---

#[test]
fn test_escape_single_quoted_bash_plain() {
    let result = escape_single_quoted_bash("/home/user/projects");
    assert_eq!(result, "'/home/user/projects'");
}

#[test]
fn test_escape_single_quoted_bash_with_spaces() {
    let result = escape_single_quoted_bash("/home/user/my projects");
    assert_eq!(result, "'/home/user/my projects'");
}

#[test]
fn test_escape_single_quoted_bash_with_single_quote() {
    let result = escape_single_quoted_bash("/home/user/it's a project");
    assert_eq!(result, "'/home/user/it'\\''s a project'");
}

#[test]
fn test_escape_single_quoted_bash_empty() {
    let result = escape_single_quoted_bash("");
    assert_eq!(result, "''");
}

#[test]
fn shell_escape_single_quotes_doubles_nothing_else() {
    assert_eq!(shell_escape_single_quotes("a'b'"), "a'\\''b'\\''");
    assert_eq!(shell_escape_single_quotes("plain path"), "plain path");
}

#[test]
fn test_generate_linux_script_with_prompt() {
    let script = generate_linux_launch_script("opencode", "/tmp/proj", true);
    assert!(script.contains("#!/usr/bin/env bash"), "Script should have shebang");
    assert!(script.contains("cd '/tmp/proj'"), "Script should cd to project dir, got: {}", script);
    assert!(script.contains("--prompt"), "Script should use --prompt flag, got: {}", script);
    assert!(script.contains("$(cat"), "Script should use cat for prompt, got: {}", script);
    assert!(script.contains("read -r -p"), "Script should have read prompt to keep terminal open");
}

#[test]
fn test_generate_linux_script_without_prompt() {
    let script = generate_linux_launch_script("opencode", "/tmp/proj", false);
    assert!(script.contains("#!/usr/bin/env bash"));
    assert!(!script.contains("--prompt"), "Script should NOT use --prompt when no prompt exists, got: {}", script);
    assert!(!script.contains("$(cat"), "Script should NOT use cat when no prompt exists");
    assert!(script.contains("read -r -p"), "Script should have read prompt to keep terminal open");
}

#[test]
fn test_generate_linux_script_no_positional_prompt_path() {
    let script = generate_linux_launch_script("opencode", "/tmp/proj", true);
    let lines: Vec<&str> = script.lines().collect();

    let mut in_then = false;
    for line in &lines {
        if line.trim() == "then" {
            in_then = true;
            continue;
        }
        if line.trim() == "else" || line.trim() == "fi" {
            in_then = false;
            continue;
        }
        if in_then && line.contains("opencode") && !line.starts_with('#') {
            assert!(
                line.contains("--prompt"),
                "OpenCode invocation in then-branch should use --prompt flag. Got: {}",
                line
            );
        }
    }
}

#[test]
fn test_generate_linux_script_with_custom_command() {
    let script = generate_linux_launch_script("/usr/local/bin/opencode", "/tmp/proj", false);
    assert!(script.contains("/usr/local/bin/opencode"));
}

#[test]
fn linux_script_exact_text() {
    let script = generate_linux_launch_script("  opencode \n", "/tmp/it's", true);
    assert_eq!(
        script,
        "#!/usr/bin/env bash\ncd '/tmp/it'\\''s'\n\nif [ -f '.context-bridge/launch-prompt.md' ]; then\n  opencode --prompt \"$(cat '.context-bridge/launch-prompt.md')\"\nelse\n  opencode\nfi\n\necho\nread -r -p \"OpenCode session ended. Press Enter to close...\"\n"
    );
}

#[test]
fn test_terminal_launch_args_gnome_terminal() {
    let script = "/tmp/test/script.sh";
    let (bin, args) = terminal_launch_args("gnome-terminal", script).unwrap();
    assert_eq!(bin, "gnome-terminal");
    assert_eq!(args[0], "--");
    assert_eq!(args[1], "bash");
    assert!(args[2].contains("script.sh"));
}

#[test]
fn test_terminal_launch_args_konsole() {
    let script = "/tmp/test/script.sh";
    let (bin, args) = terminal_launch_args("konsole", script).unwrap();
    assert_eq!(bin, "konsole");
    assert_eq!(args[0], "-e");
    assert_eq!(args[1], "bash");
}

#[test]
fn test_terminal_launch_args_xterm() {
    let script = "/tmp/test/script.sh";
    let (bin, args) = terminal_launch_args("xterm", script).unwrap();
    assert_eq!(bin, "xterm");
    assert_eq!(args[0], "-e");
    assert_eq!(args[1], "bash");
}

#[test]
fn test_terminal_launch_args_unknown() {
    let script = "/tmp/test/script.sh";
    assert!(terminal_launch_args("not-a-terminal", script).is_none());
}

#[test]
fn test_terminal_launch_args_kitty() {
    let script = "/tmp/test/script.sh";
    let (bin, args) = terminal_launch_args("kitty", script).unwrap();
    assert_eq!(bin, "kitty");
    assert_eq!(args[0], "bash");
}

#[test]
fn test_terminal_launch_args_xfce4_terminal() {
    let script = "/tmp/test/script.sh";
    let (bin, args) = terminal_launch_args("xfce4-terminal", script).unwrap();
    assert_eq!(bin, "xfce4-terminal");
    assert_eq!(args[0], "--command");
    assert!(args[1].contains("bash '"));
    assert!(args[1].contains("script.sh'"));
}

#[test]
fn terminal_launch_args_remaining_terminals() {
    let (bin, args) = terminal_launch_args("mate-terminal", "/s.sh").unwrap();
    assert_eq!((bin, args), ("mate-terminal", vec!["--".to_string(), "bash".to_string(), "/s.sh".to_string()]));
    let (bin, args) = terminal_launch_args("alacritty", "/s.sh").unwrap();
    assert_eq!((bin, args), ("alacritty", vec!["-e".to_string(), "bash".to_string(), "/s.sh".to_string()]));
    assert_eq!(terminal_launch_args("xfce4-terminal", "/s.sh").unwrap().1[1], "bash '/s.sh'");
}

// --- Windows launcher helpers ---

#[test]
fn test_escape_powershell_single_quoted_plain() {
    let result = escape_powershell_single_quoted(r"C:\Users\test");
    assert_eq!(result, "'C:\\Users\\test'");
}

#[test]
fn test_escape_powershell_single_quoted_with_spaces() {
    let result = escape_powershell_single_quoted(r"C:\Users\Pablo Carrasco\Test Project");
    assert_eq!(result, "'C:\\Users\\Pablo Carrasco\\Test Project'");
}

#[test]
fn test_escape_powershell_single_quoted_with_single_quote() {
    let result = escape_powershell_single_quoted(r"C:\it's here");
    assert_eq!(result, "'C:\\it''s here'");
}

#[test]
fn test_escape_powershell_single_quoted_empty() {
    let result = escape_powershell_single_quoted("");
    assert_eq!(result, "''");
}

#[test]
fn test_generate_windows_script_with_prompt() {
    let script = generate_windows_launch_script("opencode", r"C:\Users\test", true);
    assert!(script.contains("Set-Location -LiteralPath"), "Script should contain Set-Location");
    assert!(script.contains(r".context-bridge\launch-prompt.md"), "Script should reference launch-prompt.md");
    assert!(script.contains("Get-Content -LiteralPath"), "Script should use Get-Content");
    assert!(script.contains("-Raw"), "Script should use -Raw flag");
    assert!(script.contains("$prompt"), "Script should use $prompt variable");
    assert!(script.contains("--prompt $prompt"), "Script should pass --prompt with $prompt, got: {}", script);
    assert!(script.contains("Read-Host"), "Script should have Read-Host to keep terminal open");
}

#[test]
fn test_generate_windows_script_without_prompt() {
    let script = generate_windows_launch_script("opencode", r"C:\Users\test", false);
    assert!(script.contains("Set-Location -LiteralPath"));
    assert!(!script.contains("--prompt"), "Script should NOT use --prompt when no prompt exists, got: {}", script);
    assert!(!script.contains("$prompt"), "Script should not reference $prompt when no prompt");
    assert!(script.contains("Read-Host"), "Script should have Read-Host");
}

#[test]
fn test_generate_windows_script_no_positional_prompt_path() {
    let script = generate_windows_launch_script("opencode", r"C:\Users\test", true);
    let lines: Vec<&str> = script.lines().collect();
    for line in &lines {
        if line.contains("opencode") {
            assert!(
                !line.contains(r"launch-prompt.md"),
                "OpenCode invocation should not receive launch-prompt.md as positional arg. Got: {}",
                line
            );
        }
    }
}

#[test]
fn test_generate_windows_script_with_opencode_cmd() {
    let script = generate_windows_launch_script("opencode.cmd", r"C:\test", true);
    assert!(script.contains("opencode.cmd --prompt $prompt"), "Should support opencode.cmd");
}

#[test]
fn test_generate_windows_script_with_full_path() {
    let script = generate_windows_launch_script(r"C:\tools\opencode.exe", r"C:\test", false);
    assert!(script.contains(r"C:\tools\opencode.exe"), "Should support full paths");
}

#[test]
fn test_generate_windows_script_path_inside_context_bridge() {
    let script = generate_windows_launch_script("opencode", r"C:\Users\test", true);
    assert!(
        !script.contains("..\\") && !script.contains("../"),
        "Script should not contain path traversal patterns"
    );
}

#[test]
fn windows_script_exact_text_without_prompt() {
    let script = generate_windows_launch_script(" opencode ", r"C:\a b", false);
    assert_eq!(
        script,
        "Set-Location -LiteralPath 'C:\\a b'\n\nopencode\n\nWrite-Host \"\"\nWrite-Host \"OpenCode session ended. Press Enter to close...\"\nRead-Host\n"
    );
}

#[test]
fn macos_script_quotes_path_and_prompt() {
    let script = macos_terminal_script("opencode", "/Users/me/it's \"x\"", Some("/p/l.md"));
    assert_eq!(
        script,
        "tell application \"Terminal\" to do script \"cd '/Users/me/it'\\\\''s \\\"x\\\"' && opencode --prompt \\\"$(cat '/p/l.md')\\\"; exit\""
    );
    let plain = macos_terminal_script("opencode", "/tmp", None);
    assert_eq!(plain, "tell application \"Terminal\" to do script \"cd '/tmp' && opencode; exit\"");
}

#[test]
fn direct_launch_command_splits_words() {
    let (exe, args) = direct_launch_command("  my\topencode  --flag ", None).unwrap();
    assert_eq!(exe, "my");
    assert_eq!(args, vec!["opencode".to_string(), "--flag".to_string()]);
    let (exe, args) = direct_launch_command("opencode", Some("/p/it's.md")).unwrap();
    assert_eq!(exe, "opencode");
    assert_eq!(args, vec!["--prompt".to_string(), "\"$(cat".to_string(), "'/p/it'\\''s.md')\"".to_string()]);
    assert_eq!(direct_launch_command(" \n ", None).unwrap_err(), "OpenCode command is empty.");
}

#[test]
fn linux_terminals_in_order() {
    let names = contextdock::shell::linux_terminals();
    assert_eq!(
        names,
        vec!["gnome-terminal", "konsole", "xfce4-terminal", "mate-terminal", "alacritty", "kitty", "xterm"]
    );
    for n in &names {
        assert!(terminal_launch_args(n, "/s.sh").is_some());
    }
}

#[test]
fn quoting_round_trips_through_shells() {
    // bash: '...' runs joined with \' give back the text
    let q = escape_single_quoted_bash("a'b c''");
    assert_eq!(q, "'a'\\''b c'\\'''\\'''");
    // powershell: '' inside single quotes is one quote
    let p = escape_powershell_single_quoted("it''s");
    assert_eq!(p, "'it''''s'");
}

#[test]
fn linux_script_prompt_flag_only_with_prompt() {
    let with = generate_linux_launch_script("  /usr/local/bin/opencode ", "/home/u/it's here", true);
    let without = generate_linux_launch_script("  /usr/local/bin/opencode ", "/home/u/it's here", false);
    assert!(with.contains("--prompt"));
    assert!(!without.contains("--prompt"));
    assert!(without.starts_with("#!/usr/bin/env bash\ncd '/home/u/it'\\''s here'\n\n"));
    assert_eq!(with, generate_linux_launch_script("/usr/local/bin/opencode", "/home/u/it's here", true));
}

#[test]
fn windows_script_shape() {
    let s = generate_windows_launch_script(" opencode.cmd ", r"C:\test", true);
    assert!(s.starts_with("Set-Location -LiteralPath 'C:\\test'\n\n"));
    assert!(s.ends_with("Read-Host\n"));
    assert!(s.contains("opencode.cmd --prompt $prompt"));
    assert_eq!(s, generate_windows_launch_script("opencode.cmd", r"C:\test", true));
}

#[test]
fn linux_launch_attempts_in_order() {
    let sp = "/p/.context-bridge/launch-opencode.sh";
    let first = linux_launch_attempt(sp, 0).unwrap();
    assert_eq!(first.program, "gnome-terminal");
    assert_eq!(first.args, vec!["--", "bash", sp]);
    assert!(!first.last);
    let xterm = linux_launch_attempt(sp, 6).unwrap();
    assert_eq!(xterm.program, "xterm");
    assert!(!xterm.last);
    let fallback = linux_launch_attempt(sp, 7).unwrap();
    assert_eq!(fallback.program, "bash");
    assert_eq!(fallback.args, vec![sp]);
    assert!(fallback.last);
    assert!(linux_launch_attempt(sp, 8).is_none());
}
