//! App settings: their defaults, where they are stored, and the OpenCode command.

use vstd::prelude::*;

use crate::text::{chars_of, push_str, string_from_chars, trim_chars, trimmed};

verus! {

/// The settings the app keeps between runs.
pub struct AppSettings {
    pub root_projects_path: String,
    pub opencode_command: String,
    pub theme: String,
}

/// The operating system the app runs on.
#[derive(Clone, Copy, Debug, PartialEq, Eq, Structural)]
pub enum Platform {
    Windows,
    MacOs,
    Linux,
    Other,
}

/// `c` separates path components.
pub open spec fn is_separator(p: Platform, c: char) -> bool {
    c == '/' || (p == Platform::Windows && c == '\\')
}

/// The separator that joining paths inserts.
pub open spec fn separator(p: Platform) -> char {
    if p == Platform::Windows {
        '\\'
    } else {
        '/'
    }
}

/// An ASCII letter.
pub open spec fn is_ascii_letter(c: char) -> bool {
    ('a' <= c <= 'z') || ('A' <= c <= 'Z')
}

/// `s` is only a Windows drive prefix (`C:` or `\\?\C:`), after which a
/// relative component is appended without separator.
pub open spec fn bare_drive(p: Platform, s: Seq<char>) -> bool {
    p == Platform::Windows && ((s.len() == 2 && is_ascii_letter(s[0]) && s[1] == ':') || (s.len() == 6
        && s[0] == '\\' && s[1] == '\\' && s[2] == '?' && s[3] == '\\' && is_ascii_letter(s[4])
        && s[5] == ':'))
}

/// `base` joined with the relative path `part` (`Path::join`): a separator goes
/// between them unless `base` is empty, ends with one, or is a bare drive.
pub open spec fn joined_path(p: Platform, base: Seq<char>, part: Seq<char>) -> Seq<char> {
    if base.len() == 0 || is_separator(p, base.last()) || bare_drive(p, base) {
        base + part
    } else {
        base + seq![separator(p)] + part
    }
}

/// The per-user configuration folder: `%APPDATA%` on Windows,
/// `$HOME/Library/Application Support` on macOS, `$HOME/.config` on Linux.
pub open spec fn config_dir_of(p: Platform, appdata: Option<Seq<char>>, home: Option<Seq<char>>) -> Option<Seq<char>> {
    match p {
        Platform::Windows => appdata,
        Platform::MacOs => match home {
            Some(h) => Some(joined_path(p, h, "Library/Application Support"@)),
            None => None,
        },
        Platform::Linux => match home {
            Some(h) => Some(joined_path(p, h, ".config"@)),
            None => None,
        },
        Platform::Other => None,
    }
}

/// The configuration folder, or `.` where there is none.
pub open spec fn config_dir_or_here(dir: Option<Seq<char>>) -> Seq<char> {
    match dir {
        Some(d) => d,
        None => "."@,
    }
}

/// Where the settings file lives.
pub open spec fn settings_path(p: Platform, dir: Option<Seq<char>>) -> Seq<char> {
    joined_path(p, config_dir_or_here(dir), "contextdock-settings.json"@)
}

/// The settings used before any are saved.
pub open spec fn describes_defaults(s: AppSettings, p: Platform, dir: Option<Seq<char>>) -> bool {
    let home = config_dir_or_here(dir);
    &&& s.root_projects_path@ == if p == Platform::Windows {
        joined_path(p, joined_path(p, home, "Documents"@), "Codex"@)
    } else {
        joined_path(p, home, "Projects"@)
    }
    &&& s.opencode_command@ == if p == Platform::Windows {
        "opencode.cmd"@
    } else {
        "opencode"@
    }
    &&& s.theme@ == "dark"@
}

fn letter(c: char) -> (b: bool)
    ensures
        b == is_ascii_letter(c),
{
    ('a' <= c && c <= 'z') || ('A' <= c && c <= 'Z')
}

/// `base` joined with the relative path `part`.
pub fn join_path(p: Platform, base: &str, part: &str) -> (r: String)
    ensures
        r@ == joined_path(p, base@, part@),
{
    let mut v = chars_of(base);
    let n = v.len();
    let sep_last = n > 0 && (v[n - 1] == '/' || (p == Platform::Windows && v[n - 1] == '\\'));
    let drive = p == Platform::Windows && ((n == 2 && letter(v[0]) && v[1] == ':') || (n == 6 && v[0]
        == '\\' && v[1] == '\\' && v[2] == '?' && v[3] == '\\' && letter(v[4]) && v[5] == ':'));
    if !(n == 0 || sep_last || drive) {
        if p == Platform::Windows {
            v.push('\\');
        } else {
            v.push('/');
        }
    }
    push_str(&mut v, part);
    string_from_chars(&v)
}

/// The per-user configuration folder, from `%APPDATA%` or `$HOME`.
pub fn dirs_next(p: Platform, appdata: Option<String>, home: Option<String>) -> (r: Option<String>)
    ensures
        crate::git::opt_text(r) == config_dir_of(
            p,
            crate::git::opt_text(appdata),
            crate::git::opt_text(home),
        ),
{
    match p {
        Platform::Windows => appdata,
        Platform::MacOs => match home {
            Some(h) => Some(join_path(p, h.as_str(), "Library/Application Support")),
            None => None,
        },
        Platform::Linux => match home {
            Some(h) => Some(join_path(p, h.as_str(), ".config")),
            None => None,
        },
        Platform::Other => None,
    }
}

/// Where the settings file lives, given the configuration folder.
pub fn get_settings_path(p: Platform, config_dir: Option<String>) -> (r: String)
    ensures
        r@ == settings_path(p, crate::git::opt_text(config_dir)),
{
    let dir = match config_dir {
        Some(d) => d,
        None => ".".to_owned(),
    };
    join_path(p, dir.as_str(), "contextdock-settings.json")
}

/// The settings used before any are saved: projects under `Documents\Codex`
/// (Windows) or `Projects` of the configuration folder, the `opencode` command,
/// and the dark theme.
pub fn default_settings(p: Platform, config_dir: Option<String>) -> (s: AppSettings)
    ensures
        describes_defaults(s, p, crate::git::opt_text(config_dir)),
{
    let home = match config_dir {
        Some(d) => d,
        None => ".".to_owned(),
    };
    let root = if p == Platform::Windows {
        let docs = join_path(p, home.as_str(), "Documents");
        join_path(p, docs.as_str(), "Codex")
    } else {
        join_path(p, home.as_str(), "Projects")
    };
    AppSettings {
        root_projects_path: root,
        opencode_command: if p == Platform::Windows {
            "opencode.cmd".to_owned()
        } else {
            "opencode".to_owned()
        },
        theme: "dark".to_owned(),
    }
}

/// Why OpenCode cannot be launched with these settings, if it cannot.
pub open spec fn launch_command_result(command: Seq<char>) -> Result<Seq<char>, Seq<char>> {
    if trimmed(command).len() == 0 {
        Err("OpenCode command not configured. Please set it in Settings."@)
    } else {
        Ok(trimmed(command))
    }
}

/// The OpenCode command to launch, trimmed, or the message that none is set.
pub fn launch_command(settings: &AppSettings) -> (r: Result<String, String>)
    ensures
        match r {
            Ok(c) => launch_command_result(settings.opencode_command@) == Ok::<Seq<char>, Seq<char>>(c@),
            Err(e) => launch_command_result(settings.opencode_command@) == Err::<Seq<char>, Seq<char>>(e@),
        },
{
    let cmd = trim_chars(&chars_of(settings.opencode_command.as_str()));
    if cmd.len() == 0 {
        Err("OpenCode command not configured. Please set it in Settings.".to_owned())
    } else {
        Ok(string_from_chars(&cmd))
    }
}

} // verus!
