//! Quoting and launch scripts for starting OpenCode in a terminal.

use vstd::prelude::*;

use crate::text::{
    contains_text, ends_with, lemma_trimmed_idempotent, lemma_trimmed_within, occurs_at, starts_with, words_chars, words_of, lemma_replaced_absent, lemma_replaced_concat, lemma_replaced_single, chars_of, copy_range, is_text, push_chars, push_str, replace_char,
    replaced, string_from_chars, trim_chars, trimmed,
};

verus! {

/// Where the launch prompt lives, relative to the project, with `/` separators.
pub open spec fn unix_prompt_rel() -> Seq<char> {
    ".context-bridge/launch-prompt.md"@
}

/// Where the launch prompt lives, relative to the project, with `\` separators.
pub open spec fn windows_prompt_rel() -> Seq<char> {
    ".context-bridge\\launch-prompt.md"@
}

/// `s` with each single quote closed, escaped and reopened (`'` becomes `'\''`),
/// for use inside a single-quoted shell word.
pub open spec fn shell_single_quote_escaped(s: Seq<char>) -> Seq<char> {
    replaced(s, '\'', "'\\''"@)
}

/// `s` as one single-quoted bash word.
pub open spec fn bash_quoted(s: Seq<char>) -> Seq<char> {
    seq!['\''] + shell_single_quote_escaped(s) + seq!['\'']
}

/// `s` as one single-quoted PowerShell string (`'` doubled inside).
pub open spec fn powershell_quoted(s: Seq<char>) -> Seq<char> {
    seq!['\''] + replaced(s, '\'', "''"@) + seq!['\'']
}

/// The command line that runs `cmd`, with the prompt read from the file at `prompt`
/// when there is one.
pub open spec fn shell_command(cmd: Seq<char>, prompt: Option<Seq<char>>) -> Seq<char> {
    match prompt {
        Some(p) => cmd + " --prompt \"$(cat '"@ + p + "')\""@,
        None => cmd,
    }
}

/// The bash script that enters `path` and runs `cmd`, passing the launch prompt's
/// contents with `--prompt` when `has_prompt` and the prompt file exists.
pub open spec fn linux_script(cmd: Seq<char>, path: Seq<char>, has_prompt: bool) -> Seq<char> {
    let c = trimmed(cmd);
    let prompt = bash_quoted(unix_prompt_rel());
    let with_prompt = if has_prompt {
        c + " --prompt \"$(cat "@ + prompt + ")\""@
    } else {
        c
    };
    "#!/usr/bin/env bash\ncd "@ + bash_quoted(path) + "\n\nif [ -f "@ + prompt + " ]; then\n  "@
        + with_prompt + "\nelse\n  "@ + c
        + "\nfi\n\necho\nread -r -p \"OpenCode session ended. Press Enter to close...\"\n"@
}

/// The PowerShell script that enters `path` and runs `cmd`, passing the launch
/// prompt's contents with `--prompt` when `has_prompt` and the prompt file exists.
pub open spec fn windows_script(cmd: Seq<char>, path: Seq<char>, has_prompt: bool) -> Seq<char> {
    let c = trimmed(cmd);
    let pl = powershell_quoted(windows_prompt_rel());
    let body = if has_prompt {
        "if (Test-Path -LiteralPath "@ + pl + ") {\n    $prompt = Get-Content -LiteralPath "@ + pl
            + " -Raw\n    "@ + c + " --prompt $prompt\n} else {\n    "@ + c + "\n}\n\n"@
    } else {
        c + "\n\n"@
    };
    "Set-Location -LiteralPath "@ + powershell_quoted(path) + "\n\n"@ + body
        + "Write-Host \"\"\n"@ + "Write-Host \"OpenCode session ended. Press Enter to close...\"\n"@
        + "Read-Host\n"@
}

/// `s` with `\` and `"` escaped for a double-quoted AppleScript string.
pub open spec fn applescript_escaped(s: Seq<char>) -> Seq<char> {
    replaced(replaced(s, '\\', "\\\\"@), '"', "\\\""@)
}

/// The AppleScript that opens Terminal.app in `cwd` and runs `cmd`, with the
/// prompt file at `prompt` when there is one.
pub open spec fn macos_script(cmd: Seq<char>, cwd: Seq<char>, prompt: Option<Seq<char>>) -> Seq<char> {
    let line = shell_command(
        cmd,
        match prompt {
            Some(p) => Some(shell_single_quote_escaped(p)),
            None => None,
        },
    );
    "tell application \"Terminal\" to do script \"cd '"@ + applescript_escaped(
        shell_single_quote_escaped(cwd),
    ) + "' && "@ + applescript_escaped(line) + "; exit\""@
}

/// The program and arguments that open the terminal `term` on the bash script at `sp`,
/// for the terminals that the launcher knows.
pub open spec fn terminal_args(term: Seq<char>, sp: Seq<char>) -> Option<(Seq<char>, Seq<Seq<char>>)> {
    if term == "gnome-terminal"@ {
        Some(("gnome-terminal"@, seq!["--"@, "bash"@, sp]))
    } else if term == "konsole"@ {
        Some(("konsole"@, seq!["-e"@, "bash"@, sp]))
    } else if term == "xfce4-terminal"@ {
        Some(("xfce4-terminal"@, seq!["--command"@, "bash '"@ + sp + "'"@]))
    } else if term == "mate-terminal"@ {
        Some(("mate-terminal"@, seq!["--"@, "bash"@, sp]))
    } else if term == "alacritty"@ {
        Some(("alacritty"@, seq!["-e"@, "bash"@, sp]))
    } else if term == "kitty"@ {
        Some(("kitty"@, seq!["bash"@, sp]))
    } else if term == "xterm"@ {
        Some(("xterm"@, seq!["-e"@, "bash"@, sp]))
    } else {
        None
    }
}

/// The views of a list of strings.
pub open spec fn views(v: Seq<String>) -> Seq<Seq<char>> {
    v.map_values(|s: String| s@)
}

/// `s` with each single quote written as `'\''` (macOS launcher).
pub fn shell_escape_single_quotes(s: &str) -> (r: String)
    ensures
        r@ == shell_single_quote_escaped(s@),
{
    let v = chars_of(s);
    let out = replace_char(&v, '\'', "'\\''");
    string_from_chars(&out)
}

/// `s` as one single-quoted PowerShell string.
pub fn escape_powershell_single_quoted(s: &str) -> (r: String)
    ensures
        r@ == powershell_quoted(s@),
{
    let v = chars_of(s);
    let mut out: Vec<char> = Vec::new();
    out.push('\'');
    let inner = replace_char(&v, '\'', "''");
    push_chars(&mut out, &inner);
    out.push('\'');
    assert(out@ =~= powershell_quoted(s@));
    string_from_chars(&out)
}

/// `s` as one single-quoted bash word.
pub fn escape_single_quoted_bash(s: &str) -> (r: String)
    ensures
        r@ == bash_quoted(s@),
{
    let v = chars_of(s);
    let q = bash_quoted_chars(&v);
    string_from_chars(&q)
}

fn bash_quoted_chars(v: &Vec<char>) -> (r: Vec<char>)
    ensures
        r@ == bash_quoted(v@),
{
    let mut out: Vec<char> = Vec::new();
    out.push('\'');
    let inner = replace_char(v, '\'', "'\\''");
    push_chars(&mut out, &inner);
    out.push('\'');
    assert(out@ =~= bash_quoted(v@));
    out
}

fn powershell_quoted_chars(v: &Vec<char>) -> (r: Vec<char>)
    ensures
        r@ == powershell_quoted(v@),
{
    let mut out: Vec<char> = Vec::new();
    out.push('\'');
    let inner = replace_char(v, '\'', "''");
    push_chars(&mut out, &inner);
    out.push('\'');
    assert(out@ =~= powershell_quoted(v@));
    out
}

/// The command line that runs `opencode_cmd`, passing the contents of the prompt
/// file (already escaped for single quotes) with `--prompt` when one is given.
pub fn build_shell_command(opencode_cmd: &str, prompt_path_escaped: Option<&str>) -> (r: String)
    ensures
        r@ == shell_command(
            opencode_cmd@,
            match prompt_path_escaped {
                Some(p) => Some(p@),
                None => None,
            },
        ),
{
    let mut out = chars_of(opencode_cmd);
    match prompt_path_escaped {
        Some(p) => {
            push_str(&mut out, " --prompt \"$(cat '");
            push_str(&mut out, p);
            push_str(&mut out, "')\"");
        },
        None => {},
    }
    string_from_chars(&out)
}

/// The bash script written to `.context-bridge/launch-opencode.sh` on Linux.
pub fn generate_linux_launch_script(opencode_cmd: &str, project_path: &str, has_prompt: bool) -> (r: String)
    ensures
        r@ == linux_script(opencode_cmd@, project_path@, has_prompt),
{
    let cmd = trim_chars(&chars_of(opencode_cmd));
    let prompt = bash_quoted_chars(&chars_of(".context-bridge/launch-prompt.md"));
    let cd_path = bash_quoted_chars(&chars_of(project_path));
    let mut with_prompt = copy_range(&cmd, 0, cmd.len());
    if has_prompt {
        push_str(&mut with_prompt, " --prompt \"$(cat ");
        push_chars(&mut with_prompt, &prompt);
        push_str(&mut with_prompt, ")\"");
    }
    assert(cmd@.subrange(0, cmd@.len() as int) =~= cmd@);
    let mut out: Vec<char> = Vec::new();
    push_str(&mut out, "#!/usr/bin/env bash\ncd ");
    push_chars(&mut out, &cd_path);
    push_str(&mut out, "\n\nif [ -f ");
    push_chars(&mut out, &prompt);
    push_str(&mut out, " ]; then\n  ");
    push_chars(&mut out, &with_prompt);
    push_str(&mut out, "\nelse\n  ");
    push_chars(&mut out, &cmd);
    push_str(
        &mut out,
        "\nfi\n\necho\nread -r -p \"OpenCode session ended. Press Enter to close...\"\n",
    );
    assert(out@ =~= linux_script(opencode_cmd@, project_path@, has_prompt)) by {
        assert(Seq::<char>::empty() + "#!/usr/bin/env bash\ncd "@ =~= "#!/usr/bin/env bash\ncd "@);
    }
    string_from_chars(&out)
}

/// The PowerShell script written to `.context-bridge/launch-opencode.ps1` on Windows.
pub fn generate_windows_launch_script(opencode_cmd: &str, project_path: &str, has_prompt: bool) -> (r: String)
    ensures
        r@ == windows_script(opencode_cmd@, project_path@, has_prompt),
{
    let project_path_escaped = powershell_quoted_chars(&chars_of(project_path));
    let prompt_escaped = powershell_quoted_chars(&chars_of(".context-bridge\\launch-prompt.md"));
    let cmd = trim_chars(&chars_of(opencode_cmd));
    let mut body: Vec<char> = Vec::new();
    if has_prompt {
        push_str(&mut body, "if (Test-Path -LiteralPath ");
        push_chars(&mut body, &prompt_escaped);
        push_str(&mut body, ") {\n    $prompt = Get-Content -LiteralPath ");
        push_chars(&mut body, &prompt_escaped);
        push_str(&mut body, " -Raw\n    ");
        push_chars(&mut body, &cmd);
        push_str(&mut body, " --prompt $prompt\n} else {\n    ");
        push_chars(&mut body, &cmd);
        push_str(&mut body, "\n}\n\n");
        assert(body@ =~= "if (Test-Path -LiteralPath "@ + prompt_escaped@
            + ") {\n    $prompt = Get-Content -LiteralPath "@ + prompt_escaped@ + " -Raw\n    "@
            + cmd@ + " --prompt $prompt\n} else {\n    "@ + cmd@ + "\n}\n\n"@);
    } else {
        push_chars(&mut body, &cmd);
        push_str(&mut body, "\n\n");
        assert(body@ =~= cmd@ + "\n\n"@);
    }
    let mut out: Vec<char> = Vec::new();
    push_str(&mut out, "Set-Location -LiteralPath ");
    push_chars(&mut out, &project_path_escaped);
    push_str(&mut out, "\n\n");
    push_chars(&mut out, &body);
    push_str(&mut out, "Write-Host \"\"\n");
    push_str(&mut out, "Write-Host \"OpenCode session ended. Press Enter to close...\"\n");
    push_str(&mut out, "Read-Host\n");
    assert(out@ =~= windows_script(opencode_cmd@, project_path@, has_prompt));
    string_from_chars(&out)
}

/// The AppleScript that the macOS launcher hands to `osascript -e`.
pub fn macos_terminal_script(opencode_cmd: &str, cwd: &str, prompt_path: Option<&str>) -> (r: String)
    ensures
        r@ == macos_script(
            opencode_cmd@,
            cwd@,
            match prompt_path {
                Some(p) => Some(p@),
                None => None,
            },
        ),
{
    let cwd_escaped = replace_char(&chars_of(cwd), '\'', "'\\''");
    let mut line = chars_of(opencode_cmd);
    match prompt_path {
        Some(p) => {
            let pe = replace_char(&chars_of(p), '\'', "'\\''");
            push_str(&mut line, " --prompt \"$(cat '");
            push_chars(&mut line, &pe);
            push_str(&mut line, "')\"");
        },
        None => {},
    }
    let a = replace_char(&replace_char(&cwd_escaped, '\\', "\\\\"), '"', "\\\"");
    let b = replace_char(&replace_char(&line, '\\', "\\\\"), '"', "\\\"");
    let mut out: Vec<char> = Vec::new();
    push_str(&mut out, "tell application \"Terminal\" to do script \"cd '");
    push_chars(&mut out, &a);
    push_str(&mut out, "' && ");
    push_chars(&mut out, &b);
    push_str(&mut out, "; exit\"");
    assert(out@ =~= macos_script(
        opencode_cmd@,
        cwd@,
        match prompt_path {
            Some(p) => Some(p@),
            None => None,
        },
    ));
    string_from_chars(&out)
}

fn owned(s: &str) -> (r: String)
    ensures
        r@ == s@,
{
    s.to_owned()
}

/// The program and arguments that open the terminal named `term` on the bash
/// script at `script_path`; `None` for a terminal the launcher does not know.
pub fn terminal_launch_args(term: &str, script_path: &str) -> (r: Option<(&'static str, Vec<String>)>)
    ensures
        match r {
            Some((bin, args)) => terminal_args(term@, script_path@) == Some((bin@, views(args@))),
            None => terminal_args(term@, script_path@) is None,
        },
{
    let t = chars_of(term);
    let sp = owned(script_path);
    if is_text(&t, "gnome-terminal") {
        let args = vec![owned("--"), owned("bash"), sp];
        assert(views(args@) =~= seq!["--"@, "bash"@, script_path@]);
        Some(("gnome-terminal", args))
    } else if is_text(&t, "konsole") {
        let args = vec![owned("-e"), owned("bash"), sp];
        assert(views(args@) =~= seq!["-e"@, "bash"@, script_path@]);
        Some(("konsole", args))
    } else if is_text(&t, "xfce4-terminal") {
        let mut c = chars_of("bash '");
        push_str(&mut c, script_path);
        push_str(&mut c, "'");
        let args = vec![owned("--command"), string_from_chars(&c)];
        assert(views(args@) =~= seq!["--command"@, "bash '"@ + script_path@ + "'"@]);
        Some(("xfce4-terminal", args))
    } else if is_text(&t, "mate-terminal") {
        let args = vec![owned("--"), owned("bash"), sp];
        assert(views(args@) =~= seq!["--"@, "bash"@, script_path@]);
        Some(("mate-terminal", args))
    } else if is_text(&t, "alacritty") {
        let args = vec![owned("-e"), owned("bash"), sp];
        assert(views(args@) =~= seq!["-e"@, "bash"@, script_path@]);
        Some(("alacritty", args))
    } else if is_text(&t, "kitty") {
        let args = vec![owned("bash"), sp];
        assert(views(args@) =~= seq!["bash"@, script_path@]);
        Some(("kitty", args))
    } else if is_text(&t, "xterm") {
        let args = vec![owned("-e"), owned("bash"), sp];
        assert(views(args@) =~= seq!["-e"@, "bash"@, script_path@]);
        Some(("xterm", args))
    } else {
        None
    }
}

/// The program and arguments that the launcher runs directly where it knows no
/// terminal: the words of the command line, with the prompt path's quotes escaped.
pub open spec fn direct_launch(cmd: Seq<char>, prompt: Option<Seq<char>>) -> Result<(Seq<char>, Seq<Seq<char>>), Seq<char>> {
    let words = words_of(
        shell_command(
            cmd,
            match prompt {
                Some(p) => Some(shell_single_quote_escaped(p)),
                None => None,
            },
        ),
    );
    if words.len() == 0 {
        Err("OpenCode command is empty."@)
    } else {
        Ok((words[0], words.drop_first()))
    }
}

/// The program and arguments that the launcher runs directly on systems other
/// than Windows, macOS and Linux.
pub fn direct_launch_command(opencode_cmd: &str, prompt_path: Option<&str>) -> (r: Result<(String, Vec<String>), String>)
    ensures
        match r {
            Ok((exe, args)) => direct_launch(
                opencode_cmd@,
                match prompt_path {
                    Some(p) => Some(p@),
                    None => None,
                },
            ) == Ok::<(Seq<char>, Seq<Seq<char>>), Seq<char>>((exe@, views(args@))),
            Err(e) => direct_launch(
                opencode_cmd@,
                match prompt_path {
                    Some(p) => Some(p@),
                    None => None,
                },
            ) == Err::<(Seq<char>, Seq<Seq<char>>), Seq<char>>(e@),
        },
{
    let mut line = chars_of(opencode_cmd);
    match prompt_path {
        Some(p) => {
            let pe = replace_char(&chars_of(p), '\'', "'\\''");
            push_str(&mut line, " --prompt \"$(cat '");
            push_chars(&mut line, &pe);
            push_str(&mut line, "')\"");
        },
        None => {},
    }
    let words = words_chars(&line);
    let ghost ws = words@.map_values(|w: Vec<char>| w@);
    if words.len() == 0 {
        return Err("OpenCode command is empty.".to_owned());
    }
    let exe = string_from_chars(&words[0]);
    let mut args: Vec<String> = Vec::new();
    let mut i: usize = 1;
    while i < words.len()
        invariant
            1 <= i <= words.len(),
            ws == words@.map_values(|w: Vec<char>| w@),
            args@.len() == i - 1,
            forall|k: int| 0 <= k < i - 1 ==> #[trigger] args@[k]@ == ws[k + 1],
        decreases words.len() - i,
    {
        args.push(string_from_chars(&words[i]));
        i = i + 1;
    }
    assert(views(args@) =~= ws.drop_first());
    Ok((exe, args))
}

/// The terminals that the Linux launcher tries, in order.
pub open spec fn linux_terminal_names() -> Seq<Seq<char>> {
    seq![
        "gnome-terminal"@,
        "konsole"@,
        "xfce4-terminal"@,
        "mate-terminal"@,
        "alacritty"@,
        "kitty"@,
        "xterm"@,
    ]
}

/// The terminals that the Linux launcher tries, in order.
pub fn linux_terminals() -> (r: Vec<String>)
    ensures
        views(r@) == linux_terminal_names(),
{
    let r = vec![
        owned("gnome-terminal"),
        owned("konsole"),
        owned("xfce4-terminal"),
        owned("mate-terminal"),
        owned("alacritty"),
        owned("kitty"),
        owned("xterm"),
    ];
    assert(views(r@) =~= linux_terminal_names());
    r
}

/// A program for the launcher to start, with its arguments. Where it fails to
/// start, the launcher goes on to the next attempt, unless this is the `last`
/// one, whose failure it reports.
pub struct LaunchAttempt {
    pub program: String,
    pub args: Vec<String>,
    pub last: bool,
}

/// The `k`-th thing that the Linux launcher tries for the script at `sp`: each
/// known terminal in order, then `bash` on the script directly, then nothing.
pub open spec fn linux_attempt(sp: Seq<char>, k: int) -> Option<(Seq<char>, Seq<Seq<char>>, bool)> {
    if 0 <= k < linux_terminal_names().len() {
        match terminal_args(linux_terminal_names()[k], sp) {
            Some((bin, args)) => Some((bin, args, false)),
            None => None,
        }
    } else if k == linux_terminal_names().len() {
        Some(("bash"@, seq![sp], true))
    } else {
        None
    }
}

/// The `k`-th attempt of the Linux launcher for the script at `script_path`.
pub fn linux_launch_attempt(script_path: &str, k: usize) -> (r: Option<LaunchAttempt>)
    ensures
        match r {
            Some(a) => linux_attempt(script_path@, k as int) == Some((a.program@, views(a.args@), a.last)),
            None => linux_attempt(script_path@, k as int) is None,
        },
{
    let names = linux_terminals();
    if k < names.len() {
        assert(names@[k as int]@ == linux_terminal_names()[k as int]);
        match terminal_launch_args(names[k].as_str(), script_path) {
            Some((bin, args)) => Some(LaunchAttempt { program: owned(bin), args, last: false }),
            None => None,
        }
    } else if k == names.len() {
        let args = vec![owned(script_path)];
        assert(views(args@) =~= seq![script_path@]);
        Some(LaunchAttempt { program: owned("bash"), args, last: true })
    } else {
        None
    }
}

// ---------------------------------------------------------------------------
// Quoting laws
// ---------------------------------------------------------------------------

/// The number of characters of `w` before its first single quote.
pub open spec fn unquoted_run(w: Seq<char>) -> nat
    decreases w.len(),
{
    if w.len() == 0 || w[0] == '\'' {
        0
    } else {
        1 + unquoted_run(w.drop_first())
    }
}

/// What bash makes of a word built from single-quoted runs (`'...'`) and escaped
/// quotes (`\'`); `None` for any other word.
pub open spec fn bash_word_value(w: Seq<char>) -> Option<Seq<char>>
    decreases w.len(),
{
    if w.len() == 0 {
        Some(Seq::empty())
    } else if w[0] == '\'' {
        let body = w.drop_first();
        let n = unquoted_run(body);
        if n >= body.len() {
            None
        } else {
            match bash_word_value(body.skip(n as int + 1)) {
                Some(v) => Some(body.take(n as int) + v),
                None => None,
            }
        }
    } else if w.len() >= 2 && w[0] == '\\' && w[1] == '\'' {
        match bash_word_value(w.skip(2)) {
            Some(v) => Some(seq!['\''] + v),
            None => None,
        }
    } else {
        None
    }
}

/// What PowerShell makes of the inside of a single-quoted string, where `''`
/// stands for one quote; `None` where a quote stands alone.
pub open spec fn powershell_inner_value(w: Seq<char>) -> Option<Seq<char>>
    decreases w.len(),
{
    if w.len() == 0 {
        Some(Seq::empty())
    } else if w[0] == '\'' {
        if w.len() >= 2 && w[1] == '\'' {
            match powershell_inner_value(w.skip(2)) {
                Some(v) => Some(seq!['\''] + v),
                None => None,
            }
        } else {
            None
        }
    } else {
        match powershell_inner_value(w.drop_first()) {
            Some(v) => Some(seq![w[0]] + v),
            None => None,
        }
    }
}

/// What PowerShell makes of a single-quoted string literal.
pub open spec fn powershell_string_value(w: Seq<char>) -> Option<Seq<char>> {
    if w.len() >= 2 && w[0] == '\'' && w.last() == '\'' {
        powershell_inner_value(w.subrange(1, w.len() - 1))
    } else {
        None
    }
}

proof fn lemma_unquoted_run(a: Seq<char>, b: Seq<char>)
    requires
        !a.contains('\''),
    ensures
        unquoted_run(a + seq!['\''] + b) == a.len(),
    decreases a.len(),
{
    if a.len() == 0 {
        assert((a + seq!['\''] + b)[0] == '\'');
    } else {
        assert(a[0] != '\'');
        assert(!a.drop_first().contains('\'')) by {
            if a.drop_first().contains('\'') {
                let i = choose|i: int| 0 <= i < a.drop_first().len() && a.drop_first()[i] == '\'';
                assert(a[i + 1] == '\'');
            }
        }
        lemma_unquoted_run(a.drop_first(), b);
        assert((a + seq!['\''] + b).drop_first() =~= a.drop_first() + seq!['\''] + b);
    }
}

proof fn lemma_first_quote(s: Seq<char>)
    ensures
        unquoted_run(s) <= s.len(),
        unquoted_run(s) < s.len() ==> s[unquoted_run(s) as int] == '\'',
        !s.take(unquoted_run(s) as int).contains('\''),
    decreases s.len(),
{
    if s.len() > 0 && s[0] != '\'' {
        lemma_first_quote(s.drop_first());
        let n = unquoted_run(s.drop_first()) as int;
        let t = s.take(n + 1);
        assert(t =~= seq![s[0]] + s.drop_first().take(n));
        if t.contains('\'') {
            let i = choose|i: int| 0 <= i < t.len() && #[trigger] t[i] == '\'';
            if i > 0 {
                assert(s.drop_first().take(n)[i - 1] == '\'');
            }
        }
    } else {
        assert(s.take(0) =~= Seq::<char>::empty());
    }
}

/// A bash-quoted word means exactly the text that was quoted: paths with
/// spaces or quotes reach the shell unchanged.
pub proof fn lemma_bash_quoting_round_trip(s: Seq<char>)
    ensures
        bash_word_value(bash_quoted(s)) == Some(s),
    decreases s.len(),
{
    reveal_strlit("'\\''");
    let esc = "'\\''"@;
    assert(esc =~= seq!['\'', '\\', '\'', '\'']);
    lemma_first_quote(s);
    let k = unquoted_run(s) as int;
    let a = s.take(k);
    if k == s.len() {
        assert(a =~= s);
        lemma_replaced_absent(s, '\'', esc);
        let w = bash_quoted(s);
        let body = w.drop_first();
        assert(w =~= seq!['\''] + s + seq!['\'']);
        assert(body =~= s + seq!['\''] + Seq::<char>::empty());
        lemma_unquoted_run(s, Seq::<char>::empty());
        assert(body.skip(k + 1) =~= Seq::<char>::empty());
        assert(body.take(k) =~= s);
        assert(w[0] == '\'');
        assert(bash_word_value(body.skip(k + 1)) == Some(Seq::<char>::empty()));
        assert(body.take(k) + Seq::<char>::empty() =~= s);
    } else {
        let rest = s.skip(k + 1);
        assert(s =~= a + seq!['\''] + rest);
        lemma_replaced_concat(a + seq!['\''], rest, '\'', esc);
        lemma_replaced_concat(a, seq!['\''], '\'', esc);
        lemma_replaced_absent(a, '\'', esc);
        lemma_replaced_single('\'', '\'', esc);
        let rr = replaced(rest, '\'', esc);
        let w = bash_quoted(s);
        assert(w =~= seq!['\''] + a + esc + rr + seq!['\'']);
        let body = w.drop_first();
        let tail = seq!['\\', '\'', '\''] + rr + seq!['\''];
        assert(body =~= a + seq!['\''] + tail);
        lemma_unquoted_run(a, tail);
        assert(body.take(k) =~= a);
        assert(body.skip(k + 1) =~= tail);
        lemma_bash_quoting_round_trip(rest);
        assert(tail.skip(2) =~= bash_quoted(rest));
        assert(tail[0] == '\\' && tail[1] == '\'');
        assert(bash_word_value(tail) == Some(seq!['\''] + rest));
        assert(w[0] == '\'');
        assert(k < body.len());
        assert(a + (seq!['\''] + rest) =~= s);
    }
}

proof fn lemma_powershell_inner(s: Seq<char>)
    ensures
        powershell_inner_value(replaced(s, '\'', "''"@)) == Some(s),
    decreases s.len(),
{
    reveal_strlit("''");
    let esc = "''"@;
    assert(esc =~= seq!['\'', '\'']);
    if s.len() > 0 {
        let c = s[0];
        let rest = s.drop_first();
        assert(s =~= seq![c] + rest);
        lemma_replaced_concat(seq![c], rest, '\'', esc);
        lemma_powershell_inner(rest);
        let rr = replaced(rest, '\'', esc);
        lemma_replaced_single(c, '\'', esc);
        if c == '\'' {
            assert(replaced(seq![c], '\'', esc) =~= esc);
            assert((esc + rr).skip(2) =~= rr);
        } else {
            assert(replaced(seq![c], '\'', esc) =~= seq![c]);
            assert((seq![c] + rr).drop_first() =~= rr);
        }
    }
}

/// A PowerShell-quoted string means exactly the text that was quoted.
pub proof fn lemma_powershell_quoting_round_trip(s: Seq<char>)
    ensures
        powershell_string_value(powershell_quoted(s)) == Some(s),
{
    let w = powershell_quoted(s);
    let inner = replaced(s, '\'', "''"@);
    assert(w.subrange(1, w.len() - 1) =~= inner);
    lemma_powershell_inner(s);
}

/// The Linux launch script trims the command itself (trimming it beforehand
/// changes nothing), begins by entering the quoted project folder, runs the
/// trimmed command, and passes `--prompt` when a prompt is expected.
pub proof fn lemma_linux_script_shape(cmd: Seq<char>, path: Seq<char>, has_prompt: bool)
    ensures
        linux_script(trimmed(cmd), path, has_prompt) == linux_script(cmd, path, has_prompt),
        starts_with(
            linux_script(cmd, path, has_prompt),
            "#!/usr/bin/env bash\ncd "@ + bash_quoted(path) + "\n\n"@,
        ),
        contains_text(linux_script(cmd, path, has_prompt), trimmed(cmd)),
        has_prompt ==> contains_text(linux_script(cmd, path, has_prompt), trimmed(cmd) + " --prompt "@),
{
    lemma_trimmed_idempotent(cmd);
    let c = trimmed(cmd);
    let prompt = bash_quoted(unix_prompt_rel());
    let with_prompt = if has_prompt {
        c + " --prompt \"$(cat "@ + prompt + ")\""@
    } else {
        c
    };
    let head = "#!/usr/bin/env bash\ncd "@ + bash_quoted(path) + "\n\n"@;
    let a = "#!/usr/bin/env bash\ncd "@ + bash_quoted(path) + "\n\nif [ -f "@ + prompt + " ]; then\n  "@;
    let rest = "\nelse\n  "@ + c + "\nfi\n\necho\nread -r -p \"OpenCode session ended. Press Enter to close...\"\n"@;
    let script = linux_script(cmd, path, has_prompt);
    assert(script =~= a + with_prompt + rest);
    reveal_strlit("\n\nif [ -f ");
    reveal_strlit("\n\n");
    assert(script.take(head.len() as int) =~= head);
    assert(script.subrange(a.len() as int, (a.len() + c.len()) as int) =~= c);
    assert(occurs_at(script, c, a.len() as int));
    if has_prompt {
        let cp = c + " --prompt "@;
        reveal_strlit(" --prompt \"$(cat ");
        reveal_strlit(" --prompt ");
        assert(script.subrange(a.len() as int, (a.len() + cp.len()) as int) =~= cp);
        assert(occurs_at(script, cp, a.len() as int));
    }
}

/// The Windows launch script trims the command itself (trimming it beforehand
/// changes nothing), begins by entering the quoted project folder, ends by
/// waiting for Enter, runs the trimmed command, and passes `--prompt $prompt`
/// when a prompt is expected.
pub proof fn lemma_windows_script_shape(cmd: Seq<char>, path: Seq<char>, has_prompt: bool)
    ensures
        windows_script(trimmed(cmd), path, has_prompt) == windows_script(cmd, path, has_prompt),
        starts_with(
            windows_script(cmd, path, has_prompt),
            "Set-Location -LiteralPath "@ + powershell_quoted(path) + "\n\n"@,
        ),
        ends_with(windows_script(cmd, path, has_prompt), "Read-Host\n"@),
        contains_text(windows_script(cmd, path, has_prompt), trimmed(cmd)),
        has_prompt ==> contains_text(windows_script(cmd, path, has_prompt), trimmed(cmd) + " --prompt $prompt"@),
{
    lemma_trimmed_idempotent(cmd);
    let c = trimmed(cmd);
    let pl = powershell_quoted(windows_prompt_rel());
    let head = "Set-Location -LiteralPath "@ + powershell_quoted(path) + "\n\n"@;
    let tail = "Write-Host \"\"\n"@ + "Write-Host \"OpenCode session ended. Press Enter to close...\"\n"@
        + "Read-Host\n"@;
    let script = windows_script(cmd, path, has_prompt);
    let last = "Read-Host\n"@;
    assert(script.skip(script.len() - last.len()) =~= last);
    if has_prompt {
        let a = head + "if (Test-Path -LiteralPath "@ + pl + ") {\n    $prompt = Get-Content -LiteralPath "@ + pl
            + " -Raw\n    "@;
        let cp = c + " --prompt $prompt"@;
        let body_rest = "\n} else {\n    "@ + c + "\n}\n\n"@;
        reveal_strlit(" --prompt $prompt\n} else {\n    ");
        reveal_strlit(" --prompt $prompt");
        reveal_strlit("\n} else {\n    ");
        assert(" --prompt $prompt\n} else {\n    "@ =~= " --prompt $prompt"@ + "\n} else {\n    "@);
        assert(script =~= a + cp + body_rest + tail);
        assert(script.take(head.len() as int) =~= head);
        assert(script.subrange(a.len() as int, (a.len() + cp.len()) as int) =~= cp);
        assert(occurs_at(script, cp, a.len() as int));
        assert(script.subrange(a.len() as int, (a.len() + c.len()) as int) =~= c);
        assert(occurs_at(script, c, a.len() as int));
    } else {
        assert(script =~= head + c + "\n\n"@ + tail);
        assert(script.take(head.len() as int) =~= head);
        assert(script.subrange(head.len() as int, (head.len() + c.len()) as int) =~= c);
        assert(occurs_at(script, c, head.len() as int));
    }
}

/// The option that hands OpenCode its prompt.
pub open spec fn prompt_flag() -> Seq<char> {
    "--prompt"@
}

/// `c` is one of the characters of `--prompt`.
pub open spec fn flag_char(c: char) -> bool {
    c == '-' || c == 'p' || c == 'r' || c == 'o' || c == 'm' || c == 't'
}

/// `--prompt` cannot start inside `a` and end inside `b` where the two meet at
/// a character that `--prompt` does not use.
proof fn lemma_flag_free_concat(a: Seq<char>, b: Seq<char>)
    requires
        !contains_text(a, prompt_flag()),
        !contains_text(b, prompt_flag()),
        (a.len() > 0 && !flag_char(a.last())) || (b.len() > 0 && !flag_char(b[0])),
    ensures
        !contains_text(a + b, prompt_flag()),
{
    reveal_strlit("--prompt");
    let f = prompt_flag();
    let s = a + b;
    if contains_text(s, f) {
        let i = choose|i: int| occurs_at(s, f, i);
        if i + f.len() <= a.len() {
            assert(a.subrange(i, i + f.len()) =~= s.subrange(i, i + f.len()));
            assert(occurs_at(a, f, i));
        } else if i >= a.len() {
            assert(b.subrange(i - a.len(), i - a.len() + f.len()) =~= s.subrange(i, i + f.len()));
            assert(occurs_at(b, f, i - a.len()));
        } else {
            let k = a.len() - 1 - i;
            assert(s.subrange(i, i + f.len())[k] == s[a.len() - 1]);
            assert(s.subrange(i, i + f.len())[k + 1] == s[a.len() as int]);
            assert(s[a.len() - 1] == a.last());
            assert(s[a.len() as int] == b[0]);
            assert(flag_char(f[k]) && flag_char(f[k + 1]));
        }
    }
}

/// Text without two dashes in a row does not contain `--prompt`.
proof fn lemma_flag_free_without_double_dash(s: Seq<char>)
    requires
        forall|i: int| 0 <= i < s.len() - 1 ==> !(#[trigger] s[i] == '-' && s[i + 1] == '-'),
    ensures
        !contains_text(s, prompt_flag()),
{
    reveal_strlit("--prompt");
    let f = prompt_flag();
    if contains_text(s, f) {
        let i = choose|i: int| occurs_at(s, f, i);
        assert(s.subrange(i, i + f.len())[0] == s[i]);
        assert(s.subrange(i, i + f.len())[1] == s[i + 1]);
    }
}

/// Where the end of an escaped text has no quote, it is the end of the text
/// itself.
proof fn lemma_escaped_suffix(p: Seq<char>, m: int)
    requires
        0 <= m <= shell_single_quote_escaped(p).len(),
        forall|j: int|
            shell_single_quote_escaped(p).len() - m <= j < shell_single_quote_escaped(p).len()
                ==> #[trigger] shell_single_quote_escaped(p)[j] != '\'',
    ensures
        m <= p.len(),
        shell_single_quote_escaped(p).skip(shell_single_quote_escaped(p).len() - m) == p.skip(p.len() - m),
    decreases p.len(),
{
    reveal_strlit("'\\''");
    let e = shell_single_quote_escaped(p);
    if m == 0 {
        assert(e.skip(e.len() as int) =~= p.skip(p.len() as int));
    } else {
        let q = p.drop_last();
        let eq = shell_single_quote_escaped(q);
        assert(e == eq + (if p.last() == '\'' { "'\\''"@ } else { seq![p.last()] }));
        if p.last() == '\'' {
            assert(e[e.len() - 1] == '\'');
        } else {
            assert forall|j: int| eq.len() - (m - 1) <= j < eq.len() implies #[trigger] eq[j] != '\'' by {
                assert(e[j] == eq[j]);
            }
            lemma_escaped_suffix(q, m - 1);
            assert(e.skip(e.len() - m) =~= eq.skip(eq.len() - (m - 1)).push(p.last()));
            assert(p.skip(p.len() - m) =~= q.skip(q.len() - (m - 1)).push(p.last()));
        }
    }
}

/// Escaping quotes brings in no `--prompt`.
proof fn lemma_escaped_flag_free(p: Seq<char>)
    requires
        !contains_text(p, prompt_flag()),
    ensures
        !contains_text(shell_single_quote_escaped(p), prompt_flag()),
    decreases p.len(),
{
    reveal_strlit("'\\''");
    reveal_strlit("--prompt");
    let f = prompt_flag();
    let e = shell_single_quote_escaped(p);
    if p.len() == 0 {
        assert(e.len() == 0);
        if contains_text(e, f) {
            let i = choose|i: int| occurs_at(e, f, i);
        }
    } else {
        let q = p.drop_last();
        let eq = shell_single_quote_escaped(q);
        if contains_text(q, f) {
            let i = choose|i: int| occurs_at(q, f, i);
            assert(p.subrange(i, i + f.len()) =~= q.subrange(i, i + f.len()));
            assert(occurs_at(p, f, i));
        }
        lemma_escaped_flag_free(q);
        if p.last() == '\'' {
            let r = "'\\''"@;
            assert(e == eq + r);
            if contains_text(r, f) {
                let i = choose|i: int| occurs_at(r, f, i);
            }
            lemma_flag_free_concat(eq, r);
        } else {
            assert(e == eq + seq![p.last()]);
            if contains_text(e, f) {
                let i = choose|i: int| occurs_at(e, f, i);
                if i + f.len() <= eq.len() {
                    assert(eq.subrange(i, i + f.len()) =~= e.subrange(i, i + f.len()));
                    assert(occurs_at(eq, f, i));
                } else {
                    assert(i + f.len() == e.len());
                    assert(e.skip(e.len() - f.len()) =~= e.subrange(i, i + f.len()));
                    assert forall|j: int| e.len() - f.len() <= j < e.len() implies #[trigger] e[j] != '\'' by {
                        assert(e.subrange(i, i + f.len())[j - i] == e[j]);
                    }
                    lemma_escaped_suffix(p, f.len() as int);
                    assert(p.subrange(p.len() - f.len(), p.len() as int) =~= p.skip(p.len() - f.len()));
                    assert(occurs_at(p, f, p.len() - f.len()));
                }
            }
        }
    }
}

/// Trimming brings in no `--prompt`.
proof fn lemma_trimmed_flag_free(s: Seq<char>)
    requires
        !contains_text(s, prompt_flag()),
    ensures
        !contains_text(trimmed(s), prompt_flag()),
{
    let f = prompt_flag();
    let t = trimmed(s);
    lemma_trimmed_within(s);
    let k = choose|k: int| 0 <= k && k + t.len() <= s.len() && #[trigger] s.subrange(k, k + t.len()) == t;
    if contains_text(t, f) {
        let i = choose|i: int| occurs_at(t, f, i);
        assert(s.subrange(k + i, k + i + f.len()) =~= t.subrange(i, i + f.len()));
        assert(occurs_at(s, f, k + i));
    }
}

/// The Linux launch script passes `--prompt` exactly when a prompt is
/// expected, where neither the command nor the project path holds `--prompt`.
pub proof fn lemma_linux_script_prompt_flag(cmd: Seq<char>, path: Seq<char>, has_prompt: bool)
    requires
        !contains_text(cmd, prompt_flag()),
        !contains_text(path, prompt_flag()),
    ensures
        contains_text(linux_script(cmd, path, has_prompt), prompt_flag()) == has_prompt,
{
    reveal_strlit("--prompt");
    reveal_strlit(" --prompt ");
    lemma_linux_script_shape(cmd, path, has_prompt);
    let c = trimmed(cmd);
    let script = linux_script(cmd, path, has_prompt);
    if has_prompt {
        let cp = c + " --prompt "@;
        let i = choose|i: int| occurs_at(script, cp, i);
        let at = i + c.len() + 1;
        assert(script.subrange(at, at + 8) =~= cp.subrange(c.len() + 1 as int, c.len() + 9 as int));
        assert(cp.subrange(c.len() + 1 as int, c.len() + 9 as int) =~= prompt_flag());
        assert(occurs_at(script, prompt_flag(), at));
    } else {
        reveal_strlit("'");
        reveal_strlit(".context-bridge/launch-prompt.md");
        reveal_strlit("#!/usr/bin/env bash\ncd ");
        reveal_strlit("\n\nif [ -f ");
        reveal_strlit(" ]; then\n  ");
        reveal_strlit("\nelse\n  ");
        reveal_strlit("\nfi\n\necho\nread -r -p \"OpenCode session ended. Press Enter to close...\"\n");
        let rel = unix_prompt_rel();
        assert(!rel.contains('\'')) by {
            if rel.contains('\'') {
                let j = choose|j: int| 0 <= j < rel.len() && rel[j] == '\'';
            }
        }
        lemma_replaced_absent(rel, '\'', "'\\''"@);
        let prompt = bash_quoted(rel);
        let k0 = "#!/usr/bin/env bash\ncd "@;
        let k1 = "\n\nif [ -f "@ + prompt + " ]; then\n  "@;
        let k2 = "\nelse\n  "@;
        let k3 = "\nfi\n\necho\nread -r -p \"OpenCode session ended. Press Enter to close...\"\n"@;
        assert(k1 =~= "\n\nif [ -f '.context-bridge/launch-prompt.md' ]; then\n  "@) by {
            reveal_strlit("\n\nif [ -f '.context-bridge/launch-prompt.md' ]; then\n  ");
        }
        lemma_flag_free_without_double_dash(k0);
        lemma_flag_free_without_double_dash(k1);
        lemma_flag_free_without_double_dash(k2);
        lemma_flag_free_without_double_dash(k3);
        let q = bash_quoted(path);
        let esc = shell_single_quote_escaped(path);
        lemma_escaped_flag_free(path);
        lemma_flag_free_without_double_dash(seq!['\'']);
        lemma_flag_free_concat(seq!['\''], esc);
        lemma_flag_free_concat(seq!['\''] + esc, seq!['\'']);
        lemma_trimmed_flag_free(cmd);
        let s1 = k0 + q;
        lemma_flag_free_concat(k0, q);
        lemma_flag_free_concat(s1, k1);
        let s2 = s1 + k1;
        lemma_flag_free_concat(s2, c);
        let s3 = s2 + c;
        lemma_flag_free_concat(s3, k2);
        let s4 = s3 + k2;
        lemma_flag_free_concat(s4, c);
        let s5 = s4 + c;
        lemma_flag_free_concat(s5, k3);
        assert(script =~= s5 + k3);
    }
}

/// With a prompt expected, the Windows script tests for the prompt file; the
/// branch taken when it is found reads the file and runs the trimmed command
/// with `--prompt $prompt`, and the other branch runs the bare command.
pub proof fn lemma_windows_script_branches(cmd: Seq<char>, path: Seq<char>)
    ensures
        ({
            let c = trimmed(cmd);
            let pl = powershell_quoted(windows_prompt_rel());
            exists|found: Seq<char>|
                {
                    &&& contains_text(
                        windows_script(cmd, path, true),
                        "if (Test-Path -LiteralPath "@ + pl + ") {\n"@ + found + "} else {\n    "@ + c
                            + "\n}\n"@,
                    )
                    &&& contains_text(found, "$prompt = Get-Content -LiteralPath "@ + pl + " -Raw"@)
                    &&& contains_text(found, c + " --prompt $prompt"@)
                }
        }),
{
    let c = trimmed(cmd);
    let pl = powershell_quoted(windows_prompt_rel());
    reveal_strlit(") {\n    $prompt = Get-Content -LiteralPath ");
    reveal_strlit(") {\n");
    reveal_strlit("    $prompt = Get-Content -LiteralPath ");
    reveal_strlit("$prompt = Get-Content -LiteralPath ");
    reveal_strlit(" -Raw\n    ");
    reveal_strlit(" -Raw");
    reveal_strlit(" --prompt $prompt\n} else {\n    ");
    reveal_strlit(" --prompt $prompt");
    reveal_strlit("\n");
    reveal_strlit("} else {\n    ");
    reveal_strlit("\n}\n\n");
    reveal_strlit("\n}\n");
    let found = "    $prompt = Get-Content -LiteralPath "@ + pl + " -Raw\n    "@ + c + " --prompt $prompt"@ + "\n"@;
    let block = "if (Test-Path -LiteralPath "@ + pl + ") {\n"@ + found + "} else {\n    "@ + c + "\n}\n"@;
    let head = "Set-Location -LiteralPath "@ + powershell_quoted(path) + "\n\n"@;
    let body = "if (Test-Path -LiteralPath "@ + pl + ") {\n    $prompt = Get-Content -LiteralPath "@ + pl
        + " -Raw\n    "@ + c + " --prompt $prompt\n} else {\n    "@ + c + "\n}\n\n"@;
    assert(body =~= block + "\n"@);
    let script = windows_script(cmd, path, true);
    assert(script =~= head + block + ("\n"@ + "Write-Host \"\"\n"@ + "Write-Host \"OpenCode session ended. Press Enter to close...\"\n"@
        + "Read-Host\n"@));
    assert(script.subrange(head.len() as int, (head.len() + block.len()) as int) =~= block);
    assert(occurs_at(script, block, head.len() as int));
    let g = "$prompt = Get-Content -LiteralPath "@ + pl + " -Raw"@;
    assert(found.subrange(4, 4 + g.len() as int) =~= g);
    assert(occurs_at(found, g, 4));
    let cp = c + " --prompt $prompt"@;
    let at = found.len() - 1 - cp.len();
    assert(found.subrange(at, at + cp.len()) =~= cp);
    assert(occurs_at(found, cp, at));
    assert(contains_text(script, block) && contains_text(found, g) && contains_text(found, cp));
}

/// With a prompt expected, the Linux script tests for the prompt file; the
/// branch taken when it is found runs the trimmed command with `--prompt` and
/// the file's contents, and the other branch runs the bare command.
pub proof fn lemma_linux_script_branches(cmd: Seq<char>, path: Seq<char>)
    ensures
        ({
            let c = trimmed(cmd);
            let prompt = bash_quoted(unix_prompt_rel());
            exists|found: Seq<char>|
                {
                    &&& contains_text(
                        linux_script(cmd, path, true),
                        "if [ -f "@ + prompt + " ]; then\n"@ + found + "else\n  "@ + c + "\nfi\n"@,
                    )
                    &&& contains_text(found, c + " --prompt \"$(cat "@ + prompt + ")\""@)
                }
        }),
{
    let c = trimmed(cmd);
    let prompt = bash_quoted(unix_prompt_rel());
    reveal_strlit("\n\nif [ -f ");
    reveal_strlit("\n\n");
    reveal_strlit("if [ -f ");
    reveal_strlit(" ]; then\n  ");
    reveal_strlit(" ]; then\n");
    reveal_strlit("  ");
    reveal_strlit("\nelse\n  ");
    reveal_strlit("\n");
    reveal_strlit("else\n  ");
    reveal_strlit("\nfi\n\necho\nread -r -p \"OpenCode session ended. Press Enter to close...\"\n");
    reveal_strlit("\nfi\n");
    reveal_strlit("\necho\nread -r -p \"OpenCode session ended. Press Enter to close...\"\n");
    let line = c + " --prompt \"$(cat "@ + prompt + ")\""@;
    let found = "  "@ + line + "\n"@;
    let block = "if [ -f "@ + prompt + " ]; then\n"@ + found + "else\n  "@ + c + "\nfi\n"@;
    let head = "#!/usr/bin/env bash\ncd "@ + bash_quoted(path) + "\n\n"@;
    let script = linux_script(cmd, path, true);
    assert(script =~= head + block + "\necho\nread -r -p \"OpenCode session ended. Press Enter to close...\"\n"@);
    assert(script.subrange(head.len() as int, (head.len() + block.len()) as int) =~= block);
    assert(occurs_at(script, block, head.len() as int));
    assert(found.subrange(2, 2 + line.len() as int) =~= line);
    assert(occurs_at(found, line, 2));
    assert(contains_text(script, block) && contains_text(found, line));
}

} // verus!
