//! The launch prompt handed to OpenCode: project, context files, git status,
//! rules and the requested task.

use vstd::prelude::*;

use crate::git::{commit_fields, texts, CommitFields, CommitInfo, GitInfo};
use crate::projects::ContextFiles;
use crate::text::{
    contains_text, ends_with, occurs_at, starts_with, chars_of, copy_range, decimal, decimal_chars, is_text, join_lines, joined_lines, push_chars,
    push_str, string_from_chars, trim_chars, trimmed,
};

verus! {

/// A generated launch prompt and the file it was written to.
pub struct LaunchPromptResult {
    pub path: String,
    pub content: String,
}

/// The task used when none is requested.
pub const DEFAULT_REQUESTED_TASK: &'static str =
    "Continue from the Current Goal above. Implement the requested task described there using the project context, architecture notes, and recent work.";

/// Bytes that `c` takes in UTF-8.
pub open spec fn utf8_width(c: char) -> nat {
    if c <= '\u{7f}' {
        1
    } else if c <= '\u{7ff}' {
        2
    } else if c <= '\u{ffff}' {
        3
    } else {
        4
    }
}

/// Bytes that `s` takes in UTF-8.
pub open spec fn utf8_len(s: Seq<char>) -> nat
    decreases s.len(),
{
    if s.len() == 0 {
        0
    } else {
        utf8_width(s[0]) + utf8_len(s.drop_first())
    }
}

/// The longest prefix of `s` whose UTF-8 encoding fits in `b` bytes.
pub open spec fn byte_prefix(s: Seq<char>, b: nat) -> Seq<char>
    decreases s.len(),
{
    if s.len() == 0 || utf8_width(s[0]) > b {
        Seq::empty()
    } else {
        seq![s[0]] + byte_prefix(s.drop_first(), (b - utf8_width(s[0])) as nat)
    }
}

/// Cutting `s` after its first seven bytes falls between characters (or `s` is
/// shorter), so that `&s[..7.min(s.len())]` does not panic.
pub open spec fn short_hash_cuttable(s: Seq<char>) -> bool {
    utf8_len(s) <= 7 || utf8_len(byte_prefix(s, 7)) == 7
}

/// The number of items shown out of `n`, at most `cap`.
pub open spec fn shown(n: nat, cap: nat) -> int {
    if n < cap {
        n as int
    } else {
        cap as int
    }
}

/// The Current Goal section: the trimmed `current.md`, unless it is empty or
/// only the template heading.
pub open spec fn current_goal_text(current: Option<Seq<char>>) -> Seq<char> {
    match current {
        Some(c) => {
            let t = trimmed(c);
            if t.len() == 0 || t == "# Current Focus"@ || t == "# Current Focus\n"@ {
                "No current focus has been set yet."@
            } else {
                t
            }
        },
        None => "No current focus has been set yet."@,
    }
}

/// A saved context file, trimmed, or `fallback` where it is missing or blank.
pub open spec fn saved_text(o: Option<Seq<char>>, fallback: Seq<char>) -> Seq<char> {
    match o {
        Some(a) => if trimmed(a).len() == 0 {
            fallback
        } else {
            trimmed(a)
        },
        None => fallback,
    }
}

/// The lines listing one group of changed files: a heading with the count,
/// the first ten files, and a blank line; nothing for an empty group.
pub open spec fn file_group(label: Seq<char>, files: Seq<Seq<char>>) -> Seq<Seq<char>> {
    if files.len() == 0 {
        Seq::empty()
    } else {
        seq!["**"@ + label + " ("@ + decimal(files.len()) + "):**"@] + files.take(
            shown(files.len(), 10),
        ).map_values(|f: Seq<char>| "- "@ + f) + seq![Seq::<char>::empty()]
    }
}

/// The Changed Files part of the Git Status section.
pub open spec fn changed_files_text(g: GitInfo) -> Seq<char> {
    if !g.is_clean {
        joined_lines(
            seq!["### Changed Files\n"@] + file_group("Staged"@, texts(g.staged_files@))
                + file_group("Modified"@, texts(g.unstaged_files@)) + file_group(
                "Untracked"@,
                texts(g.untracked_files@),
            ),
        )
    } else {
        "### Changed Files\n\n(No changes)"@
    }
}

/// One commit in the Recent Commits section: short hash, message and date.
pub open spec fn commit_line(c: CommitFields) -> Seq<char> {
    "- `"@ + byte_prefix(c.0, 7) + "` - "@ + c.1 + " ("@ + c.2 + ")"@
}

/// The Recent Commits section: the first five commits.
pub open spec fn recent_commits_text(cs: Seq<CommitFields>) -> Seq<char> {
    if cs.len() > 0 {
        joined_lines(
            seq!["## Recent Commits\n"@] + cs.take(shown(cs.len(), 5)).map_values(
                |c: CommitFields| commit_line(c),
            ),
        )
    } else {
        "## Recent Commits\n\n(No commits)"@
    }
}

/// The fixed instructions between the commits and the requested task.
pub open spec fn instructions_text() -> Seq<char> {
    "\n\n ## Instructions for OpenCode\n\nYou are working inside this local project.\n\nFollow these rules:\n- Preserve the existing architecture.\n- Do not redesign the app unless explicitly requested.\n- Do not add heavy dependencies.\n- Do not add external APIs unless explicitly requested.\n- Prefer small, reviewable changes.\n- Explain what files you changed and why.\n- After changes, run the project's normal validation commands if available.\n- Do not touch deployment configuration unless explicitly requested.\n\n## Requested Task\n\n"@
}

/// The branch shown in the prompt.
pub open spec fn branch_text(g: GitInfo) -> Seq<char> {
    match g.branch {
        Some(b) => b@,
        None => "unknown"@,
    }
}

/// The whole launch prompt.
pub open spec fn launch_prompt(
    name: Seq<char>,
    path: Seq<char>,
    g: GitInfo,
    ctx: ContextFiles,
    task: Option<Seq<char>>,
) -> Seq<char> {
    let branch = branch_text(g);
    "# OpenCode Launch Prompt\n\n## Project\n\n- Name: "@ + name + "\n- Path: "@ + path
        + "\n- Git repository: "@ + (if g.is_repo {
        "yes"@
    } else {
        "no"@
    }) + "\n- Branch: "@ + branch + "\n\n## Current Goal\n\n"@ + current_goal_text(
        crate::git::opt_text(ctx.current),
    ) + "\n\n## Architecture\n\n"@ + saved_text(
        crate::git::opt_text(ctx.architecture),
        "(No architecture saved yet.)"@,
    ) + "\n\n## Recent Work\n\n"@ + saved_text(
        crate::git::opt_text(ctx.recent_work),
        "(No recent work saved yet.)"@,
    ) + "\n\n## Git Status\n\n- Branch: "@ + branch + "\n- Changed files: "@ + decimal(
        g.changed_files_count as nat,
    ) + "\n\n"@ + changed_files_text(g) + "\n\n"@ + recent_commits_text(
        commit_fields(g.recent_commits@),
    ) + instructions_text() + (match task {
        Some(t) => t,
        None => DEFAULT_REQUESTED_TASK@,
    }) + "\n"@
}

/// The commits that the prompt shows can all be cut to a short hash.
pub open spec fn prompt_hashes_cuttable(g: GitInfo) -> bool {
    forall|i: int|
        0 <= i < shown(g.recent_commits@.len(), 5) ==> short_hash_cuttable(
            #[trigger] g.recent_commits@[i].hash@,
        )
}

proof fn lemma_byte_prefix_step(s: Seq<char>, i: int, b: nat)
    requires
        0 <= i < s.len(),
        utf8_width(s[i]) <= b,
    ensures
        byte_prefix(s.skip(i), b) == seq![s[i]] + byte_prefix(
            s.skip(i + 1),
            (b - utf8_width(s[i])) as nat,
        ),
{
    assert(s.skip(i).drop_first() =~= s.skip(i + 1));
}

fn utf8_width_of(c: char) -> (w: usize)
    ensures
        w == utf8_width(c),
{
    if c <= '\u{7f}' {
        1
    } else if c <= '\u{7ff}' {
        2
    } else if c <= '\u{ffff}' {
        3
    } else {
        4
    }
}

/// The longest prefix of `s` whose UTF-8 encoding fits in `b` bytes.
pub fn byte_prefix_chars(s: &Vec<char>, b: usize) -> (r: Vec<char>)
    ensures
        r@ == byte_prefix(s@, b as nat),
{
    let mut i: usize = 0;
    let mut left: usize = b;
    assert(s@.skip(0) =~= s@);
    while i < s.len() && utf8_width_of(s[i]) <= left
        invariant
            i <= s.len(),
            left <= b,
            byte_prefix(s@, b as nat) == s@.take(i as int) + byte_prefix(s@.skip(i as int), left as nat),
        decreases s.len() - i,
    {
        proof {
            lemma_byte_prefix_step(s@, i as int, left as nat);
            assert(s@.take(i + 1) =~= s@.take(i as int) + seq![s@[i as int]]);
        }
        left = left - utf8_width_of(s[i]);
        i = i + 1;
    }
    assert(byte_prefix(s@.skip(i as int), left as nat) =~= Seq::<char>::empty());
    copy_range(s, 0, i)
}

fn current_goal(current: &Option<String>) -> (r: Vec<char>)
    ensures
        r@ == current_goal_text(crate::git::opt_text(*current)),
{
    match current {
        Some(c) => {
            let t = trim_chars(&chars_of(c.as_str()));
            if t.len() == 0 || is_text(&t, "# Current Focus") || is_text(&t, "# Current Focus\n") {
                chars_of("No current focus has been set yet.")
            } else {
                t
            }
        },
        None => chars_of("No current focus has been set yet."),
    }
}

fn saved_or(o: &Option<String>, fallback: &str) -> (r: Vec<char>)
    ensures
        r@ == saved_text(crate::git::opt_text(*o), fallback@),
{
    match o {
        Some(a) => {
            let t = trim_chars(&chars_of(a.as_str()));
            if t.len() == 0 {
                chars_of(fallback)
            } else {
                t
            }
        },
        None => chars_of(fallback),
    }
}

fn push_file_group(lines: &mut Vec<Vec<char>>, label: &str, files: &Vec<String>)
    ensures
        final(lines)@.map_values(|l: Vec<char>| l@) == old(lines)@.map_values(|l: Vec<char>| l@)
            + file_group(label@, texts(files@)),
{
    let ghost start = lines@.map_values(|l: Vec<char>| l@);
    if files.len() == 0 {
        assert(lines@.map_values(|l: Vec<char>| l@) =~= start + file_group(label@, texts(files@)));
        return;
    }
    let mut head = chars_of("**");
    push_str(&mut head, label);
    push_str(&mut head, " (");
    push_chars(&mut head, &decimal_chars(files.len() as u64));
    push_str(&mut head, "):**");
    lines.push(head);
    let count = if files.len() < 10 {
        files.len()
    } else {
        10
    };
    let ghost shown_files = texts(files@).take(count as int).map_values(|f: Seq<char>| "- "@ + f);
    let mut i: usize = 0;
    while i < count
        invariant
            count <= files.len(),
            count == shown(files@.len(), 10),
            i <= count,
            shown_files == texts(files@).take(count as int).map_values(|f: Seq<char>| "- "@ + f),
            lines@.map_values(|l: Vec<char>| l@) == start + seq![
                "**"@ + label@ + " ("@ + decimal(files@.len()) + "):**"@,
            ] + shown_files.take(i as int),
        decreases count - i,
    {
        let mut item = chars_of("- ");
        push_str(&mut item, files[i].as_str());
        let ghost before = lines@.map_values(|l: Vec<char>| l@);
        lines.push(item);
        assert(shown_files[i as int] == "- "@ + files@[i as int]@);
        assert(shown_files.take(i + 1) =~= shown_files.take(i as int).push(shown_files[i as int]));
        assert(lines@.map_values(|l: Vec<char>| l@) =~= before.push(item@));
        i = i + 1;
    }
    let ghost before = lines@.map_values(|l: Vec<char>| l@);
    lines.push(Vec::new());
    assert(lines@.map_values(|l: Vec<char>| l@) =~= before.push(Seq::<char>::empty()));
    assert(shown_files.take(count as int) =~= shown_files);
    assert(lines@.map_values(|l: Vec<char>| l@) =~= start + file_group(label@, texts(files@)));
}

fn changed_files_section(g: &GitInfo) -> (r: Vec<char>)
    ensures
        r@ == changed_files_text(*g),
{
    if !g.is_clean {
        let mut lines: Vec<Vec<char>> = Vec::new();
        lines.push(chars_of("### Changed Files\n"));
        assert(lines@.map_values(|l: Vec<char>| l@) =~= seq!["### Changed Files\n"@]);
        push_file_group(&mut lines, "Staged", &g.staged_files);
        push_file_group(&mut lines, "Modified", &g.unstaged_files);
        push_file_group(&mut lines, "Untracked", &g.untracked_files);
        join_lines(&lines)
    } else {
        chars_of("### Changed Files\n\n(No changes)")
    }
}

fn commit_line_chars(c: &CommitInfo) -> (r: Vec<char>)
    ensures
        r@ == commit_line(c.fields()),
{
    let mut out = chars_of("- `");
    push_chars(&mut out, &byte_prefix_chars(&chars_of(c.hash.as_str()), 7));
    push_str(&mut out, "` - ");
    push_str(&mut out, c.message.as_str());
    push_str(&mut out, " (");
    push_str(&mut out, c.date.as_str());
    push_str(&mut out, ")");
    out
}

fn recent_commits_section(commits: &Vec<CommitInfo>) -> (r: Vec<char>)
    ensures
        r@ == recent_commits_text(commit_fields(commits@)),
{
    if commits.len() > 0 {
        let ghost cs = commit_fields(commits@);
        let count = if commits.len() < 5 {
            commits.len()
        } else {
            5
        };
        let ghost shown_lines = cs.take(count as int).map_values(|c: CommitFields| commit_line(c));
        let mut lines: Vec<Vec<char>> = Vec::new();
        lines.push(chars_of("## Recent Commits\n"));
        let mut i: usize = 0;
        while i < count
            invariant
                count <= commits.len(),
                count == shown(commits@.len(), 5),
                i <= count,
                cs == commit_fields(commits@),
                shown_lines == cs.take(count as int).map_values(|c: CommitFields| commit_line(c)),
                lines@.map_values(|l: Vec<char>| l@) == seq!["## Recent Commits\n"@]
                    + shown_lines.take(i as int),
            decreases count - i,
        {
            let line = commit_line_chars(&commits[i]);
            let ghost before = lines@.map_values(|l: Vec<char>| l@);
            lines.push(line);
            assert(shown_lines[i as int] == commit_line(commits@[i as int].fields()));
            assert(shown_lines.take(i + 1) =~= shown_lines.take(i as int).push(
                shown_lines[i as int],
            ));
            assert(lines@.map_values(|l: Vec<char>| l@) =~= before.push(line@));
            i = i + 1;
        }
        assert(shown_lines.take(count as int) =~= shown_lines);
        join_lines(&lines)
    } else {
        chars_of("## Recent Commits\n\n(No commits)")
    }
}

/// The launch prompt for the project `project_name` at `project_path`, from its
/// git status, its context files and the requested task (the default task where
/// none is given).
pub fn build_launch_prompt(
    project_name: &str,
    project_path: &str,
    git_info: &GitInfo,
    context_files: &ContextFiles,
    requested_task: Option<&str>,
) -> (r: String)
    requires
        prompt_hashes_cuttable(*git_info),
    ensures
        r@ == launch_prompt(
            project_name@,
            project_path@,
            *git_info,
            *context_files,
            match requested_task {
                Some(t) => Some(t@),
                None => None,
            },
        ),
{
    let branch = match &git_info.branch {
        Some(b) => chars_of(b.as_str()),
        None => chars_of("unknown"),
    };
    let mut out = chars_of("# OpenCode Launch Prompt\n\n## Project\n\n- Name: ");
    push_str(&mut out, project_name);
    push_str(&mut out, "\n- Path: ");
    push_str(&mut out, project_path);
    push_str(&mut out, "\n- Git repository: ");
    if git_info.is_repo {
        push_str(&mut out, "yes");
    } else {
        push_str(&mut out, "no");
    }
    push_str(&mut out, "\n- Branch: ");
    push_chars(&mut out, &branch);
    push_str(&mut out, "\n\n## Current Goal\n\n");
    push_chars(&mut out, &current_goal(&context_files.current));
    push_str(&mut out, "\n\n## Architecture\n\n");
    push_chars(&mut out, &saved_or(&context_files.architecture, "(No architecture saved yet.)"));
    push_str(&mut out, "\n\n## Recent Work\n\n");
    push_chars(&mut out, &saved_or(&context_files.recent_work, "(No recent work saved yet.)"));
    push_str(&mut out, "\n\n## Git Status\n\n- Branch: ");
    push_chars(&mut out, &branch);
    push_str(&mut out, "\n- Changed files: ");
    push_chars(&mut out, &decimal_chars(git_info.changed_files_count as u64));
    push_str(&mut out, "\n\n");
    push_chars(&mut out, &changed_files_section(git_info));
    push_str(&mut out, "\n\n");
    push_chars(&mut out, &recent_commits_section(&git_info.recent_commits));
    push_str(
        &mut out,
        "\n\n ## Instructions for OpenCode\n\nYou are working inside this local project.\n\nFollow these rules:\n- Preserve the existing architecture.\n- Do not redesign the app unless explicitly requested.\n- Do not add heavy dependencies.\n- Do not add external APIs unless explicitly requested.\n- Prefer small, reviewable changes.\n- Explain what files you changed and why.\n- After changes, run the project's normal validation commands if available.\n- Do not touch deployment configuration unless explicitly requested.\n\n## Requested Task\n\n",
    );
    match requested_task {
        Some(t) => push_str(&mut out, t),
        None => push_str(&mut out, DEFAULT_REQUESTED_TASK),
    }
    push_str(&mut out, "\n");
    string_from_chars(&out)
}

/// The requested task that counts: none where it is blank.
pub open spec fn task_given(t: Option<Seq<char>>) -> Option<Seq<char>> {
    match t {
        Some(x) => if trimmed(x).len() == 0 {
            None
        } else {
            Some(x)
        },
        None => None,
    }
}

/// The requested task, dropped where it is blank.
pub fn requested_task_given(task: &Option<String>) -> (r: Option<String>)
    ensures
        crate::git::opt_text(r) == task_given(crate::git::opt_text(*task)),
{
    match task {
        Some(t) => {
            if trim_chars(&chars_of(t.as_str())).len() == 0 {
                None
            } else {
                Some(t.clone())
            }
        },
        None => None,
    }
}

fn utf8_len_of(s: &Vec<char>) -> (n: usize)
    requires
        s.len() <= usize::MAX / 4,
    ensures
        n == utf8_len(s@),
{
    let mut n: usize = 0;
    let mut i: usize = s.len();
    assert(s@.take(s.len() as int) =~= s@);
    while i > 0
        invariant
            i <= s.len() <= usize::MAX / 4,
            n <= 4 * (s.len() - i),
            n + utf8_len(s@.take(i as int)) == utf8_len(s@),
        decreases i,
    {
        proof {
            lemma_utf8_len_split(s@.take(i as int));
            assert(s@.take(i as int).drop_last() =~= s@.take(i - 1));
        }
        n = n + utf8_width_of(s[i - 1]);
        i = i - 1;
    }
    assert(s@.take(0) =~= Seq::<char>::empty());
    n
}

proof fn lemma_utf8_len_split(s: Seq<char>)
    requires
        s.len() > 0,
    ensures
        utf8_len(s) == utf8_len(s.drop_last()) + utf8_width(s.last()),
    decreases s.len(),
{
    if s.len() > 1 {
        lemma_utf8_len_split(s.drop_first());
        assert(s.drop_first().drop_last() =~= s.drop_last().drop_first());
    } else {
        assert(s.drop_last() =~= Seq::<char>::empty());
        assert(s.drop_first() =~= Seq::<char>::empty());
    }
}

/// Whether the short hash of `hash` can be taken (see `short_hash_cuttable`).
pub fn hash_cuttable(hash: &str) -> (r: bool)
    ensures
        r == short_hash_cuttable(hash@),
{
    let h = chars_of(hash);
    if h.len() > 7 {
        // A prefix of at most seven bytes has at most seven characters.
        let p = byte_prefix_chars(&h, 7);
        proof {
            lemma_byte_prefix_short(h@, 7);
        }
        let plen = utf8_len_of(&p);
        if plen == 7 {
            return true;
        }
        proof {
            lemma_utf8_len_at_least_len(h@);
        }
        false
    } else {
        let n = utf8_len_of(&h);
        if n <= 7 {
            true
        } else {
            let p = byte_prefix_chars(&h, 7);
            proof {
                lemma_byte_prefix_short(h@, 7);
            }
            utf8_len_of(&p) == 7
        }
    }
}

proof fn lemma_byte_prefix_short(s: Seq<char>, b: nat)
    ensures
        byte_prefix(s, b).len() <= b,
        utf8_len(byte_prefix(s, b)) <= b,
    decreases s.len(),
{
    if s.len() > 0 && utf8_width(s[0]) <= b {
        lemma_byte_prefix_short(s.drop_first(), (b - utf8_width(s[0])) as nat);
        let p = byte_prefix(s, b);
        assert(p.drop_first() =~= byte_prefix(s.drop_first(), (b - utf8_width(s[0])) as nat));
    }
}

proof fn lemma_utf8_len_at_least_len(s: Seq<char>)
    ensures
        utf8_len(s) >= s.len(),
    decreases s.len(),
{
    if s.len() > 0 {
        lemma_utf8_len_at_least_len(s.drop_first());
    }
}

/// Whether every commit that the prompt shows can be cut to a short hash.
pub fn prompt_hashes_ok(git_info: &GitInfo) -> (r: bool)
    ensures
        r == prompt_hashes_cuttable(*git_info),
{
    let n = if git_info.recent_commits.len() < 5 {
        git_info.recent_commits.len()
    } else {
        5
    };
    let mut i: usize = 0;
    while i < n
        invariant
            n == shown(git_info.recent_commits@.len(), 5),
            i <= n,
            forall|k: int| 0 <= k < i ==> short_hash_cuttable(#[trigger] git_info.recent_commits@[k].hash@),
        decreases n - i,
    {
        if !hash_cuttable(git_info.recent_commits[i].hash.as_str()) {
            return false;
        }
        i = i + 1;
    }
    true
}

/// The launch prompt for the project at `project_path`: `project_name` is the
/// last component of its path (`unknown` where it has none), and a blank
/// requested task counts as none.
pub fn launch_prompt_for(
    project_name: Option<String>,
    project_path: &str,
    git_info: &GitInfo,
    context_files: &ContextFiles,
    requested_task: &Option<String>,
) -> (r: String)
    requires
        prompt_hashes_cuttable(*git_info),
    ensures
        r@ == launch_prompt(
            crate::projects::name_or_unknown(crate::git::opt_text(project_name)),
            project_path@,
            *git_info,
            *context_files,
            task_given(crate::git::opt_text(*requested_task)),
        ),
{
    let name = match project_name {
        Some(n) => n,
        None => "unknown".to_owned(),
    };
    let task = requested_task_given(requested_task);
    match &task {
        Some(t) => build_launch_prompt(name.as_str(), project_path, git_info, context_files, Some(t.as_str())),
        None => build_launch_prompt(name.as_str(), project_path, git_info, context_files, None),
    }
}

/// The message for a project whose context is not initialised yet.
pub const CONTEXT_NOT_INITIALIZED: &'static str =
    ".context-bridge directory not initialized. Please initialize context first.";

/// Why a launch prompt cannot be generated for the project at `path`, if it
/// cannot: the path is missing, or its context is not initialised.
pub open spec fn launch_prompt_refusal(path: Seq<char>, path_exists: bool, context_exists: bool) -> Option<Seq<char>> {
    if !path_exists {
        Some(crate::git::missing_path_text(path))
    } else if !context_exists {
        Some(CONTEXT_NOT_INITIALIZED@)
    } else {
        None
    }
}

/// Whether a launch prompt may be generated for the project at
/// `project_path`; otherwise the message saying why not.
pub fn check_launch_prompt(project_path: &str, path_exists: bool, context_exists: bool) -> (r: Result<(), String>)
    ensures
        match r {
            Ok(()) => launch_prompt_refusal(project_path@, path_exists, context_exists) is None,
            Err(e) => launch_prompt_refusal(project_path@, path_exists, context_exists) == Some(e@),
        },
{
    if !path_exists {
        return Err(crate::git::missing_path_message(project_path));
    }
    if !context_exists {
        return Err(CONTEXT_NOT_INITIALIZED.to_owned());
    }
    Ok(())
}

/// The message for a project without a launch prompt.
pub const NO_LAUNCH_PROMPT: &'static str = "No launch prompt found. Please generate one first.";

/// The launch prompt always ends with the requested task (the default one where
/// none is given), so OpenCode is always told what to do.
pub proof fn lemma_prompt_states_task(
    name: Seq<char>,
    path: Seq<char>,
    g: GitInfo,
    ctx: ContextFiles,
    task: Option<Seq<char>>,
)
    ensures
        ({
            let t = match task {
                Some(t) => t,
                None => DEFAULT_REQUESTED_TASK@,
            };
            let full = launch_prompt(name, path, g, ctx, task);
            ends_with(full, t + "\n"@) && crate::text::contains_text(full, t)
        }),
{
    reveal_strlit("\n");
    let t = match task {
        Some(t) => t,
        None => DEFAULT_REQUESTED_TASK@,
    };
    let full = launch_prompt(name, path, g, ctx, task);
    let nl = "\n"@;
    assert(nl.len() == 1);
    let head = full.take(full.len() - 1 - t.len());
    assert(full =~= head + t + nl);
    assert(full.skip(full.len() - (t + nl).len()) =~= t + nl);
    let at = full.len() - 1 - t.len();
    assert(full.subrange(at, at + t.len()) =~= t);
    assert(crate::text::occurs_at(full, t, at));
}

/// The files of a group, each on a line of its own after `- `.
pub open spec fn bullet_lines(fs: Seq<Seq<char>>) -> Seq<char>
    decreases fs.len(),
{
    if fs.len() == 0 {
        Seq::empty()
    } else {
        bullet_lines(fs.drop_last()) + "\n- "@ + fs.last()
    }
}

/// How a non-empty group of changed files reads in the prompt: a heading with
/// its label and count, its first ten files, and an empty line; an empty group
/// is not shown.
pub open spec fn shown_group(label: Seq<char>, fs: Seq<Seq<char>>) -> Seq<char> {
    if fs.len() == 0 {
        Seq::empty()
    } else {
        "\n**"@ + label + " ("@ + decimal(fs.len()) + "):**"@ + bullet_lines(
            fs.take(if fs.len() < 10 { fs.len() as int } else { 10 }),
        ) + "\n"@
    }
}

/// The lines `ls`, each after a line break.
spec fn after_breaks(ls: Seq<Seq<char>>) -> Seq<char>
    decreases ls.len(),
{
    if ls.len() == 0 {
        Seq::empty()
    } else {
        after_breaks(ls.drop_last()) + seq!['\n'] + ls.last()
    }
}

proof fn lemma_joined_extend(ls: Seq<Seq<char>>, extra: Seq<Seq<char>>)
    requires
        ls.len() >= 1,
    ensures
        joined_lines(ls + extra) == joined_lines(ls) + after_breaks(extra),
    decreases extra.len(),
{
    if extra.len() == 0 {
        assert(ls + extra =~= ls);
        assert(joined_lines(ls) + after_breaks(extra) =~= joined_lines(ls));
    } else {
        let e = extra.drop_last();
        lemma_joined_extend(ls, e);
        let all = ls + extra;
        assert(all.drop_last() =~= ls + e);
        assert(all.last() == extra.last());
        assert(joined_lines(ls) + after_breaks(e) + seq!['\n'] + extra.last() =~= joined_lines(ls) + (
        after_breaks(e) + seq!['\n'] + extra.last()));
    }
}

proof fn lemma_after_breaks_concat(a: Seq<Seq<char>>, b: Seq<Seq<char>>)
    ensures
        after_breaks(a + b) == after_breaks(a) + after_breaks(b),
    decreases b.len(),
{
    if b.len() == 0 {
        assert(a + b =~= a);
        assert(after_breaks(a) + after_breaks(b) =~= after_breaks(a));
    } else {
        lemma_after_breaks_concat(a, b.drop_last());
        assert((a + b).drop_last() =~= a + b.drop_last());
        assert((a + b).last() == b.last());
        assert(after_breaks(a) + after_breaks(b.drop_last()) + seq!['\n'] + b.last() =~= after_breaks(a) + (
        after_breaks(b.drop_last()) + seq!['\n'] + b.last()));
    }
}

proof fn lemma_after_breaks_bullets(fs: Seq<Seq<char>>)
    ensures
        after_breaks(fs.map_values(|f: Seq<char>| "- "@ + f)) == bullet_lines(fs),
    decreases fs.len(),
{
    reveal_strlit("\n- ");
    reveal_strlit("- ");
    if fs.len() == 0 {
        assert(fs.map_values(|f: Seq<char>| "- "@ + f) =~= Seq::<Seq<char>>::empty());
    } else {
        let m = fs.map_values(|f: Seq<char>| "- "@ + f);
        assert(m.drop_last() =~= fs.drop_last().map_values(|f: Seq<char>| "- "@ + f));
        lemma_after_breaks_bullets(fs.drop_last());
        assert(seq!['\n'] + ("- "@ + fs.last()) =~= "\n- "@ + fs.last());
        assert(after_breaks(m) =~= bullet_lines(fs.drop_last()) + ("\n- "@ + fs.last()));
        assert(bullet_lines(fs) =~= bullet_lines(fs.drop_last()) + ("\n- "@ + fs.last()));
    }
}

proof fn lemma_group_shown(label: Seq<char>, fs: Seq<Seq<char>>)
    ensures
        after_breaks(file_group(label, fs)) == shown_group(label, fs),
{
    reveal_strlit("\n**");
    reveal_strlit("**");
    reveal_strlit("\n");
    if fs.len() == 0 {
        assert(file_group(label, fs) =~= Seq::<Seq<char>>::empty());
    } else {
        let h = "**"@ + label + " ("@ + decimal(fs.len()) + "):**"@;
        let shown_fs = fs.take(shown(fs.len(), 10));
        let b = shown_fs.map_values(|f: Seq<char>| "- "@ + f);
        assert(file_group(label, fs) == seq![h] + b + seq![Seq::<char>::empty()]);
        lemma_after_breaks_concat(seq![h] + b, seq![Seq::<char>::empty()]);
        lemma_after_breaks_concat(seq![h], b);
        lemma_after_breaks_bullets(shown_fs);
        assert(after_breaks(Seq::<Seq<char>>::empty()) == Seq::<char>::empty());
        assert(after_breaks(seq![h]) =~= seq!['\n'] + h) by {
            assert(seq![h].drop_last() =~= Seq::<Seq<char>>::empty());
        }
        assert(after_breaks(seq![Seq::<char>::empty()]) =~= seq!['\n']) by {
            assert(seq![Seq::<char>::empty()].drop_last() =~= Seq::<Seq<char>>::empty());
        }
        assert(shown_fs == fs.take(if fs.len() < 10 { fs.len() as int } else { 10 }));
        assert(seq!['\n'] + h + bullet_lines(shown_fs) + seq!['\n'] =~= shown_group(label, fs));
    }
}

/// The Changed Files part, as groups.
proof fn lemma_changed_files_groups(g: GitInfo)
    ensures
        !g.is_clean ==> changed_files_text(g) == "### Changed Files\n"@ + shown_group("Staged"@, texts(g.staged_files@))
            + shown_group("Modified"@, texts(g.unstaged_files@)) + shown_group("Untracked"@, texts(g.untracked_files@)),
{
    if !g.is_clean {
        let gs = file_group("Staged"@, texts(g.staged_files@));
        let gm = file_group("Modified"@, texts(g.unstaged_files@));
        let gu = file_group("Untracked"@, texts(g.untracked_files@));
        let h = seq!["### Changed Files\n"@];
        assert(h + gs + gm + gu =~= h + (gs + gm + gu));
        lemma_joined_extend(h, gs + gm + gu);
        lemma_after_breaks_concat(gs + gm, gu);
        lemma_after_breaks_concat(gs, gm);
        lemma_group_shown("Staged"@, texts(g.staged_files@));
        lemma_group_shown("Modified"@, texts(g.unstaged_files@));
        lemma_group_shown("Untracked"@, texts(g.untracked_files@));
        assert(joined_lines(h) == "### Changed Files\n"@);
    }
}

/// The Recent Commits part begins with its heading.
proof fn lemma_recent_commits_heading(cs: Seq<CommitFields>)
    ensures
        starts_with(recent_commits_text(cs), "## Recent Commits"@),
{
    reveal_strlit("## Recent Commits\n");
    reveal_strlit("## Recent Commits");
    reveal_strlit("## Recent Commits\n\n(No commits)");
    let hd = "## Recent Commits"@;
    if cs.len() > 0 {
        let h = seq!["## Recent Commits\n"@];
        let rest = cs.take(shown(cs.len(), 5)).map_values(|c: CommitFields| commit_line(c));
        lemma_joined_extend(h, rest);
        assert(h + rest =~= seq!["## Recent Commits\n"@] + rest);
        let t = recent_commits_text(cs);
        assert(t == "## Recent Commits\n"@ + after_breaks(rest));
        assert(t.take(hd.len() as int) =~= hd);
    } else {
        assert(recent_commits_text(cs).take(hd.len() as int) =~= hd);
    }
}

/// The Git Status section of the prompt counts the changed files and then
/// lists them: where the work tree is not clean, each non-empty group of
/// staged, modified and untracked files, in that order, with its count and
/// first ten files, right before the Recent Commits heading; where it is
/// clean, that there are no changes.
pub proof fn lemma_prompt_lists_changed_files(
    name: Seq<char>,
    path: Seq<char>,
    g: GitInfo,
    ctx: ContextFiles,
    task: Option<Seq<char>>,
)
    ensures
        !g.is_clean ==> contains_text(
            launch_prompt(name, path, g, ctx, task),
            "\n- Changed files: "@ + decimal(g.changed_files_count as nat) + "\n\n### Changed Files\n"@
                + shown_group("Staged"@, texts(g.staged_files@)) + shown_group("Modified"@, texts(g.unstaged_files@))
                + shown_group("Untracked"@, texts(g.untracked_files@)) + "\n\n## Recent Commits"@,
        ),
        g.is_clean ==> contains_text(
            launch_prompt(name, path, g, ctx, task),
            "\n- Changed files: "@ + decimal(g.changed_files_count as nat)
                + "\n\n### Changed Files\n\n(No changes)\n\n## Recent Commits"@,
        ),
{
    lemma_changed_files_groups(g);
    let recent = recent_commits_text(commit_fields(g.recent_commits@));
    lemma_recent_commits_heading(commit_fields(g.recent_commits@));
    let hd = "## Recent Commits"@;
    let rr = recent.skip(hd.len() as int);
    assert(recent =~= hd + rr);
    let branch = branch_text(g);
    let pre = "# OpenCode Launch Prompt\n\n## Project\n\n- Name: "@ + name + "\n- Path: "@ + path
        + "\n- Git repository: "@ + (if g.is_repo {
        "yes"@
    } else {
        "no"@
    }) + "\n- Branch: "@ + branch + "\n\n## Current Goal\n\n"@ + current_goal_text(
        crate::git::opt_text(ctx.current),
    ) + "\n\n## Architecture\n\n"@ + saved_text(
        crate::git::opt_text(ctx.architecture),
        "(No architecture saved yet.)"@,
    ) + "\n\n## Recent Work\n\n"@ + saved_text(
        crate::git::opt_text(ctx.recent_work),
        "(No recent work saved yet.)"@,
    ) + "\n\n## Git Status\n\n- Branch: "@ + branch;
    let dec = decimal(g.changed_files_count as nat);
    let changed = changed_files_text(g);
    let p1 = pre + "\n- Changed files: "@ + dec + "\n\n"@ + changed + "\n\n"@;
    let tk = match task {
        Some(t) => t,
        None => DEFAULT_REQUESTED_TASK@,
    };
    let full = launch_prompt(name, path, g, ctx, task);
    assert(full == p1 + recent + instructions_text() + tk + "\n"@);
    let mid = "\n- Changed files: "@ + dec + "\n\n"@ + changed + "\n\n"@ + hd;
    lemma_occurs_between(pre, "\n- Changed files: "@ + dec + "\n\n"@ + changed + "\n\n"@, hd, rr, instructions_text() + tk + "\n"@);
    assert(p1 + recent + instructions_text() + tk + "\n"@ =~= pre + ("\n- Changed files: "@ + dec + "\n\n"@ + changed + "\n\n"@) + (hd + rr) + (instructions_text() + tk + "\n"@));
    assert(occurs_at(full, ("\n- Changed files: "@ + dec + "\n\n"@ + changed + "\n\n"@) + hd, pre.len() as int));
    lemma_section_text(g, dec);
}

/// `m + h` occurs right after `a` in `a + m + (h + r) + z`.
proof fn lemma_occurs_between(a: Seq<char>, m: Seq<char>, h: Seq<char>, r: Seq<char>, z: Seq<char>)
    ensures
        occurs_at(a + m + (h + r) + z, m + h, a.len() as int),
{
    let s = a + m + (h + r) + z;
    assert(s.subrange(a.len() as int, (a.len() + m.len() + h.len()) as int) =~= m + h);
}

/// The section text between the count and the commits heading.
proof fn lemma_section_text(g: GitInfo, dec: Seq<char>)
    requires
        !g.is_clean ==> changed_files_text(g) == "### Changed Files\n"@ + shown_group("Staged"@, texts(g.staged_files@))
            + shown_group("Modified"@, texts(g.unstaged_files@)) + shown_group("Untracked"@, texts(g.untracked_files@)),
    ensures
        !g.is_clean ==> "\n- Changed files: "@ + dec + "\n\n"@ + changed_files_text(g) + "\n\n"@ + "## Recent Commits"@
            == "\n- Changed files: "@ + dec + "\n\n### Changed Files\n"@ + shown_group("Staged"@, texts(g.staged_files@))
            + shown_group("Modified"@, texts(g.unstaged_files@)) + shown_group("Untracked"@, texts(g.untracked_files@))
            + "\n\n## Recent Commits"@,
        g.is_clean ==> "\n- Changed files: "@ + dec + "\n\n"@ + changed_files_text(g) + "\n\n"@ + "## Recent Commits"@
            == "\n- Changed files: "@ + dec + "\n\n### Changed Files\n\n(No changes)\n\n## Recent Commits"@,
{
    reveal_strlit("\n\n");
    reveal_strlit("\n\n### Changed Files\n");
    reveal_strlit("### Changed Files\n");
    reveal_strlit("\n\n## Recent Commits");
    reveal_strlit("## Recent Commits");
    reveal_strlit("\n\n### Changed Files\n\n(No changes)\n\n## Recent Commits");
    reveal_strlit("### Changed Files\n\n(No changes)");
    let c = "\n- Changed files: "@ + dec;
    if !g.is_clean {
        let gs = shown_group("Staged"@, texts(g.staged_files@));
        let gm = shown_group("Modified"@, texts(g.unstaged_files@));
        let gu = shown_group("Untracked"@, texts(g.untracked_files@));
        assert(c + "\n\n"@ + ("### Changed Files\n"@ + gs + gm + gu) + "\n\n"@ + "## Recent Commits"@ =~= c
            + "\n\n### Changed Files\n"@ + gs + gm + gu + "\n\n## Recent Commits"@);
    } else {
        assert(c + "\n\n"@ + "### Changed Files\n\n(No changes)"@ + "\n\n"@ + "## Recent Commits"@ =~= c
            + "\n\n### Changed Files\n\n(No changes)\n\n## Recent Commits"@);
    }
}

/// The commits of the Recent Commits section, each on a line of its own: the
/// first seven bytes of its hash in backquotes, its message and its date.
pub open spec fn commit_lines(cs: Seq<CommitFields>) -> Seq<char>
    decreases cs.len(),
{
    if cs.len() == 0 {
        Seq::empty()
    } else {
        commit_lines(cs.drop_last()) + "\n- `"@ + byte_prefix(cs.last().0, 7) + "` - "@ + cs.last().1 + " ("@
            + cs.last().2 + ")"@
    }
}

proof fn lemma_after_breaks_commits(cs: Seq<CommitFields>)
    ensures
        after_breaks(cs.map_values(|c: CommitFields| commit_line(c))) == commit_lines(cs),
    decreases cs.len(),
{
    reveal_strlit("\n- `");
    reveal_strlit("- `");
    if cs.len() == 0 {
        assert(cs.map_values(|c: CommitFields| commit_line(c)) =~= Seq::<Seq<char>>::empty());
    } else {
        let m = cs.map_values(|c: CommitFields| commit_line(c));
        assert(m.drop_last() =~= cs.drop_last().map_values(|c: CommitFields| commit_line(c)));
        lemma_after_breaks_commits(cs.drop_last());
        let c = cs.last();
        assert(m.last() == commit_line(c));
        assert(after_breaks(m) =~= commit_lines(cs.drop_last()) + seq!['\n'] + commit_line(c));
        assert(seq!['\n'] + commit_line(c) =~= "\n- `"@ + byte_prefix(c.0, 7) + "` - "@ + c.1 + " ("@ + c.2 + ")"@);
        assert(commit_lines(cs) =~= commit_lines(cs.drop_last()) + (seq!['\n'] + commit_line(c)));
    }
}

/// The Git Status section ends with the recent commits, right before the
/// instructions: the first five commits, newest first as given, each with its
/// short hash, message and date; or that there are none.
pub proof fn lemma_prompt_lists_commits(
    name: Seq<char>,
    path: Seq<char>,
    g: GitInfo,
    ctx: ContextFiles,
    task: Option<Seq<char>>,
)
    ensures
        ({
            let cs = commit_fields(g.recent_commits@);
            let full = launch_prompt(name, path, g, ctx, task);
            &&& cs.len() > 0 ==> contains_text(
                full,
                "\n\n## Recent Commits\n"@ + commit_lines(cs.take(if cs.len() < 5 { cs.len() as int } else { 5 }))
                    + "\n\n ## Instructions for OpenCode\n"@,
            )
            &&& cs.len() == 0 ==> contains_text(
                full,
                "\n\n## Recent Commits\n\n(No commits)\n\n ## Instructions for OpenCode\n"@,
            )
        }),
{
    let cs = commit_fields(g.recent_commits@);
    let recent = recent_commits_text(cs);
    let shown_cs = cs.take(shown(cs.len(), 5));
    if cs.len() > 0 {
        let h = seq!["## Recent Commits\n"@];
        let rest = shown_cs.map_values(|c: CommitFields| commit_line(c));
        lemma_joined_extend(h, rest);
        lemma_after_breaks_commits(shown_cs);
        assert(h + rest =~= seq!["## Recent Commits\n"@] + rest);
        assert(recent == "## Recent Commits\n"@ + commit_lines(shown_cs));
        assert(shown_cs == cs.take(if cs.len() < 5 { cs.len() as int } else { 5 }));
    }
    let branch = branch_text(g);
    let dec = decimal(g.changed_files_count as nat);
    let p1 = "# OpenCode Launch Prompt\n\n## Project\n\n- Name: "@ + name + "\n- Path: "@ + path
        + "\n- Git repository: "@ + (if g.is_repo {
        "yes"@
    } else {
        "no"@
    }) + "\n- Branch: "@ + branch + "\n\n## Current Goal\n\n"@ + current_goal_text(
        crate::git::opt_text(ctx.current),
    ) + "\n\n## Architecture\n\n"@ + saved_text(
        crate::git::opt_text(ctx.architecture),
        "(No architecture saved yet.)"@,
    ) + "\n\n## Recent Work\n\n"@ + saved_text(
        crate::git::opt_text(ctx.recent_work),
        "(No recent work saved yet.)"@,
    ) + "\n\n## Git Status\n\n- Branch: "@ + branch + "\n- Changed files: "@ + dec + "\n\n"@
        + changed_files_text(g);
    let tk = match task {
        Some(t) => t,
        None => DEFAULT_REQUESTED_TASK@,
    };
    let full = launch_prompt(name, path, g, ctx, task);
    assert(full == p1 + "\n\n"@ + recent + instructions_text() + tk + "\n"@);
    let ins = instructions_text();
    let ih = "\n\n ## Instructions for OpenCode\n"@;
    reveal_strlit("\n\n ## Instructions for OpenCode\n");
    reveal_strlit("\n\n ## Instructions for OpenCode\n\nYou are working inside this local project.\n\nFollow these rules:\n- Preserve the existing architecture.\n- Do not redesign the app unless explicitly requested.\n- Do not add heavy dependencies.\n- Do not add external APIs unless explicitly requested.\n- Prefer small, reviewable changes.\n- Explain what files you changed and why.\n- After changes, run the project's normal validation commands if available.\n- Do not touch deployment configuration unless explicitly requested.\n\n## Requested Task\n\n");
    assert(ins.take(ih.len() as int) =~= ih);
    let ir = ins.skip(ih.len() as int);
    assert(ins =~= ih + ir);
    let m = "\n\n"@ + recent;
    lemma_occurs_between(p1, m, ih, ir, tk + "\n"@);
    assert(full =~= p1 + m + (ih + ir) + (tk + "\n"@));
    reveal_strlit("\n\n");
    reveal_strlit("\n\n## Recent Commits\n");
    reveal_strlit("## Recent Commits\n");
    reveal_strlit("## Recent Commits\n\n(No commits)");
    reveal_strlit("\n\n## Recent Commits\n\n(No commits)\n\n ## Instructions for OpenCode\n");
    if cs.len() > 0 {
        assert(m + ih =~= "\n\n## Recent Commits\n"@ + commit_lines(cs.take(if cs.len() < 5 { cs.len() as int } else { 5 }))
            + "\n\n ## Instructions for OpenCode\n"@);
    } else {
        assert(m + ih =~= "\n\n## Recent Commits\n\n(No commits)\n\n ## Instructions for OpenCode\n"@);
    }
}

/// The prompt opens with the project: its name and path, whether it is a git
/// repository, its branch (`unknown` where git gave none), and then the
/// Current Goal heading.
pub proof fn lemma_prompt_header(
    name: Seq<char>,
    path: Seq<char>,
    g: GitInfo,
    ctx: ContextFiles,
    task: Option<Seq<char>>,
)
    ensures
        starts_with(
            launch_prompt(name, path, g, ctx, task),
            "# OpenCode Launch Prompt\n\n## Project\n\n- Name: "@ + name + "\n- Path: "@ + path + "\n- Git repository: "@
                + (if g.is_repo {
                "yes"@
            } else {
                "no"@
            }) + "\n- Branch: "@ + (match g.branch {
                Some(b) => b@,
                None => "unknown"@,
            }) + "\n\n## Current Goal\n\n"@,
        ),
{
    let full = launch_prompt(name, path, g, ctx, task);
    let h = "# OpenCode Launch Prompt\n\n## Project\n\n- Name: "@ + name + "\n- Path: "@ + path + "\n- Git repository: "@
        + (if g.is_repo {
        "yes"@
    } else {
        "no"@
    }) + "\n- Branch: "@ + branch_text(g) + "\n\n## Current Goal\n\n"@;
    assert(full.take(h.len() as int) =~= h);
}

/// `a + m` is followed by `z`: `m` occurs right after `a`.
proof fn lemma_occurs_after(a: Seq<char>, m: Seq<char>, z: Seq<char>)
    ensures
        occurs_at(a + m + z, m, a.len() as int),
{
    assert((a + m + z).subrange(a.len() as int, (a.len() + m.len()) as int) =~= m);
}

/// The prompt carries the project's notes under their headings: the current
/// goal (the trimmed `current.md`, unless it is missing, blank or only its
/// template heading, where it says no focus is set), then the trimmed
/// architecture and recent work notes (each with a note of its own where
/// missing or blank), and then the Git Status heading.
pub proof fn lemma_prompt_context_sections(
    name: Seq<char>,
    path: Seq<char>,
    g: GitInfo,
    ctx: ContextFiles,
    task: Option<Seq<char>>,
)
    ensures
        ({
            let goal = match ctx.current {
                Some(c) => if trimmed(c@).len() == 0 || trimmed(c@) == "# Current Focus"@ {
                    "No current focus has been set yet."@
                } else {
                    trimmed(c@)
                },
                None => "No current focus has been set yet."@,
            };
            let arch = match ctx.architecture {
                Some(a) => if trimmed(a@).len() == 0 {
                    "(No architecture saved yet.)"@
                } else {
                    trimmed(a@)
                },
                None => "(No architecture saved yet.)"@,
            };
            let work = match ctx.recent_work {
                Some(w) => if trimmed(w@).len() == 0 {
                    "(No recent work saved yet.)"@
                } else {
                    trimmed(w@)
                },
                None => "(No recent work saved yet.)"@,
            };
            contains_text(
                launch_prompt(name, path, g, ctx, task),
                "\n\n## Current Goal\n\n"@ + goal + "\n\n## Architecture\n\n"@ + arch + "\n\n## Recent Work\n\n"@ + work
                    + "\n\n## Git Status\n\n- Branch: "@,
            )
        }),
{
    let branch = branch_text(g);
    let pre = "# OpenCode Launch Prompt\n\n## Project\n\n- Name: "@ + name + "\n- Path: "@ + path
        + "\n- Git repository: "@ + (if g.is_repo {
        "yes"@
    } else {
        "no"@
    }) + "\n- Branch: "@ + branch;
    let goal = current_goal_text(crate::git::opt_text(ctx.current));
    let arch = saved_text(crate::git::opt_text(ctx.architecture), "(No architecture saved yet.)"@);
    let work = saved_text(crate::git::opt_text(ctx.recent_work), "(No recent work saved yet.)"@);
    let mid = "\n\n## Current Goal\n\n"@ + goal + "\n\n## Architecture\n\n"@ + arch + "\n\n## Recent Work\n\n"@ + work
        + "\n\n## Git Status\n\n- Branch: "@;
    let tk = match task {
        Some(t) => t,
        None => DEFAULT_REQUESTED_TASK@,
    };
    let z = branch + "\n- Changed files: "@ + decimal(g.changed_files_count as nat) + "\n\n"@ + changed_files_text(g)
        + "\n\n"@ + recent_commits_text(commit_fields(g.recent_commits@)) + instructions_text() + tk + "\n"@;
    let full = launch_prompt(name, path, g, ctx, task);
    assert(full =~= pre + mid + z);
    lemma_occurs_after(pre, mid, z);
    reveal_strlit("# Current Focus");
    reveal_strlit("# Current Focus\n");
    match ctx.current {
        Some(c) => {
            let t = trimmed(c@);
            if t == "# Current Focus\n"@ {
                crate::text::lemma_trim_end_shape(crate::text::trim_start(c@));
                assert(t.last() == '\n');
                assert(crate::text::is_white_space('\n'));
            }
        },
        None => {},
    }
}

} // verus!
