//! Git status of a project, assembled from the text that `git` prints.

use vstd::prelude::*;

use crate::text::{
    chars_of, lines_chars, lines_of, push_str, split_chars, split_on, string_from_chars,
};

verus! {

/// One commit of the recent history.
pub struct CommitInfo {
    pub hash: String,
    pub message: String,
    pub date: String,
    pub author: String,
}

/// What the app shows of a project's git repository.
pub struct GitInfo {
    pub is_repo: bool,
    pub branch: Option<String>,
    pub is_clean: bool,
    pub changed_files_count: usize,
    pub staged_files: Vec<String>,
    pub unstaged_files: Vec<String>,
    pub untracked_files: Vec<String>,
    pub last_commit_hash: Option<String>,
    pub last_commit_message: Option<String>,
    pub last_commit_date: Option<String>,
    pub recent_commits: Vec<CommitInfo>,
}

/// What each git query printed, trimmed, or `None` where it failed.
pub struct GitOutputs {
    /// `git rev-parse --abbrev-ref HEAD`
    pub branch: Option<String>,
    /// `git status --porcelain`
    pub status: Option<String>,
    /// `git diff --cached --name-only`
    pub staged: Option<String>,
    /// `git diff --name-only`
    pub unstaged: Option<String>,
    /// `git ls-files --others --exclude-standard`
    pub untracked: Option<String>,
    /// `git rev-parse HEAD`
    pub last_hash: Option<String>,
    /// `git log -1 --format=%s`
    pub last_message: Option<String>,
    /// `git log -1 --format=%ar`
    pub last_date: Option<String>,
    /// `git log --format=%H|%s|%ar|%an -5`
    pub log: Option<String>,
}

/// The hash, message, date and author of a commit.
pub type CommitFields = (Seq<char>, Seq<char>, Seq<char>, Seq<char>);

impl CommitInfo {
    pub open spec fn fields(&self) -> CommitFields {
        (self.hash@, self.message@, self.date@, self.author@)
    }
}

/// The views of a list of strings.
pub open spec fn texts(v: Seq<String>) -> Seq<Seq<char>> {
    v.map_values(|s: String| s@)
}

/// The view of an optional string.
pub open spec fn opt_text(o: Option<String>) -> Option<Seq<char>> {
    match o {
        Some(s) => Some(s@),
        None => None,
    }
}

/// The fields of each commit.
pub open spec fn commit_fields(v: Seq<CommitInfo>) -> Seq<CommitFields> {
    v.map_values(|c: CommitInfo| c.fields())
}

/// A `hash|message|date|author` line of `git log`; lines with fewer than four
/// `|`-separated parts are not commits, and parts after the fourth are dropped.
pub open spec fn parse_commit_line(l: Seq<char>) -> Option<CommitFields> {
    let p = split_on(l, '|');
    if p.len() >= 4 {
        Some((p[0], p[1], p[2], p[3]))
    } else {
        None
    }
}

/// The commits among the lines `ls`, in order.
pub open spec fn parse_commit_lines(ls: Seq<Seq<char>>) -> Seq<CommitFields>
    decreases ls.len(),
{
    if ls.len() == 0 {
        Seq::empty()
    } else {
        let rest = parse_commit_lines(ls.drop_last());
        match parse_commit_line(ls.last()) {
            Some(c) => rest.push(c),
            None => rest,
        }
    }
}

/// The lines of an output, none where the query failed.
pub open spec fn output_lines(o: Option<String>) -> Seq<Seq<char>> {
    match o {
        Some(s) => lines_of(s@),
        None => Seq::empty(),
    }
}

/// `GitInfo` for a repository whose queries printed `out`.
pub open spec fn describes_repository(g: GitInfo, out: GitOutputs) -> bool {
    &&& g.is_repo
    &&& opt_text(g.branch) == opt_text(out.branch)
    &&& g.is_clean == match out.status {
        Some(s) => s@.len() == 0,
        None => true,
    }
    &&& g.changed_files_count == output_lines(out.status).len()
    &&& texts(g.staged_files@) == output_lines(out.staged)
    &&& texts(g.unstaged_files@) == output_lines(out.unstaged)
    &&& texts(g.untracked_files@) == output_lines(out.untracked)
    &&& opt_text(g.last_commit_hash) == opt_text(out.last_hash)
    &&& opt_text(g.last_commit_message) == opt_text(out.last_message)
    &&& opt_text(g.last_commit_date) == opt_text(out.last_date)
    &&& commit_fields(g.recent_commits@) == parse_commit_lines(output_lines(out.log))
}

/// `GitInfo` for a directory that is not a git repository.
pub open spec fn describes_non_repository(g: GitInfo) -> bool {
    &&& !g.is_repo
    &&& g.branch is None
    &&& g.is_clean
    &&& g.changed_files_count == 0
    &&& g.staged_files@.len() == 0
    &&& g.unstaged_files@.len() == 0
    &&& g.untracked_files@.len() == 0
    &&& g.last_commit_hash is None
    &&& g.last_commit_message is None
    &&& g.last_commit_date is None
    &&& g.recent_commits@.len() == 0
}

/// The message for a project path that does not exist.
pub open spec fn missing_path_text(path: Seq<char>) -> Seq<char> {
    "Project path does not exist: "@ + path
}

/// The message for a project path that does not exist.
pub fn missing_path_message(project_path: &str) -> (r: String)
    ensures
        r@ == missing_path_text(project_path@),
{
    let mut v = chars_of("Project path does not exist: ");
    push_str(&mut v, project_path);
    string_from_chars(&v)
}

/// The `GitInfo` of a directory without a `.git` directory.
pub fn not_a_repository() -> (g: GitInfo)
    ensures
        describes_non_repository(g),
{
    GitInfo {
        is_repo: false,
        branch: None,
        is_clean: true,
        changed_files_count: 0,
        staged_files: Vec::new(),
        unstaged_files: Vec::new(),
        untracked_files: Vec::new(),
        last_commit_hash: None,
        last_commit_message: None,
        last_commit_date: None,
        recent_commits: Vec::new(),
    }
}

fn copy_text(o: &Option<String>) -> (r: Option<String>)
    ensures
        opt_text(r) == opt_text(*o),
{
    match o {
        Some(s) => Some(s.clone()),
        None => None,
    }
}

fn strings_of(ls: &Vec<Vec<char>>) -> (r: Vec<String>)
    ensures
        texts(r@) == ls@.map_values(|l: Vec<char>| l@),
{
    let mut r: Vec<String> = Vec::new();
    let mut i: usize = 0;
    while i < ls.len()
        invariant
            i <= ls.len(),
            r@.len() == i,
            forall|k: int| 0 <= k < i ==> #[trigger] r@[k]@ == ls@[k]@,
        decreases ls.len() - i,
    {
        r.push(string_from_chars(&ls[i]));
        i = i + 1;
    }
    assert(texts(r@) =~= ls@.map_values(|l: Vec<char>| l@));
    r
}

/// The lines an output printed (`str::lines`), none where the query failed.
pub fn output_line_list(o: &Option<String>) -> (r: Vec<String>)
    ensures
        texts(r@) == output_lines(*o),
{
    match o {
        Some(s) => {
            let ls = lines_chars(&chars_of(s.as_str()));
            strings_of(&ls)
        },
        None => Vec::new(),
    }
}

/// The commit described by one `git log --format=%H|%s|%ar|%an` line.
pub fn parse_commit(line: &Vec<char>) -> (r: Option<CommitInfo>)
    ensures
        match r {
            Some(c) => parse_commit_line(line@) == Some(c.fields()),
            None => parse_commit_line(line@) is None,
        },
{
    let parts = split_chars(line, '|');
    if parts.len() >= 4 {
        assert(parts@[0]@ == split_on(line@, '|')[0]);
        assert(parts@[1]@ == split_on(line@, '|')[1]);
        assert(parts@[2]@ == split_on(line@, '|')[2]);
        assert(parts@[3]@ == split_on(line@, '|')[3]);
        Some(
            CommitInfo {
                hash: string_from_chars(&parts[0]),
                message: string_from_chars(&parts[1]),
                date: string_from_chars(&parts[2]),
                author: string_from_chars(&parts[3]),
            },
        )
    } else {
        None
    }
}

/// The commits that `git log --format=%H|%s|%ar|%an` printed.
pub fn parse_commits(o: &Option<String>) -> (r: Vec<CommitInfo>)
    ensures
        commit_fields(r@) == parse_commit_lines(output_lines(*o)),
{
    match o {
        Some(s) => {
            let ls = lines_chars(&chars_of(s.as_str()));
            let ghost all = ls@.map_values(|l: Vec<char>| l@);
            let mut r: Vec<CommitInfo> = Vec::new();
            let mut i: usize = 0;
            while i < ls.len()
                invariant
                    i <= ls.len(),
                    all == ls@.map_values(|l: Vec<char>| l@),
                    commit_fields(r@) == parse_commit_lines(all.take(i as int)),
                decreases ls.len() - i,
            {
                assert(all.take(i + 1).drop_last() =~= all.take(i as int));
                assert(all.take(i + 1).last() == ls@[i as int]@);
                let ghost before = r@;
                match parse_commit(&ls[i]) {
                    Some(c) => {
                        r.push(c);
                        assert(commit_fields(r@) =~= commit_fields(before).push(c.fields()));
                    },
                    None => {},
                }
                i = i + 1;
            }
            assert(all.take(ls.len() as int) =~= all);
            r
        },
        None => Vec::new(),
    }
}

/// The `GitInfo` of a repository whose queries printed `out`.
pub fn git_info_from_outputs(out: &GitOutputs) -> (g: GitInfo)
    ensures
        describes_repository(g, *out),
{
    let is_clean = match &out.status {
        Some(s) => s.as_str().is_empty(),
        None => true,
    };
    let status_lines = output_line_list(&out.status);
    GitInfo {
        is_repo: true,
        branch: copy_text(&out.branch),
        is_clean,
        changed_files_count: status_lines.len(),
        staged_files: output_line_list(&out.staged),
        unstaged_files: output_line_list(&out.unstaged),
        untracked_files: output_line_list(&out.untracked),
        last_commit_hash: copy_text(&out.last_hash),
        last_commit_message: copy_text(&out.last_message),
        last_commit_date: copy_text(&out.last_date),
        recent_commits: parse_commits(&out.log),
    }
}

/// The git status of the project at `project_path`: an error where the path does
/// not exist, a non-repository where it has no `.git` directory, and otherwise
/// what the queries printed.
pub fn get_git_info(project_path: &str, path_exists: bool, git_dir_is_dir: bool, outputs: &GitOutputs) -> (r: Result<GitInfo, String>)
    ensures
        match r {
            Ok(g) => path_exists && (if git_dir_is_dir {
                describes_repository(g, *outputs)
            } else {
                describes_non_repository(g)
            }),
            Err(e) => !path_exists && e@ == missing_path_text(project_path@),
        },
{
    if !path_exists {
        return Err(missing_path_message(project_path));
    }
    if !git_dir_is_dir {
        return Ok(not_a_repository());
    }
    Ok(git_info_from_outputs(outputs))
}

/// Text that is not empty has at least one line.
proof fn lemma_nonempty_has_line(s: Seq<char>)
    requires
        s.len() > 0,
    ensures
        lines_of(s).len() >= 1,
{
    let p = split_on(s, '\n');
    crate::text::lemma_split_piece_count(s.drop_last(), '\n');
    if s.last() == '\n' {
        assert(p.len() == split_on(s.drop_last(), '\n').len() + 1);
    } else {
        let q = split_on(s.drop_last(), '\n');
        assert(p.last() == q.last().push(s.last()));
    }
}

/// A project's git status is consistent: it is a repository exactly when it
/// has a `.git` directory, and its work tree is clean exactly when no file is
/// counted as changed.
pub proof fn lemma_git_info_consistent(
    project_path: Seq<char>,
    path_exists: bool,
    git_dir_is_dir: bool,
    out: GitOutputs,
    g: GitInfo,
)
    requires
        path_exists,
        if git_dir_is_dir {
            describes_repository(g, out)
        } else {
            describes_non_repository(g)
        },
    ensures
        g.is_repo == git_dir_is_dir,
        g.is_clean <==> g.changed_files_count == 0,
{
    if git_dir_is_dir {
        match out.status {
            Some(s) => {
                if s@.len() > 0 {
                    lemma_nonempty_has_line(s@);
                }
            },
            None => {},
        }
    }
}

/// Every line of `ls` that parses as a commit is among the parsed commits.
proof fn lemma_parsed_line_kept(ls: Seq<Seq<char>>, i: int)
    requires
        0 <= i < ls.len(),
        parse_commit_line(ls[i]) is Some,
    ensures
        parse_commit_lines(ls).contains(parse_commit_line(ls[i])->0),
    decreases ls.len(),
{
    let rest = parse_commit_lines(ls.drop_last());
    if i == ls.len() - 1 {
        let c = parse_commit_line(ls.last())->0;
        assert(parse_commit_lines(ls) == rest.push(c));
        assert(rest.push(c)[rest.len() as int] == c);
    } else {
        lemma_parsed_line_kept(ls.drop_last(), i);
        assert(ls.drop_last()[i] == ls[i]);
        let k = choose|k: int| 0 <= k < rest.len() && rest[k] == parse_commit_line(ls[i])->0;
        match parse_commit_line(ls.last()) {
            Some(c) => assert(rest.push(c)[k] == rest[k]),
            None => {},
        }
    }
}

/// A repository whose log shows a commit line lists that commit among its
/// recent commits, so its recent commits are not empty.
pub proof fn lemma_logged_commit_listed(g: GitInfo, out: GitOutputs, i: int)
    requires
        describes_repository(g, out),
        0 <= i < output_lines(out.log).len(),
        parse_commit_line(output_lines(out.log)[i]) is Some,
    ensures
        commit_fields(g.recent_commits@).contains(parse_commit_line(output_lines(out.log)[i])->0),
        g.recent_commits@.len() > 0,
{
    lemma_parsed_line_kept(output_lines(out.log), i);
}

/// A repository's status reports exactly what git printed: the branch, the
/// last commit's hash, message and date are the outputs of their queries
/// (absent only where the query failed), and the staged, modified and
/// untracked files are the lines of theirs (none where the query failed).
pub proof fn lemma_repository_reports_outputs(g: GitInfo, out: GitOutputs)
    requires
        describes_repository(g, out),
    ensures
        g.is_repo,
        g.branch is Some <==> out.branch is Some,
        out.branch matches Some(b) ==> g.branch->0@ == b@,
        g.last_commit_hash is Some <==> out.last_hash is Some,
        out.last_hash matches Some(h) ==> g.last_commit_hash->0@ == h@,
        g.last_commit_message is Some <==> out.last_message is Some,
        out.last_message matches Some(m) ==> g.last_commit_message->0@ == m@,
        g.last_commit_date is Some <==> out.last_date is Some,
        out.last_date matches Some(d) ==> g.last_commit_date->0@ == d@,
        out.staged matches Some(s) ==> texts(g.staged_files@) == lines_of(s@),
        out.staged is None ==> g.staged_files@.len() == 0,
        out.unstaged matches Some(s) ==> texts(g.unstaged_files@) == lines_of(s@),
        out.unstaged is None ==> g.unstaged_files@.len() == 0,
        out.untracked matches Some(s) ==> texts(g.untracked_files@) == lines_of(s@),
        out.untracked is None ==> g.untracked_files@.len() == 0,
        out.status matches Some(s) ==> (g.is_clean <==> s@.len() == 0) && g.changed_files_count == lines_of(s@).len(),
        out.status is None ==> g.is_clean && g.changed_files_count == 0,
{
    if out.staged is None {
        assert(texts(g.staged_files@).len() == 0);
    }
    if out.unstaged is None {
        assert(texts(g.unstaged_files@).len() == 0);
    }
    if out.untracked is None {
        assert(texts(g.untracked_files@).len() == 0);
    }
}

/// A folder that is not a repository reports nothing: no branch, no commit,
/// no changed file, and a clean state.
pub proof fn lemma_non_repository_reports_nothing(g: GitInfo)
    requires
        describes_non_repository(g),
    ensures
        !g.is_repo && g.is_clean && g.changed_files_count == 0,
        g.branch is None && g.last_commit_hash is None && g.last_commit_message is None && g.last_commit_date is None,
        g.staged_files@.len() == 0 && g.unstaged_files@.len() == 0 && g.untracked_files@.len() == 0,
        g.recent_commits@.len() == 0,
{
}

} // verus!
