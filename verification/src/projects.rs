//! Projects under the root folder: recognising them, describing them, and what
//! initialising their `.context-bridge/` folder writes.
//!
//! The app looks at the disk; what it saw of a folder reaches the library as a
//! `FolderProbe`, and the library decides.

use vstd::prelude::*;

use crate::git::{missing_path_text, opt_text, texts};
use crate::order::{permuted, stable_order, stable_sorted, text_views};
use crate::text::{
    lemma_split_last_piece, line_of_piece, occurs_at, split_on, strip_cr, text_lt, trim_end, trim_start,
    chars_of, contains_str, decimal, decimal_chars, is_text, lines_chars, lines_of, push_chars,
    push_str, replace_char, replaced, starts_with, starts_with_str, string_from_chars, trim_chars,
    trimmed, contains_text, joined_lines, join_lines, zero_pad, zero_padded,
};

verus! {

/// The kind of project found in a folder.
#[derive(Clone, Copy, Debug, PartialEq, Eq, Structural)]
pub enum ProjectType {
    Nextjs,
    Node,
    Python,
    Rust,
    Unknown,
}

impl Default for ProjectType {
    fn default() -> (t: Self)
        ensures
            t == ProjectType::Unknown,
    {
        ProjectType::Unknown
    }
}

/// The name shown for a project type.
pub open spec fn type_label(t: ProjectType) -> Seq<char> {
    match t {
        ProjectType::Nextjs => "Next.js"@,
        ProjectType::Node => "Node"@,
        ProjectType::Python => "Python"@,
        ProjectType::Rust => "Rust"@,
        ProjectType::Unknown => "Unknown"@,
    }
}

impl ProjectType {
    /// The name shown for the project type.
    pub fn label(&self) -> (r: String)
        ensures
            r@ == type_label(*self),
    {
        match self {
            ProjectType::Nextjs => "Next.js".to_owned(),
            ProjectType::Node => "Node".to_owned(),
            ProjectType::Python => "Python".to_owned(),
            ProjectType::Rust => "Rust".to_owned(),
            ProjectType::Unknown => "Unknown".to_owned(),
        }
    }
}

/// A project found by the scan.
pub struct ProjectSummary {
    pub id: String,
    pub name: String,
    pub path: String,
    pub has_context: bool,
    pub project_type: ProjectType,
    pub last_opened_at: Option<String>,
}

/// The fields of a `ProjectSummary`, as text.
pub struct SummaryView {
    pub id: Seq<char>,
    pub name: Seq<char>,
    pub path: Seq<char>,
    pub has_context: bool,
    pub project_type: ProjectType,
    pub last_opened_at: Option<Seq<char>>,
}

impl View for ProjectSummary {
    type V = SummaryView;

    open spec fn view(&self) -> SummaryView {
        SummaryView {
            id: self.id@,
            name: self.name@,
            path: self.path@,
            has_context: self.has_context,
            project_type: self.project_type,
            last_opened_at: opt_text(self.last_opened_at),
        }
    }
}

/// The project's entry in `.context-bridge/meta.json`.
pub struct ProjectMeta {
    pub id: String,
    pub name: String,
    pub path: String,
    pub project_type: ProjectType,
    pub created_at: String,
    pub last_opened_at: Option<String>,
    pub last_context_update_at: Option<String>,
    pub last_session_id: Option<String>,
    pub favorite: bool,
}

/// The context files of a project, each absent where it could not be read.
pub struct ContextFiles {
    pub meta: Option<ProjectMeta>,
    pub current: Option<String>,
    pub architecture: Option<String>,
    pub recent_work: Option<String>,
}

/// What initialising a project's context would do.
pub struct InitPreview {
    pub will_create: Vec<String>,
    pub project_type: ProjectType,
    pub detected_files: Vec<String>,
    pub gitignore_needs_update: bool,
}

/// A file as the app found it.
pub enum FileState {
    Missing,
    Unreadable,
    Contents(String),
}

/// What the app saw in a folder: which of `probed_names()` exist there, which of
/// them are directories, and the contents of `package.json`.
pub struct FolderProbe {
    pub existing: Vec<String>,
    pub directories: Vec<String>,
    pub package_json: FileState,
}

/// A folder that may be listed as a project.
pub struct ProjectCandidate {
    /// The folder's own name (empty where the path has none).
    pub name: String,
    /// The folder's path.
    pub path: String,
    /// Whether it is a directory.
    pub is_dir: bool,
    /// What is inside it.
    pub probe: FolderProbe,
    /// `last_opened_at` of its `.context-bridge/meta.json`, where that parses.
    pub meta_last_opened: Option<String>,
}

/// An entry of a folder listing.
pub struct FolderEntry {
    pub name: String,
    pub is_dir: bool,
}

// ---------------------------------------------------------------------------
// Specifications
// ---------------------------------------------------------------------------

/// `name` exists in the folder.
pub open spec fn has_entry(p: FolderProbe, name: Seq<char>) -> bool {
    texts(p.existing@).contains(name)
}

/// `name` is a directory in the folder.
pub open spec fn has_dir(p: FolderProbe, name: Seq<char>) -> bool {
    texts(p.directories@).contains(name)
}

/// The readable text of `package.json`.
pub open spec fn package_text(p: FolderProbe) -> Option<Seq<char>> {
    match p.package_json {
        FileState::Contents(c) => Some(c@),
        _ => None,
    }
}

/// Folders that are never projects nor shown in the structure.
pub open spec fn ignored_name(n: Seq<char>) -> bool {
    ||| n == "node_modules"@
    ||| n == ".next"@
    ||| n == ".turbo"@
    ||| n == "dist"@
    ||| n == "build"@
    ||| n == "coverage"@
    ||| n == "__pycache__"@
    ||| n == ".venv"@
    ||| n == "venv"@
    ||| n == "target"@
    ||| n == ".cache"@
    ||| n == ".context-bridge"@
}

/// Hidden entries and the system folders of Windows drives.
pub open spec fn hidden_or_system_name(n: Seq<char>) -> bool {
    starts_with(n, "."@) || n == "$RECYCLE.BIN"@ || n == "System Volume Information"@
}

/// Files whose presence makes a folder a project.
pub open spec fn strong_markers() -> Seq<Seq<char>> {
    seq![
        "package.json"@,
        "Cargo.toml"@,
        "pyproject.toml"@,
        "requirements.txt"@,
        "next.config.js"@,
        "next.config.ts"@,
        "vite.config.js"@,
        "vite.config.ts"@,
    ]
}

/// A folder is a project root if it holds a strong marker or a `.git` directory.
pub open spec fn project_root(p: FolderProbe) -> bool {
    (exists|i: int| 0 <= i < strong_markers().len() && has_entry(p, #[trigger] strong_markers()[i]))
        || has_dir(p, ".git"@)
}

/// Folder names that are usually parts of a project rather than projects.
pub open spec fn internal_name(n: Seq<char>) -> bool {
    ||| n == "app"@
    ||| n == "components"@
    ||| n == "lib"@
    ||| n == "src"@
    ||| n == "public"@
    ||| n == "pages"@
    ||| n == "tests"@
    ||| n == "docs"@
}

/// The project type of a folder.
pub open spec fn project_type_of(p: FolderProbe) -> ProjectType {
    match package_text(p) {
        Some(c) => if contains_text(c, "\"next\""@) {
            ProjectType::Nextjs
        } else {
            ProjectType::Node
        },
        None => if has_entry(p, "Cargo.toml"@) {
            ProjectType::Rust
        } else if has_entry(p, "pyproject.toml"@) || has_entry(p, "requirements.txt"@) {
            ProjectType::Python
        } else {
            ProjectType::Unknown
        },
    }
}

/// Files reported by the init preview when present.
pub open spec fn marker_files() -> Seq<Seq<char>> {
    seq![
        "package.json"@,
        "Cargo.toml"@,
        "pyproject.toml"@,
        "requirements.txt"@,
        "README.md"@,
        ".gitignore"@,
        "tsconfig.json"@,
        "next.config.ts"@,
        "next.config.js"@,
        "vite.config.ts"@,
        "webpack.config.js"@,
    ]
}

/// Folders reported by the init preview when present.
pub open spec fn marker_dirs() -> Seq<Seq<char>> {
    seq!["src"@, "app"@, "lib"@, "components"@, "pages"@, "tests"@, "docs"@]
}

/// The markers of a folder: present marker files, then present marker folders
/// with a `/`, at most ten.
pub open spec fn markers_of(p: FolderProbe) -> Seq<Seq<char>> {
    let all = marker_files().filter(|m: Seq<char>| has_entry(p, m)) + marker_dirs().filter(
        |m: Seq<char>| has_dir(p, m),
    ).map_values(|m: Seq<char>| m + "/"@);
    if all.len() > 10 {
        all.take(10)
    } else {
        all
    }
}

/// `s` with `x` added at the end unless already there.
pub open spec fn push_new(s: Seq<Seq<char>>, x: Seq<char>) -> Seq<Seq<char>> {
    if s.contains(x) {
        s
    } else {
        s.push(x)
    }
}

/// The technologies named in `architecture.md`.
pub open spec fn stack_of(p: FolderProbe) -> Seq<Seq<char>> {
    let from_package = match package_text(p) {
        Some(c) => (if contains_text(c, "\"next\""@) {
            seq!["Next.js"@]
        } else {
            Seq::empty()
        }) + (if contains_text(c, "\"react\""@) {
            seq!["React"@]
        } else {
            Seq::empty()
        }) + (if contains_text(c, "\"typescript\""@) {
            seq!["TypeScript"@]
        } else {
            Seq::empty()
        }),
        None => Seq::empty(),
    };
    let with_next = if has_entry(p, "next.config.ts"@) || has_entry(p, "next.config.js"@) {
        push_new(from_package, "Next.js"@)
    } else {
        from_package
    };
    let with_tailwind = if has_entry(p, "tailwind.config.ts"@) || has_entry(p, "tailwind.config.js"@) {
        push_new(with_next, "Tailwind CSS"@)
    } else {
        with_next
    };
    let with_rust = if has_entry(p, "Cargo.toml"@) {
        with_tailwind.push("Rust"@)
    } else {
        with_tailwind
    };
    let with_pyproject = if has_entry(p, "pyproject.toml"@) {
        with_rust.push("Python"@)
    } else {
        with_rust
    };
    if has_entry(p, "requirements.txt"@) {
        with_pyproject.push("Python"@)
    } else {
        with_pyproject
    }
}

/// The text has a line that is `.context-bridge/` apart from white space.
pub open spec fn lists_context_line(c: Seq<char>) -> bool {
    exists|i: int| 0 <= i < lines_of(c).len() && trimmed(#[trigger] lines_of(c)[i]) == ".context-bridge/"@
}

/// `.gitignore` already lists `.context-bridge/` on a line of its own.
pub open spec fn gitignore_lists_context(g: FileState) -> bool {
    match g {
        FileState::Contents(c) => lists_context_line(c@),
        _ => false,
    }
}

/// The lines added to `.gitignore`.
pub open spec fn gitignore_entry() -> Seq<char> {
    "\n# ContextDock\n.context-bridge/\n"@
}

/// What to write to `.gitignore`, if anything.
pub open spec fn gitignore_update(g: FileState) -> Option<Seq<char>> {
    match g {
        FileState::Missing => Some(gitignore_entry()),
        FileState::Unreadable => None,
        FileState::Contents(c) => if contains_text(c@, ".context-bridge/"@) {
            None
        } else {
            Some(c@ + gitignore_entry())
        },
    }
}

/// The summary of a candidate folder.
pub open spec fn summary_of(c: ProjectCandidate) -> SummaryView {
    let has_context = has_entry(c.probe, ".context-bridge"@);
    SummaryView {
        id: c.name@,
        name: c.name@,
        path: c.path@,
        has_context,
        project_type: project_type_of(c.probe),
        last_opened_at: if has_context {
            opt_text(c.meta_last_opened)
        } else {
            None
        },
    }
}

/// A child folder of the root is listed.
pub open spec fn child_listed(c: ProjectCandidate) -> bool {
    &&& c.is_dir
    &&& !hidden_or_system_name(c.name@)
    &&& !ignored_name(c.name@)
    &&& !(internal_name(c.name@) && !project_root(c.probe))
}

/// The folders listed, before sorting: the root when it is a project itself,
/// then its listed children in the order given.
pub open spec fn listed_candidates(root: ProjectCandidate, children: Seq<ProjectCandidate>) -> Seq<ProjectCandidate> {
    (if project_root(root.probe) {
        seq![root]
    } else {
        Seq::empty()
    }) + children.filter(|c: ProjectCandidate| child_listed(c))
}

/// A list of `n` equal ranks.
pub open spec fn same_rank(n: nat) -> Seq<u8> {
    Seq::new(n, |i: int| 0u8)
}

/// The projects of a scan: the listed folders, stably sorted by name.
pub open spec fn scanned_projects(root: ProjectCandidate, children: Seq<ProjectCandidate>) -> Seq<SummaryView> {
    let listed = listed_candidates(root, children).map_values(|c: ProjectCandidate| summary_of(c));
    permuted(
        listed,
        stable_sorted(same_rank(listed.len()), listed.map_values(|s: SummaryView| s.name), false),
    )
}

/// The structure lines of `architecture.md`: visible entries (and `.gitignore`),
/// folders first, each group by name, the first fifty, ignored folders dropped,
/// folders with a trailing `/`.
pub open spec fn structure_of(entries: Seq<FolderEntry>) -> Seq<Seq<char>> {
    let visible = entries.filter(
        |e: FolderEntry| !hidden_or_system_name(e.name@) || e.name@ == ".gitignore"@,
    );
    let sorted = permuted(
        visible,
        stable_sorted(
            visible.map_values(|e: FolderEntry| if e.is_dir {
                0u8
            } else {
                1u8
            }),
            visible.map_values(|e: FolderEntry| e.name@),
            false,
        ),
    );
    let first = if sorted.len() > 50 {
        sorted.take(50)
    } else {
        sorted
    };
    first.filter(|e: FolderEntry| !ignored_name(e.name@)).map_values(
        |e: FolderEntry| if e.is_dir {
            e.name@ + "/"@
        } else {
            e.name@
        },
    )
}

/// What `str::to_lowercase` returns for `s`.
pub uninterp spec fn lowercase(s: Seq<char>) -> Seq<char>;

/// `str::to_lowercase`: the contract names the result `lowercase(s@)` and says
/// nothing more of it (Unicode case mapping).
#[verifier::external_body]
fn to_lowercase_text(s: &str) -> (r: String)
    ensures
        r@ == lowercase(s@),
{
    s.to_lowercase()
}

/// The id of a project named `name`: lower case, spaces as dashes.
pub open spec fn project_id(name: Seq<char>) -> Seq<char> {
    replaced(lowercase(name), ' ', "-"@)
}

/// The contents of `architecture.md`.
pub open spec fn architecture_text(stack: Seq<Seq<char>>, structure: Seq<Seq<char>>) -> Seq<char> {
    "# Architecture\n\nGenerated from lightweight folder scan.\n\n## Detected stack\n\n"@ + (if stack.len()
        == 0 {
        "- (not detected)"@
    } else {
        joined_lines(stack.map_values(|s: Seq<char>| "- "@ + s))
    }) + "\n\n## Folder structure\n\n```txt\n"@ + joined_lines(structure) + "\n```\n"@
}

/// The time stamp `secs.nanosZ` with nine digits of nanoseconds.
pub open spec fn timestamp_text(secs: nat, nanos: nat) -> Seq<char> {
    decimal(secs) + "."@ + zero_padded(decimal(nanos), 9) + "Z"@
}

// ---------------------------------------------------------------------------
// Executable functions
// ---------------------------------------------------------------------------

/// Whether `name` is the name of `.context-bridge` or a build, cache or
/// dependency folder.
pub fn is_ignored_dir(name: &str) -> (r: bool)
    ensures
        r == ignored_name(name@),
{
    let n = chars_of(name);
    is_text(&n, "node_modules") || is_text(&n, ".next") || is_text(&n, ".turbo") || is_text(
        &n,
        "dist",
    ) || is_text(&n, "build") || is_text(&n, "coverage") || is_text(&n, "__pycache__") || is_text(
        &n,
        ".venv",
    ) || is_text(&n, "venv") || is_text(&n, "target") || is_text(&n, ".cache") || is_text(
        &n,
        ".context-bridge",
    )
}

/// Whether `name` is hidden (starts with `.`) or a Windows system folder.
pub fn is_hidden_or_system(name: &str) -> (r: bool)
    ensures
        r == hidden_or_system_name(name@),
{
    let n = chars_of(name);
    starts_with_str(&n, ".") || is_text(&n, "$RECYCLE.BIN") || is_text(&n, "System Volume Information")
}

/// Whether a folder named `name` is a usual part of a project (`app`, `src`, ...).
pub fn is_internal_dir(name: &str) -> (r: bool)
    ensures
        r == internal_name(name@),
{
    let n = chars_of(name);
    is_text(&n, "app") || is_text(&n, "components") || is_text(&n, "lib") || is_text(&n, "src")
        || is_text(&n, "public") || is_text(&n, "pages") || is_text(&n, "tests") || is_text(
        &n,
        "docs",
    )
}

fn list_has(list: &Vec<String>, name: &str) -> (r: bool)
    ensures
        r == texts(list@).contains(name@),
{
    let mut i: usize = 0;
    while i < list.len()
        invariant
            i <= list.len(),
            forall|k: int| 0 <= k < i ==> list@[k]@ != name@,
        decreases list.len() - i,
    {
        if is_text(&chars_of(list[i].as_str()), name) {
            assert(texts(list@)[i as int] == name@);
            return true;
        }
        i = i + 1;
    }
    assert forall|k: int| 0 <= k < texts(list@).len() implies texts(list@)[k] != name@ by {
        assert(texts(list@)[k] == list@[k]@);
    }
    false
}

/// Whether `name` exists in the probed folder.
pub fn probe_has(p: &FolderProbe, name: &str) -> (r: bool)
    ensures
        r == has_entry(*p, name@),
{
    list_has(&p.existing, name)
}

/// Whether `name` is a directory in the probed folder.
pub fn probe_has_dir(p: &FolderProbe, name: &str) -> (r: bool)
    ensures
        r == has_dir(*p, name@),
{
    list_has(&p.directories, name)
}

/// The names the app must look for in a folder: every name the scan, the init
/// preview and the stack detection ask about.
pub fn probed_names() -> (r: Vec<String>)
    ensures
        forall|i: int| 0 <= i < strong_markers().len() ==> texts(r@).contains(#[trigger] strong_markers()[i]),
        forall|i: int| 0 <= i < marker_files().len() ==> texts(r@).contains(#[trigger] marker_files()[i]),
        forall|i: int| 0 <= i < marker_dirs().len() ==> texts(r@).contains(#[trigger] marker_dirs()[i]),
        texts(r@).contains(".git"@),
        texts(r@).contains(".context-bridge"@),
        texts(r@).contains("tailwind.config.ts"@),
        texts(r@).contains("tailwind.config.js"@),
{
    let r = vec![
        "package.json".to_owned(),
        "Cargo.toml".to_owned(),
        "pyproject.toml".to_owned(),
        "requirements.txt".to_owned(),
        "next.config.js".to_owned(),
        "next.config.ts".to_owned(),
        "vite.config.js".to_owned(),
        "vite.config.ts".to_owned(),
        "README.md".to_owned(),
        ".gitignore".to_owned(),
        "tsconfig.json".to_owned(),
        "webpack.config.js".to_owned(),
        "src".to_owned(),
        "app".to_owned(),
        "lib".to_owned(),
        "components".to_owned(),
        "pages".to_owned(),
        "tests".to_owned(),
        "docs".to_owned(),
        ".git".to_owned(),
        ".context-bridge".to_owned(),
        "tailwind.config.ts".to_owned(),
        "tailwind.config.js".to_owned(),
    ];
    let ghost t = texts(r@);
    assert(t[0] == "package.json"@ && t[1] == "Cargo.toml"@ && t[2] == "pyproject.toml"@ && t[3]
        == "requirements.txt"@ && t[4] == "next.config.js"@ && t[5] == "next.config.ts"@ && t[6]
        == "vite.config.js"@ && t[7] == "vite.config.ts"@ && t[8] == "README.md"@ && t[9]
        == ".gitignore"@ && t[10] == "tsconfig.json"@ && t[11] == "webpack.config.js"@ && t[12]
        == "src"@ && t[13] == "app"@ && t[14] == "lib"@ && t[15] == "components"@ && t[16]
        == "pages"@ && t[17] == "tests"@ && t[18] == "docs"@ && t[19] == ".git"@ && t[20]
        == ".context-bridge"@ && t[21] == "tailwind.config.ts"@ && t[22] == "tailwind.config.js"@);
    assert forall|i: int| 0 <= i < strong_markers().len() implies t.contains(#[trigger] strong_markers()[i]) by {
        assert(t[i] == strong_markers()[i]);
    }
    assert forall|i: int| 0 <= i < marker_files().len() implies t.contains(#[trigger] marker_files()[i]) by {
        if i < 4 {
            assert(t[i] == marker_files()[i]);
        } else if i == 4 {
            assert(t[8] == marker_files()[i]);
        } else if i == 5 {
            assert(t[9] == marker_files()[i]);
        } else if i == 6 {
            assert(t[10] == marker_files()[i]);
        } else if i == 7 {
            assert(t[5] == marker_files()[i]);
        } else if i == 8 {
            assert(t[4] == marker_files()[i]);
        } else if i == 9 {
            assert(t[7] == marker_files()[i]);
        } else {
            assert(t[11] == marker_files()[i]);
        }
    }
    assert forall|i: int| 0 <= i < marker_dirs().len() implies t.contains(#[trigger] marker_dirs()[i]) by {
        assert(t[12 + i] == marker_dirs()[i]);
    }
    assert(t[19] == ".git"@);
    assert(t[20] == ".context-bridge"@);
    assert(t[21] == "tailwind.config.ts"@);
    assert(t[22] == "tailwind.config.js"@);
    r
}

/// Whether the probed folder is a project root: it holds `package.json`,
/// `Cargo.toml`, `pyproject.toml`, `requirements.txt`, a Next.js or Vite
/// config, or a `.git` directory.
pub fn is_project_root(probe: &FolderProbe) -> (r: bool)
    ensures
        r == project_root(*probe),
{
    let markers = [
        "package.json",
        "Cargo.toml",
        "pyproject.toml",
        "requirements.txt",
        "next.config.js",
        "next.config.ts",
        "vite.config.js",
        "vite.config.ts",
    ];
    let mut i: usize = 0;
    while i < 8
        invariant
            i <= 8,
            forall|k: int| 0 <= k < 8 ==> #[trigger] markers@[k]@ == strong_markers()[k],
            forall|k: int| 0 <= k < i ==> !has_entry(*probe, #[trigger] strong_markers()[k]),
        decreases 8 - i,
    {
        if probe_has(probe, markers[i]) {
            assert(has_entry(*probe, strong_markers()[i as int]));
            return true;
        }
        i = i + 1;
    }
    probe_has_dir(probe, ".git")
}

/// The project type of the probed folder: Next.js or Node by `package.json`,
/// else Rust, else Python, else unknown.
pub fn detect_project_type(probe: &FolderProbe) -> (t: ProjectType)
    ensures
        t == project_type_of(*probe),
{
    match &probe.package_json {
        FileState::Contents(c) => {
            if contains_str(&chars_of(c.as_str()), "\"next\"") {
                return ProjectType::Nextjs;
            }
            return ProjectType::Node;
        },
        _ => {},
    }
    if probe_has(probe, "Cargo.toml") {
        return ProjectType::Rust;
    }
    if probe_has(probe, "pyproject.toml") || probe_has(probe, "requirements.txt") {
        return ProjectType::Python;
    }
    ProjectType::Unknown
}

/// The marker files and folders present in the probed folder, at most ten.
pub fn detect_project_markers(probe: &FolderProbe) -> (r: Vec<String>)
    ensures
        texts(r@) == markers_of(*probe),
{
    let files = [
        "package.json",
        "Cargo.toml",
        "pyproject.toml",
        "requirements.txt",
        "README.md",
        ".gitignore",
        "tsconfig.json",
        "next.config.ts",
        "next.config.js",
        "vite.config.ts",
        "webpack.config.js",
    ];
    let dirs = ["src", "app", "lib", "components", "pages", "tests", "docs"];
    let ghost pf = |m: Seq<char>| has_entry(*probe, m);
    let ghost pd = |m: Seq<char>| has_dir(*probe, m);
    let mut markers: Vec<String> = Vec::new();
    let mut i: usize = 0;
    while i < 11
        invariant
            i <= 11,
            forall|k: int| 0 <= k < 11 ==> #[trigger] files@[k]@ == marker_files()[k],
            pf == (|m: Seq<char>| has_entry(*probe, m)),
            texts(markers@) == marker_files().take(i as int).filter(pf),
        decreases 11 - i,
    {
        let ghost before = texts(markers@);
        assert(marker_files().take(i + 1).drop_last() =~= marker_files().take(i as int));
        assert(marker_files().take(i + 1).last() == files@[i as int]@);
        reveal(Seq::filter);
        if probe_has(probe, files[i]) {
            markers.push(files[i].to_owned());
            assert(texts(markers@) =~= before.push(files@[i as int]@));
        }
        i = i + 1;
    }
    assert(marker_files().take(11) =~= marker_files());
    let ghost after_files = texts(markers@);
    let ghost suffix = |m: Seq<char>| m + "/"@;
    let mut j: usize = 0;
    while j < 7
        invariant
            j <= 7,
            forall|k: int| 0 <= k < 7 ==> #[trigger] dirs@[k]@ == marker_dirs()[k],
            pd == (|m: Seq<char>| has_dir(*probe, m)),
            suffix == (|m: Seq<char>| m + "/"@),
            after_files == marker_files().filter(pf),
            texts(markers@) == after_files + marker_dirs().take(j as int).filter(pd).map_values(
                suffix,
            ),
        decreases 7 - j,
    {
        let ghost before = texts(markers@);
        assert(marker_dirs().take(j + 1).drop_last() =~= marker_dirs().take(j as int));
        assert(marker_dirs().take(j + 1).last() == dirs@[j as int]@);
        reveal(Seq::filter);
        if probe_has_dir(probe, dirs[j]) {
            let mut m = chars_of(dirs[j]);
            push_str(&mut m, "/");
            markers.push(string_from_chars(&m));
            assert(marker_dirs().take(j + 1).filter(pd) =~= marker_dirs().take(j as int).filter(
                pd,
            ).push(dirs@[j as int]@));
            assert(texts(markers@) =~= before.push(dirs@[j as int]@ + "/"@));
            assert(texts(markers@) =~= after_files + marker_dirs().take(j + 1).filter(pd).map_values(
                suffix,
            ));
        } else {
            assert(marker_dirs().take(j + 1).filter(pd) =~= marker_dirs().take(j as int).filter(
                pd,
            ));
        }
        j = j + 1;
    }
    assert(marker_dirs().take(7) =~= marker_dirs());
    let ghost all = texts(markers@);
    markers.truncate(10);
    proof {
        if all.len() > 10 {
            assert(texts(markers@) =~= all.take(10));
        } else {
            assert(texts(markers@) =~= all);
        }
    }
    markers
}

fn push_unless_present(stack: &mut Vec<String>, item: &str)
    ensures
        texts(final(stack)@) == push_new(texts(old(stack)@), item@),
{
    if !list_has(stack, item) {
        let ghost before = texts(stack@);
        stack.push(item.to_owned());
        assert(texts(stack@) =~= before.push(item@));
    }
}

fn push_item(stack: &mut Vec<String>, item: &str)
    ensures
        texts(final(stack)@) == texts(old(stack)@).push(item@),
{
    let ghost before = texts(stack@);
    stack.push(item.to_owned());
    assert(texts(stack@) =~= before.push(item@));
}

/// The technologies of the probed folder, for `architecture.md`.
pub fn detect_stack(probe: &FolderProbe) -> (r: Vec<String>)
    ensures
        texts(r@) == stack_of(*probe),
{
    let mut stack: Vec<String> = Vec::new();
    match &probe.package_json {
        FileState::Contents(c) => {
            let content = chars_of(c.as_str());
            if contains_str(&content, "\"next\"") {
                push_item(&mut stack, "Next.js");
            }
            if contains_str(&content, "\"react\"") {
                push_item(&mut stack, "React");
            }
            if contains_str(&content, "\"typescript\"") {
                push_item(&mut stack, "TypeScript");
            }
            assert(texts(stack@) =~= (if contains_text(c@, "\"next\""@) {
                seq!["Next.js"@]
            } else {
                Seq::empty()
            }) + (if contains_text(c@, "\"react\""@) {
                seq!["React"@]
            } else {
                Seq::empty()
            }) + (if contains_text(c@, "\"typescript\""@) {
                seq!["TypeScript"@]
            } else {
                Seq::empty()
            }));
        },
        _ => {
            assert(texts(stack@) =~= Seq::<Seq<char>>::empty());
        },
    }
    if probe_has(probe, "next.config.ts") || probe_has(probe, "next.config.js") {
        push_unless_present(&mut stack, "Next.js");
    }
    if probe_has(probe, "tailwind.config.ts") || probe_has(probe, "tailwind.config.js") {
        push_unless_present(&mut stack, "Tailwind CSS");
    }
    if probe_has(probe, "Cargo.toml") {
        push_item(&mut stack, "Rust");
    }
    if probe_has(probe, "pyproject.toml") {
        push_item(&mut stack, "Python");
    }
    if probe_has(probe, "requirements.txt") {
        push_item(&mut stack, "Python");
    }
    stack
}

proof fn lemma_lists_context(c: String)
    requires
        exists|j: int|
            0 <= j < lines_of(c@).len() && trimmed(#[trigger] lines_of(c@)[j]) == ".context-bridge/"@,
    ensures
        gitignore_lists_context(FileState::Contents(c)),
{
    let g = FileState::Contents(c);
    assert(g is Contents);
    assert(g->Contents_0 == c);
    let j = choose|j: int|
            0 <= j < lines_of(c@).len() && trimmed(#[trigger] lines_of(c@)[j]) == ".context-bridge/"@;
    assert(trimmed(lines_of(g->Contents_0@)[j]) == ".context-bridge/"@);
    assert(lists_context_line(c@));
}

/// Whether `.gitignore` already has a `.context-bridge/` line.
pub fn check_gitignore_for_context_bridge(gitignore: &FileState) -> (r: bool)
    ensures
        r == gitignore_lists_context(*gitignore),
{
    match gitignore {
        FileState::Contents(c) => {
            let ls = lines_chars(&chars_of(c.as_str()));
            let ghost all = lines_of(c@);
            assert(ls@.len() == all.len() && forall|k: int| 0 <= k < all.len() ==> all[k] == #[trigger] ls@[k]@) by {
                assert(ls@.map_values(|l: Vec<char>| l@) == all);
                assert forall|k: int| 0 <= k < all.len() implies all[k] == #[trigger] ls@[k]@ by {
                    assert(ls@.map_values(|l: Vec<char>| l@)[k] == ls@[k]@);
                }
            }
            let mut i: usize = 0;
            while i < ls.len()
                invariant
                    all == lines_of(c@),
                    *gitignore == FileState::Contents(*c),
                    i <= ls.len() == all.len(),
                    forall|k: int| 0 <= k < all.len() ==> all[k] == #[trigger] ls@[k]@,
                    forall|k: int| 0 <= k < i ==> trimmed(#[trigger] all[k]) != ".context-bridge/"@,
                decreases ls.len() - i,
            {
                if is_text(&trim_chars(&ls[i]), ".context-bridge/") {
                    assert(trimmed(lines_of(c@)[i as int]) == ".context-bridge/"@);
                    proof { lemma_lists_context(*c); }
                    return true;
                }
                i = i + 1;
            }
            false
        },
        _ => false,
    }
}

/// What `.gitignore` should hold after adding `.context-bridge/`, or `None` where
/// nothing is written: it already mentions `.context-bridge/`, or it could not
/// be read.
pub fn append_to_gitignore(gitignore: &FileState) -> (r: Option<String>)
    ensures
        opt_text(r) == gitignore_update(*gitignore),
{
    match gitignore {
        FileState::Missing => Some("\n# ContextDock\n.context-bridge/\n".to_owned()),
        FileState::Unreadable => None,
        FileState::Contents(c) => {
            let mut content = chars_of(c.as_str());
            if contains_str(&content, ".context-bridge/") {
                None
            } else {
                push_str(&mut content, "\n# ContextDock\n.context-bridge/\n");
                Some(string_from_chars(&content))
            }
        },
    }
}

fn copy_opt(o: &Option<String>) -> (r: Option<String>)
    ensures
        opt_text(r) == opt_text(*o),
{
    match o {
        Some(s) => Some(s.clone()),
        None => None,
    }
}

impl ProjectSummary {
    /// A copy of the summary.
    pub fn duplicate(&self) -> (r: ProjectSummary)
        ensures
            r@ == self@,
    {
        ProjectSummary {
            id: self.id.clone(),
            name: self.name.clone(),
            path: self.path.clone(),
            has_context: self.has_context,
            project_type: self.project_type,
            last_opened_at: copy_opt(&self.last_opened_at),
        }
    }
}

/// The summary of a candidate folder.
pub fn summarize(c: &ProjectCandidate) -> (r: ProjectSummary)
    ensures
        r@ == summary_of(*c),
{
    let has_context = probe_has(&c.probe, ".context-bridge");
    ProjectSummary {
        id: c.name.clone(),
        name: c.name.clone(),
        path: c.path.clone(),
        has_context,
        project_type: detect_project_type(&c.probe),
        last_opened_at: if has_context {
            copy_opt(&c.meta_last_opened)
        } else {
            None
        },
    }
}

/// Whether a child folder of the root is listed as a project.
pub fn is_listed_child(c: &ProjectCandidate) -> (r: bool)
    ensures
        r == child_listed(*c),
{
    c.is_dir && !is_hidden_or_system(c.name.as_str()) && !is_ignored_dir(c.name.as_str()) && !(
    is_internal_dir(c.name.as_str()) && !is_project_root(&c.probe))
}

/// The projects found under a root folder: the root itself when it is a project,
/// and each child folder that is neither hidden, a system or ignored folder, nor
/// a usual part of a project (unless it is a project root itself); sorted by
/// name, keeping the given order among equal names.
pub fn select_projects(root: &ProjectCandidate, children: &Vec<ProjectCandidate>) -> (r: Vec<ProjectSummary>)
    ensures
        r@.map_values(|s: ProjectSummary| s@) == scanned_projects(*root, children@),
{
    let ghost pred = |c: ProjectCandidate| child_listed(c);
    let mut listed: Vec<ProjectSummary> = Vec::new();
    let mut names: Vec<Vec<char>> = Vec::new();
    let mut ranks: Vec<u8> = Vec::new();
    let ghost head = if project_root(root.probe) {
        seq![*root]
    } else {
        Seq::empty()
    };
    if is_project_root(&root.probe) {
        let s = summarize(root);
        names.push(chars_of(s.name.as_str()));
        listed.push(s);
        ranks.push(0);
    }
    let mut i: usize = 0;
    while i < children.len()
        invariant
            i <= children.len(),
            pred == (|c: ProjectCandidate| child_listed(c)),
            head == (if project_root(root.probe) {
                seq![*root]
            } else {
                Seq::<ProjectCandidate>::empty()
            }),
            listed@.map_values(|s: ProjectSummary| s@) == (head + children@.take(i as int).filter(
                pred,
            )).map_values(|c: ProjectCandidate| summary_of(c)),
            names@.len() == listed@.len(),
            ranks@.len() == listed@.len(),
            forall|k: int| 0 <= k < listed@.len() ==> #[trigger] names@[k]@ == listed@[k].name@,
            forall|k: int| 0 <= k < listed@.len() ==> #[trigger] ranks@[k] == 0u8,
        decreases children.len() - i,
    {
        let ghost before = head + children@.take(i as int).filter(pred);
        assert(children@.take(i + 1).drop_last() =~= children@.take(i as int));
        assert(children@.take(i + 1).last() == children@[i as int]);
        reveal(Seq::filter);
        if is_listed_child(&children[i]) {
            let s = summarize(&children[i]);
            names.push(chars_of(s.name.as_str()));
            let ghost old_listed = listed@;
            listed.push(s);
            ranks.push(0);
            assert(head + children@.take(i + 1).filter(pred) =~= before.push(children@[i as int]));
            assert(listed@.map_values(|s: ProjectSummary| s@) =~= old_listed.map_values(
                |s: ProjectSummary| s@,
            ).push(summary_of(children@[i as int])));
        } else {
            assert(head + children@.take(i + 1).filter(pred) =~= before);
        }
        i = i + 1;
    }
    assert(children@.take(children.len() as int) =~= children@);
    let ghost lv = listed@.map_values(|s: ProjectSummary| s@);
    assert(lv == listed_candidates(*root, children@).map_values(|c: ProjectCandidate| summary_of(c)));
    assert(ranks@ =~= same_rank(lv.len()));
    assert(text_views(names@) =~= lv.map_values(|s: SummaryView| s.name));
    let order = stable_order(&ranks, &names, false);
    let mut r: Vec<ProjectSummary> = Vec::new();
    let mut k: usize = 0;
    while k < order.len()
        invariant
            k <= order.len() == listed.len(),
            forall|q: int| 0 <= q < order.len() ==> #[trigger] order@[q] < listed.len(),
            r@.len() == k,
            forall|q: int| 0 <= q < k ==> #[trigger] r@[q]@ == listed@[order@[q] as int]@,
        decreases order.len() - k,
    {
        r.push(listed[order[k]].duplicate());
        k = k + 1;
    }
    assert(r@.map_values(|s: ProjectSummary| s@) =~= permuted(lv, order@));
    r
}

/// The lines of the folder structure in `architecture.md`, from the entries of
/// the project folder. Only the top level is described: at a depth above one
/// there are none.
pub fn scan_dir_for_structure(entries: &Vec<FolderEntry>, depth: usize) -> (r: Vec<String>)
    ensures
        depth > 1 ==> r@.len() == 0,
        depth <= 1 ==> texts(r@) == structure_of(entries@),
{
    if depth > 1 {
        return Vec::new();
    }
    let ghost vis = |e: FolderEntry| !hidden_or_system_name(e.name@) || e.name@ == ".gitignore"@;
    let mut visible: Vec<usize> = Vec::new();
    let mut names: Vec<Vec<char>> = Vec::new();
    let mut ranks: Vec<u8> = Vec::new();
    let mut i: usize = 0;
    while i < entries.len()
        invariant
            i <= entries.len(),
            vis == (|e: FolderEntry| !hidden_or_system_name(e.name@) || e.name@ == ".gitignore"@),
            visible@.len() == names@.len() == ranks@.len(),
            visible@.map_values(|k: usize| entries@[k as int]) == entries@.take(i as int).filter(vis),
            forall|q: int| 0 <= q < visible@.len() ==> #[trigger] visible@[q] < i,
            forall|q: int| 0 <= q < visible@.len() ==> #[trigger] names@[q]@ == entries@[visible@[q] as int].name@,
            forall|q: int| 0 <= q < visible@.len() ==> #[trigger] ranks@[q] == (if entries@[visible@[q] as int].is_dir {
                0u8
            } else {
                1u8
            }),
        decreases entries.len() - i,
    {
        let ghost before = visible@;
        assert(entries@.take(i + 1).drop_last() =~= entries@.take(i as int));
        assert(entries@.take(i + 1).last() == entries@[i as int]);
        reveal(Seq::filter);
        let name = chars_of(entries[i].name.as_str());
        let keep = !is_hidden_or_system(entries[i].name.as_str()) || is_text(&name, ".gitignore");
        if keep {
            visible.push(i);
            names.push(name);
            ranks.push(if entries[i].is_dir {
                0
            } else {
                1
            });
            assert(visible@.map_values(|k: usize| entries@[k as int]) =~= before.map_values(
                |k: usize| entries@[k as int],
            ).push(entries@[i as int]));
        }
        i = i + 1;
    }
    assert(entries@.take(entries.len() as int) =~= entries@);
    let ghost ve = entries@.filter(vis);
    assert(visible@.map_values(|k: usize| entries@[k as int]) == ve);
    assert(ranks@ =~= ve.map_values(|e: FolderEntry| if e.is_dir {
        0u8
    } else {
        1u8
    }));
    assert(text_views(names@) =~= ve.map_values(|e: FolderEntry| e.name@));
    let order = stable_order(&ranks, &names, false);
    let ghost sorted = permuted(ve, order@);
    let count = if order.len() > 50 {
        50
    } else {
        order.len()
    };
    let ghost first = if sorted.len() > 50 {
        sorted.take(50)
    } else {
        sorted
    };
    assert(first =~= sorted.take(count as int));
    let ghost keep_pred = |e: FolderEntry| !ignored_name(e.name@);
    let ghost show = |e: FolderEntry| if e.is_dir {
        e.name@ + "/"@
    } else {
        e.name@
    };
    let mut r: Vec<String> = Vec::new();
    let mut k: usize = 0;
    while k < count
        invariant
            count <= order.len() == visible.len() == ve.len(),
            k <= count,
            forall|q: int| 0 <= q < order.len() ==> #[trigger] order@[q] < visible.len(),
            forall|q: int| 0 <= q < visible@.len() ==> #[trigger] visible@[q] < entries.len(),
            visible@.map_values(|k: usize| entries@[k as int]) == ve,
            sorted == permuted(ve, order@),
            keep_pred == (|e: FolderEntry| !ignored_name(e.name@)),
            show == (|e: FolderEntry| if e.is_dir {
                e.name@ + "/"@
            } else {
                e.name@
            }),
            texts(r@) == sorted.take(k as int).filter(keep_pred).map_values(show),
        decreases count - k,
    {
        let e = &entries[visible[order[k]]];
        let ghost before = texts(r@);
        assert(sorted.take(k + 1).drop_last() =~= sorted.take(k as int));
        assert(ve[order@[k as int] as int] == entries@[visible@[order@[k as int] as int] as int]);
        assert(sorted.take(k + 1).last() == *e);
        reveal(Seq::filter);
        if !is_ignored_dir(e.name.as_str()) {
            if e.is_dir {
                let mut line = chars_of(e.name.as_str());
                push_str(&mut line, "/");
                r.push(string_from_chars(&line));
            } else {
                r.push(e.name.clone());
            }
            assert(texts(r@) =~= before.push(show(*e)));
            assert(sorted.take(k + 1).filter(keep_pred) =~= sorted.take(k as int).filter(
                keep_pred,
            ).push(*e));
            assert(texts(r@) =~= sorted.take(k + 1).filter(keep_pred).map_values(show));
        } else {
            assert(sorted.take(k + 1).filter(keep_pred) =~= sorted.take(k as int).filter(
                keep_pred,
            ));
        }
        k = k + 1;
    }
    r
}

/// Why a project's context cannot be initialised, if it cannot: the path is
/// missing, or the context folder is already there.
pub open spec fn init_refusal(path: Seq<char>, path_exists: bool, p: FolderProbe) -> Option<Seq<char>> {
    if !path_exists {
        Some(missing_path_text(path))
    } else if has_entry(p, ".context-bridge"@) {
        Some("Project already has .context-bridge/ folder."@)
    } else {
        None
    }
}

/// What initialising a context creates.
pub open spec fn created_paths() -> Seq<Seq<char>> {
    seq![
        ".context-bridge/"@,
        ".context-bridge/meta.json"@,
        ".context-bridge/current.md"@,
        ".context-bridge/architecture.md"@,
        ".context-bridge/recent-work.md"@,
        ".context-bridge/sessions.json"@,
        ".context-bridge/history/"@,
    ]
}

/// `.gitignore` needs the `.context-bridge/` line: the project is a git
/// repository and the line is not there yet.
pub open spec fn gitignore_needs_entry(p: FolderProbe, gitignore: FileState) -> bool {
    has_entry(p, ".git"@) && !gitignore_lists_context(gitignore)
}

/// The name of a project whose path has no last component.
pub open spec fn name_or_unknown(name: Option<Seq<char>>) -> Seq<char> {
    match name {
        Some(n) => n,
        None => "unknown"@,
    }
}

/// The `meta.json` of a freshly initialised project.
pub open spec fn describes_new_meta(
    m: ProjectMeta,
    name: Option<Seq<char>>,
    path: Seq<char>,
    p: FolderProbe,
    now: Seq<char>,
) -> bool {
    &&& m.id@ == project_id(name_or_unknown(name))
    &&& m.name@ == name_or_unknown(name)
    &&& m.path@ == path
    &&& m.project_type == project_type_of(p)
    &&& m.created_at@ == now
    &&& m.last_opened_at is None
    &&& opt_text(m.last_context_update_at) == Some(now)
    &&& m.last_session_id is None
    &&& !m.favorite
}

/// Whether the context of the project at `project_path` may be initialised;
/// otherwise the message saying why not.
pub fn check_can_initialize(project_path: &str, path_exists: bool, probe: &FolderProbe) -> (r: Result<(), String>)
    ensures
        match r {
            Ok(()) => init_refusal(project_path@, path_exists, *probe) is None,
            Err(e) => init_refusal(project_path@, path_exists, *probe) == Some(e@),
        },
{
    if !path_exists {
        return Err(crate::git::missing_path_message(project_path));
    }
    if probe_has(probe, ".context-bridge") {
        return Err("Project already has .context-bridge/ folder.".to_owned());
    }
    Ok(())
}

/// What initialising the context of the probed project would do.
pub fn get_init_preview(project_path: &str, path_exists: bool, probe: &FolderProbe, gitignore: &FileState) -> (r: Result<InitPreview, String>)
    ensures
        match r {
            Ok(p) => {
                &&& init_refusal(project_path@, path_exists, *probe) is None
                &&& texts(p.will_create@) == created_paths()
                &&& p.project_type == project_type_of(*probe)
                &&& texts(p.detected_files@) == markers_of(*probe)
                &&& p.gitignore_needs_update == gitignore_needs_entry(*probe, *gitignore)
            },
            Err(e) => init_refusal(project_path@, path_exists, *probe) == Some(e@),
        },
{
    match check_can_initialize(project_path, path_exists, probe) {
        Err(e) => Err(e),
        Ok(()) => {
            let will_create = vec![
                ".context-bridge/".to_owned(),
                ".context-bridge/meta.json".to_owned(),
                ".context-bridge/current.md".to_owned(),
                ".context-bridge/architecture.md".to_owned(),
                ".context-bridge/recent-work.md".to_owned(),
                ".context-bridge/sessions.json".to_owned(),
                ".context-bridge/history/".to_owned(),
            ];
            assert(texts(will_create@) =~= created_paths());
            let needs = probe_has(probe, ".git") && !check_gitignore_for_context_bridge(gitignore);
            Ok(
                InitPreview {
                    will_create,
                    project_type: detect_project_type(probe),
                    detected_files: detect_project_markers(probe),
                    gitignore_needs_update: needs,
                },
            )
        },
    }
}

/// The id of a project named `name`: lower case, with dashes for spaces.
pub fn project_id_of(name: &str) -> (r: String)
    ensures
        r@ == project_id(name@),
{
    let lower = to_lowercase_text(name);
    let id = replace_char(&chars_of(lower.as_str()), ' ', "-");
    string_from_chars(&id)
}

/// The `meta.json` of a project initialised at `now`; `name` is the last
/// component of its path, where it has one.
pub fn new_project_meta(name: Option<String>, project_path: &str, probe: &FolderProbe, now: &str) -> (m: ProjectMeta)
    ensures
        describes_new_meta(m, opt_text(name), project_path@, *probe, now@),
{
    let name = match name {
        Some(n) => n,
        None => "unknown".to_owned(),
    };
    ProjectMeta {
        id: project_id_of(name.as_str()),
        name,
        path: project_path.to_owned(),
        project_type: detect_project_type(probe),
        created_at: now.to_owned(),
        last_opened_at: None,
        last_context_update_at: Some(now.to_owned()),
        last_session_id: None,
        favorite: false,
    }
}

/// The `meta.json` of the project at `project_path`, initialised at `now`, or
/// why it cannot be initialised.
pub fn init_context(
    project_path: &str,
    path_exists: bool,
    probe: &FolderProbe,
    name: Option<String>,
    now: &str,
) -> (r: Result<ProjectMeta, String>)
    ensures
        match r {
            Ok(m) => init_refusal(project_path@, path_exists, *probe) is None && describes_new_meta(
                m,
                opt_text(name),
                project_path@,
                *probe,
                now@,
            ),
            Err(e) => init_refusal(project_path@, path_exists, *probe) == Some(e@),
        },
{
    match check_can_initialize(project_path, path_exists, probe) {
        Err(e) => Err(e),
        Ok(()) => Ok(new_project_meta(name, project_path, probe, now)),
    }
}

/// The contents of `architecture.md` for the detected stack and structure.
pub fn architecture_markdown(stack: &Vec<String>, structure: &Vec<String>) -> (r: String)
    ensures
        r@ == architecture_text(texts(stack@), texts(structure@)),
{
    let mut out = chars_of("# Architecture\n\nGenerated from lightweight folder scan.\n\n## Detected stack\n\n");
    if stack.len() == 0 {
        push_str(&mut out, "- (not detected)");
    } else {
        let mut items: Vec<Vec<char>> = Vec::new();
        let mut i: usize = 0;
        while i < stack.len()
            invariant
                i <= stack.len(),
                items@.len() == i,
                forall|k: int| 0 <= k < i ==> #[trigger] items@[k]@ == "- "@ + stack@[k]@,
            decreases stack.len() - i,
        {
            let mut item = chars_of("- ");
            push_str(&mut item, stack[i].as_str());
            items.push(item);
            i = i + 1;
        }
        assert(items@.map_values(|l: Vec<char>| l@) =~= texts(stack@).map_values(
            |s: Seq<char>| "- "@ + s,
        ));
        push_chars(&mut out, &join_lines(&items));
    }
    push_str(&mut out, "\n\n## Folder structure\n\n```txt\n");
    let mut lines: Vec<Vec<char>> = Vec::new();
    let mut j: usize = 0;
    while j < structure.len()
        invariant
            j <= structure.len(),
            lines@.len() == j,
            forall|k: int| 0 <= k < j ==> #[trigger] lines@[k]@ == structure@[k]@,
        decreases structure.len() - j,
    {
        lines.push(chars_of(structure[j].as_str()));
        j = j + 1;
    }
    assert(lines@.map_values(|l: Vec<char>| l@) =~= texts(structure@));
    push_chars(&mut out, &join_lines(&lines));
    push_str(&mut out, "\n```\n");
    string_from_chars(&out)
}

/// The files written into a new `.context-bridge/` besides `meta.json`, as
/// (file name, contents).
pub open spec fn initial_files(stack: Seq<Seq<char>>, structure: Seq<Seq<char>>) -> Seq<(Seq<char>, Seq<char>)> {
    seq![
        ("architecture.md"@, architecture_text(stack, structure)),
        ("current.md"@, "# Current Focus\n\n"@),
        ("recent-work.md"@, "# Recent Work\n\n"@),
        ("sessions.json"@, "{\"sessions\":[]}"@),
    ]
}

/// The files written into a new `.context-bridge/` besides `meta.json`.
pub fn initial_context_files(stack: &Vec<String>, structure: &Vec<String>) -> (r: Vec<(String, String)>)
    ensures
        r@.map_values(|f: (String, String)| (f.0@, f.1@)) == initial_files(texts(stack@), texts(structure@)),
{
    let r = vec![
        ("architecture.md".to_owned(), architecture_markdown(stack, structure)),
        ("current.md".to_owned(), "# Current Focus\n\n".to_owned()),
        ("recent-work.md".to_owned(), "# Recent Work\n\n".to_owned()),
        ("sessions.json".to_owned(), "{\"sessions\":[]}".to_owned()),
    ];
    assert(r@.map_values(|f: (String, String)| (f.0@, f.1@)) =~= initial_files(
        texts(stack@),
        texts(structure@),
    ));
    r
}

/// Everything that initialising a project's context writes.
pub struct InitPlan {
    /// The new `meta.json`, written as JSON.
    pub meta: ProjectMeta,
    /// The folders created, relative to the project, in the order of creation.
    pub directories: Vec<String>,
    /// The other files written into `.context-bridge/`, as (file name, contents),
    /// in the order of writing.
    pub files: Vec<(String, String)>,
    /// The new text of `.gitignore`, where it is written.
    pub gitignore: Option<String>,
}

/// The folders that initialising creates, relative to the project.
pub open spec fn context_dirs() -> Seq<Seq<char>> {
    seq![".context-bridge"@, ".context-bridge/history"@]
}

/// What initialising writes to `.gitignore`: the update, and only in a project
/// that has a `.git` entry.
pub open spec fn gitignore_write(p: FolderProbe, gitignore: FileState) -> Option<Seq<char>> {
    if has_entry(p, ".git"@) {
        gitignore_update(gitignore)
    } else {
        None
    }
}

/// The files of a plan as (file name, contents).
pub open spec fn plan_files(plan: InitPlan) -> Seq<(Seq<char>, Seq<char>)> {
    plan.files@.map_values(|f: (String, String)| (f.0@, f.1@))
}

/// `plan` initialises the project at `path`, named `name`, at `now`: the new
/// meta, both folders, the four other context files with their contents, and
/// the `.gitignore` write.
pub open spec fn describes_init_plan(
    plan: InitPlan,
    name: Option<Seq<char>>,
    path: Seq<char>,
    p: FolderProbe,
    now: Seq<char>,
    gitignore: FileState,
    entries: Seq<FolderEntry>,
) -> bool {
    &&& describes_new_meta(plan.meta, name, path, p, now)
    &&& texts(plan.directories@) == context_dirs()
    &&& plan_files(plan) == initial_files(stack_of(p), structure_of(entries))
    &&& opt_text(plan.gitignore) == gitignore_write(p, gitignore)
}

/// The paths, relative to the project, that a plan creates.
pub open spec fn planned_paths(plan: InitPlan) -> Seq<Seq<char>> {
    texts(plan.directories@).map_values(|d: Seq<char>| d + "/"@) + seq![".context-bridge/meta.json"@]
        + plan_files(plan).map_values(|f: (Seq<char>, Seq<char>)| ".context-bridge/"@ + f.0)
}

/// The initialisation of the project at `project_path`, or why it cannot be
/// initialised. `probe` describes the folder, `name` is its last path component,
/// `now` the time stamp, `gitignore` the state of its `.gitignore`, and
/// `entries` its listing.
pub fn init_plan(
    project_path: &str,
    path_exists: bool,
    probe: &FolderProbe,
    name: Option<String>,
    now: &str,
    gitignore: &FileState,
    entries: &Vec<FolderEntry>,
) -> (r: Result<InitPlan, String>)
    ensures
        match r {
            Ok(plan) => init_refusal(project_path@, path_exists, *probe) is None && describes_init_plan(
                plan,
                opt_text(name),
                project_path@,
                *probe,
                now@,
                *gitignore,
                entries@,
            ),
            Err(e) => init_refusal(project_path@, path_exists, *probe) == Some(e@),
        },
{
    let meta = match init_context(project_path, path_exists, probe, name, now) {
        Err(e) => return Err(e),
        Ok(m) => m,
    };
    let directories = vec![".context-bridge".to_owned(), ".context-bridge/history".to_owned()];
    assert(texts(directories@) =~= context_dirs());
    let stack = detect_stack(probe);
    let structure = scan_dir_for_structure(entries, 0);
    let files = initial_context_files(&stack, &structure);
    let gitignore_text = if probe_has(probe, ".git") {
        append_to_gitignore(gitignore)
    } else {
        None
    };
    Ok(InitPlan { meta, directories, files, gitignore: gitignore_text })
}

/// The context files that may be written from the app.
pub open spec fn writable_context_file(name: Seq<char>) -> bool {
    ||| name == "meta.json"@
    ||| name == "current.md"@
    ||| name == "architecture.md"@
    ||| name == "recent-work.md"@
    ||| name == "sessions.json"@
    ||| name == "launch-prompt.md"@
}

/// Why writing the context file `filename` is refused, if it is.
pub open spec fn context_write_refusal(context_exists: bool, filename: Seq<char>) -> Option<Seq<char>> {
    if !context_exists {
        Some(".context-bridge directory not initialized"@)
    } else if !writable_context_file(filename) {
        Some("Invalid filename: "@ + filename)
    } else {
        None
    }
}

/// Whether the context file `filename` may be written; otherwise why not.
pub fn check_context_write(context_exists: bool, filename: &str) -> (r: Result<(), String>)
    ensures
        match r {
            Ok(()) => context_write_refusal(context_exists, filename@) is None,
            Err(e) => context_write_refusal(context_exists, filename@) == Some(e@),
        },
{
    if !context_exists {
        return Err(".context-bridge directory not initialized".to_owned());
    }
    let n = chars_of(filename);
    if !(is_text(&n, "meta.json") || is_text(&n, "current.md") || is_text(&n, "architecture.md")
        || is_text(&n, "recent-work.md") || is_text(&n, "sessions.json") || is_text(
        &n,
        "launch-prompt.md",
    )) {
        let mut m = chars_of("Invalid filename: ");
        push_str(&mut m, filename);
        return Err(string_from_chars(&m));
    }
    Ok(())
}

/// The time stamp written into `meta.json`: seconds since the Unix epoch, a dot,
/// nine digits of nanoseconds, and `Z`.
pub fn chrono_now(secs: u64, nanos: u32) -> (r: String)
    ensures
        r@ == timestamp_text(secs as nat, nanos as nat),
{
    let mut out = decimal_chars(secs);
    push_str(&mut out, ".");
    push_chars(&mut out, &zero_pad(&decimal_chars(nanos as u64), 9));
    push_str(&mut out, "Z");
    string_from_chars(&out)
}

/// The projects under the root folder at `root_path` (see `select_projects`), or
/// the message that the path does not exist.
pub fn scan_projects(root_path: &str, root_exists: bool, root: &ProjectCandidate, children: &Vec<ProjectCandidate>) -> (r: Result<Vec<ProjectSummary>, String>)
    ensures
        match r {
            Ok(v) => root_exists && v@.map_values(|s: ProjectSummary| s@) == scanned_projects(*root, children@),
            Err(e) => !root_exists && e@ == "Path does not exist: "@ + root_path@,
        },
{
    if !root_exists {
        let mut m = chars_of("Path does not exist: ");
        push_str(&mut m, root_path);
        return Err(string_from_chars(&m));
    }
    Ok(select_projects(root, children))
}

/// After `.gitignore` is updated, it lists `.context-bridge/` (so the init
/// preview no longer asks for the update) and a second update writes nothing.
pub proof fn lemma_gitignore_update_settles(g: FileState)
    ensures
        match gitignore_update(g) {
            Some(c2) => lists_context_line(c2) && contains_text(c2, ".context-bridge/"@),
            None => true,
        },
{
    match gitignore_update(g) {
        Some(c2) => {
            let before = match g {
                FileState::Contents(c) => c@,
                _ => Seq::empty(),
            };
            assert(c2 =~= before + gitignore_entry());
            lemma_entry_listed(before);
        },
        None => {},
    }
}

proof fn lemma_entry_listed(before: Seq<char>)
    ensures
        lists_context_line(before + gitignore_entry()),
        contains_text(before + gitignore_entry(), ".context-bridge/"@),
{
    reveal_strlit("\n# ContextDock\n.context-bridge/\n");
    reveal_strlit("# ContextDock");
    reveal_strlit(".context-bridge/");
    let t = ".context-bridge/"@;
    let x = before + seq!['\n'] + "# ContextDock"@;
    let c2 = before + gitignore_entry();
    assert(c2 =~= x + seq!['\n'] + t + seq!['\n'] + Seq::<char>::empty());
    assert(!t.contains('\n')) by {
        if t.contains('\n') {
            let i = choose|i: int| 0 <= i < t.len() && t[i] == '\n';
            assert(t[i] != '\n');
        }
    }
    assert(!Seq::<char>::empty().contains('\n'));
    lemma_split_last_piece(x, t, '\n');
    lemma_split_last_piece(x + seq!['\n'] + t, Seq::<char>::empty(), '\n');
    let p = split_on(c2, '\n');
    assert(p == split_on(x, '\n').push(t).push(Seq::empty()));
    let q = split_on(x, '\n').push(t);
    assert(p.drop_last() =~= q);
    let ls = lines_of(c2);
    let i = q.len() - 1;
    assert(p[i] == q[i] && q[i] == t);
    assert(strip_cr(t) == t);
    assert(ls[i] == line_of_piece(p, i));
    assert(ls[i] == t);
    assert(trim_start(t) == t);
    assert(trim_end(t) == t);
    assert(trimmed(ls[i]) == t);
    assert(lists_context_line(c2));
    let at = c2.len() - t.len() - 1;
    assert(c2.subrange(at, at + t.len()) =~= t);
    assert(occurs_at(c2, t, at));
}

/// The scan lists projects in name order.
pub proof fn lemma_scan_sorted_by_name(root: ProjectCandidate, children: Seq<ProjectCandidate>)
    requires
        children.len() < usize::MAX,
    ensures
        forall|a: int, b: int|
            0 <= a < b < scanned_projects(root, children).len() ==> !text_lt(
                #[trigger] scanned_projects(root, children)[b].name,
                #[trigger] scanned_projects(root, children)[a].name,
            ),
{
    let listed = listed_candidates(root, children).map_values(|c: ProjectCandidate| summary_of(c));
    let ranks = same_rank(listed.len());
    let names = listed.map_values(|s: SummaryView| s.name);
    let order = stable_sorted(ranks, names, false);
    children.lemma_filter_len(|c: ProjectCandidate| child_listed(c));
    crate::order::lemma_stable_order_exists(ranks, names, false);
    let out = scanned_projects(root, children);
    assert forall|a: int, b: int| 0 <= a < b < out.len() implies !text_lt(
        #[trigger] out[b].name,
        #[trigger] out[a].name,
    ) by {
        let ia = order[a] as int;
        let ib = order[b] as int;
        assert(crate::order::pos_before(ranks, names, false, ia, ib));
        assert(out[a] == listed[ia] && out[b] == listed[ib]);
        if text_lt(names[ib], names[ia]) {
            crate::text::lemma_text_lt_asymmetric(names[ib], names[ia]);
            crate::text::lemma_text_lt_irreflexive(names[ia]);
        }
    }
}

/// The folder structure written into `architecture.md` never has more than
/// fifty lines.
pub proof fn lemma_structure_at_most_fifty(entries: Seq<FolderEntry>)
    ensures
        structure_of(entries).len() <= 50,
{
    let visible = entries.filter(
        |e: FolderEntry| !hidden_or_system_name(e.name@) || e.name@ == ".gitignore"@,
    );
    let sorted = permuted(
        visible,
        stable_sorted(
            visible.map_values(|e: FolderEntry| if e.is_dir {
                0u8
            } else {
                1u8
            }),
            visible.map_values(|e: FolderEntry| e.name@),
            false,
        ),
    );
    let first = if sorted.len() > 50 {
        sorted.take(50)
    } else {
        sorted
    };
    first.lemma_filter_len(|e: FolderEntry| !ignored_name(e.name@));
}

/// Initialising creates every path that the init preview announces.
pub proof fn lemma_plan_creates_preview_paths(
    plan: InitPlan,
    name: Option<Seq<char>>,
    path: Seq<char>,
    p: FolderProbe,
    now: Seq<char>,
    gitignore: FileState,
    entries: Seq<FolderEntry>,
)
    requires
        describes_init_plan(plan, name, path, p, now, gitignore, entries),
    ensures
        forall|i: int| 0 <= i < created_paths().len() ==> planned_paths(plan).contains(#[trigger] created_paths()[i]),
{
    reveal_strlit(".context-bridge");
    reveal_strlit(".context-bridge/history");
    reveal_strlit("/");
    reveal_strlit(".context-bridge/");
    reveal_strlit(".context-bridge/meta.json");
    reveal_strlit(".context-bridge/current.md");
    reveal_strlit(".context-bridge/architecture.md");
    reveal_strlit(".context-bridge/recent-work.md");
    reveal_strlit(".context-bridge/sessions.json");
    reveal_strlit(".context-bridge/history/");
    reveal_strlit("architecture.md");
    reveal_strlit("current.md");
    reveal_strlit("recent-work.md");
    reveal_strlit("sessions.json");
    let pp = planned_paths(plan);
    let dirs = texts(plan.directories@).map_values(|d: Seq<char>| d + "/"@);
    let fs = plan_files(plan).map_values(|f: (Seq<char>, Seq<char>)| ".context-bridge/"@ + f.0);
    assert(pp =~= dirs + seq![".context-bridge/meta.json"@] + fs);
    assert(dirs.len() == 2 && fs.len() == 4);
    assert(dirs[0] =~= ".context-bridge/"@);
    assert(dirs[1] =~= ".context-bridge/history/"@);
    assert(fs[0] =~= ".context-bridge/architecture.md"@);
    assert(fs[1] =~= ".context-bridge/current.md"@);
    assert(fs[2] =~= ".context-bridge/recent-work.md"@);
    assert(fs[3] =~= ".context-bridge/sessions.json"@);
    assert(pp[0] == created_paths()[0]);
    assert(pp[2] == created_paths()[1]);
    assert(pp[4] == created_paths()[2]);
    assert(pp[3] == created_paths()[3]);
    assert(pp[5] == created_paths()[4]);
    assert(pp[6] == created_paths()[5]);
    assert(pp[1] == created_paths()[6]);
}

/// How a folder's type follows from its files: a readable `package.json` makes
/// it Next.js when that file mentions `"next"` and Node otherwise; without one,
/// `Cargo.toml` makes it Rust, else `pyproject.toml` or `requirements.txt` make
/// it Python, else it is Unknown.
pub proof fn lemma_project_type_rules(p: FolderProbe)
    ensures
        p.package_json matches FileState::Contents(c) ==> (project_type_of(p) == ProjectType::Nextjs
            <==> contains_text(c@, "\"next\""@)),
        p.package_json is Contents ==> (project_type_of(p) == ProjectType::Nextjs || project_type_of(p)
            == ProjectType::Node),
        !(p.package_json is Contents) && has_entry(p, "Cargo.toml"@) ==> project_type_of(p) == ProjectType::Rust,
        !(p.package_json is Contents) && !has_entry(p, "Cargo.toml"@) && (has_entry(p, "pyproject.toml"@)
            || has_entry(p, "requirements.txt"@)) ==> project_type_of(p) == ProjectType::Python,
        !(p.package_json is Contents) && !has_entry(p, "Cargo.toml"@) && !has_entry(p, "pyproject.toml"@)
            && !has_entry(p, "requirements.txt"@) ==> project_type_of(p) == ProjectType::Unknown,
{
}

/// The test "is `y`", for counting the occurrences of `y`.
pub open spec fn is_item(y: Seq<char>) -> spec_fn(Seq<char>) -> bool {
    |x: Seq<char>| x == y
}

/// How many times `y` occurs in `s`.
pub open spec fn occurrences(s: Seq<Seq<char>>, y: Seq<char>) -> nat {
    s.filter(is_item(y)).len()
}

/// `s` with `x` added at the end where `b`.
pub open spec fn cond_push(s: Seq<Seq<char>>, x: Seq<char>, b: bool) -> Seq<Seq<char>> {
    if b {
        s.push(x)
    } else {
        s
    }
}

/// `s` with `x` added at the end, unless already there, where `b`.
pub open spec fn cond_push_new(s: Seq<Seq<char>>, x: Seq<char>, b: bool) -> Seq<Seq<char>> {
    if b {
        push_new(s, x)
    } else {
        s
    }
}

proof fn lemma_push_contains(s: Seq<Seq<char>>, x: Seq<char>, y: Seq<char>)
    ensures
        s.push(x).contains(y) <==> (s.contains(y) || y == x),
{
    if s.contains(y) {
        let i = choose|i: int| 0 <= i < s.len() && s[i] == y;
        assert(s.push(x)[i] == y);
    }
    if y == x {
        assert(s.push(x)[s.len() as int] == x);
    }
    if s.push(x).contains(y) && y != x {
        let i = choose|i: int| 0 <= i < s.push(x).len() && s.push(x)[i] == y;
        assert(s[i] == y);
    }
}

proof fn lemma_cond_push_contains(s: Seq<Seq<char>>, x: Seq<char>, b: bool, y: Seq<char>)
    ensures
        cond_push(s, x, b).contains(y) <==> (s.contains(y) || (b && y == x)),
{
    lemma_push_contains(s, x, y);
}

proof fn lemma_cond_push_new_contains(s: Seq<Seq<char>>, x: Seq<char>, b: bool, y: Seq<char>)
    ensures
        cond_push_new(s, x, b).contains(y) <==> (s.contains(y) || (b && y == x)),
{
    lemma_push_contains(s, x, y);
}

proof fn lemma_cond_push_count(s: Seq<Seq<char>>, x: Seq<char>, b: bool, y: Seq<char>)
    ensures
        occurrences(cond_push(s, x, b), y) == occurrences(s, y) + (if b && x == y {
            1int
        } else {
            0int
        }),
{
    s.lemma_filter_len_push(is_item(y), x);
}

proof fn lemma_cond_push_new_count(s: Seq<Seq<char>>, x: Seq<char>, b: bool, y: Seq<char>)
    ensures
        occurrences(cond_push_new(s, x, b), y) == occurrences(s, y) + (if b && x == y && !s.contains(x) {
            1int
        } else {
            0int
        }),
{
    s.lemma_filter_len_push(is_item(y), x);
}

proof fn lemma_cond_push_names(s: Seq<Seq<char>>, x: Seq<char>, b: bool)
    requires
        forall|y: Seq<char>| s.contains(y) ==> stack_name(y),
        stack_name(x),
    ensures
        forall|y: Seq<char>| cond_push(s, x, b).contains(y) ==> stack_name(y),
{
    assert forall|y: Seq<char>| cond_push(s, x, b).contains(y) implies stack_name(y) by {
        lemma_push_contains(s, x, y);
    }
}

proof fn lemma_cond_push_new_names(s: Seq<Seq<char>>, x: Seq<char>, b: bool)
    requires
        forall|y: Seq<char>| s.contains(y) ==> stack_name(y),
        stack_name(x),
    ensures
        forall|y: Seq<char>| cond_push_new(s, x, b).contains(y) ==> stack_name(y),
{
    assert forall|y: Seq<char>| cond_push_new(s, x, b).contains(y) implies stack_name(y) by {
        lemma_push_contains(s, x, y);
    }
}

proof fn lemma_absent_item(s: Seq<Seq<char>>, y: Seq<char>)
    requires
        !s.contains(y),
    ensures
        occurrences(s, y) == 0,
    decreases s.len(),
{
    if s.len() == 0 {
        reveal(Seq::filter);
        assert(s.filter(is_item(y)) =~= Seq::<Seq<char>>::empty());
    } else {
        let q = s.drop_last();
        assert(q.push(s.last()) =~= s);
        q.lemma_filter_len_push(is_item(y), s.last());
        assert(s.last() != y) by {
            assert(s[s.len() - 1] == s.last());
        }
        assert(!q.contains(y)) by {
            if q.contains(y) {
                let i = choose|i: int| 0 <= i < q.len() && q[i] == y;
                assert(s[i] == y);
            }
        }
        lemma_absent_item(q, y);
    }
}

/// One of the names that the stack detection can give.
pub open spec fn stack_name(y: Seq<char>) -> bool {
    ||| y == "Next.js"@
    ||| y == "React"@
    ||| y == "TypeScript"@
    ||| y == "Tailwind CSS"@
    ||| y == "Rust"@
    ||| y == "Python"@
}

/// `package.json` is readable and mentions `needle`.
pub open spec fn package_mentions(p: FolderProbe, needle: Seq<char>) -> bool {
    p.package_json matches FileState::Contents(c) && contains_text(c@, needle)
}

/// What the detected stack names, and why: Next.js where `package.json`
/// mentions `"next"` or a Next config exists; React and TypeScript where
/// `package.json` mentions them; Tailwind CSS where a Tailwind config exists;
/// Rust where `Cargo.toml` exists; Python once for each of `pyproject.toml` and
/// `requirements.txt`. Nothing else is named, and Next.js and Tailwind CSS are
/// named at most once.
#[verifier::rlimit(100)]
pub proof fn lemma_stack_rules(p: FolderProbe)
    ensures
        stack_of(p).contains("Next.js"@) <==> (package_mentions(p, "\"next\""@) || has_entry(p, "next.config.ts"@)
            || has_entry(p, "next.config.js"@)),
        stack_of(p).contains("React"@) <==> package_mentions(p, "\"react\""@),
        stack_of(p).contains("TypeScript"@) <==> package_mentions(p, "\"typescript\""@),
        stack_of(p).contains("Tailwind CSS"@) <==> (has_entry(p, "tailwind.config.ts"@) || has_entry(
            p,
            "tailwind.config.js"@,
        )),
        stack_of(p).contains("Rust"@) <==> has_entry(p, "Cargo.toml"@),
        stack_of(p).contains("Python"@) <==> (has_entry(p, "pyproject.toml"@) || has_entry(p, "requirements.txt"@)),
        forall|i: int| 0 <= i < stack_of(p).len() ==> stack_name(#[trigger] stack_of(p)[i]),
        occurrences(stack_of(p), "Next.js"@) <= 1,
        occurrences(stack_of(p), "Tailwind CSS"@) <= 1,
        occurrences(stack_of(p), "Python"@) == (if has_entry(p, "pyproject.toml"@) {
            1int
        } else {
            0int
        }) + (if has_entry(p, "requirements.txt"@) {
            1int
        } else {
            0int
        }),
{
    reveal_strlit("Next.js");
    reveal_strlit("React");
    reveal_strlit("TypeScript");
    reveal_strlit("Tailwind CSS");
    reveal_strlit("Rust");
    reveal_strlit("Python");
    let n = "Next.js"@;
    let r = "React"@;
    let ts = "TypeScript"@;
    let tw = "Tailwind CSS"@;
    let ru = "Rust"@;
    let py = "Python"@;
    assert(n.len() == 7 && r.len() == 5 && ts.len() == 10 && tw.len() == 12 && ru.len() == 4 && py.len() == 6);
    let s0 = Seq::<Seq<char>>::empty();
    lemma_absent_item(s0, n);
    lemma_absent_item(s0, tw);
    lemma_absent_item(s0, py);
    assert(forall|y: Seq<char>| s0.contains(y) ==> stack_name(y));
    let b1 = package_mentions(p, "\"next\""@);
    let s1 = cond_push(s0, n, b1);
    lemma_cond_push_contains(s0, n, b1, n);
    assert(s1.contains(n) <==> (false || b1));
    lemma_cond_push_contains(s0, n, b1, r);
    assert(s1.contains(r) <==> false);
    lemma_cond_push_contains(s0, n, b1, ts);
    assert(s1.contains(ts) <==> false);
    lemma_cond_push_contains(s0, n, b1, tw);
    assert(s1.contains(tw) <==> false);
    lemma_cond_push_contains(s0, n, b1, ru);
    assert(s1.contains(ru) <==> false);
    lemma_cond_push_contains(s0, n, b1, py);
    assert(s1.contains(py) <==> false);
    lemma_cond_push_count(s0, n, b1, n);
    assert(occurrences(s1, n) == 0int + (if b1 { 1int } else { 0int }));
    lemma_cond_push_count(s0, n, b1, tw);
    assert(occurrences(s1, tw) == 0int);
    lemma_cond_push_count(s0, n, b1, py);
    assert(occurrences(s1, py) == 0int);
    lemma_cond_push_names(s0, n, b1);
    let b2 = package_mentions(p, "\"react\""@);
    let s2 = cond_push(s1, r, b2);
    lemma_cond_push_contains(s1, r, b2, n);
    assert(s2.contains(n) <==> (false || b1));
    lemma_cond_push_contains(s1, r, b2, r);
    assert(s2.contains(r) <==> (false || b2));
    lemma_cond_push_contains(s1, r, b2, ts);
    assert(s2.contains(ts) <==> false);
    lemma_cond_push_contains(s1, r, b2, tw);
    assert(s2.contains(tw) <==> false);
    lemma_cond_push_contains(s1, r, b2, ru);
    assert(s2.contains(ru) <==> false);
    lemma_cond_push_contains(s1, r, b2, py);
    assert(s2.contains(py) <==> false);
    lemma_cond_push_count(s1, r, b2, n);
    assert(occurrences(s2, n) == 0int + (if b1 { 1int } else { 0int }));
    lemma_cond_push_count(s1, r, b2, tw);
    assert(occurrences(s2, tw) == 0int);
    lemma_cond_push_count(s1, r, b2, py);
    assert(occurrences(s2, py) == 0int);
    lemma_cond_push_names(s1, r, b2);
    let b3 = package_mentions(p, "\"typescript\""@);
    let s3 = cond_push(s2, ts, b3);
    lemma_cond_push_contains(s2, ts, b3, n);
    assert(s3.contains(n) <==> (false || b1));
    lemma_cond_push_contains(s2, ts, b3, r);
    assert(s3.contains(r) <==> (false || b2));
    lemma_cond_push_contains(s2, ts, b3, ts);
    assert(s3.contains(ts) <==> (false || b3));
    lemma_cond_push_contains(s2, ts, b3, tw);
    assert(s3.contains(tw) <==> false);
    lemma_cond_push_contains(s2, ts, b3, ru);
    assert(s3.contains(ru) <==> false);
    lemma_cond_push_contains(s2, ts, b3, py);
    assert(s3.contains(py) <==> false);
    lemma_cond_push_count(s2, ts, b3, n);
    assert(occurrences(s3, n) == 0int + (if b1 { 1int } else { 0int }));
    lemma_cond_push_count(s2, ts, b3, tw);
    assert(occurrences(s3, tw) == 0int);
    lemma_cond_push_count(s2, ts, b3, py);
    assert(occurrences(s3, py) == 0int);
    lemma_cond_push_names(s2, ts, b3);
    let b4 = has_entry(p, "next.config.ts"@) || has_entry(p, "next.config.js"@);
    let s4 = cond_push_new(s3, n, b4);
    lemma_cond_push_new_contains(s3, n, b4, n);
    assert(s4.contains(n) <==> ((false || b1) || b4));
    lemma_cond_push_new_contains(s3, n, b4, r);
    assert(s4.contains(r) <==> (false || b2));
    lemma_cond_push_new_contains(s3, n, b4, ts);
    assert(s4.contains(ts) <==> (false || b3));
    lemma_cond_push_new_contains(s3, n, b4, tw);
    assert(s4.contains(tw) <==> false);
    lemma_cond_push_new_contains(s3, n, b4, ru);
    assert(s4.contains(ru) <==> false);
    lemma_cond_push_new_contains(s3, n, b4, py);
    assert(s4.contains(py) <==> false);
    lemma_cond_push_new_count(s3, n, b4, n);
    assert(occurrences(s4, n) <= 1);
    lemma_cond_push_new_count(s3, n, b4, tw);
    assert(occurrences(s4, tw) == 0int);
    lemma_cond_push_new_count(s3, n, b4, py);
    assert(occurrences(s4, py) == 0int);
    lemma_cond_push_new_names(s3, n, b4);
    let b5 = has_entry(p, "tailwind.config.ts"@) || has_entry(p, "tailwind.config.js"@);
    let s5 = cond_push_new(s4, tw, b5);
    lemma_cond_push_new_contains(s4, tw, b5, n);
    assert(s5.contains(n) <==> ((false || b1) || b4));
    lemma_cond_push_new_contains(s4, tw, b5, r);
    assert(s5.contains(r) <==> (false || b2));
    lemma_cond_push_new_contains(s4, tw, b5, ts);
    assert(s5.contains(ts) <==> (false || b3));
    lemma_cond_push_new_contains(s4, tw, b5, tw);
    assert(s5.contains(tw) <==> (false || b5));
    lemma_cond_push_new_contains(s4, tw, b5, ru);
    assert(s5.contains(ru) <==> false);
    lemma_cond_push_new_contains(s4, tw, b5, py);
    assert(s5.contains(py) <==> false);
    lemma_cond_push_new_count(s4, tw, b5, n);
    assert(occurrences(s5, n) <= 1);
    lemma_cond_push_new_count(s4, tw, b5, tw);
    assert(occurrences(s5, tw) <= 1);
    lemma_cond_push_new_count(s4, tw, b5, py);
    assert(occurrences(s5, py) == 0int);
    lemma_cond_push_new_names(s4, tw, b5);
    let b6 = has_entry(p, "Cargo.toml"@);
    let s6 = cond_push(s5, ru, b6);
    lemma_cond_push_contains(s5, ru, b6, n);
    assert(s6.contains(n) <==> ((false || b1) || b4));
    lemma_cond_push_contains(s5, ru, b6, r);
    assert(s6.contains(r) <==> (false || b2));
    lemma_cond_push_contains(s5, ru, b6, ts);
    assert(s6.contains(ts) <==> (false || b3));
    lemma_cond_push_contains(s5, ru, b6, tw);
    assert(s6.contains(tw) <==> (false || b5));
    lemma_cond_push_contains(s5, ru, b6, ru);
    assert(s6.contains(ru) <==> (false || b6));
    lemma_cond_push_contains(s5, ru, b6, py);
    assert(s6.contains(py) <==> false);
    lemma_cond_push_count(s5, ru, b6, n);
    assert(occurrences(s6, n) <= 1);
    lemma_cond_push_count(s5, ru, b6, tw);
    assert(occurrences(s6, tw) <= 1);
    lemma_cond_push_count(s5, ru, b6, py);
    assert(occurrences(s6, py) == 0int);
    lemma_cond_push_names(s5, ru, b6);
    let b7 = has_entry(p, "pyproject.toml"@);
    let s7 = cond_push(s6, py, b7);
    lemma_cond_push_contains(s6, py, b7, n);
    assert(s7.contains(n) <==> ((false || b1) || b4));
    lemma_cond_push_contains(s6, py, b7, r);
    assert(s7.contains(r) <==> (false || b2));
    lemma_cond_push_contains(s6, py, b7, ts);
    assert(s7.contains(ts) <==> (false || b3));
    lemma_cond_push_contains(s6, py, b7, tw);
    assert(s7.contains(tw) <==> (false || b5));
    lemma_cond_push_contains(s6, py, b7, ru);
    assert(s7.contains(ru) <==> (false || b6));
    lemma_cond_push_contains(s6, py, b7, py);
    assert(s7.contains(py) <==> (false || b7));
    lemma_cond_push_count(s6, py, b7, n);
    assert(occurrences(s7, n) <= 1);
    lemma_cond_push_count(s6, py, b7, tw);
    assert(occurrences(s7, tw) <= 1);
    lemma_cond_push_count(s6, py, b7, py);
    assert(occurrences(s7, py) == 0int + (if b7 { 1int } else { 0int }));
    lemma_cond_push_names(s6, py, b7);
    let b8 = has_entry(p, "requirements.txt"@);
    let s8 = cond_push(s7, py, b8);
    lemma_cond_push_contains(s7, py, b8, n);
    assert(s8.contains(n) <==> ((false || b1) || b4));
    lemma_cond_push_contains(s7, py, b8, r);
    assert(s8.contains(r) <==> (false || b2));
    lemma_cond_push_contains(s7, py, b8, ts);
    assert(s8.contains(ts) <==> (false || b3));
    lemma_cond_push_contains(s7, py, b8, tw);
    assert(s8.contains(tw) <==> (false || b5));
    lemma_cond_push_contains(s7, py, b8, ru);
    assert(s8.contains(ru) <==> (false || b6));
    lemma_cond_push_contains(s7, py, b8, py);
    assert(s8.contains(py) <==> ((false || b7) || b8));
    lemma_cond_push_count(s7, py, b8, n);
    assert(occurrences(s8, n) <= 1);
    lemma_cond_push_count(s7, py, b8, tw);
    assert(occurrences(s8, tw) <= 1);
    lemma_cond_push_count(s7, py, b8, py);
    assert(occurrences(s8, py) == 0int + (if b7 { 1int } else { 0int }) + (if b8 { 1int } else { 0int }));
    lemma_cond_push_names(s7, py, b8);
    lemma_stack_is_stages(p);
    assert(stack_of(p) == s8);
    assert forall|i: int| 0 <= i < s8.len() implies stack_name(#[trigger] s8[i]) by {
        assert(s8.contains(s8[i]));
    }
}

/// The stack, built step by step.
proof fn lemma_stack_is_stages(p: FolderProbe)
    ensures
        stack_of(p) == cond_push(
            cond_push(
                cond_push(
                    cond_push_new(
                        cond_push_new(
                            cond_push(
                                cond_push(
                                    cond_push(Seq::empty(), "Next.js"@, package_mentions(p, "\"next\""@)),
                                    "React"@,
                                    package_mentions(p, "\"react\""@),
                                ),
                                "TypeScript"@,
                                package_mentions(p, "\"typescript\""@),
                            ),
                            "Next.js"@,
                            has_entry(p, "next.config.ts"@) || has_entry(p, "next.config.js"@),
                        ),
                        "Tailwind CSS"@,
                        has_entry(p, "tailwind.config.ts"@) || has_entry(p, "tailwind.config.js"@),
                    ),
                    "Rust"@,
                    has_entry(p, "Cargo.toml"@),
                ),
                "Python"@,
                has_entry(p, "pyproject.toml"@),
            ),
            "Python"@,
            has_entry(p, "requirements.txt"@),
        ),
{
    let s1 = cond_push(Seq::empty(), "Next.js"@, package_mentions(p, "\"next\""@));
    let s2 = cond_push(s1, "React"@, package_mentions(p, "\"react\""@));
    let s3 = cond_push(s2, "TypeScript"@, package_mentions(p, "\"typescript\""@));
    match p.package_json {
        FileState::Contents(c) => {
            let e = Seq::<Seq<char>>::empty();
            let from_package = (if contains_text(c@, "\"next\""@) {
                seq!["Next.js"@]
            } else {
                e
            }) + (if contains_text(c@, "\"react\""@) {
                seq!["React"@]
            } else {
                e
            }) + (if contains_text(c@, "\"typescript\""@) {
                seq!["TypeScript"@]
            } else {
                e
            });
            assert(from_package =~= s3);
        },
        _ => {
            assert(s3 =~= Seq::<Seq<char>>::empty());
        },
    }
}

/// The files that the init preview reports when present.
pub open spec fn known_marker_file(m: Seq<char>) -> bool {
    ||| m == "package.json"@
    ||| m == "Cargo.toml"@
    ||| m == "pyproject.toml"@
    ||| m == "requirements.txt"@
    ||| m == "README.md"@
    ||| m == ".gitignore"@
    ||| m == "tsconfig.json"@
    ||| m == "next.config.ts"@
    ||| m == "next.config.js"@
    ||| m == "vite.config.ts"@
    ||| m == "webpack.config.js"@
}

/// The folders that the init preview reports, with a `/`, when present.
pub open spec fn known_marker_dir(d: Seq<char>) -> bool {
    ||| d == "src"@
    ||| d == "app"@
    ||| d == "lib"@
    ||| d == "components"@
    ||| d == "pages"@
    ||| d == "tests"@
    ||| d == "docs"@
}

/// The markers that the init preview reports: at most ten; each a known marker
/// file that exists in the folder, or a known marker folder that is a
/// directory there, written with a `/`; files before folders; and, where fewer
/// than ten are reported, every marker present in the folder.
pub proof fn lemma_markers_rules(p: FolderProbe)
    ensures
        markers_of(p).len() <= 10,
        forall|i: int|
            0 <= i < markers_of(p).len() ==> (known_marker_file(#[trigger] markers_of(p)[i]) && has_entry(
                p,
                markers_of(p)[i],
            )) || (exists|d: Seq<char>| known_marker_dir(d) && has_dir(p, d) && markers_of(p)[i] == d + "/"@),
        forall|i: int, j: int|
            0 <= i < j < markers_of(p).len() && known_marker_file(#[trigger] markers_of(p)[j]) ==> known_marker_file(
                #[trigger] markers_of(p)[i],
            ),
        markers_of(p).len() < 10 ==> forall|m: Seq<char>| known_marker_file(m) && has_entry(p, m) ==> markers_of(p).contains(m),
        markers_of(p).len() < 10 ==> forall|d: Seq<char>|
            known_marker_dir(d) && has_dir(p, d) ==> markers_of(p).contains(d + "/"@),
{
    broadcast use vstd::seq_lib::group_filter_ensures;
    reveal_strlit("package.json");
    reveal_strlit("Cargo.toml");
    reveal_strlit("pyproject.toml");
    reveal_strlit("requirements.txt");
    reveal_strlit("README.md");
    reveal_strlit(".gitignore");
    reveal_strlit("tsconfig.json");
    reveal_strlit("next.config.ts");
    reveal_strlit("next.config.js");
    reveal_strlit("vite.config.ts");
    reveal_strlit("webpack.config.js");
    reveal_strlit("src");
    reveal_strlit("app");
    reveal_strlit("lib");
    reveal_strlit("components");
    reveal_strlit("pages");
    reveal_strlit("tests");
    reveal_strlit("docs");
    reveal_strlit("/");
    assert(marker_files()[0] == "package.json"@);
    assert(marker_files()[1] == "Cargo.toml"@);
    assert(marker_files()[2] == "pyproject.toml"@);
    assert(marker_files()[3] == "requirements.txt"@);
    assert(marker_files()[4] == "README.md"@);
    assert(marker_files()[5] == ".gitignore"@);
    assert(marker_files()[6] == "tsconfig.json"@);
    assert(marker_files()[7] == "next.config.ts"@);
    assert(marker_files()[8] == "next.config.js"@);
    assert(marker_files()[9] == "vite.config.ts"@);
    assert(marker_files()[10] == "webpack.config.js"@);
    assert(marker_dirs()[0] == "src"@);
    assert(marker_dirs()[1] == "app"@);
    assert(marker_dirs()[2] == "lib"@);
    assert(marker_dirs()[3] == "components"@);
    assert(marker_dirs()[4] == "pages"@);
    assert(marker_dirs()[5] == "tests"@);
    assert(marker_dirs()[6] == "docs"@);
    let pf = |m: Seq<char>| has_entry(p, m);
    let pd = |m: Seq<char>| has_dir(p, m);
    let slash = |m: Seq<char>| m + "/"@;
    let f = marker_files().filter(pf);
    let dd = marker_dirs().filter(pd);
    let d = dd.map_values(slash);
    let all = f + d;
    assert(markers_of(p) == if all.len() > 10 { all.take(10) } else { all });
    assert forall|k: int| 0 <= k < f.len() implies known_marker_file(#[trigger] f[k]) && has_entry(p, f[k]) by {
        assert(pf(f[k]));
        assert(f.contains(f[k]));
        marker_files().lemma_filter_contains_rev(pf, f[k]);
        let j = choose|j: int| 0 <= j < marker_files().len() && marker_files()[j] == f[k];
        assert(known_marker_file(marker_files()[j]));
    }
    assert forall|k: int| 0 <= k < d.len() implies !known_marker_file(#[trigger] d[k]) && (exists|x: Seq<char>|
        known_marker_dir(x) && has_dir(p, x) && d[k] == x + "/"@) by {
        assert(pd(dd[k]));
        assert(dd.contains(dd[k]));
        marker_dirs().lemma_filter_contains_rev(pd, dd[k]);
        let j = choose|j: int| 0 <= j < marker_dirs().len() && marker_dirs()[j] == dd[k];
        assert(known_marker_dir(marker_dirs()[j]));
        assert(d[k] == dd[k] + "/"@);
        assert(d[k].last() == '/');
        assert(known_marker_dir(dd[k]) && has_dir(p, dd[k]) && d[k] == dd[k] + "/"@);
    }
    assert forall|k: int| 0 <= k < all.len() implies (known_marker_file(#[trigger] all[k]) && has_entry(p, all[k]))
        || (exists|x: Seq<char>| known_marker_dir(x) && has_dir(p, x) && all[k] == x + "/"@) by {
        if k < f.len() {
            assert(all[k] == f[k]);
        } else {
            assert(all[k] == d[k - f.len()]);
        }
    }
    assert forall|a: int, b: int| 0 <= a < b < all.len() && known_marker_file(#[trigger] all[b]) implies known_marker_file(
        #[trigger] all[a],
    ) by {
        if b >= f.len() {
            assert(all[b] == d[b - f.len()]);
        }
        assert(all[a] == f[a]);
    }
    if markers_of(p).len() < 10 {
        assert(markers_of(p) == all);
        assert forall|m: Seq<char>| known_marker_file(m) && has_entry(p, m) implies all.contains(m) by {
            let k = choose|k: int| 0 <= k < marker_files().len() && marker_files()[k] == m;
            assert(pf(marker_files()[k]));
            assert(f.contains(m));
            let j = choose|j: int| 0 <= j < f.len() && f[j] == m;
            assert(all[j] == m);
        }
        assert forall|x: Seq<char>| known_marker_dir(x) && has_dir(p, x) implies all.contains(x + "/"@) by {
            let k = choose|k: int| 0 <= k < marker_dirs().len() && marker_dirs()[k] == x;
            assert(pd(marker_dirs()[k]));
            assert(dd.contains(x));
            let j = choose|j: int| 0 <= j < dd.len() && dd[j] == x;
            assert(all[f.len() + j] == x + "/"@);
        }
    }
}

/// A folder is a project root exactly when it holds a package manifest
/// (`package.json`, `Cargo.toml`, `pyproject.toml`, `requirements.txt`), a Next
/// or Vite config, or a `.git` directory.
pub proof fn lemma_project_root_rule(p: FolderProbe)
    ensures
        project_root(p) <==> (has_entry(p, "package.json"@) || has_entry(p, "Cargo.toml"@) || has_entry(p, "pyproject.toml"@) || has_entry(p, "requirements.txt"@) || has_entry(p, "next.config.js"@) || has_entry(p, "next.config.ts"@) || has_entry(p, "vite.config.js"@) || has_entry(p, "vite.config.ts"@) || has_dir(p, ".git"@)),
{
    assert(strong_markers()[0] == "package.json"@);
    assert(strong_markers()[1] == "Cargo.toml"@);
    assert(strong_markers()[2] == "pyproject.toml"@);
    assert(strong_markers()[3] == "requirements.txt"@);
    assert(strong_markers()[4] == "next.config.js"@);
    assert(strong_markers()[5] == "next.config.ts"@);
    assert(strong_markers()[6] == "vite.config.js"@);
    assert(strong_markers()[7] == "vite.config.ts"@);
    if has_entry(p, "package.json"@) || has_entry(p, "Cargo.toml"@) || has_entry(p, "pyproject.toml"@) || has_entry(p, "requirements.txt"@) || has_entry(p, "next.config.js"@) || has_entry(p, "next.config.ts"@) || has_entry(p, "vite.config.js"@) || has_entry(p, "vite.config.ts"@) {
        assert(exists|i: int| 0 <= i < strong_markers().len() && has_entry(p, #[trigger] strong_markers()[i]));
    }
}

} // verus!
