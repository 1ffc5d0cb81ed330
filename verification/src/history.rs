//! Snapshots of launch prompts under `.context-bridge/history/`.

use vstd::prelude::*;

use crate::git::{missing_path_message, missing_path_text, texts};
use crate::order::{permuted, stable_order, stable_sorted, text_views};
use crate::projects::same_rank;
use crate::text::{
    lemma_decimal_digits, lemma_decimal_injective, occurs_at, text_lt, chars_of, contains_str, contains_text, decimal, decimal_chars, ends_with, ends_with_str,
    has_char, push_chars, push_str, same_chars, string_from_chars,
};

verus! {

/// A snapshot as listed by the history viewer.
pub struct PromptHistoryEntry {
    pub filename: String,
    pub path: String,
    pub size_bytes: u64,
    pub modified: String,
}

/// A regular file found in the history folder.
pub struct HistoryFile {
    pub filename: String,
    pub path: String,
    pub size_bytes: u64,
    /// Last modification, in seconds since the Unix epoch, where the file
    /// system reports it.
    pub modified_secs: Option<u64>,
}

/// What `chrono::DateTime::<Utc>::from_timestamp(secs, 0)` gives, formatted with
/// `%Y-%m-%d %H:%M:%S`.
pub uninterp spec fn utc_datetime_text(secs: int) -> Seq<char>;

/// Seconds that `chrono` turns into a date: from the first second of
/// January 1, 262144 BCE to the last of December 31, 262142 CE (the limits of
/// its `NaiveDate`).
pub open spec fn chrono_datable(secs: int) -> bool {
    -8_334_601_228_800 <= secs <= 8_210_266_876_799
}

/// `DateTime::<Utc>::from_timestamp(secs, 0)` formatted with `%Y-%m-%d %H:%M:%S`,
/// or `None` where chrono finds `secs` out of range. The contract names the text
/// and states exactly when it is there.
#[verifier::external_body]
fn format_utc_timestamp(secs: i64) -> (r: Option<String>)
    ensures
        r matches Some(t) ==> t@ == utc_datetime_text(secs as int),
        r is Some <==> chrono_datable(secs as int),
{
    match chrono::DateTime::from_timestamp(secs, 0) {
        Some(d) => Some(d.format("%Y-%m-%d %H:%M:%S").to_string()),
        None => None,
    }
}

/// The modification time shown for a snapshot: `unknown` where the file system
/// gave none, the UTC date and time of the seconds otherwise (taken as a signed
/// number), and the epoch's where chrono cannot date them.
pub open spec fn modified_shown(secs: Option<u64>, t: Seq<char>) -> bool {
    match secs {
        None => t == "unknown"@,
        Some(s) => if chrono_datable((s as i64) as int) {
            t == utc_datetime_text((s as i64) as int)
        } else {
            t == utc_datetime_text(0)
        },
    }
}

/// The modification time shown for a snapshot.
pub fn modified_text(secs: Option<u64>) -> (r: String)
    ensures
        modified_shown(secs, r@),
{
    match secs {
        None => "unknown".to_owned(),
        Some(s) => {
            let t = s as i64;
            match format_utc_timestamp(t) {
                Some(text) => text,
                None => match format_utc_timestamp(0) {
                    Some(text) => text,
                    None => "unknown".to_owned(),
                },
            }
        },
    }
}

/// A snapshot file is listed: its name ends with `.md`.
pub open spec fn is_markdown(f: HistoryFile) -> bool {
    ends_with(f.filename@, ".md"@)
}

/// `e` lists the snapshot `f`.
pub open spec fn lists_file(e: PromptHistoryEntry, f: HistoryFile) -> bool {
    &&& e.filename@ == f.filename@
    &&& e.path@ == f.path@
    &&& e.size_bytes == f.size_bytes
    &&& modified_shown(f.modified_secs, e.modified@)
}

/// The Markdown files of the history folder, newest name first (names
/// descending, equal names in the order given).
pub open spec fn history_order(files: Seq<HistoryFile>) -> Seq<HistoryFile> {
    let md = files.filter(|f: HistoryFile| is_markdown(f));
    permuted(
        md,
        stable_sorted(same_rank(md.len()), md.map_values(|f: HistoryFile| f.filename@), true),
    )
}

/// The history listing of the files found in the history folder.
pub fn history_listing(files: &Vec<HistoryFile>) -> (r: Vec<PromptHistoryEntry>)
    ensures
        r@.len() == history_order(files@).len(),
        forall|k: int| 0 <= k < r@.len() ==> lists_file(#[trigger] r@[k], history_order(files@)[k]),
{
    let ghost pred = |f: HistoryFile| is_markdown(f);
    let mut md: Vec<usize> = Vec::new();
    let mut names: Vec<Vec<char>> = Vec::new();
    let mut ranks: Vec<u8> = Vec::new();
    let mut i: usize = 0;
    while i < files.len()
        invariant
            i <= files.len(),
            pred == (|f: HistoryFile| is_markdown(f)),
            md@.len() == names@.len() == ranks@.len(),
            md@.map_values(|k: usize| files@[k as int]) == files@.take(i as int).filter(pred),
            forall|q: int| 0 <= q < md@.len() ==> #[trigger] md@[q] < i,
            forall|q: int| 0 <= q < md@.len() ==> #[trigger] names@[q]@ == files@[md@[q] as int].filename@,
            forall|q: int| 0 <= q < md@.len() ==> #[trigger] ranks@[q] == 0u8,
        decreases files.len() - i,
    {
        let ghost before = md@;
        assert(files@.take(i + 1).drop_last() =~= files@.take(i as int));
        assert(files@.take(i + 1).last() == files@[i as int]);
        reveal(Seq::filter);
        let name = chars_of(files[i].filename.as_str());
        if ends_with_str(&name, ".md") {
            md.push(i);
            names.push(name);
            ranks.push(0);
            assert(md@.map_values(|k: usize| files@[k as int]) =~= before.map_values(
                |k: usize| files@[k as int],
            ).push(files@[i as int]));
        }
        i = i + 1;
    }
    assert(files@.take(files.len() as int) =~= files@);
    let ghost mdf = files@.filter(pred);
    assert(ranks@ =~= same_rank(mdf.len()));
    assert(text_views(names@) =~= mdf.map_values(|f: HistoryFile| f.filename@));
    let order = stable_order(&ranks, &names, true);
    let ghost sorted = permuted(mdf, order@);
    let mut r: Vec<PromptHistoryEntry> = Vec::new();
    let mut k: usize = 0;
    while k < order.len()
        invariant
            k <= order.len() == md.len() == mdf.len(),
            forall|q: int| 0 <= q < order.len() ==> #[trigger] order@[q] < md.len(),
            forall|q: int| 0 <= q < md@.len() ==> #[trigger] md@[q] < files.len(),
            md@.map_values(|k: usize| files@[k as int]) == mdf,
            sorted == permuted(mdf, order@),
            r@.len() == k,
            forall|q: int| 0 <= q < k ==> lists_file(#[trigger] r@[q], sorted[q]),
        decreases order.len() - k,
    {
        let f = &files[md[order[k]]];
        assert(mdf[order@[k as int] as int] == files@[md@[order@[k as int] as int] as int]);
        assert(sorted[k as int] == *f);
        r.push(
            PromptHistoryEntry {
                filename: f.filename.clone(),
                path: f.path.clone(),
                size_bytes: f.size_bytes,
                modified: modified_text(f.modified_secs),
            },
        );
        k = k + 1;
    }
    r
}

/// Why a history file name is refused, if it is: empty, a path, or `..`
/// somewhere in it; or not a Markdown file.
pub open spec fn history_name_refusal(f: Seq<char>) -> Option<Seq<char>> {
    if f.len() == 0 || f.contains('/') || f.contains('\\') || contains_text(f, ".."@) {
        Some("Invalid filename."@)
    } else if !ends_with(f, ".md"@) {
        Some("Only .md files can be read."@)
    } else {
        None
    }
}

/// The prompt history of the project at `project_path`: the missing-path
/// message where the project does not exist, nothing where it has no history
/// folder, and otherwise the listing of `files`, the regular files found in
/// that folder.
pub fn list_prompt_history(
    project_path: &str,
    path_exists: bool,
    history_dir_exists: bool,
    files: &Vec<HistoryFile>,
) -> (r: Result<Vec<PromptHistoryEntry>, String>)
    ensures
        match r {
            Err(e) => !path_exists && e@ == missing_path_text(project_path@),
            Ok(v) => path_exists && (if history_dir_exists {
                &&& v@.len() == history_order(files@).len()
                &&& forall|k: int| 0 <= k < v@.len() ==> lists_file(#[trigger] v@[k], history_order(files@)[k])
            } else {
                v@.len() == 0
            }),
        },
{
    if !path_exists {
        return Err(missing_path_message(project_path));
    }
    if !history_dir_exists {
        return Ok(Vec::new());
    }
    Ok(history_listing(files))
}

/// Whether `filename` may name a file of the history folder; otherwise why not.
pub fn check_history_filename(filename: &str) -> (r: Result<(), String>)
    ensures
        match r {
            Ok(()) => history_name_refusal(filename@) is None,
            Err(e) => history_name_refusal(filename@) == Some(e@),
        },
{
    let f = chars_of(filename);
    if f.len() == 0 || has_char(&f, '/') || has_char(&f, '\\') || contains_str(&f, "..") {
        return Err("Invalid filename.".to_owned());
    }
    if !ends_with_str(&f, ".md") {
        return Err("Only .md files can be read.".to_owned());
    }
    Ok(())
}

/// The message for a history file that is not there.
pub fn history_file_missing_message(filename: &str) -> (r: String)
    ensures
        r@ == "History file not found: "@ + filename@,
{
    let mut m = chars_of("History file not found: ");
    push_str(&mut m, filename);
    string_from_chars(&m)
}

/// The name of a snapshot taken at `timestamp`; `counter` tells apart snapshots
/// taken within the same second, the first one having none.
pub open spec fn snapshot_name(timestamp: Seq<char>, counter: nat) -> Seq<char> {
    if counter == 1 {
        timestamp + "-launch-prompt.md"@
    } else {
        timestamp + "-"@ + decimal(counter) + "-launch-prompt.md"@
    }
}

/// The name of the `counter`-th snapshot taken at `timestamp`.
pub fn snapshot_file_name(timestamp: &str, counter: u32) -> (r: String)
    ensures
        r@ == snapshot_name(timestamp@, counter as nat),
{
    let mut out = chars_of(timestamp);
    if counter != 1 {
        push_str(&mut out, "-");
        push_chars(&mut out, &decimal_chars(counter as u64));
    }
    push_str(&mut out, "-launch-prompt.md");
    string_from_chars(&out)
}

/// Where `names` holds `name`, the position of one occurrence.
fn find_name(names: &Vec<String>, name: &Vec<char>) -> (r: Option<usize>)
    ensures
        match r {
            Some(i) => i < names@.len() && names@[i as int]@ == name@,
            None => !texts(names@).contains(name@),
        },
{
    let mut i: usize = 0;
    while i < names.len()
        invariant
            i <= names@.len(),
            forall|j: int| 0 <= j < i ==> names@[j]@ != name@,
        decreases names.len() - i,
    {
        if same_chars(&chars_of(names[i].as_str()), name) {
            return Some(i);
        }
        i = i + 1;
    }
    proof {
        if texts(names@).contains(name@) {
            let j = choose|j: int| 0 <= j < texts(names@).len() && texts(names@)[j] == name@;
            assert(names@[j]@ == name@);
        }
    }
    None
}

/// Distinct positions below `n` number at most `n`.
proof fn lemma_distinct_positions(idx: Seq<int>, n: int)
    requires
        0 <= n,
        idx.no_duplicates(),
        forall|j: int| 0 <= j < idx.len() ==> 0 <= #[trigger] idx[j] < n,
    ensures
        idx.len() <= n,
{
    idx.unique_seq_to_set();
    vstd::set_lib::lemma_int_range(0, n);
    assert(idx.to_set().subset_of(vstd::set_lib::set_int_range(0, n)));
    vstd::set_lib::lemma_len_subset(idx.to_set(), vstd::set_lib::set_int_range(0, n));
}

/// `k` is the first counter at `timestamp` whose snapshot name is not `taken`.
pub open spec fn first_free_counter(timestamp: Seq<char>, taken: Seq<Seq<char>>, k: nat) -> bool {
    &&& k >= 1
    &&& !taken.contains(snapshot_name(timestamp, k))
    &&& forall|j: nat| 1 <= j < k ==> taken.contains(#[trigger] snapshot_name(timestamp, j))
}

/// The name of a new snapshot taken at `timestamp`, in a history folder that
/// already holds `taken`: the first counter whose name is free.
pub fn free_snapshot_name(timestamp: &str, taken: &Vec<String>) -> (r: String)
    requires
        taken@.len() < u32::MAX,
    ensures
        exists|k: nat| first_free_counter(timestamp@, texts(taken@), k) && r@ == snapshot_name(timestamp@, k),
{
    let mut counter: u32 = 1;
    let mut name = snapshot_file_name(timestamp, 1);
    let ghost mut idx: Seq<int> = Seq::empty();
    loop
        invariant
            1 <= counter,
            counter == idx.len() + 1,
            taken@.len() < u32::MAX,
            name@ == snapshot_name(timestamp@, counter as nat),
            idx.no_duplicates(),
            forall|j: int|
                0 <= j < idx.len() ==> 0 <= #[trigger] idx[j] < taken@.len() && taken@[idx[j]]@
                    == snapshot_name(timestamp@, (j + 1) as nat),
            forall|j: nat| 1 <= j < counter ==> texts(taken@).contains(#[trigger] snapshot_name(timestamp@, j)),
        decreases taken@.len() + 1 - counter,
    {
        match find_name(taken, &chars_of(name.as_str())) {
            None => {
                assert(first_free_counter(timestamp@, texts(taken@), counter as nat));
                return name;
            },
            Some(i) => {
                proof {
                    assert forall|j: int| 0 <= j < idx.len() implies idx[j] != i as int by {
                        lemma_snapshot_names_distinct(timestamp@, (j + 1) as nat, counter as nat);
                    }
                    let idx2 = idx.push(i as int);
                    assert forall|a: int, b: int| 0 <= a < idx2.len() && 0 <= b < idx2.len() && a != b implies idx2[a] != idx2[b] by {
                        if a < idx.len() && b < idx.len() {
                            assert(idx[a] != idx[b]);
                        }
                    }
                    assert(idx2.no_duplicates());
                    lemma_distinct_positions(idx2, taken@.len() as int);
                    assert(texts(taken@)[i as int] == snapshot_name(timestamp@, counter as nat));
                    idx = idx2;
                }
                counter = counter + 1;
                name = snapshot_file_name(timestamp, counter);
            },
        }
    }
}

/// `base` is a leading part of `path`, component by component (what
/// `Path::starts_with` asks).
pub open spec fn components_within(base: Seq<Seq<u8>>, path: Seq<Seq<u8>>) -> bool {
    base.len() <= path.len() && path.take(base.len() as int) == base
}

/// The views of a list of byte strings.
pub open spec fn byte_views(v: Seq<Vec<u8>>) -> Seq<Seq<u8>> {
    v.map_values(|c: Vec<u8>| c@)
}

fn same_bytes(a: &Vec<u8>, b: &Vec<u8>) -> (r: bool)
    ensures
        r == (a@ == b@),
{
    if a.len() != b.len() {
        return false;
    }
    let mut i: usize = 0;
    while i < a.len()
        invariant
            a@.len() == b@.len(),
            i <= a@.len(),
            forall|j: int| 0 <= j < i ==> a@[j] == b@[j],
        decreases a.len() - i,
    {
        if a[i] != b[i] {
            return false;
        }
        i = i + 1;
    }
    assert(a@ =~= b@);
    true
}

/// Whether the resolved history file, given by the components of its path,
/// lies inside the resolved history folder; otherwise the refusal.
pub fn check_inside_history(history_dir: &Vec<Vec<u8>>, file: &Vec<Vec<u8>>) -> (r: Result<(), String>)
    ensures
        match r {
            Ok(()) => components_within(byte_views(history_dir@), byte_views(file@)),
            Err(e) => !components_within(byte_views(history_dir@), byte_views(file@))
                && e@ == "Access denied: file is outside the history directory."@,
        },
{
    let ghost base = byte_views(history_dir@);
    let ghost path = byte_views(file@);
    if history_dir.len() > file.len() {
        return Err("Access denied: file is outside the history directory.".to_owned());
    }
    let mut i: usize = 0;
    while i < history_dir.len()
        invariant
            history_dir@.len() <= file@.len(),
            i <= history_dir@.len(),
            base == byte_views(history_dir@),
            path == byte_views(file@),
            forall|j: int| 0 <= j < i ==> base[j] == path[j],
        decreases history_dir.len() - i,
    {
        if !same_bytes(&history_dir[i], &file[i]) {
            assert(path.take(base.len() as int)[i as int] != base[i as int]);
            return Err("Access denied: file is outside the history directory.".to_owned());
        }
        i = i + 1;
    }
    assert(path.take(base.len() as int) =~= base);
    Ok(())
}

/// Why the history file `filename` of the project at `project_path` cannot be
/// read, if it cannot: a bad name, a missing project, or a missing file.
pub open spec fn history_read_refusal(
    project_path: Seq<char>,
    filename: Seq<char>,
    path_exists: bool,
    file_exists: bool,
) -> Option<Seq<char>> {
    match history_name_refusal(filename) {
        Some(e) => Some(e),
        None => if !path_exists {
            Some(missing_path_text(project_path))
        } else if !file_exists {
            Some("History file not found: "@ + filename)
        } else {
            None
        },
    }
}

/// Whether the history file `filename` may be read, before its path is
/// resolved; otherwise the message saying why not.
pub fn check_history_read(project_path: &str, filename: &str, path_exists: bool, file_exists: bool) -> (r: Result<(), String>)
    ensures
        match r {
            Ok(()) => history_read_refusal(project_path@, filename@, path_exists, file_exists) is None,
            Err(e) => history_read_refusal(project_path@, filename@, path_exists, file_exists) == Some(e@),
        },
{
    check_history_filename(filename)?;
    if !path_exists {
        return Err(missing_path_message(project_path));
    }
    if !file_exists {
        return Err(history_file_missing_message(filename));
    }
    Ok(())
}

// ---------------------------------------------------------------------------
// Laws
// ---------------------------------------------------------------------------

/// The history viewer lists snapshots newest name first.
pub proof fn lemma_history_newest_first(files: Seq<HistoryFile>)
    requires
        files.len() <= usize::MAX,
    ensures
        forall|a: int, b: int|
            0 <= a < b < history_order(files).len() ==> !text_lt(
                #[trigger] history_order(files)[a].filename@,
                #[trigger] history_order(files)[b].filename@,
            ),
{
    let md = files.filter(|f: HistoryFile| is_markdown(f));
    files.lemma_filter_len(|f: HistoryFile| is_markdown(f));
    let ranks = same_rank(md.len());
    let names = md.map_values(|f: HistoryFile| f.filename@);
    let order = stable_sorted(ranks, names, true);
    crate::order::lemma_stable_order_exists(ranks, names, true);
    let out = history_order(files);
    assert forall|a: int, b: int| 0 <= a < b < out.len() implies !text_lt(
        #[trigger] out[a].filename@,
        #[trigger] out[b].filename@,
    ) by {
        let ia = order[a] as int;
        let ib = order[b] as int;
        assert(crate::order::pos_before(ranks, names, true, ia, ib));
        assert(out[a] == md[ia] && out[b] == md[ib]);
        if text_lt(names[ia], names[ib]) {
            crate::text::lemma_text_lt_asymmetric(names[ia], names[ib]);
            crate::text::lemma_text_lt_irreflexive(names[ia]);
        }
    }
}

/// What follows the time stamp in a snapshot name.
spec fn snapshot_suffix(counter: nat) -> Seq<char> {
    if counter == 1 {
        "-launch-prompt.md"@
    } else {
        "-"@ + decimal(counter) + "-launch-prompt.md"@
    }
}

proof fn lemma_snapshot_suffix(counter: nat)
    ensures
        snapshot_suffix(counter).len() >= 17,
        snapshot_suffix(counter)[0] == '-',
        !snapshot_suffix(counter).contains('/'),
        !snapshot_suffix(counter).contains('\\'),
        forall|i: int|
            0 <= i < snapshot_suffix(counter).len() && #[trigger] snapshot_suffix(counter)[i] == '.'
                ==> i == snapshot_suffix(counter).len() - 3,
        ends_with(snapshot_suffix(counter), ".md"@),
{
    reveal_strlit("-launch-prompt.md");
    reveal_strlit("-");
    reveal_strlit(".md");
    let lit = "-launch-prompt.md"@;
    assert(lit.len() == 17);
    let s = snapshot_suffix(counter);
    if counter != 1 {
        lemma_decimal_digits(counter);
        let d = decimal(counter);
        assert(s =~= seq!['-'] + d + lit);
        assert forall|i: int| 0 <= i < s.len() implies (#[trigger] s[i] != '/' && s[i] != '\\' && (
        s[i] == '.' ==> i == s.len() - 3)) by {
            if i == 0 {
            } else if i < 1 + d.len() {
                assert(s[i] == d[i - 1]);
            } else {
                assert(s[i] == lit[i - 1 - d.len()]);
            }
        }
        assert(s.skip(s.len() - 3) =~= ".md"@);
    } else {
        assert forall|i: int| 0 <= i < s.len() implies (#[trigger] s[i] != '/' && s[i] != '\\' && (
        s[i] == '.' ==> i == s.len() - 3)) by {}
        assert(s.skip(s.len() - 3) =~= ".md"@);
    }
}

/// A snapshot saved under a time stamp without separators or `..` can be opened
/// again by the history viewer.
pub proof fn lemma_snapshot_names_readable(timestamp: Seq<char>, counter: nat)
    requires
        !timestamp.contains('/'),
        !timestamp.contains('\\'),
        !contains_text(timestamp, ".."@),
    ensures
        history_name_refusal(snapshot_name(timestamp, counter)) is None,
{
    reveal_strlit("..");
    let rest = snapshot_suffix(counter);
    lemma_snapshot_suffix(counter);
    let name = snapshot_name(timestamp, counter);
    assert(name =~= timestamp + rest);
    let tl = timestamp.len() as int;
    assert(!name.contains('/')) by {
        if name.contains('/') {
            let i = choose|i: int| 0 <= i < name.len() && name[i] == '/';
            if i < tl {
                assert(timestamp[i] == '/');
            } else {
                assert(rest[i - tl] == '/');
            }
        }
    }
    assert(!name.contains('\\')) by {
        if name.contains('\\') {
            let i = choose|i: int| 0 <= i < name.len() && name[i] == '\\';
            if i < tl {
                assert(timestamp[i] == '\\');
            } else {
                assert(rest[i - tl] == '\\');
            }
        }
    }
    assert(!contains_text(name, ".."@)) by {
        if contains_text(name, ".."@) {
            let i = choose|i: int| #[trigger] occurs_at(name, ".."@, i);
            assert(name.subrange(i, i + 2) =~= ".."@);
            assert(name[i] == '.' && name[i + 1] == '.') by {
                assert(name.subrange(i, i + 2)[0] == name[i]);
                assert(name.subrange(i, i + 2)[1] == name[i + 1]);
            }
            if i + 1 < tl {
                assert(timestamp.subrange(i, i + 2) =~= name.subrange(i, i + 2));
                assert(occurs_at(timestamp, ".."@, i));
            } else if i + 1 == tl {
                assert(name[i + 1] == rest[0]);
            } else {
                assert(name[i] == rest[i - tl]);
                assert(name[i + 1] == rest[i + 1 - tl]);
            }
        }
    }
    reveal_strlit(".md");
    assert(name.skip(name.len() - 3) =~= rest.skip(rest.len() - 3));
    assert(ends_with(name, ".md"@));
    assert(name.len() > 0);
}

/// Snapshots taken in the same second under different counters get different names.
pub proof fn lemma_snapshot_names_distinct(timestamp: Seq<char>, c1: nat, c2: nat)
    requires
        c1 != c2,
    ensures
        snapshot_name(timestamp, c1) != snapshot_name(timestamp, c2),
{
    reveal_strlit("-launch-prompt.md");
    reveal_strlit("-");
    lemma_decimal_digits(c1);
    lemma_decimal_digits(c2);
    let n1 = snapshot_name(timestamp, c1);
    let n2 = snapshot_name(timestamp, c2);
    let tl = timestamp.len() as int;
    let lit = "-launch-prompt.md"@;
    assert(lit.len() == 17);
    assert("-"@ =~= seq!['-']);
    if c1 == 1 {
        assert(n1.len() == tl + 17);
    } else {
        assert(n1 =~= timestamp + seq!['-'] + decimal(c1) + lit);
    }
    if c2 == 1 {
        assert(n2.len() == tl + 17);
    } else {
        assert(n2 =~= timestamp + seq!['-'] + decimal(c2) + lit);
    }
    if c1 != 1 && c2 != 1 && n1 == n2 {
        let d1 = decimal(c1);
        let d2 = decimal(c2);
        assert(d1.len() == d2.len());
        assert(n1.subrange(tl + 1, tl + 1 + d1.len()) =~= d1);
        assert(n2.subrange(tl + 1, tl + 1 + d2.len()) =~= d2);
        lemma_decimal_injective(c1, c2);
    }
}

/// Saving a snapshot into a history folder that holds the files `folder`
/// (name to contents) under the first free name never overwrites one: the
/// folder afterwards holds every earlier file unchanged plus exactly one new
/// file, named like a snapshot and holding `content`.
pub proof fn lemma_snapshot_never_overwrites(
    timestamp: Seq<char>,
    folder: Map<Seq<char>, Seq<char>>,
    taken: Seq<Seq<char>>,
    k: nat,
    content: Seq<char>,
)
    requires
        folder.dom() == taken.to_set(),
        first_free_counter(timestamp, taken, k),
    ensures
        ({
            let name = snapshot_name(timestamp, k);
            let after = folder.insert(name, content);
            &&& !folder.dom().contains(name)
            &&& after.dom().len() == folder.dom().len() + 1
            &&& forall|f: Seq<char>| #[trigger] folder.dom().contains(f) ==> after.dom().contains(f) && after[f] == folder[f]
            &&& after.dom() == folder.dom().insert(name)
            &&& after[name] == content
            &&& ends_with(name, "-launch-prompt.md"@)
        }),
{
    let name = snapshot_name(timestamp, k);
    vstd::seq_lib::seq_to_set_is_finite(taken);
    assert(!folder.dom().contains(name));
    vstd::set::axiom_set_insert_len(folder.dom(), name);
    assert(folder.insert(name, content).dom() =~= folder.dom().insert(name));
    let suf = "-launch-prompt.md"@;
    let head = if k == 1 {
        timestamp
    } else {
        timestamp + "-"@ + decimal(k)
    };
    assert(name =~= head + suf);
    assert(name.skip(name.len() - suf.len()) =~= suf);
}

/// Two generations in a row leave two snapshots: the second one's name differs
/// from the first's and from every name there before.
pub proof fn lemma_two_generations_two_snapshots(
    t1: Seq<char>,
    t2: Seq<char>,
    taken: Seq<Seq<char>>,
    k1: nat,
    k2: nat,
)
    requires
        first_free_counter(t1, taken, k1),
        first_free_counter(t2, taken.push(snapshot_name(t1, k1)), k2),
    ensures
        snapshot_name(t2, k2) != snapshot_name(t1, k1),
        !taken.contains(snapshot_name(t1, k1)),
        !taken.contains(snapshot_name(t2, k2)),
{
    let n1 = snapshot_name(t1, k1);
    let n2 = snapshot_name(t2, k2);
    let after = taken.push(n1);
    assert(after[taken.len() as int] == n1);
    if taken.contains(n2) {
        let j = choose|j: int| 0 <= j < taken.len() && taken[j] == n2;
        assert(after[j] == n2);
    }
}

} // verus!
