//! Scanning directories: what counts, what is skipped, and what the results of a
//! scan come to.

use crate::docker::DockerInfo;
use crate::order::{
    heaviest_first, law_heaviest_first, law_order_keeps_all, ordered_from, sort_heaviest_first,
    Weighed,
};
use crate::path::{
    components, excluded, is_excluded, join_path, joined, path_components, path_within,
};
use crate::target::Category;
use crate::text::{opt_text, str_eq, texts};
use crate::time::Timestamp;
use vstd::prelude::*;

verus! {

/// What a directory entry is.
#[derive(Clone, Copy, Debug, PartialEq, Eq, Structural)]
pub enum EntryKind {
    File,
    Dir,
    Other,
}

/// What walking through a directory met.
#[derive(Debug)]
pub enum WalkEntry {
    /// An entry that could not be read.
    Unreadable,
    /// An entry. Its size is not known where its metadata could not be read, and
    /// its name only where it is text.
    Entry {
        path: String,
        name: Option<String>,
        kind: EntryKind,
        size: Option<u64>,
        accessed: Option<Timestamp>,
    },
}

/// What scanning a directory came to.
#[derive(Clone, Copy, Debug, PartialEq, Eq, Structural)]
pub struct ScanReport {
    pub bytes: u64,
    pub warnings: u64,
}

impl Default for ScanReport {
    fn default() -> (r: ScanReport)
        ensures
            r == (ScanReport { bytes: 0, warnings: 0 }),
    {
        ScanReport { bytes: 0, warnings: 0 }
    }
}

/// Whether a directory is scanned at all: it exists and is not excluded.
pub fn should_scan(path: &str, present: bool, excludes: &[String]) -> (r: bool)
    ensures
        r == (present && !excluded(path@, texts(excludes@))),
{
    present && !is_excluded(path, excludes)
}

/// The entry is a file that is not excluded.
pub open spec fn counts_as_file(entry: WalkEntry, excludes: Seq<Seq<char>>) -> bool {
    entry matches WalkEntry::Entry { path, kind, .. } && kind == EntryKind::File && !excluded(
        path@,
        excludes,
    )
}

/// The bytes that an entry counts with.
pub open spec fn entry_bytes(entry: WalkEntry, excludes: Seq<Seq<char>>) -> nat {
    match entry {
        WalkEntry::Entry { size: Some(bytes), .. } if counts_as_file(entry, excludes) => {
            bytes as nat
        },
        _ => 0,
    }
}

/// Whether an entry is worth a warning: it could not be read, or it is a file
/// whose metadata could not be.
pub open spec fn entry_warns(entry: WalkEntry, excludes: Seq<Seq<char>>) -> bool {
    match entry {
        WalkEntry::Unreadable => true,
        WalkEntry::Entry { size, .. } => counts_as_file(entry, excludes) && size is None,
    }
}

/// The bytes of the files that are not excluded.
pub open spec fn total_bytes(entries: Seq<WalkEntry>, excludes: Seq<Seq<char>>) -> nat
    decreases entries.len(),
{
    if entries.len() == 0 {
        0
    } else {
        total_bytes(entries.drop_last(), excludes) + entry_bytes(entries.last(), excludes)
    }
}

/// The number of entries that are worth a warning.
pub open spec fn total_warnings(entries: Seq<WalkEntry>, excludes: Seq<Seq<char>>) -> nat
    decreases entries.len(),
{
    if entries.len() == 0 {
        0
    } else {
        total_warnings(entries.drop_last(), excludes) + if entry_warns(entries.last(), excludes) {
            1nat
        } else {
            0nat
        }
    }
}

/// `n` as a counter of sixty-four bits shows it.
pub open spec fn wrapped(n: nat) -> u64 {
    (n % 0x1_0000_0000_0000_0000) as u64
}

/// Adds a batch of entries to the report of a directory. The counters wrap round,
/// as counters of sixty-four bits do.
pub fn scan_directory(report: &mut ScanReport, entries: &[WalkEntry], excludes: &[String])
    ensures
        final(report).bytes == wrapped(
            old(report).bytes as nat + total_bytes(entries@, texts(excludes@)),
        ),
        final(report).warnings == wrapped(
            old(report).warnings as nat + total_warnings(entries@, texts(excludes@)),
        ),
{
    let ghost all = entries@;
    let ghost ex = texts(excludes@);
    for i in 0..entries.len()
        invariant
            all == entries@,
            ex == texts(excludes@),
            report.bytes == wrapped(old(report).bytes as nat + total_bytes(all.take(i as int), ex)),
            report.warnings == wrapped(
                old(report).warnings as nat + total_warnings(all.take(i as int), ex),
            ),
    {
        assert(all.take(i + 1).drop_last() =~= all.take(i as int));
        assert(all.take(i + 1).last() == entries@[i as int]);
        match &entries[i] {
            WalkEntry::Unreadable => {
                report.warnings = report.warnings.wrapping_add(1);
            },
            WalkEntry::Entry { path, name, kind, size, accessed } => {
                if *kind == EntryKind::File && !is_excluded(path.as_str(), excludes) {
                    match size {
                        Some(bytes) => {
                            report.bytes = report.bytes.wrapping_add(*bytes);
                        },
                        None => {
                            report.warnings = report.warnings.wrapping_add(1);
                        },
                    }
                }
            },
        }
    }
    assert(all.take(entries@.len() as int) =~= all);
}

/// Scanning in batches is scanning at once.
pub proof fn law_scan_in_batches(
    a: Seq<WalkEntry>,
    b: Seq<WalkEntry>,
    excludes: Seq<Seq<char>>,
)
    ensures
        total_bytes(a + b, excludes) == total_bytes(a, excludes) + total_bytes(b, excludes),
        total_warnings(a + b, excludes) == total_warnings(a, excludes) + total_warnings(
            b,
            excludes,
        ),
    decreases b.len(),
{
    if b.len() == 0 {
        assert(a + b =~= a);
    } else {
        assert((a + b).drop_last() =~= a + b.drop_last());
        law_scan_in_batches(a, b.drop_last(), excludes);
    }
}

/// A batch in which every file is excluded and every entry could be read adds
/// nothing.
pub proof fn law_excluded_not_counted(entries: Seq<WalkEntry>, excludes: Seq<Seq<char>>)
    requires
        forall|i: int|
            0 <= i < entries.len() ==> (#[trigger] entries[i] matches WalkEntry::Entry { path, .. }
                && excluded(path@, excludes)),
    ensures
        total_bytes(entries, excludes) == 0,
        total_warnings(entries, excludes) == 0,
    decreases entries.len(),
{
    if entries.len() > 0 {
        assert(entries[entries.len() - 1] matches WalkEntry::Entry { path, .. } && excluded(
            path@,
            excludes,
        ));
        let rest = entries.drop_last();
        assert forall|i: int| 0 <= i < rest.len() implies (
        #[trigger] rest[i] matches WalkEntry::Entry { path, .. } && excluded(path@, excludes)) by {
            assert(entries[i] == rest[i]);
        }
        law_excluded_not_counted(rest, excludes);
    }
}

/// A kind of directory that is searched for in projects.
#[derive(Clone, Copy, Debug, PartialEq, Eq, Structural)]
pub enum SearchKind {
    NodeModules,
    DotVenv,
    PlainVenv,
    Pycache,
}

impl SearchKind {
    /// What a directory of this kind is called.
    pub open spec fn name_text(self) -> Seq<char> {
        match self {
            SearchKind::NodeModules => "node_modules"@,
            SearchKind::DotVenv => ".venv"@,
            SearchKind::PlainVenv => "venv"@,
            SearchKind::Pycache => "__pycache__"@,
        }
    }

    /// The files of which a directory of this kind has one; where there are none, a
    /// directory is known by its name alone.
    pub open spec fn marker_texts(self) -> Seq<Seq<char>> {
        match self {
            SearchKind::DotVenv | SearchKind::PlainVenv => seq!["pyvenv.cfg"@, "bin/python"@],
            SearchKind::NodeModules | SearchKind::Pycache => Seq::empty(),
        }
    }

    /// What a directory of this kind is called.
    pub fn target_name(self) -> (r: &'static str)
        ensures
            r@ == self.name_text(),
    {
        match self {
            SearchKind::NodeModules => "node_modules",
            SearchKind::DotVenv => ".venv",
            SearchKind::PlainVenv => "venv",
            SearchKind::Pycache => "__pycache__",
        }
    }

    /// How deep the search goes, if not all the way.
    pub fn max_depth(self) -> (r: Option<usize>)
        ensures
            r == match self {
                SearchKind::DotVenv | SearchKind::PlainVenv => Some(5usize),
                SearchKind::NodeModules | SearchKind::Pycache => None,
            },
    {
        match self {
            SearchKind::DotVenv | SearchKind::PlainVenv => Some(5),
            SearchKind::NodeModules | SearchKind::Pycache => None,
        }
    }

    /// The paths at which a directory at `path` is looked at to see whether it is of
    /// this kind.
    pub fn markers(self, path: &str) -> (r: Vec<String>)
        ensures
            texts(r@) == self.marker_texts().map_values(
                |marker: Seq<char>| joined(path@, marker),
            ),
    {
        let mut out: Vec<String> = Vec::new();
        let ghost wanted = self.marker_texts().map_values(
            |marker: Seq<char>| joined(path@, marker),
        );
        match self {
            SearchKind::DotVenv | SearchKind::PlainVenv => {
                out.push(join_path(path, "pyvenv.cfg"));
                out.push(join_path(path, "bin/python"));
            },
            SearchKind::NodeModules | SearchKind::Pycache => {},
        }
        assert(texts(out@) =~= wanted);
        out
    }
}

/// Whether a directory is of its kind, given which of its markers exist.
pub fn has_marker(present: &[bool]) -> (r: bool)
    ensures
        r == (present@.len() == 0 || present@.contains(true)),
{
    if present.len() == 0 {
        return true;
    }
    for i in 0..present.len()
        invariant
            forall|j: int| 0 <= j < i ==> !present@[j],
    {
        if present[i] {
            assert(present@[i as int] == true);
            return true;
        }
    }
    false
}

/// The directories of one kind that were found, with their sizes.
#[derive(Debug)]
pub struct DirectoryScan {
    pub entries: Vec<(String, u64)>,
    pub warnings: u64,
}

/// What a list of sized paths stands for.
pub open spec fn sized_paths(entries: Seq<(String, u64)>) -> Seq<(Seq<char>, nat)> {
    entries.map_values(|entry: (String, u64)| (entry.0@, entry.1 as nat))
}

impl Default for DirectoryScan {
    fn default() -> (r: DirectoryScan)
        ensures
            r.entries@.len() == 0,
            r.warnings == 0,
    {
        DirectoryScan { entries: Vec::new(), warnings: 0 }
    }
}

/// Some proper ancestor of `path` is called `name`.
pub open spec fn beneath_one_called(path: Seq<char>, name: Seq<char>) -> bool {
    exists|i: int| 0 <= i < components(path).len() - 1 && #[trigger] components(path)[i] == name
}

/// The directory that an entry is, if it is one that is searched for: it has the
/// name, is not excluded, and is no `node_modules` beneath another.
pub open spec fn candidate(
    entry: WalkEntry,
    target_name: Seq<char>,
    excludes: Seq<Seq<char>>,
) -> Option<Seq<char>> {
    match entry {
        WalkEntry::Entry { path, name: Some(name), kind: EntryKind::Dir, .. } if name@
            == target_name && !excluded(path@, excludes) && !(target_name == "node_modules"@
            && beneath_one_called(path@, "node_modules"@)) => Some(path@),
        _ => None,
    }
}

/// The directories among the entries that are searched for.
pub open spec fn candidates(
    entries: Seq<WalkEntry>,
    target_name: Seq<char>,
    excludes: Seq<Seq<char>>,
) -> Seq<Seq<char>> {
    entries.filter_map(|entry: WalkEntry| candidate(entry, target_name, excludes))
}

/// The number of entries that could not be read.
pub open spec fn unreadable(entries: Seq<WalkEntry>) -> nat
    decreases entries.len(),
{
    if entries.len() == 0 {
        0
    } else {
        unreadable(entries.drop_last()) + if entries.last() is Unreadable {
            1nat
        } else {
            0nat
        }
    }
}

/// Whether some proper ancestor of `path` is called `node_modules`.
fn is_nested(path: &str) -> (r: bool)
    ensures
        r == beneath_one_called(path@, "node_modules"@),
{
    let parts = path_components(path);
    let ghost all = components(path@);
    assert(texts(parts@).len() == parts@.len());
    if parts.len() == 0 {
        return false;
    }
    let above: usize = parts.len() - 1;
    let mut i: usize = 0;
    while i < above
        invariant
            i <= above,
            above + 1 == parts@.len(),
            all == components(path@),
            texts(parts@) == all,
            parts@.len() == all.len(),
            forall|j: int| 0 <= j < i ==> #[trigger] all[j] != "node_modules"@,
        decreases above - i,
    {
        assert(all[i as int] == parts@[i as int]@);
        if str_eq(parts[i].as_str(), "node_modules") {
            return true;
        }
        i += 1;
    }
    false
}

/// The directory that an entry is, if it is one that is searched for.
fn find_candidate(entry: &WalkEntry, target_name: &str, excludes: &[String]) -> (r: Option<String>)
    ensures
        opt_text(r) == candidate(*entry, target_name@, texts(excludes@)),
{
    match entry {
        WalkEntry::Unreadable => None,
        WalkEntry::Entry { path, name, kind, size, accessed } => {
            if *kind != EntryKind::Dir {
                return None;
            }
            match name {
                None => None,
                Some(name) => {
                    if is_excluded(path.as_str(), excludes) || !str_eq(
                        name.as_str(),
                        target_name,
                    ) {
                        return None;
                    }
                    if str_eq(target_name, "node_modules") && is_nested(path.as_str()) {
                        return None;
                    }
                    Some(path.clone())
                },
            }
        },
    }
}

/// The directories called `target_name` in a batch of entries, and a warning for
/// each entry that could not be read.
pub fn find_directories(
    scan: &mut DirectoryScan,
    entries: &[WalkEntry],
    target_name: &str,
    excludes: &[String],
) -> (r: Vec<String>)
    requires
        old(scan).warnings + unreadable(entries@) <= u64::MAX,
    ensures
        texts(r@) == candidates(entries@, target_name@, texts(excludes@)),
        final(scan).entries == old(scan).entries,
        final(scan).warnings == old(scan).warnings + unreadable(entries@),
{
    let mut out: Vec<String> = Vec::new();
    let ghost all = entries@;
    let ghost ex = texts(excludes@);
    let ghost read = |entry: WalkEntry| candidate(entry, target_name@, ex);
    assert(texts(out@) =~= all.take(0).filter_map(read));
    for i in 0..entries.len()
        invariant
            all == entries@,
            ex == texts(excludes@),
            read == (|entry: WalkEntry| candidate(entry, target_name@, ex)),
            texts(out@) == all.take(i as int).filter_map(read),
            scan.entries == old(scan).entries,
            scan.warnings == old(scan).warnings + unreadable(all.take(i as int)),
            old(scan).warnings + unreadable(all) <= u64::MAX,
    {
        let ghost before = out@;
        proof {
            assert(all.take(i + 1).drop_last() =~= all.take(i as int));
            assert(all.take(i + 1).last() == entries@[i as int]);
            lemma_unreadable_monotone(all, i + 1);
        }
        match &entries[i] {
            WalkEntry::Unreadable => {
                scan.warnings = scan.warnings + 1;
            },
            _ => {},
        }
        match find_candidate(&entries[i], target_name, excludes) {
            Some(path) => {
                out.push(path);
                assert(texts(out@) =~= texts(before).push(path@));
                assert(read(all[i as int]) == Some(path@));
            },
            None => {
                assert(read(all[i as int]) is None);
            },
        }
    }
    assert(all.take(entries@.len() as int) =~= all);
    out
}

proof fn lemma_unreadable_monotone(entries: Seq<WalkEntry>, n: int)
    requires
        0 <= n <= entries.len(),
    ensures
        unreadable(entries.take(n)) <= unreadable(entries),
    decreases entries.len(),
{
    if n == entries.len() {
        assert(entries.take(n) =~= entries);
    } else {
        let rest = entries.drop_last();
        assert(rest.take(n) =~= entries.take(n));
        lemma_unreadable_monotone(rest, n);
    }
}

/// Records what scanning a directory that was found came to. One that turned out
/// not to be of its kind is passed over, and so is an empty one.
pub fn record_directory(
    scan: &mut DirectoryScan,
    path: String,
    valid: bool,
    report: &ScanReport,
)
    requires
        valid ==> old(scan).warnings + report.warnings <= u64::MAX,
    ensures
        final(scan).warnings == old(scan).warnings + if valid {
            report.warnings as int
        } else {
            0
        },
        sized_paths(final(scan).entries@) == if valid && report.bytes > 0 {
            sized_paths(old(scan).entries@).push((path@, report.bytes as nat))
        } else {
            sized_paths(old(scan).entries@)
        },
{
    if !valid {
        return;
    }
    scan.warnings = scan.warnings + report.warnings;
    if report.bytes > 0 {
        let ghost before = scan.entries@;
        scan.entries.push((path, report.bytes));
        assert(sized_paths(scan.entries@) =~= sized_paths(before).push(
            (path@, report.bytes as nat),
        ));
    }
}

/// The directories in the home directory that projects are searched for in.
pub open spec fn project_dirs_of(home: Seq<char>) -> Seq<Seq<char>> {
    seq![
        joined(home, "Codes"@),
        joined(home, "Projects"@),
        joined(home, "Documents"@),
        joined(home, "Developer"@),
        joined(home, "workspace"@),
        joined(home, "repos"@),
        joined(home, "src"@),
    ]
}

/// The directories in the home directory that large files are searched for in.
pub open spec fn large_file_dirs_of(home: Seq<char>) -> Seq<Seq<char>> {
    seq![
        joined(home, "Downloads"@),
        joined(home, "Desktop"@),
        joined(home, "Documents"@),
        joined(home, "Movies"@),
    ]
}

/// The directories that projects are searched for in, whether they exist or not.
pub fn project_dir_candidates(home: &str) -> (r: Vec<String>)
    ensures
        texts(r@) == project_dirs_of(home@),
{
    let mut out: Vec<String> = Vec::new();
    out.push(join_path(home, "Codes"));
    out.push(join_path(home, "Projects"));
    out.push(join_path(home, "Documents"));
    out.push(join_path(home, "Developer"));
    out.push(join_path(home, "workspace"));
    out.push(join_path(home, "repos"));
    out.push(join_path(home, "src"));
    assert(texts(out@) =~= project_dirs_of(home@));
    out
}

/// The directories that large files are searched for in, whether they exist or
/// not.
pub fn large_file_dir_candidates(home: &str) -> (r: Vec<String>)
    ensures
        texts(r@) == large_file_dirs_of(home@),
{
    let mut out: Vec<String> = Vec::new();
    out.push(join_path(home, "Downloads"));
    out.push(join_path(home, "Desktop"));
    out.push(join_path(home, "Documents"));
    out.push(join_path(home, "Movies"));
    assert(texts(out@) =~= large_file_dirs_of(home@));
    out
}

/// The paths that exist and are not excluded, in order.
pub open spec fn usable_dirs(
    dirs: Seq<Seq<char>>,
    present: Seq<bool>,
    excludes: Seq<Seq<char>>,
) -> Seq<Seq<char>>
    decreases dirs.len(),
{
    if dirs.len() == 0 {
        Seq::empty()
    } else {
        let before = usable_dirs(dirs.drop_last(), present, excludes);
        if present[dirs.len() - 1] && !excluded(dirs.last(), excludes) {
            before.push(dirs.last())
        } else {
            before
        }
    }
}

/// Those of `dirs` that exist and are not excluded.
fn keep_usable(dirs: &[String], present: &[bool], excludes: &[String]) -> (r: Vec<String>)
    requires
        dirs@.len() == present@.len(),
    ensures
        texts(r@) == usable_dirs(texts(dirs@), present@, texts(excludes@)),
{
    let mut out: Vec<String> = Vec::new();
    let ghost all = texts(dirs@);
    let ghost ex = texts(excludes@);
    assert(texts(out@) =~= usable_dirs(all.take(0), present@, ex));
    for i in 0..dirs.len()
        invariant
            dirs@.len() == present@.len(),
            all == texts(dirs@),
            ex == texts(excludes@),
            texts(out@) == usable_dirs(all.take(i as int), present@, ex),
    {
        let ghost before = out@;
        assert(all.take(i + 1).drop_last() =~= all.take(i as int));
        assert(all.take(i + 1).last() == dirs@[i as int]@);
        if present[i] && !is_excluded(dirs[i].as_str(), excludes) {
            out.push(dirs[i].clone());
            assert(texts(out@) =~= texts(before).push(dirs@[i as int]@));
        }
    }
    assert(all.take(dirs@.len() as int) =~= all);
    out
}

/// The directories that projects are searched for in: of the candidates those that
/// exist.
pub fn get_project_search_dirs(home: &str, present: &[bool]) -> (r: Vec<String>)
    requires
        present@.len() == project_dirs_of(home@).len(),
    ensures
        texts(r@) == usable_dirs(project_dirs_of(home@), present@, Seq::empty()),
{
    let dirs = project_dir_candidates(home);
    let none: Vec<String> = Vec::new();
    assert(texts(none@) =~= Seq::empty());
    assert(texts(dirs@).len() == dirs@.len());
    keep_usable(dirs.as_slice(), present, none.as_slice())
}

/// The directories that large files are searched for in: of the candidates those
/// that exist and are not excluded.
pub fn large_file_search_dirs(home: &str, present: &[bool], excludes: &[String]) -> (r: Vec<
    String,
>)
    requires
        present@.len() == large_file_dirs_of(home@).len(),
    ensures
        texts(r@) == usable_dirs(large_file_dirs_of(home@), present@, texts(excludes@)),
{
    let dirs = large_file_dir_candidates(home);
    assert(texts(dirs@).len() == dirs@.len());
    keep_usable(dirs.as_slice(), present, excludes)
}

/// A large file.
#[derive(Debug)]
pub struct LargeFile {
    pub path: String,
    pub size: u64,
    pub accessed: Option<Timestamp>,
}

/// What a large file stands for.
pub struct LargeFileView {
    pub path: Seq<char>,
    pub size: u64,
    pub accessed: Option<Timestamp>,
}

impl View for LargeFile {
    type V = LargeFileView;

    open spec fn view(&self) -> LargeFileView {
        LargeFileView { path: self.path@, size: self.size, accessed: self.accessed }
    }
}

/// What a list of large files stands for.
pub open spec fn large_views(files: Seq<LargeFile>) -> Seq<LargeFileView> {
    files.map_values(|file: LargeFile| file@)
}

impl Weighed for LargeFile {
    open spec fn weight(&self) -> u64 {
        self.size
    }

    fn get_weight(&self) -> (r: u64) {
        self.size
    }
}

/// The large files that were found.
#[derive(Debug)]
pub struct LargeFileScan {
    pub files: Vec<LargeFile>,
    pub warnings: u64,
}

impl Default for LargeFileScan {
    fn default() -> (r: LargeFileScan)
        ensures
            r.files@.len() == 0,
            r.warnings == 0,
    {
        LargeFileScan { files: Vec::new(), warnings: 0 }
    }
}

/// The large file that an entry is, if it is one: a file of at least `min_size`
/// bytes that is not excluded.
pub open spec fn large_file(
    entry: WalkEntry,
    min_size: u64,
    excludes: Seq<Seq<char>>,
) -> Option<LargeFileView> {
    match entry {
        WalkEntry::Entry { path, size: Some(size), accessed, .. } if counts_as_file(
            entry,
            excludes,
        ) && size >= min_size => Some(LargeFileView { path: path@, size, accessed }),
        _ => None,
    }
}

/// The large files among the entries.
pub open spec fn large_files(
    entries: Seq<WalkEntry>,
    min_size: u64,
    excludes: Seq<Seq<char>>,
) -> Seq<LargeFileView> {
    entries.filter_map(|entry: WalkEntry| large_file(entry, min_size, excludes))
}

proof fn lemma_warnings_monotone(entries: Seq<WalkEntry>, excludes: Seq<Seq<char>>, n: int)
    requires
        0 <= n <= entries.len(),
    ensures
        total_warnings(entries.take(n), excludes) <= total_warnings(entries, excludes),
    decreases entries.len(),
{
    if n == entries.len() {
        assert(entries.take(n) =~= entries);
    } else {
        let rest = entries.drop_last();
        assert(rest.take(n) =~= entries.take(n));
        lemma_warnings_monotone(rest, excludes, n);
    }
}

/// Adds the large files of a batch of entries, and a warning for each entry that
/// could not be read.
pub fn find_large_files(
    scan: &mut LargeFileScan,
    entries: &[WalkEntry],
    min_size: u64,
    excludes: &[String],
)
    requires
        old(scan).warnings + total_warnings(entries@, texts(excludes@)) <= u64::MAX,
    ensures
        large_views(final(scan).files@) == large_views(old(scan).files@) + large_files(
            entries@,
            min_size,
            texts(excludes@),
        ),
        final(scan).warnings == old(scan).warnings + total_warnings(entries@, texts(excludes@)),
{
    let ghost all = entries@;
    let ghost ex = texts(excludes@);
    let ghost had = large_views(scan.files@);
    let ghost read = |entry: WalkEntry| large_file(entry, min_size, ex);
    assert(large_views(scan.files@) =~= had + all.take(0).filter_map(read));
    for i in 0..entries.len()
        invariant
            all == entries@,
            ex == texts(excludes@),
            read == (|entry: WalkEntry| large_file(entry, min_size, ex)),
            large_views(scan.files@) == had + all.take(i as int).filter_map(read),
            scan.warnings == old(scan).warnings + total_warnings(all.take(i as int), ex),
            old(scan).warnings + total_warnings(all, ex) <= u64::MAX,
    {
        let ghost before = scan.files@;
        proof {
            assert(all.take(i + 1).drop_last() =~= all.take(i as int));
            assert(all.take(i + 1).last() == entries@[i as int]);
            lemma_warnings_monotone(all, ex, i + 1);
        }
        match &entries[i] {
            WalkEntry::Unreadable => {
                scan.warnings = scan.warnings + 1;
                assert(read(all[i as int]) is None);
            },
            WalkEntry::Entry { path, name, kind, size, accessed } => {
                if *kind == EntryKind::File && !is_excluded(path.as_str(), excludes) {
                    match size {
                        Some(bytes) => {
                            if *bytes >= min_size {
                                let file = LargeFile {
                                    path: path.clone(),
                                    size: *bytes,
                                    accessed: *accessed,
                                };
                                scan.files.push(file);
                                assert(large_views(scan.files@) =~= large_views(before).push(
                                    file@,
                                ));
                                assert(read(all[i as int]) == Some(file@));
                                assert(large_views(before).push(file@) =~= had + all.take(
                                    i as int,
                                ).filter_map(read).push(file@));
                            } else {
                                assert(read(all[i as int]) is None);
                            }
                        },
                        None => {
                            scan.warnings = scan.warnings + 1;
                            assert(read(all[i as int]) is None);
                        },
                    }
                } else {
                    assert(read(all[i as int]) is None);
                }
            },
        }
    }
    assert(all.take(entries@.len() as int) =~= all);
}

/// How many large files are shown.
pub const LARGE_FILES_SHOWN: usize = 20;

/// `s` up to its element number `n`, or all of it if it is shorter.
pub open spec fn at_most<T>(s: Seq<T>, n: int) -> Seq<T> {
    if n < s.len() {
        s.take(n)
    } else {
        s
    }
}

/// `after` holds the largest of the files `before`, as many as are shown, the
/// largest first and those of one size in the order in which they were found.
pub open spec fn largest_of(before: Seq<LargeFile>, after: Seq<LargeFile>) -> bool {
    exists|sorted: Seq<LargeFile>| #[trigger]
        ordered_from(before, sorted) && sorted.len() == before.len() && after == at_most(
            sorted,
            LARGE_FILES_SHOWN as int,
        )
}

/// Leaves the largest files, the largest first.
pub fn finish_large_files(scan: LargeFileScan) -> (r: LargeFileScan)
    ensures
        largest_of(scan.files@, r.files@),
        r.warnings == scan.warnings,
{
    let mut files = sort_heaviest_first(scan.files);
    let ghost sorted = files@;
    if files.len() > LARGE_FILES_SHOWN {
        files.truncate(LARGE_FILES_SHOWN);
    }
    assert(files@ =~= at_most(sorted, LARGE_FILES_SHOWN as int));
    LargeFileScan { files, warnings: scan.warnings }
}

impl Weighed for (Category, u64) {
    open spec fn weight(&self) -> u64 {
        self.1
    }

    fn get_weight(&self) -> (r: u64) {
        self.1
    }
}

/// Everything that a scan found.
#[derive(Debug)]
pub struct ScanResults {
    pub category_sizes: Vec<(Category, u64)>,
    pub node_modules: Vec<(String, u64)>,
    pub node_modules_total: u64,
    pub venvs: Vec<(String, u64)>,
    pub venvs_total: u64,
    pub pycaches: Vec<(String, u64)>,
    pub pycache_total: u64,
    pub large_files: Vec<LargeFile>,
    pub docker: DockerInfo,
    pub warnings: u64,
}

/// The first `n` categories with their sizes, without the empty ones.
pub open spec fn sized_categories(
    categories: Seq<Category>,
    reports: Seq<ScanReport>,
    n: nat,
) -> Seq<(Category, u64)>
    decreases n,
{
    if n == 0 {
        Seq::empty()
    } else {
        let before = sized_categories(categories, reports, (n - 1) as nat);
        let bytes = reports[n - 1].bytes;
        if bytes > 0 {
            before.push((categories[n - 1], bytes))
        } else {
            before
        }
    }
}

/// The warnings of the first `n` reports.
pub open spec fn warnings_of(reports: Seq<ScanReport>, n: nat) -> nat
    decreases n,
{
    if n == 0 {
        0
    } else {
        warnings_of(reports, (n - 1) as nat) + reports[n - 1].warnings as nat
    }
}

/// The sizes of the paths added up.
pub open spec fn sum_of_sizes(entries: Seq<(String, u64)>) -> nat
    decreases entries.len(),
{
    if entries.len() == 0 {
        0
    } else {
        sum_of_sizes(entries.drop_last()) + entries.last().1 as nat
    }
}

/// The size in bytes from which on a file is large.
pub fn min_large_file_size(megabytes: u64) -> (r: u64)
    requires
        megabytes * 1024 * 1024 <= u64::MAX,
    ensures
        r == megabytes * 1024 * 1024,
{
    megabytes * 1024 * 1024
}

proof fn lemma_sum_monotone(entries: Seq<(String, u64)>, n: int)
    requires
        0 <= n <= entries.len(),
    ensures
        sum_of_sizes(entries.take(n)) <= sum_of_sizes(entries),
    decreases entries.len(),
{
    if n == entries.len() {
        assert(entries.take(n) =~= entries);
    } else {
        let rest = entries.drop_last();
        assert(rest.take(n) =~= entries.take(n));
        lemma_sum_monotone(rest, n);
    }
}

/// The sizes of the paths added up.
fn total_size(entries: &[(String, u64)]) -> (r: u64)
    requires
        sum_of_sizes(entries@) <= u64::MAX,
    ensures
        r == sum_of_sizes(entries@),
{
    let ghost all = entries@;
    let mut sum: u64 = 0;
    for i in 0..entries.len()
        invariant
            all == entries@,
            sum == sum_of_sizes(all.take(i as int)),
            sum_of_sizes(all) <= u64::MAX,
    {
        proof {
            assert(all.take(i + 1).drop_last() =~= all.take(i as int));
            lemma_sum_monotone(all, i + 1);
        }
        sum = sum + entries[i].1;
    }
    assert(all.take(entries@.len() as int) =~= all);
    sum
}

proof fn lemma_warnings_of_monotone(reports: Seq<ScanReport>, a: nat, b: nat)
    requires
        a <= b,
    ensures
        warnings_of(reports, a) <= warnings_of(reports, b),
    decreases b,
{
    if a < b {
        lemma_warnings_of_monotone(reports, a, (b - 1) as nat);
    }
}

/// Puts together what a scan found: the categories that hold anything, the largest
/// first; the directories of each kind with what they add up to, both kinds of
/// virtual environments together; the large files; and all warnings.
pub fn collect_scan_results(
    categories: Vec<Category>,
    reports: &[ScanReport],
    node_modules: DirectoryScan,
    dot_venvs: DirectoryScan,
    plain_venvs: DirectoryScan,
    pycaches: DirectoryScan,
    large_files: LargeFileScan,
    docker: DockerInfo,
) -> (r: ScanResults)
    requires
        categories@.len() == reports@.len(),
        sum_of_sizes(node_modules.entries@) <= u64::MAX,
        sum_of_sizes(dot_venvs.entries@ + plain_venvs.entries@) <= u64::MAX,
        sum_of_sizes(pycaches.entries@) <= u64::MAX,
        warnings_of(reports@, reports@.len()) + node_modules.warnings + dot_venvs.warnings
            + plain_venvs.warnings + pycaches.warnings + large_files.warnings <= u64::MAX,
    ensures
        ordered_from(
            sized_categories(categories@, reports@, reports@.len()),
            r.category_sizes@,
        ),
        r.category_sizes@.len() == sized_categories(categories@, reports@, reports@.len()).len(),
        r.node_modules == node_modules.entries,
        r.node_modules_total == sum_of_sizes(node_modules.entries@),
        r.venvs@ == dot_venvs.entries@ + plain_venvs.entries@,
        r.venvs_total == sum_of_sizes(dot_venvs.entries@ + plain_venvs.entries@),
        r.pycaches == pycaches.entries,
        r.pycache_total == sum_of_sizes(pycaches.entries@),
        r.large_files == large_files.files,
        r.docker == docker,
        r.warnings == warnings_of(reports@, reports@.len()) + node_modules.warnings
            + dot_venvs.warnings + plain_venvs.warnings + pycaches.warnings
            + large_files.warnings,
{
    let mut sized: Vec<(Category, u64)> = Vec::new();
    let mut warnings: u64 = 0;
    let ghost all = categories@;
    let mut i: usize = 0;
    for category in it: categories
        invariant
            it.seq() == all,
            i == it.index(),
            all.len() == reports@.len(),
            sized@ == sized_categories(all, reports@, i as nat),
            warnings == warnings_of(reports@, i as nat),
            warnings_of(reports@, reports@.len()) <= u64::MAX,
    {
        proof {
            lemma_warnings_of_monotone(reports@, (i + 1) as nat, reports@.len());
        }
        assert(category == all[i as int]);
        let report = reports[i];
        warnings = warnings + report.warnings;
        if report.bytes > 0 {
            sized.push((category, report.bytes));
        }
        i += 1;
    }
    let category_sizes = sort_heaviest_first(sized);
    warnings = warnings + node_modules.warnings;
    let node_modules_total = total_size(node_modules.entries.as_slice());
    warnings = warnings + (dot_venvs.warnings + plain_venvs.warnings);
    let mut venvs = dot_venvs.entries;
    let mut more = plain_venvs.entries;
    venvs.append(&mut more);
    let venvs_total = total_size(venvs.as_slice());
    warnings = warnings + pycaches.warnings;
    let pycache_total = total_size(pycaches.entries.as_slice());
    warnings = warnings + large_files.warnings;
    ScanResults {
        category_sizes,
        node_modules: node_modules.entries,
        node_modules_total,
        venvs,
        venvs_total,
        pycaches: pycaches.entries,
        pycache_total,
        large_files: large_files.files,
        docker,
        warnings,
    }
}

proof fn lemma_sized_category(
    categories: Seq<Category>,
    reports: Seq<ScanReport>,
    n: nat,
    sized: (Category, u64),
)
    requires
        sized_categories(categories, reports, n).contains(sized),
    ensures
        exists|k: int|
            0 <= k < n && sized == ((#[trigger] categories[k]), reports[k].bytes)
                && reports[k].bytes > 0,
    decreases n,
{
    if n > 0 {
        let before = sized_categories(categories, reports, (n - 1) as nat);
        let all = sized_categories(categories, reports, n);
        let i = choose|i: int| 0 <= i < all.len() && all[i] == sized;
        if i < before.len() {
            assert(before[i] == sized);
            lemma_sized_category(categories, reports, (n - 1) as nat, sized);
        } else {
            assert(sized == (categories[n - 1], reports[n - 1].bytes));
        }
    }
}

/// The categories of the results are those that were scanned, each with the size
/// that its scan came to, and none of them is empty.
pub proof fn law_results_hold_scanned_categories(
    categories: Seq<Category>,
    reports: Seq<ScanReport>,
    after: Seq<(Category, u64)>,
    i: int,
)
    requires
        categories.len() == reports.len(),
        ordered_from(sized_categories(categories, reports, reports.len()), after),
        0 <= i < after.len(),
    ensures
        after[i].1 > 0,
        exists|k: int|
            0 <= k < categories.len() && after[i] == ((#[trigger] categories[k]), reports[k].bytes),
{
    broadcast use vstd::seq_lib::group_to_multiset_ensures;

    let before = sized_categories(categories, reports, reports.len());
    law_order_keeps_all(before, after);
    assert(after.contains(after[i]));
    assert(after.to_multiset().count(after[i]) > 0);
    assert(before.contains(after[i]));
    lemma_sized_category(categories, reports, reports.len(), after[i]);
}

/// The large files that are shown are of those that were found, and no file that
/// is left out is larger than one that is shown.
pub proof fn law_largest_are_shown(before: Seq<LargeFile>, after: Seq<LargeFile>)
    requires
        largest_of(before, after),
    ensures
        after.len() == if before.len() < LARGE_FILES_SHOWN {
            before.len() as int
        } else {
            LARGE_FILES_SHOWN as int
        },
        heaviest_first(after),
        forall|i: int| 0 <= i < after.len() ==> before.contains(#[trigger] after[i]),
        forall|k: int, i: int|
            0 <= k < before.len() && 0 <= i < after.len() && !after.contains(before[k]) ==> (
            #[trigger] before[k]).size <= (#[trigger] after[i]).size,
{
    broadcast use vstd::seq_lib::group_to_multiset_ensures;

    let sorted = choose|sorted: Seq<LargeFile>| #[trigger]
        ordered_from(before, sorted) && sorted.len() == before.len() && after == at_most(
            sorted,
            LARGE_FILES_SHOWN as int,
        );
    law_order_keeps_all(before, sorted);
    assert(heaviest_first(after)) by {
        assert forall|i: int, j: int| 0 <= i <= j < after.len() implies (
        #[trigger] after[i]).weight() >= (#[trigger] after[j]).weight() by {
            assert(sorted[i].weight() >= sorted[j].weight());
        }
    }
    assert forall|i: int| 0 <= i < after.len() implies before.contains(#[trigger] after[i]) by {
        assert(sorted.contains(sorted[i]));
        assert(sorted.to_multiset().count(sorted[i]) > 0);
    }
    assert forall|k: int, i: int|
        0 <= k < before.len() && 0 <= i < after.len() && !after.contains(before[k]) implies (
    #[trigger] before[k]).size <= (#[trigger] after[i]).size by {
        assert(before.contains(before[k]));
        assert(before.to_multiset().count(before[k]) > 0);
        assert(sorted.contains(before[k]));
        let j = choose|j: int| 0 <= j < sorted.len() && sorted[j] == before[k];
        if j < after.len() {
            assert(after[j] == before[k]);
        }
        assert(sorted[i].weight() >= sorted[j].weight());
    }
}

/// What a partial map gives of two lists, one behind the other.
pub proof fn lemma_filter_map_add<A, B>(a: Seq<A>, b: Seq<A>, f: spec_fn(A) -> Option<B>)
    ensures
        (a + b).filter_map(f) == a.filter_map(f) + b.filter_map(f),
    decreases b.len(),
{
    if b.len() == 0 {
        assert(a + b =~= a);
        assert(b.filter_map(f) =~= Seq::empty());
        assert(a.filter_map(f) + b.filter_map(f) =~= a.filter_map(f));
    } else {
        let front = b.drop_last();
        lemma_filter_map_add(a, front, f);
        assert((a + b).drop_last() =~= a + front);
        assert((a + b).last() == b.last());
        assert((a + b).filter_map(f) =~= a.filter_map(f) + b.filter_map(f));
    }
}

/// Searching for directories in batches is searching at once: nothing is found twice
/// or lost, and each entry that could not be read counts once.
pub proof fn law_find_directories_in_batches(
    a: Seq<WalkEntry>,
    b: Seq<WalkEntry>,
    target_name: Seq<char>,
    excludes: Seq<Seq<char>>,
)
    ensures
        candidates(a + b, target_name, excludes) == candidates(a, target_name, excludes)
            + candidates(b, target_name, excludes),
        unreadable(a + b) == unreadable(a) + unreadable(b),
    decreases b.len(),
{
    let read = |entry: WalkEntry| candidate(entry, target_name, excludes);
    lemma_filter_map_add(a, b, read);
    if b.len() == 0 {
        assert(a + b =~= a);
    } else {
        assert((a + b).drop_last() =~= a + b.drop_last());
        law_find_directories_in_batches(a, b.drop_last(), target_name, excludes);
        assert(candidates(a + b, target_name, excludes) == (a + b).filter_map(read));
    }
}

/// Searching for large files in batches is searching at once; of the warnings
/// `law_scan_in_batches` says the same.
pub proof fn law_find_large_files_in_batches(
    a: Seq<WalkEntry>,
    b: Seq<WalkEntry>,
    min_size: u64,
    excludes: Seq<Seq<char>>,
)
    ensures
        large_files(a + b, min_size, excludes) == large_files(a, min_size, excludes)
            + large_files(b, min_size, excludes),
        total_warnings(a + b, excludes) == total_warnings(a, excludes) + total_warnings(
            b,
            excludes,
        ),
{
    lemma_filter_map_add(a, b, |entry: WalkEntry| large_file(entry, min_size, excludes));
    law_scan_in_batches(a, b, excludes);
}

/// What a partial map gives of a list is what it gives of some element.
pub proof fn lemma_filter_map_from<A, B>(s: Seq<A>, f: spec_fn(A) -> Option<B>, x: B)
    ensures
        s.filter_map(f).contains(x) <==> exists|j: int|
            0 <= j < s.len() && f(#[trigger] s[j]) == Some(x),
    decreases s.len(),
{
    let all = s.filter_map(f);
    if s.len() > 0 {
        let front = s.drop_last();
        let before = front.filter_map(f);
        lemma_filter_map_from(front, f, x);
        if all.contains(x) {
            let i = choose|i: int| 0 <= i < all.len() && all[i] == x;
            if i < before.len() {
                assert(before[i] == x);
                let j = choose|j: int| 0 <= j < front.len() && f(#[trigger] front[j]) == Some(x);
                assert(f(s[j]) == Some(x));
            } else {
                assert(f(s[s.len() - 1]) == Some(x));
            }
        }
        if exists|j: int| 0 <= j < s.len() && f(#[trigger] s[j]) == Some(x) {
            let j = choose|j: int| 0 <= j < s.len() && f(#[trigger] s[j]) == Some(x);
            if j < front.len() {
                assert(f(front[j]) == Some(x));
                let i = choose|i: int| 0 <= i < before.len() && before[i] == x;
                assert(all[i] == x);
            } else {
                assert(all[all.len() - 1] == x);
            }
        }
    }
}

/// What one entry counts with: a file that is not excluded its size, and anything else
/// nothing. What could not be read is a warning, and so is a file that is not excluded
/// and whose size is not known.
pub proof fn law_scan_counts_files(entry: WalkEntry, excludes: Seq<Seq<char>>)
    ensures
        total_bytes(seq![entry], excludes) == match entry {
            WalkEntry::Entry { path, kind: EntryKind::File, size: Some(bytes), .. } => if exists|
                i: int,
            |
                0 <= i < excludes.len() && path_within(path@, #[trigger] excludes[i]) {
                0
            } else {
                bytes as nat
            },
            _ => 0,
        },
        total_warnings(seq![entry], excludes) == match entry {
            WalkEntry::Unreadable => 1nat,
            WalkEntry::Entry { path, kind: EntryKind::File, size: None, .. } => if exists|
                i: int,
            |
                0 <= i < excludes.len() && path_within(path@, #[trigger] excludes[i]) {
                0
            } else {
                1
            },
            _ => 0,
        },
{
    let rest = seq![entry].drop_last();
    assert(rest.len() == 0);
    assert(total_bytes(rest, excludes) == 0 && total_warnings(rest, excludes) == 0);
}

/// A directory is found if and only if it was met, has the name that is searched for and
/// is not excluded; where that name is `node_modules`, no directory above it may have it
/// too.
pub proof fn law_directory_found(
    entries: Seq<WalkEntry>,
    target_name: Seq<char>,
    excludes: Seq<Seq<char>>,
    found: Seq<char>,
)
    ensures
        candidates(entries, target_name, excludes).contains(found) <==> {
            &&& exists|j: int|
                0 <= j < entries.len() && (#[trigger] entries[j] matches WalkEntry::Entry {
                path,
                name: Some(name),
                kind: EntryKind::Dir,
                ..
            } && path@ == found && name@ == target_name)
            &&& forall|i: int|
                0 <= i < excludes.len() ==> !path_within(found, #[trigger] excludes[i])
            &&& target_name == "node_modules"@ ==> forall|k: int|
                0 <= k < components(found).len() - 1 ==> #[trigger] components(found)[k]
                    != "node_modules"@
        },
{
    let read = |entry: WalkEntry| candidate(entry, target_name, excludes);
    lemma_filter_map_from(entries, read, found);
    assert(candidates(entries, target_name, excludes) == entries.filter_map(read));
    if candidates(entries, target_name, excludes).contains(found) {
        let j = choose|j: int| 0 <= j < entries.len() && read(#[trigger] entries[j]) == Some(found);
        assert(candidate(entries[j], target_name, excludes) == Some(found));
    }
    if exists|j: int| 0 <= j < entries.len() && (#[trigger] entries[j] matches WalkEntry::Entry {
        path,
        name: Some(name),
        kind: EntryKind::Dir,
        ..
    } && path@ == found && name@ == target_name) {
        let j = choose|j: int|
            0 <= j < entries.len() && (#[trigger] entries[j] matches WalkEntry::Entry {
            path,
            name: Some(name),
            kind: EntryKind::Dir,
            ..
        } && path@ == found && name@ == target_name);
        assert(read(entries[j]) == candidate(entries[j], target_name, excludes));
    }
}

/// No `node_modules` directory that is found lies beneath another directory of that name,
/// at whatever depth.
pub proof fn law_no_nested_node_modules(
    entries: Seq<WalkEntry>,
    excludes: Seq<Seq<char>>,
    found: Seq<char>,
    above: Seq<char>,
)
    requires
        candidates(entries, "node_modules"@, excludes).contains(found),
        path_within(found, above),
        0 < components(above).len() < components(found).len(),
    ensures
        components(above).last() != "node_modules"@,
{
    law_directory_found(entries, "node_modules"@, excludes, found);
    let k = components(above).len() - 1;
    assert(components(above).take(components(above).len() as int) =~= components(above));
    assert(components(found)[k] == components(above)[k]);
}

/// Of two `node_modules` directories that are found neither lies within the other, unless
/// they are the same: no file is counted for both. What an entry is called is taken to be
/// the last component of its path.
pub proof fn law_found_node_modules_apart(
    entries: Seq<WalkEntry>,
    excludes: Seq<Seq<char>>,
    a: Seq<char>,
    b: Seq<char>,
)
    requires
        candidates(entries, "node_modules"@, excludes).contains(a),
        candidates(entries, "node_modules"@, excludes).contains(b),
        components(b).len() > 0,
        components(b).last() == "node_modules"@,
    ensures
        path_within(a, b) ==> components(a) == components(b),
{
    if path_within(a, b) {
        if components(b).len() < components(a).len() {
            law_no_nested_node_modules(entries, excludes, a, b);
        }
        assert(components(a) =~= components(b));
    }
}

/// A large file is found if and only if it was met with this size and this last access, is
/// not excluded and is at least as large as is asked for.
pub proof fn law_large_file_found(
    entries: Seq<WalkEntry>,
    min_size: u64,
    excludes: Seq<Seq<char>>,
    file: LargeFileView,
)
    ensures
        large_files(entries, min_size, excludes).contains(file) <==> {
            &&& exists|j: int|
                0 <= j < entries.len() && (#[trigger] entries[j] matches WalkEntry::Entry {
                path,
                kind: EntryKind::File,
                size: Some(size),
                accessed,
                ..
            } && path@ == file.path && size == file.size && accessed == file.accessed)
            &&& file.size >= min_size
            &&& forall|i: int|
                0 <= i < excludes.len() ==> !path_within(file.path, #[trigger] excludes[i])
        },
{
    let read = |entry: WalkEntry| large_file(entry, min_size, excludes);
    lemma_filter_map_from(entries, read, file);
    assert(large_files(entries, min_size, excludes) == entries.filter_map(read));
    if large_files(entries, min_size, excludes).contains(file) {
        let j = choose|j: int| 0 <= j < entries.len() && read(#[trigger] entries[j]) == Some(file);
        assert(large_file(entries[j], min_size, excludes) == Some(file));
    }
    if exists|j: int| 0 <= j < entries.len() && (#[trigger] entries[j] matches WalkEntry::Entry {
        path,
        kind: EntryKind::File,
        size: Some(size),
        accessed,
        ..
    } && path@ == file.path && size == file.size && accessed == file.accessed) {
        let j = choose|j: int|
            0 <= j < entries.len() && (#[trigger] entries[j] matches WalkEntry::Entry {
            path,
            kind: EntryKind::File,
            size: Some(size),
            accessed,
            ..
        } && path@ == file.path && size == file.size && accessed == file.accessed);
        assert(read(entries[j]) == large_file(entries[j], min_size, excludes));
    }
}

/// The categories of the results: every category whose scan met bytes is there with them,
/// and the largest stand first.
pub proof fn law_results_hold_every_category(
    categories: Seq<Category>,
    reports: Seq<ScanReport>,
    after: Seq<(Category, u64)>,
    k: int,
)
    requires
        categories.len() == reports.len(),
        ordered_from(sized_categories(categories, reports, reports.len()), after),
        0 <= k < categories.len(),
        reports[k].bytes > 0,
    ensures
        after.contains((categories[k], reports[k].bytes)),
        forall|i: int, j: int|
            0 <= i <= j < after.len() ==> (#[trigger] after[i]).1 >= (#[trigger] after[j]).1,
{
    broadcast use vstd::seq_lib::group_to_multiset_ensures;

    let before = sized_categories(categories, reports, reports.len());
    let sized = (categories[k], reports[k].bytes);
    law_order_keeps_all(before, after);
    lemma_category_sized(categories, reports, reports.len(), k);
    assert(before.to_multiset().count(sized) > 0);
    assert(after.contains(sized));
    assert forall|i: int, j: int| 0 <= i <= j < after.len() implies (#[trigger] after[i]).1 >= (
    #[trigger] after[j]).1 by {
        assert(after[i].weight() >= after[j].weight());
    }
}

proof fn lemma_category_sized(
    categories: Seq<Category>,
    reports: Seq<ScanReport>,
    n: nat,
    k: int,
)
    requires
        0 <= k < n,
        reports[k].bytes > 0,
    ensures
        sized_categories(categories, reports, n).contains((categories[k], reports[k].bytes)),
    decreases n,
{
    let before = sized_categories(categories, reports, (n - 1) as nat);
    let all = sized_categories(categories, reports, n);
    let sized = (categories[k], reports[k].bytes);
    if k == n - 1 {
        assert(all[before.len() as int] == sized);
    } else {
        lemma_category_sized(categories, reports, (n - 1) as nat, k);
        let i = choose|i: int| 0 <= i < before.len() && before[i] == sized;
        assert(all[i] == sized);
    }
}

/// The sizes of directories and the warnings of scans add up one by one.
pub proof fn law_totals(
    entries: Seq<(String, u64)>,
    entry: (String, u64),
    reports: Seq<ScanReport>,
    n: nat,
)
    ensures
        sum_of_sizes(Seq::empty()) == 0,
        sum_of_sizes(entries.push(entry)) == sum_of_sizes(entries) + entry.1,
        warnings_of(reports, 0) == 0,
        warnings_of(reports, n + 1) == warnings_of(reports, n) + reports[n as int].warnings,
{
    assert(entries.push(entry).drop_last() =~= entries);
}

/// The large files that are shown are twenty at most, and all of them where there are no
/// more.
pub proof fn law_twenty_are_shown(before: Seq<LargeFile>, after: Seq<LargeFile>)
    requires
        largest_of(before, after),
    ensures
        after.len() == if before.len() <= 20 {
            before.len() as int
        } else {
            20
        },
{
}

/// A directory is searched if and only if it is one of those to search, exists and is not
/// excluded.
pub proof fn law_usable_dirs(
    dirs: Seq<Seq<char>>,
    present: Seq<bool>,
    excludes: Seq<Seq<char>>,
    dir: Seq<char>,
)
    requires
        dirs.len() <= present.len(),
    ensures
        usable_dirs(dirs, present, excludes).contains(dir) <==> {
            &&& exists|i: int| 0 <= i < dirs.len() && #[trigger] dirs[i] == dir && present[i]
            &&& forall|k: int| 0 <= k < excludes.len() ==> !path_within(dir, #[trigger] excludes[k])
        },
    decreases dirs.len(),
{
    let all = usable_dirs(dirs, present, excludes);
    if dirs.len() > 0 {
        let front = dirs.drop_last();
        let before = usable_dirs(front, present, excludes);
        law_usable_dirs(front, present, excludes, dir);
        if all.contains(dir) {
            let k = choose|k: int| 0 <= k < all.len() && all[k] == dir;
            if k < before.len() {
                assert(before[k] == dir);
                let i = choose|i: int|
                    0 <= i < front.len() && #[trigger] front[i] == dir && present[i];
                assert(dirs[i] == dir);
            } else {
                assert(dirs[dirs.len() - 1] == dir);
            }
        }
        if before.contains(dir) {
            let k = choose|k: int| 0 <= k < before.len() && before[k] == dir;
            assert(all[k] == dir);
        }
        if exists|i: int| 0 <= i < dirs.len() && #[trigger] dirs[i] == dir && present[i] {
            let i = choose|i: int| 0 <= i < dirs.len() && #[trigger] dirs[i] == dir && present[i];
            if i < front.len() {
                assert(front[i] == dir);
            } else if !excluded(dir, excludes) {
                assert(all[before.len() as int] == dir);
            }
        }
    }
}

/// Where projects and large files are searched for in the home directory.
pub proof fn law_search_dirs(home: Seq<char>, dir: Seq<char>)
    requires
        home.len() > 0 && home.last() != '/',
    ensures
        project_dirs_of(home).contains(dir) <==> {
            ||| dir == home + "/Codes"@
            ||| dir == home + "/Projects"@
            ||| dir == home + "/Documents"@
            ||| dir == home + "/Developer"@
            ||| dir == home + "/workspace"@
            ||| dir == home + "/repos"@
            ||| dir == home + "/src"@
        },
        large_file_dirs_of(home).contains(dir) <==> {
            ||| dir == home + "/Downloads"@
            ||| dir == home + "/Desktop"@
            ||| dir == home + "/Documents"@
            ||| dir == home + "/Movies"@
        },
{
    reveal_strlit("Codes");
    reveal_strlit("/Codes");
    assert(home.push('/') + "Codes"@ =~= home + "/Codes"@);
    reveal_strlit("Projects");
    reveal_strlit("/Projects");
    assert(home.push('/') + "Projects"@ =~= home + "/Projects"@);
    reveal_strlit("Documents");
    reveal_strlit("/Documents");
    assert(home.push('/') + "Documents"@ =~= home + "/Documents"@);
    reveal_strlit("Developer");
    reveal_strlit("/Developer");
    assert(home.push('/') + "Developer"@ =~= home + "/Developer"@);
    reveal_strlit("workspace");
    reveal_strlit("/workspace");
    assert(home.push('/') + "workspace"@ =~= home + "/workspace"@);
    reveal_strlit("repos");
    reveal_strlit("/repos");
    assert(home.push('/') + "repos"@ =~= home + "/repos"@);
    reveal_strlit("src");
    reveal_strlit("/src");
    assert(home.push('/') + "src"@ =~= home + "/src"@);
    reveal_strlit("Downloads");
    reveal_strlit("/Downloads");
    assert(home.push('/') + "Downloads"@ =~= home + "/Downloads"@);
    reveal_strlit("Desktop");
    reveal_strlit("/Desktop");
    assert(home.push('/') + "Desktop"@ =~= home + "/Desktop"@);
    reveal_strlit("Movies");
    reveal_strlit("/Movies");
    assert(home.push('/') + "Movies"@ =~= home + "/Movies"@);
    let a = project_dirs_of(home);
    let b = large_file_dirs_of(home);
    assert(a[0] == home + "/Codes"@ && a[1] == home + "/Projects"@ && a[2] == home + "/Documents"@);
    assert(a[3] == home + "/Developer"@ && a[4] == home + "/workspace"@ && a[5] == home
        + "/repos"@ && a[6] == home + "/src"@);
    assert(b[0] == home + "/Downloads"@ && b[1] == home + "/Desktop"@ && b[2] == home
        + "/Documents"@ && b[3] == home + "/Movies"@);
}

/// What directories of each kind are called, and by which files a virtual environment is
/// known.
pub proof fn law_search_kinds(kind: SearchKind)
    ensures
        kind.name_text() == "node_modules"@ <==> kind == SearchKind::NodeModules,
        kind.name_text() == ".venv"@ <==> kind == SearchKind::DotVenv,
        kind.name_text() == "venv"@ <==> kind == SearchKind::PlainVenv,
        kind.name_text() == "__pycache__"@ <==> kind == SearchKind::Pycache,
        kind == SearchKind::DotVenv || kind == SearchKind::PlainVenv ==> kind.marker_texts()
            == seq!["pyvenv.cfg"@, "bin/python"@],
        kind == SearchKind::NodeModules || kind == SearchKind::Pycache ==> kind.marker_texts().len()
            == 0,
{
    reveal_strlit("node_modules");
    reveal_strlit(".venv");
    reveal_strlit("venv");
    reveal_strlit("__pycache__");
    assert("node_modules"@.len() == 12 && ".venv"@.len() == 5 && "venv"@.len() == 4
        && "__pycache__"@.len() == 11);
}

/// Entries that could not be read are counted one by one, and counters wrap round at two to
/// the power of sixty-four.
pub proof fn law_unreadable_counted(entries: Seq<WalkEntry>, entry: WalkEntry, n: nat)
    ensures
        unreadable(Seq::empty()) == 0,
        unreadable(entries.push(entry)) == unreadable(entries) + if entry is Unreadable {
            1nat
        } else {
            0
        },
        n <= u64::MAX ==> wrapped(n) == n,
        wrapped(n + 0x1_0000_0000_0000_0000) == wrapped(n),
{
    assert(entries.push(entry).drop_last() =~= entries);
}

/// An entry gives one directory or one large file at most.
pub proof fn law_found_once(
    entry: WalkEntry,
    target_name: Seq<char>,
    min_size: u64,
    excludes: Seq<Seq<char>>,
)
    ensures
        candidates(seq![entry], target_name, excludes).len() <= 1,
        large_files(seq![entry], min_size, excludes).len() <= 1,
        candidates(Seq::empty(), target_name, excludes).len() == 0,
        large_files(Seq::empty(), min_size, excludes).len() == 0,
{
    let found = |entry: WalkEntry| candidate(entry, target_name, excludes);
    let large = |entry: WalkEntry| large_file(entry, min_size, excludes);
    let one = seq![entry];
    assert(one.drop_last() =~= Seq::empty());
    assert(one.drop_last().filter_map(found).len() == 0);
    assert(one.drop_last().filter_map(large).len() == 0);
    assert(candidates(one, target_name, excludes) == one.filter_map(found));
    assert(large_files(one, min_size, excludes) == one.filter_map(large));
}

/// Categories and directories are taken one by one, in order: a category counts if its scan
/// met bytes, and a directory if it exists and is not excluded.
pub proof fn law_taken_in_order(
    categories: Seq<Category>,
    reports: Seq<ScanReport>,
    n: nat,
    dirs: Seq<Seq<char>>,
    dir: Seq<char>,
    present: Seq<bool>,
    excludes: Seq<Seq<char>>,
)
    ensures
        sized_categories(categories, reports, 0).len() == 0,
        sized_categories(categories, reports, n + 1) == sized_categories(categories, reports, n)
            + if reports[n as int].bytes > 0 {
            seq![(categories[n as int], reports[n as int].bytes)]
        } else {
            Seq::empty()
        },
        usable_dirs(Seq::empty(), present, excludes).len() == 0,
        usable_dirs(dirs.push(dir), present, excludes) == usable_dirs(dirs, present, excludes)
            + if present[dirs.len() as int] && !(exists|k: int|
            0 <= k < excludes.len() && path_within(dir, #[trigger] excludes[k])) {
            seq![dir]
        } else {
            Seq::empty()
        },
{
    assert(dirs.push(dir).drop_last() =~= dirs);
    assert(sized_categories(categories, reports, n + 1) =~= sized_categories(
        categories,
        reports,
        n,
    ) + if reports[n as int].bytes > 0 {
        seq![(categories[n as int], reports[n as int].bytes)]
    } else {
        Seq::empty()
    });
    assert(usable_dirs(dirs.push(dir), present, excludes) =~= usable_dirs(dirs, present, excludes)
        + if present[dirs.len() as int] && !(exists|k: int|
        0 <= k < excludes.len() && path_within(dir, #[trigger] excludes[k])) {
        seq![dir]
    } else {
        Seq::empty()
    });
}

/// Large files of one size stay in the order in which they were found, where all are shown.
pub proof fn law_ties_keep_order(
    before: Seq<LargeFile>,
    after: Seq<LargeFile>,
    size: u64,
    alike: spec_fn(LargeFile) -> bool,
)
    requires
        largest_of(before, after),
        before.len() <= 20,
        forall|file: LargeFile| #[trigger] alike(file) <==> file.size == size,
    ensures
        after.filter(alike) == before.filter(alike),
{
    let sorted = choose|sorted: Seq<LargeFile>| #[trigger]
        ordered_from(before, sorted) && sorted.len() == before.len() && after == at_most(
            sorted,
            LARGE_FILES_SHOWN as int,
        );
    law_heaviest_first(before, sorted, size, alike);
}

} // verus!
