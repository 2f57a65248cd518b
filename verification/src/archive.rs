//! Archiving cold files: which policies can be followed, which files they pick and
//! under which keys the files are stored.

use crate::config::ArchivePolicy;
use crate::path::{
    components, dot_first, excluded, is_excluded, joined, law_display_joined, lemma_joined_within,
    normalize_path, normalized, path_components, path_within, piece_counts, piece_start,
    relative_to, strip_base,
};
use crate::scan::{lemma_filter_map_add, lemma_filter_map_from};
use crate::text::{
    chars_of, concat2, copy_texts, decimal, decimal_text, ends_with, has_char, holds_text,
    law_decimal, number_of, opt_text, split, split_on, str_eq, texts,
};
use crate::time::{
    date_of, day_nanos, has_date, law_date_exists, utc_date_of, Date, Timestamp,
};
use vstd::prelude::*;

verus! {

/// The piece is a name: neither empty nor a step within or out of a directory.
pub open spec fn is_name(piece: Seq<char>) -> bool {
    piece.len() > 0 && piece != "."@ && piece != ".."@
}

/// The prefix can be used: a relative path of names, without backslashes.
pub open spec fn valid_prefix(prefix: Seq<char>) -> bool {
    &&& !has_char(prefix, '\\')
    &&& forall|i: int|
        0 <= i < split(prefix, '/').len() ==> is_name(#[trigger] split(prefix, '/')[i])
}

/// Whether a prefix can be used.
pub fn is_valid_prefix(prefix: &str) -> (r: bool)
    ensures
        r == valid_prefix(prefix@),
{
    let chars = chars_of(prefix);
    for i in 0..chars.len()
        invariant
            chars@ == prefix@,
            forall|j: int| 0 <= j < i ==> prefix@[j] != '\\',
    {
        if chars[i] == '\\' {
            assert(has_char(prefix@, '\\'));
            return false;
        }
    }
    let pieces = split_on(prefix, '/');
    let ghost all = split(prefix@, '/');
    assert(all.len() == pieces@.len());
    for i in 0..pieces.len()
        invariant
            all == split(prefix@, '/'),
            all == texts(pieces@),
            forall|j: int| 0 <= j < i ==> is_name(#[trigger] all[j]),
    {
        let piece = pieces[i].as_str();
        assert(piece@ == all[i as int]);
        if piece.is_empty() || str_eq(piece, ".") || str_eq(piece, "..") {
            assert(!is_name(all[i as int]));
            return false;
        }
    }
    true
}

proof fn lemma_split_first(s: Seq<char>, sep: char)
    requires
        s.len() > 0,
        s[0] == sep,
    ensures
        split(s, sep).len() >= 2,
        split(s, sep)[0].len() == 0,
    decreases s.len(),
{
    if s.len() == 1 {
        assert(s.drop_last().len() == 0);
        assert(split(s.drop_last(), sep) == seq![Seq::<char>::empty()]);
    } else {
        lemma_split_first(s.drop_last(), sep);
    }
}

proof fn lemma_split_some(s: Seq<char>, sep: char)
    ensures
        split(s, sep).len() > 0,
    decreases s.len(),
{
    if s.len() > 0 {
        lemma_split_some(s.drop_last(), sep);
    }
}

/// A prefix that can be used is not empty, and neither starts nor ends with a
/// slash.
pub proof fn law_prefix_relative(prefix: Seq<char>)
    requires
        valid_prefix(prefix),
    ensures
        prefix.len() > 0,
        prefix[0] != '/',
        prefix.last() != '/',
{
    let pieces = split(prefix, '/');
    lemma_split_some(prefix, '/');
    assert(is_name(pieces[0]));
    assert(is_name(pieces[pieces.len() - 1]));
    if prefix.len() > 0 && prefix[0] == '/' {
        lemma_split_first(prefix, '/');
    }
}

/// Why a policy cannot be followed.
#[derive(Clone, Copy, Debug, PartialEq, Eq, Structural)]
pub enum PolicyProblem {
    /// Its prefix is none.
    Prefix,
    /// Its files could be of any age.
    Age,
    /// Its directory does not exist.
    MissingRoot,
    /// Its directory overlaps with that of an earlier policy.
    OverlappingRoots,
}

impl PolicyProblem {
    /// The problem in words.
    pub open spec fn text(self) -> Seq<char> {
        match self {
            PolicyProblem::Prefix => "archive prefix must be a relative path of plain names"@,
            PolicyProblem::Age => "older_than_days must be greater than zero"@,
            PolicyProblem::MissingRoot => "archive root does not exist"@,
            PolicyProblem::OverlappingRoots => "archive roots must not overlap"@,
        }
    }

    /// The problem in words.
    pub fn message(self) -> (r: &'static str)
        ensures
            r@ == self.text(),
    {
        match self {
            PolicyProblem::Prefix => "archive prefix must be a relative path of plain names",
            PolicyProblem::Age => "older_than_days must be greater than zero",
            PolicyProblem::MissingRoot => "archive root does not exist",
            PolicyProblem::OverlappingRoots => "archive roots must not overlap",
        }
    }
}

/// One of the two paths lies within the other.
pub open spec fn overlap(a: Seq<char>, b: Seq<char>) -> bool {
    path_within(a, b) || path_within(b, a)
}

/// What is wrong with the policy number `i`, whose directory really lies at
/// `roots[i]`, if it exists.
pub open spec fn policy_problem(
    policies: Seq<ArchivePolicy>,
    roots: Seq<Option<String>>,
    i: int,
) -> Option<PolicyProblem> {
    if !valid_prefix(policies[i].prefix@) {
        Some(PolicyProblem::Prefix)
    } else if policies[i].older_than_days == 0 {
        Some(PolicyProblem::Age)
    } else {
        match roots[i] {
            None => Some(PolicyProblem::MissingRoot),
            Some(root) => if exists|j: int|
                0 <= j < i && (#[trigger] roots[j] matches Some(other) && overlap(
                    other@,
                    root@,
                )) {
                Some(PolicyProblem::OverlappingRoots)
            } else {
                None
            },
        }
    }
}

/// A policy that cannot be followed.
#[derive(Clone, Copy, Debug, PartialEq, Eq, Structural)]
pub struct PolicyFault {
    pub index: usize,
    pub problem: PolicyProblem,
}

/// What is wrong with one policy.
fn find_problem(policies: &[ArchivePolicy], roots: &[Option<String>], i: usize) -> (r: Option<
    PolicyProblem,
>)
    requires
        policies@.len() == roots@.len(),
        i < policies@.len(),
    ensures
        r == policy_problem(policies@, roots@, i as int),
{
    let policy = &policies[i];
    if !is_valid_prefix(policy.prefix.as_str()) {
        return Some(PolicyProblem::Prefix);
    }
    if policy.older_than_days == 0 {
        return Some(PolicyProblem::Age);
    }
    match &roots[i] {
        None => Some(PolicyProblem::MissingRoot),
        Some(root) => {
            for j in 0..i
                invariant
                    i < roots@.len(),
                    valid_prefix(policies@[i as int].prefix@),
                    policies@[i as int].older_than_days != 0,
                    roots@[i as int] == Some(*root),
                    forall|k: int|
                        0 <= k < j ==> !(#[trigger] roots@[k] matches Some(other) && overlap(
                            other@,
                            root@,
                        )),
            {
                match &roots[j] {
                    None => {},
                    Some(other) => {
                        if strip_base(other.as_str(), root.as_str()).is_some() || strip_base(
                            root.as_str(),
                            other.as_str(),
                        ).is_some() {
                            assert(roots@[j as int] matches Some(other) && overlap(
                                other@,
                                root@,
                            ));
                            return Some(PolicyProblem::OverlappingRoots);
                        }
                    },
                }
            }
            None
        },
    }
}

/// Checks the policies, of which number `i` is about the directory that really lies
/// at `roots[i]`, if it exists. The first that cannot be followed is the fault.
pub fn check_policies(policies: &[ArchivePolicy], roots: &[Option<String>]) -> (r: Result<
    (),
    PolicyFault,
>)
    requires
        policies@.len() == roots@.len(),
    ensures
        match r {
            Ok(()) => forall|i: int|
                0 <= i < policies@.len() ==> (#[trigger] policy_problem(
                    policies@,
                    roots@,
                    i,
                )) is None,
            Err(fault) => {
                &&& fault.index < policies@.len()
                &&& policy_problem(policies@, roots@, fault.index as int) == Some(fault.problem)
                &&& forall|i: int|
                    0 <= i < fault.index ==> (#[trigger] policy_problem(
                        policies@,
                        roots@,
                        i,
                    )) is None
            },
        },
{
    for i in 0..policies.len()
        invariant
            policies@.len() == roots@.len(),
            forall|k: int|
                0 <= k < i ==> (#[trigger] policy_problem(policies@, roots@, k)) is None,
    {
        match find_problem(policies, roots, i) {
            Some(problem) => {
                return Err(PolicyFault { index: i, problem });
            },
            None => {},
        }
    }
    Ok(())
}

/// Where no policy is at fault, each has a prefix that can be used and an age, and
/// no two of their directories overlap.
pub proof fn law_checked_policies(
    policies: Seq<ArchivePolicy>,
    roots: Seq<Option<String>>,
    i: int,
    j: int,
)
    requires
        policies.len() == roots.len(),
        forall|k: int|
            0 <= k < policies.len() ==> (#[trigger] policy_problem(policies, roots, k)) is None,
        0 <= i < j < policies.len(),
    ensures
        valid_prefix(policies[i].prefix@) && valid_prefix(policies[j].prefix@),
        policies[i].older_than_days > 0 && policies[j].older_than_days > 0,
        roots[i] is Some && roots[j] is Some,
        !overlap(roots[i]->0@, roots[j]->0@),
{
    assert(policy_problem(policies, roots, i) is None);
    assert(policy_problem(policies, roots, j) is None);
    if overlap(roots[i]->0@, roots[j]->0@) {
        let root = roots[j]->0;
        assert(roots[i] matches Some(other) && overlap(other@, root@));
    }
}

/// The extensions of files that hold models.
pub open spec fn model_extensions() -> Seq<Seq<char>> {
    seq![
        ".safetensors"@,
        ".ckpt"@,
        ".pt"@,
        ".pth"@,
        ".bin"@,
        ".gguf"@,
        ".onnx"@,
    ]
}

/// The path goes through a directory of models, or is that of a file that holds
/// one.
pub open spec fn is_model(path: Seq<char>) -> bool {
    ||| components(path).contains("models"@)
    ||| components(path).contains("checkpoints"@)
    ||| exists|i: int|
        0 <= i < model_extensions().len() && (#[trigger] model_extensions()[i]).is_suffix_of(path)
}

/// Whether a path has to do with models.
pub fn is_model_path(path: &str) -> (r: bool)
    ensures
        r == is_model(path@),
{
    let parts = path_components(path);
    if holds_text(parts.as_slice(), "models") || holds_text(
        parts.as_slice(),
        "checkpoints",
    ) {
        return true;
    }
    let ghost all = model_extensions();
    assert(all[0] == ".safetensors"@ && all[1] == ".ckpt"@ && all[2] == ".pt"@ && all[3]
        == ".pth"@ && all[4] == ".bin"@ && all[5] == ".gguf"@ && all[6] == ".onnx"@);
    ends_with(path, ".safetensors") || ends_with(path, ".ckpt") || ends_with(path, ".pt")
        || ends_with(path, ".pth") || ends_with(path, ".bin") || ends_with(path, ".gguf")
        || ends_with(path, ".onnx")
}

/// The paths that a policy leaves out, seen from its directory `root`, and then the
/// excluded paths of the run.
pub open spec fn left_out(
    policy: ArchivePolicy,
    root: Seq<char>,
    home: Seq<char>,
    excludes: Seq<Seq<char>>,
) -> Seq<Seq<char>> {
    texts(policy.exclude@).map_values(|path: Seq<char>| normalized(path, home, Some(root)))
        + excludes
}

/// The paths that a policy leaves out.
pub fn archive_excludes(policy: &ArchivePolicy, root: &str, home: &str, excludes: &[String]) -> (r:
    Vec<String>)
    ensures
        texts(r@) == left_out(*policy, root@, home@, texts(excludes@)),
{
    let mut out: Vec<String> = Vec::new();
    let ghost own = texts(policy.exclude@).map_values(
        |path: Seq<char>| normalized(path, home@, Some(root@)),
    );
    for i in 0..policy.exclude.len()
        invariant
            own == texts(policy.exclude@).map_values(
                |path: Seq<char>| normalized(path, home@, Some(root@)),
            ),
            out@.len() == i,
            forall|j: int| 0 <= j < i ==> (#[trigger] out@[j])@ == own[j],
    {
        let path = normalize_path(policy.exclude[i].as_str(), home, Some(root));
        assert(path@ == own[i as int]);
        out.push(path);
    }
    let ghost first = out@;
    let mut more = copy_texts(excludes);
    let ghost rest = more@;
    out.append(&mut more);
    assert(texts(out@) =~= texts(first) + texts(rest));
    assert(texts(first) =~= own);
    out
}

/// The file is older than so many days.
pub open spec fn is_cold(modified: Timestamp, days: u64, now: Timestamp) -> bool {
    now.in_nanos() - modified.in_nanos() > days * day_nanos()
}

/// Whether a file that was modified at `modified` is older than so many days.
pub fn older_than(modified: Timestamp, days: u64, now: Timestamp) -> (r: bool)
    ensures
        r == is_cold(modified, days, now),
{
    let age: i128 = (now.secs as i128 * 1_000_000_000 + now.nanos as i128) - (modified.secs as i128
        * 1_000_000_000 + modified.nanos as i128);
    let least: i128 = days as i128 * 86_400_000_000_000;
    age > least
}

/// What walking through the directory of a policy met.
#[derive(Debug)]
pub struct ArchiveEntry {
    pub path: String,
    /// Whether it is a regular file.
    pub regular: bool,
    pub modified: Timestamp,
}

/// A file that is archived.
#[derive(Debug)]
pub struct ColdFile {
    pub path: String,
    pub modified: Timestamp,
}

/// What a file stands for.
pub struct ColdFileView {
    pub path: Seq<char>,
    pub modified: Timestamp,
}

impl View for ColdFile {
    type V = ColdFileView;

    open spec fn view(&self) -> ColdFileView {
        ColdFileView { path: self.path@, modified: self.modified }
    }
}

/// What a list of files stands for.
pub open spec fn cold_views(files: Seq<ColdFile>) -> Seq<ColdFileView> {
    files.map_values(|file: ColdFile| file@)
}

/// The file that an entry is, if it is archived: a regular file that is old enough,
/// is not left out and has nothing to do with models.
pub open spec fn cold_file(
    entry: ArchiveEntry,
    days: u64,
    excludes: Seq<Seq<char>>,
    now: Timestamp,
) -> Option<ColdFileView> {
    if entry.regular && is_cold(entry.modified, days, now) && !excluded(entry.path@, excludes)
        && !is_model(entry.path@) {
        Some(ColdFileView { path: entry.path@, modified: entry.modified })
    } else {
        None
    }
}

/// The files among the entries that are archived.
pub open spec fn cold_files(
    entries: Seq<ArchiveEntry>,
    days: u64,
    excludes: Seq<Seq<char>>,
    now: Timestamp,
) -> Seq<ColdFileView> {
    entries.filter_map(|entry: ArchiveEntry| cold_file(entry, days, excludes, now))
}

/// The files among the entries that are archived.
pub fn select_cold_files(
    entries: &[ArchiveEntry],
    days: u64,
    excludes: &[String],
    now: Timestamp,
) -> (r: Vec<ColdFile>)
    ensures
        cold_views(r@) == cold_files(entries@, days, texts(excludes@), now),
{
    let mut out: Vec<ColdFile> = Vec::new();
    let ghost all = entries@;
    let ghost ex = texts(excludes@);
    let ghost read = |entry: ArchiveEntry| cold_file(entry, days, ex, now);
    assert(cold_views(out@) =~= all.take(0).filter_map(read));
    for i in 0..entries.len()
        invariant
            all == entries@,
            ex == texts(excludes@),
            read == (|entry: ArchiveEntry| cold_file(entry, days, ex, now)),
            cold_views(out@) == all.take(i as int).filter_map(read),
    {
        let ghost before = out@;
        assert(all.take(i + 1).drop_last() =~= all.take(i as int));
        let entry = &entries[i];
        if entry.regular && older_than(entry.modified, days, now) && !is_excluded(
            entry.path.as_str(),
            excludes,
        ) && !is_model_path(entry.path.as_str()) {
            let file = ColdFile { path: entry.path.clone(), modified: entry.modified };
            out.push(file);
            assert(cold_views(out@) =~= cold_views(before).push(file@));
            assert(read(all[i as int]) == Some(file@));
        } else {
            assert(read(all[i as int]) is None);
        }
    }
    assert(all.take(entries@.len() as int) =~= all);
    out
}

proof fn lemma_cold_file(
    entries: Seq<ArchiveEntry>,
    days: u64,
    excludes: Seq<Seq<char>>,
    now: Timestamp,
    i: int,
)
    requires
        0 <= i < cold_files(entries, days, excludes, now).len(),
    ensures
        exists|j: int|
            0 <= j < entries.len() && cold_file(#[trigger] entries[j], days, excludes, now)
                == Some(cold_files(entries, days, excludes, now)[i]),
    decreases entries.len(),
{
    let read = |entry: ArchiveEntry| cold_file(entry, days, excludes, now);
    if entries.len() > 0 {
        let front = entries.drop_last();
        let before = cold_files(front, days, excludes, now);
        let all = cold_files(entries, days, excludes, now);
        assert(before == front.filter_map(read));
        if i < before.len() {
            lemma_cold_file(front, days, excludes, now, i);
            let j = choose|j: int|
                0 <= j < front.len() && cold_file(#[trigger] front[j], days, excludes, now)
                    == Some(before[i]);
            assert(cold_file(entries[j], days, excludes, now) == Some(all[i]));
        } else {
            assert(read(entries.last()) is Some);
            assert(cold_file(entries[entries.len() - 1], days, excludes, now) == Some(all[i]));
        }
    }
}

/// Nothing that has to do with models is ever archived, nor what is left out, nor
/// what is not old enough.
pub proof fn law_archive_spares(
    entries: Seq<ArchiveEntry>,
    days: u64,
    excludes: Seq<Seq<char>>,
    now: Timestamp,
    i: int,
)
    requires
        0 <= i < cold_files(entries, days, excludes, now).len(),
    ensures
        !is_model(cold_files(entries, days, excludes, now)[i].path),
        !excluded(cold_files(entries, days, excludes, now)[i].path, excludes),
        is_cold(cold_files(entries, days, excludes, now)[i].modified, days, now),
{
    lemma_cold_file(entries, days, excludes, now, i);
}

/// What a policy leaves out, and everything beneath it, is excluded, and so is
/// everything that the run excludes.
pub proof fn law_left_out(
    policy: ArchivePolicy,
    root: Seq<char>,
    home: Seq<char>,
    excludes: Seq<Seq<char>>,
    path: Seq<char>,
)
    ensures
        excluded(path, left_out(policy, root, home, excludes)) <==> excluded(path, excludes)
            || exists|i: int|
            0 <= i < policy.exclude@.len() && path_within(
                path,
                normalized((#[trigger] policy.exclude@[i])@, home, Some(root)),
            ),
{
    let all = left_out(policy, root, home, excludes);
    let n = policy.exclude@.len();
    assert forall|i: int| 0 <= i < n implies #[trigger] all[i] == normalized(
        policy.exclude@[i]@,
        home,
        Some(root),
    ) by {
        assert(texts(policy.exclude@)[i] == policy.exclude@[i]@);
    }
    if excluded(path, all) {
        let k = choose|k: int| 0 <= k < all.len() && path_within(path, #[trigger] all[k]);
        if k < n {
            assert(path_within(path, normalized(policy.exclude@[k]@, home, Some(root))));
        } else {
            assert(path_within(path, excludes[k - n]));
        }
    }
    if excluded(path, excludes) {
        let k = choose|k: int| 0 <= k < excludes.len() && path_within(path, #[trigger] excludes[k]);
        assert(path_within(path, all[n + k]));
    }
    if exists|i: int|
        0 <= i < n && path_within(
            path,
            normalized((#[trigger] policy.exclude@[i])@, home, Some(root)),
        ) {
        let i = choose|i: int|
            0 <= i < n && path_within(
                path,
                normalized((#[trigger] policy.exclude@[i])@, home, Some(root)),
            );
        assert(path_within(path, all[i]));
    }
}

/// `n` zeros.
pub open spec fn zeros(n: int) -> Seq<char> {
    Seq::new(
        if n > 0 {
            n as nat
        } else {
            0
        },
        |i: int| '0',
    )
}

/// The digits of `n`, filled up with zeros to `width` of them.
pub open spec fn zero_padded(n: nat, width: int) -> Seq<char> {
    zeros(width - decimal_text(n).len()) + decimal_text(n)
}

/// The date as the year, the month and the day, parted by slashes.
pub open spec fn date_text(date: Date) -> Seq<char> {
    zero_padded(date.year as nat, 4) + "/"@ + zero_padded(date.month as nat, 2) + "/"@
        + zero_padded(date.day as nat, 2)
}

/// The key for what lies at `relative` in the directory of a policy.
pub open spec fn key_text(
    prefix: Seq<char>,
    date: Option<Date>,
    relative: Seq<char>,
) -> Seq<char> {
    match date {
        None => prefix + "/"@ + relative,
        Some(date) => prefix + "/"@ + date_text(date) + "/"@ + relative,
    }
}

/// The year has four digits.
pub open spec fn has_short_year(date: Date) -> bool {
    0 <= date.year <= 9999
}

/// The key of a file: the prefix, the date of its last change if the policy asks
/// for it, and its path as seen from the directory of the policy. A file that does
/// not lie beneath that directory has none, nor has one whose date is asked for and
/// cannot be written.
pub open spec fn key_of(policy: ArchivePolicy, root: Seq<char>, file: ColdFileView) -> Option<
    Seq<char>,
> {
    match relative_to(file.path, root) {
        Some(relative) if relative.len() > 0 => if !policy.partition_by_date {
            Some(key_text(policy.prefix@, None, relative))
        } else if file.modified.has_date() && has_short_year(utc_date_of(file.modified)) {
            Some(key_text(policy.prefix@, Some(utc_date_of(file.modified)), relative))
        } else {
            None
        },
        _ => None,
    }
}

/// The digits of `n`, filled up with zeros.
fn pad_zeros(n: u64, width: usize) -> (r: String)
    ensures
        r@ == zero_padded(n as nat, width as int),
{
    proof {
        reveal_strlit("0");
    }
    let digits = decimal(n);
    let length: usize = digits.as_str().unicode_len();
    let mut out = String::new();
    assert(out@ =~= zeros(0));
    if length < width {
        for i in 0..(width - length)
            invariant
                "0"@.len() == 1,
                "0"@[0] == '0',
                out@ == zeros(i as int),
        {
            out.append("0");
            assert(out@ =~= zeros(i + 1));
        }
    }
    out.append(digits.as_str());
    assert(out@ =~= zero_padded(n as nat, width as int));
    out
}

/// The date as the year, the month and the day, parted by slashes.
fn write_date(date: Date) -> (r: String)
    requires
        has_short_year(date),
    ensures
        r@ == date_text(date),
{
    let mut out = pad_zeros(date.year as u64, 4);
    out.append("/");
    out.append(pad_zeros(date.month as u64, 2).as_str());
    out.append("/");
    out.append(pad_zeros(date.day as u64, 2).as_str());
    out
}

/// The key of a file.
pub fn archive_key(policy: &ArchivePolicy, root: &str, file: &ColdFile) -> (r: Option<String>)
    ensures
        opt_text(r) == key_of(*policy, root@, file@),
{
    match strip_base(file.path.as_str(), root) {
        None => None,
        Some(relative) => {
            if relative.as_str().is_empty() {
                return None;
            }
            let mut key = concat2(policy.prefix.as_str(), "/");
            if policy.partition_by_date {
                if !has_date(file.modified) {
                    return None;
                }
                let date = date_of(file.modified);
                if date.year < 0 || date.year > 9999 {
                    return None;
                }
                let text = write_date(date);
                key.append(text.as_str());
                key.append("/");
            }
            key.append(relative.as_str());
            Some(key)
        },
    }
}

proof fn lemma_short_number(n: nat, k: int)
    requires
        k == 2 ==> n < 100,
        k == 4 ==> n < 10_000,
        k == 2 || k == 4,
    ensures
        zero_padded(n, k).len() == k,
{
    reveal_with_fuel(decimal_text, 4);
}

/// A written date has ten characters.
proof fn lemma_date_length(date: Date)
    requires
        date.valid(),
        has_short_year(date),
    ensures
        date_text(date).len() == 10,
{
    reveal_strlit("/");
    lemma_short_number(date.year as nat, 4);
    lemma_short_number(date.month as nat, 2);
    lemma_short_number(date.day as nat, 2);
}

/// Two files of one policy have different keys, unless they are seen at the same
/// path from its directory.
pub proof fn law_keys_distinct(
    policy: ArchivePolicy,
    root: Seq<char>,
    a: ColdFileView,
    b: ColdFileView,
)
    requires
        key_of(policy, root, a) is Some,
        key_of(policy, root, b) is Some,
        relative_to(a.path, root) != relative_to(b.path, root),
    ensures
        key_of(policy, root, a) != key_of(policy, root, b),
{
    let x = relative_to(a.path, root)->0;
    let y = relative_to(b.path, root)->0;
    let key_a = key_of(policy, root, a)->0;
    let key_b = key_of(policy, root, b)->0;
    reveal_strlit("/");
    let n = policy.prefix@.len() + 1int;
    if policy.partition_by_date {
        law_date_exists(a.modified);
        law_date_exists(b.modified);
        lemma_date_length(utc_date_of(a.modified));
        lemma_date_length(utc_date_of(b.modified));
        assert(key_a.skip(n + 11) =~= x);
        assert(key_b.skip(n + 11) =~= y);
    } else {
        assert(key_a.skip(n) =~= x);
        assert(key_b.skip(n) =~= y);
    }
}

/// A key starts with the prefix of its policy and ends with the path of its file.
pub proof fn law_key_shape(policy: ArchivePolicy, root: Seq<char>, file: ColdFileView)
    requires
        key_of(policy, root, file) is Some,
    ensures
        (policy.prefix@ + "/"@).is_prefix_of(key_of(policy, root, file)->0),
        ("/"@ + relative_to(file.path, root)->0).is_suffix_of(key_of(policy, root, file)->0),
{
    let key = key_of(policy, root, file)->0;
    let head = policy.prefix@ + "/"@;
    let relative = relative_to(file.path, root)->0;
    let tail = "/"@ + relative;
    assert(key.take(head.len() as int) =~= head);
    assert(key.skip(key.len() - tail.len()) =~= tail);
}

/// A file is picked if and only if it was met as a regular file, more nanoseconds have
/// gone by since it was modified than the days have, it is not left out, and it has
/// nothing to do with models.
pub proof fn law_cold_file_picked(
    entries: Seq<ArchiveEntry>,
    days: u64,
    excludes: Seq<Seq<char>>,
    now: Timestamp,
    file: ColdFileView,
)
    ensures
        cold_files(entries, days, excludes, now).contains(file) <==> {
            &&& exists|j: int|
                0 <= j < entries.len() && (#[trigger] entries[j]).regular && entries[j].path@
                    == file.path && entries[j].modified == file.modified
            &&& (now.secs * 1_000_000_000 + now.nanos) - (file.modified.secs * 1_000_000_000
                + file.modified.nanos) > days * 86_400_000_000_000
            &&& forall|i: int|
                0 <= i < excludes.len() ==> !path_within(file.path, #[trigger] excludes[i])
            &&& forall|i: int|
                0 <= i < components(file.path).len() ==> #[trigger] components(file.path)[i]
                    != "models"@ && components(file.path)[i] != "checkpoints"@
            &&& !".safetensors"@.is_suffix_of(file.path)
            &&& !".ckpt"@.is_suffix_of(file.path)
            &&& !".pt"@.is_suffix_of(file.path)
            &&& !".pth"@.is_suffix_of(file.path)
            &&& !".bin"@.is_suffix_of(file.path)
            &&& !".gguf"@.is_suffix_of(file.path)
            &&& !".onnx"@.is_suffix_of(file.path)
        },
{
    let read = |entry: ArchiveEntry| cold_file(entry, days, excludes, now);
    let picked = cold_files(entries, days, excludes, now);
    lemma_filter_map_from(entries, read, file);
    assert(picked == entries.filter_map(read));
    law_model_paths(file.path);
    if picked.contains(file) {
        let j = choose|j: int| 0 <= j < entries.len() && read(#[trigger] entries[j]) == Some(file);
        assert(cold_file(entries[j], days, excludes, now) == Some(file));
        assert(entries[j].regular);
    }
    if exists|j: int|
        0 <= j < entries.len() && (#[trigger] entries[j]).regular && entries[j].path@ == file.path
            && entries[j].modified == file.modified {
        let j = choose|j: int|
            0 <= j < entries.len() && (#[trigger] entries[j]).regular && entries[j].path@
                == file.path && entries[j].modified == file.modified;
        assert(read(entries[j]) == cold_file(entries[j], days, excludes, now));
    }
}

/// A path has to do with models if and only if one of its components is `models` or
/// `checkpoints`, or it ends as the files do that hold one.
pub proof fn law_model_paths(path: Seq<char>)
    ensures
        is_model(path) <==> {
            ||| exists|i: int|
                0 <= i < components(path).len() && (#[trigger] components(path)[i] == "models"@
                    || components(path)[i] == "checkpoints"@)
            ||| ".safetensors"@.is_suffix_of(path)
            ||| ".ckpt"@.is_suffix_of(path)
            ||| ".pt"@.is_suffix_of(path)
            ||| ".pth"@.is_suffix_of(path)
            ||| ".bin"@.is_suffix_of(path)
            ||| ".gguf"@.is_suffix_of(path)
            ||| ".onnx"@.is_suffix_of(path)
        },
{
    let all = model_extensions();
    assert(all[0] == ".safetensors"@ && all[1] == ".ckpt"@ && all[2] == ".pt"@ && all[3]
        == ".pth"@ && all[4] == ".bin"@ && all[5] == ".gguf"@ && all[6] == ".onnx"@);
}

/// Fewer days pick more: what is picked for a number of days is picked for every smaller
/// number.
pub proof fn law_fewer_days_pick_more(
    entries: Seq<ArchiveEntry>,
    fewer: u64,
    more: u64,
    excludes: Seq<Seq<char>>,
    now: Timestamp,
    file: ColdFileView,
)
    requires
        fewer <= more,
        cold_files(entries, more, excludes, now).contains(file),
    ensures
        cold_files(entries, fewer, excludes, now).contains(file),
{
    law_cold_file_picked(entries, more, excludes, now, file);
    law_cold_file_picked(entries, fewer, excludes, now, file);
}

/// Days part files by their age: of two numbers of days the smaller one picks a file that
/// the larger one does not, if its age lies between them and some number picks it at all.
pub proof fn law_days_part_files(
    entries: Seq<ArchiveEntry>,
    fewer: u64,
    more: u64,
    least: u64,
    excludes: Seq<Seq<char>>,
    now: Timestamp,
    file: ColdFileView,
)
    requires
        cold_files(entries, least, excludes, now).contains(file),
        fewer * 86_400_000_000_000 < (now.secs * 1_000_000_000 + now.nanos) - (file.modified.secs
            * 1_000_000_000 + file.modified.nanos) <= more * 86_400_000_000_000,
    ensures
        cold_files(entries, fewer, excludes, now).contains(file),
        !cold_files(entries, more, excludes, now).contains(file),
{
    law_cold_file_picked(entries, least, excludes, now, file);
    law_cold_file_picked(entries, fewer, excludes, now, file);
    law_cold_file_picked(entries, more, excludes, now, file);
}

/// Picking in batches is picking at once.
pub proof fn law_pick_in_batches(
    a: Seq<ArchiveEntry>,
    b: Seq<ArchiveEntry>,
    days: u64,
    excludes: Seq<Seq<char>>,
    now: Timestamp,
)
    ensures
        cold_files(a + b, days, excludes, now) == cold_files(a, days, excludes, now) + cold_files(
            b,
            days,
            excludes,
            now,
        ),
{
    lemma_filter_map_add(a, b, |entry: ArchiveEntry| cold_file(entry, days, excludes, now));
}

/// A prefix can be used if and only if it holds no backslash and every piece of it between
/// slashes is a name: not empty, and neither one dot nor two.
pub proof fn law_prefix(prefix: Seq<char>)
    ensures
        valid_prefix(prefix) <==> {
            &&& forall|i: int| 0 <= i < prefix.len() ==> prefix[i] != '\\'
            &&& forall|i: int|
                0 <= i < split(prefix, '/').len() ==> (#[trigger] split(prefix, '/')[i]).len() > 0
                    && split(prefix, '/')[i] != seq!['.'] && split(prefix, '/')[i] != seq!['.', '.']
        },
{
    reveal_strlit(".");
    reveal_strlit("..");
    assert("."@ =~= seq!['.']);
    assert(".."@ =~= seq!['.', '.']);
    if valid_prefix(prefix) {
        assert forall|i: int| 0 <= i < split(prefix, '/').len() implies (#[trigger] split(
            prefix,
            '/',
        )[i]).len() > 0 && split(prefix, '/')[i] != seq!['.'] && split(prefix, '/')[i] != seq![
            '.',
            '.',
        ] by {
            assert(is_name(split(prefix, '/')[i]));
        }
    }
}

/// What is wrong with a policy, the first that applies: its prefix cannot be used, its
/// files could be of any age, its directory does not exist, or that directory lies within
/// the one of an earlier policy or the other way round.
pub proof fn law_policy_problem(policies: Seq<ArchivePolicy>, roots: Seq<Option<String>>, i: int)
    requires
        policies.len() == roots.len(),
        0 <= i < policies.len(),
    ensures
        policy_problem(policies, roots, i) == Some(PolicyProblem::Prefix) <==> !valid_prefix(
            policies[i].prefix@,
        ),
        policy_problem(policies, roots, i) == Some(PolicyProblem::Age) <==> valid_prefix(
            policies[i].prefix@,
        ) && policies[i].older_than_days == 0,
        policy_problem(policies, roots, i) == Some(PolicyProblem::MissingRoot) <==> valid_prefix(
            policies[i].prefix@,
        ) && policies[i].older_than_days > 0 && roots[i] is None,
        policy_problem(policies, roots, i) is None <==> {
            &&& valid_prefix(policies[i].prefix@)
            &&& policies[i].older_than_days > 0
            &&& roots[i] is Some
            &&& forall|j: int|
                0 <= j < i && (#[trigger] roots[j]) is Some ==> !path_within(
                    roots[j]->0@,
                    roots[i]->0@,
                ) && !path_within(roots[i]->0@, roots[j]->0@)
        },
{
    if policy_problem(policies, roots, i) is None {
        assert forall|j: int| 0 <= j < i && (#[trigger] roots[j]) is Some implies !path_within(
            roots[j]->0@,
            roots[i]->0@,
        ) && !path_within(roots[i]->0@, roots[j]->0@) by {
            let root = roots[i]->0;
            assert(!(roots[j] matches Some(other) && overlap(other@, root@)));
        }
    }
}

proof fn lemma_zero_padded(n: nat, width: int)
    requires
        0 < width,
        decimal_text(n).len() <= width,
    ensures
        zero_padded(n, width).len() == width,
        number_of(zero_padded(n, width)) == n,
        forall|i: int| 0 <= i < width ==> '0' <= #[trigger] zero_padded(n, width)[i] <= '9',
{
    let text = decimal_text(n);
    let k = width - text.len();
    law_decimal(n);
    lemma_leading_zeros(k, text);
    assert forall|i: int| 0 <= i < width implies '0' <= #[trigger] zero_padded(n, width)[i]
        <= '9' by {
        if i >= k {
            assert(zero_padded(n, width)[i] == text[i - k]);
        }
    }
}

proof fn lemma_leading_zeros(k: int, text: Seq<char>)
    requires
        0 <= k,
    ensures
        number_of(zeros(k) + text) == number_of(text),
    decreases text.len(), k,
{
    let all = zeros(k) + text;
    if text.len() > 0 {
        assert(all.drop_last() =~= zeros(k) + text.drop_last());
        assert(all.last() == text.last());
        lemma_leading_zeros(k, text.drop_last());
    } else if k > 0 {
        assert(all.drop_last() =~= zeros(k - 1) + text);
        assert(all.last() == '0');
        lemma_leading_zeros(k - 1, text);
    } else {
        assert(all =~= text);
    }
}

/// A date is written with four digits for its year, two for its month and two for its day,
/// in this order and with slashes between them.
pub proof fn law_date_text(date: Date)
    requires
        date.valid(),
        has_short_year(date),
    ensures
        date_text(date).len() == 10,
        number_of(date_text(date).subrange(0, 4)) == date.year,
        date_text(date)[4] == '/',
        number_of(date_text(date).subrange(5, 7)) == date.month,
        date_text(date)[7] == '/',
        number_of(date_text(date).subrange(8, 10)) == date.day,
        forall|i: int|
            0 <= i < 10 && i != 4 && i != 7 ==> '0' <= #[trigger] date_text(date)[i] <= '9',
{
    reveal_strlit("/");
    reveal_with_fuel(decimal_text, 4);
    lemma_zero_padded(date.year as nat, 4);
    lemma_zero_padded(date.month as nat, 2);
    lemma_zero_padded(date.day as nat, 2);
    let text = date_text(date);
    let year = zero_padded(date.year as nat, 4);
    let month = zero_padded(date.month as nat, 2);
    let day = zero_padded(date.day as nat, 2);
    assert(text.subrange(0, 4) =~= year);
    assert(text.subrange(5, 7) =~= month);
    assert(text.subrange(8, 10) =~= day);
    assert forall|i: int| 0 <= i < 10 && i != 4 && i != 7 implies '0' <= #[trigger] text[i]
        <= '9' by {
        if i < 4 {
            assert(text[i] == year[i]);
        } else if i < 7 {
            assert(text[i] == month[i - 5]);
        } else {
            assert(text[i] == day[i - 8]);
        }
    }
}

/// A file keeps its path within the directory of its policy: its key is the prefix and that
/// path, with the date of its last change between them where the policy asks for it.
pub proof fn law_key_keeps_path(
    policy: ArchivePolicy,
    root: Seq<char>,
    relative: Seq<char>,
    file: ColdFileView,
)
    requires
        root.len() > 0 && root.last() != '/',
        relative.len() > 0 && relative[0] != '/',
        !dot_first(relative),
        piece_counts(relative, piece_start(relative), relative.len() as int),
        file.path == root + seq!['/'] + relative,
    ensures
        !policy.partition_by_date ==> key_of(policy, root, file) == Some(
            policy.prefix@ + seq!['/'] + relative,
        ),
        policy.partition_by_date && file.modified.has_date() && 0 <= utc_date_of(
            file.modified,
        ).year <= 9999 ==> key_of(policy, root, file) == Some(
            policy.prefix@ + seq!['/'] + date_text(utc_date_of(file.modified)) + seq!['/']
                + relative,
        ),
{
    reveal_strlit("/");
    assert("/"@ =~= seq!['/']);
    assert(root.push('/') + relative =~= file.path);
    assert(joined(root, relative) == file.path);
    law_display_joined(root, relative);
    lemma_joined_within(root, relative);
    let rest = relative_to(file.path, root)->0;
    let shown = seq!['~', '/'] + rest;
    assert(shown == seq!['~', '/'] + relative);
    assert(shown.skip(2) =~= rest);
    assert((seq!['~', '/'] + relative).skip(2) =~= relative);
}

/// A file that does not lie beneath the directory of its policy has no key, and neither has
/// that directory itself. Where the date is asked for, a file whose date has no year of four
/// digits has none either.
pub proof fn law_no_key(policy: ArchivePolicy, root: Seq<char>, file: ColdFileView)
    requires
        ({
            ||| !path_within(file.path, root)
            ||| components(file.path) == components(root)
            ||| policy.partition_by_date && !file.modified.has_date()
            ||| policy.partition_by_date && utc_date_of(file.modified).year > 9999
            ||| policy.partition_by_date && utc_date_of(file.modified).year < 0
        }),
    ensures
        key_of(policy, root, file) is None,
{
}

/// What is said of a policy that cannot be followed.
pub proof fn law_problem_texts()
    ensures
        PolicyProblem::Prefix.text() == "archive prefix must be a relative path of plain names"@,
        PolicyProblem::Age.text() == "older_than_days must be greater than zero"@,
        PolicyProblem::MissingRoot.text() == "archive root does not exist"@,
        PolicyProblem::OverlappingRoots.text() == "archive roots must not overlap"@,
{
}

/// An entry gives one file at most.
pub proof fn law_picked_once(
    entry: ArchiveEntry,
    days: u64,
    excludes: Seq<Seq<char>>,
    now: Timestamp,
)
    ensures
        cold_files(seq![entry], days, excludes, now).len() <= 1,
        cold_files(Seq::empty(), days, excludes, now).len() == 0,
{
    let read = |entry: ArchiveEntry| cold_file(entry, days, excludes, now);
    let one = seq![entry];
    assert(one.drop_last() =~= Seq::empty());
    assert(one.drop_last().filter_map(read).len() == 0);
    assert(cold_files(one, days, excludes, now) == one.filter_map(read));
}

} // verus!
