//! The tables that a scan is shown in.

use crate::outside::{byte_size_display, byte_size_text, local_now};
use crate::path::{display_path, displayed, joined, law_display_joined, lemma_piece_start};
use crate::scan::{LargeFile, LargeFileView, ScanResults};
use crate::target::{categories_of, Category};
use crate::text::{
    concat2, concat3, decimal, decimal_text, pad_left, pad_right, padded_left, padded_right, texts,
};
use crate::time::{time_ago, time_ago_text, Timestamp};
use vstd::prelude::*;
use vstd::utf8::{
    decode_utf8, encode_utf8, encode_utf8_valid_utf8, is_ascii_chars, is_ascii_chars_encode_utf8,
    is_char_boundary, is_char_boundary_iff_not_is_continuation_byte,
};

verus! {

/// The width of a location, in bytes.
pub const LOCATION_WIDTH: usize = 32;

/// How much of a longer location is shown.
pub const LOCATION_SHOWN: usize = 29;

/// The width of a file, in bytes.
pub const FILE_WIDTH: usize = 52;

/// How much of a longer file is shown.
pub const FILE_SHOWN: usize = 49;

/// The location fits, or it can be cut: no character stretches across the place
/// where it is.
pub open spec fn can_show_location(location: Seq<char>) -> bool {
    encode_utf8(location).len() > LOCATION_WIDTH ==> is_char_boundary(
        encode_utf8(location),
        LOCATION_SHOWN as int,
    )
}

/// A location as it is shown: what is too long is cut at the end.
pub open spec fn shown_location(location: Seq<char>) -> Seq<char> {
    let bytes = encode_utf8(location);
    if bytes.len() > LOCATION_WIDTH {
        decode_utf8(bytes.take(LOCATION_SHOWN as int)) + "..."@
    } else {
        location
    }
}

/// The file fits, or it can be cut.
pub open spec fn can_show_file(file: Seq<char>) -> bool {
    encode_utf8(file).len() > FILE_WIDTH ==> is_char_boundary(
        encode_utf8(file),
        encode_utf8(file).len() - FILE_SHOWN,
    )
}

/// A file as it is shown: what is too long is cut at the start.
pub open spec fn shown_file(file: Seq<char>) -> Seq<char> {
    let bytes = encode_utf8(file);
    if bytes.len() > FILE_WIDTH {
        "..."@ + decode_utf8(bytes.skip(bytes.len() - FILE_SHOWN))
    } else {
        file
    }
}

/// Three columns, the first two filled up on the right.
pub open spec fn table_row(name: Seq<char>, location: Seq<char>, size: Seq<char>) -> Seq<char> {
    padded_right(name, 24) + " "@ + padded_right(shown_location(location), 32) + " "@
        + padded_left(size, 14)
}

/// Three columns, the first filled up on the right and the others on the left.
pub open spec fn large_file_row(file: Seq<char>, size: Seq<char>, access: Seq<char>) -> Seq<char> {
    padded_right(shown_file(file), 52) + " "@ + padded_left(size, 14) + " "@ + padded_left(
        access,
        14,
    )
}

/// The row for a size that is shown as `size`.
pub fn format_table_row(name: &str, location: &str, size: &str) -> (r: String)
    requires
        can_show_location(location@),
    ensures
        r@ == table_row(name@, location@, size@),
{
    broadcast use vstd::utf8::encode_utf8_decode_utf8;

    let length: usize = location.as_bytes().len();
    let shown: String = if length > LOCATION_WIDTH {
        let (head, _) = location.split_at(LOCATION_SHOWN);
        assert(decode_utf8(encode_utf8(head@)) == head@);
        assert(encode_utf8(location@).subrange(0, LOCATION_SHOWN as int) =~= encode_utf8(
            location@,
        ).take(LOCATION_SHOWN as int));
        concat2(head, "...")
    } else {
        location.to_owned()
    };
    let mut row = pad_right(name, 24);
    row.append(" ");
    row.append(pad_right(shown.as_str(), 32).as_str());
    row.append(" ");
    row.append(pad_left(size, 14).as_str());
    row
}

/// The row for a size.
pub fn print_table_row(name: &str, location: &str, size: u64) -> (r: String)
    requires
        can_show_location(location@),
    ensures
        r@ == table_row(name@, location@, byte_size_display(size)),
{
    let text = byte_size_text(size);
    format_table_row(name, location, text.as_str())
}

/// A line of the table of disk usage.
#[derive(Debug)]
pub struct UsageEntry {
    pub name: &'static str,
    pub location: String,
    pub size: u64,
}

/// What a line stands for.
pub struct UsageView {
    pub name: Seq<char>,
    pub location: Seq<char>,
    pub size: u64,
}

impl View for UsageEntry {
    type V = UsageView;

    open spec fn view(&self) -> UsageView {
        UsageView { name: self.name@, location: self.location@, size: self.size }
    }
}

/// What a list of lines stands for.
pub open spec fn usage_views(entries: Seq<UsageEntry>) -> Seq<UsageView> {
    entries.map_values(|entry: UsageEntry| entry@)
}

/// The lines for the categories.
pub open spec fn category_entries(results: ScanResults, home: Seq<char>) -> Seq<UsageView> {
    results.category_sizes@.map_values(
        |sized: (Category, u64)|
            UsageView {
                name: sized.0.name@,
                location: displayed(sized.0.path@, home),
                size: sized.1,
            },
    )
}

/// The line for a number of directories, unless they hold nothing.
pub open spec fn directory_entries(name: Seq<char>, count: nat, total: u64) -> Seq<UsageView> {
    if total > 0 {
        seq![
            UsageView { name, location: decimal_text(count) + " directories"@, size: total },
        ]
    } else {
        Seq::empty()
    }
}

/// The line for Docker, if it is there and something can be freed.
pub open spec fn docker_entries(results: ScanResults) -> Seq<UsageView> {
    if results.docker.available && results.docker.sum() > 0 {
        seq![
            UsageView {
                name: "Docker"@,
                location: "images, containers, volumes"@,
                size: results.docker.sum() as u64,
            },
        ]
    } else {
        Seq::empty()
    }
}

/// The lines of the table of disk usage.
pub open spec fn usage_of(results: ScanResults, home: Seq<char>) -> Seq<UsageView> {
    category_entries(results, home) + directory_entries(
        "node_modules"@,
        results.node_modules@.len(),
        results.node_modules_total,
    ) + directory_entries("Python venvs"@, results.venvs@.len(), results.venvs_total)
        + directory_entries("__pycache__"@, results.pycaches@.len(), results.pycache_total)
        + docker_entries(results)
}

/// The sizes of the lines added up.
pub open spec fn usage_total(entries: Seq<UsageView>) -> nat
    decreases entries.len(),
{
    if entries.len() == 0 {
        0
    } else {
        usage_total(entries.drop_last()) + entries.last().size as nat
    }
}

/// Every category can be shown.
pub open spec fn can_show_categories(results: ScanResults, home: Seq<char>) -> bool {
    forall|i: int|
        0 <= i < results.category_sizes@.len() ==> can_show_location(
            displayed((#[trigger] results.category_sizes@[i]).0.path@, home),
        )
}

/// Appends the line for a number of directories, unless they hold nothing.
fn push_directories(entries: &mut Vec<UsageEntry>, name: &'static str, count: usize, total: u64)
    ensures
        usage_views(final(entries)@) == usage_views(old(entries)@) + directory_entries(
            name@,
            count as nat,
            total,
        ),
{
    let ghost before = entries@;
    if total > 0 {
        let number = decimal(count as u64);
        let entry = UsageEntry {
            name,
            location: concat2(number.as_str(), " directories"),
            size: total,
        };
        entries.push(entry);
        assert(usage_views(entries@) =~= usage_views(before) + seq![entry@]);
    } else {
        assert(usage_views(entries@) =~= usage_views(before) + Seq::empty());
    }
}

/// The lines of the table of disk usage: the categories, the directories of each
/// kind and Docker, without those that hold nothing.
pub fn usage_entries(results: &ScanResults, home: &str) -> (r: Vec<UsageEntry>)
    requires
        results.docker.available ==> results.docker.sum() <= u64::MAX,
    ensures
        usage_views(r@) == usage_of(*results, home@),
{
    let mut entries: Vec<UsageEntry> = Vec::new();
    let ghost wanted = category_entries(*results, home@);
    for i in 0..results.category_sizes.len()
        invariant
            wanted == category_entries(*results, home@),
            entries@.len() == i,
            forall|j: int| 0 <= j < i ==> (#[trigger] entries@[j])@ == wanted[j],
    {
        let (category, bytes) = &results.category_sizes[i];
        let entry = UsageEntry {
            name: category.name,
            location: display_path(category.path.as_str(), home),
            size: *bytes,
        };
        assert(entry@ == wanted[i as int]);
        entries.push(entry);
    }
    assert(usage_views(entries@) =~= wanted);
    push_directories(
        &mut entries,
        "node_modules",
        results.node_modules.len(),
        results.node_modules_total,
    );
    push_directories(&mut entries, "Python venvs", results.venvs.len(), results.venvs_total);
    push_directories(&mut entries, "__pycache__", results.pycaches.len(), results.pycache_total);
    let ghost before = entries@;
    if results.docker.available && results.docker.total() > 0 {
        let entry = UsageEntry {
            name: "Docker",
            location: "images, containers, volumes".to_owned(),
            size: results.docker.total(),
        };
        entries.push(entry);
        assert(usage_views(entries@) =~= usage_views(before) + seq![entry@]);
    } else {
        assert(usage_views(entries@) =~= usage_views(before) + Seq::empty());
    }
    entries
}

/// Ten times itself, `k` times.
spec fn ten_to(k: nat) -> nat
    decreases k,
{
    if k == 0 {
        1
    } else {
        10 * ten_to((k - 1) as nat)
    }
}

proof fn lemma_decimal_ascii(n: nat)
    ensures
        is_ascii_chars(decimal_text(n)),
    decreases n,
{
    if n >= 10 {
        lemma_decimal_ascii(n / 10);
    }
}

proof fn lemma_decimal_length(n: nat, k: nat)
    requires
        k > 0,
        n < ten_to(k),
    ensures
        decimal_text(n).len() <= k,
    decreases k,
{
    if n >= 10 {
        assert(ten_to(k) == 10 * ten_to((k - 1) as nat));
        assert(k > 1) by {
            reveal_with_fuel(ten_to, 2);
        }
        lemma_decimal_length(n / 10, (k - 1) as nat);
    }
}

/// A number of directories always fits.
proof fn lemma_directories_fit(count: u64)
    ensures
        can_show_location(decimal_text(count as nat) + " directories"@),
{
    let text = decimal_text(count as nat) + " directories"@;
    reveal_strlit(" directories");
    lemma_decimal_ascii(count as nat);
    assert(count < ten_to(20)) by {
        reveal_with_fuel(ten_to, 21);
    }
    lemma_decimal_length(count as nat, 20);
    is_ascii_chars_encode_utf8(text);
}

/// What Docker is shown with fits.
proof fn lemma_docker_fits()
    ensures
        can_show_location("images, containers, volumes"@),
{
    reveal_strlit("images, containers, volumes");
    is_ascii_chars_encode_utf8("images, containers, volumes"@);
}

/// The rows of the table of disk usage, and the one below them.
#[derive(Debug)]
pub struct UsageTable {
    pub rows: Vec<String>,
    pub total: String,
}

/// The rows for the lines of a table.
pub open spec fn usage_rows(entries: Seq<UsageView>) -> Seq<Seq<char>> {
    entries.map_values(
        |entry: UsageView| table_row(entry.name, entry.location, byte_size_display(entry.size)),
    )
}

proof fn lemma_usage_monotone(entries: Seq<UsageView>, n: int)
    requires
        0 <= n <= entries.len(),
    ensures
        usage_total(entries.take(n)) <= usage_total(entries),
    decreases entries.len(),
{
    if n == entries.len() {
        assert(entries.take(n) =~= entries);
    } else {
        let front = entries.drop_last();
        assert(front.take(n) =~= entries.take(n));
        lemma_usage_monotone(front, n);
    }
}

/// Every line can be shown if every category can.
proof fn lemma_usage_shown(results: ScanResults, home: Seq<char>, i: int)
    requires
        can_show_categories(results, home),
        results.node_modules@.len() <= u64::MAX,
        results.venvs@.len() <= u64::MAX,
        results.pycaches@.len() <= u64::MAX,
        0 <= i < usage_of(results, home).len(),
    ensures
        can_show_location(usage_of(results, home)[i].location),
{
    lemma_directories_fit(results.node_modules@.len() as u64);
    lemma_directories_fit(results.venvs@.len() as u64);
    lemma_directories_fit(results.pycaches@.len() as u64);
    lemma_docker_fits();
    let n = results.category_sizes@.len();
    if i < n {
        assert(can_show_location(displayed(results.category_sizes@[i].0.path@, home)));
    }
}

/// The table of disk usage. Its last row holds what the others add up to.
pub fn print_usage_table(results: &ScanResults, home: &str) -> (r: UsageTable)
    requires
        results.docker.available ==> results.docker.sum() <= u64::MAX,
        usage_total(usage_of(*results, home@)) <= u64::MAX,
        can_show_categories(*results, home@),
    ensures
        texts(r.rows@) == usage_rows(usage_of(*results, home@)),
        r.total@ == table_row(
            "TOTAL"@,
            ""@,
            byte_size_display(usage_total(usage_of(*results, home@)) as u64),
        ),
{
    let entries = usage_entries(results, home);
    let ghost all = usage_of(*results, home@);
    let mut rows: Vec<String> = Vec::new();
    let mut total: u64 = 0;
    assert(all.len() == entries@.len());
    assert(results.node_modules.len() == results.node_modules@.len());
    assert(results.venvs.len() == results.venvs@.len());
    assert(results.pycaches.len() == results.pycaches@.len());
    for i in 0..entries.len()
        invariant
            all == usage_of(*results, home@),
            all == usage_views(entries@),
            can_show_categories(*results, home@),
            results.node_modules@.len() <= u64::MAX,
            results.venvs@.len() <= u64::MAX,
            results.pycaches@.len() <= u64::MAX,
            usage_total(all) <= u64::MAX,
            total == usage_total(all.take(i as int)),
            rows@.len() == i,
            forall|j: int| 0 <= j < i ==> (#[trigger] rows@[j])@ == usage_rows(all)[j],
    {
        proof {
            assert(entries@[i as int]@ == all[i as int]);
            lemma_usage_shown(*results, home@, i as int);
            assert(all.take(i + 1).drop_last() =~= all.take(i as int));
            lemma_usage_monotone(all, i + 1);
        }
        let entry = &entries[i];
        rows.push(print_table_row(entry.name, entry.location.as_str(), entry.size));
        total = total + entry.size;
    }
    assert(all.take(entries@.len() as int) =~= all);
    assert(texts(rows@) =~= usage_rows(all));
    proof {
        reveal_strlit("");
        is_ascii_chars_encode_utf8(""@);
    }
    UsageTable { rows, total: print_table_row("TOTAL", "", total) }
}

/// The large files that are shown, under a heading.
#[derive(Debug)]
pub struct LargeFileTable {
    pub heading: String,
    pub rows: Vec<String>,
}

/// The heading above large files.
pub open spec fn large_heading(megabytes: u64) -> Seq<char> {
    "Large Files (>"@ + decimal_text(megabytes as nat) + "MB)"@
}

/// The row for a file whose size and last access are shown as `size` and `access`.
pub fn format_large_file(file: &str, size: &str, access: &str) -> (r: String)
    requires
        can_show_file(file@),
    ensures
        r@ == large_file_row(file@, size@, access@),
{
    broadcast use vstd::utf8::encode_utf8_decode_utf8;

    let length: usize = file.as_bytes().len();
    let shown: String = if length > FILE_WIDTH {
        let (_, tail) = file.split_at(length - FILE_SHOWN);
        assert(decode_utf8(encode_utf8(tail@)) == tail@);
        assert(encode_utf8(tail@) =~= encode_utf8(file@).skip(length - FILE_SHOWN));
        concat2("...", tail)
    } else {
        file.to_owned()
    };
    let mut row = pad_right(shown.as_str(), 52);
    row.append(" ");
    row.append(pad_left(size, 14).as_str());
    row.append(" ");
    row.append(pad_left(access, 14).as_str());
    row
}

/// The row for a file, with how long before `now` it was accessed.
pub fn large_file_line(file: &LargeFile, home: &str, now: Timestamp) -> (r: String)
    requires
        now.has_date(),
        file.accessed matches Some(time) ==> time.has_date(),
        can_show_file(displayed(file.path@, home@)),
    ensures
        r@ == large_file_row(
            displayed(file.path@, home@),
            byte_size_display(file.size),
            time_ago_text(file.accessed, now),
        ),
{
    let shown = display_path(file.path.as_str(), home);
    let size = byte_size_text(file.size);
    let access = time_ago(file.accessed, now);
    format_large_file(shown.as_str(), size.as_str(), access.as_str())
}

/// `row` shows the file, at some point in time that is not before the Unix epoch.
pub open spec fn shows_file(row: Seq<char>, file: LargeFileView, home: Seq<char>) -> bool {
    exists|now: Timestamp|
        now.has_date() && now.secs >= 0 && row == large_file_row(
            displayed(file.path, home),
            byte_size_display(file.size),
            #[trigger] time_ago_text(file.accessed, now),
        )
}

/// Every file can be shown.
pub open spec fn can_show_files(files: Seq<LargeFile>, home: Seq<char>) -> bool {
    forall|i: int| #![trigger files[i]]
        0 <= i < files.len() ==> can_show_file(displayed(files[i].path@, home)) && (
        files[i].accessed matches Some(time) ==> time.has_date())
}

/// The table of large files; there is none where there are no large files. How
/// long ago a file was accessed is counted up to now.
pub fn print_large_files(files: &[LargeFile], threshold_mb: u64, home: &str) -> (r: Option<
    LargeFileTable,
>)
    requires
        can_show_files(files@, home@),
    ensures
        r is None == (files@.len() == 0),
        r matches Some(table) ==> {
            &&& table.heading@ == large_heading(threshold_mb)
            &&& table.rows@.len() == files@.len()
            &&& forall|i: int|
                0 <= i < files@.len() ==> shows_file(
                    (#[trigger] table.rows@[i])@,
                    files@[i]@,
                    home@,
                )
        },
{
    if files.len() == 0 {
        return None;
    }
    let mut rows: Vec<String> = Vec::new();
    for i in 0..files.len()
        invariant
            can_show_files(files@, home@),
            rows@.len() == i,
            forall|j: int|
                0 <= j < i ==> shows_file((#[trigger] rows@[j])@, files@[j]@, home@),
    {
        let file = &files[i];
        assert(files@[i as int] == *file);
        let now = local_now();
        let row = large_file_line(file, home, now);
        assert(shows_file(row@, file@, home@));
        rows.push(row);
    }
    let number = decimal(threshold_mb);
    Some(LargeFileTable { heading: concat3("Large Files (>", number.as_str(), "MB)"), rows })
}

/// What lies in the home directory is shown behind `~/`, and can be.
proof fn lemma_location_shown(home: Seq<char>, rel: Seq<char>)
    requires
        is_ascii_chars(rel),
        rel.len() > 1,
        rel[0] != '/',
        rel[1] != '/',
        rel.last() != '/',
        rel.last() != '.',
    ensures
        displayed(joined(home, rel), home) == seq!['~', '/'] + rel,
        can_show_location(seq!['~', '/'] + rel),
{
    lemma_piece_start(rel);
    law_display_joined(home, rel);
    let text = seq!['~', '/'] + rel;
    is_ascii_chars_encode_utf8(text);
    let bytes = encode_utf8(text);
    encode_utf8_valid_utf8(text);
    if bytes.len() > LOCATION_WIDTH {
        is_char_boundary_iff_not_is_continuation_byte(bytes, LOCATION_SHOWN as int);
        let byte = bytes[LOCATION_SHOWN as int];
        assert(byte == text[LOCATION_SHOWN as int] as u8);
        assert(byte < 128);
    }
}

/// Each category is shown by where it lies in the home directory, and the table of
/// disk usage can show them all.
pub proof fn law_category_locations(home: Seq<char>, i: int)
    requires
        0 <= i < categories_of(home).len(),
    ensures
        exists|rel: Seq<char>|
            categories_of(home)[i].path == #[trigger] joined(home, rel) && displayed(
                categories_of(home)[i].path,
                home,
            ) == seq!['~', '/'] + rel,
        can_show_location(displayed(categories_of(home)[i].path, home)),
{
    reveal_strlit("Library/Caches");
    reveal_strlit("Library/Logs");
    reveal_strlit(".Trash");
    reveal_strlit("Library/Developer/Xcode/DerivedData");
    reveal_strlit("Library/Developer/Xcode/Archives");
    reveal_strlit("Library/Developer/CoreSimulator/Devices");
    reveal_strlit(".npm");
    reveal_strlit(".yarn");
    reveal_strlit("Library/pnpm");
    reveal_strlit(".cache/pip");
    reveal_strlit(".cache/uv");
    reveal_strlit("Library/Caches/Homebrew");
    reveal_strlit(".gradle/caches");
    reveal_strlit(".m2/repository");
    reveal_strlit("Library/Caches/CocoaPods");
    reveal_strlit(".cargo/registry");
    lemma_location_shown(home, "Library/Caches"@);
    lemma_location_shown(home, "Library/Logs"@);
    lemma_location_shown(home, ".Trash"@);
    lemma_location_shown(home, "Library/Developer/Xcode/DerivedData"@);
    lemma_location_shown(home, "Library/Developer/Xcode/Archives"@);
    lemma_location_shown(home, "Library/Developer/CoreSimulator/Devices"@);
    lemma_location_shown(home, ".npm"@);
    lemma_location_shown(home, ".yarn"@);
    lemma_location_shown(home, "Library/pnpm"@);
    lemma_location_shown(home, ".cache/pip"@);
    lemma_location_shown(home, ".cache/uv"@);
    lemma_location_shown(home, "Library/Caches/Homebrew"@);
    lemma_location_shown(home, ".gradle/caches"@);
    lemma_location_shown(home, ".m2/repository"@);
    lemma_location_shown(home, "Library/Caches/CocoaPods"@);
    lemma_location_shown(home, ".cargo/registry"@);
}

/// The sizes of the categories added up.
pub open spec fn sum_of_categories(sized: Seq<(Category, u64)>) -> nat
    decreases sized.len(),
{
    if sized.len() == 0 {
        0
    } else {
        sum_of_categories(sized.drop_last()) + sized.last().1 as nat
    }
}

proof fn lemma_usage_total_add(a: Seq<UsageView>, b: Seq<UsageView>)
    ensures
        usage_total(a + b) == usage_total(a) + usage_total(b),
    decreases b.len(),
{
    if b.len() == 0 {
        assert(a + b =~= a);
    } else {
        assert((a + b).drop_last() =~= a + b.drop_last());
        lemma_usage_total_add(a, b.drop_last());
    }
}

proof fn lemma_usage_total_short(entries: Seq<UsageView>)
    requires
        entries.len() <= 1,
    ensures
        usage_total(entries) == if entries.len() == 1 {
            entries[0].size as nat
        } else {
            0
        },
{
    if entries.len() == 1 {
        assert(entries.drop_last().len() == 0);
        assert(usage_total(entries.drop_last()) == 0);
    }
}

proof fn lemma_categories_total(results: ScanResults, home: Seq<char>, n: int)
    requires
        0 <= n <= results.category_sizes@.len(),
    ensures
        usage_total(category_entries(results, home).take(n)) == sum_of_categories(
            results.category_sizes@.take(n),
        ),
    decreases n,
{
    let entries = category_entries(results, home);
    let sized = results.category_sizes@;
    if n > 0 {
        lemma_categories_total(results, home, n - 1);
        assert(entries.take(n).drop_last() =~= entries.take(n - 1));
        assert(sized.take(n).drop_last() =~= sized.take(n - 1));
        assert(entries.take(n).last().size == sized.take(n).last().1);
    }
}

/// The total of the table of disk usage is everything that the scan found: the sizes of
/// all categories, of the directories of each kind and, where Docker is there, of its
/// images, containers, volumes and build caches.
pub proof fn law_usage_total(results: ScanResults, home: Seq<char>)
    requires
        results.docker.available ==> results.docker.images + results.docker.containers
            + results.docker.volumes + results.docker.build_cache <= u64::MAX,
    ensures
        usage_total(usage_of(results, home)) == sum_of_categories(results.category_sizes@)
            + results.node_modules_total + results.venvs_total + results.pycache_total
            + if results.docker.available {
            results.docker.images + results.docker.containers + results.docker.volumes
                + results.docker.build_cache
        } else {
            0
        },
{
    let categories = category_entries(results, home);
    let sized = results.category_sizes@;
    let a = directory_entries(
        "node_modules"@,
        results.node_modules@.len(),
        results.node_modules_total,
    );
    let b = directory_entries("Python venvs"@, results.venvs@.len(), results.venvs_total);
    let c = directory_entries("__pycache__"@, results.pycaches@.len(), results.pycache_total);
    let d = docker_entries(results);
    lemma_categories_total(results, home, sized.len() as int);
    assert(categories.take(sized.len() as int) =~= categories);
    assert(sized.take(sized.len() as int) =~= sized);
    lemma_usage_total_add(categories, a);
    lemma_usage_total_add(categories + a, b);
    lemma_usage_total_add(categories + a + b, c);
    lemma_usage_total_add(categories + a + b + c, d);
    lemma_usage_total_short(a);
    lemma_usage_total_short(b);
    lemma_usage_total_short(c);
    lemma_usage_total_short(d);
}

/// The line number `i` has this name, this location and this size.
pub open spec fn line_is(
    entries: Seq<UsageView>,
    i: int,
    name: Seq<char>,
    location: Seq<char>,
    size: int,
) -> bool {
    0 <= i < entries.len() && entries[i].name == name && entries[i].location == location
        && entries[i].size == size
}

/// The lines of the table of disk usage, in order: one for each category with its name, its
/// place and its size; one for each kind of directory that holds something, with the number
/// of directories and what they add up to; and one for Docker, where it is there and
/// something can be freed. There are no others.
pub proof fn law_usage_lines(results: ScanResults, home: Seq<char>, j: int)
    requires
        results.docker.available ==> results.docker.images + results.docker.containers
            + results.docker.volumes + results.docker.build_cache <= u64::MAX,
    ensures
        ({
            let entries = usage_of(results, home);
            let docker = results.docker.images + results.docker.containers + results.docker.volumes
                + results.docker.build_cache;
            let a = results.category_sizes@.len() as int;
            let b = if results.node_modules_total > 0 { a + 1 } else { a };
            let c = if results.venvs_total > 0 { b + 1 } else { b };
            let d = if results.pycache_total > 0 { c + 1 } else { c };
            let e = if results.docker.available && docker > 0 { d + 1 } else { d };
            &&& entries.len() == e
            &&& 0 <= j < a ==> line_is(
                entries,
                j,
                results.category_sizes@[j].0.name@,
                displayed(results.category_sizes@[j].0.path@, home),
                results.category_sizes@[j].1 as int,
            )
            &&& results.node_modules_total > 0 ==> line_is(
                entries,
                a,
                "node_modules"@,
                decimal_text(results.node_modules@.len()) + " directories"@,
                results.node_modules_total as int,
            )
            &&& results.venvs_total > 0 ==> line_is(
                entries,
                b,
                "Python venvs"@,
                decimal_text(results.venvs@.len()) + " directories"@,
                results.venvs_total as int,
            )
            &&& results.pycache_total > 0 ==> line_is(
                entries,
                c,
                "__pycache__"@,
                decimal_text(results.pycaches@.len()) + " directories"@,
                results.pycache_total as int,
            )
            &&& results.docker.available && docker > 0 ==> line_is(
                entries,
                d,
                "Docker"@,
                "images, containers, volumes"@,
                docker,
            )
        }),
{
}

/// A row has three columns: the name on the left, then the location on the left, then the
/// size on the right, with a blank between them.
pub proof fn law_usage_row(entries: Seq<UsageView>, i: int)
    requires
        0 <= i < entries.len(),
    ensures
        usage_rows(entries).len() == entries.len(),
        usage_rows(entries)[i] == padded_right(entries[i].name, 24) + " "@ + padded_right(
            shown_location(entries[i].location),
            32,
        ) + " "@ + padded_left(byte_size_display(entries[i].size), 14),
{
}

/// A location of up to thirty-two bytes is shown as it is. Of a longer one the first
/// twenty-nine are, and dots in place of the rest.
pub proof fn law_shown_location(location: Seq<char>, head: Seq<char>, tail: Seq<char>)
    ensures
        encode_utf8(location).len() <= 32 ==> shown_location(location) == location,
        encode_utf8(location).len() > 32 && encode_utf8(location).take(29) == encode_utf8(head)
            ==> shown_location(location) == head + "..."@,
        encode_utf8(location).len() <= 52 ==> shown_file(location) == location,
        encode_utf8(location).len() > 52 && encode_utf8(location).skip(
            encode_utf8(location).len() - 49,
        ) == encode_utf8(tail) ==> shown_file(location) == "..."@ + tail,
{
    broadcast use vstd::utf8::encode_utf8_decode_utf8;

    assert(decode_utf8(encode_utf8(head)) == head);
    assert(decode_utf8(encode_utf8(tail)) == tail);
}

/// A large file has a row with three columns: the file on the left, then its size and how
/// long ago it was accessed on the right.
pub proof fn law_large_file_row(file: Seq<char>, size: Seq<char>, access: Seq<char>)
    ensures
        large_file_row(file, size, access) == padded_right(shown_file(file), 52) + " "@
            + padded_left(size, 14) + " "@ + padded_left(access, 14),
{
}

/// The heading above large files names the size from which on they are large.
pub proof fn law_large_heading(megabytes: u64)
    ensures
        large_heading(megabytes) == "Large Files (>"@ + decimal_text(megabytes as nat) + "MB)"@,
{
}

/// Whatever the clock says, a row shows the file and its size in its first two columns; and
/// the last column is a dash where it is not known when the file was accessed.
pub proof fn law_shown_file(row: Seq<char>, file: LargeFileView, home: Seq<char>)
    requires
        shows_file(row, file, home),
    ensures
        (padded_right(shown_file(displayed(file.path, home)), 52) + " "@ + padded_left(
            byte_size_display(file.size),
            14,
        ) + " "@).is_prefix_of(row),
        file.accessed is None ==> row == padded_right(
            shown_file(displayed(file.path, home)),
            52,
        ) + " "@ + padded_left(byte_size_display(file.size), 14) + " "@ + padded_left("-"@, 14),
        exists|now: Timestamp|
            now.has_date() && now.secs >= 0 && padded_left(
                #[trigger] time_ago_text(file.accessed, now),
                14,
            ).is_suffix_of(row),
{
    let head = padded_right(shown_file(displayed(file.path, home)), 52) + " "@ + padded_left(
        byte_size_display(file.size),
        14,
    ) + " "@;
    assert(row.take(head.len() as int) =~= head);
    let now = choose|now: Timestamp|
        now.has_date() && now.secs >= 0 && row == large_file_row(
            displayed(file.path, home),
            byte_size_display(file.size),
            #[trigger] time_ago_text(file.accessed, now),
        );
    let last = padded_left(time_ago_text(file.accessed, now), 14);
    assert(row.skip(row.len() - last.len()) =~= last);
}

} // verus!
