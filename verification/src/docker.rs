//! Docker: where it is reached, what its commands print, and what can be freed.

use crate::outside::{bytes_text, utf8_lossy};
use crate::path::{join_path, joined};
use crate::report::{CleanupReport, ReportView};
use crate::scan::{lemma_filter_map_add, lemma_filter_map_from};
use crate::target::strs;
use crate::text::{
    concat2, concat3, contains, ends_with, is_space, law_first_line, law_last_line, law_split_at,
    law_split_none, law_trimmed, law_trimmed_stays, lines, lines_of, occurs_in, opt_text, opt_view,
    split, split_on, split_whitespace, starts_with, str_eq, strip_prefix, strip_suffix, texts, trim,
    trimmed, words_of,
};
use vstd::prelude::*;

verus! {

/// How long `docker info` may take, in milliseconds.
pub const DOCKER_INFO_TIMEOUT_MILLIS: u64 = 750;

/// How long listing the disk usage may take, in milliseconds.
pub const DOCKER_SCAN_TIMEOUT_MILLIS: u64 = 2_000;

/// How long pruning may take, in milliseconds.
pub const DOCKER_PRUNE_TIMEOUT_MILLIS: u64 = 30_000;

/// How long to wait before looking again whether a command has ended, in
/// milliseconds.
pub const POLL_MILLIS: u64 = 50;

/// What to do with a command that runs.
#[derive(Clone, Copy, Debug, PartialEq, Eq, Structural)]
pub enum PollAction {
    /// It has ended: take its output.
    Collect,
    /// It took too long: end it.
    GiveUp,
    /// Look again after so many milliseconds.
    Sleep(u64),
}

/// What to do with a command, given whether it has ended and how many
/// nanoseconds it has run. A command that has ended is never given up.
pub fn poll_command(ended: bool, elapsed_nanos: u128, timeout_millis: u64) -> (r: PollAction)
    ensures
        r == if ended {
            PollAction::Collect
        } else if elapsed_nanos >= timeout_millis * 1_000_000 {
            PollAction::GiveUp
        } else {
            PollAction::Sleep(POLL_MILLIS)
        },
{
    if ended {
        PollAction::Collect
    } else if elapsed_nanos >= timeout_millis as u128 * 1_000_000 {
        PollAction::GiveUp
    } else {
        PollAction::Sleep(POLL_MILLIS)
    }
}

/// The arguments by which Docker is asked whether it is there.
pub fn docker_info_args() -> (r: Vec<&'static str>)
    ensures
        strs(r@) == seq!["info"@],
{
    let r: Vec<&'static str> = vec!["info"];
    assert(strs(r@) =~= seq!["info"@]);
    r
}

/// The arguments by which Docker is asked what can be freed, a line for each kind of
/// resource with its name and the size.
pub fn docker_listing_args() -> (r: Vec<&'static str>)
    ensures
        strs(r@) == seq![
            "system"@,
            "df"@,
            "--format"@,
            "{{.Type}}\t{{.Reclaimable}}"@,
        ],
{
    let r: Vec<&'static str> = vec!["system", "df", "--format", "{{.Type}}\t{{.Reclaimable}}"];
    assert(strs(r@) =~= seq![
        "system"@,
        "df"@,
        "--format"@,
        "{{.Type}}\t{{.Reclaimable}}"@,
    ]);
    r
}

/// What a command that has ended gave.
#[derive(Debug)]
pub struct CommandOutput {
    pub success: bool,
    pub stdout: Vec<u8>,
    pub stderr: Vec<u8>,
}

/// What can be freed, by kind of resource.
#[derive(Clone, Copy, Debug, PartialEq, Eq, Structural)]
pub struct DockerInfo {
    pub images: u64,
    pub containers: u64,
    pub volumes: u64,
    pub build_cache: u64,
    pub available: bool,
}

impl DockerInfo {
    /// Nothing is known: Docker is not there or does not answer.
    pub fn unavailable() -> (r: DockerInfo)
        ensures
            r == (DockerInfo {
                images: 0,
                containers: 0,
                volumes: 0,
                build_cache: 0,
                available: false,
            }),
    {
        DockerInfo { images: 0, containers: 0, volumes: 0, build_cache: 0, available: false }
    }

    /// All that can be freed.
    pub open spec fn sum(self) -> nat {
        (self.images + self.containers + self.volumes + self.build_cache) as nat
    }

    /// All that can be freed.
    pub fn total(&self) -> (r: u64)
        requires
            self.sum() <= u64::MAX,
        ensures
            r == self.sum(),
    {
        self.images + self.containers + self.volumes + self.build_cache
    }
}

/// `s` without `prefix`, as often as it starts with it.
pub open spec fn without_prefixes(s: Seq<char>, prefix: Seq<char>) -> Seq<char>
    decreases s.len(),
{
    if prefix.len() > 0 && prefix.is_prefix_of(s) {
        without_prefixes(s.skip(prefix.len() as int), prefix)
    } else {
        s
    }
}

/// The socket at which Docker is reached, if it is reached by one: the one that
/// the host names, or, where no host is named, the one in the home directory.
pub open spec fn docker_socket(host: Option<Seq<char>>, home: Seq<char>) -> Option<Seq<char>> {
    match host {
        Some(host) => if "unix://"@.is_prefix_of(host) {
            let path = without_prefixes(host, "unix://"@);
            if path.len() == 0 {
                None
            } else {
                Some(path)
            }
        } else {
            None
        },
        None => Some(joined(home, ".docker/run/docker.sock"@)),
    }
}

/// The socket at which Docker is reached, from the setting `DOCKER_HOST`.
pub fn docker_socket_path_from_host(docker_host: Option<&str>, home: &str) -> (r: Option<String>)
    ensures
        opt_text(r) == docker_socket(opt_view(docker_host), home@),
{
    match docker_host {
        Some(host) => {
            if !starts_with(host, "unix://") {
                return None;
            }
            proof {
                reveal_strlit("unix://");
            }
            let mut path = host.to_owned();
            loop
                invariant_except_break
                    without_prefixes(host@, "unix://"@) == without_prefixes(path@, "unix://"@),
                    "unix://"@.len() == 7,
                ensures
                    path@ == without_prefixes(host@, "unix://"@),
                decreases path@.len(),
            {
                match strip_prefix(path.as_str(), "unix://") {
                    Some(rest) => {
                        path = rest;
                    },
                    None => {
                        break;
                    },
                }
            }
            if path.as_str().is_empty() {
                None
            } else {
                Some(path)
            }
        },
        None => Some(join_path(home, ".docker/run/docker.sock")),
    }
}

/// Whether to call Docker at all: not if it is reached by a socket and there is
/// none at its path.
pub fn should_attempt_docker_cli(socket_path: Option<&str>, is_socket: bool) -> (r: bool)
    ensures
        r == (socket_path is None || is_socket),
{
    match socket_path {
        None => true,
        Some(_) => is_socket,
    }
}

/// Whether Docker is there, given whether it is to be called and whether it
/// answered, and with success.
pub fn is_docker_available(attempt: bool, info: Option<bool>) -> (r: bool)
    ensures
        r == (attempt && info == Some(true)),
{
    if !attempt {
        return false;
    }
    match info {
        Some(success) => success,
        None => false,
    }
}

/// A size as Docker prints it: the text of a number, to be multiplied.
#[derive(Debug)]
pub struct DockerSize {
    pub number: String,
    pub multiplier: u64,
}

/// What a printed size stands for.
pub struct DockerSizeView {
    pub number: Seq<char>,
    pub multiplier: nat,
}

impl View for DockerSize {
    type V = DockerSizeView;

    open spec fn view(&self) -> DockerSizeView {
        DockerSizeView { number: self.number@, multiplier: self.multiplier as nat }
    }
}

/// The view of an optional size.
pub open spec fn opt_size(s: Option<DockerSize>) -> Option<DockerSizeView> {
    match s {
        Some(s) => Some(s@),
        None => None,
    }
}

/// The number before the unit `unit`, to be multiplied by `multiplier`.
pub open spec fn number_before(
    s: Seq<char>,
    unit: Seq<char>,
    multiplier: nat,
) -> Option<DockerSizeView> {
    Some(
        DockerSizeView { number: trimmed(s.take(s.len() - unit.len())), multiplier },
    )
}

/// The size that `s` holds, read up to an opening bracket; `None` is nothing.
pub open spec fn docker_size(s: Seq<char>) -> Option<DockerSizeView> {
    let s = trimmed(split(s, '(')[0]);
    if s == "0B"@ || s.len() == 0 {
        None
    } else if "GB"@.is_suffix_of(s) {
        number_before(s, "GB"@, 1_000_000_000)
    } else if "MB"@.is_suffix_of(s) {
        number_before(s, "MB"@, 1_000_000)
    } else if "KB"@.is_suffix_of(s) {
        number_before(s, "KB"@, 1_000)
    } else if "kB"@.is_suffix_of(s) {
        number_before(s, "kB"@, 1_000)
    } else if "B"@.is_suffix_of(s) {
        number_before(s, "B"@, 1)
    } else {
        None
    }
}

/// A size whose number is still to be trimmed.
fn sized(number: String, multiplier: u64) -> (r: Option<DockerSize>)
    ensures
        opt_size(r) == Some(
            DockerSizeView { number: trimmed(number@), multiplier: multiplier as nat },
        ),
{
    Some(DockerSize { number: trim(number.as_str()), multiplier })
}

/// Reads a size as Docker prints it. A result of `None` is a size of zero; else
/// the size is the number, or zero where its text is none, times the multiplier.
pub fn parse_docker_size(s: &str) -> (r: Option<DockerSize>)
    ensures
        opt_size(r) == docker_size(s@),
{
    let pieces = split_on(s, '(');
    assert(texts(pieces@)[0] == pieces@[0]@);
    let t = trim(pieces[0].as_str());
    let s = t.as_str();
    if str_eq(s, "0B") || s.is_empty() {
        return None;
    }
    if let Some(number) = strip_suffix(s, "GB") {
        sized(number, 1_000_000_000)
    } else if let Some(number) = strip_suffix(s, "MB") {
        sized(number, 1_000_000)
    } else if let Some(number) = strip_suffix(s, "KB") {
        sized(number, 1_000)
    } else if let Some(number) = strip_suffix(s, "kB") {
        sized(number, 1_000)
    } else if let Some(number) = strip_suffix(s, "B") {
        sized(number, 1)
    } else {
        None
    }
}

/// The first text of `list` that satisfies `wanted`.
pub open spec fn first_such(
    list: Seq<Seq<char>>,
    wanted: spec_fn(Seq<char>) -> bool,
) -> Option<Seq<char>>
    decreases list.len(),
{
    if list.len() == 0 {
        None
    } else if wanted(list[0]) {
        Some(list[0])
    } else {
        first_such(list.drop_first(), wanted)
    }
}

/// The size that pruning reports: in the first line that speaks of what was
/// reclaimed or freed, the first word that ends with the unit of bytes.
pub open spec fn docker_reclaimed(output: Seq<char>) -> Option<DockerSizeView> {
    let line = first_such(
        lines_of(output),
        |line: Seq<char>| occurs_in("reclaimed"@, line) || occurs_in("freed"@, line),
    );
    match line {
        None => None,
        Some(line) => match first_such(
            words_of(line),
            |word: Seq<char>| "B"@.is_suffix_of(word),
        ) {
            None => None,
            Some(word) => docker_size(word),
        },
    }
}

proof fn lemma_first_such_skip(
    list: Seq<Seq<char>>,
    wanted: spec_fn(Seq<char>) -> bool,
    i: int,
)
    requires
        0 <= i < list.len(),
        forall|j: int| 0 <= j < i ==> !wanted(#[trigger] list[j]),
    ensures
        first_such(list, wanted) == first_such(list.skip(i), wanted),
    decreases i,
{
    if i == 0 {
        assert(list.skip(0) =~= list);
    } else {
        let rest = list.drop_first();
        assert(!wanted(list[0]));
        assert forall|j: int| 0 <= j < i - 1 implies !wanted(#[trigger] rest[j]) by {
            assert(rest[j] == list[j + 1]);
        }
        lemma_first_such_skip(rest, wanted, i - 1);
        assert(rest.skip(i - 1) =~= list.skip(i));
    }
}

proof fn lemma_first_such(list: Seq<Seq<char>>, wanted: spec_fn(Seq<char>) -> bool, i: int)
    requires
        0 <= i <= list.len(),
        forall|j: int| 0 <= j < i ==> !wanted(#[trigger] list[j]),
    ensures
        i < list.len() && wanted(list[i]) ==> first_such(list, wanted) == Some(list[i]),
        i == list.len() ==> first_such(list, wanted) is None,
{
    if i < list.len() {
        lemma_first_such_skip(list, wanted, i);
    } else if i > 0 {
        lemma_first_such_skip(list, wanted, i - 1);
        let rest = list.skip(i - 1);
        assert(rest[0] == list[i - 1]);
        assert(first_such(rest.drop_first(), wanted) is None);
    }
}

/// Reads what pruning printed. A result of `None` is a size of zero.
pub fn parse_docker_reclaimed(output: &str) -> (r: Option<DockerSize>)
    ensures
        opt_size(r) == docker_reclaimed(output@),
{
    let all = lines(output);
    let ghost list = texts(all@);
    let ghost wanted = |line: Seq<char>|
        occurs_in("reclaimed"@, line) || occurs_in("freed"@, line);
    let mut i: usize = 0;
    while i < all.len() && !(contains(all[i].as_str(), "reclaimed") || contains(
        all[i].as_str(),
        "freed",
    ))
        invariant
            i <= all@.len(),
            list == texts(all@),
            wanted == (|line: Seq<char>|
                occurs_in("reclaimed"@, line) || occurs_in("freed"@, line)),
            forall|j: int| 0 <= j < i ==> !wanted(#[trigger] list[j]),
        decreases all.len() - i,
    {
        assert(list[i as int] == all@[i as int]@);
        i += 1;
    }
    proof {
        lemma_first_such(list, wanted, i as int);
    }
    if i == all.len() {
        return None;
    }
    assert(list[i as int] == all@[i as int]@);
    let words = split_whitespace(all[i].as_str());
    let ghost parts = texts(words@);
    let ghost sized = |word: Seq<char>| "B"@.is_suffix_of(word);
    let mut k: usize = 0;
    while k < words.len() && !ends_with(words[k].as_str(), "B")
        invariant
            k <= words@.len(),
            parts == texts(words@),
            sized == (|word: Seq<char>| "B"@.is_suffix_of(word)),
            forall|j: int| 0 <= j < k ==> !sized(#[trigger] parts[j]),
        decreases words.len() - k,
    {
        assert(parts[k as int] == words@[k as int]@);
        k += 1;
    }
    proof {
        lemma_first_such(parts, sized, k as int);
    }
    if k == words.len() {
        return None;
    }
    assert(parts[k as int] == words@[k as int]@);
    parse_docker_size(words[k].as_str())
}

/// A kind of resource that Docker can free.
#[derive(Clone, Copy, Debug, PartialEq, Eq, Structural)]
pub enum DockerResource {
    Images,
    Containers,
    Volumes,
    BuildCache,
}

/// The kind of resource that Docker calls `name`.
pub open spec fn resource_named(name: Seq<char>) -> Option<DockerResource> {
    if name == "Images"@ {
        Some(DockerResource::Images)
    } else if name == "Containers"@ {
        Some(DockerResource::Containers)
    } else if name == "Local Volumes"@ {
        Some(DockerResource::Volumes)
    } else if name == "Build Cache"@ {
        Some(DockerResource::BuildCache)
    } else {
        None
    }
}

/// How much of a kind of resource can be freed.
#[derive(Debug)]
pub struct DockerRow {
    pub resource: DockerResource,
    pub size: Option<DockerSize>,
}

/// What a row stands for.
pub struct DockerRowView {
    pub resource: DockerResource,
    pub size: Option<DockerSizeView>,
}

impl View for DockerRow {
    type V = DockerRowView;

    open spec fn view(&self) -> DockerRowView {
        DockerRowView { resource: self.resource, size: opt_size(self.size) }
    }
}

/// What a list of rows stands for.
pub open spec fn row_views(rows: Seq<DockerRow>) -> Seq<DockerRowView> {
    rows.map_values(|row: DockerRow| row@)
}

/// The row that a line holds, if it holds one: the name of a known resource and
/// a size, parted by a tab.
pub open spec fn docker_row(line: Seq<char>) -> Option<DockerRowView> {
    let parts = split(line, '\t');
    if parts.len() >= 2 {
        match resource_named(parts[0]) {
            Some(resource) => Some(DockerRowView { resource, size: docker_size(parts[1]) }),
            None => None,
        }
    } else {
        None
    }
}

/// The rows that the lines hold.
pub open spec fn docker_rows(output: Seq<char>) -> Seq<DockerRowView> {
    lines_of(output).filter_map(|line: Seq<char>| docker_row(line))
}

/// The kind of resource that Docker calls `name`.
fn find_resource(name: &str) -> (r: Option<DockerResource>)
    ensures
        r == resource_named(name@),
{
    if str_eq(name, "Images") {
        Some(DockerResource::Images)
    } else if str_eq(name, "Containers") {
        Some(DockerResource::Containers)
    } else if str_eq(name, "Local Volumes") {
        Some(DockerResource::Volumes)
    } else if str_eq(name, "Build Cache") {
        Some(DockerResource::BuildCache)
    } else {
        None
    }
}

/// The view of an optional row.
spec fn opt_row(r: Option<DockerRow>) -> Option<DockerRowView> {
    match r {
        Some(row) => Some(row@),
        None => None,
    }
}

/// The row that a line holds, if it holds one.
fn parse_docker_row(line: &str) -> (r: Option<DockerRow>)
    ensures
        opt_row(r) == docker_row(line@),
{
    let parts = split_on(line, '\t');
    let ghost views = texts(parts@);
    assert(views.len() == parts@.len());
    if parts.len() < 2 {
        return None;
    }
    assert(views[0] == parts@[0]@);
    assert(views[1] == parts@[1]@);
    match find_resource(parts[0].as_str()) {
        Some(resource) => Some(
            DockerRow { resource, size: parse_docker_size(parts[1].as_str()) },
        ),
        None => None,
    }
}

/// Reads the listing of what can be freed.
pub fn parse_docker_rows(output: &str) -> (r: Vec<DockerRow>)
    ensures
        row_views(r@) == docker_rows(output@),
{
    let all = lines(output);
    let ghost list = texts(all@);
    let ghost read = |line: Seq<char>| docker_row(line);
    let mut out: Vec<DockerRow> = Vec::new();
    assert(row_views(out@) =~= list.take(0).filter_map(read));
    for i in 0..all.len()
        invariant
            list == texts(all@),
            read == (|line: Seq<char>| docker_row(line)),
            row_views(out@) == list.take(i as int).filter_map(read),
    {
        let ghost before = out@;
        assert(list[i as int] == all@[i as int]@);
        assert(list.take(i + 1).drop_last() =~= list.take(i as int));
        match parse_docker_row(all[i].as_str()) {
            Some(row) => {
                out.push(row);
                assert(row_views(out@) =~= row_views(before).push(row@));
                assert(read(list[i as int]) == Some(row@));
            },
            None => {},
        }
    }
    assert(list.take(all@.len() as int) =~= list);
    out
}

/// The rows of the listing, if Docker is there and gave one.
pub fn get_docker_rows(available: bool, output: Option<&CommandOutput>) -> (r: Option<
    Vec<DockerRow>,
>)
    ensures
        r is Some == (available && output is Some && output->0.success),
        r matches Some(rows) ==> row_views(rows@) == docker_rows(
            bytes_text(output->0.stdout@),
        ),
{
    if !available {
        return None;
    }
    match output {
        Some(output) => {
            if output.success {
                let text = utf8_lossy(output.stdout.as_slice());
                Some(parse_docker_rows(text.as_str()))
            } else {
                None
            }
        },
        None => None,
    }
}

impl DockerInfo {
    /// With `size` to be freed of one kind of resource.
    pub open spec fn with_size(self, resource: DockerResource, size: u64) -> DockerInfo {
        match resource {
            DockerResource::Images => DockerInfo { images: size, ..self },
            DockerResource::Containers => DockerInfo { containers: size, ..self },
            DockerResource::Volumes => DockerInfo { volumes: size, ..self },
            DockerResource::BuildCache => DockerInfo { build_cache: size, ..self },
        }
    }
}

/// What the rows with their sizes come to: of two rows for one kind of resource
/// the later one counts.
pub open spec fn info_of(rows: Seq<DockerRowView>, sizes: Seq<u64>) -> DockerInfo
    decreases rows.len(),
{
    if rows.len() == 0 {
        DockerInfo { images: 0, containers: 0, volumes: 0, build_cache: 0, available: true }
    } else {
        info_of(rows.drop_last(), sizes).with_size(
            rows.last().resource,
            sizes[rows.len() - 1],
        )
    }
}

/// What Docker can free, from the rows of the listing and the sizes that they
/// come to.
pub fn get_docker_info(rows: Option<&[DockerRow]>, sizes: &[u64]) -> (r: DockerInfo)
    requires
        rows matches Some(rows) ==> rows@.len() == sizes@.len(),
    ensures
        rows matches Some(rows) ==> r == info_of(row_views(rows@), sizes@),
        rows is None ==> r == (DockerInfo {
            images: 0,
            containers: 0,
            volumes: 0,
            build_cache: 0,
            available: false,
        }),
{
    match rows {
        None => DockerInfo::unavailable(),
        Some(rows) => {
            let mut info = DockerInfo {
                images: 0,
                containers: 0,
                volumes: 0,
                build_cache: 0,
                available: true,
            };
            let ghost views = row_views(rows@);
            for i in 0..rows.len()
                invariant
                    rows@.len() == sizes@.len(),
                    views == row_views(rows@),
                    info == info_of(views.take(i as int), sizes@),
            {
                assert(views.take(i + 1).drop_last() =~= views.take(i as int));
                assert(views.take(i + 1).last() == rows@[i as int]@);
                match rows[i].resource {
                    DockerResource::Images => {
                        info.images = sizes[i];
                    },
                    DockerResource::Containers => {
                        info.containers = sizes[i];
                    },
                    DockerResource::Volumes => {
                        info.volumes = sizes[i];
                    },
                    DockerResource::BuildCache => {
                        info.build_cache = sizes[i];
                    },
                }
            }
            assert(views.take(rows@.len() as int) =~= views);
            info
        },
    }
}

/// What came of a pruning command.
#[derive(Debug)]
pub enum PruneOutcome {
    /// It ended with success and freed so many bytes.
    Freed(u64),
    /// It ended without success and printed this as its error.
    Refused(Vec<u8>),
    /// It did not end in time.
    TimedOut,
    /// It could not be run, with the reason.
    Failed(String),
}

/// Reads what a pruning command wrote as its output. A result of `None` is a size of
/// zero.
pub fn get_docker_reclaimed(stdout: &[u8]) -> (r: Option<DockerSize>)
    ensures
        opt_size(r) == docker_reclaimed(bytes_text(stdout@)),
{
    let text = utf8_lossy(stdout);
    parse_docker_reclaimed(text.as_str())
}

/// What became of a pruning command, from what running it gave: there is no output
/// where it did not end in time. `freed` is what its output says that it freed, which
/// counts only where it succeeded.
pub fn prune_outcome(output: Result<Option<CommandOutput>, String>, freed: u64) -> (r:
    PruneOutcome)
    ensures
        r == match output {
            Ok(Some(output)) => if output.success {
                PruneOutcome::Freed(freed)
            } else {
                PruneOutcome::Refused(output.stderr)
            },
            Ok(None) => PruneOutcome::TimedOut,
            Err(error) => PruneOutcome::Failed(error),
        },
{
    match output {
        Ok(Some(output)) => {
            if output.success {
                PruneOutcome::Freed(freed)
            } else {
                PruneOutcome::Refused(output.stderr)
            }
        },
        Ok(None) => PruneOutcome::TimedOut,
        Err(error) => PruneOutcome::Failed(error),
    }
}

/// The report of a pruning command.
pub open spec fn prune_report(
    resource: Seq<char>,
    available: bool,
    outcome: PruneOutcome,
) -> ReportView {
    if !available {
        ReportView::empty()
    } else {
        match outcome {
            PruneOutcome::Freed(bytes) => ReportView {
                freed: bytes as nat,
                errors: Seq::empty(),
            },
            PruneOutcome::Refused(stderr) => ReportView::empty().with_error(
                resource + " prune failed: "@ + trimmed(bytes_text(stderr@)),
            ),
            PruneOutcome::TimedOut => ReportView::empty().with_error(
                resource + " prune timed out because Docker did not respond"@,
            ),
            PruneOutcome::Failed(reason) => ReportView::empty().with_error(
                resource + " prune failed: "@ + reason@,
            ),
        }
    }
}

/// The report of a pruning command. Nothing is done where Docker is not there.
pub fn docker_prune_report(resource: &str, available: bool, outcome: PruneOutcome) -> (r:
    CleanupReport)
    ensures
        r@ == prune_report(resource@, available, outcome),
{
    let mut report = CleanupReport::default();
    if !available {
        return report;
    }
    match outcome {
        PruneOutcome::Freed(bytes) => {
            report.freed = bytes;
        },
        PruneOutcome::Refused(stderr) => {
            let text = utf8_lossy(stderr.as_slice());
            let reason = trim(text.as_str());
            report.push_error(concat3(resource, " prune failed: ", reason.as_str()));
        },
        PruneOutcome::TimedOut => {
            report.push_error(
                concat2(resource, " prune timed out because Docker did not respond"),
            );
        },
        PruneOutcome::Failed(reason) => {
            report.push_error(concat3(resource, " prune failed: ", reason.as_str()));
        },
    }
    report
}

/// A size is read by its unit: gigabytes, megabytes, kilobytes or bytes, by powers of a
/// thousand. What no unit ends, and what is empty, is nothing.
pub proof fn law_docker_units(number: Seq<char>, text: Seq<char>)
    requires
        forall|i: int| 0 <= i < text.len() ==> text[i] != '(',
        trimmed(text) == text,
    ensures
        text == number + "GB"@ ==> docker_size(text) == Some(
            DockerSizeView { number: trimmed(number), multiplier: 1_000_000_000 },
        ),
        text == number + "MB"@ ==> docker_size(text) == Some(
            DockerSizeView { number: trimmed(number), multiplier: 1_000_000 },
        ),
        text == number + "KB"@ || text == number + "kB"@ ==> docker_size(text) == Some(
            DockerSizeView { number: trimmed(number), multiplier: 1_000 },
        ),
        text == number + "B"@ && text != "0B"@ && !(number.len() > 0 && (number.last() == 'G'
            || number.last() == 'M' || number.last() == 'K' || number.last() == 'k'))
            ==> docker_size(text) == Some(
            DockerSizeView { number: trimmed(number), multiplier: 1 },
        ),
        text == "0B"@ || text.len() == 0 || text.last() != 'B' ==> docker_size(text) is None,
{
    reveal_strlit("GB");
    reveal_strlit("MB");
    reveal_strlit("KB");
    reveal_strlit("kB");
    reveal_strlit("B");
    reveal_strlit("0B");
    law_split_none(text, '(');
    let n = text.len() as int;
    assert(trimmed(split(text, '(')[0]) == text);
    if text == number + "GB"@ {
        assert(text.skip(n - 2) =~= "GB"@);
        assert(text.take(n - 2) =~= number);
        assert("0B"@[0] != text[n - 2]);
    } else if text == number + "MB"@ {
        assert(text.skip(n - 2) =~= "MB"@);
        assert(text.skip(n - 2)[0] != "GB"@[0]);
        assert(text.take(n - 2) =~= number);
        assert("0B"@[0] != text[n - 2]);
    } else if text == number + "KB"@ {
        assert(text.skip(n - 2) =~= "KB"@);
        assert(text.skip(n - 2)[0] != "GB"@[0] && text.skip(n - 2)[0] != "MB"@[0]);
        assert(text.take(n - 2) =~= number);
        assert("0B"@[0] != text[n - 2]);
    } else if text == number + "kB"@ {
        assert(text.skip(n - 2) =~= "kB"@);
        assert(text.skip(n - 2)[0] != "GB"@[0] && text.skip(n - 2)[0] != "MB"@[0] && text.skip(
            n - 2,
        )[0] != "KB"@[0]);
        assert(text.take(n - 2) =~= number);
        assert("0B"@[0] != text[n - 2]);
    } else if text == number + "B"@ {
        assert(text.skip(n - 1) =~= "B"@);
        assert(text.take(n - 1) =~= number);
        if n >= 2 {
            assert(text.skip(n - 2)[0] == number.last());
        }
    } else if text.len() > 0 && text.last() != 'B' {
        assert(text.skip(n - 1)[0] == text.last());
        if n >= 2 {
            assert(text.skip(n - 2)[1] == text.last());
        }
    }
}

/// What stands behind an opening bracket does not matter to a size, nor does white space
/// round what stands before it.
pub proof fn law_docker_size_before_bracket(text: Seq<char>, rest: Seq<char>)
    requires
        forall|i: int| 0 <= i < text.len() ==> text[i] != '(',
    ensures
        docker_size(text + seq!['('] + rest) == docker_size(text),
        docker_size(text) == docker_size(trimmed(text)),
{
    law_split_none(text, '(');
    law_split_at(text, rest, '(');
    law_trimmed(text);
    let core = trimmed(text);
    assert forall|i: int| 0 <= i < core.len() implies core[i] != '(' by {
        let (from, to) = choose|from: int, to: int|
            0 <= from <= to <= text.len() && core == #[trigger] text.subrange(from, to) && (
            forall|i: int| 0 <= i < from || to <= i < text.len() ==> is_space(#[trigger] text[i]));
        assert(core[i] == text[from + i]);
    }
    law_split_none(core, '(');
    law_trimmed_stays(core);
}

/// What pruning freed is the size that the first word with the unit of bytes at its end
/// stands for, in the first line that speaks of it.
pub proof fn law_reclaimed(output: Seq<char>, i: int, k: int)
    requires
        0 <= i < lines_of(output).len(),
        occurs_in("reclaimed"@, lines_of(output)[i]) || occurs_in("freed"@, lines_of(output)[i]),
        forall|j: int|
            0 <= j < i ==> !occurs_in("reclaimed"@, #[trigger] lines_of(output)[j]) && !occurs_in(
                "freed"@,
                lines_of(output)[j],
            ),
        0 <= k <= words_of(lines_of(output)[i]).len(),
        forall|j: int|
            0 <= j < k ==> (#[trigger] words_of(lines_of(output)[i])[j]).len() > 0 ==> words_of(
                lines_of(output)[i],
            )[j].last() != 'B',
    ensures
        k < words_of(lines_of(output)[i]).len() && words_of(lines_of(output)[i])[k].len() > 0
            && words_of(lines_of(output)[i])[k].last() == 'B' ==> docker_reclaimed(output)
            == docker_size(words_of(lines_of(output)[i])[k]),
        k == words_of(lines_of(output)[i]).len() ==> docker_reclaimed(output) is None,
{
    reveal_strlit("B");
    let list = lines_of(output);
    let words = words_of(list[i]);
    let wanted = |line: Seq<char>| occurs_in("reclaimed"@, line) || occurs_in("freed"@, line);
    let sized = |word: Seq<char>| "B"@.is_suffix_of(word);
    lemma_first_such(list, wanted, i);
    assert forall|j: int| 0 <= j < k implies !sized(#[trigger] words[j]) by {
        let word = words[j];
        if word.len() > 0 {
            assert(word.skip(word.len() - 1)[0] == word.last());
        }
    }
    lemma_first_such(words, sized, k);
    if k < words.len() && words[k].len() > 0 && words[k].last() == 'B' {
        assert(words[k].skip(words[k].len() - 1) =~= "B"@);
    }
}

/// Output in which no line speaks of what was freed says nothing.
pub proof fn law_nothing_reclaimed(output: Seq<char>)
    requires
        forall|j: int|
            0 <= j < lines_of(output).len() ==> !occurs_in(
                "reclaimed"@,
                #[trigger] lines_of(output)[j],
            ) && !occurs_in("freed"@, lines_of(output)[j]),
    ensures
        docker_reclaimed(output) is None,
{
    let list = lines_of(output);
    let wanted = |line: Seq<char>| occurs_in("reclaimed"@, line) || occurs_in("freed"@, line);
    lemma_first_such(list, wanted, list.len() as int);
}

/// Each line of the listing is read on its own: one whose first field names a kind of
/// resource is a row with the size in its second field, and any other line is none.
pub proof fn law_docker_line(name: Seq<char>, size: Seq<char>, more: Seq<char>)
    requires
        forall|i: int| 0 <= i < name.len() ==> name[i] != '\t',
        forall|i: int| 0 <= i < size.len() ==> size[i] != '\t',
    ensures
        docker_row(name) is None,
        docker_row(name + seq!['\t'] + size) == docker_row(
            name + seq!['\t'] + (size + seq!['\t'] + more),
        ),
        docker_row(name + seq!['\t'] + size) == if name == "Images"@ {
            Some(DockerRowView { resource: DockerResource::Images, size: docker_size(size) })
        } else if name == "Containers"@ {
            Some(DockerRowView { resource: DockerResource::Containers, size: docker_size(size) })
        } else if name == "Local Volumes"@ {
            Some(DockerRowView { resource: DockerResource::Volumes, size: docker_size(size) })
        } else if name == "Build Cache"@ {
            Some(DockerRowView { resource: DockerResource::BuildCache, size: docker_size(size) })
        } else {
            None
        },
{
    law_split_none(name, '\t');
    law_split_none(size, '\t');
    law_split_at(name, size, '\t');
    law_split_at(size, more, '\t');
    law_split_at(name, size + seq!['\t'] + more, '\t');
}

/// The rows of a listing are those of its lines, in order.
pub proof fn law_docker_listing(output: Seq<char>, row: DockerRowView)
    ensures
        docker_rows(output).contains(row) <==> exists|j: int|
            0 <= j < lines_of(output).len() && docker_row(#[trigger] lines_of(output)[j]) == Some(
                row,
            ),
        docker_rows(output).len() <= lines_of(output).len(),
{
    let list = lines_of(output);
    let read = |line: Seq<char>| docker_row(line);
    lemma_filter_map_from(list, read, row);
    assert(docker_rows(output) == list.filter_map(read));
    if docker_rows(output).contains(row) {
        let j = choose|j: int| 0 <= j < list.len() && read(#[trigger] list[j]) == Some(row);
        assert(docker_row(list[j]) == Some(row));
    }
    if exists|j: int| 0 <= j < list.len() && docker_row(#[trigger] list[j]) == Some(row) {
        let j = choose|j: int| 0 <= j < list.len() && docker_row(#[trigger] list[j]) == Some(row);
        assert(read(list[j]) == Some(row));
    }
    lemma_filter_map_short(list, read);
}

proof fn lemma_filter_map_short(
    s: Seq<Seq<char>>,
    f: spec_fn(Seq<char>) -> Option<DockerRowView>,
)
    ensures
        s.filter_map(f).len() <= s.len(),
    decreases s.len(),
{
    if s.len() > 0 {
        lemma_filter_map_short(s.drop_last(), f);
    }
}

/// Of each kind of resource as much can be freed as its last row says, and nothing where
/// it has none. Docker is there.
pub proof fn law_docker_info(rows: Seq<DockerRowView>, sizes: Seq<u64>, k: int)
    requires
        rows.len() == sizes.len(),
        -1 <= k < rows.len(),
    ensures
        info_of(rows, sizes).available,
        (forall|j: int|
            k < j < rows.len() ==> (#[trigger] rows[j]).resource != DockerResource::Images) && (k
            >= 0 ==> rows[k].resource == DockerResource::Images) ==> info_of(rows, sizes).images
            == if k >= 0 {
            sizes[k]
        } else {
            0
        },
        (forall|j: int|
            k < j < rows.len() ==> (#[trigger] rows[j]).resource != DockerResource::Containers) && (
        k >= 0 ==> rows[k].resource == DockerResource::Containers) ==> info_of(
            rows,
            sizes,
        ).containers == if k >= 0 {
            sizes[k]
        } else {
            0
        },
        (forall|j: int|
            k < j < rows.len() ==> (#[trigger] rows[j]).resource != DockerResource::Volumes) && (k
            >= 0 ==> rows[k].resource == DockerResource::Volumes) ==> info_of(rows, sizes).volumes
            == if k >= 0 {
            sizes[k]
        } else {
            0
        },
        (forall|j: int|
            k < j < rows.len() ==> (#[trigger] rows[j]).resource != DockerResource::BuildCache) && (
        k >= 0 ==> rows[k].resource == DockerResource::BuildCache) ==> info_of(
            rows,
            sizes,
        ).build_cache == if k >= 0 {
            sizes[k]
        } else {
            0
        },
    decreases rows.len(),
{
    if rows.len() > 0 {
        let front = rows.drop_last();
        lemma_info_sizes(front, sizes, sizes.drop_last());
        if k < front.len() {
            law_docker_info(front, sizes.drop_last(), k);
            assert forall|j: int| k < j < front.len() implies #[trigger] front[j] == rows[j] by {}
            assert(rows[rows.len() - 1] == rows.last());
            if k >= 0 {
                assert(front[k] == rows[k]);
            }
        } else {
            law_docker_info(front, sizes.drop_last(), front.len() - 1);
        }
    }
}

proof fn lemma_info_sizes(rows: Seq<DockerRowView>, a: Seq<u64>, b: Seq<u64>)
    requires
        rows.len() <= a.len(),
        rows.len() <= b.len(),
        forall|i: int| 0 <= i < rows.len() ==> #[trigger] a[i] == b[i],
    ensures
        info_of(rows, a) == info_of(rows, b),
    decreases rows.len(),
{
    if rows.len() > 0 {
        lemma_info_sizes(rows.drop_last(), a, b);
        assert(a[rows.len() - 1] == b[rows.len() - 1]);
    }
}

/// The socket of Docker: the path behind the scheme, where the host is named by one, and
/// the one in the home directory where no host is named. A host of another kind has none.
pub proof fn law_docker_socket(path: Seq<char>, host: Seq<char>, home: Seq<char>)
    requires
        path.len() > 0,
        !"unix://"@.is_prefix_of(path),
        home.len() > 0 && home.last() != '/',
    ensures
        docker_socket(Some("unix://"@ + path), home) == Some(path),
        docker_socket(Some("unix://"@), home) is None,
        !"unix://"@.is_prefix_of(host) ==> docker_socket(Some(host), home) is None,
        docker_socket(None, home) == Some(home + seq!['/'] + ".docker/run/docker.sock"@),
{
    reveal_strlit("unix://");
    reveal_strlit(".docker/run/docker.sock");
    let scheme = "unix://"@;
    let full = scheme + path;
    assert(full.take(7) =~= scheme);
    assert(full.skip(7) =~= path);
    assert(without_prefixes(full, scheme) == without_prefixes(path, scheme));
    assert(scheme.take(7) =~= scheme);
    assert(scheme.skip(7) =~= Seq::empty());
    assert(without_prefixes(scheme, scheme) == without_prefixes(scheme.skip(7), scheme));
    assert(home.push('/') + ".docker/run/docker.sock"@ =~= home + seq!['/']
        + ".docker/run/docker.sock"@);
}

/// What pruning comes to: what it freed where it succeeded, and else one error that names
/// the resource and says why. Where Docker is not there, nothing is done.
pub proof fn law_prune_report(resource: Seq<char>, outcome: PruneOutcome)
    ensures
        prune_report(resource, false, outcome).freed == 0,
        prune_report(resource, false, outcome).errors.len() == 0,
        outcome matches PruneOutcome::Freed(bytes) ==> prune_report(resource, true, outcome).freed
            == bytes && prune_report(resource, true, outcome).errors.len() == 0,
        !(outcome is Freed) ==> prune_report(resource, true, outcome).freed == 0 && prune_report(
            resource,
            true,
            outcome,
        ).errors.len() == 1,
        outcome matches PruneOutcome::Refused(stderr) ==> prune_report(
            resource,
            true,
            outcome,
        ).errors[0] == resource + " prune failed: "@ + trimmed(bytes_text(stderr@)),
        outcome is TimedOut ==> prune_report(resource, true, outcome).errors[0] == resource
            + " prune timed out because Docker did not respond"@,
        outcome matches PruneOutcome::Failed(reason) ==> prune_report(
            resource,
            true,
            outcome,
        ).errors[0] == resource + " prune failed: "@ + reason@,
{
}

/// How long Docker may take to answer: three quarters of a second to say that it is there,
/// two seconds to list what can be freed, and half a minute to prune. A command is looked at
/// twenty times a second.
pub proof fn law_docker_timeouts()
    ensures
        DOCKER_INFO_TIMEOUT_MILLIS * 4 == 3_000,
        DOCKER_SCAN_TIMEOUT_MILLIS == 2_000,
        DOCKER_PRUNE_TIMEOUT_MILLIS == 30_000,
        POLL_MILLIS * 20 == 1_000,
{
}

/// All that can be freed is what can be freed of each kind, added up.
pub proof fn law_docker_sum(info: DockerInfo)
    ensures
        info.sum() == info.images + info.containers + info.volumes + info.build_cache,
{
}

/// A listing is read line by line: the row of its first line, if it is one, and then the rows
/// of the rest.
pub proof fn law_docker_rows_next(line: Seq<char>, rest: Seq<char>)
    requires
        forall|i: int| 0 <= i < line.len() ==> line[i] != '\n' && line[i] != '\r',
    ensures
        docker_rows(line + seq!['\n'] + rest) == match docker_row(line) {
            Some(row) => seq![row],
            None => Seq::empty(),
        } + docker_rows(rest),
        docker_rows(Seq::empty()).len() == 0,
{
    let read = |line: Seq<char>| docker_row(line);
    law_first_line(line, rest);
    law_last_line(Seq::empty());
    let one = seq![line];
    lemma_filter_map_add(one, lines_of(rest), read);
    assert(one.drop_last() =~= Seq::empty());
    assert(one.drop_last().filter_map(read) =~= Seq::empty());
    assert(one.filter_map(read) =~= match docker_row(line) {
        Some(row) => seq![row],
        None => Seq::empty(),
    });
    assert(docker_rows(rest) == lines_of(rest).filter_map(read));
}

/// A scheme that is written twice counts once.
pub proof fn law_docker_socket_scheme(rest: Seq<char>, home: Seq<char>)
    requires
        "unix://"@.is_prefix_of(rest),
    ensures
        docker_socket(Some("unix://"@ + rest), home) == docker_socket(Some(rest), home),
{
    reveal_strlit("unix://");
    let scheme = "unix://"@;
    let full = scheme + rest;
    assert(full.take(7) =~= scheme);
    assert(full.skip(7) =~= rest);
    assert(without_prefixes(full, scheme) == without_prefixes(rest, scheme));
}

} // verus!
