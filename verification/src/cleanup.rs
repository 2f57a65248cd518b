//! The course of a run: what is done with the results of a scan, what is shown
//! before and after cleaning, and what cleaning came to.

use crate::clean::{
    cleanable_of, item_views, law_actions_keep_excludes, CleanAction, CleanActionView,
    CleanableItem, ItemView,
};
use crate::delete::{
    contents_start, delete_directory_contents, delete_paths, paths_start, Deletion,
};
use crate::delete_laws::{law_starts_respect, respects};
use crate::outside::{byte_size_display, byte_size_text};
use crate::report::{error_at, CleanupReport, ReportView};
use crate::scan::ScanResults;
use crate::select::{numbers, parse_clean_selection, selection};
use crate::target::strs;
use crate::text::{concat3, copy_texts, opt_view, texts};
use vstd::prelude::*;

verus! {

/// The command that a run was started with.
#[derive(Clone, Copy, Debug, PartialEq, Eq, Structural)]
pub enum RunCommand {
    /// None.
    Plain,
    /// A command on the configuration.
    Config,
    /// Archiving cold files.
    Archive,
}

/// What a run is about.
#[derive(Clone, Copy, Debug, PartialEq, Eq, Structural)]
pub enum RunStep {
    /// A command on the configuration.
    Config,
    /// Archiving cold files.
    Archive,
    /// Listing the targets.
    ListTargets,
    /// Scanning, with so many threads, and cleaning.
    Clean { threads: usize },
}

/// What a run is about: a command comes first, then listing the targets. A scan has
/// at least one thread; where no number is given there is one for each processor.
pub fn run(
    command: RunCommand,
    list_targets: bool,
    threads: Option<usize>,
    processors: usize,
) -> (r: RunStep)
    ensures
        r == match command {
            RunCommand::Config => RunStep::Config,
            RunCommand::Archive => RunStep::Archive,
            RunCommand::Plain => if list_targets {
                RunStep::ListTargets
            } else {
                let wanted = match threads {
                    Some(threads) => threads,
                    None => processors,
                };
                RunStep::Clean {
                    threads: if wanted < 1 {
                        1
                    } else {
                        wanted
                    },
                }
            },
        },
{
    match command {
        RunCommand::Config => RunStep::Config,
        RunCommand::Archive => RunStep::Archive,
        RunCommand::Plain => {
            if list_targets {
                return RunStep::ListTargets;
            }
            let wanted: usize = match threads {
                Some(threads) => threads,
                None => processors,
            };
            let threads: usize = if wanted < 1 {
                1
            } else {
                wanted
            };
            RunStep::Clean { threads }
        },
    }
}

/// What is done after a scan.
#[derive(Debug)]
pub enum CleanerStep {
    /// Nothing: only a scan was wanted.
    ScanOnly,
    /// Nothing: there is nothing to clean.
    NothingCleanable,
    /// Clean these items without asking.
    Clean(Vec<usize>),
    /// Nothing: the selection is rejected, for this reason.
    Rejected(String),
    /// Ask what to clean.
    Interactive,
}

/// What a step stands for.
pub enum CleanerStepView {
    ScanOnly,
    NothingCleanable,
    Clean(Seq<int>),
    Rejected(Seq<char>),
    Interactive,
}

impl View for CleanerStep {
    type V = CleanerStepView;

    open spec fn view(&self) -> CleanerStepView {
        match *self {
            CleanerStep::ScanOnly => CleanerStepView::ScanOnly,
            CleanerStep::NothingCleanable => CleanerStepView::NothingCleanable,
            CleanerStep::Clean(selected) => CleanerStepView::Clean(numbers(selected@)),
            CleanerStep::Rejected(reason) => CleanerStepView::Rejected(reason@),
            CleanerStep::Interactive => CleanerStepView::Interactive,
        }
    }
}

/// What is done after a scan.
pub open spec fn cleaner_step(
    scan_only: bool,
    clean: Option<Seq<char>>,
    items: Seq<ItemView>,
) -> CleanerStepView {
    if scan_only {
        CleanerStepView::ScanOnly
    } else if items.len() == 0 {
        CleanerStepView::NothingCleanable
    } else {
        match clean {
            Some(targets) => match selection(targets, items) {
                Ok(selected) => CleanerStepView::Clean(selected),
                Err(reason) => CleanerStepView::Rejected(reason),
            },
            None => CleanerStepView::Interactive,
        }
    }
}

/// What is done after a scan. Cleaning without being asked takes a selection.
pub fn run_cleaner(scan_only: bool, clean: Option<&str>, cleanable: &[CleanableItem]) -> (r:
    CleanerStep)
    ensures
        r@ == cleaner_step(scan_only, opt_view(clean), item_views(cleanable@)),
{
    assert(item_views(cleanable@).len() == cleanable@.len());
    if scan_only {
        CleanerStep::ScanOnly
    } else if cleanable.len() == 0 {
        CleanerStep::NothingCleanable
    } else {
        match clean {
            Some(targets) => match parse_clean_selection(targets, cleanable) {
                Ok(selected) => CleanerStep::Clean(selected),
                Err(reason) => CleanerStep::Rejected(reason),
            },
            None => CleanerStep::Interactive,
        }
    }
}

/// Every number is that of an item.
pub open spec fn all_items(selected: Seq<usize>, items: Seq<CleanableItem>) -> bool {
    forall|i: int| 0 <= i < selected.len() ==> (#[trigger] selected[i]) < items.len()
}

/// The sizes of the selected items added up.
pub open spec fn selected_size(items: Seq<CleanableItem>, selected: Seq<usize>) -> nat
    decreases selected.len(),
{
    if selected.len() == 0 {
        0
    } else {
        selected_size(items, selected.drop_last()) + items[selected.last() as int].size as nat
    }
}

/// The line that shows a selected item.
pub open spec fn item_line(item: ItemView) -> Seq<char> {
    "  - "@ + item.label + " ["@ + item.id + "]"@
}

/// The lines that show the selected items.
pub open spec fn item_lines(items: Seq<ItemView>, selected: Seq<usize>) -> Seq<Seq<char>> {
    selected.map_values(|i: usize| item_line(items[i as int]))
}

proof fn lemma_selected_size_monotone(
    items: Seq<CleanableItem>,
    selected: Seq<usize>,
    n: int,
)
    requires
        0 <= n <= selected.len(),
    ensures
        selected_size(items, selected.take(n)) <= selected_size(items, selected),
    decreases selected.len(),
{
    if n == selected.len() {
        assert(selected.take(n) =~= selected);
    } else {
        let front = selected.drop_last();
        assert(front.take(n) =~= selected.take(n));
        lemma_selected_size_monotone(items, front, n);
    }
}

/// The lines that show what would be cleaned.
pub fn print_dry_run(cleanable: &[CleanableItem], selected: &[usize]) -> (r: Vec<String>)
    requires
        all_items(selected@, cleanable@),
    ensures
        texts(r@) == item_lines(item_views(cleanable@), selected@),
{
    let mut out: Vec<String> = Vec::new();
    let ghost lines = item_lines(item_views(cleanable@), selected@);
    for k in 0..selected.len()
        invariant
            all_items(selected@, cleanable@),
            lines == item_lines(item_views(cleanable@), selected@),
            out@.len() == k,
            forall|j: int| 0 <= j < k ==> (#[trigger] out@[j])@ == lines[j],
    {
        let index: usize = selected[k];
        assert(selected@[k as int] < cleanable@.len());
        let item = &cleanable[index];
        assert(item_views(cleanable@)[index as int] == item@);
        let mut line = concat3("  - ", item.label.as_str(), " [");
        line.append(item.id);
        line.append("]");
        out.push(line);
    }
    assert(texts(out@) =~= lines);
    out
}

/// What is shown before cleaning: how much it frees, and the selected items.
#[derive(Debug)]
pub struct SelectionSummary {
    pub total: u64,
    pub total_text: String,
    pub lines: Vec<String>,
}

/// What is shown before cleaning.
pub fn print_selection_summary(cleanable: &[CleanableItem], selected: &[usize]) -> (r:
    SelectionSummary)
    requires
        all_items(selected@, cleanable@),
        selected_size(cleanable@, selected@) <= u64::MAX,
    ensures
        r.total == selected_size(cleanable@, selected@),
        r.total_text@ == byte_size_display(r.total),
        texts(r.lines@) == item_lines(item_views(cleanable@), selected@),
{
    let mut total: u64 = 0;
    let ghost all = selected@;
    for k in 0..selected.len()
        invariant
            all == selected@,
            all_items(selected@, cleanable@),
            total == selected_size(cleanable@, all.take(k as int)),
            selected_size(cleanable@, all) <= u64::MAX,
    {
        proof {
            assert(all.take(k + 1).drop_last() =~= all.take(k as int));
            lemma_selected_size_monotone(cleanable@, all, k + 1);
        }
        let index: usize = selected[k];
        total = total + cleanable[index].size;
    }
    assert(all.take(selected@.len() as int) =~= all);
    SelectionSummary {
        total,
        total_text: byte_size_text(total),
        lines: print_dry_run(cleanable, selected),
    }
}

/// What follows once items were selected in a dialog.
#[derive(Clone, Copy, Debug, PartialEq, Eq, Structural)]
pub enum DialogStep {
    /// The dialog was interrupted.
    Interrupted,
    /// Nothing was selected.
    NothingSelected,
    /// Show what would be cleaned.
    DryRun,
    /// Ask whether to go on.
    Confirm,
    /// Clean.
    Proceed,
    /// The cleanup was called off.
    Cancelled,
}

impl DialogStep {
    /// What is said, if the dialog ends here without cleaning.
    pub fn message(self) -> (r: Option<&'static str>)
        ensures
            match self {
                DialogStep::Interrupted => r matches Some(s) && s@ == "Interrupted."@,
                DialogStep::NothingSelected => r matches Some(s) && s@
                    == "No categories selected."@,
                DialogStep::Cancelled => r matches Some(s) && s@ == "Cancelled."@,
                _ => r is None,
            },
    {
        match self {
            DialogStep::Interrupted => Some("Interrupted."),
            DialogStep::NothingSelected => Some("No categories selected."),
            DialogStep::Cancelled => Some("Cancelled."),
            _ => None,
        }
    }
}

/// What follows the selection in a dialog; there is none where the dialog was
/// interrupted. A dry run asks no further question.
pub fn run_interactive_cleanup(selected: Option<&[usize]>, dry_run: bool) -> (r: DialogStep)
    ensures
        r == match selected {
            None => DialogStep::Interrupted,
            Some(selected) => if selected@.len() == 0 {
                DialogStep::NothingSelected
            } else if dry_run {
                DialogStep::DryRun
            } else {
                DialogStep::Confirm
            },
        },
{
    match selected {
        None => DialogStep::Interrupted,
        Some(selected) => {
            if selected.len() == 0 {
                DialogStep::NothingSelected
            } else if dry_run {
                DialogStep::DryRun
            } else {
                DialogStep::Confirm
            }
        },
    }
}

/// What follows the answer to the question whether to go on.
pub fn confirm_cleanup(answer: Option<bool>) -> (r: DialogStep)
    ensures
        r == match answer {
            Some(true) => DialogStep::Proceed,
            Some(false) => DialogStep::Cancelled,
            None => DialogStep::Interrupted,
        },
{
    match answer {
        Some(true) => DialogStep::Proceed,
        Some(false) => DialogStep::Cancelled,
        None => DialogStep::Interrupted,
    }
}

/// What is done with a selection.
#[derive(Debug, PartialEq, Eq)]
pub enum CleanupPlan {
    /// These lines show what would be cleaned.
    Preview(Vec<String>),
    /// The actions of these items are carried out, in order.
    Clean(Vec<usize>),
}

/// What is done with a selection: a dry run only shows it.
pub fn plan_cleanup(cleanable: &[CleanableItem], selected: &[usize], dry_run: bool) -> (r:
    CleanupPlan)
    requires
        all_items(selected@, cleanable@),
    ensures
        match r {
            CleanupPlan::Preview(lines) => dry_run && texts(lines@) == item_lines(
                item_views(cleanable@),
                selected@,
            ),
            CleanupPlan::Clean(items) => !dry_run && items@ == selected@,
        },
{
    if dry_run {
        return CleanupPlan::Preview(print_dry_run(cleanable, selected));
    }
    let mut items: Vec<usize> = Vec::new();
    for i in 0..selected.len()
        invariant
            items@ == selected@.take(i as int),
    {
        items.push(selected[i]);
        assert(items@ =~= selected@.take(i + 1));
    }
    assert(selected@.take(selected@.len() as int) =~= selected@);
    CleanupPlan::Clean(items)
}

/// The report of an item, with its ID before each error.
pub open spec fn item_report(id: Seq<char>, report: ReportView) -> ReportView {
    ReportView {
        freed: report.freed,
        errors: report.errors.map_values(|error: Seq<char>| error_at(id, error)),
    }
}

/// What the first `n` of the reports come to.
pub open spec fn combined(
    items: Seq<ItemView>,
    selected: Seq<usize>,
    reports: Seq<CleanupReport>,
    n: nat,
) -> ReportView
    decreases n,
{
    if n == 0 {
        ReportView::empty()
    } else {
        combined(items, selected, reports, (n - 1) as nat).plus(
            item_report(items[selected[n - 1] as int].id, reports[n - 1]@),
        )
    }
}

/// The bytes that the first `n` reports freed.
pub open spec fn freed_by(reports: Seq<CleanupReport>, n: nat) -> nat
    decreases n,
{
    if n == 0 {
        0
    } else {
        freed_by(reports, (n - 1) as nat) + reports[n - 1].freed as nat
    }
}

proof fn lemma_freed_monotone(reports: Seq<CleanupReport>, a: nat, b: nat)
    requires
        a <= b,
    ensures
        freed_by(reports, a) <= freed_by(reports, b),
    decreases b,
{
    if a < b {
        lemma_freed_monotone(reports, a, (b - 1) as nat);
    }
}

/// The report of an item, with its ID before each error.
fn label_report(id: &str, report: &CleanupReport) -> (r: CleanupReport)
    ensures
        r@ == item_report(id@, report@),
{
    let mut errors: Vec<String> = Vec::new();
    for i in 0..report.errors.len()
        invariant
            errors@.len() == i,
            forall|j: int|
                0 <= j < i ==> (#[trigger] errors@[j])@ == error_at(id@, report.errors@[j]@),
    {
        errors.push(concat3(id, ": ", report.errors[i].as_str()));
    }
    let r = CleanupReport { freed: report.freed, errors };
    assert(texts(r.errors@) =~= item_report(id@, report@).errors);
    r
}

/// What a cleanup came to: the reports of the selected items, each error with the
/// ID of its item. Every item counts, whatever errors the others met. A dry run
/// comes to nothing.
pub fn run_cleanup(
    cleanable: &[CleanableItem],
    selected: &[usize],
    dry_run: bool,
    reports: &[CleanupReport],
) -> (r: CleanupReport)
    requires
        !dry_run ==> all_items(selected@, cleanable@) && reports@.len() == selected@.len()
            && freed_by(reports@, reports@.len()) <= u64::MAX,
    ensures
        r@ == if dry_run {
            ReportView::empty()
        } else {
            combined(item_views(cleanable@), selected@, reports@, reports@.len())
        },
{
    let mut report = CleanupReport::default();
    if dry_run {
        return report;
    }
    let ghost views = item_views(cleanable@);
    for k in 0..selected.len()
        invariant
            views == item_views(cleanable@),
            all_items(selected@, cleanable@),
            reports@.len() == selected@.len(),
            freed_by(reports@, reports@.len()) <= u64::MAX,
            report@ == combined(views, selected@, reports@, k as nat),
            report.freed == freed_by(reports@, k as nat),
    {
        proof {
            lemma_freed_monotone(reports@, (k + 1) as nat, reports@.len());
        }
        let index: usize = selected[k];
        assert(selected@[k as int] < cleanable@.len());
        let item = &cleanable[index];
        assert(views[index as int] == item@);
        let labelled = label_report(item.id, &reports[k]);
        report.merge(labelled);
    }
    report
}

/// What is shown after cleaning: how much was freed, and the errors.
#[derive(Debug)]
pub struct CleanupSummary {
    pub freed_text: String,
    pub errors: Vec<String>,
}

/// What is shown after cleaning.
pub fn finish_cleanup(report: &CleanupReport) -> (r: CleanupSummary)
    ensures
        r.freed_text@ == byte_size_display(report.freed),
        texts(r.errors@) == texts(report.errors@),
{
    CleanupSummary {
        freed_text: byte_size_text(report.freed),
        errors: copy_texts(report.errors.as_slice()),
    }
}

/// A cleanup frees what its items free, whatever went wrong with any of them.
pub proof fn law_cleanup_frees_sum(
    items: Seq<ItemView>,
    selected: Seq<usize>,
    reports: Seq<CleanupReport>,
    n: nat,
)
    requires
        n <= reports.len(),
    ensures
        combined(items, selected, reports, n).freed == freed_by(reports, n),
    decreases n,
{
    if n > 0 {
        law_cleanup_frees_sum(items, selected, reports, (n - 1) as nat);
    }
}

/// No error gets lost: each error of each item is in the report of the cleanup,
/// with the ID of the item.
pub proof fn law_cleanup_keeps_errors(
    items: Seq<ItemView>,
    selected: Seq<usize>,
    reports: Seq<CleanupReport>,
    n: nat,
    k: int,
    e: int,
)
    requires
        0 <= k < n <= reports.len(),
        0 <= e < reports[k].errors@.len(),
    ensures
        combined(items, selected, reports, n).errors.contains(
            error_at(items[selected[k] as int].id, reports[k].errors@[e]@),
        ),
    decreases n,
{
    let before = combined(items, selected, reports, (n - 1) as nat);
    let own = item_report(items[selected[n - 1] as int].id, reports[n - 1]@);
    let all = combined(items, selected, reports, n);
    let error = error_at(items[selected[k] as int].id, reports[k].errors@[e]@);
    if k == n - 1 {
        assert(texts(reports[k].errors@)[e] == reports[k].errors@[e]@);
        assert(own.errors[e] == error);
        assert(all.errors[before.errors.len() + e] == error);
    } else {
        law_cleanup_keeps_errors(items, selected, reports, (n - 1) as nat, k, e);
        let i = choose|i: int| 0 <= i < before.errors.len() && before.errors[i] == error;
        assert(all.errors[i] == error);
    }
}

/// Nothing is cleaned without a selection: where none was given with the command,
/// a run asks, and where only a scan was wanted, it ends.
pub proof fn law_cleaning_takes_selection(
    scan_only: bool,
    clean: Option<Seq<char>>,
    items: Seq<ItemView>,
)
    ensures
        cleaner_step(scan_only, clean, items) is Clean ==> !scan_only && clean is Some
            && items.len() > 0,
{
}

/// The start of cleaning an item.
pub enum CleanStart {
    /// Something is deleted.
    Delete(Deletion),
    /// A Docker command is run with these arguments.
    Prune { resource: &'static str, args: Vec<&'static str> },
}

/// Starts to clean an item; `present` says whether the directory whose contents go
/// exists.
pub fn start_action(action: &CleanAction, present: bool) -> (r: CleanStart)
    ensures
        match action@ {
            CleanActionView::DeleteContents { path, excludes } => r matches CleanStart::Delete(
                deletion,
            ) && deletion@ == contents_start(path, present, excludes) && deletion.excludes()
                == excludes,
            CleanActionView::DeletePaths { paths, excludes } => r matches CleanStart::Delete(
                deletion,
            ) && deletion@ == paths_start(paths, excludes) && deletion.excludes() == excludes,
            CleanActionView::DockerPrune { resource, args } => r matches CleanStart::Prune {
                resource: name,
                args: words,
            } && name@ == resource && strs(words@) == args,
        },
{
    match action {
        CleanAction::DeleteContents { path, excludes } => CleanStart::Delete(
            delete_directory_contents(path.as_str(), present, excludes.as_slice()),
        ),
        CleanAction::DeletePaths { paths, excludes } => CleanStart::Delete(
            delete_paths(paths.as_slice(), excludes.as_slice()),
        ),
        CleanAction::DockerPrune { resource, args } => {
            let mut words: Vec<&'static str> = Vec::new();
            for i in 0..args.len()
                invariant
                    words@ == args@.take(i as int),
            {
                words.push(args[i]);
                assert(words@ =~= args@.take(i + 1));
            }
            assert(args@.take(args@.len() as int) =~= args@);
            CleanStart::Prune { resource: *resource, args: words }
        },
    }
}

/// No cleanup starts with anything that is excluded, and by
/// `law_excluded_left_alone` none comes to it.
pub proof fn law_cleanup_spares_excluded(
    results: ScanResults,
    excludes: Seq<Seq<char>>,
    i: int,
    present: bool,
)
    requires
        0 <= i < cleanable_of(results, excludes).len(),
    ensures
        match cleanable_of(results, excludes)[i].action {
            CleanActionView::DeleteContents { path, excludes: kept } => respects(
                contents_start(path, present, kept),
                excludes,
            ),
            CleanActionView::DeletePaths { paths, excludes: kept } => respects(
                paths_start(paths, kept),
                excludes,
            ),
            CleanActionView::DockerPrune { .. } => true,
        },
{
    law_actions_keep_excludes(results, excludes, i);
    match cleanable_of(results, excludes)[i].action {
        CleanActionView::DeleteContents { path, .. } => {
            law_starts_respect(path, Seq::empty(), present, true, excludes);
        },
        CleanActionView::DeletePaths { paths, .. } => {
            law_starts_respect(Seq::empty(), paths, present, true, excludes);
        },
        CleanActionView::DockerPrune { .. } => {},
    }
}

/// What a selection frees is what its items do, added up.
pub proof fn law_selected_size(items: Seq<CleanableItem>, selected: Seq<usize>, next: usize)
    ensures
        selected_size(items, Seq::empty()) == 0,
        selected_size(items, selected.push(next)) == selected_size(items, selected)
            + items[next as int].size,
{
    assert(selected.push(next).drop_last() =~= selected);
}

/// There is a line for each selected item, in the order of the selection, with its label and
/// its ID.
pub proof fn law_selected_lines(items: Seq<ItemView>, selected: Seq<usize>, k: int)
    requires
        0 <= k < selected.len(),
    ensures
        item_lines(items, selected).len() == selected.len(),
        item_lines(items, selected)[k] == "  - "@ + items[selected[k] as int].label + " ["@
            + items[selected[k] as int].id + "]"@,
{
}

/// What a cleanup comes to grows by each item: its bytes are added, and its errors follow,
/// each behind the ID of the item.
pub proof fn law_cleanup_goes_on(
    items: Seq<ItemView>,
    selected: Seq<usize>,
    reports: Seq<CleanupReport>,
    n: nat,
)
    requires
        n < reports.len(),
    ensures
        combined(items, selected, reports, 0).freed == 0,
        combined(items, selected, reports, 0).errors.len() == 0,
        ({
            let before = combined(items, selected, reports, n);
            let after = combined(items, selected, reports, n + 1);
            let id = items[selected[n as int] as int].id;
            &&& after.freed == before.freed + reports[n as int].freed
            &&& after.errors.len() == before.errors.len() + reports[n as int].errors@.len()
            &&& before.errors.is_prefix_of(after.errors)
            &&& forall|e: int|
                0 <= e < reports[n as int].errors@.len() ==> #[trigger] after.errors[
                    before.errors.len() + e] == id + ": "@ + reports[n as int].errors@[e]@
        }),
{
    let before = combined(items, selected, reports, n);
    let after = combined(items, selected, reports, n + 1);
    let id = items[selected[n as int] as int].id;
    let own = item_report(id, reports[n as int]@);
    assert(after == before.plus(own));
    assert(after.errors.take(before.errors.len() as int) =~= before.errors);
    assert forall|e: int| 0 <= e < reports[n as int].errors@.len() implies #[trigger] after.errors[
        before.errors.len() + e] == id + ": "@ + reports[n as int].errors@[e]@ by {
        assert(texts(reports[n as int].errors@)[e] == reports[n as int].errors@[e]@);
        assert(own.errors[e] == error_at(id, reports[n as int].errors@[e]@));
    }
}

/// What follows a scan: its end where only a scan was wanted or nothing can be cleaned, a
/// dialog where nothing was selected with the command, and else what the selection comes to.
pub proof fn law_after_scan(scan_only: bool, clean: Option<Seq<char>>, items: Seq<ItemView>)
    ensures
        scan_only <==> cleaner_step(scan_only, clean, items) is ScanOnly,
        !scan_only && items.len() == 0 <==> cleaner_step(scan_only, clean, items)
            is NothingCleanable,
        !scan_only && items.len() > 0 && clean is None <==> cleaner_step(scan_only, clean, items)
            is Interactive,
        !scan_only && items.len() > 0 ==> match clean {
            Some(targets) => match selection(targets, items) {
                Ok(selected) => cleaner_step(scan_only, clean, items) == CleanerStepView::Clean(
                    selected,
                ),
                Err(reason) => cleaner_step(scan_only, clean, items) == CleanerStepView::Rejected(
                    reason,
                ),
            },
            None => true,
        },
{
}

} // verus!
