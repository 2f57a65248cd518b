//! What every deletion keeps to: it leaves excluded paths alone, stays beneath
//! the path that it was started at, and frees and reports what the directory
//! tree it meets calls for.

use crate::delete::{
    contents_start, path_start, paths_start, removal_report, settled, ActionView, DeletionView,
    EntryView, EventView, FrameView, InspectionView, ListingView, PendingView, RemovalView,
};
use crate::path::{components, excluded, lemma_within_transitive, path_within};
use crate::report::{error_at, law_merge_monoid, ReportView};
use vstd::prelude::*;

verus! {

/// The path that an action is about.
pub open spec fn action_path(action: ActionView) -> Option<Seq<char>> {
    match action {
        ActionView::Inspect(path) => Some(path),
        ActionView::List(path) => Some(path),
        ActionView::RemoveFile(path) => Some(path),
        ActionView::RemoveDir(path) => Some(path),
        ActionView::Done => None,
    }
}

/// Neither the open question nor a directory that is still to be removed is about
/// an excluded path.
pub open spec fn respects(state: DeletionView, excludes: Seq<Seq<char>>) -> bool {
    &&& action_path(state.action()) matches Some(path) ==> !excluded(path, excludes)
    &&& frames_respect(state.frames, excludes)
}

/// No directory that is still to be removed is excluded.
pub open spec fn frames_respect(frames: Seq<FrameView>, excludes: Seq<Seq<char>>) -> bool {
    forall|i: int|
        0 <= i < frames.len() && (#[trigger] frames[i]).remove ==> !excluded(
            frames[i].dir,
            excludes,
        )
}

proof fn lemma_settled_respects(
    frames: Seq<FrameView>,
    report: ReportView,
    excludes: Seq<Seq<char>>,
)
    requires
        frames_respect(frames, excludes),
    ensures
        respects(settled(frames, report, excludes), excludes),
    decreases
            frames.len(),
            if frames.len() > 0 {
                frames.last().entries.len()
            } else {
                0
            },
{
    if frames.len() > 0 {
        let top = frames.last();
        let below = frames.drop_last();
        assert(frames_respect(below, excludes)) by {
            assert forall|i: int| 0 <= i < below.len() && (#[trigger] below[i]).remove implies
                !excluded(below[i].dir, excludes) by {
                assert(frames[i] == below[i]);
            }
        }
        if top.entries.len() == 0 {
            if !top.remove {
                lemma_settled_respects(below, report, excludes);
            } else {
                assert(frames[frames.len() - 1].remove);
            }
        } else {
            let left = below.push(top.rest());
            assert(frames_respect(left, excludes)) by {
                assert forall|i: int| 0 <= i < left.len() && (#[trigger] left[i]).remove implies
                    !excluded(left[i].dir, excludes) by {
                    assert(frames[i].remove && frames[i].dir == left[i].dir);
                }
            }
            match top.entries[0] {
                EntryView::Broken(reason) => {
                    lemma_settled_respects(
                        left,
                        report.with_error(error_at(top.dir, reason)),
                        excludes,
                    );
                },
                EntryView::At(path) => {
                    if excluded(path, excludes) {
                        lemma_settled_respects(left, report, excludes);
                    }
                },
            }
        }
    }
}

/// A deletion leaves excluded paths alone, whatever the file system answers:
/// where no question is about an excluded path, none of the next ones is.
pub proof fn law_excluded_left_alone(
    state: DeletionView,
    event: EventView,
    excludes: Seq<Seq<char>>,
)
    requires
        respects(state, excludes),
    ensures
        respects(state.next(event, excludes), excludes),
{
    match (state.pending, event) {
        (PendingView::Inspect { path, remove }, EventView::Inspected(inspection)) => {
            match inspection {
                InspectionView::NotFound => {
                    lemma_settled_respects(state.frames, state.report, excludes);
                },
                InspectionView::Failed(reason) => {
                    lemma_settled_respects(
                        state.frames,
                        state.report.with_error(error_at(path, reason)),
                        excludes,
                    );
                },
                InspectionView::Directory => {},
                InspectionView::File(size) => {},
            }
        },
        (PendingView::List { path, remove }, EventView::Listed(listing)) => {
            match listing {
                ListingView::Failed(reason) => {
                    lemma_settled_respects(
                        state.frames,
                        state.report.with_error(error_at(path, reason)),
                        excludes,
                    );
                },
                ListingView::Entries(entries) => {
                    let frame = FrameView { dir: path, remove, entries };
                    lemma_settled_respects(state.frames.push(frame), state.report, excludes);
                },
            }
        },
        (PendingView::RemoveFile { path, size }, EventView::Removed(removal)) => {
            lemma_settled_respects(
                state.frames,
                state.report.plus(removal_report(path, size, removal)),
                excludes,
            );
        },
        (PendingView::RemoveDir { path }, EventView::Removed(removal)) => {
            lemma_settled_respects(
                state.frames,
                state.report.plus(removal_report(path, 0, removal)),
                excludes,
            );
        },
        _ => {},
    }
}

/// No deletion starts with a question about an excluded path.
pub proof fn law_starts_respect(
    path: Seq<char>,
    paths: Seq<Seq<char>>,
    present: bool,
    remove_root: bool,
    excludes: Seq<Seq<char>>,
)
    ensures
        respects(path_start(path, excludes, remove_root), excludes),
        respects(contents_start(path, present, excludes), excludes),
        respects(paths_start(paths, excludes), excludes),
{
    let entries = paths.map_values(|path: Seq<char>| EntryView::At(path));
    lemma_settled_respects(
        seq![FrameView { dir: Seq::empty(), remove: false, entries }],
        ReportView::empty(),
        excludes,
    );
}

/// What the file system answers about a path, and about everything beneath it.
pub enum Tree {
    /// There is nothing.
    Missing,
    /// It is not known what there is.
    Unreadable(Seq<char>),
    /// A file, and what removing it gives.
    File { size: nat, removal: RemovalView },
    /// A directory that cannot be listed.
    Unlistable(Seq<char>),
    /// A directory with its entries, and what removing it gives after them.
    Dir { entries: Seq<Node>, removal: RemovalView },
}

/// An entry of a directory, with what lies there.
pub enum Node {
    Broken(Seq<char>),
    At(Seq<char>, Tree),
}

/// What a directory is listed as.
pub open spec fn listed(entries: Seq<Node>) -> Seq<EntryView> {
    entries.map_values(
        |node: Node|
            match node {
                Node::Broken(reason) => EntryView::Broken(reason),
                Node::At(path, tree) => EntryView::At(path),
            },
    )
}

/// The report that holds one error.
pub open spec fn failed_at(path: Seq<char>, reason: Seq<char>) -> ReportView {
    ReportView { freed: 0, errors: seq![error_at(path, reason)] }
}

/// What deleting `tree` at `path` comes to: an excluded path is left alone, a
/// file counts with its size once it is removed, a directory is removed after
/// its entries, and every failure is an error that stops nothing else.
pub open spec fn tree_report(
    path: Seq<char>,
    tree: Tree,
    excludes: Seq<Seq<char>>,
    remove_root: bool,
) -> ReportView
    decreases tree,
{
    if excluded(path, excludes) {
        ReportView::empty()
    } else {
        match tree {
            Tree::Missing => ReportView::empty(),
            Tree::Unreadable(reason) => failed_at(path, reason),
            Tree::File { size, removal } => removal_report(path, size, removal),
            Tree::Unlistable(reason) => failed_at(path, reason),
            Tree::Dir { entries, removal } => entries_report(path, entries, excludes).plus(
                if remove_root {
                    removal_report(path, 0, removal)
                } else {
                    ReportView::empty()
                },
            ),
        }
    }
}

/// What deleting the entries of the directory `dir` comes to.
pub open spec fn entries_report(
    dir: Seq<char>,
    entries: Seq<Node>,
    excludes: Seq<Seq<char>>,
) -> ReportView
    decreases entries,
{
    if entries.len() == 0 {
        ReportView::empty()
    } else {
        let first = match entries[0] {
            Node::Broken(reason) => failed_at(dir, reason),
            Node::At(path, tree) => tree_report(path, tree, excludes, true),
        };
        first.plus(entries_report(dir, entries.drop_first(), excludes))
    }
}

/// An action and what the file system answers.
pub struct Exchange {
    pub action: ActionView,
    pub event: EventView,
}

/// The exchanges by which `tree` at `path` is deleted.
pub open spec fn tree_trace(
    path: Seq<char>,
    tree: Tree,
    excludes: Seq<Seq<char>>,
    remove_root: bool,
) -> Seq<Exchange>
    decreases tree,
{
    if excluded(path, excludes) {
        Seq::empty()
    } else {
        match tree {
            Tree::Missing => seq![inspected(path, InspectionView::NotFound)],
            Tree::Unreadable(reason) => seq![inspected(path, InspectionView::Failed(reason))],
            Tree::File { size, removal } => seq![
                inspected(path, InspectionView::File(size)),
                Exchange {
                    action: ActionView::RemoveFile(path),
                    event: EventView::Removed(removal),
                },
            ],
            Tree::Unlistable(reason) => seq![
                inspected(path, InspectionView::Directory),
                listing(path, ListingView::Failed(reason)),
            ],
            Tree::Dir { entries, removal } => seq![
                inspected(path, InspectionView::Directory),
                listing(path, ListingView::Entries(listed(entries))),
            ] + entries_trace(entries, excludes) + dir_trace(path, removal, remove_root),
        }
    }
}

/// The exchanges by which the entries of a directory are deleted.
pub open spec fn entries_trace(entries: Seq<Node>, excludes: Seq<Seq<char>>) -> Seq<Exchange>
    decreases entries,
{
    if entries.len() == 0 {
        Seq::empty()
    } else {
        let first = match entries[0] {
            Node::Broken(reason) => Seq::empty(),
            Node::At(path, tree) => tree_trace(path, tree, excludes, true),
        };
        first + entries_trace(entries.drop_first(), excludes)
    }
}

/// The exchange by which a directory is removed, if it is to be.
pub open spec fn dir_trace(path: Seq<char>, removal: RemovalView, remove: bool) -> Seq<Exchange> {
    if remove {
        seq![
            Exchange { action: ActionView::RemoveDir(path), event: EventView::Removed(removal) },
        ]
    } else {
        Seq::empty()
    }
}

/// The exchange in which a path is inspected.
pub open spec fn inspected(path: Seq<char>, inspection: InspectionView) -> Exchange {
    Exchange { action: ActionView::Inspect(path), event: EventView::Inspected(inspection) }
}

/// The exchange in which a directory is listed.
pub open spec fn listing(path: Seq<char>, found: ListingView) -> Exchange {
    Exchange { action: ActionView::List(path), event: EventView::Listed(found) }
}

/// From `state` the deletion asks for exactly the actions of `trace`, one after
/// the other, and with the answers given there comes to `end`.
pub open spec fn leads_to(
    state: DeletionView,
    trace: Seq<Exchange>,
    end: DeletionView,
    excludes: Seq<Seq<char>>,
) -> bool
    decreases trace.len(),
{
    if trace.len() == 0 {
        state == end
    } else {
        &&& state.action() == trace[0].action
        &&& state.awaits(trace[0].event)
        &&& leads_to(state.next(trace[0].event, excludes), trace.drop_first(), end, excludes)
    }
}

proof fn lemma_leads_then(
    a: DeletionView,
    t1: Seq<Exchange>,
    b: DeletionView,
    t2: Seq<Exchange>,
    c: DeletionView,
    excludes: Seq<Seq<char>>,
)
    requires
        leads_to(a, t1, b, excludes),
        leads_to(b, t2, c, excludes),
    ensures
        leads_to(a, t1 + t2, c, excludes),
    decreases t1.len(),
{
    if t1.len() == 0 {
        assert(t1 + t2 =~= t2);
    } else {
        lemma_leads_then(
            a.next(t1[0].event, excludes),
            t1.drop_first(),
            b,
            t2,
            c,
            excludes,
        );
        assert((t1 + t2).drop_first() =~= t1.drop_first() + t2);
    }
}

proof fn lemma_leads_one(
    a: DeletionView,
    exchange: Exchange,
    excludes: Seq<Seq<char>>,
)
    requires
        a.action() == exchange.action,
        a.awaits(exchange.event),
    ensures
        leads_to(a, seq![exchange], a.next(exchange.event, excludes), excludes),
{
    let t = seq![exchange];
    assert(t.drop_first().len() == 0);
    assert(leads_to(
        a.next(exchange.event, excludes),
        t.drop_first(),
        a.next(exchange.event, excludes),
        excludes,
    ));
}

/// The state in which `path` is about to be deleted, with `frames` still open.
pub open spec fn visiting(
    path: Seq<char>,
    frames: Seq<FrameView>,
    report: ReportView,
    excludes: Seq<Seq<char>>,
    remove_root: bool,
) -> DeletionView {
    if excluded(path, excludes) {
        settled(frames, report, excludes)
    } else {
        DeletionView {
            report,
            frames,
            pending: PendingView::Inspect { path, remove: remove_root },
        }
    }
}

proof fn lemma_tree(
    path: Seq<char>,
    tree: Tree,
    frames: Seq<FrameView>,
    report: ReportView,
    excludes: Seq<Seq<char>>,
    remove_root: bool,
)
    ensures
        leads_to(
            visiting(path, frames, report, excludes, remove_root),
            tree_trace(path, tree, excludes, remove_root),
            settled(
                frames,
                report.plus(tree_report(path, tree, excludes, remove_root)),
                excludes,
            ),
            excludes,
        ),
    decreases tree, 0int,
{
    let a = visiting(path, frames, report, excludes, remove_root);
    let end = settled(
        frames,
        report.plus(tree_report(path, tree, excludes, remove_root)),
        excludes,
    );
    law_merge_monoid(report, ReportView::empty(), ReportView::empty());
    if !excluded(path, excludes) {
        match tree {
            Tree::Missing => {
                lemma_leads_one(a, inspected(path, InspectionView::NotFound), excludes);
            },
            Tree::Unreadable(reason) => {
                lemma_leads_one(a, inspected(path, InspectionView::Failed(reason)), excludes);
                assert(report.with_error(error_at(path, reason)) =~= report.plus(
                    failed_at(path, reason),
                ));
            },
            Tree::File { size, removal } => {
                let first = inspected(path, InspectionView::File(size));
                let second = Exchange {
                    action: ActionView::RemoveFile(path),
                    event: EventView::Removed(removal),
                };
                let b = a.next(first.event, excludes);
                lemma_leads_one(a, first, excludes);
                lemma_leads_one(b, second, excludes);
                lemma_leads_then(a, seq![first], b, seq![second], end, excludes);
                assert(seq![first] + seq![second] =~= seq![first, second]);
            },
            Tree::Unlistable(reason) => {
                let first = inspected(path, InspectionView::Directory);
                let second = listing(path, ListingView::Failed(reason));
                let b = a.next(first.event, excludes);
                lemma_leads_one(a, first, excludes);
                lemma_leads_one(b, second, excludes);
                assert(report.with_error(error_at(path, reason)) =~= report.plus(
                    failed_at(path, reason),
                ));
                lemma_leads_then(a, seq![first], b, seq![second], end, excludes);
                assert(seq![first] + seq![second] =~= seq![first, second]);
            },
            Tree::Dir { entries, removal } => {
                let first = inspected(path, InspectionView::Directory);
                let b = a.next(first.event, excludes);
                lemma_leads_one(a, first, excludes);
                assert(b == DeletionView {
                    report,
                    frames,
                    pending: PendingView::List { path, remove: remove_root },
                });
                lemma_dir(path, entries, removal, frames, report, excludes, remove_root);
                let rest = seq![listing(path, ListingView::Entries(listed(entries)))]
                    + entries_trace(entries, excludes) + dir_trace(path, removal, remove_root);
                lemma_leads_then(a, seq![first], b, rest, end, excludes);
                assert(seq![first] + rest =~= tree_trace(path, tree, excludes, remove_root));
            },
        }
    }
}

proof fn lemma_dir(
    path: Seq<char>,
    entries: Seq<Node>,
    removal: RemovalView,
    frames: Seq<FrameView>,
    report: ReportView,
    excludes: Seq<Seq<char>>,
    remove_root: bool,
)
    ensures
        leads_to(
            DeletionView {
                report,
                frames,
                pending: PendingView::List { path, remove: remove_root },
            },
            seq![listing(path, ListingView::Entries(listed(entries)))] + entries_trace(
                entries,
                excludes,
            ) + dir_trace(path, removal, remove_root),
            settled(
                frames,
                report.plus(
                    entries_report(path, entries, excludes).plus(
                        if remove_root {
                            removal_report(path, 0, removal)
                        } else {
                            ReportView::empty()
                        },
                    ),
                ),
                excludes,
            ),
            excludes,
        ),
    decreases entries, 1int,
{
    let b = DeletionView {
        report,
        frames,
        pending: PendingView::List { path, remove: remove_root },
    };
    let second = listing(path, ListingView::Entries(listed(entries)));
    let c = b.next(second.event, excludes);
    lemma_leads_one(b, second, excludes);
    lemma_entries(path, remove_root, entries, frames, report, excludes);
    let sum = report.plus(entries_report(path, entries, excludes));
    let bare = FrameView { dir: path, remove: remove_root, entries: Seq::empty() };
    let d = settled(frames.push(bare), sum, excludes);
    let t2 = seq![second] + entries_trace(entries, excludes);
    lemma_leads_then(b, seq![second], c, entries_trace(entries, excludes), d, excludes);
    assert(frames.push(bare).drop_last() =~= frames);
    let own = if remove_root {
        removal_report(path, 0, removal)
    } else {
        ReportView::empty()
    };
    law_merge_monoid(report, entries_report(path, entries, excludes), own);
    law_merge_monoid(sum, own, own);
    let end = settled(frames, sum.plus(own), excludes);
    let t3 = dir_trace(path, removal, remove_root);
    if remove_root {
        let third = Exchange {
            action: ActionView::RemoveDir(path),
            event: EventView::Removed(removal),
        };
        lemma_leads_one(d, third, excludes);
    } else {
        assert(leads_to(d, t3, end, excludes));
    }
    lemma_leads_then(b, t2, d, t3, end, excludes);
}

proof fn lemma_entries(
    dir: Seq<char>,
    remove: bool,
    entries: Seq<Node>,
    frames: Seq<FrameView>,
    report: ReportView,
    excludes: Seq<Seq<char>>,
)
    ensures
        leads_to(
            settled(
                frames.push(FrameView { dir, remove, entries: listed(entries) }),
                report,
                excludes,
            ),
            entries_trace(entries, excludes),
            settled(
                frames.push(FrameView { dir, remove, entries: Seq::empty() }),
                report.plus(entries_report(dir, entries, excludes)),
                excludes,
            ),
            excludes,
        ),
    decreases entries, 0int,
{
    let top = FrameView { dir, remove, entries: listed(entries) };
    let all = frames.push(top);
    if entries.len() == 0 {
        assert(listed(entries) =~= Seq::empty());
        law_merge_monoid(report, report, report);
    } else {
        let tail = entries.drop_first();
        let rest = FrameView { dir, remove, entries: listed(tail) };
        assert(listed(entries).drop_first() =~= listed(tail));
        assert(top.rest() == rest);
        assert(all.drop_last() =~= frames);
        assert(all.last() == top);
        match entries[0] {
            Node::Broken(reason) => {
                assert(listed(entries)[0] == EntryView::Broken(reason));
                let sum = report.with_error(error_at(dir, reason));
                assert(sum =~= report.plus(failed_at(dir, reason)));
                lemma_entries(dir, remove, tail, frames, sum, excludes);
                law_merge_monoid(
                    report,
                    failed_at(dir, reason),
                    entries_report(dir, tail, excludes),
                );
                assert(entries_trace(entries, excludes) =~= entries_trace(tail, excludes));
            },
            Node::At(path, tree) => {
                assert(listed(entries)[0] == EntryView::At(path));
                let a = settled(all, report, excludes);
                assert(a == visiting(path, frames.push(rest), report, excludes, true));
                lemma_tree(path, tree, frames.push(rest), report, excludes, true);
                let first = tree_report(path, tree, excludes, true);
                let sum = report.plus(first);
                lemma_entries(dir, remove, tail, frames, sum, excludes);
                law_merge_monoid(report, first, entries_report(dir, tail, excludes));
                let b = settled(frames.push(rest), sum, excludes);
                let end = settled(
                    frames.push(FrameView { dir, remove, entries: Seq::empty() }),
                    sum.plus(entries_report(dir, tail, excludes)),
                    excludes,
                );
                lemma_leads_then(
                    a,
                    tree_trace(path, tree, excludes, true),
                    b,
                    entries_trace(tail, excludes),
                    end,
                    excludes,
                );
            },
        }
    }
}

/// A deletion that is over with this report.
pub open spec fn finished(report: ReportView) -> DeletionView {
    DeletionView { report, frames: Seq::empty(), pending: PendingView::Done }
}

/// Deleting a path is deleting the tree that lies there: whatever the tree, the
/// deletion asks for just the actions that the tree calls for, ends, and reports
/// what the tree comes to.
pub proof fn law_delete_path(
    path: Seq<char>,
    tree: Tree,
    excludes: Seq<Seq<char>>,
    remove_root: bool,
)
    ensures
        leads_to(
            path_start(path, excludes, remove_root),
            tree_trace(path, tree, excludes, remove_root),
            finished(tree_report(path, tree, excludes, remove_root)),
            excludes,
        ),
{
    lemma_tree(path, tree, Seq::empty(), ReportView::empty(), excludes, remove_root);
    law_merge_monoid(
        tree_report(path, tree, excludes, remove_root),
        ReportView::empty(),
        ReportView::empty(),
    );
    assert(path_start(path, excludes, remove_root) == visiting(
        path,
        Seq::empty(),
        ReportView::empty(),
        excludes,
        remove_root,
    ));
}

/// Deleting the contents of a directory is deleting its entries, and the
/// directory stays.
pub proof fn law_delete_directory_contents(
    path: Seq<char>,
    entries: Seq<Node>,
    excludes: Seq<Seq<char>>,
)
    requires
        !excluded(path, excludes),
    ensures
        leads_to(
            contents_start(path, true, excludes),
            seq![listing(path, ListingView::Entries(listed(entries)))] + entries_trace(
                entries,
                excludes,
            ),
            finished(entries_report(path, entries, excludes)),
            excludes,
        ),
{
    lemma_dir(
        path,
        entries,
        RemovalView::Removed,
        Seq::empty(),
        ReportView::empty(),
        excludes,
        false,
    );
    let sum = entries_report(path, entries, excludes);
    law_merge_monoid(sum, ReportView::empty(), ReportView::empty());
    let trace = seq![listing(path, ListingView::Entries(listed(entries)))] + entries_trace(
        entries,
        excludes,
    );
    assert(trace + dir_trace(path, RemovalView::Removed, false) =~= trace);
}

/// A directory that cannot be listed keeps its contents, and the reason is reported.
pub proof fn law_unlistable_contents(
    path: Seq<char>,
    reason: Seq<char>,
    excludes: Seq<Seq<char>>,
)
    requires
        !excluded(path, excludes),
    ensures
        leads_to(
            contents_start(path, true, excludes),
            seq![listing(path, ListingView::Failed(reason))],
            finished(failed_at(path, reason)),
            excludes,
        ),
{
    lemma_leads_one(
        contents_start(path, true, excludes),
        listing(path, ListingView::Failed(reason)),
        excludes,
    );
    assert(ReportView::empty().with_error(error_at(path, reason)) =~= failed_at(path, reason));
}

/// Deleting a list of paths is deleting the tree at each of them, one after the
/// other: an error at one does not stop the next.
pub proof fn law_delete_paths(
    paths: Seq<Seq<char>>,
    trees: Seq<Tree>,
    excludes: Seq<Seq<char>>,
)
    requires
        paths.len() == trees.len(),
    ensures
        ({
            let nodes = Seq::new(paths.len(), |i: int| Node::At(paths[i], trees[i]));
            leads_to(
                paths_start(paths, excludes),
                entries_trace(nodes, excludes),
                finished(entries_report(Seq::empty(), nodes, excludes)),
                excludes,
            )
        }),
{
    let nodes = Seq::new(paths.len(), |i: int| Node::At(paths[i], trees[i]));
    let entries = paths.map_values(|path: Seq<char>| EntryView::At(path));
    let none: Seq<FrameView> = Seq::empty();
    let dir: Seq<char> = Seq::empty();
    assert(listed(nodes) =~= entries);
    lemma_entries(dir, false, nodes, none, ReportView::empty(), excludes);
    let frame = FrameView { dir, remove: false, entries };
    assert(none.push(frame) =~= seq![frame]);
    let sum = entries_report(dir, nodes, excludes);
    law_merge_monoid(sum, ReportView::empty(), ReportView::empty());
    let bare = FrameView { dir, remove: false, entries: Seq::empty() };
    assert(none.push(bare).drop_last() =~= none);
    assert(settled(none.push(bare), sum, excludes) == settled(none, sum, excludes));
}

/// In the whole course of a deletion no action is about an excluded path, nor, by
/// `law_excluded_beneath`, about a path beneath one.
pub proof fn law_no_action_on_excluded(
    state: DeletionView,
    trace: Seq<Exchange>,
    end: DeletionView,
    excludes: Seq<Seq<char>>,
)
    requires
        respects(state, excludes),
        leads_to(state, trace, end, excludes),
    ensures
        forall|i: int|
            0 <= i < trace.len() ==> (action_path((#[trigger] trace[i]).action) matches Some(path)
                && !excluded(path, excludes)),
    decreases trace.len(),
{
    if trace.len() > 0 {
        let rest = trace.drop_first();
        law_excluded_left_alone(state, trace[0].event, excludes);
        law_no_action_on_excluded(
            state.next(trace[0].event, excludes),
            rest,
            end,
            excludes,
        );
        assert forall|i: int| 0 <= i < trace.len() implies (action_path(
            (#[trigger] trace[i]).action,
        ) matches Some(path) && !excluded(path, excludes)) by {
            if i > 0 {
                assert(trace[i] == rest[i - 1]);
            }
        }
    }
}

/// Every entry lies within `root`.
pub open spec fn entries_within(entries: Seq<EntryView>, root: Seq<char>) -> bool {
    forall|i: int|
        0 <= i < entries.len() ==> (#[trigger] entries[i] matches EntryView::At(path)
            ==> path_within(path, root))
}

/// Everything that is still to be deleted lies within `root`.
pub open spec fn confined(state: DeletionView, root: Seq<char>) -> bool {
    &&& action_path(state.action()) matches Some(path) ==> path_within(path, root)
    &&& frames_confined(state.frames, root)
}

/// The directories that are open and their entries lie within `root`.
pub open spec fn frames_confined(frames: Seq<FrameView>, root: Seq<char>) -> bool {
    forall|i: int|
        0 <= i < frames.len() ==> path_within((#[trigger] frames[i]).dir, root)
            && entries_within(frames[i].entries, root)
}

proof fn lemma_settled_confined(
    frames: Seq<FrameView>,
    report: ReportView,
    excludes: Seq<Seq<char>>,
    root: Seq<char>,
)
    requires
        frames_confined(frames, root),
    ensures
        confined(settled(frames, report, excludes), root),
    decreases
            frames.len(),
            if frames.len() > 0 {
                frames.last().entries.len()
            } else {
                0
            },
{
    if frames.len() > 0 {
        let top = frames[frames.len() - 1];
        let below = frames.drop_last();
        assert(frames_confined(below, root)) by {
            assert forall|i: int| 0 <= i < below.len() implies path_within(
                (#[trigger] below[i]).dir,
                root,
            ) && entries_within(below[i].entries, root) by {
                assert(frames[i] == below[i]);
            }
        }
        if top.entries.len() == 0 {
            if !top.remove {
                lemma_settled_confined(below, report, excludes, root);
            }
        } else {
            let left = below.push(top.rest());
            assert(entries_within(top.rest().entries, root)) by {
                assert forall|i: int| 0 <= i < top.rest().entries.len() implies (
                #[trigger] top.rest().entries[i] matches EntryView::At(path) ==> path_within(
                    path,
                    root,
                )) by {
                    assert(top.rest().entries[i] == top.entries[i + 1]);
                }
            }
            assert(frames_confined(left, root)) by {
                assert forall|i: int| 0 <= i < left.len() implies path_within(
                    (#[trigger] left[i]).dir,
                    root,
                ) && entries_within(left[i].entries, root) by {
                    if i < below.len() {
                        assert(left[i] == below[i]);
                    }
                }
            }
            match top.entries[0] {
                EntryView::Broken(reason) => {
                    lemma_settled_confined(
                        left,
                        report.with_error(error_at(top.dir, reason)),
                        excludes,
                        root,
                    );
                },
                EntryView::At(path) => {
                    if excluded(path, excludes) {
                        lemma_settled_confined(left, report, excludes, root);
                    }
                },
            }
        }
    }
}

/// A deletion stays within its root, as long as a directory is listed with
/// entries that lie within it.
pub proof fn law_deletion_confined(
    state: DeletionView,
    event: EventView,
    excludes: Seq<Seq<char>>,
    root: Seq<char>,
)
    requires
        confined(state, root),
        (state.pending, event) matches (
            PendingView::List { path, .. },
            EventView::Listed(ListingView::Entries(entries)),
        ) ==> entries_within(entries, path),
    ensures
        confined(state.next(event, excludes), root),
{
    match (state.pending, event) {
        (PendingView::Inspect { path, remove }, EventView::Inspected(inspection)) => {
            match inspection {
                InspectionView::NotFound => {
                    lemma_settled_confined(state.frames, state.report, excludes, root);
                },
                InspectionView::Failed(reason) => {
                    lemma_settled_confined(
                        state.frames,
                        state.report.with_error(error_at(path, reason)),
                        excludes,
                        root,
                    );
                },
                InspectionView::Directory => {},
                InspectionView::File(size) => {},
            }
        },
        (PendingView::List { path, remove }, EventView::Listed(found)) => {
            match found {
                ListingView::Failed(reason) => {
                    lemma_settled_confined(
                        state.frames,
                        state.report.with_error(error_at(path, reason)),
                        excludes,
                        root,
                    );
                },
                ListingView::Entries(entries) => {
                    let frame = FrameView { dir: path, remove, entries };
                    assert(entries_within(entries, root)) by {
                        assert forall|i: int| 0 <= i < entries.len() implies (
                        #[trigger] entries[i] matches EntryView::At(p) ==> path_within(
                            p,
                            root,
                        )) by {
                            if let EntryView::At(p) = entries[i] {
                                lemma_within_transitive(p, path, root);
                            }
                        }
                    }
                    lemma_settled_confined(state.frames.push(frame), state.report, excludes, root);
                },
            }
        },
        (PendingView::RemoveFile { path, size }, EventView::Removed(removal)) => {
            lemma_settled_confined(
                state.frames,
                state.report.plus(removal_report(path, size, removal)),
                excludes,
                root,
            );
        },
        (PendingView::RemoveDir { path }, EventView::Removed(removal)) => {
            lemma_settled_confined(
                state.frames,
                state.report.plus(removal_report(path, 0, removal)),
                excludes,
                root,
            );
        },
        _ => {},
    }
}

/// A deletion starts within its root.
pub proof fn law_starts_confined(
    path: Seq<char>,
    present: bool,
    remove_root: bool,
    excludes: Seq<Seq<char>>,
)
    ensures
        confined(path_start(path, excludes, remove_root), path),
        confined(contents_start(path, present, excludes), path),
{
    let own = components(path);
    assert(own.take(own.len() as int) =~= own);
}

proof fn lemma_settled_report(
    frames: Seq<FrameView>,
    report: ReportView,
    excludes: Seq<Seq<char>>,
)
    ensures
        settled(frames, report, excludes).report.freed == report.freed,
        report.errors.is_prefix_of(settled(frames, report, excludes).report.errors),
    decreases
            frames.len(),
            if frames.len() > 0 {
                frames.last().entries.len()
            } else {
                0
            },
{
    let after = settled(frames, report, excludes);
    assert(report.errors.take(report.errors.len() as int) =~= report.errors);
    if frames.len() > 0 {
        let top = frames.last();
        let below = frames.drop_last();
        if top.entries.len() == 0 {
            if !top.remove {
                lemma_settled_report(below, report, excludes);
            }
        } else {
            let left = below.push(top.rest());
            match top.entries[0] {
                EntryView::Broken(reason) => {
                    let more = report.with_error(error_at(top.dir, reason));
                    lemma_settled_report(left, more, excludes);
                    assert(after.report.errors.take(report.errors.len() as int)
                        =~= report.errors) by {
                        assert forall|i: int| 0 <= i < report.errors.len() implies
                            after.report.errors[i] == report.errors[i] by {
                            assert(after.report.errors.take(more.errors.len() as int)[i]
                                == more.errors[i]);
                        }
                    }
                },
                EntryView::At(path) => {
                    if excluded(path, excludes) {
                        lemma_settled_report(left, report, excludes);
                    }
                },
            }
        }
    }
}

/// A deletion counts just the files that it removed: the bytes that it has freed grow by the
/// size of a file when the file is reported as removed, and by nothing else. No error that
/// it has noted gets lost.
pub proof fn law_deletion_counts_removed(
    state: DeletionView,
    event: EventView,
    excludes: Seq<Seq<char>>,
)
    requires
        state.awaits(event),
    ensures
        state.next(event, excludes).report.freed == state.report.freed + if state.pending
            is RemoveFile && event == EventView::Removed(RemovalView::Removed) {
            state.pending->RemoveFile_size
        } else {
            0
        },
        state.report.errors.is_prefix_of(state.next(event, excludes).report.errors),
{
    let own = state.report;
    assert(own.errors.take(own.errors.len() as int) =~= own.errors);
    let report = match (state.pending, event) {
        (PendingView::Inspect { path, .. }, EventView::Inspected(inspection)) => match inspection {
            InspectionView::Failed(reason) => own.with_error(error_at(path, reason)),
            _ => own,
        },
        (PendingView::List { path, .. }, EventView::Listed(listing)) => match listing {
            ListingView::Failed(reason) => own.with_error(error_at(path, reason)),
            _ => own,
        },
        (PendingView::RemoveFile { path, size }, EventView::Removed(removal)) => own.plus(
            removal_report(path, size, removal),
        ),
        (PendingView::RemoveDir { path }, EventView::Removed(removal)) => own.plus(
            removal_report(path, 0, removal),
        ),
        _ => own,
    };
    let frames = match (state.pending, event) {
        (
            PendingView::List { path, remove },
            EventView::Listed(ListingView::Entries(entries)),
        ) => state.frames.push(FrameView { dir: path, remove, entries }),
        _ => state.frames,
    };
    lemma_settled_report(frames, report, excludes);
    let after = state.next(event, excludes).report;
    assert(after.errors.take(own.errors.len() as int) =~= own.errors) by {
        assert forall|i: int| 0 <= i < own.errors.len() implies after.errors[i]
            == own.errors[i] by {
            if after != own {
                assert(after.errors.take(report.errors.len() as int)[i] == report.errors[i]);
            }
        }
    }
}

/// What fails is noted with its path and the reason: looking at a path, listing a directory,
/// and removing a file or a directory. What is gone already is no error.
pub proof fn law_deletion_notes_failures(
    state: DeletionView,
    reason: Seq<char>,
    excludes: Seq<Seq<char>>,
)
    requires
        state.frames.len() == 0,
    ensures
        ({
            let failed = EventView::Removed(RemovalView::Failed(reason));
            let gone = EventView::Removed(RemovalView::NotFound);
            &&& state.pending matches PendingView::Inspect { path, .. } ==> state.next(
                EventView::Inspected(InspectionView::Failed(reason)),
                excludes,
            ).report.errors == state.report.errors + seq![path + ": "@ + reason]
            &&& state.pending is Inspect ==> state.next(
                EventView::Inspected(InspectionView::NotFound),
                excludes,
            ).report == state.report
            &&& state.pending matches PendingView::List { path, .. } ==> state.next(
                EventView::Listed(ListingView::Failed(reason)),
                excludes,
            ).report.errors == state.report.errors + seq![path + ": "@ + reason]
            &&& state.pending matches PendingView::RemoveFile { path, .. } ==> state.next(
                failed,
                excludes,
            ).report.errors == state.report.errors + seq![path + ": "@ + reason]
            &&& state.pending matches PendingView::RemoveDir { path } ==> state.next(
                failed,
                excludes,
            ).report.errors == state.report.errors + seq![path + ": "@ + reason]
            &&& state.pending is RemoveFile || state.pending is RemoveDir ==> state.next(
                gone,
                excludes,
            ).report.errors == state.report.errors
        }),
{
    assert forall|path: Seq<char>| #[trigger]
        state.report.errors.push(error_at(path, reason)) == state.report.errors + seq![
            path + ": "@ + reason,
        ] by {
        assert(state.report.errors.push(error_at(path, reason)) =~= state.report.errors + seq![
            path + ": "@ + reason,
        ]);
    }
    assert(state.report.errors + Seq::<Seq<char>>::empty() =~= state.report.errors);
}

/// What a deletion asks for next: a file is removed, a directory is listed, and what it
/// lists first is looked at, unless it is excluded. A directory without entries is removed
/// if it is to go.
pub proof fn law_deletion_goes_on(
    state: DeletionView,
    size: nat,
    entries: Seq<EntryView>,
    excludes: Seq<Seq<char>>,
)
    ensures
        state.pending matches PendingView::Inspect { path, .. } ==> state.next(
            EventView::Inspected(InspectionView::File(size)),
            excludes,
        ).action() == ActionView::RemoveFile(path),
        state.pending matches PendingView::Inspect { path, .. } ==> state.next(
            EventView::Inspected(InspectionView::Directory),
            excludes,
        ).action() == ActionView::List(path),
        state.pending is List && entries.len() > 0 ==> (entries[0] matches EntryView::At(first)
            ==> (forall|k: int|
            0 <= k < excludes.len() ==> !path_within(first, #[trigger] excludes[k])) ==> state.next(
            EventView::Listed(ListingView::Entries(entries)),
            excludes,
        ).action() == ActionView::Inspect(first)),
        state.pending matches PendingView::List { path, remove } ==> entries.len() == 0 && remove
            ==> state.next(
            EventView::Listed(ListingView::Entries(entries)),
            excludes,
        ).action() == ActionView::RemoveDir(path),
{
    if let PendingView::List { path, remove } = state.pending {
        let frames = state.frames.push(FrameView { dir: path, remove, entries });
        assert(frames.drop_last() =~= state.frames);
        assert(frames.last() == FrameView { dir: path, remove, entries });
    }
}

/// How a deletion starts: with the path, or with what the directory holds, unless it is
/// excluded or, for a directory, not there. Nothing is freed yet.
pub proof fn law_deletion_starts(
    path: Seq<char>,
    present: bool,
    remove_root: bool,
    excludes: Seq<Seq<char>>,
)
    ensures
        ({
            let out = exists|i: int|
                0 <= i < excludes.len() && path_within(path, #[trigger] excludes[i]);
            let a = path_start(path, excludes, remove_root);
            let b = contents_start(path, present, excludes);
            &&& a.action() == if out {
                ActionView::Done
            } else {
                ActionView::Inspect(path)
            }
            &&& b.action() == if out || !present {
                ActionView::Done
            } else {
                ActionView::List(path)
            }
            &&& a.report.freed == 0 && a.report.errors.len() == 0
            &&& b.report.freed == 0 && b.report.errors.len() == 0
        }),
{
}

/// The entries of a directory are taken in turn: one that could not be read is an error at
/// the directory, an excluded one is passed over, and for any other the rest waits.
pub proof fn law_entries_in_turn(
    below: Seq<FrameView>,
    dir: Seq<char>,
    remove: bool,
    first: EntryView,
    rest: Seq<EntryView>,
    report: ReportView,
    excludes: Seq<Seq<char>>,
)
    ensures
        ({
            let all = FrameView { dir, remove, entries: seq![first] + rest };
            let left = below.push(FrameView { dir, remove, entries: rest });
            let next = settled(below.push(all), report, excludes);
            match first {
                EntryView::Broken(reason) => next == settled(
                    left,
                    ReportView {
                        freed: report.freed,
                        errors: report.errors + seq![dir + ": "@ + reason],
                    },
                    excludes,
                ),
                EntryView::At(path) => if exists|k: int|
                    0 <= k < excludes.len() && path_within(path, #[trigger] excludes[k]) {
                    next == settled(left, report, excludes)
                } else {
                    next.action() == ActionView::Inspect(path) && next.frames == left
                        && next.report == report
                },
            }
        }),
        settled(Seq::empty(), report, excludes).action() is Done,
        settled(Seq::empty(), report, excludes).report == report,
        remove ==> settled(
            below.push(FrameView { dir, remove, entries: Seq::empty() }),
            report,
            excludes,
        ).action() == ActionView::RemoveDir(dir),
        !remove ==> settled(
            below.push(FrameView { dir, remove, entries: Seq::empty() }),
            report,
            excludes,
        ) == settled(below, report, excludes),
{
    let entries = seq![first] + rest;
    let all = FrameView { dir, remove, entries };
    let none = FrameView { dir, remove, entries: Seq::empty() };
    assert(below.push(all).drop_last() =~= below);
    assert(below.push(none).drop_last() =~= below);
    assert(entries.drop_first() =~= rest);
    assert(all.rest() == FrameView { dir, remove, entries: rest });
    if let EntryView::Broken(reason) = first {
        assert(report.errors.push(error_at(dir, reason)) =~= report.errors + seq![
            dir + ": "@ + reason,
        ]);
    }
}

} // verus!
