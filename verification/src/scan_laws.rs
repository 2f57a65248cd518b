//! What a scan foretells: the bytes that it counts are those that a deletion with
//! the same excluded paths frees.

use crate::delete::{contents_start, path_start, ListingView};
use crate::delete_laws::{
    action_path, entries_report, entries_trace, finished, law_delete_directory_contents,
    law_delete_path, law_no_action_on_excluded, law_starts_respect, leads_to, listed, listing,
    tree_report, tree_trace, Exchange, Node, Tree,
};
use crate::path::{
    components, excluded, law_excluded_beneath, lemma_within_transitive, path_within,
};
use crate::report::{law_merge_monoid, ReportView};
use crate::scan::{entry_bytes, total_bytes, wrapped, EntryKind, WalkEntry};
use vstd::prelude::*;

verus! {

/// The tree at `path` holds nothing but files and directories that can be read, its
/// files can be removed, and what a directory holds lies beneath it. A directory
/// need not be removable: one that holds an excluded file is not.
pub open spec fn plain_tree(path: Seq<char>, tree: Tree) -> bool
    decreases tree,
{
    match tree {
        Tree::File { removal, .. } => removal is Removed,
        Tree::Dir { entries, .. } => plain_entries(path, entries),
        _ => false,
    }
}

/// The same of what the directory `dir` holds.
pub open spec fn plain_entries(dir: Seq<char>, entries: Seq<Node>) -> bool
    decreases entries,
{
    entries.len() > 0 ==> {
        &&& match entries[0] {
            Node::At(path, tree) => path_within(path, dir) && plain_tree(path, tree),
            Node::Broken(_) => false,
        }
        &&& plain_entries(dir, entries.drop_first())
    }
}

/// The files of the tree at `path`, with their sizes.
pub open spec fn files_of_tree(path: Seq<char>, tree: Tree) -> Seq<(Seq<char>, nat)>
    decreases tree,
{
    match tree {
        Tree::File { size, .. } => seq![(path, size)],
        Tree::Dir { entries, .. } => files_of(entries),
        _ => Seq::empty(),
    }
}

/// The files beneath the entries of a directory, with their sizes.
pub open spec fn files_of(entries: Seq<Node>) -> Seq<(Seq<char>, nat)>
    decreases entries,
{
    if entries.len() == 0 {
        Seq::empty()
    } else {
        let first = match entries[0] {
            Node::At(path, tree) => files_of_tree(path, tree),
            Node::Broken(_) => Seq::empty(),
        };
        first + files_of(entries.drop_first())
    }
}

/// The file that an entry of a walk is, if it is one whose size is known.
pub open spec fn seen_file(entry: WalkEntry) -> Option<(Seq<char>, nat)> {
    match entry {
        WalkEntry::Entry { path, kind: EntryKind::File, size: Some(size), .. } => Some(
            (path@, size as nat),
        ),
        _ => None,
    }
}

/// The files that a walk met, with their sizes.
pub open spec fn seen_files(walk: Seq<WalkEntry>) -> Seq<(Seq<char>, nat)> {
    walk.filter_map(|entry: WalkEntry| seen_file(entry))
}

/// The walk met just these files, in whatever order.
pub open spec fn walk_meets(walk: Seq<WalkEntry>, files: Seq<(Seq<char>, nat)>) -> bool {
    seen_files(walk).to_multiset() == files.to_multiset()
}

/// The bytes that a file counts with.
spec fn file_bytes(file: (Seq<char>, nat), excludes: Seq<Seq<char>>) -> nat {
    if excluded(file.0, excludes) {
        0
    } else {
        file.1
    }
}

/// The bytes of the files that are not excluded.
spec fn counted(files: Seq<(Seq<char>, nat)>, excludes: Seq<Seq<char>>) -> nat
    decreases files.len(),
{
    if files.len() == 0 {
        0
    } else {
        counted(files.drop_last(), excludes) + file_bytes(files.last(), excludes)
    }
}

proof fn lemma_scan_counts(walk: Seq<WalkEntry>, excludes: Seq<Seq<char>>)
    ensures
        total_bytes(walk, excludes) == counted(seen_files(walk), excludes),
    decreases walk.len(),
{
    let read = |entry: WalkEntry| seen_file(entry);
    if walk.len() > 0 {
        let front = walk.drop_last();
        lemma_scan_counts(front, excludes);
        assert(seen_files(front) == front.filter_map(read));
        match read(walk.last()) {
            Some(file) => {
                assert(seen_files(walk) == seen_files(front) + seq![file]);
                assert(seen_files(walk).drop_last() =~= seen_files(front));
                assert(entry_bytes(walk.last(), excludes) == file_bytes(file, excludes));
            },
            None => {
                assert(seen_files(walk) == seen_files(front));
                assert(entry_bytes(walk.last(), excludes) == 0);
            },
        }
    }
}

proof fn lemma_counted_add(
    a: Seq<(Seq<char>, nat)>,
    b: Seq<(Seq<char>, nat)>,
    excludes: Seq<Seq<char>>,
)
    ensures
        counted(a + b, excludes) == counted(a, excludes) + counted(b, excludes),
    decreases b.len(),
{
    if b.len() == 0 {
        assert(a + b =~= a);
    } else {
        assert((a + b).drop_last() =~= a + b.drop_last());
        lemma_counted_add(a, b.drop_last(), excludes);
    }
}

proof fn lemma_counted_one(file: (Seq<char>, nat), excludes: Seq<Seq<char>>)
    ensures
        counted(seq![file], excludes) == file_bytes(file, excludes),
{
    assert(seq![file].drop_last().len() == 0);
    assert(counted(seq![file].drop_last(), excludes) == 0);
}

/// In whatever order the files stand, they count the same.
proof fn lemma_counted_order(
    a: Seq<(Seq<char>, nat)>,
    b: Seq<(Seq<char>, nat)>,
    excludes: Seq<Seq<char>>,
)
    requires
        a.to_multiset() == b.to_multiset(),
    ensures
        counted(a, excludes) == counted(b, excludes),
    decreases a.len(),
{
    broadcast use vstd::seq_lib::group_to_multiset_ensures;

    assert(a.len() == a.to_multiset().len());
    assert(b.len() == b.to_multiset().len());
    if a.len() > 0 {
        let x = a.last();
        assert(a.contains(x));
        assert(a.to_multiset().count(x) > 0);
        assert(b.contains(x));
        let i = choose|i: int| 0 <= i < b.len() && b[i] == x;
        let head = b.take(i);
        let tail = b.skip(i + 1);
        assert(b =~= head + (seq![x] + tail));
        assert(b.remove(i) =~= head + tail);
        assert(a.remove(a.len() - 1) =~= a.drop_last());
        lemma_counted_add(head, seq![x] + tail, excludes);
        lemma_counted_add(seq![x], tail, excludes);
        lemma_counted_add(head, tail, excludes);
        lemma_counted_one(x, excludes);
        lemma_counted_order(a.drop_last(), b.remove(i), excludes);
    }
}

proof fn lemma_tree_files_within(path: Seq<char>, tree: Tree, i: int)
    requires
        plain_tree(path, tree),
        0 <= i < files_of_tree(path, tree).len(),
    ensures
        path_within(files_of_tree(path, tree)[i].0, path),
    decreases tree, 0int,
{
    match tree {
        Tree::Dir { entries, .. } => {
            lemma_files_within(path, entries, i);
        },
        _ => {
            let own = components(path);
            assert(own.take(own.len() as int) =~= own);
        },
    }
}

proof fn lemma_files_within(dir: Seq<char>, entries: Seq<Node>, i: int)
    requires
        plain_entries(dir, entries),
        0 <= i < files_of(entries).len(),
    ensures
        path_within(files_of(entries)[i].0, dir),
    decreases entries, 0int,
{
    if let Node::At(path, tree) = entries[0] {
        let first = files_of_tree(path, tree);
        if i < first.len() {
            lemma_tree_files_within(path, tree, i);
            lemma_within_transitive(first[i].0, path, dir);
        } else {
            lemma_files_within(dir, entries.drop_first(), i - first.len());
        }
    }
}

proof fn lemma_all_excluded(files: Seq<(Seq<char>, nat)>, excludes: Seq<Seq<char>>)
    requires
        forall|i: int| 0 <= i < files.len() ==> excluded((#[trigger] files[i]).0, excludes),
    ensures
        counted(files, excludes) == 0,
    decreases files.len(),
{
    if files.len() > 0 {
        let front = files.drop_last();
        assert(excluded(files[files.len() - 1].0, excludes));
        assert forall|i: int| 0 <= i < front.len() implies excluded(
            (#[trigger] front[i]).0,
            excludes,
        ) by {
            assert(front[i] == files[i]);
        }
        lemma_all_excluded(front, excludes);
    }
}

proof fn lemma_tree_frees(
    path: Seq<char>,
    tree: Tree,
    excludes: Seq<Seq<char>>,
    remove_root: bool,
)
    requires
        plain_tree(path, tree),
    ensures
        tree_report(path, tree, excludes, remove_root).freed == counted(
            files_of_tree(path, tree),
            excludes,
        ),
    decreases tree, 0int,
{
    let files = files_of_tree(path, tree);
    if excluded(path, excludes) {
        assert forall|i: int| 0 <= i < files.len() implies excluded(
            (#[trigger] files[i]).0,
            excludes,
        ) by {
            lemma_tree_files_within(path, tree, i);
            law_excluded_beneath(path, files[i].0, excludes);
        }
        lemma_all_excluded(files, excludes);
    } else {
        match tree {
            Tree::File { size, .. } => {
                lemma_counted_one((path, size), excludes);
            },
            Tree::Dir { entries, .. } => {
                lemma_entries_free(path, entries, excludes);
            },
            _ => {},
        }
    }
}

proof fn lemma_entries_free(dir: Seq<char>, entries: Seq<Node>, excludes: Seq<Seq<char>>)
    requires
        plain_entries(dir, entries),
    ensures
        entries_report(dir, entries, excludes).freed == counted(files_of(entries), excludes),
    decreases entries, 0int,
{
    if entries.len() > 0 {
        let rest = entries.drop_first();
        if let Node::At(path, tree) = entries[0] {
            lemma_tree_frees(path, tree, excludes, true);
            lemma_entries_free(dir, rest, excludes);
            lemma_counted_add(files_of_tree(path, tree), files_of(rest), excludes);
        }
    }
}

/// No exchange of a deletion is about an excluded path.
pub open spec fn spares(trace: Seq<Exchange>, excludes: Seq<Seq<char>>) -> bool {
    forall|i: int|
        0 <= i < trace.len() ==> (action_path((#[trigger] trace[i]).action) matches Some(path)
            && !excluded(path, excludes))
}

/// The exchanges by which the contents of the directory `path` are deleted; there
/// are none where it is excluded.
pub open spec fn contents_trace(
    path: Seq<char>,
    entries: Seq<Node>,
    excludes: Seq<Seq<char>>,
) -> Seq<Exchange> {
    if excluded(path, excludes) {
        Seq::empty()
    } else {
        seq![listing(path, ListingView::Entries(listed(entries)))] + entries_trace(
            entries,
            excludes,
        )
    }
}

proof fn lemma_excluded_contents(
    path: Seq<char>,
    entries: Seq<Node>,
    excludes: Seq<Seq<char>>,
)
    requires
        plain_entries(path, entries),
        excluded(path, excludes),
    ensures
        entries_report(path, entries, excludes) == ReportView::empty(),
    decreases entries.len(),
{
    if entries.len() > 0 {
        if let Node::At(inner, tree) = entries[0] {
            law_excluded_beneath(path, inner, excludes);
            lemma_excluded_contents(path, entries.drop_first(), excludes);
            assert(tree_report(inner, tree, excludes, true) == ReportView::empty());
            law_merge_monoid(ReportView::empty(), ReportView::empty(), ReportView::empty());
        }
    }
}

/// A scan foretells what deleting the contents of a directory frees. Where the
/// directory holds nothing but files and directories that can be read, and the files
/// can be removed, a scan that meets these files counts, with the same excluded
/// paths, just the bytes that the deletion has freed at its end. The deletion asks
/// for nothing to be done at an excluded path.
pub proof fn law_scan_predicts_contents(
    path: Seq<char>,
    entries: Seq<Node>,
    walk: Seq<WalkEntry>,
    excludes: Seq<Seq<char>>,
)
    requires
        plain_entries(path, entries),
        walk_meets(walk, files_of(entries)),
    ensures
        entries_report(path, entries, excludes).freed == total_bytes(walk, excludes),
        total_bytes(walk, excludes) <= u64::MAX ==> wrapped(total_bytes(walk, excludes))
            == entries_report(path, entries, excludes).freed,
        leads_to(
            contents_start(path, true, excludes),
            contents_trace(path, entries, excludes),
            finished(entries_report(path, entries, excludes)),
            excludes,
        ),
        spares(contents_trace(path, entries, excludes), excludes),
{
    let trace = contents_trace(path, entries, excludes);
    let start = contents_start(path, true, excludes);
    lemma_entries_free(path, entries, excludes);
    lemma_scan_counts(walk, excludes);
    lemma_counted_order(seen_files(walk), files_of(entries), excludes);
    if excluded(path, excludes) {
        lemma_excluded_contents(path, entries, excludes);
    } else {
        law_delete_directory_contents(path, entries, excludes);
    }
    law_starts_respect(path, Seq::empty(), true, true, excludes);
    law_no_action_on_excluded(
        start,
        trace,
        finished(entries_report(path, entries, excludes)),
        excludes,
    );
}

/// A scan foretells what deleting the tree at a path frees, in the same way.
pub proof fn law_scan_predicts_tree(
    path: Seq<char>,
    tree: Tree,
    walk: Seq<WalkEntry>,
    excludes: Seq<Seq<char>>,
    remove_root: bool,
)
    requires
        plain_tree(path, tree),
        walk_meets(walk, files_of_tree(path, tree)),
    ensures
        tree_report(path, tree, excludes, remove_root).freed == total_bytes(walk, excludes),
        total_bytes(walk, excludes) <= u64::MAX ==> wrapped(total_bytes(walk, excludes))
            == tree_report(path, tree, excludes, remove_root).freed,
        leads_to(
            path_start(path, excludes, remove_root),
            tree_trace(path, tree, excludes, remove_root),
            finished(tree_report(path, tree, excludes, remove_root)),
            excludes,
        ),
        spares(tree_trace(path, tree, excludes, remove_root), excludes),
{
    lemma_tree_frees(path, tree, excludes, remove_root);
    lemma_scan_counts(walk, excludes);
    lemma_counted_order(seen_files(walk), files_of_tree(path, tree), excludes);
    law_delete_path(path, tree, excludes, remove_root);
    law_starts_respect(path, Seq::empty(), true, remove_root, excludes);
    law_no_action_on_excluded(
        path_start(path, excludes, remove_root),
        tree_trace(path, tree, excludes, remove_root),
        finished(tree_report(path, tree, excludes, remove_root)),
        excludes,
    );
}

} // verus!
