//! Deleting what lies at a path, step by step. A `Deletion` says what to do next
//! with the file system and is told what came of it, until it is done.

use crate::order::reversed;
use crate::path::{excluded, is_excluded};
use crate::report::{error_at, CleanupReport, ReportView};
use crate::text::{copy_texts, texts};
use vstd::prelude::*;

verus! {

/// An entry of a directory.
#[derive(Debug)]
pub enum DirEntry {
    /// It lies at this path.
    At(String),
    /// It could not be read, with the reason.
    Broken(String),
}

/// What there is at a path, links not followed.
#[derive(Debug)]
pub enum Inspection {
    /// Nothing.
    NotFound,
    /// It is not known, with the reason.
    Failed(String),
    /// A directory.
    Directory,
    /// Something else, of this size.
    File(u64),
}

/// What listing a directory gave.
#[derive(Debug)]
pub enum Listing {
    /// It could not be listed, with the reason.
    Failed(String),
    /// It has these entries.
    Entries(Vec<DirEntry>),
}

/// What removing a file or a directory gave.
#[derive(Debug)]
pub enum Removal {
    /// It is gone.
    Removed,
    /// It was gone already.
    NotFound,
    /// It could not be removed, with the reason.
    Failed(String),
}

/// What the file system answered.
#[derive(Debug)]
pub enum DeleteEvent {
    Inspected(Inspection),
    Listed(Listing),
    Removed(Removal),
}

/// What is to be done next.
#[derive(Debug)]
pub enum DeleteAction {
    /// Find out what there is at a path.
    Inspect(String),
    /// List a directory.
    List(String),
    /// Remove a file.
    RemoveFile(String),
    /// Remove an empty directory.
    RemoveDir(String),
    /// Nothing: the deletion is over.
    Done,
}

/// What a directory entry stands for.
pub enum EntryView {
    At(Seq<char>),
    Broken(Seq<char>),
}

/// What an inspection stands for.
pub enum InspectionView {
    NotFound,
    Failed(Seq<char>),
    Directory,
    File(nat),
}

/// What a listing stands for.
pub enum ListingView {
    Failed(Seq<char>),
    Entries(Seq<EntryView>),
}

/// What a removal stands for.
pub enum RemovalView {
    Removed,
    NotFound,
    Failed(Seq<char>),
}

/// What an answer stands for.
pub enum EventView {
    Inspected(InspectionView),
    Listed(ListingView),
    Removed(RemovalView),
}

/// What an action stands for.
pub enum ActionView {
    Inspect(Seq<char>),
    List(Seq<char>),
    RemoveFile(Seq<char>),
    RemoveDir(Seq<char>),
    Done,
}

impl View for DirEntry {
    type V = EntryView;

    open spec fn view(&self) -> EntryView {
        match *self {
            DirEntry::At(path) => EntryView::At(path@),
            DirEntry::Broken(reason) => EntryView::Broken(reason@),
        }
    }
}

/// What a list of entries stands for.
pub open spec fn entry_views(entries: Seq<DirEntry>) -> Seq<EntryView> {
    entries.map_values(|entry: DirEntry| entry@)
}

impl View for Inspection {
    type V = InspectionView;

    open spec fn view(&self) -> InspectionView {
        match *self {
            Inspection::NotFound => InspectionView::NotFound,
            Inspection::Failed(reason) => InspectionView::Failed(reason@),
            Inspection::Directory => InspectionView::Directory,
            Inspection::File(size) => InspectionView::File(size as nat),
        }
    }
}

impl View for Listing {
    type V = ListingView;

    open spec fn view(&self) -> ListingView {
        match *self {
            Listing::Failed(reason) => ListingView::Failed(reason@),
            Listing::Entries(entries) => ListingView::Entries(entry_views(entries@)),
        }
    }
}

impl View for Removal {
    type V = RemovalView;

    open spec fn view(&self) -> RemovalView {
        match *self {
            Removal::Removed => RemovalView::Removed,
            Removal::NotFound => RemovalView::NotFound,
            Removal::Failed(reason) => RemovalView::Failed(reason@),
        }
    }
}

impl View for DeleteEvent {
    type V = EventView;

    open spec fn view(&self) -> EventView {
        match *self {
            DeleteEvent::Inspected(inspection) => EventView::Inspected(inspection@),
            DeleteEvent::Listed(listing) => EventView::Listed(listing@),
            DeleteEvent::Removed(removal) => EventView::Removed(removal@),
        }
    }
}

impl View for DeleteAction {
    type V = ActionView;

    open spec fn view(&self) -> ActionView {
        match *self {
            DeleteAction::Inspect(path) => ActionView::Inspect(path@),
            DeleteAction::List(path) => ActionView::List(path@),
            DeleteAction::RemoveFile(path) => ActionView::RemoveFile(path@),
            DeleteAction::RemoveDir(path) => ActionView::RemoveDir(path@),
            DeleteAction::Done => ActionView::Done,
        }
    }
}

/// The question that is open.
pub enum PendingView {
    /// What is there? Where it is a directory, `remove` says whether it goes too.
    Inspect { path: Seq<char>, remove: bool },
    /// What does the directory hold?
    List { path: Seq<char>, remove: bool },
    /// Is the file gone?
    RemoveFile { path: Seq<char>, size: nat },
    /// Is the directory gone?
    RemoveDir { path: Seq<char> },
    /// None.
    Done,
}

/// A directory whose entries are being deleted: those that are left, and whether
/// it is removed after them.
pub struct FrameView {
    pub dir: Seq<char>,
    pub remove: bool,
    pub entries: Seq<EntryView>,
}

/// Where a deletion stands.
pub struct DeletionView {
    pub report: ReportView,
    pub frames: Seq<FrameView>,
    pub pending: PendingView,
}

impl FrameView {
    /// The frame without its first entry.
    pub open spec fn rest(self) -> FrameView {
        FrameView { dir: self.dir, remove: self.remove, entries: self.entries.drop_first() }
    }
}

/// The state of a deletion once it has gone on to its next question: entries that
/// could not be read become errors, excluded ones are passed over, and a
/// directory without further entries is removed, if it is to be.
pub open spec fn settled(
    frames: Seq<FrameView>,
    report: ReportView,
    excludes: Seq<Seq<char>>,
) -> DeletionView
    decreases
            frames.len(),
            if frames.len() > 0 {
                frames.last().entries.len()
            } else {
                0
            },
{
    if frames.len() == 0 {
        DeletionView { report, frames, pending: PendingView::Done }
    } else {
        let top = frames.last();
        let below = frames.drop_last();
        if top.entries.len() == 0 {
            if top.remove {
                DeletionView {
                    report,
                    frames: below,
                    pending: PendingView::RemoveDir { path: top.dir },
                }
            } else {
                settled(below, report, excludes)
            }
        } else {
            let left = below.push(top.rest());
            match top.entries[0] {
                EntryView::Broken(reason) => settled(
                    left,
                    report.with_error(error_at(top.dir, reason)),
                    excludes,
                ),
                EntryView::At(path) => if excluded(path, excludes) {
                    settled(left, report, excludes)
                } else {
                    DeletionView {
                        report,
                        frames: left,
                        pending: PendingView::Inspect { path, remove: true },
                    }
                },
            }
        }
    }
}

impl DeletionView {
    /// What the open question asks to be done.
    pub open spec fn action(self) -> ActionView {
        match self.pending {
            PendingView::Inspect { path, .. } => ActionView::Inspect(path),
            PendingView::List { path, .. } => ActionView::List(path),
            PendingView::RemoveFile { path, .. } => ActionView::RemoveFile(path),
            PendingView::RemoveDir { path } => ActionView::RemoveDir(path),
            PendingView::Done => ActionView::Done,
        }
    }

    /// The event answers the open question.
    pub open spec fn awaits(self, event: EventView) -> bool {
        match self.pending {
            PendingView::Inspect { .. } => event is Inspected,
            PendingView::List { .. } => event is Listed,
            PendingView::RemoveFile { .. } => event is Removed,
            PendingView::RemoveDir { .. } => event is Removed,
            PendingView::Done => false,
        }
    }

    /// The bytes that `event` frees can be added to those freed so far.
    pub open spec fn can_count(self, event: EventView) -> bool {
        match (self.pending, event) {
            (
                PendingView::RemoveFile { size, .. },
                EventView::Removed(RemovalView::Removed),
            ) => self.report.freed + size <= u64::MAX,
            _ => true,
        }
    }

    /// The state after the answer `event`.
    pub open spec fn next(self, event: EventView, excludes: Seq<Seq<char>>) -> DeletionView {
        match (self.pending, event) {
            (PendingView::Inspect { path, remove }, EventView::Inspected(inspection)) => {
                match inspection {
                    InspectionView::NotFound => settled(self.frames, self.report, excludes),
                    InspectionView::Failed(reason) => settled(
                        self.frames,
                        self.report.with_error(error_at(path, reason)),
                        excludes,
                    ),
                    InspectionView::Directory => DeletionView {
                        pending: PendingView::List { path, remove },
                        ..self
                    },
                    InspectionView::File(size) => DeletionView {
                        pending: PendingView::RemoveFile { path, size },
                        ..self
                    },
                }
            },
            (PendingView::List { path, remove }, EventView::Listed(listing)) => match listing {
                ListingView::Failed(reason) => settled(
                    self.frames,
                    self.report.with_error(error_at(path, reason)),
                    excludes,
                ),
                ListingView::Entries(entries) => settled(
                    self.frames.push(FrameView { dir: path, remove, entries }),
                    self.report,
                    excludes,
                ),
            },
            (PendingView::RemoveFile { path, size }, EventView::Removed(removal)) => settled(
                self.frames,
                self.report.plus(removal_report(path, size, removal)),
                excludes,
            ),
            (PendingView::RemoveDir { path }, EventView::Removed(removal)) => settled(
                self.frames,
                self.report.plus(removal_report(path, 0, removal)),
                excludes,
            ),
            _ => self,
        }
    }
}

/// What a removal adds to the report: the size of what is gone, or the error.
pub open spec fn removal_report(path: Seq<char>, size: nat, removal: RemovalView) -> ReportView {
    match removal {
        RemovalView::Removed => ReportView { freed: size, errors: Seq::empty() },
        RemovalView::NotFound => ReportView::empty(),
        RemovalView::Failed(reason) => ReportView {
            freed: 0,
            errors: seq![error_at(path, reason)],
        },
    }
}

/// A directory whose entries are being deleted. The entries that are left stand
/// in reverse order.
struct Frame {
    dir: String,
    remove: bool,
    left: Vec<DirEntry>,
}

impl View for Frame {
    type V = FrameView;

    closed spec fn view(&self) -> FrameView {
        FrameView {
            dir: self.dir@,
            remove: self.remove,
            entries: entry_views(self.left@).reverse(),
        }
    }
}

spec fn frame_views(frames: Seq<Frame>) -> Seq<FrameView> {
    frames.map_values(|frame: Frame| frame@)
}

/// The question that is open.
enum Pending {
    Inspect { path: String, remove: bool },
    List { path: String, remove: bool },
    RemoveFile { path: String, size: u64 },
    RemoveDir { path: String },
    Done,
}

impl View for Pending {
    type V = PendingView;

    closed spec fn view(&self) -> PendingView {
        match *self {
            Pending::Inspect { path, remove } => PendingView::Inspect { path: path@, remove },
            Pending::List { path, remove } => PendingView::List { path: path@, remove },
            Pending::RemoveFile { path, size } => PendingView::RemoveFile {
                path: path@,
                size: size as nat,
            },
            Pending::RemoveDir { path } => PendingView::RemoveDir { path: path@ },
            Pending::Done => PendingView::Done,
        }
    }
}

/// A deletion under way.
pub struct Deletion {
    excludes: Vec<String>,
    report: CleanupReport,
    frames: Vec<Frame>,
    pending: Pending,
}

impl View for Deletion {
    type V = DeletionView;

    closed spec fn view(&self) -> DeletionView {
        DeletionView {
            report: self.report@,
            frames: frame_views(self.frames@),
            pending: self.pending@,
        }
    }
}

impl Deletion {
    /// The paths that are left alone.
    pub closed spec fn excludes(self) -> Seq<Seq<char>> {
        texts(self.excludes@)
    }

    /// Goes on to the next question.
    fn settle(&mut self)
        ensures
            final(self)@ == settled(old(self)@.frames, old(self)@.report, old(self).excludes()),
            final(self).excludes() == old(self).excludes(),
    {
        let ghost excludes = self.excludes();
        let ghost start = self@;
        loop
            invariant_except_break
                excludes == self.excludes(),
                settled(self@.frames, self@.report, excludes) == settled(
                    start.frames,
                    start.report,
                    excludes,
                ),
            ensures
                excludes == self.excludes(),
                self@ == settled(start.frames, start.report, excludes),
            decreases
                    self.frames@.len(),
                    if self.frames@.len() > 0 {
                        self.frames@.last().left@.len()
                    } else {
                        0
                    },
        {
            let ghost frames = self@.frames;
            match self.frames.pop() {
                None => {
                    assert(frames.len() == 0);
                    self.pending = Pending::Done;
                    assert(self@.frames =~= frames);
                    break;
                },
                Some(frame) => {
                    let mut top = frame;
                    assert(frames.last() == top@);
                    assert(self@.frames =~= frames.drop_last());
                    let ghost below = frames.drop_last();
                    let ghost entries = top@.entries;
                    match top.left.pop() {
                        None => {
                            assert(entries.len() == 0);
                            if top.remove {
                                self.pending = Pending::RemoveDir { path: top.dir };
                                assert(self@.frames =~= below);
                                break;
                            }
                        },
                        Some(entry) => {
                            assert(entries[0] == entry@);
                            assert(top@.entries =~= entries.drop_first());
                            assert(top@ == frames.last().rest());
                            match entry {
                                DirEntry::Broken(reason) => {
                                    self.report.add_error(top.dir.as_str(), reason.as_str());
                                    self.frames.push(top);
                                    assert(self@.frames =~= below.push(frames.last().rest()));
                                },
                                DirEntry::At(path) => {
                                    let skip = is_excluded(
                                        path.as_str(),
                                        self.excludes.as_slice(),
                                    );
                                    self.frames.push(top);
                                    assert(self@.frames =~= below.push(frames.last().rest()));
                                    if !skip {
                                        self.pending = Pending::Inspect { path, remove: true };
                                        assert(self@.frames =~= below.push(
                                            frames.last().rest(),
                                        ));
                                        break;
                                    }
                                },
                            }
                        },
                    }
                },
            }
        }
    }

    /// What is to be done next.
    pub fn action(&self) -> (r: DeleteAction)
        ensures
            r@ == self@.action(),
    {
        match &self.pending {
            Pending::Inspect { path, remove } => DeleteAction::Inspect(path.clone()),
            Pending::List { path, remove } => DeleteAction::List(path.clone()),
            Pending::RemoveFile { path, size } => DeleteAction::RemoveFile(path.clone()),
            Pending::RemoveDir { path } => DeleteAction::RemoveDir(path.clone()),
            Pending::Done => DeleteAction::Done,
        }
    }

    /// Takes the answer to the open question.
    pub fn step(&mut self, event: DeleteEvent)
        requires
            old(self)@.awaits(event@),
            old(self)@.can_count(event@),
        ensures
            final(self)@ == old(self)@.next(event@, old(self).excludes()),
            final(self).excludes() == old(self).excludes(),
    {
        let ghost start = self@;
        let mut pending = Pending::Done;
        std::mem::swap(&mut pending, &mut self.pending);
        assert(self@.frames == start.frames);
        match (pending, event) {
            (Pending::Inspect { path, remove }, DeleteEvent::Inspected(inspection)) => {
                match inspection {
                    Inspection::NotFound => self.settle(),
                    Inspection::Failed(reason) => {
                        self.report.add_error(path.as_str(), reason.as_str());
                        self.settle();
                    },
                    Inspection::Directory => {
                        self.pending = Pending::List { path, remove };
                    },
                    Inspection::File(size) => {
                        self.pending = Pending::RemoveFile { path, size };
                    },
                }
            },
            (Pending::List { path, remove }, DeleteEvent::Listed(listing)) => {
                match listing {
                    Listing::Failed(reason) => {
                        self.report.add_error(path.as_str(), reason.as_str());
                        self.settle();
                    },
                    Listing::Entries(entries) => {
                        let left = reversed(entries);
                        assert(entry_views(left@).reverse() =~= entry_views(entries@));
                        self.frames.push(Frame { dir: path, remove, left });
                        assert(self@.frames =~= start.frames.push(
                            FrameView { dir: path@, remove, entries: entry_views(entries@) },
                        ));
                        self.settle();
                    },
                }
            },
            (Pending::RemoveFile { path, size }, DeleteEvent::Removed(removal)) => {
                match removal {
                    Removal::Removed => {
                        self.report.freed = self.report.freed + size;
                    },
                    Removal::NotFound => {},
                    Removal::Failed(reason) => {
                        self.report.add_error(path.as_str(), reason.as_str());
                    },
                }
                assert(self@.report =~= start.report.plus(
                    removal_report(path@, size as nat, removal@),
                ));
                self.settle();
            },
            (Pending::RemoveDir { path }, DeleteEvent::Removed(removal)) => {
                match removal {
                    Removal::Removed => {},
                    Removal::NotFound => {},
                    Removal::Failed(reason) => {
                        self.report.add_error(path.as_str(), reason.as_str());
                    },
                }
                assert(self@.report =~= start.report.plus(removal_report(path@, 0, removal@)));
                self.settle();
            },
            _ => {},
        }
    }

    /// Whether the deletion is over.
    pub fn is_done(&self) -> (r: bool)
        ensures
            r == (self@.pending is Done),
    {
        match &self.pending {
            Pending::Done => true,
            _ => false,
        }
    }

    /// What was freed and what went wrong so far.
    pub fn report(self) -> (r: CleanupReport)
        ensures
            r@ == self@.report,
    {
        self.report
    }
}

/// The start of deleting what lies at `path`. An excluded path is left alone.
pub open spec fn path_start(
    path: Seq<char>,
    excludes: Seq<Seq<char>>,
    remove_root: bool,
) -> DeletionView {
    DeletionView {
        report: ReportView::empty(),
        frames: Seq::empty(),
        pending: if excluded(path, excludes) {
            PendingView::Done
        } else {
            PendingView::Inspect { path, remove: remove_root }
        },
    }
}

/// The start of deleting what the directory `path` holds. A directory that is
/// excluded or does not exist is left alone.
pub open spec fn contents_start(
    path: Seq<char>,
    present: bool,
    excludes: Seq<Seq<char>>,
) -> DeletionView {
    DeletionView {
        report: ReportView::empty(),
        frames: Seq::empty(),
        pending: if !present || excluded(path, excludes) {
            PendingView::Done
        } else {
            PendingView::List { path, remove: false }
        },
    }
}

/// The start of deleting what lies at each of the paths, in order.
pub open spec fn paths_start(paths: Seq<Seq<char>>, excludes: Seq<Seq<char>>) -> DeletionView {
    let entries = paths.map_values(|path: Seq<char>| EntryView::At(path));
    settled(
        seq![FrameView { dir: Seq::empty(), remove: false, entries }],
        ReportView::empty(),
        excludes,
    )
}

/// Deletes what lies at `path`; a directory goes after its entries, unless
/// `remove_root` is false.
pub fn delete_path(path: &str, excludes: &[String], remove_root: bool) -> (r: Deletion)
    ensures
        r@ == path_start(path@, texts(excludes@), remove_root),
        r.excludes() == texts(excludes@),
{
    let pending = if is_excluded(path, excludes) {
        Pending::Done
    } else {
        Pending::Inspect { path: path.to_owned(), remove: remove_root }
    };
    let r = Deletion {
        excludes: copy_texts(excludes),
        report: CleanupReport::default(),
        frames: Vec::new(),
        pending,
    };
    assert(r@.frames =~= Seq::empty());
    r
}

/// Deletes what the directory `path` holds, and keeps the directory.
pub fn delete_directory_contents(path: &str, present: bool, excludes: &[String]) -> (r: Deletion)
    ensures
        r@ == contents_start(path@, present, texts(excludes@)),
        r.excludes() == texts(excludes@),
{
    let pending = if !present || is_excluded(path, excludes) {
        Pending::Done
    } else {
        Pending::List { path: path.to_owned(), remove: false }
    };
    let r = Deletion {
        excludes: copy_texts(excludes),
        report: CleanupReport::default(),
        frames: Vec::new(),
        pending,
    };
    assert(r@.frames =~= Seq::empty());
    r
}

/// Deletes what lies at each of the paths, in order.
pub fn delete_paths(paths: &[String], excludes: &[String]) -> (r: Deletion)
    ensures
        r@ == paths_start(texts(paths@), texts(excludes@)),
        r.excludes() == texts(excludes@),
{
    let mut entries: Vec<DirEntry> = Vec::new();
    let ghost all = texts(paths@).map_values(|path: Seq<char>| EntryView::At(path));
    for i in 0..paths.len()
        invariant
            all == texts(paths@).map_values(|path: Seq<char>| EntryView::At(path)),
            entries@.len() == i,
            forall|j: int| 0 <= j < i ==> (#[trigger] entries@[j])@ == all[j],
    {
        entries.push(DirEntry::At(paths[i].clone()));
    }
    assert(entry_views(entries@) =~= all);
    let mut frames: Vec<Frame> = Vec::new();
    let left = reversed(entries);
    assert(entry_views(left@).reverse() =~= all);
    frames.push(Frame { dir: String::new(), remove: false, left });
    assert(frame_views(frames@) =~= seq![
        FrameView { dir: Seq::empty(), remove: false, entries: all },
    ]);
    let mut r = Deletion {
        excludes: copy_texts(excludes),
        report: CleanupReport::default(),
        frames,
        pending: Pending::Done,
    };
    r.settle();
    r
}

} // verus!
