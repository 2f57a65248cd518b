//! Archiving one file, step by step. An `Archiving` says what to do next with the
//! file and its object and is told what came of it, until it is done. The file is
//! removed only after its object was verified and the file was found unchanged.

use crate::order::reversed;
use crate::path::{dirs_between, parent_dirs};
use crate::report::{error_at, CleanupReport, ReportView};
use crate::text::{concat2, copy_texts, opt_text, str_eq, texts};
use crate::time::Timestamp;
use vstd::prelude::*;

verus! {

/// What tells a file from another and from itself after a change.
#[derive(Clone, Copy, Debug, PartialEq, Eq, Structural)]
pub struct FileIdentity {
    pub device: u64,
    pub inode: u64,
    pub changed: Timestamp,
    pub size: u64,
    pub modified: Timestamp,
}

/// What there is under a key.
#[derive(Debug)]
pub enum RemoteObject {
    /// Nothing.
    Missing,
    /// An object of this length, with the checksum that was stored with it.
    Found { length: u64, sha256: Option<String> },
    /// It is not known, with the reason.
    Failed(String),
}

/// What came of an action.
#[derive(Debug)]
pub enum ArchiveEvent {
    Inspected(Result<FileIdentity, String>),
    Hashed(Result<String, String>),
    Headed(RemoteObject),
    Uploaded(Result<(), String>),
    Removed(Result<(), String>),
    /// Whether the directory could be removed.
    DirRemoved(bool),
}

/// What is to be done next.
#[derive(Debug)]
pub enum ArchiveAction {
    /// Find out what the file is.
    Inspect(String),
    /// Compute the checksum of the file.
    Hash(String),
    /// Find out what there is under a key.
    Head(String),
    /// Store the file under a key, with its checksum.
    Upload { path: String, key: String, sha256: String },
    /// Remove the file.
    RemoveFile(String),
    /// Remove a directory, if it is empty.
    RemoveDir(String),
    /// Nothing: the file is done with.
    Done,
}

/// What became of a file.
#[derive(Debug)]
pub enum ArchiveOutcome {
    /// It would be archived.
    Planned,
    /// It is archived and removed; it was uploaded, or was there already.
    Archived { size: u64, uploaded: bool },
    /// It is kept, for this reason.
    Failed(String),
}

/// What is known of what there is under a key.
pub enum RemoteView {
    Missing,
    Found { length: u64, sha256: Option<Seq<char>> },
    Failed(Seq<char>),
}

/// What became of something that was to be done.
pub enum EffectView {
    Done,
    Failed(Seq<char>),
}

/// What an event stands for.
pub enum ArchiveEventView {
    Inspected(Result<FileIdentity, Seq<char>>),
    Hashed(Result<Seq<char>, Seq<char>>),
    Headed(RemoteView),
    Uploaded(EffectView),
    Removed(EffectView),
    DirRemoved(bool),
}

/// What an action stands for.
pub enum ArchiveActionView {
    Inspect(Seq<char>),
    Hash(Seq<char>),
    Head(Seq<char>),
    Upload { path: Seq<char>, key: Seq<char>, sha256: Seq<char> },
    RemoveFile(Seq<char>),
    RemoveDir(Seq<char>),
    Done,
}

/// What an outcome stands for.
pub enum OutcomeView {
    Planned,
    Archived { size: u64, uploaded: bool },
    Failed(Seq<char>),
}

impl View for RemoteObject {
    type V = RemoteView;

    open spec fn view(&self) -> RemoteView {
        match *self {
            RemoteObject::Missing => RemoteView::Missing,
            RemoteObject::Found { length, sha256 } => RemoteView::Found {
                length,
                sha256: opt_text(sha256),
            },
            RemoteObject::Failed(reason) => RemoteView::Failed(reason@),
        }
    }
}

impl View for ArchiveEvent {
    type V = ArchiveEventView;

    open spec fn view(&self) -> ArchiveEventView {
        match *self {
            ArchiveEvent::Inspected(Ok(identity)) => ArchiveEventView::Inspected(Ok(identity)),
            ArchiveEvent::Inspected(Err(reason)) => ArchiveEventView::Inspected(Err(reason@)),
            ArchiveEvent::Hashed(Ok(sha256)) => ArchiveEventView::Hashed(Ok(sha256@)),
            ArchiveEvent::Hashed(Err(reason)) => ArchiveEventView::Hashed(Err(reason@)),
            ArchiveEvent::Headed(object) => ArchiveEventView::Headed(object@),
            ArchiveEvent::Uploaded(Ok(())) => ArchiveEventView::Uploaded(EffectView::Done),
            ArchiveEvent::Uploaded(Err(reason)) => ArchiveEventView::Uploaded(
                EffectView::Failed(reason@),
            ),
            ArchiveEvent::Removed(Ok(())) => ArchiveEventView::Removed(EffectView::Done),
            ArchiveEvent::Removed(Err(reason)) => ArchiveEventView::Removed(
                EffectView::Failed(reason@),
            ),
            ArchiveEvent::DirRemoved(removed) => ArchiveEventView::DirRemoved(removed),
        }
    }
}

impl View for ArchiveAction {
    type V = ArchiveActionView;

    open spec fn view(&self) -> ArchiveActionView {
        match *self {
            ArchiveAction::Inspect(path) => ArchiveActionView::Inspect(path@),
            ArchiveAction::Hash(path) => ArchiveActionView::Hash(path@),
            ArchiveAction::Head(key) => ArchiveActionView::Head(key@),
            ArchiveAction::Upload { path, key, sha256 } => ArchiveActionView::Upload {
                path: path@,
                key: key@,
                sha256: sha256@,
            },
            ArchiveAction::RemoveFile(path) => ArchiveActionView::RemoveFile(path@),
            ArchiveAction::RemoveDir(path) => ArchiveActionView::RemoveDir(path@),
            ArchiveAction::Done => ArchiveActionView::Done,
        }
    }
}

impl View for ArchiveOutcome {
    type V = OutcomeView;

    open spec fn view(&self) -> OutcomeView {
        match *self {
            ArchiveOutcome::Planned => OutcomeView::Planned,
            ArchiveOutcome::Archived { size, uploaded } => OutcomeView::Archived {
                size,
                uploaded,
            },
            ArchiveOutcome::Failed(reason) => OutcomeView::Failed(reason@),
        }
    }
}

/// How far the archiving of a file has come.
pub enum StageView {
    /// The file is to be inspected.
    Inspect,
    /// Its checksum is to be computed.
    Hash { identity: FileIdentity },
    /// What there is under its key is to be found out.
    Head { identity: FileIdentity, sha256: Seq<char> },
    /// It is to be uploaded.
    Upload { identity: FileIdentity, sha256: Seq<char> },
    /// What was uploaded is to be verified.
    Verify { identity: FileIdentity, sha256: Seq<char> },
    /// The object is there: the file is to be inspected again.
    Recheck { identity: FileIdentity, uploaded: bool },
    /// The file is to be removed.
    Remove { identity: FileIdentity, uploaded: bool },
    /// The file is gone: the first of these directories is to be removed, if it is
    /// empty, and then the next.
    Prune { dirs: Seq<Seq<char>>, size: u64, uploaded: bool },
    /// The file is done with.
    Done(OutcomeView),
}

/// Where the archiving of a file stands.
pub struct ArchivingView {
    pub path: Seq<char>,
    pub key: Seq<char>,
    /// The directories that go with the file, if they are then empty.
    pub dirs: Seq<Seq<char>>,
    pub stage: StageView,
}

/// The object is that of a file with this size and checksum.
pub open spec fn object_matches(object: RemoteView, size: u64, sha256: Seq<char>) -> bool {
    object matches RemoteView::Found { length, sha256: stored } && length == size && stored
        == Some(sha256)
}

/// The stage after a file is gone with all but these directories.
pub open spec fn pruning(dirs: Seq<Seq<char>>, size: u64, uploaded: bool) -> StageView {
    if dirs.len() == 0 {
        StageView::Done(OutcomeView::Archived { size, uploaded })
    } else {
        StageView::Prune { dirs, size, uploaded }
    }
}

/// The file is kept.
pub open spec fn kept(reason: Seq<char>) -> StageView {
    StageView::Done(OutcomeView::Failed(reason))
}

impl ArchivingView {
    /// What is to be done next.
    pub open spec fn action(self) -> ArchiveActionView {
        match self.stage {
            StageView::Inspect => ArchiveActionView::Inspect(self.path),
            StageView::Hash { .. } => ArchiveActionView::Hash(self.path),
            StageView::Head { .. } => ArchiveActionView::Head(self.key),
            StageView::Upload { sha256, .. } => ArchiveActionView::Upload {
                path: self.path,
                key: self.key,
                sha256,
            },
            StageView::Verify { .. } => ArchiveActionView::Head(self.key),
            StageView::Recheck { .. } => ArchiveActionView::Inspect(self.path),
            StageView::Remove { .. } => ArchiveActionView::RemoveFile(self.path),
            StageView::Prune { dirs, .. } => ArchiveActionView::RemoveDir(dirs[0]),
            StageView::Done(_) => ArchiveActionView::Done,
        }
    }

    /// The event is an answer to the action.
    pub open spec fn awaits(self, event: ArchiveEventView) -> bool {
        match self.stage {
            StageView::Inspect => event is Inspected,
            StageView::Hash { .. } => event is Hashed,
            StageView::Head { .. } => event is Headed,
            StageView::Upload { .. } => event is Uploaded,
            StageView::Verify { .. } => event is Headed,
            StageView::Recheck { .. } => event is Inspected,
            StageView::Remove { .. } => event is Removed,
            StageView::Prune { .. } => event is DirRemoved,
            StageView::Done(_) => false,
        }
    }

    /// The stage after the answer `event`.
    pub open spec fn next_stage(self, event: ArchiveEventView) -> StageView {
        match (self.stage, event) {
            (StageView::Inspect, ArchiveEventView::Inspected(found)) => match found {
                Ok(identity) => StageView::Hash { identity },
                Err(reason) => kept(reason),
            },
            (StageView::Hash { identity }, ArchiveEventView::Hashed(computed)) => match computed {
                Ok(sha256) => StageView::Head { identity, sha256 },
                Err(reason) => kept(reason),
            },
            (StageView::Head { identity, sha256 }, ArchiveEventView::Headed(object)) => {
                match object {
                    RemoteView::Missing => StageView::Upload { identity, sha256 },
                    RemoteView::Found { .. } => if object_matches(object, identity.size, sha256) {
                        StageView::Recheck { identity, uploaded: false }
                    } else {
                        kept("a different object exists at "@ + self.key)
                    },
                    RemoteView::Failed(reason) => kept(reason),
                }
            },
            (StageView::Upload { identity, sha256 }, ArchiveEventView::Uploaded(done)) => {
                match done {
                    EffectView::Done => StageView::Verify { identity, sha256 },
                    EffectView::Failed(reason) => kept(reason),
                }
            },
            (StageView::Verify { identity, sha256 }, ArchiveEventView::Headed(object)) => {
                match object {
                    RemoteView::Missing => kept("the uploaded object is missing at "@ + self.key),
                    RemoteView::Found { .. } => if object_matches(object, identity.size, sha256) {
                        StageView::Recheck { identity, uploaded: true }
                    } else {
                        kept("the uploaded object does not match at "@ + self.key)
                    },
                    RemoteView::Failed(reason) => kept(reason),
                }
            },
            (StageView::Recheck { identity, uploaded }, ArchiveEventView::Inspected(found)) => {
                match found {
                    Ok(now) => if now == identity {
                        StageView::Remove { identity, uploaded }
                    } else {
                        kept("the file changed while it was archived"@)
                    },
                    Err(reason) => kept(reason),
                }
            },
            (StageView::Remove { identity, uploaded }, ArchiveEventView::Removed(done)) => {
                match done {
                    EffectView::Done => pruning(self.dirs, identity.size, uploaded),
                    EffectView::Failed(reason) => kept(reason),
                }
            },
            (
                StageView::Prune { dirs, size, uploaded },
                ArchiveEventView::DirRemoved(removed),
            ) => if removed {
                pruning(dirs.drop_first(), size, uploaded)
            } else {
                StageView::Done(OutcomeView::Archived { size, uploaded })
            },
            _ => self.stage,
        }
    }

    /// The state after the answer `event`.
    pub open spec fn next(self, event: ArchiveEventView) -> ArchivingView {
        ArchivingView { stage: self.next_stage(event), ..self }
    }
}

/// How far the archiving of a file has come. The directories that are left stand in
/// reverse order.
enum Stage {
    Inspect,
    Hash { identity: FileIdentity },
    Head { identity: FileIdentity, sha256: String },
    Upload { identity: FileIdentity, sha256: String },
    Verify { identity: FileIdentity, sha256: String },
    Recheck { identity: FileIdentity, uploaded: bool },
    Remove { identity: FileIdentity, uploaded: bool },
    Prune { dir: String, left: Vec<String>, size: u64, uploaded: bool },
    Done(ArchiveOutcome),
}

impl View for Stage {
    type V = StageView;

    closed spec fn view(&self) -> StageView {
        match *self {
            Stage::Inspect => StageView::Inspect,
            Stage::Hash { identity } => StageView::Hash { identity },
            Stage::Head { identity, sha256 } => StageView::Head { identity, sha256: sha256@ },
            Stage::Upload { identity, sha256 } => StageView::Upload { identity, sha256: sha256@ },
            Stage::Verify { identity, sha256 } => StageView::Verify { identity, sha256: sha256@ },
            Stage::Recheck { identity, uploaded } => StageView::Recheck { identity, uploaded },
            Stage::Remove { identity, uploaded } => StageView::Remove { identity, uploaded },
            Stage::Prune { dir, left, size, uploaded } => StageView::Prune {
                dirs: seq![dir@] + texts(left@).reverse(),
                size,
                uploaded,
            },
            Stage::Done(outcome) => StageView::Done(outcome@),
        }
    }
}

/// The archiving of a file under way.
pub struct Archiving {
    path: String,
    key: String,
    dirs: Vec<String>,
    stage: Stage,
}

impl View for Archiving {
    type V = ArchivingView;

    closed spec fn view(&self) -> ArchivingView {
        ArchivingView {
            path: self.path@,
            key: self.key@,
            dirs: texts(self.dirs@),
            stage: self.stage@,
        }
    }
}

/// The stage after a file is gone with all but these directories, which stand in
/// reverse order.
fn prune_next(dirs: Vec<String>, size: u64, uploaded: bool) -> (r: Stage)
    ensures
        r@ == pruning(texts(dirs@).reverse(), size, uploaded),
{
    let mut left = dirs;
    let ghost all = texts(dirs@).reverse();
    match left.pop() {
        None => {
            assert(all.len() == 0);
            Stage::Done(ArchiveOutcome::Archived { size, uploaded })
        },
        Some(dir) => {
            assert(all =~= seq![dir@] + texts(left@).reverse());
            Stage::Prune { dir, left, size, uploaded }
        },
    }
}

/// Whether an object is that of a file with this size and checksum.
fn is_match(length: u64, stored: &Option<String>, size: u64, sha256: &str) -> (r: bool)
    ensures
        r == (length == size && opt_text(*stored) == Some(sha256@)),
{
    match stored {
        Some(stored) => length == size && str_eq(stored.as_str(), sha256),
        None => false,
    }
}

/// The stage in which a file is kept.
fn keep(reason: String) -> (r: Stage)
    ensures
        r@ == kept(reason@),
{
    Stage::Done(ArchiveOutcome::Failed(reason))
}

/// The start of archiving a file that lies at `path`, beneath `root`, under a key. A
/// dry run is over at once.
pub open spec fn archive_start(
    path: Seq<char>,
    key: Seq<char>,
    root: Seq<char>,
    dry_run: bool,
) -> ArchivingView {
    ArchivingView {
        path,
        key,
        dirs: dirs_between(path, root),
        stage: if dry_run {
            StageView::Done(OutcomeView::Planned)
        } else {
            StageView::Inspect
        },
    }
}

/// Archives the file that lies at `path`, beneath `root`, under a key.
pub fn archive_file(path: &str, key: &str, root: &str, dry_run: bool) -> (r: Archiving)
    ensures
        r@ == archive_start(path@, key@, root@, dry_run),
{
    Archiving {
        path: path.to_owned(),
        key: key.to_owned(),
        dirs: parent_dirs(path, root),
        stage: if dry_run {
            Stage::Done(ArchiveOutcome::Planned)
        } else {
            Stage::Inspect
        },
    }
}

impl Archiving {
    /// What is to be done next.
    pub fn action(&self) -> (r: ArchiveAction)
        ensures
            r@ == self@.action(),
    {
        match &self.stage {
            Stage::Inspect => ArchiveAction::Inspect(self.path.clone()),
            Stage::Hash { identity } => ArchiveAction::Hash(self.path.clone()),
            Stage::Head { identity, sha256 } => ArchiveAction::Head(self.key.clone()),
            Stage::Upload { identity, sha256 } => ArchiveAction::Upload {
                path: self.path.clone(),
                key: self.key.clone(),
                sha256: sha256.clone(),
            },
            Stage::Verify { identity, sha256 } => ArchiveAction::Head(self.key.clone()),
            Stage::Recheck { identity, uploaded } => ArchiveAction::Inspect(self.path.clone()),
            Stage::Remove { identity, uploaded } => ArchiveAction::RemoveFile(self.path.clone()),
            Stage::Prune { dir, left, size, uploaded } => ArchiveAction::RemoveDir(dir.clone()),
            Stage::Done(_) => ArchiveAction::Done,
        }
    }

    /// Takes the answer to the action.
    pub fn step(&mut self, event: ArchiveEvent)
        requires
            old(self)@.awaits(event@),
        ensures
            final(self)@ == old(self)@.next(event@),
    {
        let mut stage = Stage::Inspect;
        std::mem::swap(&mut stage, &mut self.stage);
        let after = match (stage, event) {
            (Stage::Inspect, ArchiveEvent::Inspected(found)) => match found {
                Ok(identity) => Stage::Hash { identity },
                Err(reason) => keep(reason),
            },
            (Stage::Hash { identity }, ArchiveEvent::Hashed(computed)) => match computed {
                Ok(sha256) => Stage::Head { identity, sha256 },
                Err(reason) => keep(reason),
            },
            (Stage::Head { identity, sha256 }, ArchiveEvent::Headed(object)) => match object {
                RemoteObject::Missing => Stage::Upload { identity, sha256 },
                RemoteObject::Found { length, sha256: stored } => {
                    if is_match(length, &stored, identity.size, sha256.as_str()) {
                        Stage::Recheck { identity, uploaded: false }
                    } else {
                        keep(concat2("a different object exists at ", self.key.as_str()))
                    }
                },
                RemoteObject::Failed(reason) => keep(reason),
            },
            (Stage::Upload { identity, sha256 }, ArchiveEvent::Uploaded(done)) => match done {
                Ok(()) => Stage::Verify { identity, sha256 },
                Err(reason) => keep(reason),
            },
            (Stage::Verify { identity, sha256 }, ArchiveEvent::Headed(object)) => match object {
                RemoteObject::Missing => keep(
                    concat2("the uploaded object is missing at ", self.key.as_str()),
                ),
                RemoteObject::Found { length, sha256: stored } => {
                    if is_match(length, &stored, identity.size, sha256.as_str()) {
                        Stage::Recheck { identity, uploaded: true }
                    } else {
                        keep(concat2("the uploaded object does not match at ", self.key.as_str()))
                    }
                },
                RemoteObject::Failed(reason) => keep(reason),
            },
            (Stage::Recheck { identity, uploaded }, ArchiveEvent::Inspected(found)) => {
                match found {
                    Ok(now) => {
                        if now == identity {
                            Stage::Remove { identity, uploaded }
                        } else {
                            keep("the file changed while it was archived".to_owned())
                        }
                    },
                    Err(reason) => keep(reason),
                }
            },
            (Stage::Remove { identity, uploaded }, ArchiveEvent::Removed(done)) => match done {
                Ok(()) => {
                    let dirs = copy_texts(self.dirs.as_slice());
                    let left = reversed(dirs);
                    assert(texts(left@).reverse() =~= texts(dirs@));
                    prune_next(left, identity.size, uploaded)
                },
                Err(reason) => keep(reason),
            },
            (Stage::Prune { dir, left, size, uploaded }, ArchiveEvent::DirRemoved(removed)) => {
                assert((seq![dir@] + texts(left@).reverse()).drop_first() =~= texts(
                    left@,
                ).reverse());
                if removed {
                    prune_next(left, size, uploaded)
                } else {
                    Stage::Done(ArchiveOutcome::Archived { size, uploaded })
                }
            },
            (stage, _) => stage,
        };
        self.stage = after;
    }

    /// What became of the file, if it is done with.
    pub fn outcome(self) -> (r: Option<ArchiveOutcome>)
        ensures
            match self@.stage {
                StageView::Done(outcome) => r matches Some(o) && o@ == outcome,
                _ => r is None,
            },
    {
        match self.stage {
            Stage::Done(outcome) => Some(outcome),
            _ => None,
        }
    }
}

/// What the outcome of a file adds to the report of a run.
pub open spec fn outcome_report(path: Seq<char>, outcome: OutcomeView) -> ReportView {
    match outcome {
        OutcomeView::Planned => ReportView::empty(),
        OutcomeView::Archived { size, .. } => ReportView {
            freed: size as nat,
            errors: Seq::empty(),
        },
        OutcomeView::Failed(reason) => ReportView {
            freed: 0,
            errors: seq![error_at(path, reason)],
        },
    }
}

/// Notes the outcome of a file.
pub fn record_outcome(report: &mut CleanupReport, path: &str, outcome: &ArchiveOutcome)
    requires
        outcome@ matches OutcomeView::Archived { size, .. } ==> old(report).freed + size
            <= u64::MAX,
    ensures
        final(report)@ == old(report)@.plus(outcome_report(path@, outcome@)),
{
    match outcome {
        ArchiveOutcome::Planned => {},
        ArchiveOutcome::Archived { size, uploaded } => {
            report.freed = report.freed + *size;
        },
        ArchiveOutcome::Failed(reason) => {
            report.add_error(path, reason.as_str());
        },
    }
    assert(report@ =~= old(report)@.plus(outcome_report(path@, outcome@)));
}

/// Whether a run failed: it did if any file did.
pub fn run_failed(report: &CleanupReport) -> (r: bool)
    ensures
        r == (report@.errors.len() > 0),
{
    report.errors.len() > 0
}

/// The state after a list of answers.
pub open spec fn after_all(
    state: ArchivingView,
    events: Seq<ArchiveEventView>,
) -> ArchivingView
    decreases events.len(),
{
    if events.len() == 0 {
        state
    } else {
        after_all(state, events.drop_last()).next(events.last())
    }
}

/// Each of the events answers the action that was asked for.
pub open spec fn answers(state: ArchivingView, events: Seq<ArchiveEventView>) -> bool
    decreases events.len(),
{
    events.len() > 0 ==> answers(state, events.drop_last()) && after_all(
        state,
        events.drop_last(),
    ).awaits(events.last())
}

/// The file was inspected with this identity, and its checksum is this.
pub open spec fn known_as(
    events: Seq<ArchiveEventView>,
    identity: FileIdentity,
    sha256: Seq<char>,
) -> bool {
    &&& events.len() >= 2
    &&& events[0] == ArchiveEventView::Inspected(Ok(identity))
    &&& events[1] == ArchiveEventView::Hashed(Ok(sha256))
}

/// The event number `i` showed that the object under the key is that of the file.
pub open spec fn verified_at(
    events: Seq<ArchiveEventView>,
    i: int,
    identity: FileIdentity,
    sha256: Seq<char>,
) -> bool {
    0 <= i < events.len() && (events[i] matches ArchiveEventView::Headed(object)
        && object_matches(object, identity.size, sha256))
}

/// The file was uploaded among these answers.
pub open spec fn was_uploaded(events: Seq<ArchiveEventView>) -> bool {
    events.len() > 3 && events[3] == ArchiveEventView::Uploaded(EffectView::Done)
}

/// The object was verified by the last of these answers.
pub open spec fn verification_earned(
    events: Seq<ArchiveEventView>,
    identity: FileIdentity,
) -> bool {
    exists|sha256: Seq<char>| #[trigger]
        known_as(events, identity, sha256) && verified_at(
            events,
            events.len() - 1,
            identity,
            sha256,
        )
}

/// The answers allow the file to be removed: its object was verified, and the file
/// was then found to be what it was before its checksum was computed.
pub open spec fn removal_earned(events: Seq<ArchiveEventView>, identity: FileIdentity) -> bool {
    &&& events.len() > 0
    &&& verification_earned(events.drop_last(), identity)
    &&& events.last() == ArchiveEventView::Inspected(Ok(identity))
}

/// The file was removed, and the answers before allowed it.
pub open spec fn removal_done(events: Seq<ArchiveEventView>, identity: FileIdentity) -> bool {
    exists|k: int|
        0 <= k < events.len() && removal_earned(#[trigger] events.take(k), identity) && events[k]
            == ArchiveEventView::Removed(EffectView::Done)
}

/// What the answers so far must have been for the archiving to have come to this
/// stage.
pub open spec fn earned(stage: StageView, events: Seq<ArchiveEventView>) -> bool {
    let n = events.len() as int;
    match stage {
        StageView::Inspect => n == 0,
        StageView::Hash { identity } => n == 1 && events[0] == ArchiveEventView::Inspected(
            Ok(identity),
        ),
        StageView::Head { identity, sha256 } => n == 2 && known_as(events, identity, sha256),
        StageView::Upload { identity, sha256 } => n == 3 && known_as(events, identity, sha256)
            && events[2] == ArchiveEventView::Headed(RemoteView::Missing),
        StageView::Verify { identity, sha256 } => n == 4 && known_as(events, identity, sha256)
            && events[2] == ArchiveEventView::Headed(RemoteView::Missing) && was_uploaded(events),
        StageView::Recheck { identity, uploaded } => n >= 3 && verification_earned(
            events,
            identity,
        ) && uploaded == was_uploaded(events) && (!uploaded ==> n == 3),
        StageView::Remove { identity, uploaded } => n >= 4 && removal_earned(events, identity)
            && uploaded == was_uploaded(events),
        StageView::Prune { size, uploaded, .. } => n > 4 && removed_as(events, size) && uploaded
            == was_uploaded(events),
        StageView::Done(OutcomeView::Archived { size, uploaded }) => n > 4 && removed_as(
            events,
            size,
        ) && uploaded == was_uploaded(events),
        StageView::Done(OutcomeView::Planned) => n == 0,
        StageView::Done(OutcomeView::Failed(reason)) => true,
    }
}

/// A file of this size was removed, and the answers before allowed it.
pub open spec fn removed_as(events: Seq<ArchiveEventView>, size: u64) -> bool {
    exists|identity: FileIdentity| #[trigger]
        removal_done(events, identity) && identity.size == size
}

proof fn lemma_removed_keeps(
    events: Seq<ArchiveEventView>,
    event: ArchiveEventView,
    size: u64,
)
    requires
        removed_as(events, size),
    ensures
        removed_as(events.push(event), size),
{
    let all = events.push(event);
    let identity = choose|identity: FileIdentity| #[trigger]
        removal_done(events, identity) && identity.size == size;
    let k = choose|k: int|
        0 <= k < events.len() && removal_earned(#[trigger] events.take(k), identity) && events[k]
            == ArchiveEventView::Removed(EffectView::Done);
    assert(all.take(k) =~= events.take(k));
    assert(removal_done(all, identity));
}

/// One more answer: what the stage before calls for carries over to the next.
proof fn lemma_earned_next(
    state: ArchivingView,
    events: Seq<ArchiveEventView>,
    event: ArchiveEventView,
)
    requires
        earned(state.stage, events),
        state.awaits(event),
    ensures
        earned(state.next(event).stage, events.push(event)),
{
    let all = events.push(event);
    let n = events.len() as int;
    assert(all.drop_last() =~= events);
    match state.stage {
        StageView::Inspect => {},
        StageView::Hash { identity } => {},
        StageView::Head { identity, sha256 } => {
            assert(known_as(all, identity, sha256));
        },
        StageView::Upload { identity, sha256 } => {
            assert(known_as(all, identity, sha256));
        },
        StageView::Verify { identity, sha256 } => {
            assert(known_as(all, identity, sha256));
        },
        StageView::Recheck { identity, uploaded } => {
            assert(was_uploaded(all) == was_uploaded(events));
        },
        StageView::Remove { identity, uploaded } => {
            assert(all.take(n) =~= events);
            if event == ArchiveEventView::Removed(EffectView::Done) {
                assert(removal_done(all, identity));
                assert(removed_as(all, identity.size));
            }
        },
        StageView::Prune { dirs, size, uploaded } => {
            lemma_removed_keeps(events, event, size);
        },
        StageView::Done(outcome) => {},
    }
}

/// Whatever the answers, the archiving of a file comes to no stage that they do not
/// allow.
pub proof fn law_stages_earned(
    path: Seq<char>,
    key: Seq<char>,
    root: Seq<char>,
    dry_run: bool,
    events: Seq<ArchiveEventView>,
)
    requires
        answers(archive_start(path, key, root, dry_run), events),
    ensures
        earned(after_all(archive_start(path, key, root, dry_run), events).stage, events),
    decreases events.len(),
{
    let start = archive_start(path, key, root, dry_run);
    if events.len() > 0 {
        let before = events.drop_last();
        law_stages_earned(path, key, root, dry_run, before);
        lemma_earned_next(after_all(start, before), before, events.last());
        assert(before.push(events.last()) =~= events);
    }
}

/// The path, the key and the directories of a file stay what they are.
proof fn lemma_state_kept(state: ArchivingView, events: Seq<ArchiveEventView>)
    ensures
        after_all(state, events).path == state.path,
        after_all(state, events).key == state.key,
        after_all(state, events).dirs == state.dirs,
    decreases events.len(),
{
    if events.len() > 0 {
        lemma_state_kept(state, events.drop_last());
    }
}

/// A file is removed only after its object was found with the length and the
/// checksum of the file, and the file was then found with the identity that it had
/// before the checksum was computed.
pub proof fn law_removal_after_verification(
    path: Seq<char>,
    key: Seq<char>,
    root: Seq<char>,
    dry_run: bool,
    events: Seq<ArchiveEventView>,
)
    requires
        answers(archive_start(path, key, root, dry_run), events),
        after_all(archive_start(path, key, root, dry_run), events).action() is RemoveFile,
    ensures
        exists|identity: FileIdentity| #[trigger] removal_earned(events, identity),
        after_all(archive_start(path, key, root, dry_run), events).action()
            == ArchiveActionView::RemoveFile(path),
{
    let start = archive_start(path, key, root, dry_run);
    law_stages_earned(path, key, root, dry_run, events);
    lemma_state_kept(start, events);
    match after_all(start, events).stage {
        StageView::Remove { identity, uploaded } => {
            assert(removal_earned(events, identity));
        },
        _ => {},
    }
}

/// Nothing is ever overwritten: an upload is asked for only where the last answer
/// was that there is no object under the key.
pub proof fn law_never_overwrites(
    path: Seq<char>,
    key: Seq<char>,
    root: Seq<char>,
    dry_run: bool,
    events: Seq<ArchiveEventView>,
)
    requires
        answers(archive_start(path, key, root, dry_run), events),
        after_all(archive_start(path, key, root, dry_run), events).action() is Upload,
    ensures
        events.len() > 0,
        events.last() == ArchiveEventView::Headed(RemoteView::Missing),
        after_all(archive_start(path, key, root, dry_run), events).action()->key == key,
        known_as(
            events,
            events[0]->Inspected_0->Ok_0,
            after_all(archive_start(path, key, root, dry_run), events).action()->sha256,
        ),
{
    law_stages_earned(path, key, root, dry_run, events);
    lemma_state_kept(archive_start(path, key, root, dry_run), events);
}

/// A dry run asks for nothing: neither an upload nor a removal.
pub proof fn law_dry_run_does_nothing(
    path: Seq<char>,
    key: Seq<char>,
    root: Seq<char>,
    events: Seq<ArchiveEventView>,
)
    requires
        answers(archive_start(path, key, root, true), events),
    ensures
        events.len() == 0,
        after_all(archive_start(path, key, root, true), events).action() is Done,
    decreases events.len(),
{
    if events.len() > 0 {
        law_dry_run_does_nothing(path, key, root, events.drop_last());
    }
}

/// No file is removed before its archiving has come to the directories around it, or
/// to its end.
proof fn lemma_removed_once_archived(state: ArchivingView, events: Seq<ArchiveEventView>, i: int)
    requires
        !(state.stage is Done),
        answers(state, events),
        0 <= i < events.len(),
        events[i] == ArchiveEventView::Removed(EffectView::Done),
    ensures
        ({
            let stage = after_all(state, events).stage;
            stage is Prune || stage matches StageView::Done(OutcomeView::Archived { .. })
        }),
    decreases events.len(),
{
    let before = events.drop_last();
    if i < before.len() {
        assert(before[i] == events[i]);
        lemma_removed_once_archived(state, before, i);
    }
}

/// A file that is not archived stays: where its archiving failed, no removal of it
/// succeeded.
pub proof fn law_failure_keeps_file(
    path: Seq<char>,
    key: Seq<char>,
    root: Seq<char>,
    events: Seq<ArchiveEventView>,
    i: int,
)
    requires
        answers(archive_start(path, key, root, false), events),
        after_all(archive_start(path, key, root, false), events).stage matches StageView::Done(
            OutcomeView::Failed(_),
        ),
        0 <= i < events.len(),
    ensures
        events[i] != ArchiveEventView::Removed(EffectView::Done),
{
    if events[i] == ArchiveEventView::Removed(EffectView::Done) {
        lemma_removed_once_archived(archive_start(path, key, root, false), events, i);
    }
}

/// Only the directories between the directory of the policy and the file are removed
/// with it, and only after the file was.
pub proof fn law_dirs_after_file(
    path: Seq<char>,
    key: Seq<char>,
    root: Seq<char>,
    events: Seq<ArchiveEventView>,
)
    requires
        answers(archive_start(path, key, root, false), events),
        after_all(archive_start(path, key, root, false), events).action() is RemoveDir,
    ensures
        events.contains(ArchiveEventView::Removed(EffectView::Done)),
        after_all(archive_start(path, key, root, false), events).action() matches
            ArchiveActionView::RemoveDir(dir) && dirs_between(path, root).contains(dir),
{
    let start = archive_start(path, key, root, false);
    law_stages_earned(path, key, root, false, events);
    lemma_prune_dirs(start, events);
    match after_all(start, events).stage {
        StageView::Prune { dirs, size, uploaded } => {
            let identity = choose|identity: FileIdentity| #[trigger]
                removal_done(events, identity) && identity.size == size;
            let k = choose|k: int|
                0 <= k < events.len() && removal_earned(#[trigger] events.take(k), identity)
                    && events[k] == ArchiveEventView::Removed(EffectView::Done);
            assert(events[k] == ArchiveEventView::Removed(EffectView::Done));
            let skipped = choose|skipped: int|
                0 <= skipped <= start.dirs.len() && dirs == #[trigger] start.dirs.skip(skipped);
            assert(dirs[0] == start.dirs[skipped]);
        },
        _ => {},
    }
}

/// The directories that are still to be removed are the last of those that go with
/// the file.
proof fn lemma_prune_dirs(state: ArchivingView, events: Seq<ArchiveEventView>)
    requires
        state.stage is Inspect,
    ensures
        after_all(state, events).stage matches StageView::Prune { dirs, .. } ==> dirs.len() > 0
            && exists|skipped: int|
            0 <= skipped <= state.dirs.len() && dirs == #[trigger] state.dirs.skip(skipped),
    decreases events.len(),
{
    if events.len() > 0 {
        let before = events.drop_last();
        lemma_prune_dirs(state, before);
        lemma_state_kept(state, before);
        let last = after_all(state, before);
        match last.stage {
            StageView::Remove { .. } => {
                assert(state.dirs.skip(0) =~= state.dirs);
            },
            StageView::Prune { dirs, .. } => {
                let skipped = choose|skipped: int|
                    0 <= skipped <= state.dirs.len() && dirs == #[trigger] state.dirs.skip(
                        skipped,
                    );
                assert(dirs.drop_first() =~= state.dirs.skip(skipped + 1));
            },
            _ => {},
        }
    }
}

/// An object that matches its file is used without another upload: where the file is
/// found unchanged, it is removed next.
pub proof fn law_matching_object_reused(
    path: Seq<char>,
    key: Seq<char>,
    root: Seq<char>,
    identity: FileIdentity,
    sha256: Seq<char>,
    object: RemoteView,
)
    requires
        object_matches(object, identity.size, sha256),
    ensures
        after_all(
            archive_start(path, key, root, false),
            seq![
                ArchiveEventView::Inspected(Ok(identity)),
                ArchiveEventView::Hashed(Ok(sha256)),
                ArchiveEventView::Headed(object),
                ArchiveEventView::Inspected(Ok(identity)),
            ],
        ).action() == ArchiveActionView::RemoveFile(path),
{
    let start = archive_start(path, key, root, false);
    let first = seq![ArchiveEventView::Inspected(Ok(identity))];
    let second = first.push(ArchiveEventView::Hashed(Ok(sha256)));
    let third = second.push(ArchiveEventView::Headed(object));
    let all = seq![
        ArchiveEventView::Inspected(Ok(identity)),
        ArchiveEventView::Hashed(Ok(sha256)),
        ArchiveEventView::Headed(object),
        ArchiveEventView::Inspected(Ok(identity)),
    ];
    assert(after_all(start, first.drop_last()) == start);
    assert(after_all(start, first).stage == StageView::Hash { identity });
    assert(second.drop_last() =~= first);
    assert(after_all(start, second).stage == StageView::Head { identity, sha256 });
    assert(third.drop_last() =~= second);
    assert(after_all(start, third).stage == StageView::Recheck { identity, uploaded: false });
    assert(all.drop_last() =~= third);
    lemma_state_kept(start, all);
}

/// The file at `path` is removed only after these answers: the file had an identity and a
/// checksum; the last but one was that the object under its key has the size of the file as
/// its length and that checksum; and the last was that the file has the same identity still.
pub proof fn law_removal_needs_match(
    path: Seq<char>,
    key: Seq<char>,
    root: Seq<char>,
    dry_run: bool,
    events: Seq<ArchiveEventView>,
)
    requires
        answers(archive_start(path, key, root, dry_run), events),
        after_all(archive_start(path, key, root, dry_run), events).action() is RemoveFile,
    ensures
        !dry_run,
        events.len() >= 4,
        events[0] is Inspected && events[1] is Hashed,
        events[0] == events.last(),
        events[0] matches ArchiveEventView::Inspected(Ok(identity)) && events[1] matches
            ArchiveEventView::Hashed(Ok(sha256)) && events[events.len() - 2]
            == ArchiveEventView::Headed(
            RemoteView::Found { length: identity.size, sha256: Some(sha256) },
        ),
{
    if dry_run {
        law_dry_run_does_nothing(path, key, root, events);
    }
    law_removal_after_verification(path, key, root, dry_run, events);
    let identity = choose|identity: FileIdentity| #[trigger] removal_earned(events, identity);
    let before = events.drop_last();
    let sha256 = choose|sha256: Seq<char>| #[trigger]
        known_as(before, identity, sha256) && verified_at(
            before,
            before.len() - 1,
            identity,
            sha256,
        );
    assert(before[0] == events[0] && before[1] == events[1]);
    assert(before[before.len() - 1] == events[events.len() - 2]);
    assert(events[0] == ArchiveEventView::Inspected(Ok(identity)));
    assert(events[1] == ArchiveEventView::Hashed(Ok(sha256)));
}

/// How a file is archived that has no object yet: it is inspected, its checksum is
/// computed, its key is looked up, it is uploaded with the checksum, looked up and inspected
/// again, and then removed. What is archived counts with its size.
pub proof fn law_upload_course(
    path: Seq<char>,
    key: Seq<char>,
    root: Seq<char>,
    identity: FileIdentity,
    sha256: Seq<char>,
)
    ensures
        ({
            let found = RemoteView::Found { length: identity.size, sha256: Some(sha256) };
            let a = archive_start(path, key, root, false);
            let b = a.next(ArchiveEventView::Inspected(Ok(identity)));
            let c = b.next(ArchiveEventView::Hashed(Ok(sha256)));
            let d = c.next(ArchiveEventView::Headed(RemoteView::Missing));
            let e = d.next(ArchiveEventView::Uploaded(EffectView::Done));
            let f = e.next(ArchiveEventView::Headed(found));
            let g = f.next(ArchiveEventView::Inspected(Ok(identity)));
            let h = g.next(ArchiveEventView::Removed(EffectView::Done));
            &&& a.action() == ArchiveActionView::Inspect(path)
            &&& b.action() == ArchiveActionView::Hash(path)
            &&& c.action() == ArchiveActionView::Head(key)
            &&& d.action() == (ArchiveActionView::Upload { path, key, sha256 })
            &&& e.action() == ArchiveActionView::Head(key)
            &&& f.action() == ArchiveActionView::Inspect(path)
            &&& g.action() == ArchiveActionView::RemoveFile(path)
            &&& dirs_between(path, root).len() == 0 ==> h.stage == StageView::Done(
                OutcomeView::Archived { size: identity.size, uploaded: true },
            )
            &&& dirs_between(path, root).len() > 0 ==> h.action() == ArchiveActionView::RemoveDir(
                dirs_between(path, root)[0],
            )
        }),
{
}

/// A file is kept wherever something else is found: an object of another length or checksum
/// under its key, before an upload or after it, no object after it, or another identity of
/// the file.
pub proof fn law_mismatch_keeps_file(
    path: Seq<char>,
    key: Seq<char>,
    root: Seq<char>,
    identity: FileIdentity,
    other: FileIdentity,
    sha256: Seq<char>,
    length: u64,
    stored: Option<Seq<char>>,
)
    requires
        length != identity.size || stored != Some(sha256),
        other != identity,
    ensures
        ({
            let object = RemoteView::Found { length, sha256: stored };
            let found = RemoteView::Found { length: identity.size, sha256: Some(sha256) };
            let c = archive_start(path, key, root, false).next(
                ArchiveEventView::Inspected(Ok(identity)),
            ).next(ArchiveEventView::Hashed(Ok(sha256)));
            let e = c.next(ArchiveEventView::Headed(RemoteView::Missing)).next(
                ArchiveEventView::Uploaded(EffectView::Done),
            );
            &&& c.next(ArchiveEventView::Headed(object)).stage == StageView::Done(
                OutcomeView::Failed("a different object exists at "@ + key),
            )
            &&& e.next(ArchiveEventView::Headed(object)).stage == StageView::Done(
                OutcomeView::Failed("the uploaded object does not match at "@ + key),
            )
            &&& e.next(ArchiveEventView::Headed(RemoteView::Missing)).stage == StageView::Done(
                OutcomeView::Failed("the uploaded object is missing at "@ + key),
            )
            &&& c.next(ArchiveEventView::Headed(found)).next(
                ArchiveEventView::Inspected(Ok(other)),
            ).stage == StageView::Done(
                OutcomeView::Failed("the file changed while it was archived"@),
            )
            &&& e.next(ArchiveEventView::Headed(found)).next(
                ArchiveEventView::Inspected(Ok(other)),
            ).stage == StageView::Done(
                OutcomeView::Failed("the file changed while it was archived"@),
            )
        }),
{
}

/// Whatever fails ends the archiving of a file, for the reason that is given.
pub proof fn law_failure_ends(state: ArchivingView, reason: Seq<char>)
    ensures
        ({
            let failed = StageView::Done(OutcomeView::Failed(reason));
            let unread = ArchiveEventView::Inspected(Err(reason));
            let effect = EffectView::Failed(reason);
            &&& state.stage is Inspect || state.stage is Recheck ==> state.next(unread).stage
                == failed
            &&& state.stage is Hash ==> state.next(ArchiveEventView::Hashed(Err(reason))).stage
                == failed
            &&& state.stage is Head || state.stage is Verify ==> state.next(
                ArchiveEventView::Headed(RemoteView::Failed(reason)),
            ).stage == failed
            &&& state.stage is Upload ==> state.next(ArchiveEventView::Uploaded(effect)).stage
                == failed
            &&& state.stage is Remove ==> state.next(ArchiveEventView::Removed(effect)).stage
                == failed
        }),
{
}

/// The directories of a file are removed one after the other, up to the first that cannot
/// be.
pub proof fn law_dirs_in_turn(
    state: ArchivingView,
    dirs: Seq<Seq<char>>,
    size: u64,
    uploaded: bool,
)
    requires
        state.stage == (StageView::Prune { dirs, size, uploaded }),
        dirs.len() > 0,
    ensures
        state.action() == ArchiveActionView::RemoveDir(dirs[0]),
        state.next(ArchiveEventView::DirRemoved(false)).stage == StageView::Done(
            OutcomeView::Archived { size, uploaded },
        ),
        dirs.len() == 1 ==> state.next(ArchiveEventView::DirRemoved(true)).stage == StageView::Done(
            OutcomeView::Archived { size, uploaded },
        ),
        dirs.len() > 1 ==> state.next(ArchiveEventView::DirRemoved(true)).action()
            == ArchiveActionView::RemoveDir(dirs[1]),
{
}

/// What the outcome of a file adds to a report: the size of what was archived, an error at
/// the path of what was not, and nothing in a dry run.
pub proof fn law_outcomes(path: Seq<char>, size: u64, uploaded: bool, reason: Seq<char>)
    ensures
        outcome_report(path, OutcomeView::Planned).freed == 0,
        outcome_report(path, OutcomeView::Planned).errors.len() == 0,
        outcome_report(path, OutcomeView::Archived { size, uploaded }).freed == size,
        outcome_report(path, OutcomeView::Archived { size, uploaded }).errors.len() == 0,
        outcome_report(path, OutcomeView::Failed(reason)).freed == 0,
        outcome_report(path, OutcomeView::Failed(reason)).errors == seq![path + ": "@ + reason],
{
}

} // verus!
