use disk_cleaner::delete::{
    delete_directory_contents, delete_path, delete_paths, DeleteAction, DeleteEvent, Deletion,
    DirEntry, Inspection, Listing, Removal,
};
use disk_cleaner::report::CleanupReport;
use disk_cleaner::scan::{scan_directory, EntryKind, ScanReport, WalkEntry};
use std::collections::BTreeMap;

/// A file system in memory. A directory has no size; what is locked cannot be
/// removed, and what is closed cannot be listed or inspected.
#[derive(Default)]
struct Disk {
    nodes: BTreeMap<String, Option<u64>>,
    locked: Vec<String>,
    closed: Vec<String>,
    broken: Vec<String>,
    asked: Vec<String>,
}

impl Disk {
    fn new(nodes: &[(&str, Option<u64>)]) -> Disk {
        Disk {
            nodes: nodes.iter().map(|(path, size)| (path.to_string(), *size)).collect(),
            ..Disk::default()
        }
    }

    fn children(&self, dir: &str) -> Vec<String> {
        let start = format!("{dir}/");
        self.nodes
            .keys()
            .filter(|path| path.starts_with(&start) && !path[start.len()..].contains('/'))
            .cloned()
            .collect()
    }

    fn answer(&mut self, action: DeleteAction) -> Option<DeleteEvent> {
        let event = match action {
            DeleteAction::Inspect(path) => {
                self.asked.push(path.clone());
                DeleteEvent::Inspected(match self.nodes.get(&path) {
                    _ if self.closed.contains(&path) => Inspection::Failed("closed".to_string()),
                    None => Inspection::NotFound,
                    Some(None) => Inspection::Directory,
                    Some(Some(size)) => Inspection::File(*size),
                })
            }
            DeleteAction::List(path) => {
                self.asked.push(path.clone());
                let mut entries: Vec<DirEntry> =
                    self.children(&path).into_iter().map(DirEntry::At).collect();
                if self.broken.contains(&path) {
                    entries.insert(0, DirEntry::Broken("broken".to_string()));
                }
                DeleteEvent::Listed(if self.locked.contains(&path) {
                    Listing::Failed("no listing".to_string())
                } else {
                    Listing::Entries(entries)
                })
            }
            DeleteAction::RemoveFile(path) | DeleteAction::RemoveDir(path) => {
                self.asked.push(path.clone());
                DeleteEvent::Removed(if self.locked.contains(&path) {
                    Removal::Failed("locked".to_string())
                } else if !self.children(&path).is_empty() {
                    Removal::Failed("not empty".to_string())
                } else if self.nodes.remove(&path).is_some() {
                    Removal::Removed
                } else {
                    Removal::NotFound
                })
            }
            DeleteAction::Done => return None,
        };
        Some(event)
    }

    fn run(&mut self, mut deletion: Deletion) -> CleanupReport {
        while let Some(event) = self.answer(deletion.action()) {
            assert!(!deletion.is_done());
            deletion.step(event);
        }
        assert!(deletion.is_done());
        deletion.report()
    }

    fn left(&self) -> Vec<&str> {
        self.nodes.keys().map(String::as_str).collect()
    }
}

fn tree() -> Disk {
    Disk::new(&[
        ("/r", None),
        ("/r/a", Some(1)),
        ("/r/d", None),
        ("/r/d/b", Some(20)),
        ("/r/d/e", None),
        ("/r/d/e/c", Some(300)),
        ("/r/z", Some(4000)),
    ])
}

#[test]
fn a_tree_is_deleted_with_its_root() {
    let mut disk = tree();
    let report = disk.run(delete_path("/r", &[], true));
    assert_eq!(report, CleanupReport { freed: 4321, errors: Vec::new() });
    assert!(disk.left().is_empty());
}

#[test]
fn a_root_can_be_kept() {
    let mut disk = tree();
    let report = disk.run(delete_path("/r", &[], false));
    assert_eq!(report.freed, 4321);
    assert_eq!(disk.left(), vec!["/r"]);
}

#[test]
fn the_contents_of_a_directory_are_deleted() {
    let mut disk = tree();
    let report = disk.run(delete_directory_contents("/r", true, &[]));
    assert_eq!(report.freed, 4321);
    assert_eq!(disk.left(), vec!["/r"]);
}

#[test]
fn excluded_paths_are_left_alone() {
    let mut disk = tree();
    let excludes = vec!["/r/d/e".to_string()];
    let report = disk.run(delete_path("/r", &excludes, true));
    assert_eq!(report.freed, 4021);
    assert_eq!(disk.left(), vec!["/r", "/r/d", "/r/d/e", "/r/d/e/c"]);
    assert_eq!(report.errors, vec!["/r/d: not empty", "/r: not empty"]);
    assert!(disk.asked.iter().all(|path| !path.starts_with("/r/d/e")));
}

#[test]
fn an_excluded_root_is_not_even_looked_at() {
    let mut disk = tree();
    let excludes = vec!["/r".to_string()];
    disk.run(delete_path("/r", &excludes, true));
    disk.run(delete_directory_contents("/r", true, &excludes));
    disk.run(delete_paths(&["/r/a".to_string()], &excludes));
    assert!(disk.asked.is_empty());
    assert_eq!(disk.left().len(), 7);
}

#[test]
fn a_directory_that_does_not_exist_has_no_contents() {
    let mut disk = tree();
    let report = disk.run(delete_directory_contents("/r", false, &[]));
    assert_eq!(report, CleanupReport::default());
    assert!(disk.asked.is_empty());
}

#[test]
fn what_is_gone_already_is_no_error() {
    let mut disk = tree();
    assert_eq!(disk.run(delete_path("/none", &[], true)), CleanupReport::default());
    let mut deletion = delete_path("/r/a", &[], true);
    deletion.step(DeleteEvent::Inspected(Inspection::File(9)));
    deletion.step(DeleteEvent::Removed(Removal::NotFound));
    assert_eq!(deletion.report(), CleanupReport::default());
}

#[test]
fn errors_do_not_stop_the_rest() {
    let mut disk = tree();
    disk.locked = vec!["/r/a".to_string()];
    disk.closed = vec!["/r/d/b".to_string()];
    disk.broken = vec!["/r/d/e".to_string()];
    let report = disk.run(delete_path("/r", &[], true));
    assert_eq!(report.freed, 4300);
    assert_eq!(
        report.errors,
        vec![
            "/r/a: locked",
            "/r/d/b: closed",
            "/r/d/e: broken",
            "/r/d: not empty",
            "/r: not empty"
        ]
    );
}

#[test]
fn a_directory_that_cannot_be_listed_is_kept() {
    let mut disk = tree();
    disk.locked = vec!["/r/d".to_string()];
    let report = disk.run(delete_directory_contents("/r", true, &[]));
    assert_eq!(report.freed, 4001);
    assert_eq!(report.errors, vec!["/r/d: no listing"]);
    let mut closed = tree();
    closed.locked = vec!["/r".to_string()];
    let report = closed.run(delete_directory_contents("/r", true, &[]));
    assert_eq!(report.errors, vec!["/r: no listing"]);
}

#[test]
fn a_list_of_paths_is_deleted_in_order() {
    let mut disk = tree();
    disk.locked = vec!["/r/d/b".to_string()];
    let paths = vec!["/r/d".to_string(), "/r/none".to_string(), "/r/z".to_string()];
    let report = disk.run(delete_paths(&paths, &[]));
    assert_eq!(report.freed, 4300);
    assert_eq!(report.errors, vec!["/r/d/b: locked", "/r/d: not empty"]);
    assert_eq!(disk.left(), vec!["/r", "/r/a", "/r/d", "/r/d/b"]);
    assert_eq!(disk.run(delete_paths(&[], &[])), CleanupReport::default());
}

#[test]
fn a_deletion_stays_beneath_its_root() {
    let mut disk = tree();
    disk.run(delete_path("/r/d", &[], true));
    assert!(disk.asked.iter().all(|path| path.starts_with("/r/d")));
    assert_eq!(disk.left(), vec!["/r", "/r/a", "/r/z"]);
}

/// The bytes that a scan of the whole disk counts.
fn scanned(disk: &Disk, excludes: &[String]) -> u64 {
    let entries: Vec<WalkEntry> = disk
        .nodes
        .iter()
        .rev()
        .map(|(path, size)| WalkEntry::Entry {
            path: path.clone(),
            name: path.rsplit('/').next().map(str::to_string),
            kind: if size.is_some() { EntryKind::File } else { EntryKind::Dir },
            size: *size,
            accessed: None,
        })
        .collect();
    let mut report = ScanReport::default();
    scan_directory(&mut report, &entries, excludes);
    assert_eq!(report.warnings, 0);
    report.bytes
}

#[test]
fn a_scan_foretells_what_a_deletion_frees() {
    for excluded in ["/none", "/r", "/r/a", "/r/d", "/r/d/b", "/r/d/e", "/r/d/e/c", "/r/z"] {
        let excludes = vec![excluded.to_string()];
        let mut disk = tree();
        let foretold = scanned(&disk, &excludes);
        assert_eq!(disk.run(delete_directory_contents("/r", true, &excludes)).freed, foretold);
        assert!(tree().left().iter().all(|path| {
            !path.starts_with(excluded) || disk.left().contains(path)
        }));
        let mut again = tree();
        assert_eq!(again.run(delete_path("/r", &excludes, true)).freed, foretold);
    }
}
