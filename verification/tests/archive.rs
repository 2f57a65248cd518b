use disk_cleaner::archive::{
    archive_excludes, archive_key, check_policies, is_model_path, is_valid_prefix, older_than,
    select_cold_files, ArchiveEntry, ColdFile, PolicyFault, PolicyProblem,
};
use disk_cleaner::archive_run::{
    archive_file, record_outcome, run_failed, ArchiveAction, ArchiveEvent, ArchiveOutcome,
    Archiving, FileIdentity, RemoteObject,
};
use disk_cleaner::config::ArchivePolicy;
use disk_cleaner::path::is_excluded;
use disk_cleaner::remote::{
    head_failure, head_object, read_checksum, read_failure, read_head, Storage,
};
use disk_cleaner::report::CleanupReport;
use disk_cleaner::time::Timestamp;

const DAY: i64 = 86_400;
const HOME: &str = "/Users/example";

fn at(secs: i64) -> Timestamp {
    Timestamp { secs, nanos: 0 }
}

fn policy(prefix: &str, days: u64, partition_by_date: bool) -> ArchivePolicy {
    ArchivePolicy {
        path: "~/Movies/renders".to_string(),
        prefix: prefix.to_string(),
        older_than_days: days,
        partition_by_date,
        exclude: vec!["active-project".to_string(), "~/Movies/renders/keep".to_string()],
    }
}

#[test]
fn prefixes_are_relative_paths_of_names() {
    for prefix in ["cold", "cold/renders", "a.b/..c/d..", "\u{e9}/x y"] {
        assert!(is_valid_prefix(prefix), "{prefix:?}");
    }
    for prefix in [
        "", "/", "/cold", "cold/", "cold//renders", ".", "..", "cold/.", "cold/../x", "./cold",
        "cold\\renders", "\\",
    ] {
        assert!(!is_valid_prefix(prefix), "{prefix:?}");
    }
}

fn check(policies: &[ArchivePolicy], roots: &[Option<&str>]) -> Result<(), PolicyFault> {
    let roots: Vec<Option<String>> =
        roots.iter().map(|root| root.map(str::to_string)).collect();
    check_policies(policies, &roots)
}

#[test]
fn policies_are_checked_in_order() {
    let good = [policy("a", 1, false), policy("b", 2, true)];
    assert_eq!(check(&good, &[Some("/x"), Some("/y")]), Ok(()));
    assert_eq!(check(&[], &[]), Ok(()));
    let fault = |index, problem| Err(PolicyFault { index, problem });
    assert_eq!(check(&good, &[Some("/x"), None]), fault(1, PolicyProblem::MissingRoot));
    assert_eq!(
        check(&good, &[Some("/x"), Some("/x/y")]),
        fault(1, PolicyProblem::OverlappingRoots)
    );
    assert_eq!(
        check(&good, &[Some("/x/y"), Some("/x")]),
        fault(1, PolicyProblem::OverlappingRoots)
    );
    assert_eq!(check(&good, &[Some("/x"), Some("/xy")]), Ok(()));
    let young = [policy("a", 0, false), policy("/", 1, false)];
    assert_eq!(check(&young, &[None, None]), fault(0, PolicyProblem::Age));
    let unnamed = [policy("a", 1, false), policy("/", 0, false)];
    assert_eq!(check(&unnamed, &[Some("/x"), None]), fault(1, PolicyProblem::Prefix));
    assert_eq!(
        PolicyProblem::Age.message(),
        "older_than_days must be greater than zero"
    );
}

#[test]
fn model_paths_are_never_archived() {
    for path in [
        "/r/models/x.txt",
        "/checkpoints/x",
        "/r/a.safetensors",
        "/r/a.ckpt",
        "/r/a.pt",
        "/r/a.pth",
        "/r/a.bin",
        "/r/a.gguf",
        "/r/a.onnx",
    ] {
        assert!(is_model_path(path), "{path:?}");
    }
    for path in ["/r/models2/x", "/r/mymodels/x", "/r/a.ptx", "/r/pt", "/r/a.bin.txt"] {
        assert!(!is_model_path(path), "{path:?}");
    }
}

#[test]
fn a_file_is_cold_once_it_is_older() {
    let now = at(100 * DAY);
    assert!(!older_than(at(70 * DAY), 30, now));
    assert!(older_than(Timestamp { secs: 70 * DAY - 1, nanos: 999_999_999 }, 30, now));
    assert!(!older_than(at(200 * DAY), 30, now));
    assert!(!older_than(at(i64::MIN), u64::MAX, at(i64::MAX)));
}

#[test]
fn policy_excludes_are_seen_from_the_root() {
    let root = "/Users/example/Movies/renders";
    let run = vec!["/Users/example/Movies/renders/run".to_string()];
    let excludes = archive_excludes(&policy("p", 1, false), root, HOME, &run);
    assert_eq!(
        excludes,
        vec![
            "/Users/example/Movies/renders/active-project",
            "/Users/example/Movies/renders/keep",
            "/Users/example/Movies/renders/run"
        ]
    );
    assert!(is_excluded("/Users/example/Movies/renders/active-project/a", &excludes));
    let mut absolute = policy("p", 1, false);
    absolute.exclude = vec!["/abs".to_string()];
    assert_eq!(archive_excludes(&absolute, root, HOME, &[]), vec!["/abs"]);
}

#[test]
fn cold_files_are_picked() {
    let entry = |path: &str, regular, secs| ArchiveEntry {
        path: path.to_string(),
        regular,
        modified: at(secs),
    };
    let entries = vec![
        entry("/r", false, 0),
        entry("/r/old", true, 0),
        entry("/r/new", true, 99 * DAY),
        entry("/r/keep/old", true, 0),
        entry("/r/old.bin", true, 0),
        entry("/r/older", true, -DAY),
    ];
    let picked = select_cold_files(&entries, 30, &["/r/keep".to_string()], at(100 * DAY));
    let paths: Vec<&str> = picked.iter().map(|file| file.path.as_str()).collect();
    assert_eq!(paths, vec!["/r/old", "/r/older"]);
    assert_eq!(picked[1].modified, at(-DAY));
}

fn key(policy: &ArchivePolicy, path: &str, modified: Timestamp) -> Option<String> {
    let file = ColdFile { path: path.to_string(), modified };
    archive_key(policy, "/Users/example/Movies/renders", &file)
}

#[test]
fn keys_keep_the_relative_path() {
    let plain = policy("cold/renders", 30, false);
    let path = "/Users/example/Movies/renders/client/final.mp4";
    assert_eq!(
        key(&plain, path, at(i64::MAX)).as_deref(),
        Some("cold/renders/client/final.mp4")
    );
    assert_eq!(key(&plain, "/Users/example/Movies/renders", at(0)), None);
    assert_eq!(key(&plain, "/elsewhere/final.mp4", at(0)), None);
}

#[test]
fn keys_may_hold_the_date() {
    let dated = policy("cold/renders", 30, true);
    let path = "/Users/example/Movies/renders/client/final.mp4";
    assert_eq!(
        key(&dated, path, at(1_709_251_199)).as_deref(),
        Some("cold/renders/2024/02/29/client/final.mp4")
    );
    assert_eq!(
        key(&dated, path, at(-62_135_596_800)).as_deref(),
        Some("cold/renders/0001/01/01/client/final.mp4")
    );
    assert_eq!(key(&dated, path, at(i64::MAX)), None);
    assert_eq!(key(&dated, path, at(253_402_300_800)), None);
    assert_eq!(key(&dated, path, at(-62_167_219_201)), None);
}

#[test]
fn different_files_have_different_keys() {
    let dated = policy("p", 30, true);
    let a = key(&dated, "/Users/example/Movies/renders/a", at(0));
    let b = key(&dated, "/Users/example/Movies/renders/b", at(400 * DAY));
    assert_ne!(a, b);
    assert_eq!(a.as_deref(), Some("p/1970/01/01/a"));
}

const ID: FileIdentity = FileIdentity {
    device: 1,
    inode: 2,
    changed: Timestamp { secs: 3, nanos: 4 },
    size: 5,
    modified: Timestamp { secs: 6, nanos: 7 },
};

fn start() -> Archiving {
    archive_file("/r/a/b/f", "p/a/b/f", "/r", false)
}

fn found(length: u64, sha256: Option<&str>) -> ArchiveEvent {
    ArchiveEvent::Headed(RemoteObject::Found { length, sha256: sha256.map(str::to_string) })
}

/// Hands in the events one after the other and returns the actions, as text.
fn drive(archiving: &mut Archiving, events: Vec<ArchiveEvent>) -> Vec<String> {
    let mut actions = Vec::new();
    for event in events {
        actions.push(format!("{:?}", archiving.action()));
        archiving.step(event);
    }
    actions.push(format!("{:?}", archiving.action()));
    actions
}

fn known() -> Vec<ArchiveEvent> {
    vec![ArchiveEvent::Inspected(Ok(ID)), ArchiveEvent::Hashed(Ok("abc".to_string()))]
}

#[test]
fn a_missing_object_is_uploaded_and_verified() {
    let mut archiving = start();
    let mut events = known();
    events.push(ArchiveEvent::Headed(RemoteObject::Missing));
    events.push(ArchiveEvent::Uploaded(Ok(())));
    events.push(found(5, Some("abc")));
    events.push(ArchiveEvent::Inspected(Ok(ID)));
    events.push(ArchiveEvent::Removed(Ok(())));
    events.push(ArchiveEvent::DirRemoved(true));
    events.push(ArchiveEvent::DirRemoved(true));
    let actions = drive(&mut archiving, events);
    assert_eq!(
        actions,
        vec![
            "Inspect(\"/r/a/b/f\")",
            "Hash(\"/r/a/b/f\")",
            "Head(\"p/a/b/f\")",
            "Upload { path: \"/r/a/b/f\", key: \"p/a/b/f\", sha256: \"abc\" }",
            "Head(\"p/a/b/f\")",
            "Inspect(\"/r/a/b/f\")",
            "RemoveFile(\"/r/a/b/f\")",
            "RemoveDir(\"/r/a/b\")",
            "RemoveDir(\"/r/a\")",
            "Done"
        ]
    );
    assert!(matches!(
        archiving.outcome(),
        Some(ArchiveOutcome::Archived { size: 5, uploaded: true })
    ));
}

#[test]
fn a_matching_object_is_reused() {
    let mut archiving = start();
    let mut events = known();
    events.push(found(5, Some("abc")));
    events.push(ArchiveEvent::Inspected(Ok(ID)));
    events.push(ArchiveEvent::Removed(Ok(())));
    events.push(ArchiveEvent::DirRemoved(false));
    let actions = drive(&mut archiving, events);
    assert!(actions.iter().all(|action| !action.starts_with("Upload")));
    assert_eq!(actions[4], "RemoveFile(\"/r/a/b/f\")");
    assert_eq!(actions[6], "Done");
    assert!(matches!(
        archiving.outcome(),
        Some(ArchiveOutcome::Archived { size: 5, uploaded: false })
    ));
}

fn reason(mut archiving: Archiving, events: Vec<ArchiveEvent>) -> String {
    let actions = drive(&mut archiving, events);
    assert_eq!(actions.last().unwrap(), "Done");
    match archiving.outcome() {
        Some(ArchiveOutcome::Failed(reason)) => reason,
        other => panic!("{other:?}"),
    }
}

#[test]
fn a_different_object_is_never_overwritten() {
    for object in [found(6, Some("abc")), found(5, Some("abd")), found(5, None)] {
        let mut events = known();
        events.push(object);
        assert_eq!(reason(start(), events), "a different object exists at p/a/b/f");
    }
}

#[test]
fn a_failure_keeps_the_file() {
    let text = || "denied".to_string();
    assert_eq!(reason(start(), vec![ArchiveEvent::Inspected(Err(text()))]), "denied");
    assert_eq!(
        reason(
            start(),
            vec![ArchiveEvent::Inspected(Ok(ID)), ArchiveEvent::Hashed(Err(text()))]
        ),
        "denied"
    );
    let mut head = known();
    head.push(ArchiveEvent::Headed(RemoteObject::Failed(text())));
    assert_eq!(reason(start(), head), "denied");
    let mut upload = known();
    upload.push(ArchiveEvent::Headed(RemoteObject::Missing));
    upload.push(ArchiveEvent::Uploaded(Err(text())));
    assert_eq!(reason(start(), upload), "denied");
    let mut recheck = known();
    recheck.push(found(5, Some("abc")));
    recheck.push(ArchiveEvent::Inspected(Err(text())));
    assert_eq!(reason(start(), recheck), "denied");
    let mut removal = known();
    removal.push(found(5, Some("abc")));
    removal.push(ArchiveEvent::Inspected(Ok(ID)));
    removal.push(ArchiveEvent::Removed(Err(text())));
    assert_eq!(reason(start(), removal), "denied");
}

#[test]
fn an_upload_that_cannot_be_verified_keeps_the_file() {
    let answers = [
        (ArchiveEvent::Headed(RemoteObject::Missing), "the uploaded object is missing at p/a/b/f"),
        (found(5, Some("xyz")), "the uploaded object does not match at p/a/b/f"),
        (ArchiveEvent::Headed(RemoteObject::Failed("network".to_string())), "network"),
    ];
    for (answer, expected) in answers {
        let mut events = known();
        events.push(ArchiveEvent::Headed(RemoteObject::Missing));
        events.push(ArchiveEvent::Uploaded(Ok(())));
        events.push(answer);
        assert_eq!(reason(start(), events), expected);
    }
}

#[test]
fn a_file_that_changed_is_kept() {
    let other = Timestamp { secs: 3, nanos: 5 };
    let changes = [
        FileIdentity { device: 9, ..ID },
        FileIdentity { inode: 9, ..ID },
        FileIdentity { changed: other, ..ID },
        FileIdentity { size: 9, ..ID },
        FileIdentity { modified: other, ..ID },
    ];
    for change in changes {
        let mut events = known();
        events.push(found(5, Some("abc")));
        events.push(ArchiveEvent::Inspected(Ok(change)));
        assert_eq!(reason(start(), events), "the file changed while it was archived");
    }
}

#[test]
fn an_archive_dry_run_asks_for_nothing() {
    let archiving = archive_file("/r/f", "p/f", "/r", true);
    assert!(matches!(archiving.action(), ArchiveAction::Done));
    assert!(matches!(archiving.outcome(), Some(ArchiveOutcome::Planned)));
    assert!(start().outcome().is_none());
}

#[test]
fn outcomes_are_recorded() {
    let mut report = CleanupReport::default();
    record_outcome(&mut report, "/r/a", &ArchiveOutcome::Planned);
    record_outcome(&mut report, "/r/b", &ArchiveOutcome::Archived { size: 7, uploaded: true });
    assert!(!run_failed(&report));
    record_outcome(&mut report, "/r/c", &ArchiveOutcome::Failed("denied".to_string()));
    record_outcome(&mut report, "/r/d", &ArchiveOutcome::Archived { size: 5, uploaded: false });
    assert!(run_failed(&report));
    assert_eq!(report.freed, 12);
    assert_eq!(report.errors, vec!["/r/c: denied"]);
}

fn storage() -> Storage {
    Storage {
        endpoint: "https://s3.example.com".to_string(),
        bucket: "archives".to_string(),
        profile: "archive".to_string(),
    }
}

#[test]
fn requests_are_written_as_arguments() {
    assert_eq!(
        storage().head_args("cold/a b").join("|"),
        "s3api|head-object|--bucket|archives|--key|cold/a b|--endpoint-url|\
         https://s3.example.com|--profile|archive|--output|json"
    );
    assert_eq!(
        storage().upload_args("/r/f", "cold/f", "abc").join("|"),
        "s3|cp|/r/f|s3://archives/cold/f|--metadata|sha256=abc|--endpoint-url|\
         https://s3.example.com|--profile|archive|--only-show-errors"
    );
}

#[test]
fn only_a_missing_object_is_missing() {
    let missing =
        "An error occurred (404) when calling the HeadObject operation: Not Found";
    assert!(matches!(head_failure(missing), RemoteObject::Missing));
    for message in [
        "An error occurred (403) when calling the HeadObject operation: Forbidden",
        "An error occurred (404) when calling the ListObjects operation: Not Found",
        "HeadObject failed (404)",
        "Could not connect to the endpoint URL",
        "The config profile (archive) could not be found",
        "",
    ] {
        match head_failure(message) {
            RemoteObject::Failed(reason) => assert_eq!(reason, message),
            other => panic!("{other:?}"),
        }
    }
}

#[test]
fn what_tools_print_is_read() {
    assert_eq!(read_checksum(b"abc123  -\n").as_deref(), Some("abc123"));
    assert_eq!(read_checksum(b" \n"), None);
    assert_eq!(read_failure(b"\n failed \xff\n"), "failed \u{fffd}");
}

fn head_text(object: RemoteObject) -> String {
    format!("{object:?}")
}

#[test]
fn the_head_of_an_object_is_read() {
    let answer = br#"{"ContentLength": 5, "ETag": "x", "Metadata": {"sha256": "abc", "a": "b"}}"#;
    assert_eq!(
        head_text(read_head(answer)),
        "Found { length: 5, sha256: Some(\"abc\") }"
    );
    assert_eq!(
        head_text(read_head(br#"{"ContentLength": 7, "Metadata": {"sha256": 1}}"#)),
        "Found { length: 7, sha256: None }"
    );
    assert_eq!(
        head_text(read_head(br#"{"ContentLength": 7}"#)),
        "Found { length: 7, sha256: None }"
    );
    for none in [&b"{}"[..], b"[]", br#"{"ContentLength": -1}"#, br#"{"ContentLength": "5"}"#] {
        assert_eq!(head_text(read_head(none)), "Failed(\"the object has no length\")");
    }
    assert_eq!(
        head_text(read_head(b"")),
        "Failed(\"EOF while parsing a value at line 1 column 0\")"
    );
}

#[test]
fn the_fields_of_an_answer_make_an_object() {
    assert_eq!(
        head_text(head_object(Ok((Some(3), Some("x".to_string()))))),
        "Found { length: 3, sha256: Some(\"x\") }"
    );
    assert_eq!(
        head_text(head_object(Ok((None, Some("x".to_string()))))),
        "Failed(\"the object has no length\")"
    );
    assert_eq!(head_text(head_object(Err("bad".to_string()))), "Failed(\"bad\")");
}
