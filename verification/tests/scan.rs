use disk_cleaner::docker::DockerInfo;
use disk_cleaner::order::sort_heaviest_first;
use disk_cleaner::scan::{
    collect_scan_results, find_directories, find_large_files, finish_large_files,
    get_project_search_dirs, has_marker, large_file_dir_candidates, large_file_search_dirs,
    min_large_file_size, project_dir_candidates, record_directory, scan_directory, should_scan,
    DirectoryScan, EntryKind, LargeFile, LargeFileScan, ScanReport, SearchKind, WalkEntry,
};
use disk_cleaner::target::get_categories;
use disk_cleaner::time::Timestamp;

fn entry(path: &str, kind: EntryKind, size: Option<u64>) -> WalkEntry {
    WalkEntry::Entry {
        path: path.to_string(),
        name: path.rsplit('/').next().map(str::to_string),
        kind,
        size,
        accessed: None,
    }
}

fn file(path: &str, size: u64) -> WalkEntry {
    entry(path, EntryKind::File, Some(size))
}

fn dir(path: &str) -> WalkEntry {
    entry(path, EntryKind::Dir, Some(64))
}

fn scan(entries: &[WalkEntry], excludes: &[String]) -> ScanReport {
    let mut report = ScanReport::default();
    scan_directory(&mut report, entries, excludes);
    report
}

#[test]
fn only_files_that_are_not_excluded_count() {
    let entries = vec![
        dir("/r"),
        file("/r/a", 5),
        file("/r/keep/b", 7),
        entry("/r/link", EntryKind::Other, Some(11)),
        entry("/r/c", EntryKind::File, None),
        entry("/r/keep/d", EntryKind::File, None),
        WalkEntry::Unreadable,
        file("/r/e", 6),
    ];
    let excludes = vec!["/r/keep".to_string()];
    assert_eq!(scan(&entries, &excludes), ScanReport { bytes: 11, warnings: 2 });
    assert_eq!(scan(&entries, &[]), ScanReport { bytes: 18, warnings: 3 });
    assert_eq!(scan(&[], &excludes), ScanReport { bytes: 0, warnings: 0 });
}

#[test]
fn scanning_in_batches_is_scanning_at_once() {
    let mut report = ScanReport::default();
    scan_directory(&mut report, &[file("/a", 1), WalkEntry::Unreadable], &[]);
    scan_directory(&mut report, &[file("/b", 2)], &[]);
    let all = [file("/a", 1), WalkEntry::Unreadable, file("/b", 2)];
    assert_eq!(report, scan(&all, &[]));
}

#[test]
fn excluded_files_add_nothing() {
    let excludes = vec!["/r".to_string()];
    let entries = [file("/r/a", 1), dir("/r"), entry("/r/b", EntryKind::File, None)];
    assert_eq!(scan(&entries, &excludes), ScanReport::default());
}

#[test]
fn scan_counters_wrap_round() {
    let entries = [file("/a", u64::MAX), file("/b", 3)];
    assert_eq!(scan(&entries, &[]).bytes, 2);
}

#[test]
fn a_directory_is_scanned_if_it_is_there_and_not_excluded() {
    let excludes = vec!["/r/keep".to_string()];
    assert!(should_scan("/r", true, &excludes));
    assert!(!should_scan("/r", false, &excludes));
    assert!(!should_scan("/r/keep/x", true, &excludes));
}

#[test]
fn directories_are_found_by_name() {
    let mut found = DirectoryScan::default();
    let entries = vec![
        dir("/p/.venv"),
        dir("/p/a/.venv"),
        file("/p/b/.venv", 1),
        dir("/p/keep/.venv"),
        dir("/p/venv"),
        WalkEntry::Unreadable,
        WalkEntry::Entry {
            path: "/p/x".to_string(),
            name: None,
            kind: EntryKind::Dir,
            size: None,
            accessed: None,
        },
    ];
    let excludes = vec!["/p/keep".to_string()];
    let paths = find_directories(&mut found, &entries, ".venv", &excludes);
    assert_eq!(paths, vec!["/p/.venv", "/p/a/.venv"]);
    assert_eq!(found.warnings, 1);
    assert!(found.entries.is_empty());
}

#[test]
fn nested_node_modules_are_part_of_the_outer_ones() {
    let mut found = DirectoryScan::default();
    let entries = vec![
        dir("/p/node_modules"),
        dir("/p/node_modules/x/node_modules"),
        dir("/p/q/node_modules"),
        dir("/p/node_modules_x/node_modules"),
    ];
    let paths = find_directories(&mut found, &entries, "node_modules", &[]);
    assert_eq!(
        paths,
        vec!["/p/node_modules", "/p/q/node_modules", "/p/node_modules_x/node_modules"]
    );
    let nested = vec![dir("/p/__pycache__"), dir("/p/__pycache__/__pycache__")];
    let paths = find_directories(&mut found, &nested, "__pycache__", &[]);
    assert_eq!(paths.len(), 2);
}

#[test]
fn found_directories_are_recorded_with_their_size() {
    let mut found = DirectoryScan::default();
    record_directory(&mut found, "/a".to_string(), true, &ScanReport { bytes: 5, warnings: 1 });
    record_directory(&mut found, "/b".to_string(), true, &ScanReport { bytes: 0, warnings: 2 });
    record_directory(&mut found, "/c".to_string(), false, &ScanReport { bytes: 7, warnings: 4 });
    assert_eq!(found.entries, vec![("/a".to_string(), 5)]);
    assert_eq!(found.warnings, 3);
}

#[test]
fn projects_are_searched_for_where_directories_exist() {
    let all = project_dir_candidates("/h");
    assert_eq!(
        all,
        vec![
            "/h/Codes",
            "/h/Projects",
            "/h/Documents",
            "/h/Developer",
            "/h/workspace",
            "/h/repos",
            "/h/src"
        ]
    );
    let present = [false, true, false, false, false, false, true];
    assert_eq!(get_project_search_dirs("/h", &present), vec!["/h/Projects", "/h/src"]);
}

#[test]
fn large_files_are_searched_for_where_directories_exist() {
    assert_eq!(
        large_file_dir_candidates("/h"),
        vec!["/h/Downloads", "/h/Desktop", "/h/Documents", "/h/Movies"]
    );
    let excludes = vec!["/h/Documents".to_string()];
    assert_eq!(
        large_file_search_dirs("/h", &[true, false, true, true], &excludes),
        vec!["/h/Downloads", "/h/Movies"]
    );
}

#[test]
fn large_files_are_those_of_at_least_a_size() {
    let mut found = LargeFileScan::default();
    let time = Timestamp { secs: 7, nanos: 8 };
    let entries = vec![
        file("/d/small", 99),
        WalkEntry::Entry {
            path: "/d/big".to_string(),
            name: Some("big".to_string()),
            kind: EntryKind::File,
            size: Some(100),
            accessed: Some(time),
        },
        dir("/d/dir"),
        file("/d/keep/huge", 1000),
        entry("/d/unknown", EntryKind::File, None),
        WalkEntry::Unreadable,
    ];
    let excludes = vec!["/d/keep".to_string()];
    find_large_files(&mut found, &entries, 100, &excludes);
    assert_eq!(found.files.len(), 1);
    assert_eq!(found.files[0].path, "/d/big");
    assert_eq!(found.files[0].size, 100);
    assert_eq!(found.files[0].accessed, Some(time));
    assert_eq!(found.warnings, 2);
}

#[test]
fn the_twenty_largest_files_are_kept_in_order() {
    let files: Vec<LargeFile> = (0..30)
        .map(|i| LargeFile { path: format!("/{i}"), size: (i * 7) % 10, accessed: None })
        .collect();
    let mut expected: Vec<(String, u64)> =
        files.iter().map(|file| (file.path.clone(), file.size)).collect();
    expected.sort_by(|a, b| b.1.cmp(&a.1));
    expected.truncate(20);
    let kept = finish_large_files(LargeFileScan { files, warnings: 3 });
    let shown: Vec<(String, u64)> =
        kept.files.into_iter().map(|file| (file.path, file.size)).collect();
    assert_eq!(shown, expected);
    assert_eq!(kept.warnings, 3);
}

#[test]
fn few_large_files_are_all_kept() {
    let files = vec![
        LargeFile { path: "/a".to_string(), size: 1, accessed: None },
        LargeFile { path: "/b".to_string(), size: 2, accessed: None },
    ];
    let kept = finish_large_files(LargeFileScan { files, warnings: 0 });
    assert_eq!(kept.files[0].path, "/b");
    assert_eq!(kept.files[1].path, "/a");
}

#[test]
fn a_threshold_is_given_in_megabytes() {
    assert_eq!(min_large_file_size(100), 104_857_600);
    assert_eq!(min_large_file_size(0), 0);
    assert_eq!(min_large_file_size(17_592_186_044_415), 18_446_744_073_708_503_040);
}

fn found(entries: &[(&str, u64)], warnings: u64) -> DirectoryScan {
    DirectoryScan {
        entries: entries.iter().map(|(path, size)| (path.to_string(), *size)).collect(),
        warnings,
    }
}

#[test]
fn scan_results_are_put_together() {
    let categories = get_categories("/h");
    let mut reports = vec![ScanReport::default(); categories.len()];
    reports[1] = ScanReport { bytes: 5, warnings: 1 };
    reports[2] = ScanReport { bytes: 9, warnings: 0 };
    reports[3] = ScanReport { bytes: 5, warnings: 2 };
    let docker = DockerInfo { images: 1, containers: 2, volumes: 3, build_cache: 4, available: true };
    let results = collect_scan_results(
        categories,
        &reports,
        found(&[("/n", 1), ("/m", 2)], 4),
        found(&[("/v", 3)], 8),
        found(&[("/w", 5)], 16),
        found(&[], 32),
        LargeFileScan {
            files: vec![LargeFile { path: "/l".to_string(), size: 1, accessed: None }],
            warnings: 64,
        },
        docker,
    );
    let sizes: Vec<(&str, u64)> = results
        .category_sizes
        .iter()
        .map(|(category, size)| (category.id, *size))
        .collect();
    assert_eq!(sizes, vec![("trash", 9), ("app-logs", 5), ("xcode-deriveddata", 5)]);
    assert_eq!(results.node_modules_total, 3);
    assert_eq!(results.venvs, vec![("/v".to_string(), 3), ("/w".to_string(), 5)]);
    assert_eq!(results.venvs_total, 8);
    assert_eq!(results.pycache_total, 0);
    assert_eq!(results.large_files.len(), 1);
    assert_eq!(results.docker, docker);
    assert_eq!(results.warnings, 127);
}

#[test]
fn virtual_environments_are_known_by_their_files() {
    assert_eq!(SearchKind::NodeModules.target_name(), "node_modules");
    assert_eq!(SearchKind::Pycache.target_name(), "__pycache__");
    assert_eq!(SearchKind::DotVenv.target_name(), ".venv");
    assert_eq!(SearchKind::PlainVenv.target_name(), "venv");
    assert_eq!(SearchKind::NodeModules.max_depth(), None);
    assert_eq!(SearchKind::PlainVenv.max_depth(), Some(5));
    assert_eq!(
        SearchKind::DotVenv.markers("/p/.venv"),
        vec!["/p/.venv/pyvenv.cfg", "/p/.venv/bin/python"]
    );
    assert!(SearchKind::Pycache.markers("/p").is_empty());
    assert!(has_marker(&[]));
    assert!(has_marker(&[false, true]));
    assert!(!has_marker(&[false, false]));
}

#[test]
fn searching_in_batches_is_searching_at_once() {
    let first = || vec![dir("/p/venv"), WalkEntry::Unreadable, file("/p/a", 7)];
    let second = || vec![dir("/p/q/venv"), file("/p/b", 9), WalkEntry::Unreadable];
    let mut whole = first();
    whole.extend(second());

    let mut once = DirectoryScan::default();
    let at_once = find_directories(&mut once, &whole, "venv", &[]);
    let mut twice = DirectoryScan::default();
    let mut in_turn = find_directories(&mut twice, &first(), "venv", &[]);
    in_turn.extend(find_directories(&mut twice, &second(), "venv", &[]));
    assert_eq!(in_turn, at_once);
    assert_eq!(twice.warnings, once.warnings);

    let mut large_once = LargeFileScan::default();
    find_large_files(&mut large_once, &whole, 1, &[]);
    let mut large_twice = LargeFileScan::default();
    find_large_files(&mut large_twice, &first(), 1, &[]);
    find_large_files(&mut large_twice, &second(), 1, &[]);
    let paths = |scan: &LargeFileScan| -> Vec<String> {
        scan.files.iter().map(|file| file.path.clone()).collect()
    };
    assert_eq!(paths(&large_twice), paths(&large_once));
    assert_eq!(large_twice.warnings, large_once.warnings);
}

#[test]
fn sorting_many_files_is_stable() {
    let files: Vec<LargeFile> = (0..2000)
        .map(|i| LargeFile { path: format!("/{i}"), size: (i * i) % 37, accessed: None })
        .collect();
    let mut expected: Vec<(String, u64)> =
        files.iter().map(|file| (file.path.clone(), file.size)).collect();
    expected.sort_by(|a, b| b.1.cmp(&a.1));
    let sorted: Vec<(String, u64)> = sort_heaviest_first(files)
        .into_iter()
        .map(|file| (file.path, file.size))
        .collect();
    assert_eq!(sorted, expected);
}
