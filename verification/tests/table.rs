use disk_cleaner::docker::DockerInfo;
use disk_cleaner::scan::{LargeFile, ScanResults};
use disk_cleaner::table::{
    format_large_file, format_table_row, large_file_line, print_large_files, print_table_row,
    print_usage_table, usage_entries,
};
use disk_cleaner::target::get_categories;
use disk_cleaner::time::Timestamp;

fn empty_results() -> ScanResults {
    ScanResults {
        category_sizes: Vec::new(),
        node_modules: Vec::new(),
        node_modules_total: 0,
        venvs: Vec::new(),
        venvs_total: 0,
        pycaches: Vec::new(),
        pycache_total: 0,
        large_files: Vec::new(),
        docker: DockerInfo::unavailable(),
        warnings: 0,
    }
}

#[test]
fn rows_have_three_columns() {
    assert_eq!(
        format_table_row("Trash", "~/.Trash", "1 B"),
        format!("{:<24} {:<32} {:>14}", "Trash", "~/.Trash", "1 B")
    );
    assert_eq!(
        print_table_row("TOTAL", "", 2048),
        format!("{:<24} {:<32} {:>14}", "TOTAL", "", "2.0 KiB")
    );
}

#[test]
fn long_locations_are_cut_at_the_end() {
    let fits = "x".repeat(32);
    assert_eq!(
        format_table_row("n", &fits, "s"),
        format!("{:<24} {:<32} {:>14}", "n", fits, "s")
    );
    let long = "~/Library/Developer/CoreSimulator/Devices";
    let shown = format!("{}...", &long[..29]);
    assert_eq!(
        format_table_row("n", long, "s"),
        format!("{:<24} {:<32} {:>14}", "n", shown, "s")
    );
    let wide = "\u{e9}".repeat(14) + "a" + &"\u{e9}".repeat(14);
    let shown = format!("{}...", &wide[..29]);
    assert_eq!(
        format_table_row("n", &wide, "s"),
        format!("{:<24} {:<32} {:>14}", "n", shown, "s")
    );
}

#[test]
fn long_files_are_cut_at_the_start() {
    let fits = "y".repeat(52);
    assert_eq!(
        format_large_file(&fits, "1 B", "recent"),
        format!("{:<52} {:>14} {:>14}", fits, "1 B", "recent")
    );
    let long = format!("{}{}", "a".repeat(10), "b".repeat(49));
    assert_eq!(
        format_large_file(&long, "1 B", "-"),
        format!("{:<52} {:>14} {:>14}", format!("...{}", "b".repeat(49)), "1 B", "-")
    );
}

#[test]
fn the_usage_table_adds_up() {
    let mut results = empty_results();
    let mut categories = get_categories("/h").into_iter();
    results.category_sizes.push((categories.next().unwrap(), 1000));
    results.category_sizes.push((categories.nth(4).unwrap(), 24));
    results.node_modules = vec![("/n".to_string(), 500); 2];
    results.node_modules_total = 1000;
    results.venvs = vec![("/v".to_string(), 0)];
    results.pycaches = vec![("/p".to_string(), 24)];
    results.pycache_total = 24;
    results.docker =
        DockerInfo { images: 0, containers: 1, volumes: 2, build_cache: 3, available: true };
    let entries: Vec<(String, String, u64)> = usage_entries(&results, "/h")
        .into_iter()
        .map(|entry| (entry.name.to_string(), entry.location, entry.size))
        .collect();
    let expected: Vec<(String, String, u64)> = [
        ("System Caches", "~/Library/Caches", 1000),
        ("iOS Simulators", "~/Library/Developer/CoreSimulator/Devices", 24),
        ("node_modules", "2 directories", 1000),
        ("__pycache__", "1 directories", 24),
        ("Docker", "images, containers, volumes", 6),
    ]
    .iter()
    .map(|(name, location, size)| (name.to_string(), location.to_string(), *size))
    .collect();
    assert_eq!(entries, expected);
    let table = print_usage_table(&results, "/h");
    assert_eq!(table.rows.len(), 5);
    for (row, (name, location, size)) in table.rows.iter().zip(&expected) {
        assert_eq!(row, &print_table_row(name, location, *size));
    }
    assert_eq!(table.total, print_table_row("TOTAL", "", 2054));
}

#[test]
fn docker_is_shown_only_where_it_is_there() {
    let mut results = empty_results();
    results.docker.images = 5;
    assert!(usage_entries(&results, "/h").is_empty());
    results.docker.available = true;
    assert_eq!(usage_entries(&results, "/h").len(), 1);
    results.docker.images = 0;
    assert!(usage_entries(&results, "/h").is_empty());
    assert_eq!(print_usage_table(&results, "/h").total, print_table_row("TOTAL", "", 0));
}

#[test]
fn every_category_can_be_shown() {
    let mut results = empty_results();
    for category in get_categories("/Users/example") {
        results.category_sizes.push((category, 1));
    }
    let table = print_usage_table(&results, "/Users/example");
    assert_eq!(table.rows.len(), 16);
    assert!(table.rows.iter().all(|row| row.contains(" ~/") && row.chars().count() == 72));
}

#[test]
fn a_large_file_is_shown_with_its_last_access() {
    let at = |secs| Timestamp { secs, nanos: 0 };
    let file = LargeFile {
        path: "/h/Movies/a.mp4".to_string(),
        size: 2048,
        accessed: Some(at(86_400)),
    };
    assert_eq!(
        large_file_line(&file, "/h", at(41 * 86_400)),
        format!("{:<52} {:>14} {:>14}", "~/Movies/a.mp4", "2.0 KiB", "1 months ago")
    );
    assert_eq!(
        large_file_line(&file, "/x", at(86_400)),
        format!("{:<52} {:>14} {:>14}", "/h/Movies/a.mp4", "2.0 KiB", "recent")
    );
    let unread = LargeFile { path: "/b".to_string(), size: 1, accessed: None };
    assert_eq!(
        large_file_line(&unread, "/h", at(0)),
        format!("{:<52} {:>14} {:>14}", "/b", "1 B", "-")
    );
}

#[test]
fn large_files_are_shown_under_a_heading() {
    assert!(print_large_files(&[], 100, "/h").is_none());
    let files = vec![
        LargeFile { path: "/h/Movies/a.mp4".to_string(), size: 2048, accessed: None },
        LargeFile { path: "/b".to_string(), size: 1, accessed: None },
    ];
    let table = print_large_files(&files, 500, "/h").unwrap();
    assert_eq!(table.heading, "Large Files (>500MB)");
    assert_eq!(
        table.rows,
        vec![
            format_large_file("~/Movies/a.mp4", "2.0 KiB", "-"),
            format_large_file("/b", "1 B", "-")
        ]
    );
}
