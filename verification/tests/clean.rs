use disk_cleaner::clean::{
    build_cleanable_items, label_with_dirs, label_with_size, push_docker_item,
    push_path_collection, CleanAction, CleanableItem,
};
use disk_cleaner::cleanup::{
    confirm_cleanup, finish_cleanup, plan_cleanup, print_dry_run, print_selection_summary, run,
    run_cleaner, run_cleanup, run_interactive_cleanup, start_action, CleanStart, CleanerStep,
    CleanupPlan, DialogStep, RunCommand, RunStep,
};
use disk_cleaner::delete::DeleteAction;
use disk_cleaner::docker::DockerInfo;
use disk_cleaner::report::CleanupReport;
use disk_cleaner::scan::ScanResults;
use disk_cleaner::select::{parse_clean_selection, target_matches};
use disk_cleaner::target::{
    get_categories, is_known_target, print_target_reference, target_ids, TargetGroup,
};

fn test_item(id: &'static str, group: TargetGroup, size: u64) -> CleanableItem {
    CleanableItem {
        id,
        group,
        label: id.to_string(),
        size,
        action: CleanAction::DeletePaths { paths: Vec::new(), excludes: Vec::new() },
    }
}

#[test]
fn clean_selection_accepts_groups_and_ids() {
    let items = vec![
        test_item("system-caches", TargetGroup::Caches, 10),
        test_item("node-modules", TargetGroup::Projects, 20),
        test_item("docker-images", TargetGroup::Docker, 30),
    ];

    assert_eq!(parse_clean_selection("all", &items).unwrap(), vec![0, 1, 2]);
    assert_eq!(
        parse_clean_selection("caches,node-modules", &items).unwrap(),
        vec![0, 1]
    );
    assert_eq!(
        parse_clean_selection("docker-images", &items).unwrap(),
        vec![2]
    );
}

#[test]
fn clean_selection_ignores_known_empty_group() {
    let items = vec![test_item("system-caches", TargetGroup::Caches, 10)];

    assert_eq!(
        parse_clean_selection("caches,docker", &items).unwrap(),
        vec![0]
    );
}

#[test]
fn clean_selection_rejects_only_empty_known_group() {
    let items = vec![test_item("system-caches", TargetGroup::Caches, 10)];

    assert_eq!(
        parse_clean_selection("docker", &items).unwrap_err(),
        "no clean targets matched the current scan"
    );
}

#[test]
fn clean_selection_rejects_unknown_targets() {
    let items = vec![test_item("system-caches", TargetGroup::Caches, 10)];

    assert!(parse_clean_selection("system-caches,unknown", &items).is_err());
}

#[test]
fn clean_selection_names_the_first_unknown_target() {
    let items = vec![test_item("system-caches", TargetGroup::Caches, 10)];
    assert_eq!(
        parse_clean_selection("system-caches, what ,else", &items).unwrap_err(),
        "unknown clean target: what"
    );
}

#[test]
fn clean_selection_keeps_the_order_of_the_tokens() {
    let items = vec![
        test_item("system-caches", TargetGroup::Caches, 10),
        test_item("node-modules", TargetGroup::Projects, 20),
        test_item("npm-cache", TargetGroup::Caches, 30),
    ];
    assert_eq!(
        parse_clean_selection(" npm-cache ,, all,caches", &items).unwrap(),
        vec![2, 0, 1]
    );
}

#[test]
fn clean_selection_rejects_nothing() {
    let items = vec![test_item("system-caches", TargetGroup::Caches, 10)];
    assert_eq!(
        parse_clean_selection(" , ", &items).unwrap_err(),
        "no clean targets matched the current scan"
    );
    assert_eq!(
        parse_clean_selection("all", &[]).unwrap_err(),
        "no clean targets matched the current scan"
    );
}

#[test]
fn tokens_match_by_group_and_id() {
    let item = test_item("trash", TargetGroup::Caches, 1);
    assert!(target_matches("all", &item));
    assert!(target_matches("caches", &item));
    assert!(target_matches("trash", &item));
    assert!(!target_matches("projects", &item));
    assert!(!target_matches("Trash", &item));
}

#[test]
fn targets_are_known_by_id_and_group() {
    for id in target_ids() {
        assert!(is_known_target(id));
    }
    for group in ["all", "caches", "projects", "docker"] {
        assert!(is_known_target(group));
    }
    for other in ["xcode-archives", "ios-simulators", "", "All"] {
        assert!(!is_known_target(other));
    }
    assert_eq!(target_ids().len(), 21);
}

#[test]
fn the_target_reference_lists_groups_and_ids() {
    let lines = print_target_reference();
    assert_eq!(
        lines[..9],
        [
            "Groups:",
            "  all",
            "  caches",
            "  projects",
            "  docker",
            "",
            "Target IDs:",
            "  system-caches",
            "  app-logs"
        ]
    );
    assert_eq!(lines.len(), 28);
    assert_eq!(lines[27], "  docker-volumes");
}

#[test]
fn groups_have_ids() {
    assert_eq!(TargetGroup::Caches.id(), "caches");
    assert_eq!(TargetGroup::Projects.id(), "projects");
    assert_eq!(TargetGroup::Docker.id(), "docker");
}

#[test]
fn categories_lie_in_the_home_directory() {
    let categories = get_categories("/Users/example");
    assert_eq!(categories.len(), 16);
    assert_eq!(categories[0].id, "system-caches");
    assert_eq!(categories[0].name, "System Caches");
    assert_eq!(categories[0].path, "/Users/example/Library/Caches");
    let kept: Vec<&str> = categories
        .iter()
        .filter(|category| !category.safe_to_delete)
        .map(|category| category.id)
        .collect();
    assert_eq!(kept, vec!["xcode-archives", "ios-simulators"]);
    for category in &categories {
        assert_eq!(is_known_target(category.id), category.safe_to_delete);
    }
}

fn results(docker: DockerInfo) -> ScanResults {
    let mut categories = get_categories("/h").into_iter();
    let caches = categories.next().unwrap();
    let archives = categories.nth(3).unwrap();
    ScanResults {
        category_sizes: vec![(archives, 2048), (caches, 1024)],
        node_modules: vec![("/h/a/node_modules".to_string(), 3), ("/h/b".to_string(), 4)],
        node_modules_total: 7,
        venvs: Vec::new(),
        venvs_total: 0,
        pycaches: vec![("/h/__pycache__".to_string(), 1)],
        pycache_total: 1,
        large_files: Vec::new(),
        docker,
        warnings: 0,
    }
}

fn docker(available: bool) -> DockerInfo {
    DockerInfo { images: 10, containers: 0, volumes: 30, build_cache: 40, available }
}

#[test]
fn cleanable_items_follow_the_scan() {
    let excludes = vec!["/h/keep".to_string()];
    let items = build_cleanable_items(&results(docker(true)), &excludes);
    let ids: Vec<&str> = items.iter().map(|item| item.id).collect();
    assert_eq!(
        ids,
        vec![
            "system-caches",
            "node-modules",
            "pycache",
            "docker-images",
            "docker-build-cache",
            "docker-volumes"
        ]
    );
    let labels: Vec<&str> = items.iter().map(|item| item.label.as_str()).collect();
    assert_eq!(
        labels,
        vec![
            "System Caches (1.0 KiB)",
            "node_modules - 2 dirs (7 B)",
            "__pycache__ - 1 dirs (1 B)",
            "Docker images (10 B)",
            "Docker build cache (40 B)",
            "Docker volumes (30 B)"
        ]
    );
    assert!(items.iter().all(|item| item.size > 0 && is_known_target(item.id)));
    match &items[0].action {
        CleanAction::DeleteContents { path, excludes: kept } => {
            assert_eq!(path, "/h/Library/Caches");
            assert_eq!(kept, &excludes);
        }
        other => panic!("{other:?}"),
    }
    match &items[1].action {
        CleanAction::DeletePaths { paths, excludes: kept } => {
            assert_eq!(paths, &vec!["/h/a/node_modules".to_string(), "/h/b".to_string()]);
            assert_eq!(kept, &excludes);
        }
        other => panic!("{other:?}"),
    }
    match &items[4].action {
        CleanAction::DockerPrune { resource, args } => {
            assert_eq!(*resource, "builder");
            assert_eq!(args, &vec!["builder", "prune", "-af"]);
        }
        other => panic!("{other:?}"),
    }
}

#[test]
fn docker_items_are_hidden_without_docker() {
    let items = build_cleanable_items(&results(docker(false)), &[]);
    assert!(items.iter().all(|item| item.group != TargetGroup::Docker));
    assert_eq!(items.len(), 3);
}

#[test]
fn containers_are_pruned_with_their_own_flag() {
    let all = DockerInfo { images: 0, containers: 5, volumes: 0, build_cache: 0, available: true };
    let items = build_cleanable_items(&results(all), &[]);
    match &items[3].action {
        CleanAction::DockerPrune { resource, args } => {
            assert_eq!(*resource, "container");
            assert_eq!(args, &vec!["container", "prune", "-f"]);
        }
        other => panic!("{other:?}"),
    }
}

#[test]
fn empty_collections_are_no_items() {
    let mut items = Vec::new();
    push_path_collection(&mut items, "pycache", TargetGroup::Projects, "x", &[], 0, &[]);
    push_docker_item(&mut items, "docker-images", "x", 0, "image", vec![]);
    assert!(items.is_empty());
    push_docker_item(&mut items, "docker-images", "x", 1, "image", vec!["image"]);
    assert_eq!(items.len(), 1);
}

#[test]
fn labels_hold_sizes() {
    assert_eq!(label_with_size("Trash", "1 B"), "Trash (1 B)");
    assert_eq!(label_with_dirs("venvs", 12, "1 B"), "venvs - 12 dirs (1 B)");
}

#[test]
fn a_run_is_about_one_thing() {
    assert_eq!(run(RunCommand::Config, true, None, 4), RunStep::Config);
    assert_eq!(run(RunCommand::Archive, true, None, 4), RunStep::Archive);
    assert_eq!(run(RunCommand::Plain, true, None, 4), RunStep::ListTargets);
    assert_eq!(run(RunCommand::Plain, false, None, 4), RunStep::Clean { threads: 4 });
    assert_eq!(run(RunCommand::Plain, false, Some(2), 4), RunStep::Clean { threads: 2 });
    assert_eq!(run(RunCommand::Plain, false, Some(0), 4), RunStep::Clean { threads: 1 });
    assert_eq!(run(RunCommand::Plain, false, None, 0), RunStep::Clean { threads: 1 });
}

#[test]
fn a_scan_is_followed_by_what_was_asked_for() {
    let items = vec![test_item("trash", TargetGroup::Caches, 1)];
    assert!(matches!(run_cleaner(true, Some("all"), &items), CleanerStep::ScanOnly));
    assert!(matches!(run_cleaner(false, Some("all"), &[]), CleanerStep::NothingCleanable));
    assert!(matches!(run_cleaner(false, None, &items), CleanerStep::Interactive));
    match run_cleaner(false, Some("all"), &items) {
        CleanerStep::Clean(selected) => assert_eq!(selected, vec![0]),
        other => panic!("{other:?}"),
    }
    match run_cleaner(false, Some("nope"), &items) {
        CleanerStep::Rejected(reason) => assert_eq!(reason, "unknown clean target: nope"),
        other => panic!("{other:?}"),
    }
}

#[test]
fn a_dialog_goes_on_step_by_step() {
    assert_eq!(run_interactive_cleanup(None, false), DialogStep::Interrupted);
    assert_eq!(run_interactive_cleanup(Some(&[]), false), DialogStep::NothingSelected);
    assert_eq!(run_interactive_cleanup(Some(&[0]), true), DialogStep::DryRun);
    assert_eq!(run_interactive_cleanup(Some(&[0]), false), DialogStep::Confirm);
    assert_eq!(confirm_cleanup(Some(true)), DialogStep::Proceed);
    assert_eq!(confirm_cleanup(Some(false)), DialogStep::Cancelled);
    assert_eq!(confirm_cleanup(None), DialogStep::Interrupted);
    assert_eq!(DialogStep::Interrupted.message(), Some("Interrupted."));
    assert_eq!(DialogStep::NothingSelected.message(), Some("No categories selected."));
    assert_eq!(DialogStep::Cancelled.message(), Some("Cancelled."));
    assert_eq!(DialogStep::Proceed.message(), None);
    assert_eq!(DialogStep::DryRun.message(), None);
    assert_eq!(DialogStep::Confirm.message(), None);
}

#[test]
fn the_selection_is_shown_before_cleaning() {
    let items = vec![
        test_item("trash", TargetGroup::Caches, 1000),
        test_item("app-logs", TargetGroup::Caches, 48),
    ];
    let summary = print_selection_summary(&items, &[1, 0]);
    assert_eq!(summary.total, 1048);
    assert_eq!(summary.total_text, bytesize::ByteSize(1048).to_string());
    assert_eq!(summary.lines, vec!["  - app-logs [app-logs]", "  - trash [trash]"]);
    assert_eq!(print_dry_run(&items, &[1, 0]), summary.lines);
}

#[test]
fn a_dry_run_cleans_nothing() {
    let items = vec![
        test_item("trash", TargetGroup::Caches, 1),
        test_item("app-logs", TargetGroup::Caches, 2),
    ];
    let lines = vec!["  - app-logs [app-logs]".to_string(), "  - trash [trash]".to_string()];
    assert_eq!(plan_cleanup(&items, &[1, 0], true), CleanupPlan::Preview(lines));
    assert_eq!(plan_cleanup(&items, &[1, 0], false), CleanupPlan::Clean(vec![1, 0]));
    assert_eq!(run_cleanup(&items, &[0], true, &[]), CleanupReport::default());
}

#[test]
fn cleanup_runner_continues_after_item_error() {
    let items = vec![
        test_item("first", TargetGroup::Caches, 10),
        test_item("second", TargetGroup::Caches, 20),
    ];
    let reports = vec![
        CleanupReport { freed: 0, errors: vec!["permission denied".to_string()] },
        CleanupReport { freed: 20, errors: Vec::new() },
    ];

    let report = run_cleanup(&items, &[0, 1], false, &reports);

    assert_eq!(report.freed, 20);
    assert_eq!(report.errors.len(), 1);
    assert!(report.errors[0].contains("first"));
}

#[test]
fn every_error_keeps_its_item() {
    let items = vec![
        test_item("first", TargetGroup::Caches, 10),
        test_item("second", TargetGroup::Caches, 20),
    ];
    let reports = vec![
        CleanupReport { freed: 1, errors: vec!["a".to_string(), "b".to_string()] },
        CleanupReport { freed: 2, errors: vec!["c".to_string()] },
    ];
    let report = run_cleanup(&items, &[1, 0], false, &reports);
    assert_eq!(report.freed, 3);
    assert_eq!(report.errors, vec!["second: a", "second: b", "first: c"]);
    let summary = finish_cleanup(&report);
    assert_eq!(summary.freed_text, "3 B");
    assert_eq!(summary.errors, report.errors);
}

#[test]
fn reports_are_merged() {
    let mut report = CleanupReport::default();
    report.add_error("/a", "denied");
    report.push_error("plain".to_string());
    report.merge(CleanupReport { freed: 5, errors: vec!["x".to_string()] });
    assert_eq!(report.freed, 5);
    assert_eq!(report.errors, vec!["/a: denied", "plain", "x"]);
}

#[test]
fn an_action_starts_what_it_stands_for() {
    let contents = CleanAction::DeleteContents {
        path: "/h/c".to_string(),
        excludes: vec!["/h/keep".to_string()],
    };
    match start_action(&contents, true) {
        CleanStart::Delete(deletion) => {
            assert!(matches!(deletion.action(), DeleteAction::List(path) if path == "/h/c"));
        }
        CleanStart::Prune { .. } => panic!("no command"),
    }
    match start_action(&contents, false) {
        CleanStart::Delete(deletion) => assert!(deletion.is_done()),
        CleanStart::Prune { .. } => panic!("no command"),
    }
    let paths = CleanAction::DeletePaths {
        paths: vec!["/h/keep/x".to_string(), "/h/y".to_string()],
        excludes: vec!["/h/keep".to_string()],
    };
    match start_action(&paths, true) {
        CleanStart::Delete(deletion) => {
            assert!(matches!(deletion.action(), DeleteAction::Inspect(path) if path == "/h/y"));
        }
        CleanStart::Prune { .. } => panic!("no command"),
    }
    let prune = CleanAction::DockerPrune { resource: "image", args: vec!["image", "prune"] };
    match start_action(&prune, true) {
        CleanStart::Prune { resource, args } => {
            assert_eq!(resource, "image");
            assert_eq!(args, vec!["image", "prune"]);
        }
        CleanStart::Delete(_) => panic!("nothing to delete"),
    }
}
