use disk_cleaner::docker::{
    docker_info_args, docker_listing_args, docker_prune_report, docker_socket_path_from_host,
    get_docker_info, get_docker_reclaimed, get_docker_rows, is_docker_available,
    parse_docker_reclaimed, parse_docker_rows, parse_docker_size, poll_command, prune_outcome,
    should_attempt_docker_cli, CommandOutput, DockerInfo, DockerResource, DockerSize,
    PollAction, PruneOutcome, DOCKER_INFO_TIMEOUT_MILLIS, DOCKER_PRUNE_TIMEOUT_MILLIS,
    DOCKER_SCAN_TIMEOUT_MILLIS,
};
use std::path::PathBuf;

fn bytes(size: Option<DockerSize>) -> u64 {
    match size {
        None => 0,
        Some(size) => {
            (size.number.parse::<f64>().unwrap_or(0.0) * size.multiplier as f64) as u64
        }
    }
}

fn docker_size(s: &str) -> u64 {
    bytes(parse_docker_size(s))
}

fn socket_path(docker_host: Option<&str>, home: &str) -> Option<PathBuf> {
    docker_socket_path_from_host(docker_host, home).map(PathBuf::from)
}

#[test]
fn parse_docker_size_keeps_decimal_units() {
    assert_eq!(docker_size("1.5GB (50%)"), 1_500_000_000);
    assert_eq!(docker_size("42.25MB"), 42_250_000);
    assert_eq!(docker_size("512kB"), 512_000);
}

#[test]
fn docker_sizes_that_are_none_are_zero() {
    for s in ["", "0B", "  0B (0%)", "(", "12", "12 bytes", "xGB", "B", "GB"] {
        assert_eq!(docker_size(s), 0, "{s:?}");
    }
}

#[test]
fn docker_sizes_are_read_by_their_unit() {
    assert_eq!(docker_size("7B"), 7);
    assert_eq!(docker_size(" 3 KB "), 3_000);
    assert_eq!(docker_size("2 GB(1%)"), 2_000_000_000);
    let size = parse_docker_size(" 1.5 MB (2%)").unwrap();
    assert_eq!(size.number, "1.5");
    assert_eq!(size.multiplier, 1_000_000);
}

#[test]
fn docker_socket_path_uses_default_desktop_socket() {
    let home = "/Users/example";

    assert_eq!(
        socket_path(None, home),
        Some(PathBuf::from("/Users/example/.docker/run/docker.sock"))
    );
}

#[test]
fn docker_socket_path_parses_unix_docker_host() {
    let home = "/Users/example";

    assert_eq!(
        socket_path(Some("unix:///tmp/docker.sock"), home),
        Some(PathBuf::from("/tmp/docker.sock"))
    );
}

#[test]
fn docker_socket_path_skips_non_unix_docker_host() {
    let home = "/Users/example";

    assert_eq!(socket_path(Some("tcp://127.0.0.1:2375"), home), None);
}

#[test]
fn docker_socket_path_may_be_empty_or_doubled() {
    assert_eq!(socket_path(Some("unix://"), "/h"), None);
    assert_eq!(
        socket_path(Some("unix://unix:///s"), "/h"),
        Some(PathBuf::from("/s"))
    );
    assert_eq!(socket_path(Some(""), "/h"), None);
}

#[test]
fn docker_is_called_unless_its_socket_is_missing() {
    assert!(should_attempt_docker_cli(None, false));
    assert!(should_attempt_docker_cli(Some("/s"), true));
    assert!(!should_attempt_docker_cli(Some("/s"), false));
    assert!(is_docker_available(true, Some(true)));
    assert!(!is_docker_available(true, Some(false)));
    assert!(!is_docker_available(true, None));
    assert!(!is_docker_available(false, Some(true)));
}

#[test]
fn a_command_is_polled_until_it_ends_or_takes_too_long() {
    assert_eq!(poll_command(false, 0, 20), PollAction::Sleep(50));
    assert_eq!(poll_command(false, 19_999_999, 20), PollAction::Sleep(50));
    assert_eq!(poll_command(false, 20_000_000, 20), PollAction::GiveUp);
    assert_eq!(poll_command(true, 20_000_000, 20), PollAction::Collect);
    assert_eq!(poll_command(true, 0, 1_000), PollAction::Collect);
    assert_eq!(poll_command(false, 0, 0), PollAction::GiveUp);
    assert_eq!(DOCKER_INFO_TIMEOUT_MILLIS, 750);
    assert_eq!(DOCKER_SCAN_TIMEOUT_MILLIS, 2_000);
    assert_eq!(DOCKER_PRUNE_TIMEOUT_MILLIS, 30_000);
}

const LISTING: &str = "Images\t1.5GB (50%)\nContainers\t0B\nLocal Volumes\t2MB\r\nBuild Cache\t3kB\n\
    Networks\t5GB\nnothing\nImages\t2GB\textra\n";

#[test]
fn the_docker_listing_is_read_line_by_line() {
    let rows = parse_docker_rows(LISTING);
    let read: Vec<(DockerResource, u64)> = rows
        .into_iter()
        .map(|row| (row.resource, bytes(row.size)))
        .collect();
    assert_eq!(
        read,
        vec![
            (DockerResource::Images, 1_500_000_000),
            (DockerResource::Containers, 0),
            (DockerResource::Volumes, 2_000_000),
            (DockerResource::BuildCache, 3_000),
            (DockerResource::Images, 2_000_000_000),
        ]
    );
}

fn listing(success: bool, stdout: &[u8]) -> CommandOutput {
    CommandOutput { success, stdout: stdout.to_vec(), stderr: Vec::new() }
}

#[test]
fn the_docker_listing_counts_only_with_success() {
    let good = listing(true, LISTING.as_bytes());
    assert_eq!(get_docker_rows(true, Some(&good)).unwrap().len(), 5);
    assert!(get_docker_rows(false, Some(&good)).is_none());
    assert!(get_docker_rows(true, None).is_none());
    let bad = listing(false, LISTING.as_bytes());
    assert!(get_docker_rows(true, Some(&bad)).is_none());
}

#[test]
fn bytes_that_are_no_text_are_replaced() {
    let output = listing(true, b"\xff\nImages\t7B \xff\nContainers\t7B\n");
    let rows = get_docker_rows(true, Some(&output)).unwrap();
    assert_eq!(rows.len(), 2);
    assert_eq!(bytes(rows.into_iter().nth(1).unwrap().size), 7);
}

#[test]
fn the_later_row_counts() {
    let rows = parse_docker_rows(LISTING);
    let info = get_docker_info(Some(&rows), &[1, 2, 3, 4, 5]);
    assert_eq!(
        info,
        DockerInfo { images: 5, containers: 2, volumes: 3, build_cache: 4, available: true }
    );
    assert_eq!(info.total(), 14);
}

#[test]
fn without_a_listing_docker_is_unavailable() {
    assert_eq!(get_docker_info(None, &[]), DockerInfo::unavailable());
    assert!(!DockerInfo::unavailable().available);
    assert_eq!(DockerInfo::unavailable().total(), 0);
    assert!(get_docker_info(Some(&[]), &[]).available);
}

#[test]
fn the_reclaimed_size_is_found() {
    let text = "Deleted Images:\nsha256:B\n\nTotal reclaimed space: 1.5GB\nfreed 2GB\n";
    assert_eq!(bytes(parse_docker_reclaimed(text)), 1_500_000_000);
    assert_eq!(bytes(get_docker_reclaimed(text.as_bytes())), 1_500_000_000);
    assert_eq!(bytes(get_docker_reclaimed(b"\xff\nfreed \xff 12 34kB 5MB")), 34_000);
    assert_eq!(bytes(parse_docker_reclaimed("Total:\t5GB\n")), 0);
    assert_eq!(bytes(parse_docker_reclaimed("reclaimed nothing\nfreed 5GB")), 0);
    assert_eq!(bytes(parse_docker_reclaimed("")), 0);
}

fn answer(success: bool) -> CommandOutput {
    CommandOutput { success, stdout: b"Total: 5MB".to_vec(), stderr: b"denied".to_vec() }
}

#[test]
fn a_pruning_command_ends_in_one_way() {
    assert!(matches!(prune_outcome(Ok(Some(answer(true))), 7), PruneOutcome::Freed(7)));
    match prune_outcome(Ok(Some(answer(false))), 7) {
        PruneOutcome::Refused(stderr) => assert_eq!(stderr, b"denied"),
        other => panic!("{other:?}"),
    }
    assert!(matches!(prune_outcome(Ok(None), 7), PruneOutcome::TimedOut));
    match prune_outcome(Err("gone".to_string()), 7) {
        PruneOutcome::Failed(reason) => assert_eq!(reason, "gone"),
        other => panic!("{other:?}"),
    }
}

#[test]
fn pruning_is_reported() {
    let freed = docker_prune_report("image", true, PruneOutcome::Freed(7));
    assert_eq!(freed.freed, 7);
    assert!(freed.errors.is_empty());
    let refused = docker_prune_report(
        "volume",
        true,
        PruneOutcome::Refused(b"  permission denied \xff\n".to_vec()),
    );
    assert_eq!(refused.freed, 0);
    assert_eq!(
        refused.errors,
        vec!["volume prune failed: permission denied \u{fffd}"]
    );
    let late = docker_prune_report("builder", true, PruneOutcome::TimedOut);
    assert_eq!(
        late.errors,
        vec!["builder prune timed out because Docker did not respond"]
    );
    let failed = docker_prune_report("image", true, PruneOutcome::Failed("gone".to_string()));
    assert_eq!(failed.errors, vec!["image prune failed: gone"]);
    let absent = docker_prune_report("image", false, PruneOutcome::TimedOut);
    assert_eq!((absent.freed, absent.errors.len()), (0, 0));
}

#[test]
fn docker_is_asked_with_fixed_arguments() {
    assert_eq!(docker_info_args(), vec!["info"]);
    assert_eq!(
        docker_listing_args(),
        vec!["system", "df", "--format", "{{.Type}}\t{{.Reclaimable}}"]
    );
}
