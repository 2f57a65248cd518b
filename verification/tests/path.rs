use disk_cleaner::path::{
    display_path, is_absolute, is_excluded, join_path, normalize_path, parent_dirs,
    path_components, path_eq, push_unique_path, strip_base,
};
use std::path::Path;

/// Every text of up to `length` of the characters that matter in a path.
fn all_paths(length: usize) -> Vec<String> {
    let mut all = vec![String::new()];
    let mut from = 0;
    for _ in 0..length {
        let to = all.len();
        for i in from..to {
            for c in ['/', '.', 'a', '~'] {
                let mut longer = all[i].clone();
                longer.push(c);
                all.push(longer);
            }
        }
        from = to;
    }
    all
}

#[test]
fn components_agree_with_std() {
    for path in all_paths(6) {
        let expected: Vec<String> = Path::new(&path)
            .components()
            .map(|part| part.as_os_str().to_str().unwrap().to_string())
            .collect();
        assert_eq!(path_components(&path), expected, "{path:?}");
        assert_eq!(is_absolute(&path), Path::new(&path).is_absolute());
    }
}

#[test]
fn joining_agrees_with_std() {
    let paths = all_paths(3);
    for base in &paths {
        for rel in &paths {
            let expected = Path::new(base).join(rel);
            assert_eq!(join_path(base, rel), expected.to_str().unwrap());
        }
    }
}

#[test]
fn comparing_and_stripping_agree_with_std() {
    let paths = all_paths(4);
    for path in &paths {
        for base in paths.iter().take(85) {
            let (p, b) = (Path::new(path), Path::new(base));
            assert_eq!(path_eq(path, base), p == b, "{path:?} {base:?}");
            assert_eq!(
                strip_base(path, base),
                p.strip_prefix(b).ok().map(|rest| rest.to_str().unwrap().to_string()),
                "{path:?} {base:?}"
            );
            assert_eq!(
                is_excluded(path, &[base.clone()]),
                p.starts_with(b),
                "{path:?} {base:?}"
            );
        }
    }
}

#[test]
fn a_tilde_stands_for_the_home_directory() {
    let dir = Some("/work");
    assert_eq!(normalize_path("~", "/Users/example", dir), "/Users/example");
    assert_eq!(normalize_path("~/a/b", "/Users/example", dir), "/Users/example/a/b");
    assert_eq!(normalize_path("~x", "/Users/example", dir), "/work/~x");
    assert_eq!(normalize_path("a", "/Users/example", dir), "/work/a");
    assert_eq!(normalize_path("/a", "/Users/example", dir), "/a");
    assert_eq!(normalize_path("a", "/Users/example", None), "a");
    assert_eq!(normalize_path("~//etc", "/Users/example", dir), "/etc");
}

#[test]
fn paths_in_the_home_directory_are_shown_with_a_tilde() {
    assert_eq!(display_path("/Users/example/Codes", "/Users/example"), "~/Codes");
    assert_eq!(display_path("/Users/example", "/Users/example"), "~/");
    assert_eq!(display_path("/Users/example2/x", "/Users/example"), "/Users/example2/x");
    assert_eq!(display_path("/Users/example/a//b/./", "/Users/example"), "~/a//b");
}

#[test]
fn shown_paths_read_back() {
    for home in ["/h", "/", "", "h", "./", "~", "~/a"] {
        for dir in [Some("/elsewhere"), None] {
            for path in all_paths(4) {
                let full = normalize_path(&path, home, dir);
                let shown = display_path(&full, home);
                let back = normalize_path(&shown, home, dir);
                assert!(path_eq(&back, &full), "{path:?} {home:?} {shown:?} {back:?}");
            }
        }
    }
}

#[test]
fn normalizing_twice_is_normalizing_once() {
    for path in all_paths(4) {
        let once = normalize_path(&path, "/h", Some("/d"));
        assert!(is_absolute(&once));
        assert_eq!(normalize_path(&once, "/h", Some("/d")), once);
    }
}

#[test]
fn excluding_takes_everything_beneath_along() {
    let excludes = vec!["/a/b".to_string()];
    assert!(is_excluded("/a/b", &excludes));
    assert!(is_excluded("/a/b/", &excludes));
    assert!(is_excluded("/a/./b/c", &excludes));
    assert!(!is_excluded("/a/bc", &excludes));
    assert!(!is_excluded("/a", &excludes));
    assert!(!is_excluded("/a/b", &[]));
}

#[test]
fn the_same_path_is_added_once() {
    let mut paths = vec!["/a/b".to_string()];
    push_unique_path(&mut paths, "/a//b/".to_string());
    assert_eq!(paths, vec!["/a/b"]);
    push_unique_path(&mut paths, "/a/c".to_string());
    assert_eq!(paths, vec!["/a/b", "/a/c"]);
}

#[test]
fn parent_directories_end_below_the_root() {
    assert_eq!(
        parent_dirs("/r/a/b/c.txt", "/r"),
        vec!["/r/a/b".to_string(), "/r/a".to_string()]
    );
    assert_eq!(parent_dirs("/r/c.txt", "/r"), Vec::<String>::new());
    assert_eq!(parent_dirs("/r", "/r"), Vec::<String>::new());
    assert_eq!(parent_dirs("/other/c.txt", "/r"), Vec::<String>::new());
    assert_eq!(parent_dirs("/r//a/./c.txt", "/r/"), vec!["/r//a".to_string()]);
}
