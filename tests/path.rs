use hashburger::burger::{burgerize, BurgerizeArgs};
use hashburger::path::{burgerize_path, split_path};

fn shape(left: usize, center: usize, right: usize, padding: Option<char>) -> BurgerizeArgs {
    BurgerizeArgs {
        left_bun_length: left,
        center_hashpatty_length: center,
        right_bun_length: right,
        padding_char: padding,
    }
}

fn defaults() -> BurgerizeArgs {
    shape(4, 2, 4, None)
}

#[test]
fn absolute_path_with_elided_middle() {
    let out = burgerize_path("/a/b/c/d/e", 2, 1, ':', shape(2, 1, 1, None));
    assert_eq!(out, "/a/b:e");
}

#[test]
fn counts_covering_every_component() {
    let out = burgerize_path("x/y", 2, 2, ':', defaults());
    assert_eq!(out, "x/y");
}

#[test]
fn tie_takes_full_coverage() {
    let out = burgerize_path("a/b/c/d", 2, 2, ':', defaults());
    assert_eq!(out, "a/b/c/d");
}

#[test]
fn one_short_of_coverage_inserts_divider() {
    let out = burgerize_path("a/b/c/d/e", 2, 2, '|', defaults());
    assert_eq!(out, "a/b|d/e");
    assert_eq!(out.matches('|').count(), 1);
}

#[test]
fn long_components_are_burgerized() {
    let args = defaults();
    let out = burgerize_path("/home/someuser/projects/deeply/nested/file_name.txt", 1, 1, ':', args);
    let head = burgerize(&"home".to_string(), &args);
    let tail = burgerize(&"file_name.txt".to_string(), &args);
    assert_eq!(out, format!("/{}:{}", head, tail));
    assert_eq!(tail.chars().count(), 10);
    assert!(tail.starts_with("file"));
    assert!(tail.ends_with(".txt"));
}

#[test]
fn full_coverage_burgerizes_each_component() {
    let args = shape(2, 1, 2, Some('_'));
    let out = burgerize_path("/usr/local_things/b", 5, 0, ':', args);
    let middle = burgerize(&"local_things".to_string(), &args);
    assert_eq!(out, format!("/usr__/{}/b____", middle));
    assert!(!out.contains(':'));
}

#[test]
fn zero_start_keeps_only_tail() {
    let out = burgerize_path("a/b/c", 0, 1, ':', defaults());
    assert_eq!(out, ":c");
}

#[test]
fn zero_end_keeps_only_head() {
    let out = burgerize_path("/a/b/c", 1, 0, ':', defaults());
    assert_eq!(out, "/a:");
}

#[test]
fn root_only_path_is_root() {
    assert_eq!(burgerize_path("/", 2, 2, ':', defaults()), "/");
}

#[test]
fn empty_path_is_empty() {
    assert_eq!(burgerize_path("", 2, 2, ':', defaults()), "");
}

#[test]
fn large_counts_do_not_overflow() {
    let out = burgerize_path("a/b/c", usize::MAX, usize::MAX, ':', defaults());
    assert_eq!(out, "a/b/c");
}

#[test]
fn split_absolute_path() {
    let parts = split_path("/home/user/file.txt");
    assert!(parts.absolute);
    assert_eq!(parts.components, vec!["home", "user", "file.txt"]);
}

#[test]
fn split_drops_empty_and_inner_dot_pieces() {
    let parts = split_path("a//b/./c/.");
    assert!(!parts.absolute);
    assert_eq!(parts.components, vec!["a", "b", "c"]);
}

#[test]
fn split_keeps_leading_dot_and_parent() {
    let parts = split_path("./a/../b/");
    assert!(!parts.absolute);
    assert_eq!(parts.components, vec![".", "a", "..", "b"]);
}

#[test]
fn split_drops_dot_after_root() {
    let parts = split_path("/./a");
    assert!(parts.absolute);
    assert_eq!(parts.components, vec!["a"]);
}

#[test]
fn split_matches_std_components() {
    for p in ["/a/b", "a/b/", "./x", "x/./y", "//a//b", ".", "..", "/", "", "a/.."] {
        let ours = split_path(p);
        let std_path = std::path::Path::new(p);
        let theirs: Vec<String> = std_path
            .components()
            .filter(|c| !matches!(c, std::path::Component::RootDir))
            .map(|c| c.as_os_str().to_str().unwrap().to_string())
            .collect();
        assert_eq!(ours.components, theirs, "path {:?}", p);
        assert_eq!(ours.absolute, std_path.is_absolute(), "path {:?}", p);
    }
}
