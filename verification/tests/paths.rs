use virtdir::path::{
    clean, components, ends_with, is_canonical, join, starts_with, CleanPath, Component,
};

fn normal(name: &str) -> Component {
    Component::Normal(name.to_string())
}

fn cleaned(absolute: bool, segments: &[&str]) -> Option<CleanPath> {
    Some(CleanPath {
        absolute,
        segments: segments.iter().map(|s| s.to_string()).collect(),
    })
}

#[test]
fn components_of_an_absolute_path() {
    assert_eq!(
        components("/srv/alice/photos"),
        vec![Component::RootDir, normal("srv"), normal("alice"), normal("photos")]
    );
}

#[test]
fn components_of_the_empty_path() {
    assert_eq!(components(""), Vec::<Component>::new());
}

#[test]
fn components_of_the_root() {
    assert_eq!(components("/"), vec![Component::RootDir]);
    assert_eq!(components("//"), vec![Component::RootDir]);
    assert_eq!(components("/."), vec![Component::RootDir]);
}

#[test]
fn components_keep_a_leading_dot_only() {
    assert_eq!(components("./a/b"), vec![Component::CurDir, normal("a"), normal("b")]);
    assert_eq!(components("a/./b"), vec![normal("a"), normal("b")]);
    assert_eq!(components("a/b/."), vec![normal("a"), normal("b")]);
    assert_eq!(components("."), vec![Component::CurDir]);
}

#[test]
fn components_ignore_repeated_and_trailing_separators() {
    assert_eq!(components("a//b///c/"), vec![normal("a"), normal("b"), normal("c")]);
}

#[test]
fn components_know_the_parent() {
    assert_eq!(
        components("../a/.."),
        vec![Component::ParentDir, normal("a"), Component::ParentDir]
    );
    assert_eq!(components("..."), vec![normal("...")]);
    assert_eq!(components("..a"), vec![normal("..a")]);
}

#[test]
fn components_agree_with_std() {
    let samples = [
        "", "/", ".", "..", "./", "/..", "a", "a/", "/a", "//a//b", "./a", "a/./b", "a/../b",
        "/a/b/c/../..", "./.", ".//.", "..//a", "a/b/", "/.a/b.", "α/β/./γ", "a b/c\td",
    ];
    for sample in samples {
        let expected: Vec<Component> = std::path::Path::new(sample)
            .components()
            .map(|c| match c {
                std::path::Component::RootDir => Component::RootDir,
                std::path::Component::CurDir => Component::CurDir,
                std::path::Component::ParentDir => Component::ParentDir,
                std::path::Component::Normal(name) => normal(name.to_str().unwrap()),
                std::path::Component::Prefix(_) => unreachable!(),
            })
            .collect();
        assert_eq!(components(sample), expected, "for {:?}", sample);
    }
}

#[test]
fn clean_fails_above_the_root() {
    assert_eq!(clean("/../../etc"), None);
    assert_eq!(clean("/.."), None);
}

#[test]
fn clean_fails_above_the_start_of_a_relative_path() {
    assert_eq!(clean(".."), None);
    assert_eq!(clean("a/../.."), None);
    assert_eq!(clean("photos/../../etc/passwd"), None);
}

#[test]
fn clean_cancels_a_name_against_its_parent() {
    assert_eq!(clean("/a/../b"), clean("/b"));
    assert_eq!(clean("/a/../b"), cleaned(true, &["b"]));
    assert_eq!(clean("a/b/../../c"), cleaned(false, &["c"]));
}

#[test]
fn clean_drops_dots() {
    assert_eq!(clean("./a/./b/."), cleaned(false, &["a", "b"]));
    assert_eq!(clean("/./a"), cleaned(true, &["a"]));
}

#[test]
fn clean_of_nothing_is_the_current_directory() {
    assert_eq!(clean(""), cleaned(false, &[]));
    assert_eq!(clean("."), cleaned(false, &[]));
    assert_eq!(clean("a/.."), cleaned(false, &[]));
}

#[test]
fn clean_of_the_root_is_the_root() {
    assert_eq!(clean("/"), cleaned(true, &[]));
    assert_eq!(clean("/a/.."), cleaned(true, &[]));
}

#[test]
fn clean_keeps_other_names_verbatim() {
    assert_eq!(clean("/Photos/2024 summer/…"), cleaned(true, &["Photos", "2024 summer", "…"]));
}

#[test]
fn clean_never_leaves_a_dot_or_a_parent() {
    for sample in ["/a/./b/../c", "x/../y/./z", "./..a/.b/c..", "/a/b/c/../../d"] {
        let path = clean(sample).unwrap();
        for segment in &path.segments {
            assert!(!segment.is_empty());
            assert_ne!(segment, ".");
            assert_ne!(segment, "..");
            assert!(!segment.contains('/'));
        }
    }
}

#[test]
fn join_puts_separators_between() {
    let names = vec!["photos".to_string(), "2024".to_string(), "a.jpg".to_string()];
    assert_eq!(join("/srv/alice", &names, 0), "/srv/alice/photos/2024/a.jpg");
    assert_eq!(join("/srv/alice", &names, 1), "/srv/alice/2024/a.jpg");
    assert_eq!(join("/srv/alice", &names, 3), "/srv/alice");
}

#[test]
fn join_adds_no_separator_after_one() {
    let names = vec!["a".to_string()];
    assert_eq!(join("/", &names, 0), "/a");
    assert_eq!(join("/srv/", &names, 0), "/srv/a");
    assert_eq!(join("", &names, 0), "a");
}

#[test]
fn starts_with_counts_whole_components() {
    assert!(starts_with("/srv/alice/photos/a.jpg", "/srv/alice/photos"));
    assert!(starts_with("/srv/alice/photos", "/srv/alice/photos"));
    assert!(starts_with("/srv/alice/photos", "/srv/alice/photos/"));
    assert!(!starts_with("/srv/alice/photos2/a.jpg", "/srv/alice/photos"));
    assert!(!starts_with("/srv/alice", "/srv/alice/photos"));
    assert!(!starts_with("/srv/alice/photos", "srv/alice"));
    assert!(starts_with("/anything", ""));
}

#[test]
fn ends_with_counts_whole_components() {
    assert!(ends_with("/srv/alice/photos", "photos"));
    assert!(ends_with("/srv/alice/photos", "alice/photos"));
    assert!(!ends_with("/srv/alice/photos", "hotos"));
    assert!(!ends_with("/srv/alice/photos/a.jpg", "photos"));
    assert!(!ends_with("/", "photos"));
    assert!(ends_with("/srv", "/srv"));
}

#[test]
fn is_canonical_wants_the_root_and_names_only() {
    for path in ["/", "/srv", "/srv/alice/photos", "//srv///alice/", "/...", "/a/.b/c.."] {
        assert!(is_canonical(path), "{:?}", path);
    }
    for path in ["", ".", "..", "srv/alice", "./srv", "/srv/../etc", "/..", "/a/b/.."] {
        assert!(!is_canonical(path), "{:?}", path);
    }
}
