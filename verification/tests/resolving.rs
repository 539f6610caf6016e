use virtdir::handler::{
    accept_canonical, canonicalize, ErrorKind, Filesystem, Rejection, ResolveRes,
};
use virtdir::user::{User, VirtualDir};

fn alice() -> User {
    User::builder()
        .name("alice")
        .password("secret")
        .access(VirtualDir::builder().name("photos").path("/srv/alice/photos").build())
        .access(VirtualDir::builder().name("docs").path("/srv/alice/docs").read_only().build())
        .build()
}

fn read(path: &str, root: &str) -> ResolveRes {
    ResolveRes::Read(path.to_string(), root.to_string())
}

fn write(path: &str, root: &str) -> ResolveRes {
    ResolveRes::Write(path.to_string(), root.to_string())
}

fn mounts() -> Vec<(String, String)> {
    vec![
        ("photos".to_string(), "/srv/alice/photos".to_string()),
        ("docs".to_string(), "/srv/alice/docs".to_string()),
    ]
}

#[test]
fn writing_into_a_writable_directory() {
    let res = Filesystem.full_path(&alice(), "photos/vacation.jpg");
    assert_eq!(res, write("/srv/alice/photos/vacation.jpg", "/srv/alice/photos"));
    assert_eq!(res.write_ok(), Ok("/srv/alice/photos/vacation.jpg".to_string()));
}

#[test]
fn deleting_from_a_read_only_directory_is_denied() {
    let res = Filesystem.full_path(&alice(), "docs/readme.txt");
    assert_eq!(res, read("/srv/alice/docs/readme.txt", "/srv/alice/docs"));
    assert_eq!(res.clone().write_ok(), Err(Rejection::PermissionDenied));
    assert_eq!(res.read_ok(), Ok("/srv/alice/docs/readme.txt".to_string()));
}

#[test]
fn listing_the_root_gives_the_directories() {
    assert_eq!(Filesystem.full_path(&alice(), ""), ResolveRes::Root(mounts()));
    assert_eq!(Filesystem.full_path(&alice(), "/"), ResolveRes::Root(mounts()));
    assert_eq!(Filesystem.full_path(&alice(), "."), ResolveRes::Root(mounts()));
    assert_eq!(Filesystem.full_path(&alice(), "photos/.."), ResolveRes::Root(mounts()));
}

#[test]
fn climbing_above_the_root_is_malformed() {
    let res = Filesystem.full_path(&alice(), "photos/../../etc/passwd");
    assert_eq!(res, ResolveRes::Error(Rejection::MalformedPath));
    assert_eq!(Filesystem.full_path(&alice(), "/.."), ResolveRes::Error(Rejection::MalformedPath));
}

#[test]
fn an_unknown_directory_is_rejected() {
    assert_eq!(
        Filesystem.full_path(&alice(), "music/song.mp3"),
        ResolveRes::Error(Rejection::UnknownMount)
    );
    assert_eq!(
        Filesystem.full_path(&alice(), "/etc/passwd"),
        ResolveRes::Error(Rejection::UnknownMount)
    );
}

#[test]
fn a_directory_itself_is_never_writable() {
    assert_eq!(
        Filesystem.full_path(&alice(), "photos"),
        read("/srv/alice/photos", "/srv/alice/photos")
    );
    assert_eq!(
        Filesystem.full_path(&alice(), "/photos/"),
        read("/srv/alice/photos", "/srv/alice/photos")
    );
    assert_eq!(Filesystem.full_path(&alice(), "docs"), read("/srv/alice/docs", "/srv/alice/docs"));
}

#[test]
fn a_path_that_ends_in_the_name_of_the_directory_is_read_only() {
    assert_eq!(
        Filesystem.full_path(&alice(), "photos/old/photos"),
        read("/srv/alice/photos/old/photos", "/srv/alice/photos")
    );
}

#[test]
fn a_directory_under_another_name_than_its_own_can_be_written() {
    let user = User::builder()
        .name("fabian")
        .password("password")
        .access(VirtualDir::builder().name("pics").path("/Users/fabian/Pictures").build())
        .build();
    assert_eq!(
        Filesystem.full_path(&user, "pics"),
        write("/Users/fabian/Pictures", "/Users/fabian/Pictures")
    );
}

#[test]
fn absolute_and_relative_paths_resolve_alike() {
    assert_eq!(
        Filesystem.full_path(&alice(), "/photos/a/../b.jpg"),
        Filesystem.full_path(&alice(), "photos/b.jpg")
    );
    assert_eq!(
        Filesystem.full_path(&alice(), "/photos/b.jpg"),
        write("/srv/alice/photos/b.jpg", "/srv/alice/photos")
    );
}

#[test]
fn the_real_path_of_a_directory_is_made_canonical() {
    let user = User::builder()
        .name("u")
        .password("p")
        .access(VirtualDir::builder().name("d").path("/srv/./x/../data").build())
        .build();
    assert_eq!(
        Filesystem.full_path(&user, "d/file"),
        ResolveRes::Error(Rejection::EscapeDetected)
    );
}

#[test]
fn a_directory_whose_real_path_climbs_above_the_root_has_no_canonical_form() {
    let user = User::builder()
        .name("u")
        .password("p")
        .access(VirtualDir::builder().name("d").path("/../data").build())
        .build();
    assert_eq!(
        Filesystem.full_path(&user, "d/file"),
        ResolveRes::Error(Rejection::CanonicalizationFailed)
    );
}

#[test]
fn canonicalize_resolves_dots_without_the_filesystem() {
    assert_eq!(canonicalize("/srv/a/./b/../c"), Ok("/srv/a/c".to_string()));
    assert_eq!(canonicalize("/srv//a/"), Ok("/srv/a".to_string()));
    assert_eq!(canonicalize("/.."), Err(Rejection::CanonicalizationFailed));
}

#[test]
fn canonicalize_makes_relative_paths_absolute() {
    let resolved = canonicalize("some/relative/path").unwrap();
    assert!(resolved.starts_with('/'));
    assert!(resolved.ends_with("/some/relative/path"));
}

#[test]
fn candidate_joins_the_rest_to_the_real_path() {
    let found = Filesystem.candidate(&alice(), "/photos/2024/./a.jpg").unwrap();
    assert_eq!(found.mount, "photos");
    assert_eq!(found.dir.path, "/srv/alice/photos");
    assert_eq!(found.path, "/srv/alice/photos/2024/a.jpg");
    let found = Filesystem.candidate(&alice(), "docs").unwrap();
    assert_eq!(found.path, "/srv/alice/docs");
}

#[test]
fn candidate_reports_what_needs_no_filesystem() {
    let user = alice();
    assert_eq!(Filesystem.candidate(&user, "..").unwrap_err(), ResolveRes::Error(Rejection::MalformedPath));
    assert_eq!(Filesystem.candidate(&user, "").unwrap_err(), ResolveRes::Root(mounts()));
    assert_eq!(Filesystem.candidate(&user, "x").unwrap_err(), ResolveRes::Error(Rejection::UnknownMount));
}

#[test]
fn confine_rejects_a_canonical_path_outside_the_directory() {
    let docs = VirtualDir::builder().name("docs").path("/srv/alice/docs").build();
    assert_eq!(
        Filesystem.confine("/etc/passwd".to_string(), "docs", &docs),
        ResolveRes::Error(Rejection::EscapeDetected)
    );
    assert_eq!(
        Filesystem.confine("/srv/alice/docs2/x".to_string(), "docs", &docs),
        ResolveRes::Error(Rejection::EscapeDetected)
    );
    assert_eq!(
        Filesystem.confine("/srv/alice".to_string(), "docs", &docs),
        ResolveRes::Error(Rejection::EscapeDetected)
    );
}

#[test]
fn confine_classifies_a_canonical_path_inside_the_directory() {
    let writable = VirtualDir::builder().name("docs").path("/srv/alice/docs").build();
    let read_only = VirtualDir::builder().name("docs").path("/srv/alice/docs").read_only().build();
    assert_eq!(
        Filesystem.confine("/srv/alice/docs/a.txt".to_string(), "docs", &writable),
        write("/srv/alice/docs/a.txt", "/srv/alice/docs")
    );
    assert_eq!(
        Filesystem.confine("/srv/alice/docs/a.txt".to_string(), "docs", &read_only),
        read("/srv/alice/docs/a.txt", "/srv/alice/docs")
    );
    assert_eq!(
        Filesystem.confine("/srv/alice/docs".to_string(), "docs", &writable),
        read("/srv/alice/docs", "/srv/alice/docs")
    );
}

#[test]
fn read_ok_allows_any_path_inside_a_directory() {
    assert_eq!(read("/a/b", "/a").read_ok(), Ok("/a/b".to_string()));
    assert_eq!(write("/a/b", "/a").read_ok(), Ok("/a/b".to_string()));
    assert_eq!(
        ResolveRes::Error(Rejection::UnknownMount).read_ok(),
        Err(Rejection::UnknownMount)
    );
    assert_eq!(ResolveRes::Root(mounts()).read_ok(), Err(Rejection::RootNotAllowed));
}

#[test]
fn write_ok_allows_writable_paths_only() {
    assert_eq!(read("/a/b", "/a").write_ok(), Err(Rejection::PermissionDenied));
    assert_eq!(write("/a/b", "/a").write_ok(), Ok("/a/b".to_string()));
    assert_eq!(
        ResolveRes::Error(Rejection::EscapeDetected).write_ok(),
        Err(Rejection::EscapeDetected)
    );
    assert_eq!(ResolveRes::Root(mounts()).write_ok(), Err(Rejection::RootNotAllowed));
}

#[test]
fn each_rejection_has_its_kind_and_message() {
    let all = [
        (Rejection::MalformedPath, ErrorKind::PermissionDenied, "Error: no parent parent parent"),
        (Rejection::UnknownMount, ErrorKind::PermissionDenied, "Error: invalid path"),
        (Rejection::CanonicalizationFailed, ErrorKind::FileNameNotAllowedError, ""),
        (Rejection::EscapeDetected, ErrorKind::PermanentFileNotAvailable, ""),
        (Rejection::PermissionDenied, ErrorKind::PermissionDenied, "Error: permission denied"),
        (Rejection::RootNotAllowed, ErrorKind::PermissionDenied, "Error: root not ok"),
        (Rejection::NotAvailable, ErrorKind::PermanentFileNotAvailable, ""),
    ];
    for (why, kind, message) in all {
        assert_eq!(why.kind(), kind);
        assert_eq!(why.message(), message);
    }
}

#[test]
fn canonicalize_refuses_what_has_no_absolute_form() {
    assert_eq!(canonicalize(""), Err(Rejection::CanonicalizationFailed));
    assert_eq!(canonicalize("."), Err(Rejection::CanonicalizationFailed));
}

#[test]
fn accept_canonical_takes_absolute_paths_of_names_only() {
    assert_eq!(accept_canonical("/srv/alice".to_string()), Ok("/srv/alice".to_string()));
    assert_eq!(accept_canonical("/".to_string()), Ok("/".to_string()));
    for refused in ["", "srv/alice", "/srv/alice/../bob", "/srv/./alice/..", "./x", ".."] {
        assert_eq!(
            accept_canonical(refused.to_string()),
            Err(Rejection::CanonicalizationFailed),
            "{:?}",
            refused
        );
    }
}

#[test]
fn a_directory_without_a_real_path_resolves_nothing() {
    let user = User::builder()
        .name("u")
        .password("p")
        .access(VirtualDir::builder().name("d").path("").build())
        .build();
    assert_eq!(
        Filesystem.full_path(&user, "d"),
        ResolveRes::Error(Rejection::CanonicalizationFailed)
    );
}

#[test]
fn what_resolves_is_an_absolute_path_of_names() {
    let user = alice();
    for path in ["photos/a/../b", "/docs/./x/y/..", "photos", "photos/old/photos"] {
        match Filesystem.full_path(&user, path) {
            ResolveRes::Read(resolved, root) | ResolveRes::Write(resolved, root) => {
                assert!(resolved.starts_with('/'));
                assert!(resolved.split('/').all(|name| name != ".." && name != "."));
                assert!(resolved.starts_with(&root));
            },
            other => panic!("{:?} gave {:?}", path, other),
        }
    }
}
