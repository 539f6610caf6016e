use virtdir::default_config::default_config;
use virtdir::handler::{Filesystem, ResolveRes};

#[test]
fn the_default_configuration_has_one_user() {
    let users = default_config();
    assert_eq!(users.len(), 1);
    let fabian = users.get(&"fabian".to_string()).unwrap();
    assert_eq!(fabian.name(), "fabian");
    assert!(fabian.password_ok("password"));
    assert_eq!(
        fabian.accesses(),
        vec![
            ("easy-snacks-read".to_string(), "/Users/fabian/Pictures".to_string()),
            ("easy-snacks-write".to_string(), "/Users/fabian/Pictures".to_string()),
        ]
    );
    assert!(fabian.get_access(&"easy-snacks-read".to_string()).unwrap().read_only);
    assert!(!fabian.get_access(&"easy-snacks-write".to_string()).unwrap().read_only);
}

#[test]
fn the_default_user_reads_under_one_name_and_writes_under_the_other() {
    let users = default_config();
    let fabian = users.get(&"fabian".to_string()).unwrap();
    assert_eq!(
        Filesystem.full_path(fabian, "easy-snacks-read/a.jpg"),
        ResolveRes::Read("/Users/fabian/Pictures/a.jpg".to_string(), "/Users/fabian/Pictures".to_string())
    );
    assert_eq!(
        Filesystem.full_path(fabian, "easy-snacks-write/a.jpg"),
        ResolveRes::Write("/Users/fabian/Pictures/a.jpg".to_string(), "/Users/fabian/Pictures".to_string())
    );
}
