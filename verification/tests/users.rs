use virtdir::user::{from_users, User, UsersBuilder, VirtualDir};

fn alice() -> User {
    User::builder()
        .name("alice")
        .password("secret")
        .access(VirtualDir::builder().name("photos").path("/srv/alice/photos").build())
        .access(VirtualDir::builder().name("docs").path("/srv/alice/docs").read_only().build())
        .build()
}

#[test]
fn virtual_dir_builder_sets_each_field() {
    let dir = VirtualDir::builder().name("docs").path("/srv/docs").read_only().build();
    assert_eq!(dir.name, "docs");
    assert_eq!(dir.path, "/srv/docs");
    assert!(dir.read_only);
}

#[test]
fn virtual_dir_is_writable_unless_told() {
    let dir = VirtualDir::builder().name("docs").path("/srv/docs").build();
    assert!(!dir.read_only);
}

#[test]
fn later_settings_replace_earlier_ones() {
    let dir = VirtualDir::builder().name("a").name("b").path("/x").path("/y").build();
    assert_eq!(dir.name, "b");
    assert_eq!(dir.path, "/y");
}

#[test]
fn get_access_finds_a_directory_by_name() {
    let user = alice();
    let photos = user.get_access(&"photos".to_string()).unwrap();
    assert_eq!(photos.name, "photos");
    assert_eq!(photos.path, "/srv/alice/photos");
    assert!(!photos.read_only);
    let docs = user.get_access(&"docs".to_string()).unwrap();
    assert_eq!(docs.path, "/srv/alice/docs");
    assert!(docs.read_only);
}

#[test]
fn get_access_finds_nothing_under_other_names() {
    let user = alice();
    assert!(user.get_access(&"music".to_string()).is_none());
    assert!(user.get_access(&"".to_string()).is_none());
    assert!(user.get_access(&"Photos".to_string()).is_none());
}

#[test]
fn accesses_lists_the_directories_in_the_order_given() {
    assert_eq!(
        alice().accesses(),
        vec![
            ("photos".to_string(), "/srv/alice/photos".to_string()),
            ("docs".to_string(), "/srv/alice/docs".to_string()),
        ]
    );
}

#[test]
fn a_user_without_directories_lists_none() {
    let user = User::builder().name("bob").password("pw").build();
    assert_eq!(user.accesses(), Vec::<(String, String)>::new());
}

#[test]
fn a_repeated_name_keeps_its_place_and_takes_the_later_directory() {
    let user = User::builder()
        .name("alice")
        .password("secret")
        .access(VirtualDir::builder().name("a").path("/first").build())
        .access(VirtualDir::builder().name("b").path("/second").build())
        .access(VirtualDir::builder().name("a").path("/third").read_only().build())
        .build();
    assert_eq!(
        user.accesses(),
        vec![("a".to_string(), "/third".to_string()), ("b".to_string(), "/second".to_string())]
    );
    assert!(user.get_access(&"a".to_string()).unwrap().read_only);
}

#[test]
fn password_ok_ignores_surrounding_whitespace() {
    let user = alice();
    assert!(user.password_ok("secret"));
    assert!(user.password_ok("  secret\n"));
    assert!(user.password_ok("\tsecret\u{3000}"));
    let padded = User::builder().name("p").password(" secret \r\n").build();
    assert!(padded.password_ok("secret"));
}

#[test]
fn password_ok_is_exact_otherwise() {
    let user = alice();
    assert!(!user.password_ok("Secret"));
    assert!(!user.password_ok("sec ret"));
    assert!(!user.password_ok("secre"));
    assert!(!user.password_ok(""));
    assert!(!user.password_ok("secret!"));
}

#[test]
fn password_ok_with_only_whitespace() {
    let blank = User::builder().name("b").password("  ").build();
    assert!(blank.password_ok(""));
    assert!(blank.password_ok("\n\n"));
    assert!(!blank.password_ok("x"));
}

#[test]
fn user_name_and_description() {
    let user = alice();
    assert_eq!(user.name(), "alice");
    assert_eq!(user.to_string(), "Account of alice");
}

#[test]
fn users_builder_makes_a_table_by_name() {
    let bob = User::builder().name("bob").password("pw").build();
    let users = UsersBuilder::new().with_user(alice()).with_user(bob).build();
    assert_eq!(users.len(), 2);
    assert_eq!(users.get(&"alice".to_string()).unwrap().name(), "alice");
    assert_eq!(users.get(&"bob".to_string()).unwrap().name(), "bob");
    assert!(users.get(&"carol".to_string()).is_none());
}

#[test]
fn an_empty_users_builder_makes_an_empty_table() {
    let users = UsersBuilder::new().build();
    assert_eq!(users.len(), 0);
    assert!(users.get(&"alice".to_string()).is_none());
}

#[test]
fn a_repeated_account_name_takes_the_later_user() {
    let first = User::builder().name("alice").password("one").build();
    let second = User::builder().name("alice").password("two").build();
    let users = from_users(vec![first, alice(), second]);
    assert_eq!(users.len(), 1);
    assert!(users.get(&"alice".to_string()).unwrap().password_ok("two"));
}

#[test]
fn a_cloned_user_keeps_its_directories() {
    let copy = alice().clone();
    assert_eq!(copy.accesses(), alice().accesses());
    assert!(copy.password_ok("secret"));
}
