//! The configuration that is used where none is given.

use vstd::prelude::*;

use crate::table::{collect, keys_distinct, lemma_collect_distinct};
use crate::user::{
    by_account, by_name, users_view, User, UserMap, UserView, UsersBuilder, VirtualDir,
    VirtualDirView,
};

verus! {

/// The one user of the default configuration.
pub open spec fn default_user() -> UserView {
    UserView {
        name: "fabian"@,
        password: "password"@,
        mounts: seq![
            (
                "easy-snacks-read"@,
                VirtualDirView {
                    name: "easy-snacks-read"@,
                    path: "/Users/fabian/Pictures"@,
                    read_only: true,
                },
            ),
            (
                "easy-snacks-write"@,
                VirtualDirView {
                    name: "easy-snacks-write"@,
                    path: "/Users/fabian/Pictures"@,
                    read_only: false,
                },
            ),
        ],
    }
}

/// A table with one user, who reaches one real directory under two names:
/// read-only under the one, writable under the other.
pub fn default_config() -> (users: UserMap)
    ensures
        users_view(users@) == seq![("fabian"@, default_user())],
{
    let reading = VirtualDir::builder().name("easy-snacks-read").path(
        "/Users/fabian/Pictures",
    ).read_only().build();
    let writing = VirtualDir::builder().name("easy-snacks-write").path(
        "/Users/fabian/Pictures",
    ).build();
    let ghost dirs = seq![reading@, writing@];
    let user = User::builder().name("fabian").password("password").access(reading).access(
        writing,
    ).build();
    proof {
        reveal_strlit("easy-snacks-read");
        reveal_strlit("easy-snacks-write");
        assert("easy-snacks-read"@.len() != "easy-snacks-write"@.len());
        assert(Seq::<VirtualDirView>::empty().push(dirs[0]).push(dirs[1]) =~= dirs);
        assert(by_name(dirs) =~= default_user().mounts);
        assert(keys_distinct(by_name(dirs)));
        lemma_collect_distinct(by_name(dirs));
        assert(user@ == default_user());
    }
    let ghost accounts = seq![user@];
    let users = UsersBuilder::new().with_user(user).build();
    proof {
        assert(Seq::<UserView>::empty().push(accounts[0]) =~= accounts);
        assert(by_account(accounts) =~= seq![("fabian"@, default_user())]);
        assert(keys_distinct(by_account(accounts)));
        lemma_collect_distinct(by_account(accounts));
    }
    users
}

} // verus!
