//! Users, the directories they may reach, and builders for both.

use std::sync::Arc;
use vstd::prelude::*;
use vstd::std_specs::iter::IteratorSpec;
use vstd::string::StringExecFns;

use crate::table::{
    collect, keys_distinct, lemma_collect, lemma_collect_adds_nothing, lemma_map_entries,
    lemma_map_put, lemma_position, lookup, map_entries, position, Table,
};
use crate::text::{trim_spec, trimmed_eq};

verus! {

/// A directory of the real filesystem as a user sees it: under a name of its
/// own, and either writable or read-only.
#[derive(Debug, Clone)]
pub struct VirtualDir {
    pub name: String,
    pub path: String,
    pub read_only: bool,
}

/// What a `VirtualDir` stands for in contracts.
pub struct VirtualDirView {
    pub name: Seq<char>,
    pub path: Seq<char>,
    pub read_only: bool,
}

impl View for VirtualDir {
    type V = VirtualDirView;

    open spec fn view(&self) -> VirtualDirView {
        VirtualDirView { name: self.name@, path: self.path@, read_only: self.read_only }
    }
}

/// The views of a sequence of directories.
pub open spec fn dirs_view(dirs: Seq<VirtualDir>) -> Seq<VirtualDirView> {
    dirs.map_values(|d: VirtualDir| d@)
}

/// Each directory paired with the name under which a user finds it.
pub open spec fn by_name(dirs: Seq<VirtualDirView>) -> Seq<(Seq<char>, VirtualDirView)> {
    dirs.map_values(|d: VirtualDirView| (d.name, d))
}

/// The views of the directories in a table of shared directories.
pub open spec fn mounts_view(access: Seq<(Seq<char>, Arc<VirtualDir>)>) -> Seq<
    (Seq<char>, VirtualDirView),
> {
    map_entries(access, |d: Arc<VirtualDir>| d@)
}

/// `Arc::clone`: a second handle to the same directory.
#[verifier::external_body]
fn share(dir: &Arc<VirtualDir>) -> (shared: Arc<VirtualDir>)
    ensures
        shared == *dir,
{
    Arc::clone(dir)
}

impl VirtualDir {
    /// A builder with nothing set and the directory writable.
    pub fn builder() -> (b: VirtualDirBuilder)
        ensures
            b@ == (VirtualDirBuilderView { name: None, path: None, read_only: false }),
    {
        VirtualDirBuilder { name: None, path: None, read_only: false }
    }
}

/// What a `User` stands for in contracts. `mounts` lists the user's
/// directories by name, in the order in which the names were first given.
pub struct UserView {
    pub name: Seq<char>,
    pub password: Seq<char>,
    pub mounts: Seq<(Seq<char>, VirtualDirView)>,
}

/// An account: a name, a password, and the directories it may reach, each
/// under a name that is unique for this user.
#[derive(Debug, Clone)]
pub struct User {
    access: Table<Arc<VirtualDir>>,
    name: String,
    password: String,
}

impl View for User {
    type V = UserView;

    closed spec fn view(&self) -> UserView {
        UserView {
            name: self.name@,
            password: self.password@,
            mounts: mounts_view(self.access@),
        }
    }
}

/// The name and the real path of each mount, in order.
pub open spec fn listing(mounts: Seq<(Seq<char>, VirtualDirView)>) -> Seq<(Seq<char>, Seq<char>)> {
    mounts.map_values(|m: (Seq<char>, VirtualDirView)| (m.0, m.1.path))
}

/// The views of a sequence of pairs of strings.
pub open spec fn pairs_view(pairs: Seq<(String, String)>) -> Seq<(Seq<char>, Seq<char>)> {
    pairs.map_values(|p: (String, String)| (p.0@, p.1@))
}

impl User {
    /// A builder with no name, no password and no directories.
    pub fn builder() -> (b: UserBuilder)
        ensures
            b@ == (UserBuilderView { access: Seq::empty(), name: None, password: None }),
    {
        let b = UserBuilder { access: Vec::new(), name: None, password: None };
        assert(dirs_view(b.access@) =~= Seq::<VirtualDirView>::empty());
        b
    }

    /// The directory that this user reaches under `name`, if any.
    pub fn get_access(&self, name: &String) -> (dir: Option<Arc<VirtualDir>>)
        ensures
            keys_distinct(self@.mounts),
            match dir {
                Some(d) => lookup(self@.mounts, name@) == Some(d@),
                None => lookup(self@.mounts, name@) is None,
            },
    {
        proof {
            use_type_invariant(&self.access);
            lemma_map_entries(self.access@, |d: Arc<VirtualDir>| d@, name@);
        }
        match self.access.get(name) {
            Some(d) => Some(share(d)),
            None => None,
        }
    }

    /// The name and the real path of each directory of this user, in the
    /// order in which the names were first given to the builder.
    pub fn accesses(&self) -> (list: Vec<(String, String)>)
        ensures
            keys_distinct(self@.mounts),
            pairs_view(list@) == listing(self@.mounts),
    {
        proof {
            use_type_invariant(&self.access);
            lemma_map_entries(self.access@, |d: Arc<VirtualDir>| d@, Seq::empty());
        }
        let mut list: Vec<(String, String)> = Vec::new();
        let n: usize = self.access.len();
        let mut i: usize = 0;
        while i < n
            invariant
                i <= n,
                n == self.access@.len(),
                list.len() == i,
                forall|k: int|
                    0 <= k < i ==> (#[trigger] list[k]).0@ == self.access@[k].0 && list[k].1@
                        == self.access@[k].1.path@,
            decreases n - i,
        {
            let (name, dir) = self.access.entry(i);
            list.push((name.clone(), dir.path.clone()));
            i = i + 1;
        }
        assert(pairs_view(list@) =~= listing(self@.mounts));
        list
    }

    /// Whether `password` is this user's password. Whitespace around either
    /// is ignored; what is between must agree exactly.
    pub fn password_ok(&self, password: &str) -> (ok: bool)
        ensures
            ok == (trim_spec(self@.password) == trim_spec(password@)),
    {
        trimmed_eq(self.password.as_str(), password)
    }

    /// The account's name.
    pub fn name(&self) -> (name: &String)
        ensures
            name@ == self@.name,
    {
        &self.name
    }

    /// A line that names the account.
    pub fn to_string(&self) -> (line: String)
        ensures
            line@ == "Account of "@ + self@.name,
    {
        let mut line = String::from_str("Account of ");
        line.append(self.name.as_str());
        line
    }
}

/// A table of users by name.
pub type UserMap = Table<User>;

/// The views of the users in a table.
pub open spec fn users_view(users: Seq<(Seq<char>, User)>) -> Seq<(Seq<char>, UserView)> {
    map_entries(users, |u: User| u@)
}

/// Each user paired with the account name.
pub open spec fn by_account(users: Seq<UserView>) -> Seq<(Seq<char>, UserView)> {
    users.map_values(|u: UserView| (u.name, u))
}

/// The directories of a built user are those given to the builder and no
/// others: no name occurs twice, under each name the directory given last
/// under it is found, and every entry is a directory that was given.
pub proof fn lemma_built_mounts(access: Seq<VirtualDirView>)
    ensures
        keys_distinct(collect(by_name(access))),
        forall|name: Seq<char>| #[trigger]
            lookup(collect(by_name(access)), name) == lookup(by_name(access), name),
        forall|i: int|
            0 <= i < collect(by_name(access)).len() ==> access.contains(
                (#[trigger] collect(by_name(access))[i]).1,
            ) && collect(by_name(access))[i].0 == collect(by_name(access))[i].1.name,
        forall|j: int|
            0 <= j < access.len() ==> lookup(
                collect(by_name(access)),
                (#[trigger] access[j]).name,
            ) is Some,
{
    let pairs = by_name(access);
    let table = collect(pairs);
    lemma_collect(pairs);
    lemma_collect_adds_nothing(pairs);
    assert forall|i: int| 0 <= i < table.len() implies access.contains((#[trigger] table[i]).1)
        && table[i].0 == table[i].1.name by {
        assert(pairs.contains(table[i]));
        let j = choose|j: int| 0 <= j < pairs.len() && pairs[j] == table[i];
        assert(access[j] == table[i].1);
    }
    assert forall|j: int| 0 <= j < access.len() implies lookup(
        table,
        (#[trigger] access[j]).name,
    ) is Some by {
        lemma_position(pairs, access[j].name);
        if position(pairs, access[j].name) is None {
            assert(pairs[j].0 != access[j].name);
        }
    }
}

/// What a `UserBuilder` stands for in contracts.
pub struct UserBuilderView {
    pub access: Seq<VirtualDirView>,
    pub name: Option<Seq<char>>,
    pub password: Option<Seq<char>>,
}

/// Collects what makes up a `User`.
pub struct UserBuilder {
    access: Vec<VirtualDir>,
    name: Option<String>,
    password: Option<String>,
}

/// The view of an optional string.
pub open spec fn opt_view(s: Option<String>) -> Option<Seq<char>> {
    match s {
        Some(s) => Some(s@),
        None => None,
    }
}

impl View for UserBuilder {
    type V = UserBuilderView;

    closed spec fn view(&self) -> UserBuilderView {
        UserBuilderView {
            access: dirs_view(self.access@),
            name: opt_view(self.name),
            password: opt_view(self.password),
        }
    }
}

impl UserBuilder {
    /// Adds a directory. Where its name was given before, the later
    /// directory replaces the earlier one when the user is built.
    pub fn access(self, access: VirtualDir) -> (b: Self)
        ensures
            b@ == (UserBuilderView { access: self@.access.push(access@), ..self@ }),
    {
        let mut b = self;
        b.access.push(access);
        assert(dirs_view(b.access@) =~= self@.access.push(access@));
        b
    }

    /// Sets the account name.
    pub fn name(self, name: &str) -> (b: Self)
        ensures
            b@ == (UserBuilderView { name: Some(name@), ..self@ }),
    {
        let mut b = self;
        b.name = Some(name.to_owned());
        b
    }

    /// Sets the password.
    pub fn password(self, password: &str) -> (b: Self)
        ensures
            b@ == (UserBuilderView { password: Some(password@), ..self@ }),
    {
        let mut b = self;
        b.password = Some(password.to_owned());
        b
    }

    /// The user with the name, the password and the directories given so
    /// far. Name and password must have been given.
    pub fn build(self) -> (user: User)
        requires
            self@.name is Some,
            self@.password is Some,
        ensures
            keys_distinct(user@.mounts),
            user@ == (UserView {
                name: self@.name->0,
                password: self@.password->0,
                mounts: collect(by_name(self@.access)),
            }),
    {
        let UserBuilder { access, name, password } = self;
        let ghost dirs = by_name(dirs_view(access@));
        let mut table: Table<Arc<VirtualDir>> = Table::new();
        assert(dirs.take(0) =~= Seq::<(Seq<char>, VirtualDirView)>::empty());
        assert(mounts_view(table@) =~= collect(dirs.take(0)));
        for dir in it: access
            invariant
                it.seq() == access@,
                dirs == by_name(dirs_view(access@)),
                mounts_view(table@) == collect(dirs.take(it.index())),
        {
            proof {
                assert(dirs.take(it.index() + 1).drop_last() =~= dirs.take(it.index()));
                assert(dirs.take(it.index() + 1).last() == (dir@.name, dir@));
                lemma_map_put(table@, |d: Arc<VirtualDir>| d@, dir.name@, Arc::new(dir));
            }
            let key = dir.name.clone();
            table = table.insert(key, Arc::new(dir));
        }
        proof {
            assert(dirs.take(access@.len() as int) =~= dirs);
            lemma_collect(dirs);
        }
        User {
            access: table,
            name: name.expect("No name provided!"),
            password: password.expect("No password provided!"),
        }
    }
}

/// What a `VirtualDirBuilder` stands for in contracts.
pub struct VirtualDirBuilderView {
    pub name: Option<Seq<char>>,
    pub path: Option<Seq<char>>,
    pub read_only: bool,
}

/// Collects what makes up a `VirtualDir`.
pub struct VirtualDirBuilder {
    name: Option<String>,
    path: Option<String>,
    read_only: bool,
}

impl View for VirtualDirBuilder {
    type V = VirtualDirBuilderView;

    closed spec fn view(&self) -> VirtualDirBuilderView {
        VirtualDirBuilderView {
            name: opt_view(self.name),
            path: opt_view(self.path),
            read_only: self.read_only,
        }
    }
}

impl VirtualDirBuilder {
    /// The directory with the name and the path given so far. Both must
    /// have been given.
    pub fn build(self) -> (dir: VirtualDir)
        requires
            self@.name is Some,
            self@.path is Some,
        ensures
            dir@ == (VirtualDirView {
                name: self@.name->0,
                path: self@.path->0,
                read_only: self@.read_only,
            }),
    {
        VirtualDir {
            name: self.name.expect("No name provided!"),
            path: self.path.expect("No path provided!"),
            read_only: self.read_only,
        }
    }

    /// Sets the name under which the user finds the directory.
    pub fn name(self, name: &str) -> (b: Self)
        ensures
            b@ == (VirtualDirBuilderView { name: Some(name@), ..self@ }),
    {
        let mut b = self;
        b.name = Some(name.to_owned());
        b
    }

    /// Sets the path of the directory on the real filesystem.
    pub fn path(self, path: &str) -> (b: Self)
        ensures
            b@ == (VirtualDirBuilderView { path: Some(path@), ..self@ }),
    {
        let mut b = self;
        b.path = Some(path.to_owned());
        b
    }

    /// Makes the directory read-only.
    pub fn read_only(self) -> (b: Self)
        ensures
            b@ == (VirtualDirBuilderView { read_only: true, ..self@ }),
    {
        let mut b = self;
        b.read_only = true;
        b
    }
}

/// Collects users for a `UserMap`.
pub struct UsersBuilder {
    users: Vec<User>,
}

/// The views of a sequence of users.
pub open spec fn user_views(users: Seq<User>) -> Seq<UserView> {
    users.map_values(|u: User| u@)
}

impl View for UsersBuilder {
    type V = Seq<UserView>;

    closed spec fn view(&self) -> Seq<UserView> {
        user_views(self.users@)
    }
}

impl UsersBuilder {
    /// A builder without users.
    pub fn new() -> (b: Self)
        ensures
            b@ == Seq::<UserView>::empty(),
    {
        let b = UsersBuilder { users: Vec::new() };
        assert(b@ =~= Seq::<UserView>::empty());
        b
    }

    /// Adds a user. Where the account name was given before, the later user
    /// replaces the earlier one when the table is built.
    pub fn with_user(self, user: User) -> (b: Self)
        ensures
            b@ == self@.push(user@),
    {
        let mut b = self;
        b.users.push(user);
        assert(b@ =~= self@.push(user@));
        b
    }

    /// The table of the users given so far, by account name.
    pub fn build(self) -> (users: UserMap)
        ensures
            users_view(users@) == collect(by_account(self@)),
    {
        from_users(self.users)
    }
}

/// The table of `list` by account name. Of two users with one name the later
/// one stays, in the place of the earlier.
pub fn from_users(list: Vec<User>) -> (users: UserMap)
    ensures
        users_view(users@) == collect(by_account(user_views(list@))),
{
    let ghost accounts = by_account(user_views(list@));
    let mut table: Table<User> = Table::new();
    assert(accounts.take(0) =~= Seq::<(Seq<char>, UserView)>::empty());
    assert(users_view(table@) =~= collect(accounts.take(0)));
    for user in it: list
        invariant
            it.seq() == list@,
            accounts == by_account(user_views(list@)),
            users_view(table@) == collect(accounts.take(it.index())),
    {
        proof {
            assert(accounts.take(it.index() + 1).drop_last() =~= accounts.take(it.index()));
            assert(accounts.take(it.index() + 1).last() == (user@.name, user@));
            lemma_map_put(table@, |u: User| u@, user.name@, user);
        }
        let key = user.name.clone();
        table = table.insert(key, user);
    }
    assert(accounts.take(list@.len() as int) =~= accounts);
    table
}

} // verus!
