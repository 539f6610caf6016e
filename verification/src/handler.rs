//! Resolution of a client's path to a place on the real filesystem, and the
//! decision whether an operation may go ahead there.

use std::sync::Arc;
use vstd::prelude::*;

use crate::path::{
    clean, clean_spec, components_spec, ends_with, ends_with_spec, is_canonical,
    is_canonical_spec, is_name, join, join_spec,
    lemma_components_append_name, lemma_components_of_name, piece_components, split,
    starts_with, starts_with_spec, CleanPathView, ComponentView,
};
use crate::table::{keys_distinct, lemma_position, lemma_position_of_entry, lookup, position};
use crate::user::{listing, pairs_view, User, UserView, VirtualDir, VirtualDirView};

verus! {

/// The class of a failure, which decides what a client is told.
#[derive(Debug, Clone, Copy, PartialEq, Eq, Structural)]
pub enum ErrorKind {
    /// The request is not allowed.
    PermissionDenied,
    /// The name cannot be used.
    FileNameNotAllowedError,
    /// There is no such file, now or later.
    PermanentFileNotAvailable,
}

/// Why a path was not resolved, or an operation not allowed.
#[derive(Debug, Clone, Copy, PartialEq, Eq, Structural)]
pub enum Rejection {
    /// Some `..` climbs above the top of the path.
    MalformedPath,
    /// The first name of the path is none of the user's directories.
    UnknownMount,
    /// The candidate path has no canonical form.
    CanonicalizationFailed,
    /// The canonical path lies outside the directory it was reached
    /// through.
    EscapeDetected,
    /// A write was asked for where only reading is allowed.
    PermissionDenied,
    /// The operation addressed the list of directories itself.
    RootNotAllowed,
    /// The source of a rename is missing, or neither a file nor a directory.
    NotAvailable,
}

impl Rejection {
    /// The class under which the rejection is reported.
    pub open spec fn kind_spec(self) -> ErrorKind {
        match self {
            Rejection::MalformedPath => ErrorKind::PermissionDenied,
            Rejection::UnknownMount => ErrorKind::PermissionDenied,
            Rejection::CanonicalizationFailed => ErrorKind::FileNameNotAllowedError,
            Rejection::EscapeDetected => ErrorKind::PermanentFileNotAvailable,
            Rejection::PermissionDenied => ErrorKind::PermissionDenied,
            Rejection::RootNotAllowed => ErrorKind::PermissionDenied,
            Rejection::NotAvailable => ErrorKind::PermanentFileNotAvailable,
        }
    }

    /// The class under which the rejection is reported. An escape from a
    /// directory is reported like any file that is not there.
    pub fn kind(&self) -> (kind: ErrorKind)
        ensures
            kind == self.kind_spec(),
    {
        match self {
            Rejection::MalformedPath => ErrorKind::PermissionDenied,
            Rejection::UnknownMount => ErrorKind::PermissionDenied,
            Rejection::CanonicalizationFailed => ErrorKind::FileNameNotAllowedError,
            Rejection::EscapeDetected => ErrorKind::PermanentFileNotAvailable,
            Rejection::PermissionDenied => ErrorKind::PermissionDenied,
            Rejection::RootNotAllowed => ErrorKind::PermissionDenied,
            Rejection::NotAvailable => ErrorKind::PermanentFileNotAvailable,
        }
    }

    /// The text that goes with the rejection; empty where the class says
    /// it all.
    pub fn message(&self) -> (text: &'static str)
        ensures
            text@ == match *self {
                Rejection::MalformedPath => "Error: no parent parent parent"@,
                Rejection::UnknownMount => "Error: invalid path"@,
                Rejection::PermissionDenied => "Error: permission denied"@,
                Rejection::RootNotAllowed => "Error: root not ok"@,
                _ => ""@,
            },
    {
        match self {
            Rejection::MalformedPath => "Error: no parent parent parent",
            Rejection::UnknownMount => "Error: invalid path",
            Rejection::PermissionDenied => "Error: permission denied",
            Rejection::RootNotAllowed => "Error: root not ok",
            _ => "",
        }
    }
}

/// The outcome of resolving a client's path for a user.
#[derive(Debug, Clone, PartialEq, Eq)]
pub enum ResolveRes {
    /// The path lies in a directory of the user and may be read. The first
    /// field is the canonical real path, the second the directory's real
    /// path.
    Read(String, String),
    /// The path lies in a directory of the user and may be read and
    /// written.
    Write(String, String),
    /// The path was rejected.
    Error(Rejection),
    /// The path addresses the list of the user's directories, given here by
    /// name and real path.
    Root(Vec<(String, String)>),
}

/// What a `ResolveRes` stands for in contracts.
pub enum Resolution {
    Read(Seq<char>, Seq<char>),
    Write(Seq<char>, Seq<char>),
    Error(Rejection),
    Root(Seq<(Seq<char>, Seq<char>)>),
}

impl View for ResolveRes {
    type V = Resolution;

    open spec fn view(&self) -> Resolution {
        match self {
            ResolveRes::Read(path, root) => Resolution::Read(path@, root@),
            ResolveRes::Write(path, root) => Resolution::Write(path@, root@),
            ResolveRes::Error(why) => Resolution::Error(*why),
            ResolveRes::Root(list) => Resolution::Root(pairs_view(list@)),
        }
    }
}

/// The view of the outcome of an operation that yields a path.
pub open spec fn path_outcome(res: Result<String, Rejection>) -> Result<Seq<char>, Rejection> {
    match res {
        Ok(path) => Ok(path@),
        Err(why) => Err(why),
    }
}

impl ResolveRes {
    /// The path where reading may go ahead: any path inside a directory.
    pub fn read_ok(self) -> (res: Result<String, Rejection>)
        ensures
            path_outcome(res) == match self@ {
                Resolution::Read(path, _) => Ok::<Seq<char>, Rejection>(path),
                Resolution::Write(path, _) => Ok(path),
                Resolution::Error(why) => Err(why),
                Resolution::Root(_) => Err(Rejection::RootNotAllowed),
            },
    {
        match self {
            ResolveRes::Read(path, _) => Ok(path),
            ResolveRes::Write(path, _) => Ok(path),
            ResolveRes::Error(why) => Err(why),
            ResolveRes::Root(_) => Err(Rejection::RootNotAllowed),
        }
    }

    /// What a listing may be made of: the real directory that the path
    /// resolved to, or the user's directories where it addressed their list.
    pub fn list_ok(self) -> (res: Result<Listing, Rejection>)
        ensures
            listing_outcome(res) == match self@ {
                Resolution::Read(path, root) => Ok::<ListingView, Rejection>(
                    ListingView::Directory { path, root },
                ),
                Resolution::Write(path, root) => Ok(ListingView::Directory { path, root }),
                Resolution::Error(why) => Err(why),
                Resolution::Root(list) => Ok(ListingView::Mounts(list)),
            },
    {
        match self {
            ResolveRes::Read(path, root) => Ok(Listing::Directory { path, root }),
            ResolveRes::Write(path, root) => Ok(Listing::Directory { path, root }),
            ResolveRes::Error(why) => Err(why),
            ResolveRes::Root(list) => Ok(Listing::Mounts(list)),
        }
    }

    /// The path where writing may go ahead: only one that resolved as
    /// writable.
    pub fn write_ok(self) -> (res: Result<String, Rejection>)
        ensures
            path_outcome(res) == match self@ {
                Resolution::Read(_, _) => Err::<Seq<char>, Rejection>(Rejection::PermissionDenied),
                Resolution::Write(path, _) => Ok(path),
                Resolution::Error(why) => Err(why),
                Resolution::Root(_) => Err(Rejection::RootNotAllowed),
            },
    {
        match self {
            ResolveRes::Read(_, _) => Err(Rejection::PermissionDenied),
            ResolveRes::Write(path, _) => Ok(path),
            ResolveRes::Error(why) => Err(why),
            ResolveRes::Root(_) => Err(Rejection::RootNotAllowed),
        }
    }
}

/// What a listing is to be made of.
#[derive(Debug, Clone, PartialEq, Eq)]
pub enum Listing {
    /// The entries of the real directory `path`, each to be named relative
    /// to `root`.
    Directory { path: String, root: String },
    /// The user's directories themselves, by name and real path.
    Mounts(Vec<(String, String)>),
}

/// What a `Listing` stands for in contracts.
pub enum ListingView {
    Directory { path: Seq<char>, root: Seq<char> },
    Mounts(Seq<(Seq<char>, Seq<char>)>),
}

impl View for Listing {
    type V = ListingView;

    open spec fn view(&self) -> ListingView {
        match self {
            Listing::Directory { path, root } => ListingView::Directory {
                path: path@,
                root: root@,
            },
            Listing::Mounts(list) => ListingView::Mounts(pairs_view(list@)),
        }
    }
}

/// The view of the outcome of asking what to list.
pub open spec fn listing_outcome(res: Result<Listing, Rejection>) -> Result<
    ListingView,
    Rejection,
> {
    match res {
        Ok(listing) => Ok(listing@),
        Err(why) => Err(why),
    }
}

/// Whether something of the given sort may be renamed: it must be there, and
/// be a plain file or a directory.
pub open spec fn rename_source_spec(found: bool, is_file: bool, is_dir: bool) -> Result<
    (),
    Rejection,
> {
    if found && (is_file || is_dir) {
        Ok(())
    } else {
        Err(Rejection::NotAvailable)
    }
}

/// Decides whether the source of a rename may be renamed, from what the
/// filesystem says of it: whether it was found, and whether it is a plain
/// file or a directory.
pub fn rename_source(found: bool, is_file: bool, is_dir: bool) -> (res: Result<(), Rejection>)
    ensures
        res == rename_source_spec(found, is_file, is_dir),
{
    if found && (is_file || is_dir) {
        Ok(())
    } else {
        Err(Rejection::NotAvailable)
    }
}

/// A place on the real filesystem that a client's path points to, before
/// anything is known of what is there.
#[derive(Debug, Clone)]
pub struct Candidate {
    /// The name of the directory, as the client wrote it.
    pub mount: String,
    /// The directory.
    pub dir: Arc<VirtualDir>,
    /// The directory's real path followed by the rest of the client's path.
    pub path: String,
}

/// What a `Candidate` stands for in contracts.
pub struct CandidateView {
    pub mount: Seq<char>,
    pub dir: VirtualDirView,
    pub path: Seq<char>,
}

impl View for Candidate {
    type V = CandidateView;

    open spec fn view(&self) -> CandidateView {
        CandidateView { mount: self.mount@, dir: self.dir@, path: self.path@ }
    }
}

/// The view of what the search for a candidate yields.
pub open spec fn search_view(found: Result<Candidate, ResolveRes>) -> Result<
    CandidateView,
    Resolution,
> {
    match found {
        Ok(c) => Ok(c@),
        Err(r) => Err(r@),
    }
}

/// What a normalised path addresses among `mounts`.
///
/// A path without names addresses the list of directories. Otherwise the
/// first name selects the directory, and the remaining names are appended to
/// the directory's real path. An empty first name that selects nothing is
/// taken for the list as well.
pub open spec fn candidate_of(
    mounts: Seq<(Seq<char>, VirtualDirView)>,
    cleaned: Option<CleanPathView>,
) -> Result<CandidateView, Resolution> {
    match cleaned {
        None => Err(Resolution::Error(Rejection::MalformedPath)),
        Some(p) => if p.segments.len() == 0 {
            Err(Resolution::Root(listing(mounts)))
        } else {
            match lookup(mounts, p.segments[0]) {
                Some(dir) => Ok(
                    CandidateView {
                        mount: p.segments[0],
                        dir,
                        path: join_spec(dir.path, p.segments.skip(1)),
                    },
                ),
                None => if p.segments[0].len() == 0 {
                    Err(Resolution::Root(listing(mounts)))
                } else {
                    Err(Resolution::Error(Rejection::UnknownMount))
                },
            }
        },
    }
}

/// What the client's path `path` addresses for `user`.
pub open spec fn candidate_spec(user: UserView, path: Seq<char>) -> Result<
    CandidateView,
    Resolution,
> {
    candidate_of(user.mounts, clean_spec(path))
}

/// The outcome for a canonical path that was reached through the directory
/// `dir` under the name `mount`.
///
/// A path outside the directory is an escape. Inside, the path may be
/// written unless the directory is read-only or the path's last component
/// is the directory's name: the directory itself is not the client's to
/// change.
pub open spec fn confine_spec(canonical: Seq<char>, mount: Seq<char>, dir: VirtualDirView) -> Resolution {
    if !starts_with_spec(canonical, dir.path) {
        Resolution::Error(Rejection::EscapeDetected)
    } else if ends_with_spec(canonical, mount) || dir.read_only {
        Resolution::Read(canonical, dir.path)
    } else {
        Resolution::Write(canonical, dir.path)
    }
}

/// The outcome of resolving `path` for `user`, given the canonical form of
/// the candidate path (`None` where it has none).
pub open spec fn resolve_spec(user: UserView, path: Seq<char>, canonical: Option<Seq<char>>) -> Resolution {
    match candidate_spec(user, path) {
        Err(outcome) => outcome,
        Ok(c) => match canonical {
            None => Resolution::Error(Rejection::CanonicalizationFailed),
            Some(found) => confine_spec(found, c.mount, c.dir),
        },
    }
}

/// A path resolves as writable only where it was reached through a
/// directory that is not read-only, lies inside that directory, and does not
/// end in the name under which the directory was reached.
pub proof fn lemma_writable_means_allowed(
    user: UserView,
    path: Seq<char>,
    canonical: Option<Seq<char>>,
)
    ensures
        resolve_spec(user, path, canonical) matches Resolution::Write(resolved, root) ==> {
            &&& candidate_spec(user, path) matches Ok(c)
            &&& !c.dir.read_only
            &&& root == c.dir.path
            &&& canonical == Some(resolved)
            &&& starts_with_spec(resolved, root)
            &&& !ends_with_spec(resolved, c.mount)
        },
{
}

/// Through a directory that is read-only no path resolves as writable,
/// whatever follows the directory's name and whatever the filesystem holds.
pub proof fn lemma_read_only_is_never_writable(
    user: UserView,
    path: Seq<char>,
    canonical: Option<Seq<char>>,
)
    requires
        candidate_spec(user, path) matches Ok(c) && c.dir.read_only,
    ensures
        !(resolve_spec(user, path, canonical) is Write),
{
}

/// A canonical path outside the directory through which it was reached is
/// rejected as an escape, however the client's path looked.
pub proof fn lemma_escape_is_rejected(user: UserView, path: Seq<char>, canonical: Seq<char>)
    requires
        candidate_spec(user, path) matches Ok(c) && !starts_with_spec(canonical, c.dir.path),
    ensures
        resolve_spec(user, path, Some(canonical)) == Resolution::Error(Rejection::EscapeDetected),
{
}

/// Whatever resolves, as readable or as writable, lies inside the real path
/// of one of the user's directories.
pub proof fn lemma_resolved_is_confined(
    user: UserView,
    path: Seq<char>,
    canonical: Option<Seq<char>>,
)
    ensures
        match resolve_spec(user, path, canonical) {
            Resolution::Read(resolved, root) => starts_with_spec(resolved, root) && exists|
                i: int,
            |
                0 <= i < user.mounts.len() && (#[trigger] user.mounts[i]).1.path == root,
            Resolution::Write(resolved, root) => starts_with_spec(resolved, root) && exists|
                i: int,
            |
                0 <= i < user.mounts.len() && (#[trigger] user.mounts[i]).1.path == root,
            _ => true,
        },
{
    if let Ok(c) = candidate_spec(user, path) {
        let first = clean_spec(path)->0.segments[0];
        lemma_position(user.mounts, first);
        let i = position(user.mounts, first)->0;
        assert(user.mounts[i].1 == c.dir);
    }
}

/// The empty path addresses the list of the user's directories: one entry
/// for each directory, with its name and real path, in the table's order.
pub proof fn lemma_empty_path_lists_mounts(user: UserView, canonical: Option<Seq<char>>)
    ensures
        resolve_spec(user, Seq::empty(), canonical) == Resolution::Root(listing(user.mounts)),
        listing(user.mounts).len() == user.mounts.len(),
        forall|i: int|
            0 <= i < user.mounts.len() ==> #[trigger] listing(user.mounts)[i] == (
                user.mounts[i].0,
                user.mounts[i].1.path,
            ),
{
    let empty = Seq::<char>::empty();
    let pieces = split(empty);
    assert(pieces =~= seq![Seq::<char>::empty()]);
    assert(pieces.drop_last() =~= Seq::<Seq<char>>::empty());
    assert(piece_components(pieces.drop_last()) =~= Seq::<ComponentView>::empty());
    assert(piece_components(pieces) =~= Seq::<ComponentView>::empty());
    assert(components_spec(empty) =~= Seq::<ComponentView>::empty());
}

/// The name of a directory, by itself, addresses the directory's real path.
/// Where that path is its own canonical form, it resolves as readable and
/// not as writable, provided that the directory is read-only or that its
/// real path ends in the name.
pub proof fn lemma_mount_root_is_readable(user: UserView, i: int)
    requires
        keys_distinct(user.mounts),
        0 <= i < user.mounts.len(),
        is_name(user.mounts[i].0),
        user.mounts[i].1.read_only || ends_with_spec(user.mounts[i].1.path, user.mounts[i].0),
    ensures
        candidate_spec(user, user.mounts[i].0) == Ok::<CandidateView, Resolution>(
            CandidateView {
                mount: user.mounts[i].0,
                dir: user.mounts[i].1,
                path: user.mounts[i].1.path,
            },
        ),
        resolve_spec(user, user.mounts[i].0, Some(user.mounts[i].1.path)) == Resolution::Read(
            user.mounts[i].1.path,
            user.mounts[i].1.path,
        ),
{
    let name = user.mounts[i].0;
    let dir = user.mounts[i].1;
    lemma_components_of_name(name);
    lemma_position_of_entry(user.mounts, i);
    assert(seq![name].skip(1) =~= Seq::<Seq<char>>::empty());
    let parts = components_spec(dir.path);
    assert(parts.subrange(0, parts.len() as int) =~= parts);
}

/// A name inside a directory that is not read-only addresses the
/// directory's real path followed by that name. It resolves as writable
/// whenever its canonical form lies inside the directory and does not end
/// in the name under which the directory was reached.
pub proof fn lemma_file_in_writable_mount(
    user: UserView,
    i: int,
    file: Seq<char>,
    canonical: Seq<char>,
)
    requires
        keys_distinct(user.mounts),
        0 <= i < user.mounts.len(),
        is_name(user.mounts[i].0),
        is_name(file),
        !user.mounts[i].1.read_only,
        starts_with_spec(canonical, user.mounts[i].1.path),
        !ends_with_spec(canonical, user.mounts[i].0),
    ensures
        candidate_spec(user, user.mounts[i].0.push('/') + file) == Ok::<
            CandidateView,
            Resolution,
        >(
            CandidateView {
                mount: user.mounts[i].0,
                dir: user.mounts[i].1,
                path: join_spec(user.mounts[i].1.path, seq![file]),
            },
        ),
        resolve_spec(user, user.mounts[i].0.push('/') + file, Some(canonical))
            == Resolution::Write(canonical, user.mounts[i].1.path),
{
    let name = user.mounts[i].0;
    lemma_components_of_name(name);
    lemma_components_append_name(name, file);
    lemma_position_of_entry(user.mounts, i);
    let segments = seq![name].push(file);
    assert(segments.skip(1) =~= seq![file]);
    assert(segments[0] == name);
}

/// A name inside a directory that is read-only never resolves as writable.
pub proof fn lemma_file_in_read_only_mount(
    user: UserView,
    i: int,
    file: Seq<char>,
    canonical: Option<Seq<char>>,
)
    requires
        keys_distinct(user.mounts),
        0 <= i < user.mounts.len(),
        is_name(user.mounts[i].0),
        is_name(file),
        user.mounts[i].1.read_only,
    ensures
        !(resolve_spec(user, user.mounts[i].0.push('/') + file, canonical) is Write),
{
    let name = user.mounts[i].0;
    lemma_components_of_name(name);
    lemma_components_append_name(name, file);
    lemma_position_of_entry(user.mounts, i);
    let segments = seq![name].push(file);
    assert(segments[0] == name);
}

#[verifier::external_type_specification]
#[verifier::external_body]
pub struct ExPathAbsError(path_abs::Error);

/// `path_abs::PathAbs::new`: the absolute form of `path`, as text; `None`
/// inside `Ok` where that form is not valid Unicode. Nothing is claimed of
/// the answer.
#[verifier::external_body]
fn path_abs_new(path: &str) -> (res: Result<Option<String>, path_abs::Error>) {
    match path_abs::PathAbs::new(path) {
        Ok(abs) => Ok(abs.as_path().to_str().map(str::to_owned)),
        Err(e) => Err(e),
    }
}

/// What becomes of a path that is offered as canonical: it is taken as it
/// stands where it is an absolute path of names, and otherwise counts as
/// having no canonical form.
pub open spec fn accept_canonical_spec(text: Seq<char>) -> Result<Seq<char>, Rejection> {
    if is_canonical_spec(text) {
        Ok(text)
    } else {
        Err(Rejection::CanonicalizationFailed)
    }
}

/// Takes `text` for a canonical path only where it begins at the root and
/// holds nothing but names after it: a form that is relative, or that still
/// holds a `.` or a `..`, is refused.
pub fn accept_canonical(text: String) -> (res: Result<String, Rejection>)
    ensures
        path_outcome(res) == accept_canonical_spec(text@),
{
    if is_canonical(text.as_str()) {
        Ok(text)
    } else {
        Err(Rejection::CanonicalizationFailed)
    }
}

/// The canonical form of `path`, or the reason why there is none.
///
/// Whatever comes back is an absolute path of names; what it is besides
/// depends on the working directory and is not for this contract to say.
pub fn canonicalize(path: &str) -> (res: Result<String, Rejection>)
    ensures
        res matches Ok(text) ==> is_canonical_spec(text@),
        res matches Err(why) ==> why == Rejection::CanonicalizationFailed,
{
    match path_abs_new(path) {
        Ok(Some(text)) => accept_canonical(text),
        Ok(None) => Err(Rejection::CanonicalizationFailed),
        Err(_) => Err(Rejection::CanonicalizationFailed),
    }
}

/// The storage that serves each user the directories of that user.
#[derive(Debug)]
pub struct Filesystem;

impl Filesystem {
    /// Finds what `path` addresses for `user`, without consulting the
    /// filesystem: a candidate path inside one of the user's directories, or
    /// else the outcome of the resolution.
    pub fn candidate(&self, user: &User, path: &str) -> (found: Result<Candidate, ResolveRes>)
        ensures
            search_view(found) == candidate_spec(user@, path@),
    {
        let cleaned = match clean(path) {
            Some(cleaned) => cleaned,
            None => {
                return Err(ResolveRes::Error(Rejection::MalformedPath));
            },
        };
        if cleaned.segments.len() == 0 {
            return Err(ResolveRes::Root(user.accesses()));
        }
        let mount = cleaned.segments[0].clone();
        match user.get_access(&mount) {
            Some(dir) => {
                let path = join(dir.path.as_str(), &cleaned.segments, 1);
                Ok(Candidate { mount, dir, path })
            },
            None => {
                if mount.as_str().is_empty() {
                    Err(ResolveRes::Root(user.accesses()))
                } else {
                    Err(ResolveRes::Error(Rejection::UnknownMount))
                }
            },
        }
    }

    /// Classifies a canonical path that was reached through `dir` under the
    /// name `mount`.
    pub fn confine(&self, canonical: String, mount: &str, dir: &VirtualDir) -> (res: ResolveRes)
        ensures
            res@ == confine_spec(canonical@, mount@, dir@),
    {
        if starts_with(canonical.as_str(), dir.path.as_str()) {
            if ends_with(canonical.as_str(), mount) || dir.read_only {
                ResolveRes::Read(canonical, dir.path.clone())
            } else {
                ResolveRes::Write(canonical, dir.path.clone())
            }
        } else {
            ResolveRes::Error(Rejection::EscapeDetected)
        }
    }

    /// Resolves the client's path `path` for `user`.
    ///
    /// Whatever canonical form the candidate path turns out to have, the
    /// outcome is the one that `resolve_spec` gives for it. That form is an
    /// absolute path of names, so what resolves lies at or below the
    /// directory's real path by its components and holds no `..` that could
    /// lead out again.
    pub fn full_path(&self, user: &User, path: &str) -> (res: ResolveRes)
        ensures
            exists|canonical: Option<Seq<char>>|
                (canonical matches Some(found) ==> is_canonical_spec(found)) && res@
                    == #[trigger] resolve_spec(user@, path@, canonical),
            res@ matches Resolution::Read(resolved, root) ==> is_canonical_spec(resolved)
                && starts_with_spec(resolved, root),
            res@ matches Resolution::Write(resolved, root) ==> is_canonical_spec(resolved)
                && starts_with_spec(resolved, root),
    {
        let found = match self.candidate(user, path) {
            Ok(found) => found,
            Err(outcome) => {
                assert(outcome@ == resolve_spec(user@, path@, None));
                return outcome;
            },
        };
        match canonicalize(found.path.as_str()) {
            Ok(resolved) => {
                let ghost canonical = resolved@;
                let res = self.confine(resolved, found.mount.as_str(), &found.dir);
                assert(res@ == resolve_spec(user@, path@, Some(canonical)));
                res
            },
            Err(why) => {
                let res = ResolveRes::Error(why);
                assert(res@ == resolve_spec(user@, path@, None));
                res
            },
        }
    }
}

} // verus!
