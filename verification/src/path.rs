//! Lexical treatment of slash-separated paths: splitting into components,
//! normalisation, joining and component-wise prefix and suffix tests. Nothing
//! here touches a filesystem.

use vstd::prelude::*;
use vstd::std_specs::iter::IteratorSpec;
use vstd::string::{StrSliceExecFns, StringExecFns};

verus! {

/// One component of a path.
#[derive(Debug, Clone, PartialEq, Eq)]
pub enum Component {
    /// The root marker: a leading `/`.
    RootDir,
    /// A leading `.`.
    CurDir,
    /// A `..`.
    ParentDir,
    /// Any other name between separators.
    Normal(String),
}

/// What a `Component` stands for in contracts.
pub enum ComponentView {
    RootDir,
    CurDir,
    ParentDir,
    Normal(Seq<char>),
}

impl View for Component {
    type V = ComponentView;

    open spec fn view(&self) -> ComponentView {
        match self {
            Component::RootDir => ComponentView::RootDir,
            Component::CurDir => ComponentView::CurDir,
            Component::ParentDir => ComponentView::ParentDir,
            Component::Normal(name) => ComponentView::Normal(name@),
        }
    }
}

/// The views of a sequence of components.
pub open spec fn components_view(parts: Seq<Component>) -> Seq<ComponentView> {
    parts.map_values(|c: Component| c@)
}

/// The views of a sequence of strings.
pub open spec fn strings_view(strings: Seq<String>) -> Seq<Seq<char>> {
    strings.map_values(|s: String| s@)
}

/// The pieces of `s` between separators. A path with `n` separators has
/// `n + 1` pieces, some of which may be empty.
pub open spec fn split(s: Seq<char>) -> Seq<Seq<char>>
    decreases s.len(),
{
    if s.len() == 0 {
        seq![Seq::empty()]
    } else if s.last() == '/' {
        split(s.drop_last()).push(Seq::empty())
    } else {
        let before = split(s.drop_last());
        before.drop_last().push(before.last().push(s.last()))
    }
}

/// The component that a piece gives rise to, if any. Empty pieces vanish, and
/// so does `.` unless it is the first piece of the path.
pub open spec fn piece_component(piece: Seq<char>, first: bool) -> Option<ComponentView> {
    if piece.len() == 0 {
        None
    } else if piece == seq!['.'] {
        if first {
            Some(ComponentView::CurDir)
        } else {
            None
        }
    } else if piece == seq!['.', '.'] {
        Some(ComponentView::ParentDir)
    } else {
        Some(ComponentView::Normal(piece))
    }
}

/// The components that a sequence of pieces gives rise to.
pub open spec fn piece_components(pieces: Seq<Seq<char>>) -> Seq<ComponentView>
    decreases pieces.len(),
{
    if pieces.len() == 0 {
        Seq::empty()
    } else {
        let before = piece_components(pieces.drop_last());
        match piece_component(pieces.last(), pieces.len() == 1) {
            Some(c) => before.push(c),
            None => before,
        }
    }
}

/// Whether `s` begins with a separator.
pub open spec fn is_rooted(s: Seq<char>) -> bool {
    s.len() > 0 && s[0] == '/'
}

/// The components of the path `s`: the root marker if `s` begins with a
/// separator, then one component for each piece that is neither empty nor a
/// `.` after the start.
pub open spec fn components_spec(s: Seq<char>) -> Seq<ComponentView> {
    if is_rooted(s) {
        seq![ComponentView::RootDir] + piece_components(split(s))
    } else {
        piece_components(split(s))
    }
}

/// Splitting always yields at least one piece.
pub proof fn lemma_split_nonempty(s: Seq<char>)
    ensures
        split(s).len() >= 1,
    decreases s.len(),
{
    if s.len() > 0 {
        lemma_split_nonempty(s.drop_last());
    }
}

/// The characters of `s`, in order.
pub fn chars_of(s: &str) -> (chars: Vec<char>)
    ensures
        chars@ == s@,
{
    let mut chars: Vec<char> = Vec::new();
    for c in it: s.chars()
        invariant
            it.seq() == s@,
            chars@ == it.seq().take(it.index()),
    {
        chars.push(c);
        assert(it.seq().take(it.index() + 1) =~= it.seq().take(it.index()).push(c));
    }
    assert(chars@ =~= s@);
    chars
}

/// The component for the piece of `path` that spans the characters from
/// `start` up to `end`.
fn classify(path: &str, chars: &Vec<char>, start: usize, end: usize, first: bool) -> (part: Option<
    Component,
>)
    requires
        chars@ == path@,
        start <= end <= chars.len(),
    ensures
        match part {
            Some(c) => piece_component(path@.subrange(start as int, end as int), first) == Some(
                c@,
            ),
            None => piece_component(path@.subrange(start as int, end as int), first) is None,
        },
{
    let ghost piece = path@.subrange(start as int, end as int);
    let len: usize = end - start;
    if len == 0 {
        None
    } else if len == 1 && chars[start] == '.' {
        assert(piece =~= seq!['.']);
        if first {
            Some(Component::CurDir)
        } else {
            None
        }
    } else if len == 2 && chars[start] == '.' && chars[start + 1] == '.' {
        assert(piece =~= seq!['.', '.']);
        Some(Component::ParentDir)
    } else {
        assert(piece != seq!['.']) by {
            if piece == seq!['.'] {
                assert(piece.len() == 1 && piece[0] == '.');
            }
        }
        assert(piece != seq!['.', '.']) by {
            if piece == seq!['.', '.'] {
                assert(piece.len() == 2 && piece[0] == '.' && piece[1] == '.');
            }
        }
        let name = path.substring_char(start, end).to_owned();
        Some(Component::Normal(name))
    }
}

/// Splits `path` into its components.
///
/// Repeated separators and a trailing separator leave no trace, and neither
/// does a `.` anywhere but at the start of a relative path.
pub fn components(path: &str) -> (parts: Vec<Component>)
    ensures
        components_view(parts@) == components_spec(path@),
{
    let chars = chars_of(path);
    let n: usize = chars.len();
    let mut parts: Vec<Component> = Vec::new();
    let ghost head: Seq<ComponentView> = Seq::empty();
    if n > 0 && chars[0] == '/' {
        parts.push(Component::RootDir);
        proof {
            head = seq![ComponentView::RootDir];
        }
    }
    let mut start: usize = 0;
    let mut i: usize = 0;
    assert(path@.take(0) =~= Seq::<char>::empty());
    assert(components_view(parts@) =~= head + piece_components(split(path@.take(0)).drop_last()));
    while i < n
        invariant
            chars@ == path@,
            n == chars.len(),
            start <= i <= n,
            head == if is_rooted(path@) {
                seq![ComponentView::RootDir]
            } else {
                Seq::<ComponentView>::empty()
            },
            split(path@.take(i as int)).len() >= 1,
            split(path@.take(i as int)).last() == path@.subrange(start as int, i as int),
            (split(path@.take(i as int)).len() == 1) == (start == 0),
            components_view(parts@) == head + piece_components(
                split(path@.take(i as int)).drop_last(),
            ),
        decreases n - i,
    {
        let ghost before = split(path@.take(i as int));
        let ghost next = path@.take(i + 1);
        proof {
            assert(next.drop_last() =~= path@.take(i as int));
            assert(next.last() == path@[i as int]);
        }
        if chars[i] == '/' {
            let part = classify(path, &chars, start, i, start == 0);
            proof {
                assert(split(next) == before.push(Seq::empty()));
                assert(split(next).drop_last() =~= before);
                assert(path@.subrange(i + 1, i + 1) =~= Seq::<char>::empty());
            }
            match part {
                Some(c) => {
                    let ghost earlier = components_view(parts@);
                    let ghost view = c@;
                    parts.push(c);
                    assert(components_view(parts@) =~= earlier.push(view));
                    assert(piece_components(before) == piece_components(before.drop_last()).push(
                        view,
                    ));
                    assert(components_view(parts@) =~= head + piece_components(before));
                },
                None => {},
            }
            start = i + 1;
        } else {
            proof {
                assert(split(next) == before.drop_last().push(before.last().push(path@[i as int])));
                assert(split(next).drop_last() =~= before.drop_last());
                assert(path@.subrange(start as int, i + 1) =~= before.last().push(path@[i as int]));
            }
        }
        i = i + 1;
    }
    let ghost pieces = split(path@);
    assert(path@.take(n as int) =~= path@);
    let part = classify(path, &chars, start, n, start == 0);
    match part {
        Some(c) => {
            let ghost earlier = components_view(parts@);
            let ghost view = c@;
            parts.push(c);
            assert(components_view(parts@) =~= earlier.push(view));
            assert(piece_components(pieces) == piece_components(pieces.drop_last()).push(view));
            assert(components_view(parts@) =~= head + piece_components(pieces));
        },
        None => {},
    }
    assert(Seq::<ComponentView>::empty() + piece_components(pieces) =~= piece_components(pieces));
    parts
}

/// A normalised path: whether it starts at the root, and the names that
/// lead from there (or from the current directory) to the target. With no
/// names it denotes the root, or the current directory, itself.
#[derive(Debug, Clone, PartialEq, Eq)]
pub struct CleanPath {
    pub absolute: bool,
    pub segments: Vec<String>,
}

/// What a `CleanPath` stands for in contracts.
pub struct CleanPathView {
    pub absolute: bool,
    pub segments: Seq<Seq<char>>,
}

impl View for CleanPath {
    type V = CleanPathView;

    open spec fn view(&self) -> CleanPathView {
        CleanPathView { absolute: self.absolute, segments: strings_view(self.segments@) }
    }
}

/// The effect of one component on the path normalised so far: the root
/// marker starts over at the root, `.` changes nothing, `..` removes the last
/// name and fails where there is none, and any other name is appended.
pub open spec fn clean_step(sofar: CleanPathView, part: ComponentView) -> Option<CleanPathView> {
    match part {
        ComponentView::RootDir => Some(
            CleanPathView { absolute: true, segments: Seq::empty() },
        ),
        ComponentView::CurDir => Some(sofar),
        ComponentView::ParentDir => if sofar.segments.len() == 0 {
            None
        } else {
            Some(
                CleanPathView {
                    absolute: sofar.absolute,
                    segments: sofar.segments.drop_last(),
                },
            )
        },
        ComponentView::Normal(name) => Some(
            CleanPathView { absolute: sofar.absolute, segments: sofar.segments.push(name) },
        ),
    }
}

/// The normal form of a sequence of components, taken in order from an
/// empty relative path; `None` where a `..` has nothing to remove.
pub open spec fn clean_components(parts: Seq<ComponentView>) -> Option<CleanPathView>
    decreases parts.len(),
{
    if parts.len() == 0 {
        Some(CleanPathView { absolute: false, segments: Seq::empty() })
    } else {
        match clean_components(parts.drop_last()) {
            Some(sofar) => clean_step(sofar, parts.last()),
            None => None,
        }
    }
}

/// The normal form of the path `s`.
pub open spec fn clean_spec(s: Seq<char>) -> Option<CleanPathView> {
    clean_components(components_spec(s))
}

/// Once normalisation has failed on a prefix of the components, it fails on
/// the whole.
pub proof fn lemma_clean_failure_is_final(parts: Seq<ComponentView>, k: int)
    requires
        0 <= k <= parts.len(),
        clean_components(parts.take(k)) is None,
    ensures
        clean_components(parts) is None,
    decreases parts.len() - k,
{
    if k < parts.len() {
        assert(parts.take(k + 1).drop_last() =~= parts.take(k));
        lemma_clean_failure_is_final(parts, k + 1);
    } else {
        assert(parts.take(k) =~= parts);
    }
}

/// Normalises `path` without looking at any filesystem.
///
/// Returns `None` exactly where some `..` would climb above the start of the
/// path, be that the root or the current directory.
pub fn clean(path: &str) -> (cleaned: Option<CleanPath>)
    ensures
        match cleaned {
            Some(p) => clean_spec(path@) == Some(p@),
            None => clean_spec(path@) is None,
        },
{
    let parts = components(path);
    let ghost views = components_view(parts@);
    let mut absolute: bool = false;
    let mut segments: Vec<String> = Vec::new();
    let mut i: usize = 0;
    assert(views.take(0) =~= Seq::<ComponentView>::empty());
    assert(strings_view(segments@) =~= Seq::<Seq<char>>::empty());
    while i < parts.len()
        invariant
            i <= parts.len(),
            views == components_view(parts@),
            views == components_spec(path@),
            clean_components(views.take(i as int)) == Some(
                CleanPathView { absolute, segments: strings_view(segments@) },
            ),
        decreases parts.len() - i,
    {
        let ghost sofar = CleanPathView { absolute, segments: strings_view(segments@) };
        proof {
            assert(views.take(i + 1).drop_last() =~= views.take(i as int));
            assert(views.take(i + 1).last() == parts@[i as int]@);
            assert(clean_components(views.take(i + 1)) == clean_step(sofar, parts@[i as int]@));
        }
        match &parts[i] {
            Component::RootDir => {
                absolute = true;
                segments = Vec::new();
                assert(strings_view(segments@) =~= Seq::<Seq<char>>::empty());
            },
            Component::CurDir => {},
            Component::ParentDir => {
                if segments.len() == 0 {
                    proof {
                        lemma_clean_failure_is_final(views, i + 1);
                    }
                    return None;
                }
                segments.pop();
                assert(strings_view(segments@) =~= sofar.segments.drop_last());
            },
            Component::Normal(name) => {
                segments.push(name.clone());
                assert(strings_view(segments@) =~= sofar.segments.push(name@));
            },
        }
        i = i + 1;
    }
    assert(views.take(i as int) =~= views);
    Some(CleanPath { absolute, segments })
}

/// Whether `s` can stand as a name in a path: it is not empty, holds no
/// separator, and is neither `.` nor `..`.
pub open spec fn is_name(s: Seq<char>) -> bool {
    &&& s.len() > 0
    &&& !s.contains('/')
    &&& s != seq!['.']
    &&& s != seq!['.', '.']
}

/// Text without a separator is one piece.
pub proof fn lemma_split_one_piece(s: Seq<char>)
    requires
        !s.contains('/'),
    ensures
        split(s) == seq![s],
    decreases s.len(),
{
    if s.len() == 0 {
        assert(s =~= Seq::<char>::empty());
    } else {
        let front = s.drop_last();
        assert forall|i: int| 0 <= i < front.len() implies front[i] != '/' by {
            assert(s[i] == front[i]);
            assert(s.contains(s[i]));
        }
        assert(!front.contains('/'));
        assert(s.contains(s.last()));
        lemma_split_one_piece(front);
        assert(Seq::<Seq<char>>::empty().push(front.push(s.last())) =~= seq![s]) by {
            assert(front.push(s.last()) =~= s);
        }
        assert(split(front).drop_last() =~= Seq::<Seq<char>>::empty());
    }
}

/// No piece holds a separator.
pub proof fn lemma_pieces_hold_no_separator(s: Seq<char>)
    ensures
        forall|k: int| 0 <= k < split(s).len() ==> !(#[trigger] split(s)[k]).contains('/'),
    decreases s.len(),
{
    if s.len() > 0 {
        let before = split(s.drop_last());
        lemma_pieces_hold_no_separator(s.drop_last());
        lemma_split_nonempty(s.drop_last());
        if s.last() != '/' {
            let grown = before.last().push(s.last());
            assert(!before.last().contains('/'));
            assert forall|i: int| 0 <= i < grown.len() implies grown[i] != '/' by {
                if i < before.last().len() {
                    assert(before.last().contains(before.last()[i]));
                }
            }
        }
    }
}

/// A separator and a piece after a path add that piece to its pieces.
pub proof fn lemma_split_append(path: Seq<char>, piece: Seq<char>)
    requires
        !piece.contains('/'),
    ensures
        split(path.push('/') + piece) == split(path).push(piece),
    decreases piece.len(),
{
    let whole = path.push('/') + piece;
    if piece.len() == 0 {
        assert(whole =~= path.push('/'));
        assert(whole.drop_last() =~= path);
        assert(piece =~= Seq::<char>::empty());
    } else {
        let front = piece.drop_last();
        assert forall|i: int| 0 <= i < front.len() implies front[i] != '/' by {
            assert(piece[i] == front[i]);
            assert(piece.contains(piece[i]));
        }
        assert(!front.contains('/'));
        assert(piece.contains(piece.last()));
        lemma_split_append(path, front);
        assert(whole.drop_last() =~= path.push('/') + front);
        assert(whole.last() == piece.last());
        assert(split(path).push(front).drop_last() =~= split(path));
        assert(front.push(piece.last()) =~= piece);
    }
}

/// A name by itself is a path of one component.
pub proof fn lemma_components_of_name(name: Seq<char>)
    requires
        is_name(name),
    ensures
        components_spec(name) == seq![ComponentView::Normal(name)],
        clean_spec(name) == Some(CleanPathView { absolute: false, segments: seq![name] }),
{
    lemma_split_one_piece(name);
    assert(name.contains(name[0]));
    let pieces = seq![name];
    assert(pieces.drop_last() =~= Seq::<Seq<char>>::empty());
    assert(pieces.last() == name);
    assert(piece_components(pieces.drop_last()) =~= Seq::<ComponentView>::empty());
    assert(piece_component(name, true) == Some(ComponentView::Normal(name)));
    assert(piece_components(pieces) =~= seq![ComponentView::Normal(name)]);
    assert(!is_rooted(name));
    let parts = seq![ComponentView::Normal(name)];
    assert(parts.drop_last() =~= Seq::<ComponentView>::empty());
    assert(parts.last() == ComponentView::Normal(name));
    assert(clean_components(parts.drop_last()) == Some(
        CleanPathView { absolute: false, segments: Seq::empty() },
    ));
    assert(Seq::<Seq<char>>::empty().push(name) =~= seq![name]);
}

/// A separator and a name after a path that is not empty add one component.
pub proof fn lemma_components_append_name(path: Seq<char>, name: Seq<char>)
    requires
        path.len() > 0,
        is_name(name),
    ensures
        components_spec(path.push('/') + name) == components_spec(path).push(
            ComponentView::Normal(name),
        ),
        clean_spec(path.push('/') + name) == match clean_spec(path) {
            Some(p) => Some(
                CleanPathView { absolute: p.absolute, segments: p.segments.push(name) },
            ),
            None => None,
        },
{
    let whole = path.push('/') + name;
    lemma_split_append(path, name);
    lemma_split_nonempty(path);
    assert(split(whole).drop_last() =~= split(path));
    assert(whole[0] == path[0]);
    assert(is_rooted(whole) == is_rooted(path));
    assert(piece_components(split(whole)) == piece_components(split(path)).push(
        ComponentView::Normal(name),
    ));
    assert(components_spec(whole) =~= components_spec(path).push(ComponentView::Normal(name)));
    assert(components_spec(whole).drop_last() =~= components_spec(path));
}

/// No component holds a separator, is empty, or is a `.` or `..` in the
/// guise of a name.
pub proof fn lemma_components_are_names(s: Seq<char>)
    ensures
        forall|k: int|
            0 <= k < components_spec(s).len() ==> (#[trigger] components_spec(s)[k] matches ComponentView::Normal(
                name,
            ) ==> is_name(name)),
{
    lemma_pieces_hold_no_separator(s);
    lemma_piece_components_are_names(split(s));
}

/// Pieces without separators give names only.
pub proof fn lemma_piece_components_are_names(pieces: Seq<Seq<char>>)
    requires
        forall|k: int| 0 <= k < pieces.len() ==> !(#[trigger] pieces[k]).contains('/'),
    ensures
        forall|k: int|
            0 <= k < piece_components(pieces).len() ==> (#[trigger] piece_components(
                pieces,
            )[k] matches ComponentView::Normal(name) ==> is_name(name)),
    decreases pieces.len(),
{
    if pieces.len() > 0 {
        let front = pieces.drop_last();
        assert forall|k: int| 0 <= k < front.len() implies !(#[trigger] front[k]).contains(
            '/',
        ) by {
            assert(front[k] == pieces[k]);
        }
        lemma_piece_components_are_names(front);
        assert(!pieces[pieces.len() - 1].contains('/'));
    }
}

/// A `..` where no name is left makes normalisation fail: nothing climbs
/// above the root, or above the start of a relative path.
pub proof fn lemma_parent_at_top_fails(parts: Seq<ComponentView>)
    requires
        clean_components(parts) matches Some(p) && p.segments.len() == 0,
    ensures
        clean_components(parts.push(ComponentView::ParentDir)) is None,
{
    assert(parts.push(ComponentView::ParentDir).drop_last() =~= parts);
}

/// The normal form of components followed by more components depends on the
/// first only through their normal form.
pub proof fn lemma_clean_continues(
    first: Seq<ComponentView>,
    other: Seq<ComponentView>,
    rest: Seq<ComponentView>,
)
    requires
        clean_components(first) == clean_components(other),
    ensures
        clean_components(first + rest) == clean_components(other + rest),
    decreases rest.len(),
{
    if rest.len() == 0 {
        assert(first + rest =~= first);
        assert(other + rest =~= other);
    } else {
        lemma_clean_continues(first, other, rest.drop_last());
        assert((first + rest).drop_last() =~= first + rest.drop_last());
        assert((other + rest).drop_last() =~= other + rest.drop_last());
    }
}

/// A name followed by `..` leaves no trace in the normal form, whatever
/// comes before and after, unless normalisation has failed before.
pub proof fn lemma_name_then_parent_cancels(
    before: Seq<ComponentView>,
    name: Seq<char>,
    after: Seq<ComponentView>,
)
    requires
        clean_components(before) is Some,
    ensures
        clean_components(
            before.push(ComponentView::Normal(name)).push(ComponentView::ParentDir) + after,
        ) == clean_components(before + after),
{
    let named = before.push(ComponentView::Normal(name));
    let back = named.push(ComponentView::ParentDir);
    assert(named.drop_last() =~= before);
    assert(back.drop_last() =~= named);
    let p = clean_components(before)->0;
    assert(named.last() == ComponentView::Normal(name));
    assert(back.last() == ComponentView::ParentDir);
    let grown = CleanPathView { absolute: p.absolute, segments: p.segments.push(name) };
    assert(clean_components(named) == Some(grown));
    assert(grown.segments.drop_last() =~= p.segments);
    assert(clean_components(back) == clean_step(grown, ComponentView::ParentDir));
    assert(clean_components(back) == clean_components(before));
    lemma_clean_continues(back, before, after);
}

/// Every segment of a normal form is a name: no `.` and no `..` is left,
/// so the path stays at or below where it starts.
pub proof fn lemma_clean_segments_are_names(s: Seq<char>)
    requires
        clean_spec(s) is Some,
    ensures
        forall|k: int|
            0 <= k < clean_spec(s)->0.segments.len() ==> is_name(
                #[trigger] clean_spec(s)->0.segments[k],
            ),
{
    lemma_components_are_names(s);
    lemma_clean_keeps_names(components_spec(s));
}

/// The segments of a normal form are names among the components.
pub proof fn lemma_clean_keeps_names(parts: Seq<ComponentView>)
    requires
        forall|k: int|
            0 <= k < parts.len() ==> (#[trigger] parts[k] matches ComponentView::Normal(name)
                ==> is_name(name)),
        clean_components(parts) is Some,
    ensures
        forall|k: int|
            0 <= k < clean_components(parts)->0.segments.len() ==> is_name(
                #[trigger] clean_components(parts)->0.segments[k],
            ),
    decreases parts.len(),
{
    if parts.len() > 0 {
        let front = parts.drop_last();
        assert forall|k: int| 0 <= k < front.len() implies (#[trigger] front[k] matches ComponentView::Normal(
            name,
        ) ==> is_name(name)) by {
            assert(front[k] == parts[k]);
        }
        lemma_clean_keeps_names(front);
        let last = parts[parts.len() - 1];
        assert(last matches ComponentView::Normal(name) ==> is_name(name));
    }
}

/// Whether `s` is an absolute path of names: it begins at the root, and
/// after the root marker nothing but names follows, so that no `..` leads
/// out of what the names before it lead into.
pub open spec fn is_canonical_spec(s: Seq<char>) -> bool {
    &&& is_rooted(s)
    &&& forall|k: int|
        0 <= k < components_spec(s).len() ==> (#[trigger] components_spec(s)[k]
            is RootDir || components_spec(s)[k] is Normal)
}

/// Whether `path` is an absolute path of names.
pub fn is_canonical(path: &str) -> (yes: bool)
    ensures
        yes == is_canonical_spec(path@),
{
    if path.is_empty() {
        return false;
    }
    if path.get_char(0) != '/' {
        return false;
    }
    let parts = components(path);
    let mut i: usize = 0;
    while i < parts.len()
        invariant
            i <= parts.len(),
            is_rooted(path@),
            components_view(parts@) == components_spec(path@),
            forall|k: int|
                0 <= k < i ==> (#[trigger] components_spec(path@)[k] is RootDir
                    || components_spec(path@)[k] is Normal),
        decreases parts.len() - i,
    {
        match &parts[i] {
            Component::RootDir => {},
            Component::Normal(_) => {},
            _ => {
                assert(components_spec(path@)[i as int] == parts@[i as int]@);
                return false;
            },
        }
        assert(components_spec(path@)[i as int] == parts@[i as int]@);
        i = i + 1;
    }
    true
}

/// Pieces never give rise to a root marker.
pub proof fn lemma_piece_components_hold_no_root(pieces: Seq<Seq<char>>)
    ensures
        forall|k: int|
            0 <= k < piece_components(pieces).len() ==> !(#[trigger] piece_components(pieces)[k]
                is RootDir),
    decreases pieces.len(),
{
    if pieces.len() > 0 {
        lemma_piece_components_hold_no_root(pieces.drop_last());
    }
}

/// A path begins with the root marker exactly where it begins with a
/// separator, and holds that marker nowhere else.
pub proof fn lemma_root_comes_first(s: Seq<char>)
    ensures
        is_rooted(s) <==> components_spec(s).len() > 0 && components_spec(s)[0] is RootDir,
        forall|k: int|
            1 <= k < components_spec(s).len() ==> !(#[trigger] components_spec(s)[k] is RootDir),
{
    lemma_piece_components_hold_no_root(split(s));
    if is_rooted(s) {
        assert forall|k: int| 1 <= k < components_spec(s).len() implies !(
        #[trigger] components_spec(s)[k] is RootDir) by {
            assert(components_spec(s)[k] == piece_components(split(s))[k - 1]);
        }
    }
}

/// Below a base that is not empty, an absolute path of names holds names
/// only: it leads into the base and from there nowhere but down.
pub proof fn lemma_canonical_stays_below(path: Seq<char>, base: Seq<char>)
    requires
        is_canonical_spec(path),
        starts_with_spec(path, base),
        components_spec(base).len() > 0,
    ensures
        components_spec(base).len() <= components_spec(path).len(),
        forall|k: int|
            0 <= k < components_spec(base).len() ==> #[trigger] components_spec(path)[k]
                == components_spec(base)[k],
        forall|k: int|
            components_spec(base).len() <= k < components_spec(path).len()
                ==> #[trigger] components_spec(path)[k] is Normal,
{
    lemma_root_comes_first(path);
    let whole = components_spec(path);
    let prefix = components_spec(base);
    assert forall|k: int| 0 <= k < prefix.len() implies #[trigger] whole[k] == prefix[k] by {
        assert(whole.subrange(0, prefix.len() as int)[k] == whole[k]);
    }
}

/// `path` with one more name: a separator is put between them unless `path`
/// is empty or already ends with one.
pub open spec fn push_segment(path: Seq<char>, name: Seq<char>) -> Seq<char> {
    if path.len() > 0 && path.last() != '/' {
        path.push('/') + name
    } else {
        path + name
    }
}

/// `base` followed by the names of `segments`, in order.
pub open spec fn join_spec(base: Seq<char>, segments: Seq<Seq<char>>) -> Seq<char>
    decreases segments.len(),
{
    if segments.len() == 0 {
        base
    } else {
        push_segment(join_spec(base, segments.drop_last()), segments.last())
    }
}

/// Whether `path` ends with a separator.
fn ends_with_separator(path: &String) -> (yes: bool)
    ensures
        yes == (path@.len() > 0 && path@.last() == '/'),
{
    let n: usize = path.as_str().unicode_len();
    n > 0 && path.as_str().get_char(n - 1) == '/'
}

/// Appends the names `segments[from..]` to `base`, with separators between.
pub fn join(base: &str, segments: &Vec<String>, from: usize) -> (joined: String)
    requires
        from <= segments.len(),
    ensures
        joined@ == join_spec(base@, strings_view(segments@).skip(from as int)),
{
    let ghost names = strings_view(segments@).skip(from as int);
    let mut joined = base.to_owned();
    let mut i: usize = from;
    assert(names.take(0) =~= Seq::<Seq<char>>::empty());
    while i < segments.len()
        invariant
            from <= i <= segments.len(),
            names == strings_view(segments@).skip(from as int),
            joined@ == join_spec(base@, names.take(i - from)),
        decreases segments.len() - i,
    {
        proof {
            assert(names.take(i - from + 1).drop_last() =~= names.take(i - from));
            assert(names.take(i - from + 1).last() == segments@[i as int]@);
        }
        let empty: bool = joined.as_str().unicode_len() == 0;
        if !empty && !ends_with_separator(&joined) {
            joined.append("/");
            proof {
                reveal_strlit("/");
                assert("/"@ =~= seq!['/']);
            }
        }
        joined.append(segments[i].as_str());
        assert(joined@ =~= push_segment(
            join_spec(base@, names.take(i - from)),
            segments@[i as int]@,
        ));
        i = i + 1;
    }
    assert(names.take(i - from) =~= names);
    joined
}

/// Whether the components of `base` are the first components of `path`.
/// Only whole components count: `/srv/al` is no prefix of `/srv/alice`.
pub open spec fn starts_with_spec(path: Seq<char>, base: Seq<char>) -> bool {
    components_spec(base).is_prefix_of(components_spec(path))
}

/// Whether the components of `child` are the last components of `path`.
pub open spec fn ends_with_spec(path: Seq<char>, child: Seq<char>) -> bool {
    components_spec(child).is_suffix_of(components_spec(path))
}

/// Whether two components are the same.
pub fn same_component(a: &Component, b: &Component) -> (same: bool)
    ensures
        same == (a@ == b@),
{
    match (a, b) {
        (Component::RootDir, Component::RootDir) => true,
        (Component::CurDir, Component::CurDir) => true,
        (Component::ParentDir, Component::ParentDir) => true,
        (Component::Normal(x), Component::Normal(y)) => *x == *y,
        _ => false,
    }
}

/// Whether `shorter` equals the stretch of `longer` that begins at `offset`.
fn matches_at(longer: &Vec<Component>, shorter: &Vec<Component>, offset: usize) -> (same: bool)
    requires
        offset + shorter.len() <= longer.len(),
    ensures
        same == (components_view(shorter@) == components_view(longer@).subrange(
            offset as int,
            offset + shorter.len(),
        )),
{
    let ghost target = components_view(longer@).subrange(offset as int, offset + shorter.len());
    let mut i: usize = 0;
    while i < shorter.len()
        invariant
            i <= shorter.len(),
            offset + shorter.len() <= longer.len(),
            target == components_view(longer@).subrange(offset as int, offset + shorter.len()),
            forall|k: int| 0 <= k < i ==> components_view(shorter@)[k] == #[trigger] target[k],
        decreases shorter.len() - i,
    {
        if !same_component(&shorter[i], &longer[offset + i]) {
            assert(components_view(shorter@)[i as int] != target[i as int]);
            return false;
        }
        i = i + 1;
    }
    assert(components_view(shorter@) =~= target);
    true
}

/// Whether `path` lies at or below `base`, component by component.
pub fn starts_with(path: &str, base: &str) -> (yes: bool)
    ensures
        yes == starts_with_spec(path@, base@),
{
    let whole = components(path);
    let prefix = components(base);
    if prefix.len() > whole.len() {
        return false;
    }
    matches_at(&whole, &prefix, 0)
}

/// Whether the last components of `path` are those of `child`.
pub fn ends_with(path: &str, child: &str) -> (yes: bool)
    ensures
        yes == ends_with_spec(path@, child@),
{
    let whole = components(path);
    let suffix = components(child);
    if suffix.len() > whole.len() {
        return false;
    }
    matches_at(&whole, &suffix, whole.len() - suffix.len())
}

} // verus!
