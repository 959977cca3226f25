//! Normalized mount paths, and which of them show a stored value.

use vstd::prelude::*;
use vstd::slice::slice_subrange;

use crate::errors::{outcome, reports, EventFsError};
use crate::path::bad_component;
use crate::text::{
    concat2, has_char, join, join_text, lemma_join_without, lemma_split_around, lemma_split_join,
    lemma_split_without, lemma_without_empty_all, lemma_without_empty_append,
    lemma_without_empty_none, non_empty, same_text, split, split_text, texts, without_empty, Text,
};

verus! {

/// The model of a mount path: its components from the root down.
pub type Components = Seq<Text>;

/// An absolute path without empty, `.` or `..` components.
#[derive(Debug, PartialEq, Eq, PartialOrd, Ord, Hash)]
pub struct MountPath(String);

/// Whether a text cannot be a component of a mount path.
pub open spec fn bad_mount_component(part: Text) -> bool {
    bad_component(part) || part.contains('\0') || part.contains('/')
}

/// Whether every component may stand in a mount path.
pub open spec fn mount_components(components: Components) -> bool {
    forall|i: int| 0 <= i < components.len() ==> !bad_mount_component(#[trigger] components[i])
}

/// The text of a mount path.
pub open spec fn mount_text(components: Components) -> Text {
    seq!['/'] + join(components, '/')
}

/// The pieces of a text between slashes that are not empty.
pub open spec fn pieces(text: Text) -> Components {
    without_empty(split(text, '/'))
}

/// The path with the given components, or its refusal.
pub open spec fn checked_components(components: Components) -> Result<
    Components,
    EventFsError<Text>,
> {
    if mount_components(components) {
        Ok(components)
    } else {
        Err(EventFsError::bad_path("invalid path component"@))
    }
}

/// The path that a text gives: repeated slashes count as one, and those at the ends
/// do not count.
pub open spec fn normalized(text: Text) -> Result<Components, EventFsError<Text>> {
    if text.contains('\0') {
        Err(EventFsError::bad_path("path contains NUL"@))
    } else {
        checked_components(pieces(text))
    }
}

/// The path below `parent` that a text gives.
pub open spec fn child_path(parent: Components, child: Text) -> Result<
    Components,
    EventFsError<Text>,
> {
    if child.contains('\0') {
        Err(EventFsError::bad_path("path contains NUL"@))
    } else {
        checked_components(parent + pieces(child))
    }
}

/// Whether one path lies strictly below another.
pub open spec fn descends(path: Components, root: Components) -> bool {
    root.len() < path.len() && root.is_prefix_of(path)
}

/// The directory that holds a path; the root holds itself.
pub open spec fn parent_of(path: Components) -> Components {
    if path.len() == 0 {
        path
    } else {
        path.drop_last()
    }
}

impl View for MountPath {
    type V = Components;

    closed spec fn view(&self) -> Components {
        pieces(self.0@)
    }
}

impl Clone for MountPath {
    fn clone(&self) -> (copy: Self)
        ensures
            copy@ == self@,
    {
        proof {
            use_type_invariant(self);
        }
        MountPath(self.0.clone())
    }
}

// ---------------------------------------------------------------------------
// Facts about components and texts
// ---------------------------------------------------------------------------

/// The pieces of a path's text are its components, and no component is lost where
/// more text follows.
pub proof fn lemma_mount_text_pieces(components: Components)
    requires
        mount_components(components),
    ensures
        pieces(mount_text(components)) == components,
        !mount_text(components).contains('\0'),
{
    let text = mount_text(components);
    let joined = join(components, '/');
    let start = Seq::<char>::empty();
    assert(text =~= start.push('/') + joined);
    lemma_split_around(start, joined, '/');
    assert(split(start, '/') =~= seq![start]);
    lemma_without_empty_append(seq![start], split(joined, '/'));
    lemma_without_empty_none();
    if components.len() == 0 {
        assert(components =~= Seq::empty());
        assert(split(joined, '/') =~= seq![start]);
        assert(pieces(text) =~= components);
        assert(!text.contains('\0'));
    } else {
        assert forall|i: int| 0 <= i < components.len() implies !(
        #[trigger] components[i]).contains('/') by {
            assert(!bad_mount_component(components[i]));
        }
        lemma_split_join(components, '/');
        assert forall|i: int| 0 <= i < components.len() implies (#[trigger] components[i]).len()
            > 0 by {
            assert(!bad_mount_component(components[i]));
        }
        lemma_without_empty_all(components);
        assert(pieces(text) =~= components);
        assert forall|i: int| 0 <= i < components.len() implies !(
        #[trigger] components[i]).contains('\0') by {
            assert(!bad_mount_component(components[i]));
        }
        lemma_join_without(components, '/', '\0');
        if text.contains('\0') {
            let k = choose|k: int| 0 <= k < text.len() && text[k] == '\0';
            assert(joined[k - 1] == '\0');
        }
    }
}

/// Two paths with the same text are the same path.
pub proof fn law_mount_text_identifies_path(left: Components, right: Components)
    requires
        mount_components(left),
        mount_components(right),
        mount_text(left) == mount_text(right),
    ensures
        left == right,
{
    lemma_mount_text_pieces(left);
    lemma_mount_text_pieces(right);
}

/// Normalizing the text of a path gives the path back: normalizing twice is the same
/// as normalizing once.
pub proof fn law_normalization_is_idempotent(path: Components)
    requires
        mount_components(path),
    ensures
        normalized(mount_text(path)) == Ok::<Components, EventFsError<Text>>(path),
{
    lemma_mount_text_pieces(path);
}

/// What normalization accepts has only components that may stand in a mount path.
pub proof fn law_normalized_paths_are_valid(text: Text)
    ensures
        normalized(text) matches Ok(path) ==> mount_components(path),
{
}

/// A component added to a path is what its parent lacks, and the path below the root
/// is the child of its parent.
pub proof fn law_parent_and_child(parent: Components, child: Text)
    requires
        mount_components(parent),
        !bad_mount_component(child),
    ensures
        child_path(parent, child) == Ok::<Components, EventFsError<Text>>(parent.push(child)),
        parent_of(parent.push(child)) == parent,
        descends(parent.push(child), parent),
{
    lemma_split_without(child, '/');
    lemma_without_empty_all(seq![child]);
    let path = parent.push(child);
    assert(parent + seq![child] =~= path);
    assert forall|i: int| 0 <= i < path.len() implies !bad_mount_component(#[trigger] path[i]) by {
        if i < parent.len() {
            assert(path[i] == parent[i]);
        }
    }
    assert(path.drop_last() =~= parent);
}

/// A text that is joined to the root gives what it gives by itself. What is joined to a
/// path lies at it or below it, and two texts can be joined one after the other or at
/// once.
pub proof fn law_joining_goes_down(parent: Components, first: Text, second: Text)
    ensures
        child_path(Components::empty(), first) == normalized(first),
        child_path(parent, first) matches Ok(path) ==> path == parent || descends(path, parent),
        child_path(parent, first) matches Ok(path) ==> child_path(path, second) == child_path(
            parent,
            first.push('/') + second,
        ),
{
    assert(Components::empty() + pieces(first) =~= pieces(first));
    assert(parent.is_prefix_of(parent + pieces(first)));
    if pieces(first).len() == 0 {
        assert(parent + pieces(first) =~= parent);
    }
    let both = first.push('/') + second;
    lemma_split_around(first, second, '/');
    lemma_without_empty_append(split(first, '/'), split(second, '/'));
    assert((parent + pieces(first)) + pieces(second) =~= parent + pieces(both));
    if child_path(parent, first) is Ok {
        if second.contains('\0') {
            let k = choose|k: int| 0 <= k < second.len() && second[k] == '\0';
            assert(both[first.len() as int + 1 + k] == '\0');
        }
        if both.contains('\0') {
            let k = choose|k: int| 0 <= k < both.len() && both[k] == '\0';
            if k < first.len() {
                assert(first[k] == '\0');
            } else {
                assert(second[k - first.len() - 1] == '\0');
            }
        }
    }
}

/// A path below the root lies below its parent, no path lies below itself, and what
/// lies below a path lies below whatever that path lies below.
pub proof fn law_descent_is_a_strict_order(a: Components, b: Components, c: Components)
    ensures
        !descends(a, a),
        a.len() > 0 ==> descends(a, parent_of(a)),
        descends(a, b) && descends(b, c) ==> descends(a, c),
        descends(a, b) ==> !descends(b, a),
{
    if descends(a, b) && descends(b, c) {
        assert(c.is_prefix_of(a)) by {
            assert forall|i: int| 0 <= i < c.len() implies c[i] == a[i] by {
                assert(c[i] == b[i]);
                assert(b[i] == a[i]);
            }
        }
    }
}

// ---------------------------------------------------------------------------
// Mount paths
// ---------------------------------------------------------------------------

impl MountPath {
    #[verifier::type_invariant]
    spec fn normal(self) -> bool {
        mount_components(self@) && self.0@ == mount_text(self@)
    }

    /// The path that a text gives.
    pub fn new(path: &str) -> (result: Result<Self, EventFsError>)
        ensures
            outcome(result) == normalized(path@),
    {
        if has_char(path, '\0') {
            return Err(EventFsError::invalid_path("path contains NUL"));
        }
        let parts = split_text(path, '/');
        let kept = non_empty(parts.as_slice());
        MountPath::from_components(kept.as_slice())
    }

    /// The root of the mount.
    pub fn root() -> (path: Self)
        ensures
            path@ == Components::empty(),
    {
        let none: Vec<&str> = Vec::new();
        assert(texts(none@) =~= Components::empty());
        MountPath::of_valid_components(none.as_slice())
    }

    /// The text of the path.
    pub fn as_str(&self) -> (text: &str)
        ensures
            text@ == mount_text(self@),
    {
        proof {
            use_type_invariant(self);
        }
        self.0.as_str()
    }

    /// The text of the path.
    pub fn into_string(self) -> (text: String)
        ensures
            text@ == mount_text(self@),
    {
        proof {
            use_type_invariant(&self);
        }
        self.0
    }

    /// The text of the path.
    pub fn to_string(&self) -> (text: String)
        ensures
            text@ == mount_text(self@),
    {
        self.as_str().to_owned()
    }

    /// Whether the path is the root of the mount.
    pub fn is_root(&self) -> (yes: bool)
        ensures
            yes == (self@.len() == 0),
    {
        self.components().len() == 0
    }

    /// Whether two paths are the same.
    pub fn same(&self, other: &MountPath) -> (yes: bool)
        ensures
            yes == (self@ == other@),
    {
        proof {
            use_type_invariant(self);
            use_type_invariant(other);
        }
        same_text(self.0.as_str(), other.0.as_str())
    }

    /// The directory that holds the path; the root holds itself.
    pub fn parent(&self) -> (parent: Self)
        ensures
            parent@ == parent_of(self@),
    {
        proof {
            use_type_invariant(self);
        }
        let components = self.components();
        if components.len() <= 1 {
            assert(parent_of(self@) =~= Components::empty());
            return MountPath::root();
        }
        let front = slice_subrange(components.as_slice(), 0, components.len() - 1);
        assert(texts(front@) =~= self@.drop_last());
        MountPath::of_prefix(front, self)
    }

    /// The path below this one that a text gives.
    pub fn join_child(&self, child: &str) -> (result: Result<Self, EventFsError>)
        ensures
            outcome(result) == child_path(self@, child@),
            mount_components(self@),
    {
        proof {
            use_type_invariant(self);
        }
        if has_char(child, '\0') {
            return Err(EventFsError::invalid_path("path contains NUL"));
        }
        let mut components = self.components();
        let parts = split_text(child, '/');
        let mut kept = non_empty(parts.as_slice());
        let ghost front = components@;
        let ghost back = kept@;
        components.append(&mut kept);
        assert(texts(components@) =~= texts(front) + texts(back));
        MountPath::from_components(components.as_slice())
    }

    /// Whether the path lies strictly below another.
    pub fn is_descendant_of(&self, root: &MountPath) -> (yes: bool)
        ensures
            yes == descends(self@, root@),
    {
        let path = self.components();
        let above = root.components();
        if path.len() <= above.len() {
            return false;
        }
        let mut i: usize = 0;
        while i < above.len()
            invariant
                i <= above.len() < path.len(),
                texts(path@) == self@,
                texts(above@) == root@,
                forall|k: int| 0 <= k < i ==> root@[k] == self@[k],
            decreases above.len() - i,
        {
            assert(texts(path@)[i as int] == path@[i as int]@);
            assert(texts(above@)[i as int] == above@[i as int]@);
            if !same_text(path[i], above[i]) {
                assert(root@[i as int] != self@.subrange(0, root@.len() as int)[i as int]);
                return false;
            }
            i += 1;
        }
        assert(root@ =~= self@.subrange(0, root@.len() as int));
        true
    }

    /// Whether the path is another or lies below it.
    pub fn is_self_or_descendant_of(&self, root: &MountPath) -> (yes: bool)
        ensures
            yes == (self@ == root@ || descends(self@, root@)),
    {
        self.same(root) || self.is_descendant_of(root)
    }

    /// The path with the given components.
    pub(crate) fn from_components(components: &[&str]) -> (result: Result<Self, EventFsError>)
        ensures
            outcome(result) == checked_components(texts(components@)),
    {
        let mut i: usize = 0;
        while i < components.len()
            invariant
                i <= components.len(),
                forall|k: int|
                    0 <= k < i ==> !bad_mount_component(#[trigger] texts(components@)[k]),
            decreases components.len() - i,
        {
            assert(texts(components@)[i as int] == components@[i as int]@);
            validate_mount_component(components[i])?;
            i += 1;
        }
        Ok(MountPath::of_valid_components(components))
    }

    /// The directory above a path that keeps the given first components.
    pub(crate) fn of_prefix(front: &[&str], path: &MountPath) -> (prefix: Self)
        requires
            texts(front@).is_prefix_of(path@),
        ensures
            prefix@ == texts(front@),
    {
        proof {
            use_type_invariant(path);
            assert forall|i: int| 0 <= i < texts(front@).len() implies !bad_mount_component(
                #[trigger] texts(front@)[i],
            ) by {
                assert(texts(front@)[i] == path@[i]);
            }
        }
        MountPath::of_valid_components(front)
    }

    fn of_valid_components(components: &[&str]) -> (path: Self)
        requires
            mount_components(texts(components@)),
        ensures
            path@ == texts(components@),
    {
        let joined = join_text(components, '/');
        let text = concat2("/", joined.as_str());
        proof {
            reveal_strlit("/");
            assert("/"@ =~= seq!['/']);
            lemma_mount_text_pieces(texts(components@));
        }
        MountPath(text)
    }

    /// The components of the path.
    pub(crate) fn components(&self) -> (parts: Vec<&str>)
        ensures
            texts(parts@) == self@,
            mount_components(self@),
    {
        proof {
            use_type_invariant(self);
        }
        let parts = split_text(self.0.as_str(), '/');
        non_empty(parts.as_slice())
    }
}

fn validate_mount_component(component: &str) -> (result: Result<(), EventFsError>)
    ensures
        reports(
            result,
            if bad_mount_component(component@) {
                Some("invalid path component"@)
            } else {
                None
            },
        ),
{
    if component.is_empty() || same_text(component, ".") || same_text(component, "..") || has_char(
        component,
        '\0',
    ) || has_char(component, '/') {
        Err(EventFsError::invalid_path("invalid path component"))
    } else {
        Ok(())
    }
}

} // verus!
