//! Traits of the protocol's structures: emptiness, serialization behavior,
//! and field access by key and by path.

use crate::value::{Annotated, MetaMap, MetaTree, Val, Value};
use vstd::prelude::*;
use vstd::std_specs::iter::IteratorSpec;

verus! {

/// A value that can be empty.
pub trait Empty {
    /// Returns whether this value is empty.
    fn is_empty(&self) -> bool;

    /// Returns whether this value is empty or all of its descendants are empty.
    ///
    /// This only needs to be implemented for containers by calling `Empty::is_deep_empty` on all
    /// children. The default implementation calls `Empty::is_empty`.
    ///
    /// For containers of `Annotated` elements, this must call `Annotated::skip_serialization`.
    #[inline]
    fn is_deep_empty(&self) -> (empty: bool)
        default_ensures
            call_ensures(Self::is_empty, (self,), empty),
    {
        self.is_empty()
    }
}

/// Defines behavior for skipping the serialization of fields.
///
/// This behavior is configured via the `skip_serialization` attribute on fields of structs. It is
/// passed as parameter to `ToValue::skip_serialization` of the corresponding field.
///
/// The default for fields in derived structs is `SkipSerialization::Null(true)`, which will skips
/// `null` values under the field recursively. Newtype structs (`MyType(T)`) and enums pass through
/// to their inner type and variant, respectively.
#[derive(Copy, Clone, Debug, PartialEq, Eq)]
pub enum SkipSerialization {
    /// Serialize all values. Missing values will be serialized as `null`.
    Never,
    /// Do not serialize `null` values but keep empty collections.
    ///
    /// If the `bool` flag is set to `true`, this applies to all descendants recursively; if it is
    /// set to `false`, this only applies to direct children and does not propagate down.
    Null(bool),
    /// Do not serialize empty objects as indicated by the `Empty` trait.
    ///
    /// If the `bool` flag is set to `true`, this applies to all descendants recursively; if it is
    /// set to `false`, this only applies to direct children and does not propagate down.
    Empty(bool),
}

impl SkipSerialization {
    /// The behavior that child elements inherit from this one.
    pub open spec fn child(self) -> Self {
        match self {
            SkipSerialization::Null(false) => SkipSerialization::Never,
            SkipSerialization::Empty(false) => SkipSerialization::Never,
            other => other,
        }
    }

    /// Returns the serialization behavior for child elements.
    ///
    /// Shallow behaviors - `Null(false)` and `Empty(false)` - propagate as `Never`, all others
    /// remain the same. This allows empty containers to be skipped while their contents will
    /// serialize with `null` values.
    pub fn descend(self) -> (child: Self)
        ensures
            child == self.child(),
    {
        match self {
            SkipSerialization::Null(false) => SkipSerialization::Never,
            SkipSerialization::Empty(false) => SkipSerialization::Never,
            other => other,
        }
    }

    /// Below the direct children a behavior changes no more: what the
    /// children inherit, their children inherit too.
    pub proof fn lemma_child_settles(self)
        ensures
            self.child().child() == self.child(),
    {
    }
}

impl Default for SkipSerialization {
    fn default() -> (behavior: Self)
        ensures
            behavior == SkipSerialization::Null(true),
    {
        SkipSerialization::Null(true)
    }
}

/// A type that supports field access by paths.
///
/// # Syntax
///
/// The path identifies a value within the structure. A path consists of components separated by
/// `.`, where each of the components is the name of a field to access. Every path starts with the
/// name of the root level component, which must match for this type.
pub trait Getter {
    /// Returns the serialized value of a field pointed to by a `path`.
    fn get_value(&self, path: &str) -> Option<Val<'_>>;
}

enum IndexIterRepr<'a> {
    Slice(&'a [&'a str]),
    Owned(Vec<&'a str>),
}

/// Iterator over keys in a [`Getter2`], returned by [`keys`](Getter2::keys).
pub struct IndexIter<'a> {
    repr: IndexIterRepr<'a>,
    position: usize,
}

impl Default for IndexIter<'_> {
    fn default() -> (iter: Self)
        ensures
            iter.remaining().len() == 0,
    {
        Self::empty()
    }
}

impl<'a> IndexIter<'a> {
    /// All keys of the iterator, those that it has yielded too.
    pub closed spec fn all(&self) -> Seq<&'a str> {
        match self.repr {
            IndexIterRepr::Slice(slice) => slice@,
            IndexIterRepr::Owned(keys) => keys@,
        }
    }

    /// The position among the keys never leaves them.
    #[verifier::type_invariant]
    spec fn wf(&self) -> bool {
        self.position <= self.all().len()
    }

    /// The keys that the iterator has still to yield, in their order.
    pub closed spec fn remaining(&self) -> Seq<&'a str> {
        self.all().skip(self.position as int)
    }

    /// Creates an iterator that will not yield any values.
    pub fn empty() -> (iter: Self)
        ensures
            iter.remaining().len() == 0,
    {
        Self { repr: IndexIterRepr::Owned(Vec::new()), position: 0 }
    }

    /// Creates an iterator that yields from the provided `iter`.
    ///
    /// The keys are taken from `iter` at once, so `iter` has to come to an
    /// end.
    pub fn new<I>(iter: I) -> (keys: Self) where I: Iterator<Item = &'a str> + 'a
        requires
            iter.obeys_prophetic_iter_laws(),
            iter.decrease() is Some,
        ensures
            keys.remaining() == iter.remaining(),
    {
        let mut iter = iter;
        let mut keys: Vec<&'a str> = Vec::new();
        let ghost all = iter.remaining();
        loop
            invariant
                iter.obeys_prophetic_iter_laws(),
                iter.decrease() is Some,
                keys@ + iter.remaining() == all,
            ensures
                keys@ == all,
            decreases iter.decrease()->0,
        {
            match iter.next() {
                Some(key) => {
                    keys.push(key);
                },
                None => {
                    break ;
                },
            }
        }
        Self { repr: IndexIterRepr::Owned(keys), position: 0 }
    }

    /// Creates an iterator that yields the elements of the provided `slice`.
    pub fn from_slice(slice: &'a [&'a str]) -> (iter: Self)
        ensures
            iter.remaining() == slice@,
    {
        Self { repr: IndexIterRepr::Slice(slice), position: 0 }
    }

    /// Returns the number of keys, yielded or not.
    fn total(&self) -> (total: usize)
        ensures
            total == self.all().len(),
    {
        match &self.repr {
            IndexIterRepr::Slice(slice) => slice.len(),
            IndexIterRepr::Owned(keys) => keys.len(),
        }
    }

    /// Returns the key at `position`, counted from the first of all keys.
    fn at(&self, position: usize) -> (key: &'a str)
        requires
            position < self.all().len(),
        ensures
            key == self.all()[position as int],
    {
        match &self.repr {
            IndexIterRepr::Slice(slice) => slice[position],
            IndexIterRepr::Owned(keys) => keys[position],
        }
    }

    /// Yields the next key, or `None` once there is none left.
    pub fn next(&mut self) -> (key: Option<&'a str>)
        ensures
            old(self).remaining().len() > 0 ==> key == Some(old(self).remaining()[0])
                && final(self).remaining() == old(self).remaining().drop_first(),
            old(self).remaining().len() == 0 ==> key.is_none() && final(self).remaining()
                == old(self).remaining(),
    {
        proof {
            use_type_invariant(&*self);
        }
        if self.position < self.total() {
            let key = self.at(self.position);
            self.position += 1;
            assert(self.remaining() =~= old(self).remaining().drop_first());
            Some(key)
        } else {
            None
        }
    }

    /// Returns the bounds on the number of keys that are left: the exact
    /// number, twice.
    pub fn size_hint(&self) -> (hint: (usize, Option<usize>))
        ensures
            hint.0 == self.remaining().len(),
            hint.1 == Some(hint.0),
    {
        proof {
            use_type_invariant(self);
        }
        let left = self.total() - self.position;
        (left, Some(left))
    }

    /// Consumes the iterator and returns the number of keys that were left.
    pub fn count(self) -> (count: usize)
        ensures
            count == self.remaining().len(),
    {
        proof {
            use_type_invariant(&self);
        }
        self.total() - self.position
    }

    /// Skips `n` keys and yields the one after them. Where fewer than
    /// `n + 1` keys are left it uses them up and returns `None`.
    pub fn nth(&mut self, n: usize) -> (key: Option<&'a str>)
        ensures
            n < old(self).remaining().len() ==> key == Some(old(self).remaining()[n as int])
                && final(self).remaining() == old(self).remaining().skip(n + 1),
            n >= old(self).remaining().len() ==> key.is_none() && final(self).remaining().len()
                == 0,
    {
        proof {
            use_type_invariant(&*self);
        }
        let total = self.total();
        if n < total - self.position {
            let key = self.at(self.position + n);
            self.position = self.position + n + 1;
            assert(self.remaining() =~= old(self).remaining().skip(n + 1));
            Some(key)
        } else {
            self.position = total;
            None
        }
    }
}

/// The position of the first dot in `path`, or the length of `path` where
/// it holds none.
pub open spec fn first_dot(path: Seq<char>) -> int
    decreases path.len(),
{
    if path.len() == 0 || path[0] == '.' {
        0
    } else {
        1 + first_dot(path.drop_first())
    }
}

/// The components of `path`: what stands between its dots. A path without a
/// dot is its own single component, and two dots in a row enclose an empty
/// one.
pub open spec fn split_path(path: Seq<char>) -> Seq<Seq<char>>
    decreases path.len(),
{
    let dot = first_dot(path);
    if 0 <= dot < path.len() {
        seq![path.take(dot)].add(split_path(path.skip(dot + 1)))
    } else {
        seq![path]
    }
}

/// In a path that starts with `dot` characters other than a dot, the first
/// dot is at `dot` or, where the path ends there, nowhere.
proof fn lemma_first_dot(path: Seq<char>, dot: int)
    requires
        0 <= dot <= path.len(),
        forall|i: int| 0 <= i < dot ==> path[i] != '.',
        dot < path.len() ==> path[dot] == '.',
    ensures
        first_dot(path) == dot,
    decreases dot,
{
    if dot > 0 {
        let rest = path.drop_first();
        assert forall|i: int| 0 <= i < dot - 1 implies rest[i] != '.' by {
            assert(rest[i] == path[i + 1]);
        }
        lemma_first_dot(rest, dot - 1);
    }
}

/// Splits `path` at its dots, as the paths of [`Getter`] are written.
pub fn path_components(path: &str) -> (components: Vec<&str>)
    ensures
        components@.len() == split_path(path@).len(),
        forall|i: int|
            0 <= i < components@.len() ==> (#[trigger] components@[i])@ == split_path(path@)[i],
{
    let length = path.unicode_len();
    let mut components: Vec<&str> = Vec::new();
    let mut start: usize = 0;
    let mut i: usize = 0;
    assert(path@.skip(0) =~= path@);
    while i < length
        invariant
            length == path@.len(),
            start <= i <= length,
            forall|j: int| start <= j < i ==> path@[j] != '.',
            split_path(path@).len() == components@.len() + split_path(
                path@.skip(start as int),
            ).len(),
            forall|j: int|
                0 <= j < components@.len() ==> (#[trigger] components@[j])@ == split_path(
                    path@,
                )[j],
            forall|j: int|
                0 <= j < split_path(path@.skip(start as int)).len() ==> split_path(
                    path@,
                )[components@.len() + j] == #[trigger] split_path(path@.skip(start as int))[j],
        decreases length - i,
    {
        if path.get_char(i) == '.' {
            let component = path.substring_char(start, i);
            proof {
                let rest = path@.skip(start as int);
                lemma_first_dot(rest, i - start);
                assert(rest.take(i - start) =~= path@.subrange(start as int, i as int));
                assert(rest.skip(i - start + 1) =~= path@.skip(i + 1));
                let tail = split_path(path@.skip(i + 1));
                assert(split_path(rest) == seq![component@].add(tail));
                assert(split_path(rest)[0] == component@);
                assert forall|j: int| 0 <= j < tail.len() implies split_path(
                    path@,
                )[components@.len() + 1 + j] == #[trigger] tail[j] by {
                    assert(split_path(rest)[j + 1] == tail[j]);
                }
            }
            components.push(component);
            start = i + 1;
        }
        i += 1;
    }
    let component = path.substring_char(start, length);
    proof {
        let rest = path@.skip(start as int);
        lemma_first_dot(rest, length - start);
        assert(rest =~= path@.subrange(start as int, length as int));
        assert(split_path(rest) == seq![rest]);
        assert(split_path(rest)[0] == component@);
    }
    components.push(component);
    components
}

/// Implemented for all meta structures.
pub trait FromValue: std::fmt::Debug {
    /// Creates a meta structure from an annotated boxed value.
    fn from_value(value: Annotated<Value>) -> Annotated<Self> where Self: Sized;
}

/// Implemented for all meta structures.
pub trait IntoValue: std::fmt::Debug + Empty {
    /// Boxes the meta structure back into a value.
    fn into_value(self) -> Value where Self: Sized;

    /// Extracts children meta map out of a value.
    fn extract_child_meta(&self) -> (children: MetaMap) where Self: Sized
        default_ensures
            children@ == Map::<String, MetaTree>::empty(),
    {
        MetaMap::new()
    }

    /// Extracts the meta tree out of annotated value.
    ///
    /// This should not be overridden by implementators, instead `extract_child_meta`
    /// should be provided instead.
    fn extract_meta_tree(value: &Annotated<Self>) -> (tree: MetaTree) where Self: Sized
        default_ensures
            tree.meta == value.1,
            value.0 matches Some(inner) ==> call_ensures(
                Self::extract_child_meta,
                (&inner,),
                tree.children,
            ),
            value.0.is_none() ==> tree.children@ == Map::<String, MetaTree>::empty(),
    {
        MetaTree {
            meta: value.1,
            children: match value.0 {
                Some(ref value) => IntoValue::extract_child_meta(value),
                None => MetaMap::new(),
            },
        }
    }
}

} // verus!
