//! Read-only views into a list of buckets that several owners share.

use std::sync::Arc;
use vstd::prelude::*;

verus! {

/// Calls `Arc::clone`, which returns a second handle to the same allocation:
/// what it points to is what `buffer` points to.
#[verifier::external_body]
fn share<T>(buffer: &Arc<Vec<T>>) -> (shared: Arc<Vec<T>>)
    ensures
        shared == *buffer,
{
    Arc::clone(buffer)
}

/// A view into a shared list of buckets.
///
/// The view covers the positions from `start_index` up to, and without,
/// `end_index` of the buffer it was made from. The buffer is never changed
/// once it is shared, and it lives as long as any view into it.
pub struct BucketsView<T> {
    inner: Arc<Vec<T>>,
    start: usize,
    end: usize,
}

impl<T> View for BucketsView<T> {
    type V = Seq<T>;

    /// The elements that the view covers, in the order of the buffer.
    closed spec fn view(&self) -> Seq<T> {
        self.inner@.subrange(self.start as int, self.end as int)
    }
}

impl<T> Clone for BucketsView<T> {
    /// A second view of the same part of the same buffer. No element is
    /// copied.
    fn clone(&self) -> (view: Self)
        ensures
            view == *self,
    {
        proof {
            use_type_invariant(self);
        }
        Self { inner: share(&self.inner), start: self.start, end: self.end }
    }
}

impl<T> BucketsView<T> {
    /// All elements of the shared buffer, whatever part of it the view covers.
    pub closed spec fn buffer(&self) -> Seq<T> {
        self.inner@
    }

    /// The position in the buffer where the view starts.
    pub closed spec fn start_index(&self) -> int {
        self.start as int
    }

    /// The position in the buffer in front of which the view ends.
    pub closed spec fn end_index(&self) -> int {
        self.end as int
    }

    /// The view lies inside its buffer.
    #[verifier::type_invariant]
    spec fn inside(&self) -> bool {
        self.start <= self.end <= self.inner@.len()
    }

    /// What the view holds is the part of the buffer between its two ends.
    pub proof fn lemma_view(&self)
        ensures
            self@ == self.buffer().subrange(self.start_index(), self.end_index()),
    {
    }

    /// Creates a view of all of `buckets`.
    pub fn new(buckets: Arc<Vec<T>>) -> (view: Self)
        ensures
            view.buffer() == buckets@,
            view.start_index() == 0,
            view.end_index() == buckets@.len(),
            view@ == buckets@,
    {
        let end = buckets.len();
        let view = Self { inner: buckets, start: 0, end };
        assert(view@ =~= buckets@);
        view
    }

    /// Returns the number of elements in the view.
    pub fn len(&self) -> (len: usize)
        ensures
            len == self@.len(),
            len == self.end_index() - self.start_index(),
            0 <= self.start_index() <= self.end_index() <= self.buffer().len(),
    {
        proof {
            use_type_invariant(self);
        }
        self.end - self.start
    }

    /// Returns `true` if the view covers no element.
    pub fn is_empty(&self) -> (empty: bool)
        ensures
            empty == (self@.len() == 0),
    {
        proof {
            use_type_invariant(self);
        }
        self.start == self.end
    }

    /// Returns the element at `index` of the view, counted from the view's
    /// start, or `None` beyond its end.
    pub fn get(&self, index: usize) -> (element: Option<&T>)
        ensures
            index < self@.len() ==> element == Some(&self@[index as int]),
            index >= self@.len() ==> element.is_none(),
    {
        proof {
            use_type_invariant(self);
        }
        if index < self.end - self.start {
            Some(&self.inner[self.start + index])
        } else {
            None
        }
    }

    /// Narrows the view to the positions from `start` up to `end` of the
    /// buffer, which have to lie inside the view.
    pub fn select(self, start: usize, end: usize) -> (view: Self)
        requires
            self.start_index() <= start <= end <= self.end_index(),
        ensures
            view.buffer() == self.buffer(),
            view.start_index() == start,
            view.end_index() == end,
            view@ == self.buffer().subrange(start as int, end as int),
    {
        proof {
            use_type_invariant(&self);
        }
        Self { inner: self.inner, start, end }
    }
}

} // verus!
