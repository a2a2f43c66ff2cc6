//! Bounds-checked half-open slicing of a vector.

use vstd::prelude::*;

verus! {

/// The half-open range of `s` selected by `start` and `end`.
///
/// A missing `end` means the whole tail; an `end` past the sequence is
/// clamped to its length; an empty or inverted range yields the empty
/// sequence.
pub open spec fn query_range<T>(s: Seq<T>, start: usize, end: Option<usize>) -> Seq<T> {
    let stop = match end {
        Some(e) => if e as int <= s.len() { e as int } else { s.len() as int },
        None => s.len() as int,
    };
    if start as int >= s.len() || stop <= start as int {
        Seq::empty()
    } else {
        s.subrange(start as int, stop)
    }
}

/// Copying access to a half-open range of a vector.
pub trait VecExt<T>: Sized {
    /// The elements this container holds, in order.
    spec fn contents(&self) -> Seq<T>;

    /// A copy of the elements in `[start, end)`, clamped to the container.
    fn query_items(&self, start: usize, end: Option<usize>) -> (r: Vec<T>)
        ensures
            r@ == query_range(self.contents(), start, end),
    ;
}

impl<T: Copy> VecExt<T> for Vec<T> {
    open spec fn contents(&self) -> Seq<T> {
        self@
    }

    fn query_items(&self, start: usize, end: Option<usize>) -> (r: Vec<T>)
        ensures
            r@ == query_range(self@, start, end),
    {
        let len = self.len();
        let stop = match end {
            Some(e) => if e <= len { e } else { len },
            None => len,
        };
        let mut r: Vec<T> = Vec::new();
        if start >= len || stop <= start {
            assert(r@ =~= query_range(self@, start, end));
            return r;
        }
        let mut i = start;
        while i < stop
            invariant
                start <= i <= stop <= self@.len(),
                r@ == self@.subrange(start as int, i as int),
            decreases stop - i,
        {
            r.push(self[i]);
            assert(r@ =~= self@.subrange(start as int, i + 1));
            i = i + 1;
        }
        assert(r@ =~= query_range(self@, start, end));
        r
    }
}

} // verus!
