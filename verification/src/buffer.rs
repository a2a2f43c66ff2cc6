//! Consume-family buffers: a FIFO queue, either unbounded or bounded with
//! head-drop on overflow.  `recv` removes items; there are no per-receiver
//! cursors, so every receiver competes for the same head.

use vstd::prelude::*;

verus! {

/// The last `cap` items of `s` (all of them when `s` is no longer than `cap`).
pub open spec fn keep_last<T>(s: Seq<T>, cap: nat) -> Seq<T> {
    if s.len() <= cap {
        s
    } else {
        s.skip(s.len() - cap)
    }
}

/// How many items a consume-family `recv_count` removes.
///
/// When `n` items are available they are all taken.  Otherwise the soft mode
/// (`force == false`) asks for the difference `len - n`, which is negative
/// whenever this branch is reached, so the call yields nothing; the strict
/// mode yields nothing as well.
pub open spec fn consume_read_count(len: nat, n: usize, force: bool) -> nat {
    if n <= len {
        n as nat
    } else {
        0
    }
}

/// Remove and return the first `k` items of `v`.
pub(crate) fn take_head<T: Copy>(v: &mut Vec<T>, k: usize) -> (r: Vec<T>)
    requires
        k <= old(v)@.len(),
    ensures
        r@ == old(v)@.take(k as int),
        final(v)@ == old(v)@.skip(k as int),
{
    let mut r: Vec<T> = Vec::new();
    let mut i: usize = 0;
    while i < k
        invariant
            i <= k <= v@.len(),
            r@ == v@.take(i as int),
        decreases k - i,
    {
        r.push(v[i]);
        assert(r@ =~= v@.take(i + 1));
        i = i + 1;
    }
    let tail = v.split_off(k);
    *v = tail;
    assert(r@ =~= old(v)@.take(k as int));
    assert(v@ =~= old(v)@.skip(k as int));
    r
}

/// Drop items from the head of `v` until at most `cap` remain.
pub(crate) fn drop_head_over<T>(v: &mut Vec<T>, cap: usize)
    ensures
        final(v)@ == keep_last(old(v)@, cap as nat),
{
    if v.len() > cap {
        let excess = v.len() - cap;
        let tail = v.split_off(excess);
        *v = tail;
        assert(v@ =~= keep_last(old(v)@, cap as nat));
    }
}

/// An unbounded FIFO queue.
pub struct UnboundedBuffer<T> {
    buf: Vec<T>,
}

impl<T: Copy> UnboundedBuffer<T> {
    /// The queued items, oldest first.
    pub closed spec fn contents(&self) -> Seq<T> {
        self.buf@
    }

    pub fn new() -> (r: Self)
        ensures
            r.contents() == Seq::<T>::empty(),
    {
        UnboundedBuffer { buf: Vec::new() }
    }

    pub fn len(&self) -> (r: usize)
        ensures
            r == self.contents().len(),
    {
        self.buf.len()
    }

    pub fn send(&mut self, data: T)
        ensures
            final(self).contents() == old(self).contents().push(data),
    {
        self.buf.push(data);
    }

    pub fn send_items(&mut self, data: Vec<T>)
        ensures
            final(self).contents() == old(self).contents() + data@,
    {
        let mut data = data;
        self.buf.append(&mut data);
    }

    /// Remove and return the oldest item, or `None` when the queue is empty.
    pub fn recv(&mut self) -> (r: Option<T>)
        ensures
            old(self).contents().len() == 0 ==> r is None && final(self).contents()
                == old(self).contents(),
            old(self).contents().len() > 0 ==> r == Some(old(self).contents()[0])
                && final(self).contents() == old(self).contents().skip(1),
    {
        if self.buf.len() == 0 {
            None
        } else {
            Some(self.buf.remove(0))
        }
    }

    /// Remove and return the head of the queue, `consume_read_count` items long.
    pub fn recv_count(&mut self, recv_count: usize, force_count: bool) -> (r: Vec<T>)
        ensures
            r@ == old(self).contents().take(
                consume_read_count(old(self).contents().len(), recv_count, force_count) as int,
            ),
            final(self).contents() == old(self).contents().skip(
                consume_read_count(old(self).contents().len(), recv_count, force_count) as int,
            ),
    {
        if recv_count <= self.buf.len() {
            take_head(&mut self.buf, recv_count)
        } else {
            assert(self.buf@ =~= self.buf@.skip(0));
            Vec::new()
        }
    }

    /// A copy of the items in `[start, end)`, clamped to the queue.
    pub fn query_items(&self, start: usize, end: Option<usize>) -> (r: Vec<T>)
        ensures
            r@ == crate::vec_utils::query_range(self.contents(), start, end),
    {
        crate::vec_utils::VecExt::query_items(&self.buf, start, end)
    }
}

/// A FIFO queue holding at most `cap` items; overflow drops the oldest.
pub struct BoundedBuffer<T> {
    buf: Vec<T>,
    bounded: usize,
}

impl<T: Copy> BoundedBuffer<T> {
    /// The queued items, oldest first.
    pub closed spec fn contents(&self) -> Seq<T> {
        self.buf@
    }

    /// The capacity this buffer was created with.
    pub closed spec fn cap(&self) -> nat {
        self.bounded as nat
    }

    /// At most `cap` items are ever stored.
    pub open spec fn wf(&self) -> bool {
        self.contents().len() <= self.cap()
    }

    pub fn new(bounded: usize) -> (r: Self)
        ensures
            r.contents() == Seq::<T>::empty(),
            r.cap() == bounded,
            r.wf(),
    {
        BoundedBuffer { buf: Vec::new(), bounded }
    }

    pub fn len(&self) -> (r: usize)
        ensures
            r == self.contents().len(),
    {
        self.buf.len()
    }

    /// Append one item, dropping the oldest when the capacity is exceeded.
    pub fn send(&mut self, data: T)
        requires
            old(self).wf(),
        ensures
            final(self).contents() == keep_last(old(self).contents().push(data), old(self).cap()),
            final(self).cap() == old(self).cap(),
            final(self).wf(),
    {
        self.buf.push(data);
        if self.buf.len() > self.bounded {
            self.buf.remove(0);
            assert(self.buf@ =~= keep_last(old(self).contents().push(data), old(self).cap()));
        }
    }

    /// Append a batch, then drop from the head until at most `cap` remain,
    /// so the last `cap` items of the combined sequence win.
    pub fn send_items(&mut self, data: Vec<T>)
        ensures
            final(self).contents() == keep_last(old(self).contents() + data@, old(self).cap()),
            final(self).cap() == old(self).cap(),
            final(self).wf(),
    {
        let mut data = data;
        self.buf.append(&mut data);
        let cap = self.bounded;
        drop_head_over(&mut self.buf, cap);
    }

    /// Remove and return the oldest item, or `None` when the queue is empty.
    pub fn recv(&mut self) -> (r: Option<T>)
        ensures
            old(self).contents().len() == 0 ==> r is None && final(self).contents()
                == old(self).contents(),
            old(self).contents().len() > 0 ==> r == Some(old(self).contents()[0])
                && final(self).contents() == old(self).contents().skip(1),
            final(self).cap() == old(self).cap(),
            old(self).wf() ==> final(self).wf(),
    {
        if self.buf.len() == 0 {
            None
        } else {
            Some(self.buf.remove(0))
        }
    }

    /// Remove and return the head of the queue, `consume_read_count` items long.
    pub fn recv_count(&mut self, recv_count: usize, force_count: bool) -> (r: Vec<T>)
        ensures
            r@ == old(self).contents().take(
                consume_read_count(old(self).contents().len(), recv_count, force_count) as int,
            ),
            final(self).contents() == old(self).contents().skip(
                consume_read_count(old(self).contents().len(), recv_count, force_count) as int,
            ),
            final(self).cap() == old(self).cap(),
            old(self).wf() ==> final(self).wf(),
    {
        if recv_count <= self.buf.len() {
            take_head(&mut self.buf, recv_count)
        } else {
            assert(self.buf@ =~= self.buf@.skip(0));
            Vec::new()
        }
    }

    /// A copy of the items in `[start, end)`, clamped to the queue.
    pub fn query_items(&self, start: usize, end: Option<usize>) -> (r: Vec<T>)
        ensures
            r@ == crate::vec_utils::query_range(self.contents(), start, end),
    {
        crate::vec_utils::VecExt::query_items(&self.buf, start, end)
    }
}

/// Consume FIFO law: the `i`-th successive `recv` on a queue whose contents
/// are `s` returns `s[i]`, so any set of receivers draining an unbounded
/// consume channel sees the sent items in order.
pub proof fn lemma_consume_fifo<T>(s: Seq<T>, i: int)
    requires
        0 <= i < s.len(),
    ensures
        s.skip(i)[0] == s[i],
        s.skip(i).skip(1) =~= s.skip(i + 1),
{
}

/// Bounded head-drop law: appending `s` to an empty bounded queue of
/// capacity `cap` retains exactly the last `min(|s|, cap)` items of `s`,
/// in order.
pub proof fn lemma_bounded_head_drop<T>(s: Seq<T>, cap: nat)
    ensures
        keep_last(Seq::<T>::empty() + s, cap).len() == if s.len() <= cap {
            s.len()
        } else {
            cap
        },
        forall|j: int|
            0 <= j < keep_last(Seq::<T>::empty() + s, cap).len() ==> keep_last(
                Seq::<T>::empty() + s,
                cap,
            )[j] == s[s.len() - keep_last(Seq::<T>::empty() + s, cap).len() + j],
{
    assert(Seq::<T>::empty() + s =~= s);
}

} // verus!
