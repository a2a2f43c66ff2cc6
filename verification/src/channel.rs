//! The non-temporal channel: a four-way buffer facade (unbounded/bounded ×
//! consume/dispatch) behind a container that carries the handle protocol —
//! sender and receiver counts, the monotone receiver-index allocator, and
//! the sender / receiver / observer handle operations.

use vstd::prelude::*;

use crate::buffer::consume_read_count;
use crate::buffer::keep_last;
use crate::buffer::BoundedBuffer;
use crate::buffer::UnboundedBuffer;
use crate::dispatch::clamp_sub;
use crate::dispatch::cursor_or_zero;
use crate::dispatch::batch_read_len;
use crate::dispatch::overflow_count;
use crate::dispatch::BoundedDispatchBuffer;
use crate::dispatch::UnboundedDispatchBuffer;
use crate::vec_utils::query_range;

verus! {

/// The storage a buffer holds after appending onto `s`, given its capacity.
pub open spec fn capped<T>(s: Seq<T>, cap: Option<nat>) -> Seq<T> {
    match cap {
        Option::None => s,
        Option::Some(c) => keep_last(s, c),
    }
}

/// How far cursors shift down when an append leaves `len_after` items in a
/// buffer of capacity `cap`.
pub open spec fn cap_shift(len_after: nat, cap: Option<nat>) -> nat {
    match cap {
        Option::None => 0,
        Option::Some(c) => overflow_count(len_after, c),
    }
}

/// The four non-temporal buffer shapes behind one surface.
pub enum AnyBuffer<T> {
    UnboundedBuffer(UnboundedBuffer<T>),
    BoundedBuffer(BoundedBuffer<T>),
    UnboundedDispatchBuffer(UnboundedDispatchBuffer<T>),
    BoundedDispatchBuffer(BoundedDispatchBuffer<T>),
}

impl<T: Copy> AnyBuffer<T> {
    /// The retained items, oldest first.
    pub closed spec fn storage(&self) -> Seq<T> {
        match self {
            AnyBuffer::UnboundedBuffer(b) => b.contents(),
            AnyBuffer::BoundedBuffer(b) => b.contents(),
            AnyBuffer::UnboundedDispatchBuffer(b) => b.storage(),
            AnyBuffer::BoundedDispatchBuffer(b) => b.storage(),
        }
    }

    /// Receiver index to cursor position; empty for consume shapes.
    pub closed spec fn cursors(&self) -> Map<usize, usize> {
        match self {
            AnyBuffer::UnboundedBuffer(_) => Map::empty(),
            AnyBuffer::BoundedBuffer(_) => Map::empty(),
            AnyBuffer::UnboundedDispatchBuffer(b) => b.cursors(),
            AnyBuffer::BoundedDispatchBuffer(b) => b.cursors(),
        }
    }

    /// Whether receivers own independent cursors (broadcast delivery).
    pub closed spec fn is_dispatch(&self) -> bool {
        match self {
            AnyBuffer::UnboundedBuffer(_) => false,
            AnyBuffer::BoundedBuffer(_) => false,
            AnyBuffer::UnboundedDispatchBuffer(_) => true,
            AnyBuffer::BoundedDispatchBuffer(_) => true,
        }
    }

    /// The capacity, where the shape has one.
    pub closed spec fn cap(&self) -> Option<nat> {
        match self {
            AnyBuffer::UnboundedBuffer(_) => None,
            AnyBuffer::BoundedBuffer(b) => Some(b.cap()),
            AnyBuffer::UnboundedDispatchBuffer(_) => None,
            AnyBuffer::BoundedDispatchBuffer(b) => Some(b.cap()),
        }
    }

    /// The items receiver `i` has yet to read: everything past its cursor
    /// (in consume shapes, the whole storage).
    pub open spec fn remaining(&self, i: usize) -> Seq<T> {
        self.storage().skip(cursor_or_zero(self.cursors(), i) as int)
    }

    pub closed spec fn wf(&self) -> bool {
        match self {
            AnyBuffer::UnboundedBuffer(_) => true,
            AnyBuffer::BoundedBuffer(b) => b.wf(),
            AnyBuffer::UnboundedDispatchBuffer(b) => b.wf(),
            AnyBuffer::BoundedDispatchBuffer(b) => b.wf(),
        }
    }

    /// The slowest cursor sits at the base: whenever any cursor exists,
    /// some cursor is 0.
    pub open spec fn base_compacted(&self) -> bool {
        !self.cursors().dom().is_empty() ==> exists|k: usize|
            self.cursors().dom().contains(k) && #[trigger] self.cursors()[k] == 0
    }

    /// `wf` carries the compaction invariant.
    pub proof fn lemma_wf_base_compacted(&self)
        requires
            self.wf(),
        ensures
            self.base_compacted(),
    {
        match self {
            AnyBuffer::UnboundedBuffer(_) => {
                assert(self.cursors().dom() =~= Set::<usize>::empty());
            },
            AnyBuffer::BoundedBuffer(_) => {
                assert(self.cursors().dom() =~= Set::<usize>::empty());
            },
            AnyBuffer::UnboundedDispatchBuffer(b) => b.lemma_wf_base_compacted(),
            AnyBuffer::BoundedDispatchBuffer(b) => b.lemma_wf_base_compacted(),
        }
    }

    /// Build the shape selected by `bounded` and `dispatch`.
    pub fn new(bounded: Option<usize>, dispatch: bool) -> (r: Self)
        ensures
            r.storage() == Seq::<T>::empty(),
            r.cursors() == Map::<usize, usize>::empty(),
            r.is_dispatch() == dispatch,
            r.cap() == (match bounded {
                Option::None => None::<nat>,
                Option::Some(b) => Some(b as nat),
            }),
            r.wf(),
    {
        match (bounded, dispatch) {
            (Some(b), false) => AnyBuffer::BoundedBuffer(BoundedBuffer::new(b)),
            (None, false) => AnyBuffer::UnboundedBuffer(UnboundedBuffer::new()),
            (Some(b), true) => AnyBuffer::BoundedDispatchBuffer(BoundedDispatchBuffer::new(b)),
            (None, true) => AnyBuffer::UnboundedDispatchBuffer(UnboundedDispatchBuffer::new()),
        }
    }

    /// Append one item; bounded shapes drop their oldest on overflow and
    /// shift cursors accordingly.
    pub fn send(&mut self, data: T)
        requires
            old(self).wf(),
        ensures
            final(self).wf(),
            final(self).is_dispatch() == old(self).is_dispatch(),
            final(self).cap() == old(self).cap(),
            final(self).storage() == capped(old(self).storage().push(data), old(self).cap()),
            final(self).cursors().dom() == old(self).cursors().dom(),
            forall|k: usize|
                old(self).cursors().dom().contains(k) ==> #[trigger] final(self).cursors()[k]
                    == clamp_sub(
                    old(self).cursors()[k],
                    cap_shift(old(self).storage().len() + 1, old(self).cap()),
                ),
    {
        match self {
            AnyBuffer::UnboundedBuffer(b) => b.send(data),
            AnyBuffer::BoundedBuffer(b) => b.send(data),
            AnyBuffer::UnboundedDispatchBuffer(b) => b.send(data),
            AnyBuffer::BoundedDispatchBuffer(b) => b.send(data),
        }
    }

    /// Append a batch; bounded shapes keep the last `cap` of the combined
    /// sequence and shift cursors accordingly.
    pub fn send_items(&mut self, data: Vec<T>)
        requires
            old(self).wf(),
        ensures
            final(self).wf(),
            final(self).is_dispatch() == old(self).is_dispatch(),
            final(self).cap() == old(self).cap(),
            final(self).storage() == capped(old(self).storage() + data@, old(self).cap()),
            final(self).cursors().dom() == old(self).cursors().dom(),
            forall|k: usize|
                old(self).cursors().dom().contains(k) ==> #[trigger] final(self).cursors()[k]
                    == clamp_sub(
                    old(self).cursors()[k],
                    cap_shift(old(self).storage().len() + data@.len(), old(self).cap()),
                ),
    {
        match self {
            AnyBuffer::UnboundedBuffer(b) => b.send_items(data),
            AnyBuffer::BoundedBuffer(b) => b.send_items(data),
            AnyBuffer::UnboundedDispatchBuffer(b) => b.send_items(data),
            AnyBuffer::BoundedDispatchBuffer(b) => b.send_items(data),
        }
    }

    /// Read one item for receiver `i`: consume shapes remove the head,
    /// dispatch shapes copy under `i`'s cursor, advance it and compact.
    pub fn recv(&mut self, recver_index: usize) -> (r: Option<T>)
        requires
            old(self).wf(),
        ensures
            final(self).wf(),
            final(self).is_dispatch() == old(self).is_dispatch(),
            final(self).cap() == old(self).cap(),
            r == (if old(self).remaining(recver_index).len() > 0 {
                Some(old(self).remaining(recver_index)[0])
            } else {
                None::<T>
            }),
            final(self).remaining(recver_index) == old(self).remaining(recver_index).skip(
                if r is Some {
                    1int
                } else {
                    0int
                },
            ),
            forall|j: usize|
                j != recver_index && old(self).cursors().dom().contains(j) ==> final(self).remaining(j) == old(self).remaining(j),
            old(self).is_dispatch() ==> final(self).cursors().dom() == old(self).cursors().dom().insert(recver_index) && (exists|k: usize|
                final(self).cursors().dom().contains(k) && #[trigger] final(self).cursors()[k]
                    == 0),
            !old(self).is_dispatch() ==> final(self).cursors() == old(self).cursors() && final(self).storage() == old(self).storage().skip(
                if r is Some {
                    1int
                } else {
                    0int
                },
            ),
            final(self).storage().len() <= old(self).storage().len(),
            final(self).storage() == old(self).storage().skip(
                old(self).storage().len() - final(self).storage().len(),
            ),
    {
        let ghost pre = *self;
        let r = match self {
            AnyBuffer::UnboundedBuffer(b) => b.recv(),
            AnyBuffer::BoundedBuffer(b) => b.recv(),
            AnyBuffer::UnboundedDispatchBuffer(b) => b.recv(recver_index),
            AnyBuffer::BoundedDispatchBuffer(b) => b.recv(recver_index),
        };
        proof {
            if !pre.is_dispatch() {
                assert(pre.remaining(recver_index) =~= pre.storage());
                assert(self.remaining(recver_index) =~= self.storage());
                if r is Some {
                    assert(self.storage() =~= pre.remaining(recver_index).skip(1));
                } else {
                    assert(self.storage() =~= pre.remaining(recver_index).skip(0));
                }
                assert(self.storage() =~= pre.storage().skip(
                    pre.storage().len() - self.storage().len(),
                ));
            }
            if pre.is_dispatch() {
                assert forall|j: usize|
                    j != recver_index && pre.cursors().dom().contains(j) implies #[trigger] self.remaining(
                    j,
                ) == pre.remaining(j) by {
                    if pre is UnboundedDispatchBuffer {
                        assert(self->UnboundedDispatchBuffer_0.remaining(j)
                            == pre->UnboundedDispatchBuffer_0.remaining(j));
                    } else {
                        assert(self->BoundedDispatchBuffer_0.remaining(j)
                            == pre->BoundedDispatchBuffer_0.remaining(j));
                    }
                }
            }
        }
        r
    }

    /// Read up to `recv_count` items for receiver `i`, under the consume or
    /// dispatch batch policy of the shape.
    pub fn recv_count(&mut self, recver_index: usize, recv_count: usize, force_count: bool) -> (r:
        Vec<T>)
        requires
            old(self).wf(),
        ensures
            final(self).wf(),
            final(self).is_dispatch() == old(self).is_dispatch(),
            final(self).cap() == old(self).cap(),
            !old(self).is_dispatch() ==> r@ == old(self).storage().take(
                consume_read_count(old(self).storage().len(), recv_count, force_count) as int,
            ),
            old(self).is_dispatch() ==> r@ == old(self).remaining(recver_index).take(
                batch_read_len(
                    old(self).remaining(recver_index).len(),
                    recv_count,
                    force_count,
                ) as int,
            ),
            final(self).remaining(recver_index) == old(self).remaining(recver_index).skip(
                r@.len() as int,
            ),
            forall|j: usize|
                j != recver_index && old(self).cursors().dom().contains(j) ==> final(self).remaining(j) == old(self).remaining(j),
            old(self).is_dispatch() ==> final(self).cursors().dom() == old(self).cursors().dom().insert(recver_index),
            !old(self).is_dispatch() ==> final(self).cursors() == old(self).cursors() && final(self).storage() == old(self).storage().skip(r@.len() as int),
            final(self).storage().len() <= old(self).storage().len(),
            final(self).storage() == old(self).storage().skip(
                old(self).storage().len() - final(self).storage().len(),
            ),
    {
        let ghost pre = *self;
        let r = match self {
            AnyBuffer::UnboundedBuffer(b) => b.recv_count(recv_count, force_count),
            AnyBuffer::BoundedBuffer(b) => b.recv_count(recv_count, force_count),
            AnyBuffer::UnboundedDispatchBuffer(b) => b.recv_count(
                recver_index,
                recv_count,
                force_count,
            ),
            AnyBuffer::BoundedDispatchBuffer(b) => b.recv_count(
                recver_index,
                recv_count,
                force_count,
            ),
        };
        proof {
            if !pre.is_dispatch() {
                assert(pre.remaining(recver_index) =~= pre.storage());
                assert(self.remaining(recver_index) =~= self.storage());
                assert(self.storage() =~= pre.remaining(recver_index).skip(r@.len() as int));
                assert(self.storage() =~= pre.storage().skip(
                    pre.storage().len() - self.storage().len(),
                ));
            }
            if pre.is_dispatch() {
                assert forall|j: usize|
                    j != recver_index && pre.cursors().dom().contains(j) implies #[trigger] self.remaining(
                    j,
                ) == pre.remaining(j) by {
                    if pre is UnboundedDispatchBuffer {
                        assert(self->UnboundedDispatchBuffer_0.remaining(j)
                            == pre->UnboundedDispatchBuffer_0.remaining(j));
                    } else {
                        assert(self->BoundedDispatchBuffer_0.remaining(j)
                            == pre->BoundedDispatchBuffer_0.remaining(j));
                    }
                }
            }
        }
        r
    }

    /// A copy of the retained items in `[start, end)`, regardless of
    /// cursors.
    pub fn query_items(&self, start: usize, end: Option<usize>) -> (r: Vec<T>)
        ensures
            r@ == query_range(self.storage(), start, end),
    {
        match self {
            AnyBuffer::UnboundedBuffer(b) => b.query_items(start, end),
            AnyBuffer::BoundedBuffer(b) => b.query_items(start, end),
            AnyBuffer::UnboundedDispatchBuffer(b) => b.query_items(start, end),
            AnyBuffer::BoundedDispatchBuffer(b) => b.query_items(start, end),
        }
    }

    /// How many items receiver `i` has yet to read.
    pub fn len(&self, recver_index: usize) -> (r: usize)
        requires
            self.wf(),
        ensures
            r == self.remaining(recver_index).len(),
    {
        let r = match self {
            AnyBuffer::UnboundedBuffer(b) => b.len(),
            AnyBuffer::BoundedBuffer(b) => b.len(),
            AnyBuffer::UnboundedDispatchBuffer(b) => b.len(recver_index),
            AnyBuffer::BoundedDispatchBuffer(b) => b.len(recver_index),
        };
        proof {
            if !self.is_dispatch() {
                assert(self.remaining(recver_index) =~= self.storage());
            }
        }
        r
    }

    /// Install a cursor for receiver `i`; a no-op on consume shapes.
    pub fn new_receiver(&mut self, recver_index: usize)
        requires
            old(self).wf(),
        ensures
            final(self).wf(),
            final(self).is_dispatch() == old(self).is_dispatch(),
            final(self).cap() == old(self).cap(),
            final(self).storage() == old(self).storage(),
            old(self).is_dispatch() ==> final(self).cursors() == old(self).cursors().insert(
                recver_index,
                0,
            ),
            !old(self).is_dispatch() ==> final(self).cursors() == old(self).cursors(),
    {
        match self {
            AnyBuffer::UnboundedBuffer(_) => {},
            AnyBuffer::BoundedBuffer(_) => {},
            AnyBuffer::UnboundedDispatchBuffer(b) => b.new_receiver(recver_index),
            AnyBuffer::BoundedDispatchBuffer(b) => b.new_receiver(recver_index),
        }
    }

    /// Remove receiver `i`'s cursor and compact; a no-op on consume shapes.
    pub fn drop_receiver(&mut self, recver_index: usize)
        requires
            old(self).wf(),
        ensures
            final(self).wf(),
            final(self).is_dispatch() == old(self).is_dispatch(),
            final(self).cap() == old(self).cap(),
            final(self).cursors().dom() == old(self).cursors().dom().remove(recver_index),
            forall|j: usize|
                j != recver_index && old(self).cursors().dom().contains(j) ==> final(self).remaining(j) == old(self).remaining(j),
            !old(self).is_dispatch() ==> final(self).storage() == old(self).storage() && final(self).cursors() == old(self).cursors(),
            final(self).storage().len() <= old(self).storage().len(),
            final(self).storage() == old(self).storage().skip(
                old(self).storage().len() - final(self).storage().len(),
            ),
    {
        let ghost pre = *self;
        match self {
            AnyBuffer::UnboundedBuffer(_) => {},
            AnyBuffer::BoundedBuffer(_) => {},
            AnyBuffer::UnboundedDispatchBuffer(b) => b.drop_receiver(recver_index),
            AnyBuffer::BoundedDispatchBuffer(b) => b.drop_receiver(recver_index),
        }
        proof {
            if !pre.is_dispatch() {
                assert(pre.cursors().dom().remove(recver_index) =~= pre.cursors().dom());
                assert(self.storage() =~= pre.storage().skip(
                    pre.storage().len() - self.storage().len(),
                ));
            }
            if pre.is_dispatch() {
                assert forall|j: usize|
                    j != recver_index && pre.cursors().dom().contains(j) implies #[trigger] self.remaining(
                    j,
                ) == pre.remaining(j) by {
                    if pre is UnboundedDispatchBuffer {
                        assert(self->UnboundedDispatchBuffer_0.remaining(j)
                            == pre->UnboundedDispatchBuffer_0.remaining(j));
                    } else {
                        assert(self->BoundedDispatchBuffer_0.remaining(j)
                            == pre->BoundedDispatchBuffer_0.remaining(j));
                    }
                }
            }
        }
    }
}

/// The shared state of a non-temporal channel: the buffer, the handle
/// counts, and the monotone receiver-index allocator.  One value of this
/// type is the single critical section all handles act through.
pub struct Channel<T> {
    sender_count: usize,
    receiver_count: usize,
    max_receiver_index: usize,
    buf: AnyBuffer<T>,
}

/// A producer handle: an entitlement counted by `sender_count`.
pub struct Sender {
    marker: (),
}

/// A consumer handle: an index into the channel's cursor table, counted by
/// `receiver_count`.
pub struct Receiver {
    index: usize,
}

impl Receiver {
    /// The receiver index this handle reads under.
    pub closed spec fn id(&self) -> usize {
        self.index
    }
}

/// A read-only handle: counted by `receiver_count`, but owning no cursor —
/// it sees the whole storage and never advances consumption.
pub struct Observer {
    marker: (),
}

impl<T: Copy> Channel<T> {
    /// The buffer under the lock.
    pub closed spec fn buffer(&self) -> AnyBuffer<T> {
        self.buf
    }

    /// How many sender handles are live.
    pub closed spec fn sender_count(&self) -> usize {
        self.sender_count
    }

    /// How many receiver and observer handles are live.
    pub closed spec fn receiver_count(&self) -> usize {
        self.receiver_count
    }

    /// The next receiver index to allocate; strictly monotone, never
    /// reused.
    pub closed spec fn max_receiver_index(&self) -> usize {
        self.max_receiver_index
    }

    /// The buffer is well formed and every cursor belongs to an allocated
    /// receiver index.
    pub open spec fn wf(&self) -> bool {
        self.buffer().wf() && forall|k: usize|
            self.buffer().cursors().dom().contains(k) ==> k < self.max_receiver_index()
    }

    /// The counts of `other` carried over unchanged.
    pub open spec fn counts_unchanged(&self, other: Self) -> bool {
        self.sender_count() == other.sender_count() && self.receiver_count()
            == other.receiver_count() && self.max_receiver_index() == other.max_receiver_index()
    }


    /// The live sender-handle count.
    pub fn live_sender_count(&self) -> (r: usize)
        ensures
            r == self.sender_count(),
    {
        self.sender_count
    }

    /// The live receiver- and observer-handle count.
    pub fn live_receiver_count(&self) -> (r: usize)
        ensures
            r == self.receiver_count(),
    {
        self.receiver_count
    }

    /// The next receiver index that will be allocated.
    pub fn next_receiver_index(&self) -> (r: usize)
        ensures
            r == self.max_receiver_index(),
    {
        self.max_receiver_index
    }

    /// A fresh channel with one sender and one receiver; the receiver
    /// takes index 0 and, in dispatch mode, owns a cursor at the base.
    pub fn new(bounded: Option<usize>, dispatch: bool) -> (r: (Channel<T>, Sender, Receiver))
        ensures
            r.0.wf(),
            r.0.sender_count() == 1,
            r.0.receiver_count() == 1,
            r.0.max_receiver_index() == 1,
            r.0.buffer().storage() == Seq::<T>::empty(),
            dispatch ==> r.0.buffer().cursors() == Map::<usize, usize>::empty().insert(0, 0),
            !dispatch ==> r.0.buffer().cursors() == Map::<usize, usize>::empty(),
            r.0.buffer().is_dispatch() == dispatch,
            r.0.buffer().cap() == (match bounded {
                Option::None => None::<nat>,
                Option::Some(b) => Some(b as nat),
            }),
            r.2.id() == 0,
    {
        let mut buf = AnyBuffer::new(bounded, dispatch);
        buf.new_receiver(0);
        let chan = Channel {
            sender_count: 1,
            receiver_count: 1,
            max_receiver_index: 1,
            buf,
        };
        (chan, Sender { marker: () }, Receiver { index: 0 })
    }

    /// A further sender handle; `sender_count` grows by one.
    pub fn clone_sender(&mut self, _from: &Sender) -> (r: Sender)
        requires
            old(self).sender_count() < usize::MAX,
        ensures
            final(self).sender_count() == old(self).sender_count() + 1,
            final(self).receiver_count() == old(self).receiver_count(),
            final(self).max_receiver_index() == old(self).max_receiver_index(),
            final(self).buffer() == old(self).buffer(),
    {
        self.sender_count = self.sender_count + 1;
        Sender { marker: () }
    }

    /// A further receiver handle under a fresh index, with a cursor at the
    /// current base; `receiver_count` grows by one.
    pub fn clone_receiver(&mut self, _from: &Receiver) -> (r: Receiver)
        requires
            old(self).wf(),
            old(self).receiver_count() < usize::MAX,
            old(self).max_receiver_index() < usize::MAX,
        ensures
            final(self).wf(),
            final(self).sender_count() == old(self).sender_count(),
            final(self).receiver_count() == old(self).receiver_count() + 1,
            final(self).max_receiver_index() == old(self).max_receiver_index() + 1,
            r.id() == old(self).max_receiver_index(),
            final(self).buffer().storage() == old(self).buffer().storage(),
            final(self).buffer().is_dispatch() == old(self).buffer().is_dispatch(),
            final(self).buffer().cap() == old(self).buffer().cap(),
            old(self).buffer().is_dispatch() ==> final(self).buffer().cursors() == old(self).buffer().cursors().insert(r.id(), 0),
            !old(self).buffer().is_dispatch() ==> final(self).buffer().cursors() == old(self).buffer().cursors(),
    {
        self.receiver_count = self.receiver_count + 1;
        let index = self.max_receiver_index;
        self.max_receiver_index = self.max_receiver_index + 1;
        self.buf.new_receiver(index);
        Receiver { index }
    }

    /// Drop a sender handle.  The shared state is to be destroyed exactly
    /// when the returned flag is set: both counts have reached zero.
    pub fn drop_sender(&mut self, handle: Sender) -> (destroy: bool)
        requires
            old(self).sender_count() >= 1,
        ensures
            final(self).sender_count() == old(self).sender_count() - 1,
            final(self).receiver_count() == old(self).receiver_count(),
            final(self).max_receiver_index() == old(self).max_receiver_index(),
            final(self).buffer() == old(self).buffer(),
            destroy == (final(self).sender_count() == 0 && final(self).receiver_count() == 0),
    {
        let _ = handle;
        self.sender_count = self.sender_count - 1;
        self.sender_count == 0 && self.receiver_count == 0
    }

    /// Drop a receiver handle: its cursor is removed (compacting the
    /// storage) and `receiver_count` shrinks.  The shared state is to be
    /// destroyed exactly when the returned flag is set: both counts have
    /// reached zero.
    pub fn drop_receiver_handle(&mut self, handle: Receiver) -> (destroy: bool)
        requires
            old(self).wf(),
            old(self).receiver_count() >= 1,
        ensures
            final(self).wf(),
            final(self).sender_count() == old(self).sender_count(),
            final(self).receiver_count() == old(self).receiver_count() - 1,
            final(self).max_receiver_index() == old(self).max_receiver_index(),
            final(self).buffer().is_dispatch() == old(self).buffer().is_dispatch(),
            final(self).buffer().cap() == old(self).buffer().cap(),
            final(self).buffer().cursors().dom() == old(self).buffer().cursors().dom().remove(
                handle.id(),
            ),
            forall|j: usize|
                j != handle.id() && old(self).buffer().cursors().dom().contains(j) ==> final(self).buffer().remaining(j) == old(self).buffer().remaining(j),
            destroy == (final(self).sender_count() == 0 && final(self).receiver_count() == 0),
    {
        self.buf.drop_receiver(handle.index);
        self.receiver_count = self.receiver_count - 1;
        self.sender_count == 0 && self.receiver_count == 0
    }

    /// Drop an observer handle: `receiver_count` shrinks and the buffer is
    /// untouched.  The shared state is to be destroyed exactly when the
    /// returned flag is set: both counts have reached zero.
    pub fn drop_observer(&mut self, handle: Observer) -> (destroy: bool)
        requires
            old(self).receiver_count() >= 1,
        ensures
            final(self).sender_count() == old(self).sender_count(),
            final(self).receiver_count() == old(self).receiver_count() - 1,
            final(self).max_receiver_index() == old(self).max_receiver_index(),
            final(self).buffer() == old(self).buffer(),
            destroy == (final(self).sender_count() == 0 && final(self).receiver_count() == 0),
    {
        let _ = handle;
        self.receiver_count = self.receiver_count - 1;
        self.sender_count == 0 && self.receiver_count == 0
    }
}

impl Sender {
    /// Append one item to the channel's buffer.
    pub fn send<T: Copy>(&self, chan: &mut Channel<T>, data: T)
        requires
            old(chan).wf(),
        ensures
            final(chan).wf(),
            final(chan).counts_unchanged(*old(chan)),
            final(chan).buffer().is_dispatch() == old(chan).buffer().is_dispatch(),
            final(chan).buffer().cap() == old(chan).buffer().cap(),
            final(chan).buffer().storage() == capped(
                old(chan).buffer().storage().push(data),
                old(chan).buffer().cap(),
            ),
            final(chan).buffer().cursors().dom() == old(chan).buffer().cursors().dom(),
            forall|k: usize|
                old(chan).buffer().cursors().dom().contains(k) ==> #[trigger] final(chan).buffer().cursors()[k] == clamp_sub(
                    old(chan).buffer().cursors()[k],
                    cap_shift(old(chan).buffer().storage().len() + 1, old(chan).buffer().cap()),
                ),
    {
        chan.buf.send(data);
    }

    /// Append a batch to the channel's buffer.
    pub fn send_items<T: Copy>(&self, chan: &mut Channel<T>, data: Vec<T>)
        requires
            old(chan).wf(),
        ensures
            final(chan).wf(),
            final(chan).counts_unchanged(*old(chan)),
            final(chan).buffer().is_dispatch() == old(chan).buffer().is_dispatch(),
            final(chan).buffer().cap() == old(chan).buffer().cap(),
            final(chan).buffer().storage() == capped(
                old(chan).buffer().storage() + data@,
                old(chan).buffer().cap(),
            ),
            final(chan).buffer().cursors().dom() == old(chan).buffer().cursors().dom(),
            forall|k: usize|
                old(chan).buffer().cursors().dom().contains(k) ==> #[trigger] final(chan).buffer().cursors()[k] == clamp_sub(
                    old(chan).buffer().cursors()[k],
                    cap_shift(
                        old(chan).buffer().storage().len() + data@.len(),
                        old(chan).buffer().cap(),
                    ),
                ),
    {
        chan.buf.send_items(data);
    }
}

impl Receiver {
    /// Read one item under this receiver's index.
    pub fn recv<T: Copy>(&self, chan: &mut Channel<T>) -> (r: Option<T>)
        requires
            old(chan).wf(),
            self.id() < old(chan).max_receiver_index(),
        ensures
            final(chan).wf(),
            final(chan).counts_unchanged(*old(chan)),
            final(chan).buffer().is_dispatch() == old(chan).buffer().is_dispatch(),
            final(chan).buffer().cap() == old(chan).buffer().cap(),
            old(chan).buffer().is_dispatch() ==> final(chan).buffer().cursors().dom() == old(chan).buffer().cursors().dom().insert(self.id()),
            r == (if old(chan).buffer().remaining(self.id()).len() > 0 {
                Some(old(chan).buffer().remaining(self.id())[0])
            } else {
                None::<T>
            }),
            final(chan).buffer().remaining(self.id()) == old(chan).buffer().remaining(
                self.id(),
            ).skip(
                if r is Some {
                    1int
                } else {
                    0int
                },
            ),
            forall|j: usize|
                j != self.id() && old(chan).buffer().cursors().dom().contains(j) ==> final(chan).buffer().remaining(j) == old(chan).buffer().remaining(j),
            old(chan).buffer().is_dispatch() ==> (exists|k: usize|
                final(chan).buffer().cursors().dom().contains(k) && #[trigger] final(chan).buffer().cursors()[k] == 0),
            !old(chan).buffer().is_dispatch() ==> final(chan).buffer().cursors() == old(chan).buffer().cursors() && final(chan).buffer().storage() == old(chan).buffer().storage().skip(
                if r is Some {
                    1int
                } else {
                    0int
                },
            ),
            final(chan).buffer().storage().len() <= old(chan).buffer().storage().len(),
    {
        chan.buf.recv(self.index)
    }

    /// Read up to `count` items, only when that many are unread.
    pub fn recv_items<T: Copy>(&self, chan: &mut Channel<T>, count: usize) -> (r: Vec<T>)
        requires
            old(chan).wf(),
            self.id() < old(chan).max_receiver_index(),
        ensures
            final(chan).wf(),
            final(chan).counts_unchanged(*old(chan)),
            final(chan).buffer().is_dispatch() == old(chan).buffer().is_dispatch(),
            final(chan).buffer().cap() == old(chan).buffer().cap(),
            old(chan).buffer().is_dispatch() ==> final(chan).buffer().cursors().dom() == old(chan).buffer().cursors().dom().insert(self.id()),
            !old(chan).buffer().is_dispatch() ==> r@ == old(chan).buffer().storage().take(
                consume_read_count(old(chan).buffer().storage().len(), count, true) as int,
            ),
            old(chan).buffer().is_dispatch() ==> r@ == old(chan).buffer().remaining(
                self.id(),
            ).take(
                batch_read_len(
                    old(chan).buffer().remaining(self.id()).len(),
                    count,
                    true,
                ) as int,
            ),
            !old(chan).buffer().is_dispatch() ==> final(chan).buffer().cursors() == old(chan).buffer().cursors() && final(chan).buffer().storage() == old(chan).buffer().storage().skip(r@.len() as int),
            final(chan).buffer().remaining(self.id()) == old(chan).buffer().remaining(
                self.id(),
            ).skip(r@.len() as int),
            forall|j: usize|
                j != self.id() && old(chan).buffer().cursors().dom().contains(j) ==> final(chan).buffer().remaining(j) == old(chan).buffer().remaining(j),
    {
        chan.buf.recv_count(self.index, count, true)
    }

    /// Read up to `max_count` items, taking whatever is unread when fewer
    /// remain (the soft batch policy).
    pub fn recv_items_weak<T: Copy>(&self, chan: &mut Channel<T>, max_count: usize) -> (r: Vec<T>)
        requires
            old(chan).wf(),
            self.id() < old(chan).max_receiver_index(),
        ensures
            final(chan).wf(),
            final(chan).counts_unchanged(*old(chan)),
            final(chan).buffer().is_dispatch() == old(chan).buffer().is_dispatch(),
            final(chan).buffer().cap() == old(chan).buffer().cap(),
            old(chan).buffer().is_dispatch() ==> final(chan).buffer().cursors().dom() == old(chan).buffer().cursors().dom().insert(self.id()),
            !old(chan).buffer().is_dispatch() ==> r@ == old(chan).buffer().storage().take(
                consume_read_count(old(chan).buffer().storage().len(), max_count, false) as int,
            ),
            old(chan).buffer().is_dispatch() ==> r@ == old(chan).buffer().remaining(
                self.id(),
            ).take(
                batch_read_len(
                    old(chan).buffer().remaining(self.id()).len(),
                    max_count,
                    false,
                ) as int,
            ),
            !old(chan).buffer().is_dispatch() ==> final(chan).buffer().cursors() == old(chan).buffer().cursors() && final(chan).buffer().storage() == old(chan).buffer().storage().skip(r@.len() as int),
            final(chan).buffer().remaining(self.id()) == old(chan).buffer().remaining(
                self.id(),
            ).skip(r@.len() as int),
            forall|j: usize|
                j != self.id() && old(chan).buffer().cursors().dom().contains(j) ==> final(chan).buffer().remaining(j) == old(chan).buffer().remaining(j),
    {
        chan.buf.recv_count(self.index, max_count, false)
    }

    /// How many items this receiver has yet to read.
    pub fn len<T: Copy>(&self, chan: &Channel<T>) -> (r: usize)
        requires
            chan.wf(),
        ensures
            r == chan.buffer().remaining(self.id()).len(),
    {
        chan.buf.len(self.index)
    }

    pub fn is_empty<T: Copy>(&self, chan: &Channel<T>) -> (r: bool)
        requires
            chan.wf(),
        ensures
            r == (chan.buffer().remaining(self.id()).len() == 0),
    {
        chan.buf.len(self.index) == 0
    }

    /// A read-only observer of the same channel.  It counts as a receiver
    /// for lifetime purposes, burns an index, and owns no cursor, so no
    /// receiver's future reads change.
    pub fn get_observer<T: Copy>(&self, chan: &mut Channel<T>) -> (r: Observer)
        requires
            old(chan).wf(),
            old(chan).receiver_count() < usize::MAX,
            old(chan).max_receiver_index() < usize::MAX,
        ensures
            final(chan).wf(),
            final(chan).sender_count() == old(chan).sender_count(),
            final(chan).receiver_count() == old(chan).receiver_count() + 1,
            final(chan).max_receiver_index() == old(chan).max_receiver_index() + 1,
            final(chan).buffer() == old(chan).buffer(),
    {
        chan.receiver_count = chan.receiver_count + 1;
        chan.max_receiver_index = chan.max_receiver_index + 1;
        Observer { marker: () }
    }
}

impl Observer {
    /// The whole live storage length: observers have no cursor.
    pub fn len<T: Copy>(&self, chan: &Channel<T>) -> (r: usize)
        requires
            chan.wf(),
        ensures
            r == chan.buffer().storage().len(),
    {
        proof {
            assert(chan.buffer().remaining(usize::MAX) =~= chan.buffer().storage());
        }
        chan.buf.len(usize::MAX)
    }

    pub fn is_empty<T: Copy>(&self, chan: &Channel<T>) -> (r: bool)
        requires
            chan.wf(),
        ensures
            r == (chan.buffer().storage().len() == 0),
    {
        proof {
            assert(chan.buffer().remaining(usize::MAX) =~= chan.buffer().storage());
        }
        chan.buf.len(usize::MAX) == 0
    }

    /// A copy of the retained items in `[start, end)`; reading moves no
    /// cursor.
    pub fn query_items<T: Copy>(&self, chan: &Channel<T>, start: usize, end: Option<usize>) -> (r:
        Vec<T>)
        ensures
            r@ == query_range(chan.buffer().storage(), start, end),
    {
        chan.buf.query_items(start, end)
    }

    /// A full receiver handle under a fresh index, with a cursor at the
    /// current base.
    pub fn get_receiver<T: Copy>(&self, chan: &mut Channel<T>) -> (r: Receiver)
        requires
            old(chan).wf(),
            old(chan).receiver_count() < usize::MAX,
            old(chan).max_receiver_index() < usize::MAX,
        ensures
            final(chan).wf(),
            final(chan).sender_count() == old(chan).sender_count(),
            final(chan).receiver_count() == old(chan).receiver_count() + 1,
            final(chan).max_receiver_index() == old(chan).max_receiver_index() + 1,
            r.id() == old(chan).max_receiver_index(),
            final(chan).buffer().storage() == old(chan).buffer().storage(),
            final(chan).buffer().is_dispatch() == old(chan).buffer().is_dispatch(),
            final(chan).buffer().cap() == old(chan).buffer().cap(),
            old(chan).buffer().is_dispatch() ==> final(chan).buffer().cursors() == old(chan).buffer().cursors().insert(r.id(), 0),
            !old(chan).buffer().is_dispatch() ==> final(chan).buffer().cursors() == old(chan).buffer().cursors(),
    {
        chan.receiver_count = chan.receiver_count + 1;
        let index = chan.max_receiver_index;
        chan.max_receiver_index = chan.max_receiver_index + 1;
        chan.buf.new_receiver(index);
        Receiver { index }
    }
}

} // verus!
