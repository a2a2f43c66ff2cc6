//! Dispatch-family (broadcast) buffers: every receiver owns a cursor into a
//! shared storage sequence, reads copy items and advance only that cursor,
//! and storage is compacted by retiring the prefix every cursor has passed.

use vstd::prelude::*;

use crate::buffer::keep_last;
use crate::cursors::CursorTable;
use crate::vec_utils::query_range;
use crate::vec_utils::VecExt;

verus! {

/// The cursor of receiver `i`, materialized at 0 when absent.
pub open spec fn cursor_or_zero(m: Map<usize, usize>, i: usize) -> nat {
    if m.dom().contains(i) {
        m[i] as nat
    } else {
        0
    }
}

/// How many items a dispatch-family batch read yields for a receiver with
/// `unread` items left: `n` when that many are unread; otherwise, in soft
/// mode, all the unread items; otherwise none.
pub open spec fn batch_read_len(unread: nat, n: usize, force: bool) -> nat {
    if n <= unread {
        n as nat
    } else if !force && unread > 0 {
        unread
    } else {
        0
    }
}

/// A cursor position shifted down by `d`, clamped at 0.
pub open spec fn clamp_sub(c: usize, d: nat) -> nat {
    if c >= d {
        (c - d) as nat
    } else {
        0
    }
}

/// How many items an append onto `total` items drops out of a buffer capped
/// at `cap`.
pub open spec fn overflow_count(total: nat, cap: nat) -> nat {
    if total > cap {
        (total - cap) as nat
    } else {
        0
    }
}

proof fn lemma_skip_skip<T>(s: Seq<T>, a: int, b: int)
    requires
        0 <= a,
        0 <= b,
        a + b <= s.len(),
    ensures
        s.skip(a).skip(b) =~= s.skip(a + b),
{
}

/// Broadcast independence law: receivers read independently.  The `k`-th
/// successive `recv` by a receiver whose unread tail is `s` yields `s[k]`
/// and leaves the tail `s.skip(k + 1)`; together with the `recv` contracts
/// (a read by one receiver leaves every other receiver's unread tail
/// unchanged), each receiver of an unbounded broadcast buffer observes the
/// whole sent sequence in order, however the reads interleave.
pub proof fn lemma_broadcast_independence<T>(s: Seq<T>, k: int)
    requires
        0 <= k < s.len(),
    ensures
        s.skip(k)[0] == s[k],
        s.skip(k).skip(1) =~= s.skip(k + 1),
{
}

/// An unbounded broadcast buffer.
pub struct UnboundedDispatchBuffer<T> {
    buf: Vec<T>,
    receiver_poses: CursorTable,
}

impl<T: Copy> UnboundedDispatchBuffer<T> {
    /// The retained items, oldest first.
    pub closed spec fn storage(&self) -> Seq<T> {
        self.buf@
    }

    /// Receiver index to cursor position.
    pub closed spec fn cursors(&self) -> Map<usize, usize> {
        self.receiver_poses@
    }

    /// The items receiver `i` has not read yet.
    pub open spec fn remaining(&self, i: usize) -> Seq<T> {
        self.storage().skip(cursor_or_zero(self.cursors(), i) as int)
    }

    /// The slowest cursor sits at the base: whenever any cursor exists,
    /// some cursor is 0.  Compaction restores this after every retiring
    /// step, so it holds at every operation boundary.
    pub open spec fn base_compacted(&self) -> bool {
        !self.cursors().dom().is_empty() ==> exists|k: usize|
            self.cursors().dom().contains(k) && #[trigger] self.cursors()[k] == 0
    }

    /// The cursor table is a map and every cursor lies within the storage.
    closed spec fn cursors_wf(&self) -> bool {
        self.receiver_poses.wf() && self.receiver_poses.values_le(self.storage().len())
    }

    /// Well-formed: cursors lie within the storage and the slowest sits at
    /// the base.
    pub closed spec fn wf(&self) -> bool {
        self.cursors_wf() && self.base_compacted()
    }

    /// `wf` carries the compaction invariant.
    pub proof fn lemma_wf_base_compacted(&self)
        requires
            self.wf(),
        ensures
            self.base_compacted(),
    {
    }

    /// Under `wf`, every materialized cursor lies within the storage.
    pub proof fn lemma_cursor_in_range(&self, i: usize)
        requires
            self.wf(),
        ensures
            cursor_or_zero(self.cursors(), i) <= self.storage().len(),
    {
        if self.cursors().dom().contains(i) {
            assert(self.receiver_poses@[i] <= self.storage().len());
        }
    }

    pub fn new() -> (r: Self)
        ensures
            r.storage() == Seq::<T>::empty(),
            r.cursors() == Map::<usize, usize>::empty(),
            r.wf(),
    {
        let r = UnboundedDispatchBuffer { buf: Vec::new(), receiver_poses: CursorTable::new() };
        proof {
            assert(r.cursors().dom() =~= Set::<usize>::empty());
        }
        r
    }

    /// How many items receiver `i` has yet to read; an index without a
    /// cursor (an observer) sees the whole storage.
    pub fn len(&self, recver_index: usize) -> (r: usize)
        requires
            self.wf(),
        ensures
            r == self.remaining(recver_index).len(),
    {
        let cur = match self.receiver_poses.get(recver_index) {
            Some(c) => c,
            None => 0,
        };
        self.buf.len() - cur
    }

    pub fn send(&mut self, data: T)
        requires
            old(self).wf(),
        ensures
            final(self).wf(),
            final(self).storage() == old(self).storage().push(data),
            final(self).cursors() == old(self).cursors(),
    {
        self.buf.push(data);
    }

    pub fn send_items(&mut self, data: Vec<T>)
        requires
            old(self).wf(),
        ensures
            final(self).wf(),
            final(self).storage() == old(self).storage() + data@,
            final(self).cursors() == old(self).cursors(),
    {
        let mut data = data;
        self.buf.append(&mut data);
    }

    /// Copy the item under receiver `i`'s cursor and advance it, then
    /// compact.  Other receivers' unread items are untouched.
    pub fn recv(&mut self, recver_index: usize) -> (r: Option<T>)
        requires
            old(self).wf(),
        ensures
            final(self).wf(),
            r == (if old(self).remaining(recver_index).len() > 0 {
                Some(old(self).remaining(recver_index)[0])
            } else {
                None::<T>
            }),
            final(self).cursors().dom() == old(self).cursors().dom().insert(recver_index),
            final(self).remaining(recver_index) == old(self).remaining(recver_index).skip(
                if old(self).remaining(recver_index).len() > 0 {
                    1int
                } else {
                    0int
                },
            ),
            forall|j: usize|
                j != recver_index && old(self).cursors().dom().contains(j) ==> final(self).remaining(j) == old(self).remaining(j),
            exists|k: usize|
                final(self).cursors().dom().contains(k) && #[trigger] final(self).cursors()[k]
                    == 0,
            final(self).storage().len() <= old(self).storage().len(),
            final(self).storage() == old(self).storage().skip(
                old(self).storage().len() - final(self).storage().len(),
            ),
    {
        let cur = self.receiver_poses.get_or_insert_zero(recver_index);
        proof {
            if !old(self).cursors().dom().contains(recver_index) {
                assert(self.cursors()[recver_index] == 0);
            }
        }
        let mut ret: Option<T> = None;
        if cur < self.buf.len() {
            ret = Some(self.buf[cur]);
            self.receiver_poses.set_existing(recver_index, cur + 1);
        }
        proof {
            assert(self.buf@.skip(cur as int) == old(self).remaining(recver_index));
            if old(self).remaining(recver_index).len() > 0 {
                assert(self.buf@.skip(cur + 1int) =~= old(self).remaining(recver_index).skip(1));
            } else {
                assert(old(self).remaining(recver_index).skip(0) =~= old(self).remaining(
                    recver_index,
                ));
            }
        }
        proof {
            assert(!self.cursors().dom().is_empty()) by {
                assert(self.cursors().dom().contains(recver_index));
            }
        }
        self.reset_cache_base();
        proof {
            assert(self.cursors().dom() =~= old(self).cursors().dom().insert(recver_index));
        }
        ret
    }

    /// Copy `batch_read_len` items starting at receiver `i`'s cursor and
    /// advance it; compaction runs only when something was read.
    pub fn recv_count(&mut self, recver_index: usize, recv_count: usize, force_count: bool) -> (r:
        Vec<T>)
        requires
            old(self).wf(),
        ensures
            final(self).wf(),
            r@ == old(self).remaining(recver_index).take(
                batch_read_len(
                    old(self).remaining(recver_index).len(),
                    recv_count,
                    force_count,
                ) as int,
            ),
            final(self).cursors().dom() == old(self).cursors().dom().insert(recver_index),
            final(self).remaining(recver_index) == old(self).remaining(recver_index).skip(
                r@.len() as int,
            ),
            forall|j: usize|
                j != recver_index && old(self).cursors().dom().contains(j) ==> final(self).remaining(j) == old(self).remaining(j),
            r@.len() > 0 ==> exists|k: usize|
                final(self).cursors().dom().contains(k) && #[trigger] final(self).cursors()[k]
                    == 0,
            r@.len() == 0 ==> final(self).storage() == old(self).storage(),
            final(self).storage().len() <= old(self).storage().len(),
            final(self).storage() == old(self).storage().skip(
                old(self).storage().len() - final(self).storage().len(),
            ),
    {
        let cur = self.receiver_poses.get_or_insert_zero(recver_index);
        proof {
            if !old(self).cursors().dom().contains(recver_index) {
                assert(self.cursors()[recver_index] == 0);
            }
        }
        let len = self.buf.len();
        proof {
            if old(self).cursors().dom().contains(recver_index) {
                assert(old(self).cursors()[recver_index] <= old(self).storage().len());
            }
            assert(cur <= len);
            assert(old(self).remaining(recver_index).len() == len - cur);
        }
        let read_count = if recv_count <= len && cur <= len - recv_count {
            recv_count
        } else if !force_count && cur < len {
            len - cur
        } else {
            proof {
                assert(self.storage().skip(0) =~= self.storage());
                assert(old(self).remaining(recver_index).take(0) =~= Seq::<T>::empty());
                assert(old(self).remaining(recver_index).skip(0) =~= old(self).remaining(
                    recver_index,
                ));
                assert(self.cursors().dom() =~= old(self).cursors().dom().insert(recver_index));
            }
            return Vec::new();
        };
        let mut ret: Vec<T> = Vec::new();
        let mut i: usize = 0;
        while i < read_count
            invariant
                cur + read_count <= len,
                len == self.buf@.len(),
                i <= read_count,
                ret@ == self.buf@.subrange(cur as int, cur + i),
            decreases read_count - i,
        {
            ret.push(self.buf[cur + i]);
            assert(ret@ =~= self.buf@.subrange(cur as int, cur + i + 1));
            i = i + 1;
        }
        self.receiver_poses.set_existing(recver_index, cur + read_count);
        proof {
            assert(ret@ =~= old(self).remaining(recver_index).take(read_count as int));
            assert(self.buf@.skip((cur + read_count) as int) =~= old(self).remaining(
                recver_index,
            ).skip(read_count as int));
        }
        if read_count > 0 {
            proof {
                assert(!self.cursors().dom().is_empty()) by {
                    assert(self.cursors().dom().contains(recver_index));
                }
            }
            self.reset_cache_base();
        } else {
            proof {
                assert(self.storage().skip(0) =~= self.storage());
                assert(old(self).remaining(recver_index).skip(0) =~= old(self).remaining(
                    recver_index,
                ));
                if !old(self).cursors().dom().contains(recver_index) {
                    assert(self.cursors()[recver_index] == 0);
                } else {
                    let k0: usize = choose|k: usize|
                        old(self).cursors().dom().contains(k) && old(self).cursors()[k] == 0;
                    assert(self.cursors().dom().contains(k0) && self.cursors()[k0] == 0);
                }
            }
        }
        proof {
            assert(self.cursors().dom() =~= old(self).cursors().dom().insert(recver_index));
        }
        ret
    }

    /// A copy of the retained items in `[start, end)`, regardless of cursors.
    pub fn query_items(&self, start: usize, end: Option<usize>) -> (r: Vec<T>)
        ensures
            r@ == query_range(self.storage(), start, end),
    {
        VecExt::query_items(&self.buf, start, end)
    }

    /// Install a cursor for a new receiver at position 0.
    pub fn new_receiver(&mut self, recver_index: usize)
        requires
            old(self).wf(),
        ensures
            final(self).wf(),
            final(self).storage() == old(self).storage(),
            final(self).cursors() == old(self).cursors().insert(recver_index, 0),
    {
        self.receiver_poses.insert(recver_index, 0);
        proof {
            assert(self.cursors()[recver_index] == 0);
        }
    }

    /// Remove a receiver's cursor, then compact past the slowest survivor.
    pub fn drop_receiver(&mut self, recver_index: usize)
        requires
            old(self).wf(),
        ensures
            final(self).wf(),
            final(self).cursors().dom() == old(self).cursors().dom().remove(recver_index),
            forall|j: usize|
                j != recver_index && old(self).cursors().dom().contains(j) ==> final(self).remaining(j) == old(self).remaining(j),
            !final(self).cursors().dom().is_empty() ==> exists|k: usize|
                final(self).cursors().dom().contains(k) && #[trigger] final(self).cursors()[k]
                    == 0,
            final(self).cursors().dom().is_empty() ==> final(self).storage() == old(self).storage(),
            final(self).storage().len() <= old(self).storage().len(),
            final(self).storage() == old(self).storage().skip(
                old(self).storage().len() - final(self).storage().len(),
            ),
    {
        self.receiver_poses.remove(recver_index);
        self.reset_cache_base();
    }

    /// Drop the storage prefix every cursor has passed and shift all
    /// cursors down by its length, so the least cursor returns to 0.
    fn reset_cache_base(&mut self)
        requires
            old(self).cursors_wf(),
        ensures
            final(self).wf(),
            final(self).cursors().dom() == old(self).cursors().dom(),
            old(self).cursors().dom().is_empty() ==> final(self).storage() == old(self).storage()
                && final(self).cursors() == old(self).cursors(),
            !old(self).cursors().dom().is_empty() ==> exists|k: usize|
                final(self).cursors().dom().contains(k) && #[trigger] final(self).cursors()[k]
                    == 0,
            forall|j: usize|
                old(self).cursors().dom().contains(j) ==> final(self).remaining(j) == old(self).remaining(j),
            final(self).storage().len() <= old(self).storage().len(),
            final(self).storage() == old(self).storage().skip(
                old(self).storage().len() - final(self).storage().len(),
            ),
    {
        let min_opt = self.receiver_poses.min_value();
        match min_opt {
            Some(min_pos) => {
                if min_pos > 0 {
                    let ghost s0 = self.storage();
                    let ghost m0 = self.cursors();
                    proof {
                        let wk: usize = choose|k: usize|
                            m0.dom().contains(k) && m0[k] == min_pos;
                        assert(m0[wk] <= s0.len());
                    }
                    let tail = self.buf.split_off(min_pos);
                    self.buf = tail;
                    self.receiver_poses.shift_down(min_pos, false);
                    proof {
                        assert(self.storage() =~= s0.skip(min_pos as int));
                        assert forall|j: usize| m0.dom().contains(j) implies self.remaining(j)
                            == s0.skip(m0[j] as int) by {
                            lemma_skip_skip(s0, min_pos as int, m0[j] - min_pos);
                        }
                        let wk: usize = choose|k: usize|
                            m0.dom().contains(k) && m0[k] == min_pos;
                        assert(self.cursors().dom().contains(wk) && self.cursors()[wk] == 0);
                        assert(self.receiver_poses.values_le(self.storage().len())) by {
                            assert forall|k: usize| self.cursors().dom().contains(k) implies #[trigger] self.cursors()[k]
                                <= self.storage().len() by {
                                assert(m0.dom().contains(k));
                                assert(min_pos <= m0[k] <= s0.len());
                            }
                        }
                    }
                } else {
                    proof {
                        assert(self.storage().skip(0) =~= self.storage());
                        let k0: usize = choose|k: usize|
                            self.cursors().dom().contains(k) && self.cursors()[k] == min_pos;
                        assert(self.cursors().dom().contains(k0) && self.cursors()[k0] == 0);
                    }
                }
            },
            None => {
                proof {
                    assert(self.storage().skip(0) =~= self.storage());
                }
            },
        }
    }
}

/// A broadcast buffer capped at `cap` items; overflow drops the oldest and
/// shifts every cursor down accordingly, clamped at 0, so a receiver that
/// lagged into the dropped region resumes at the new base.
pub struct BoundedDispatchBuffer<T> {
    buf: Vec<T>,
    receiver_poses: CursorTable,
    bounded: usize,
}

impl<T: Copy> BoundedDispatchBuffer<T> {
    /// The retained items, oldest first.
    pub closed spec fn storage(&self) -> Seq<T> {
        self.buf@
    }

    /// Receiver index to cursor position.
    pub closed spec fn cursors(&self) -> Map<usize, usize> {
        self.receiver_poses@
    }

    /// The capacity this buffer was created with.
    pub closed spec fn cap(&self) -> nat {
        self.bounded as nat
    }

    /// The items receiver `i` has not read yet.
    pub open spec fn remaining(&self, i: usize) -> Seq<T> {
        self.storage().skip(cursor_or_zero(self.cursors(), i) as int)
    }

    /// The slowest cursor sits at the base: whenever any cursor exists,
    /// some cursor is 0.  Compaction restores this after every retiring
    /// step, so it holds at every operation boundary.
    pub open spec fn base_compacted(&self) -> bool {
        !self.cursors().dom().is_empty() ==> exists|k: usize|
            self.cursors().dom().contains(k) && #[trigger] self.cursors()[k] == 0
    }

    /// The cursor table is a map, every cursor lies within the storage,
    /// and the storage fits the capacity.
    closed spec fn cursors_wf(&self) -> bool {
        self.receiver_poses.wf() && self.receiver_poses.values_le(self.storage().len())
            && self.storage().len() <= self.cap()
    }

    /// Well-formed: cursors lie within the capacity-bounded storage and
    /// the slowest cursor sits at the base.
    pub closed spec fn wf(&self) -> bool {
        self.cursors_wf() && self.base_compacted()
    }

    /// `wf` carries the compaction invariant.
    pub proof fn lemma_wf_base_compacted(&self)
        requires
            self.wf(),
        ensures
            self.base_compacted(),
    {
    }

    /// Under `wf`, every materialized cursor lies within the storage.
    pub proof fn lemma_cursor_in_range(&self, i: usize)
        requires
            self.wf(),
        ensures
            cursor_or_zero(self.cursors(), i) <= self.storage().len(),
    {
        if self.cursors().dom().contains(i) {
            assert(self.receiver_poses@[i] <= self.storage().len());
        }
    }

    /// The capacity is a machine-sized count.
    pub proof fn lemma_cap_fits(&self)
        ensures
            self.cap() <= usize::MAX,
    {
    }

    pub fn new(bounded: usize) -> (r: Self)
        ensures
            r.storage() == Seq::<T>::empty(),
            r.cursors() == Map::<usize, usize>::empty(),
            r.cap() == bounded,
            r.wf(),
    {
        let r = BoundedDispatchBuffer {
            buf: Vec::new(),
            receiver_poses: CursorTable::new(),
            bounded,
        };
        proof {
            assert(r.cursors().dom() =~= Set::<usize>::empty());
        }
        r
    }

    /// How many items receiver `i` has yet to read; an index without a
    /// cursor (an observer) sees the whole storage.
    pub fn len(&self, recver_index: usize) -> (r: usize)
        requires
            self.wf(),
        ensures
            r == self.remaining(recver_index).len(),
    {
        let cur = match self.receiver_poses.get(recver_index) {
            Some(c) => c,
            None => 0,
        };
        self.buf.len() - cur
    }

    /// Append one item; on overflow the oldest is dropped and every cursor
    /// shifts down by one, clamped at 0.
    pub fn send(&mut self, data: T)
        requires
            old(self).wf(),
        ensures
            final(self).wf(),
            final(self).cap() == old(self).cap(),
            final(self).storage() == keep_last(
                old(self).storage().push(data),
                old(self).cap(),
            ),
            final(self).cursors().dom() == old(self).cursors().dom(),
            forall|k: usize|
                old(self).cursors().dom().contains(k) ==> #[trigger] final(self).cursors()[k]
                    == clamp_sub(
                    old(self).cursors()[k],
                    overflow_count(old(self).storage().len() + 1, old(self).cap()),
                ),
    {
        self.buf.push(data);
        if self.buf.len() > self.bounded {
            self.buf.remove(0);
            self.receiver_poses.shift_down(1, true);
            proof {
                assert(self.buf@ =~= keep_last(old(self).storage().push(data), old(self).cap()));
                if !old(self).cursors().dom().is_empty() {
                    let k0: usize = choose|k: usize|
                        old(self).cursors().dom().contains(k) && old(self).cursors()[k] == 0;
                    assert(self.cursors()[k0] == 0);
                }
            }
        }
    }

    /// Append a batch; on overflow the oldest `total - cap` items are
    /// dropped and every cursor shifts down by that count, clamped at 0.
    pub fn send_items(&mut self, data: Vec<T>)
        requires
            old(self).wf(),
        ensures
            final(self).wf(),
            final(self).cap() == old(self).cap(),
            final(self).storage() == keep_last(old(self).storage() + data@, old(self).cap()),
            final(self).cursors().dom() == old(self).cursors().dom(),
            forall|k: usize|
                old(self).cursors().dom().contains(k) ==> #[trigger] final(self).cursors()[k]
                    == clamp_sub(
                    old(self).cursors()[k],
                    overflow_count(old(self).storage().len() + data@.len(), old(self).cap()),
                ),
    {
        let ghost batch = data@;
        let mut data = data;
        self.buf.append(&mut data);
        if self.buf.len() > self.bounded {
            let remove_count = self.buf.len() - self.bounded;
            self.receiver_poses.shift_down(remove_count, true);
            let tail = self.buf.split_off(remove_count);
            self.buf = tail;
            proof {
                assert(self.buf@ =~= keep_last(old(self).storage() + batch, old(self).cap()));
                if !old(self).cursors().dom().is_empty() {
                    let k0: usize = choose|k: usize|
                        old(self).cursors().dom().contains(k) && old(self).cursors()[k] == 0;
                    assert(self.cursors()[k0] == 0);
                }
            }
        }
    }

    /// Copy the item under receiver `i`'s cursor and advance it, then
    /// compact.  Other receivers' unread items are untouched.
    pub fn recv(&mut self, recver_index: usize) -> (r: Option<T>)
        requires
            old(self).wf(),
        ensures
            final(self).wf(),
            final(self).cap() == old(self).cap(),
            r == (if old(self).remaining(recver_index).len() > 0 {
                Some(old(self).remaining(recver_index)[0])
            } else {
                None::<T>
            }),
            final(self).cursors().dom() == old(self).cursors().dom().insert(recver_index),
            final(self).remaining(recver_index) == old(self).remaining(recver_index).skip(
                if old(self).remaining(recver_index).len() > 0 {
                    1int
                } else {
                    0int
                },
            ),
            forall|j: usize|
                j != recver_index && old(self).cursors().dom().contains(j) ==> final(self).remaining(j) == old(self).remaining(j),
            exists|k: usize|
                final(self).cursors().dom().contains(k) && #[trigger] final(self).cursors()[k]
                    == 0,
            final(self).storage().len() <= old(self).storage().len(),
            final(self).storage() == old(self).storage().skip(
                old(self).storage().len() - final(self).storage().len(),
            ),
    {
        let cur = self.receiver_poses.get_or_insert_zero(recver_index);
        proof {
            if !old(self).cursors().dom().contains(recver_index) {
                assert(self.cursors()[recver_index] == 0);
            }
        }
        let mut ret: Option<T> = None;
        if cur < self.buf.len() {
            ret = Some(self.buf[cur]);
            self.receiver_poses.set_existing(recver_index, cur + 1);
        }
        proof {
            assert(self.buf@.skip(cur as int) == old(self).remaining(recver_index));
            if old(self).remaining(recver_index).len() > 0 {
                assert(self.buf@.skip(cur + 1int) =~= old(self).remaining(recver_index).skip(1));
            } else {
                assert(old(self).remaining(recver_index).skip(0) =~= old(self).remaining(
                    recver_index,
                ));
            }
        }
        proof {
            assert(!self.cursors().dom().is_empty()) by {
                assert(self.cursors().dom().contains(recver_index));
            }
        }
        self.reset_cache_base();
        proof {
            assert(self.cursors().dom() =~= old(self).cursors().dom().insert(recver_index));
        }
        ret
    }

    /// Copy `batch_read_len` items starting at receiver `i`'s cursor and
    /// advance it; compaction runs only when something was read.
    pub fn recv_count(&mut self, recver_index: usize, recv_count: usize, force_count: bool) -> (r:
        Vec<T>)
        requires
            old(self).wf(),
        ensures
            final(self).wf(),
            final(self).cap() == old(self).cap(),
            r@ == old(self).remaining(recver_index).take(
                batch_read_len(
                    old(self).remaining(recver_index).len(),
                    recv_count,
                    force_count,
                ) as int,
            ),
            final(self).cursors().dom() == old(self).cursors().dom().insert(recver_index),
            final(self).remaining(recver_index) == old(self).remaining(recver_index).skip(
                r@.len() as int,
            ),
            forall|j: usize|
                j != recver_index && old(self).cursors().dom().contains(j) ==> final(self).remaining(j) == old(self).remaining(j),
            r@.len() > 0 ==> exists|k: usize|
                final(self).cursors().dom().contains(k) && #[trigger] final(self).cursors()[k]
                    == 0,
            r@.len() == 0 ==> final(self).storage() == old(self).storage(),
            final(self).storage().len() <= old(self).storage().len(),
            final(self).storage() == old(self).storage().skip(
                old(self).storage().len() - final(self).storage().len(),
            ),
    {
        let cur = self.receiver_poses.get_or_insert_zero(recver_index);
        proof {
            if !old(self).cursors().dom().contains(recver_index) {
                assert(self.cursors()[recver_index] == 0);
            }
        }
        let len = self.buf.len();
        proof {
            if old(self).cursors().dom().contains(recver_index) {
                assert(old(self).cursors()[recver_index] <= old(self).storage().len());
            }
            assert(cur <= len);
            assert(old(self).remaining(recver_index).len() == len - cur);
        }
        let read_count = if recv_count <= len && cur <= len - recv_count {
            recv_count
        } else if !force_count && cur < len {
            len - cur
        } else {
            proof {
                assert(self.storage().skip(0) =~= self.storage());
                assert(old(self).remaining(recver_index).take(0) =~= Seq::<T>::empty());
                assert(old(self).remaining(recver_index).skip(0) =~= old(self).remaining(
                    recver_index,
                ));
                assert(self.cursors().dom() =~= old(self).cursors().dom().insert(recver_index));
            }
            return Vec::new();
        };
        let mut ret: Vec<T> = Vec::new();
        let mut i: usize = 0;
        while i < read_count
            invariant
                cur + read_count <= len,
                len == self.buf@.len(),
                i <= read_count,
                ret@ == self.buf@.subrange(cur as int, cur + i),
            decreases read_count - i,
        {
            ret.push(self.buf[cur + i]);
            assert(ret@ =~= self.buf@.subrange(cur as int, cur + i + 1));
            i = i + 1;
        }
        self.receiver_poses.set_existing(recver_index, cur + read_count);
        proof {
            assert(ret@ =~= old(self).remaining(recver_index).take(read_count as int));
            assert(self.buf@.skip((cur + read_count) as int) =~= old(self).remaining(
                recver_index,
            ).skip(read_count as int));
        }
        if read_count > 0 {
            proof {
                assert(!self.cursors().dom().is_empty()) by {
                    assert(self.cursors().dom().contains(recver_index));
                }
            }
            self.reset_cache_base();
        } else {
            proof {
                assert(self.storage().skip(0) =~= self.storage());
                assert(old(self).remaining(recver_index).skip(0) =~= old(self).remaining(
                    recver_index,
                ));
                if !old(self).cursors().dom().contains(recver_index) {
                    assert(self.cursors()[recver_index] == 0);
                } else {
                    let k0: usize = choose|k: usize|
                        old(self).cursors().dom().contains(k) && old(self).cursors()[k] == 0;
                    assert(self.cursors().dom().contains(k0) && self.cursors()[k0] == 0);
                }
            }
        }
        proof {
            assert(self.cursors().dom() =~= old(self).cursors().dom().insert(recver_index));
        }
        ret
    }

    /// Shrink the buffer so that, together with `extern_size` items held
    /// elsewhere, at most `cap` items exist: when `extern_size` fills the
    /// whole capacity the storage is cleared and all cursors reset, else
    /// the storage keeps its last `cap - extern_size` items and cursors
    /// shift accordingly.  Returns the capacity.
    pub fn part_queue_get_residue_count(&mut self, extern_size: usize) -> (r: usize)
        requires
            old(self).wf(),
        ensures
            final(self).wf(),
            final(self).cap() == old(self).cap(),
            r == old(self).cap(),
            final(self).cursors().dom() == old(self).cursors().dom(),
            extern_size >= old(self).cap() ==> final(self).storage() == Seq::<T>::empty() && (
            forall|k: usize|
                old(self).cursors().dom().contains(k) ==> #[trigger] final(self).cursors()[k]
                    == 0),
            extern_size < old(self).cap() ==> final(self).storage() == keep_last(
                old(self).storage(),
                (old(self).cap() - extern_size) as nat,
            ) && (forall|k: usize|
                old(self).cursors().dom().contains(k) ==> #[trigger] final(self).cursors()[k]
                    == clamp_sub(
                    old(self).cursors()[k],
                    overflow_count(old(self).storage().len(), (old(self).cap() - extern_size) as nat),
                )),
            extern_size < old(self).cap() ==> final(self).storage().len() + extern_size <= old(self).cap(),
    {
        if extern_size >= self.bounded {
            self.buf.clear();
            self.receiver_poses.zero_all();
            proof {
                if !old(self).cursors().dom().is_empty() {
                    let k0: usize = choose|k: usize| old(self).cursors().dom().contains(k);
                    assert(self.cursors()[k0] == 0);
                }
            }
        } else {
            let self_residue_count = self.bounded - extern_size;
            if self.buf.len() > self_residue_count {
                let remove_count = self.buf.len() - self_residue_count;
                self.receiver_poses.shift_down(remove_count, true);
                let tail = self.buf.split_off(remove_count);
                self.buf = tail;
                proof {
                    assert(self.buf@ =~= keep_last(
                        old(self).storage(),
                        (old(self).cap() - extern_size) as nat,
                    ));
                    if !old(self).cursors().dom().is_empty() {
                        let k0: usize = choose|k: usize|
                            old(self).cursors().dom().contains(k) && old(self).cursors()[k] == 0;
                        assert(self.cursors()[k0] == 0);
                    }
                }
            }
        }
        self.bounded
    }

    /// A copy of the retained items in `[start, end)`, regardless of cursors.
    pub fn query_items(&self, start: usize, end: Option<usize>) -> (r: Vec<T>)
        ensures
            r@ == query_range(self.storage(), start, end),
    {
        VecExt::query_items(&self.buf, start, end)
    }

    /// Install a cursor for a new receiver at position 0.
    pub fn new_receiver(&mut self, recver_index: usize)
        requires
            old(self).wf(),
        ensures
            final(self).wf(),
            final(self).cap() == old(self).cap(),
            final(self).storage() == old(self).storage(),
            final(self).cursors() == old(self).cursors().insert(recver_index, 0),
    {
        self.receiver_poses.insert(recver_index, 0);
        proof {
            assert(self.cursors()[recver_index] == 0);
        }
    }

    /// Remove a receiver's cursor, then compact past the slowest survivor.
    pub fn drop_receiver(&mut self, recver_index: usize)
        requires
            old(self).wf(),
        ensures
            final(self).wf(),
            final(self).cap() == old(self).cap(),
            final(self).cursors().dom() == old(self).cursors().dom().remove(recver_index),
            forall|j: usize|
                j != recver_index && old(self).cursors().dom().contains(j) ==> final(self).remaining(j) == old(self).remaining(j),
            !final(self).cursors().dom().is_empty() ==> exists|k: usize|
                final(self).cursors().dom().contains(k) && #[trigger] final(self).cursors()[k]
                    == 0,
            final(self).cursors().dom().is_empty() ==> final(self).storage() == old(self).storage(),
            final(self).storage().len() <= old(self).storage().len(),
            final(self).storage() == old(self).storage().skip(
                old(self).storage().len() - final(self).storage().len(),
            ),
    {
        self.receiver_poses.remove(recver_index);
        self.reset_cache_base();
    }

    /// Drop the storage prefix every cursor has passed and shift all
    /// cursors down by its length, so the least cursor returns to 0.
    fn reset_cache_base(&mut self)
        requires
            old(self).cursors_wf(),
        ensures
            final(self).wf(),
            final(self).cap() == old(self).cap(),
            final(self).cursors().dom() == old(self).cursors().dom(),
            old(self).cursors().dom().is_empty() ==> final(self).storage() == old(self).storage()
                && final(self).cursors() == old(self).cursors(),
            !old(self).cursors().dom().is_empty() ==> exists|k: usize|
                final(self).cursors().dom().contains(k) && #[trigger] final(self).cursors()[k]
                    == 0,
            forall|j: usize|
                old(self).cursors().dom().contains(j) ==> final(self).remaining(j) == old(self).remaining(j),
            final(self).storage().len() <= old(self).storage().len(),
            final(self).storage() == old(self).storage().skip(
                old(self).storage().len() - final(self).storage().len(),
            ),
    {
        let min_opt = self.receiver_poses.min_value();
        match min_opt {
            Some(min_pos) => {
                if min_pos > 0 {
                    let ghost s0 = self.storage();
                    let ghost m0 = self.cursors();
                    proof {
                        let wk: usize = choose|k: usize|
                            m0.dom().contains(k) && m0[k] == min_pos;
                        assert(m0[wk] <= s0.len());
                    }
                    let tail = self.buf.split_off(min_pos);
                    self.buf = tail;
                    self.receiver_poses.shift_down(min_pos, false);
                    proof {
                        assert(self.storage() =~= s0.skip(min_pos as int));
                        assert forall|j: usize| m0.dom().contains(j) implies self.remaining(j)
                            == s0.skip(m0[j] as int) by {
                            lemma_skip_skip(s0, min_pos as int, m0[j] - min_pos);
                        }
                        let wk: usize = choose|k: usize|
                            m0.dom().contains(k) && m0[k] == min_pos;
                        assert(self.cursors().dom().contains(wk) && self.cursors()[wk] == 0);
                        assert(self.receiver_poses.values_le(self.storage().len())) by {
                            assert forall|k: usize| self.cursors().dom().contains(k) implies #[trigger] self.cursors()[k]
                                <= self.storage().len() by {
                                assert(m0.dom().contains(k));
                                assert(min_pos <= m0[k] <= s0.len());
                            }
                        }
                    }
                } else {
                    proof {
                        assert(self.storage().skip(0) =~= self.storage());
                        let k0: usize = choose|k: usize|
                            self.cursors().dom().contains(k) && self.cursors()[k] == min_pos;
                        assert(self.cursors().dom().contains(k0) && self.cursors()[k0] == 0);
                    }
                }
            },
            None => {
                proof {
                    assert(self.storage().skip(0) =~= self.storage());
                }
            },
        }
    }
}

} // verus!
