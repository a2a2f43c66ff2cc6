//! Replay-at-rate (time-series) channels: items are held behind a
//! wall-clock admission rule and only admitted once
//! `(data_time - data_origin) <= round((now - wall_origin) * speed)`.
//!
//! The dispatch shapes are two-stage: an admission ruled pre-stage feeds an ordinary
//! broadcast post-stage, and for the bounded shape the pre-stage's live
//! bound shrinks as the post-stage fills, so the total never exceeds the
//! capacity.

use vstd::prelude::*;

use crate::buffer::consume_read_count;
use crate::buffer::drop_head_over;
use crate::buffer::keep_last;
use crate::buffer::take_head;
use crate::time_util::now_nanos;
use crate::time_util::released;
use crate::time_util::Speed;
use crate::vec_utils::query_range;
use crate::vec_utils::VecExt;

verus! {

/// An item that carries its own data time, in nanoseconds.
pub trait GetDataTimeExt: Sized {
    /// The item's data time, as a specification value.
    spec fn data_time_spec(&self) -> i64;

    /// The item's data time in nanoseconds.
    fn get_data_time(&self) -> (t: i64)
        ensures
            t == self.data_time_spec(),
    ;
}

/// A plain timed item: a data time in nanoseconds and a payload.
#[derive(Clone, Copy, Debug)]
pub struct TimedValue {
    pub time: i64,
    pub data: i64,
}

impl GetDataTimeExt for TimedValue {
    open spec fn data_time_spec(&self) -> i64 {
        self.time
    }

    fn get_data_time(&self) -> (t: i64)
        ensures
            t == self.data_time_spec(),
    {
        self.time
    }
}

/// What an admission ruled `recv` at wall time `now` yields on contents `s`: the head,
/// when there is one and the admission rule admits it.
pub open spec fn ts_recv_outcome<T: GetDataTimeExt>(
    s: Seq<T>,
    data_origin: i64,
    wall_origin: i64,
    now: i64,
    speed: Speed,
) -> Option<T> {
    if s.len() > 0 && released(s[0].data_time_spec(), data_origin, wall_origin, now, speed) {
        Some(s[0])
    } else {
        None
    }
}

/// The batch size an admission ruled `recv_count` settles on: starting from the
/// unrestricted candidate count `k0`, shrink until the last candidate is
/// admitted by the admission rule.
pub open spec fn admitted_count<T: GetDataTimeExt>(
    s: Seq<T>,
    k0: int,
    data_origin: i64,
    wall_origin: i64,
    now: i64,
    speed: Speed,
) -> int
    decreases k0,
{
    if k0 <= 0 {
        0
    } else if released(s[k0 - 1].data_time_spec(), data_origin, wall_origin, now, speed) {
        k0
    } else {
        admitted_count(s, k0 - 1, data_origin, wall_origin, now, speed)
    }
}

pub proof fn lemma_admitted_count_bounds<T: GetDataTimeExt>(
    s: Seq<T>,
    k0: int,
    data_origin: i64,
    wall_origin: i64,
    now: i64,
    speed: Speed,
)
    ensures
        0 <= admitted_count(s, k0, data_origin, wall_origin, now, speed),
        admitted_count(s, k0, data_origin, wall_origin, now, speed) <= k0 || k0 < 0,
    decreases k0,
{
    if k0 > 0 && !released(s[k0 - 1].data_time_spec(), data_origin, wall_origin, now, speed) {
        lemma_admitted_count_bounds(s, k0 - 1, data_origin, wall_origin, now, speed);
    }
}

/// Cumulative-prefix law: releasing `k1` items and later `k2` more takes
/// consecutive prefixes of the arrival order, and together they form the
/// prefix of length `k1 + k2` — no item ever crosses an earlier one.
pub proof fn lemma_release_prefix<T>(s: Seq<T>, k1: int, k2: int)
    requires
        0 <= k1,
        0 <= k2,
        k1 + k2 <= s.len(),
    ensures
        s.take(k1) + s.skip(k1).take(k2) =~= s.take(k1 + k2),
        s.skip(k1).skip(k2) =~= s.skip(k1 + k2),
{
}

/// An unbounded held FIFO queue (the temporal pre-stage).
pub struct TSUnboundedBuffer<T> {
    buf: Vec<T>,
    start_data_time: i64,
    start_cur_time: i64,
    speed: Speed,
}

impl<T: Copy + GetDataTimeExt> TSUnboundedBuffer<T> {
    /// The held items, oldest first.
    pub closed spec fn contents(&self) -> Seq<T> {
        self.buf@
    }

    /// The reference data time of the replay.
    pub closed spec fn data_origin(&self) -> i64 {
        self.start_data_time
    }

    /// The wall time the replay clock was armed at.
    pub closed spec fn wall_origin(&self) -> i64 {
        self.start_cur_time
    }

    /// The replay rate.
    pub closed spec fn speed(&self) -> Speed {
        self.speed
    }

    pub open spec fn wf(&self) -> bool {
        self.speed().wf()
    }

    /// Whether position `index` is admitted at wall time `now`.
    pub open spec fn released_at(&self, index: int, now: i64) -> bool {
        0 <= index < self.contents().len() && released(
            self.contents()[index].data_time_spec(),
            self.data_origin(),
            self.wall_origin(),
            now,
            self.speed(),
        )
    }

    /// Arm the replay clock now: data times are replayed relative to
    /// `start_data_time` from the current wall-clock instant on.
    pub fn new(start_data_time: i64, speed: Speed) -> (r: Self)
        requires
            speed.wf(),
        ensures
            r.contents() == Seq::<T>::empty(),
            r.data_origin() == start_data_time,
            r.speed() == speed,
            r.wf(),
    {
        TSUnboundedBuffer {
            buf: Vec::new(),
            start_data_time,
            start_cur_time: now_nanos(),
            speed,
        }
    }

    pub fn len(&self) -> (r: usize)
        ensures
            r == self.contents().len(),
    {
        self.buf.len()
    }

    pub fn send(&mut self, data: T)
        ensures
            final(self).contents() == old(self).contents().push(data),
            final(self).replay_unchanged(*old(self)),
    {
        self.buf.push(data);
    }

    pub fn send_items(&mut self, data: Vec<T>)
        ensures
            final(self).contents() == old(self).contents() + data@,
            final(self).replay_unchanged(*old(self)),
    {
        let mut data = data;
        self.buf.append(&mut data);
    }

    /// The replay parameters of `other` carried over unchanged.
    pub open spec fn replay_unchanged(&self, other: Self) -> bool {
        self.data_origin() == other.data_origin() && self.wall_origin() == other.wall_origin()
            && self.speed() == other.speed() && self.wf() == other.wf()
    }

    /// Whether the item at `index` exists and is admitted at wall time `now`.
    fn is_valid(&self, index: usize, now: i64) -> (r: bool)
        ensures
            r == self.released_at(index as int, now),
    {
        if self.buf.len() <= index {
            return false;
        }
        let t = self.buf[index].get_data_time();
        crate::time_util::is_released_at(
            t,
            self.start_data_time,
            self.start_cur_time,
            now,
            self.speed,
        )
    }

    /// Remove and return the head if the admission rule admits it at wall time `now`.
    pub fn recv_at(&mut self, now: i64) -> (r: Option<T>)
        ensures
            final(self).replay_unchanged(*old(self)),
            r == ts_recv_outcome(
                old(self).contents(),
                old(self).data_origin(),
                old(self).wall_origin(),
                now,
                old(self).speed(),
            ),
            r is Some ==> final(self).contents() == old(self).contents().skip(1),
            r is None ==> final(self).contents() == old(self).contents(),
    {
        if self.is_valid(0, now) {
            return Some(self.buf.remove(0));
        }
        None
    }

    /// Remove and return the head if the admission rule admits it now.
    pub fn recv(&mut self) -> (r: Option<T>)
        ensures
            final(self).replay_unchanged(*old(self)),
            exists|now: i64|
                r == #[trigger] ts_recv_outcome(
                    old(self).contents(),
                    old(self).data_origin(),
                    old(self).wall_origin(),
                    now,
                    old(self).speed(),
                ),
            r is Some ==> r == Some(old(self).contents()[0]) && final(self).contents() == old(self).contents().skip(1),
            r is None ==> final(self).contents() == old(self).contents(),
    {
        let now = now_nanos();
        let r = self.recv_at(now);
        proof {
            assert(r == ts_recv_outcome(
                old(self).contents(),
                old(self).data_origin(),
                old(self).wall_origin(),
                now,
                old(self).speed(),
            ));
        }
        r
    }

    /// Remove and return the longest head prefix, at most
    /// `consume_read_count` long, whose last item the admission rule admits at `now`.
    pub fn recv_count_at(&mut self, recv_count: usize, force_count: bool, now: i64) -> (r: Vec<
        T,
    >)
        ensures
            final(self).replay_unchanged(*old(self)),
            r@ == old(self).contents().take(
                admitted_count(
                    old(self).contents(),
                    consume_read_count(
                        old(self).contents().len(),
                        recv_count,
                        force_count,
                    ) as int,
                    old(self).data_origin(),
                    old(self).wall_origin(),
                    now,
                    old(self).speed(),
                ),
            ),
            final(self).contents() == old(self).contents().skip(r@.len() as int),
    {
        let ghost s = self.contents();
        let ghost d = self.data_origin();
        let ghost w = self.wall_origin();
        let ghost sp = self.speed();
        let len = self.buf.len();
        let rc0 = if recv_count <= len {
            recv_count
        } else {
            proof {
                assert(s.take(0) =~= Seq::<T>::empty());
                assert(s.skip(0) =~= s);
            }
            return Vec::new();
        };
        let mut read_count = rc0;
        while read_count > 0 && !self.is_valid(read_count - 1, now)
            invariant
                read_count <= rc0 <= len,
                len == self.buf@.len(),
                s == self.contents(),
                d == self.data_origin(),
                w == self.wall_origin(),
                sp == self.speed(),
                admitted_count(s, rc0 as int, d, w, now, sp) == admitted_count(
                    s,
                    read_count as int,
                    d,
                    w,
                    now,
                    sp,
                ),
            decreases read_count,
        {
            read_count = read_count - 1;
        }
        proof {
            assert(admitted_count(s, read_count as int, d, w, now, sp) == read_count as int);
        }
        take_head(&mut self.buf, read_count)
    }

    /// Remove and return the longest admitted head prefix, at most
    /// `consume_read_count` long, against the wall clock.
    pub fn recv_count(&mut self, recv_count: usize, force_count: bool) -> (r: Vec<T>)
        ensures
            final(self).replay_unchanged(*old(self)),
            r@ == old(self).contents().take(r@.len() as int),
            final(self).contents() == old(self).contents().skip(r@.len() as int),
            exists|now: i64|
                r@.len() as int == #[trigger] admitted_count(
                    old(self).contents(),
                    consume_read_count(
                        old(self).contents().len(),
                        recv_count,
                        force_count,
                    ) as int,
                    old(self).data_origin(),
                    old(self).wall_origin(),
                    now,
                    old(self).speed(),
                ),
    {
        let now = now_nanos();
        let r = self.recv_count_at(recv_count, force_count, now);
        proof {
            lemma_admitted_count_bounds(
                old(self).contents(),
                consume_read_count(old(self).contents().len(), recv_count, force_count) as int,
                old(self).data_origin(),
                old(self).wall_origin(),
                now,
                old(self).speed(),
            );
        }
        r
    }

    /// Drop held items from the head until at most `bound` remain.
    pub fn part_queue_apply_bound(&mut self, bound: usize)
        ensures
            final(self).replay_unchanged(*old(self)),
            final(self).contents() == keep_last(old(self).contents(), bound as nat),
    {
        drop_head_over(&mut self.buf, bound);
    }

    /// A copy of the held items in `[start, end)`, regardless of the admission rule.
    pub fn query_items(&self, start: usize, end: Option<usize>) -> (r: Vec<T>)
        ensures
            r@ == query_range(self.contents(), start, end),
    {
        VecExt::query_items(&self.buf, start, end)
    }
}

/// A held FIFO queue holding at most `cap` items; overflow drops the
/// oldest held item.
pub struct TSBoundedBuffer<T> {
    buf: Vec<T>,
    bounded: usize,
    start_data_time: i64,
    start_cur_time: i64,
    speed: Speed,
}

impl<T: Copy + GetDataTimeExt> TSBoundedBuffer<T> {
    /// The held items, oldest first.
    pub closed spec fn contents(&self) -> Seq<T> {
        self.buf@
    }

    /// The capacity this buffer was created with.
    pub closed spec fn cap(&self) -> nat {
        self.bounded as nat
    }

    /// The reference data time of the replay.
    pub closed spec fn data_origin(&self) -> i64 {
        self.start_data_time
    }

    /// The wall time the replay clock was armed at.
    pub closed spec fn wall_origin(&self) -> i64 {
        self.start_cur_time
    }

    /// The replay rate.
    pub closed spec fn speed(&self) -> Speed {
        self.speed
    }

    pub open spec fn wf(&self) -> bool {
        self.speed().wf() && self.contents().len() <= self.cap()
    }

    /// The admission rule and capacity of `other` carried over unchanged.
    pub open spec fn replay_unchanged(&self, other: Self) -> bool {
        self.data_origin() == other.data_origin() && self.wall_origin() == other.wall_origin()
            && self.speed() == other.speed() && self.cap() == other.cap()
    }

    /// Arm the replay clock now, with capacity `bounded`.
    pub fn new(bounded: usize, start_data_time: i64, speed: Speed) -> (r: Self)
        requires
            speed.wf(),
        ensures
            r.contents() == Seq::<T>::empty(),
            r.cap() == bounded,
            r.data_origin() == start_data_time,
            r.speed() == speed,
            r.wf(),
    {
        TSBoundedBuffer {
            buf: Vec::new(),
            bounded,
            start_data_time,
            start_cur_time: now_nanos(),
            speed,
        }
    }

    pub fn len(&self) -> (r: usize)
        ensures
            r == self.contents().len(),
    {
        self.buf.len()
    }

    /// Append one item, dropping the oldest when the capacity is exceeded.
    pub fn send(&mut self, data: T)
        requires
            old(self).wf(),
        ensures
            final(self).replay_unchanged(*old(self)),
            final(self).contents() == keep_last(old(self).contents().push(data), old(self).cap()),
            final(self).wf(),
    {
        self.buf.push(data);
        if self.buf.len() > self.bounded {
            self.buf.remove(0);
            assert(self.buf@ =~= keep_last(old(self).contents().push(data), old(self).cap()));
        }
    }

    /// Append a batch; the last `cap` items of the combined sequence win.
    pub fn send_items(&mut self, data: Vec<T>)
        requires
            old(self).wf(),
        ensures
            final(self).replay_unchanged(*old(self)),
            final(self).contents() == keep_last(old(self).contents() + data@, old(self).cap()),
            final(self).wf(),
    {
        let mut data = data;
        self.buf.append(&mut data);
        let cap = self.bounded;
        drop_head_over(&mut self.buf, cap);
    }

    /// Whether the item at `index` exists and is admitted at wall time `now`.
    fn is_valid(&self, index: usize, now: i64) -> (r: bool)
        ensures
            r == (index < self.contents().len() && released(
                self.contents()[index as int].data_time_spec(),
                self.data_origin(),
                self.wall_origin(),
                now,
                self.speed(),
            )),
    {
        if self.buf.len() <= index {
            return false;
        }
        let t = self.buf[index].get_data_time();
        crate::time_util::is_released_at(
            t,
            self.start_data_time,
            self.start_cur_time,
            now,
            self.speed,
        )
    }

    /// Remove and return the head if the admission rule admits it at wall time `now`.
    pub fn recv_at(&mut self, now: i64) -> (r: Option<T>)
        ensures
            final(self).replay_unchanged(*old(self)),
            r == ts_recv_outcome(
                old(self).contents(),
                old(self).data_origin(),
                old(self).wall_origin(),
                now,
                old(self).speed(),
            ),
            r is Some ==> final(self).contents() == old(self).contents().skip(1),
            r is None ==> final(self).contents() == old(self).contents(),
            old(self).wf() ==> final(self).wf(),
    {
        if self.is_valid(0, now) {
            return Some(self.buf.remove(0));
        }
        None
    }

    /// Remove and return the head if the admission rule admits it now.
    pub fn recv(&mut self) -> (r: Option<T>)
        ensures
            final(self).replay_unchanged(*old(self)),
            exists|now: i64|
                r == #[trigger] ts_recv_outcome(
                    old(self).contents(),
                    old(self).data_origin(),
                    old(self).wall_origin(),
                    now,
                    old(self).speed(),
                ),
            r is Some ==> r == Some(old(self).contents()[0]) && final(self).contents() == old(self).contents().skip(1),
            r is None ==> final(self).contents() == old(self).contents(),
            old(self).wf() ==> final(self).wf(),
    {
        let now = now_nanos();
        let r = self.recv_at(now);
        proof {
            assert(r == ts_recv_outcome(
                old(self).contents(),
                old(self).data_origin(),
                old(self).wall_origin(),
                now,
                old(self).speed(),
            ));
        }
        r
    }

    /// Remove and return the longest head prefix, at most
    /// `consume_read_count` long, whose last item the admission rule admits at `now`.
    pub fn recv_count_at(&mut self, recv_count: usize, force_count: bool, now: i64) -> (r: Vec<
        T,
    >)
        ensures
            final(self).replay_unchanged(*old(self)),
            r@ == old(self).contents().take(
                admitted_count(
                    old(self).contents(),
                    consume_read_count(
                        old(self).contents().len(),
                        recv_count,
                        force_count,
                    ) as int,
                    old(self).data_origin(),
                    old(self).wall_origin(),
                    now,
                    old(self).speed(),
                ),
            ),
            final(self).contents() == old(self).contents().skip(r@.len() as int),
            old(self).wf() ==> final(self).wf(),
    {
        let ghost s = self.contents();
        let ghost d = self.data_origin();
        let ghost w = self.wall_origin();
        let ghost sp = self.speed();
        let len = self.buf.len();
        let rc0 = if recv_count <= len {
            recv_count
        } else {
            proof {
                assert(s.take(0) =~= Seq::<T>::empty());
                assert(s.skip(0) =~= s);
            }
            return Vec::new();
        };
        let mut read_count = rc0;
        while read_count > 0 && !self.is_valid(read_count - 1, now)
            invariant
                read_count <= rc0 <= len,
                len == self.buf@.len(),
                s == self.contents(),
                d == self.data_origin(),
                w == self.wall_origin(),
                sp == self.speed(),
                admitted_count(s, rc0 as int, d, w, now, sp) == admitted_count(
                    s,
                    read_count as int,
                    d,
                    w,
                    now,
                    sp,
                ),
            decreases read_count,
        {
            read_count = read_count - 1;
        }
        proof {
            assert(admitted_count(s, read_count as int, d, w, now, sp) == read_count as int);
        }
        take_head(&mut self.buf, read_count)
    }

    /// Remove and return the longest admitted head prefix, at most
    /// `consume_read_count` long, against the wall clock.
    pub fn recv_count(&mut self, recv_count: usize, force_count: bool) -> (r: Vec<T>)
        ensures
            final(self).replay_unchanged(*old(self)),
            r@ == old(self).contents().take(r@.len() as int),
            final(self).contents() == old(self).contents().skip(r@.len() as int),
            exists|now: i64|
                r@.len() as int == #[trigger] admitted_count(
                    old(self).contents(),
                    consume_read_count(
                        old(self).contents().len(),
                        recv_count,
                        force_count,
                    ) as int,
                    old(self).data_origin(),
                    old(self).wall_origin(),
                    now,
                    old(self).speed(),
                ),
            old(self).wf() ==> final(self).wf(),
    {
        let now = now_nanos();
        let r = self.recv_count_at(recv_count, force_count, now);
        proof {
            lemma_admitted_count_bounds(
                old(self).contents(),
                consume_read_count(old(self).contents().len(), recv_count, force_count) as int,
                old(self).data_origin(),
                old(self).wall_origin(),
                now,
                old(self).speed(),
            );
        }
        r
    }

    /// A copy of the held items in `[start, end)`, regardless of the admission rule.
    pub fn query_items(&self, start: usize, end: Option<usize>) -> (r: Vec<T>)
        ensures
            r@ == query_range(self.contents(), start, end),
    {
        VecExt::query_items(&self.buf, start, end)
    }
}


/// How many held items the admission rule admits in one release pass: the longest
/// prefix whose last item is admitted at wall time `now`.
pub open spec fn released_batch_count<T: GetDataTimeExt>(
    s: Seq<T>,
    data_origin: i64,
    wall_origin: i64,
    now: i64,
    speed: Speed,
) -> int {
    admitted_count(s, s.len() as int, data_origin, wall_origin, now, speed)
}

/// Splitting off a prefix commutes with appending on the right.
proof fn lemma_skip_append<T>(s: Seq<T>, t: Seq<T>, c: int)
    requires
        0 <= c <= s.len(),
    ensures
        (s + t).skip(c) =~= s.skip(c) + t,
{
}

/// The two-stage unbounded broadcast shape: an admission ruled pre-stage feeding an
/// unbounded broadcast post-stage.  Reads first release everything the admission rule
/// admits into the post-stage, then read with broadcast semantics.
pub struct TSUnboundedDispatchBuffer<T> {
    pre_buffer: TSUnboundedBuffer<T>,
    post_buffer: crate::dispatch::UnboundedDispatchBuffer<T>,
}

impl<T: Copy + GetDataTimeExt> TSUnboundedDispatchBuffer<T> {
    /// The held (not yet released) items, oldest first.
    pub closed spec fn pre_contents(&self) -> Seq<T> {
        self.pre_buffer.contents()
    }

    /// The released, broadcast-retained items, oldest first.
    pub closed spec fn post_storage(&self) -> Seq<T> {
        self.post_buffer.storage()
    }

    /// Receiver index to cursor position in the post-stage.
    pub closed spec fn cursors(&self) -> Map<usize, usize> {
        self.post_buffer.cursors()
    }

    /// The reference data time of the replay.
    pub closed spec fn data_origin(&self) -> i64 {
        self.pre_buffer.data_origin()
    }

    /// The wall time the replay clock was armed at.
    pub closed spec fn wall_origin(&self) -> i64 {
        self.pre_buffer.wall_origin()
    }

    /// The replay rate.
    pub closed spec fn speed(&self) -> Speed {
        self.pre_buffer.speed()
    }

    pub closed spec fn wf(&self) -> bool {
        self.pre_buffer.wf() && self.post_buffer.wf()
    }

    /// Everything receiver `i` has yet to read, released or not: its unread
    /// post-stage tail followed by the whole held pre-stage.
    pub open spec fn total_remaining(&self, i: usize) -> Seq<T> {
        self.post_storage().skip(
            crate::dispatch::cursor_or_zero(self.cursors(), i) as int,
        ) + self.pre_contents()
    }

    /// What receiver `i` could read at wall time `now`: its unread
    /// post-stage tail followed by the prefix the admission rule admits.
    pub open spec fn admitted_remaining(&self, i: usize, now: i64) -> Seq<T> {
        self.post_storage().skip(
            crate::dispatch::cursor_or_zero(self.cursors(), i) as int,
        ) + self.pre_contents().take(
            released_batch_count(
                self.pre_contents(),
                self.data_origin(),
                self.wall_origin(),
                now,
                self.speed(),
            ),
        )
    }

    /// The replay parameters of `other` carried over unchanged.
    pub open spec fn replay_unchanged(&self, other: Self) -> bool {
        self.data_origin() == other.data_origin() && self.wall_origin() == other.wall_origin()
            && self.speed() == other.speed()
    }

    /// Both stages fit a `usize` length together.
    pub open spec fn len_in_range(&self) -> bool {
        self.pre_contents().len() + self.post_storage().len() <= usize::MAX
    }

    /// Arm the replay clock now.
    pub fn new(start_data_time: i64, speed: Speed) -> (r: Self)
        requires
            speed.wf(),
        ensures
            r.pre_contents() == Seq::<T>::empty(),
            r.post_storage() == Seq::<T>::empty(),
            r.cursors() == Map::<usize, usize>::empty(),
            r.data_origin() == start_data_time,
            r.speed() == speed,
            r.wf(),
    {
        TSUnboundedDispatchBuffer {
            pre_buffer: TSUnboundedBuffer::new(start_data_time, speed),
            post_buffer: crate::dispatch::UnboundedDispatchBuffer::new(),
        }
    }

    /// How many items receiver `i` has yet to read across both stages.
    pub fn len(&self, recver_index: usize) -> (r: usize)
        requires
            self.wf(),
            self.len_in_range(),
        ensures
            r == self.total_remaining(recver_index).len(),
    {
        proof {
            self.post_buffer.lemma_cursor_in_range(recver_index);
        }
        self.pre_buffer.len() + self.post_buffer.len(recver_index)
    }

    /// Hold a new item behind the admission rule.
    pub fn send(&mut self, data: T)
        requires
            old(self).wf(),
        ensures
            final(self).wf(),
            final(self).replay_unchanged(*old(self)),
            final(self).pre_contents() == old(self).pre_contents().push(data),
            final(self).post_storage() == old(self).post_storage(),
            final(self).cursors() == old(self).cursors(),
    {
        self.pre_buffer.send(data);
    }

    /// Hold a batch behind the admission rule.
    pub fn send_items(&mut self, data: Vec<T>)
        requires
            old(self).wf(),
        ensures
            final(self).wf(),
            final(self).replay_unchanged(*old(self)),
            final(self).pre_contents() == old(self).pre_contents() + data@,
            final(self).post_storage() == old(self).post_storage(),
            final(self).cursors() == old(self).cursors(),
    {
        self.pre_buffer.send_items(data);
    }

    /// Under `wf`, receiver `i`'s post-stage cursor lies within the
    /// post-stage storage.
    pub proof fn post_buffer_cursor_bound(&self, i: usize)
        requires
            self.wf(),
        ensures
            crate::dispatch::cursor_or_zero(self.cursors(), i) <= self.post_storage().len(),
    {
        self.post_buffer.lemma_cursor_in_range(i);
    }

    /// Under `wf`, the slowest post-stage cursor sits at the base.
    pub proof fn lemma_wf_base_compacted(&self)
        requires
            self.wf(),
        ensures
            !self.cursors().dom().is_empty() ==> exists|k: usize|
                self.cursors().dom().contains(k) && #[trigger] self.cursors()[k] == 0,
    {
        self.post_buffer.lemma_wf_base_compacted();
    }

    /// Move everything the admission rule admits at `now` from the pre-stage into the
    /// post-stage, in holding order.
    fn release_admitted(&mut self, now: i64)
        requires
            old(self).wf(),
        ensures
            final(self).wf(),
            final(self).replay_unchanged(*old(self)),
            ({
                let k = released_batch_count(
                    old(self).pre_contents(),
                    old(self).data_origin(),
                    old(self).wall_origin(),
                    now,
                    old(self).speed(),
                );
                final(self).pre_contents() == old(self).pre_contents().skip(k) && final(self).post_storage() == old(self).post_storage() + old(self).pre_contents().take(k)
                    && final(self).cursors() == old(self).cursors()
            }),
    {
        proof {
            lemma_admitted_count_bounds(
                self.pre_contents(),
                self.pre_contents().len() as int,
                self.data_origin(),
                self.wall_origin(),
                now,
                self.speed(),
            );
        }
        let plen = self.pre_buffer.len();
        let tmp_data = self.pre_buffer.recv_count_at(plen, false, now);
        self.post_buffer.send_items(tmp_data);
    }

    /// Release what the admission rule admits at `now`, then copy the item under
    /// receiver `i`'s cursor and advance it.
    pub fn recv_at(&mut self, recver_index: usize, now: i64) -> (r: Option<T>)
        requires
            old(self).wf(),
        ensures
            final(self).wf(),
            final(self).replay_unchanged(*old(self)),
            r == (if old(self).admitted_remaining(recver_index, now).len() > 0 {
                Some(old(self).admitted_remaining(recver_index, now)[0])
            } else {
                None::<T>
            }),
            r is Some ==> r == Some(old(self).total_remaining(recver_index)[0]),
            final(self).cursors().dom() == old(self).cursors().dom().insert(recver_index),
            final(self).pre_contents() == old(self).pre_contents().skip(
                released_batch_count(
                    old(self).pre_contents(),
                    old(self).data_origin(),
                    old(self).wall_origin(),
                    now,
                    old(self).speed(),
                ),
            ),
            final(self).total_remaining(recver_index) == old(self).total_remaining(
                recver_index,
            ).skip(
                if r is Some {
                    1int
                } else {
                    0int
                },
            ),
            forall|j: usize|
                j != recver_index && old(self).cursors().dom().contains(j) ==> final(self).total_remaining(j) == old(self).total_remaining(j),
    {
        let ghost pre0 = self.pre_contents();
        let ghost post0 = self.post_storage();
        let ghost m0 = self.cursors();
        let ghost k = released_batch_count(
            pre0,
            self.data_origin(),
            self.wall_origin(),
            now,
            self.speed(),
        );
        proof {
            lemma_admitted_count_bounds(
                pre0,
                pre0.len() as int,
                self.data_origin(),
                self.wall_origin(),
                now,
                self.speed(),
            );
        }
        self.release_admitted(now);
        let ghost rel = pre0.take(k);
        proof {
            assert forall|j: usize| true implies #[trigger] self.post_buffer.remaining(j)
                == old(self).post_buffer.remaining(j) + rel by {
                old(self).post_buffer.lemma_cursor_in_range(j);
                lemma_skip_append(
                    post0,
                    rel,
                    crate::dispatch::cursor_or_zero(m0, j) as int,
                );
            }
        }
        let r = self.post_buffer.recv(recver_index);
        proof {
            let a0 = old(self).post_buffer.remaining(recver_index);
            assert(rel + pre0.skip(k) =~= pre0);
            assert((a0 + rel) + pre0.skip(k) =~= a0 + pre0);
            if r is Some {
                old(self).post_buffer.lemma_cursor_in_range(recver_index);
                lemma_skip_append(a0 + rel, pre0.skip(k), 1);
                assert(self.total_remaining(recver_index) =~= old(self).total_remaining(
                    recver_index,
                ).skip(1));
            } else {
                assert(self.total_remaining(recver_index) =~= old(self).total_remaining(
                    recver_index,
                ).skip(0));
            }
            assert forall|j: usize|
                j != recver_index && m0.dom().contains(j) implies #[trigger] self.total_remaining(
                j,
            ) == old(self).total_remaining(j) by {
                assert(self.post_buffer.remaining(j) == old(self).post_buffer.remaining(j) + rel);
                assert((old(self).post_buffer.remaining(j) + rel) + pre0.skip(k) =~= old(self).post_buffer.remaining(j) + pre0);
            }
        }
        r
    }

    /// Release what the admission rule admits at `now`, then copy up to
    /// `batch_read_len` items from receiver `i`'s cursor on.
    pub fn recv_count_at(&mut self, recver_index: usize, recv_count: usize, force_count: bool, now: i64) -> (r: Vec<T>)
        requires
            old(self).wf(),
        ensures
            final(self).wf(),
            final(self).replay_unchanged(*old(self)),
            r@ == old(self).admitted_remaining(recver_index, now).take(
                crate::dispatch::batch_read_len(
                    old(self).admitted_remaining(recver_index, now).len(),
                    recv_count,
                    force_count,
                ) as int,
            ),
            final(self).cursors().dom() == old(self).cursors().dom().insert(recver_index),
            final(self).pre_contents() == old(self).pre_contents().skip(
                released_batch_count(
                    old(self).pre_contents(),
                    old(self).data_origin(),
                    old(self).wall_origin(),
                    now,
                    old(self).speed(),
                ),
            ),
            final(self).total_remaining(recver_index) == old(self).total_remaining(
                recver_index,
            ).skip(r@.len() as int),
            forall|j: usize|
                j != recver_index && old(self).cursors().dom().contains(j) ==> final(self).total_remaining(j) == old(self).total_remaining(j),
    {
        let ghost pre0 = self.pre_contents();
        let ghost post0 = self.post_storage();
        let ghost m0 = self.cursors();
        let ghost k = released_batch_count(
            pre0,
            self.data_origin(),
            self.wall_origin(),
            now,
            self.speed(),
        );
        proof {
            lemma_admitted_count_bounds(
                pre0,
                pre0.len() as int,
                self.data_origin(),
                self.wall_origin(),
                now,
                self.speed(),
            );
        }
        self.release_admitted(now);
        let ghost rel = pre0.take(k);
        proof {
            assert forall|j: usize| true implies #[trigger] self.post_buffer.remaining(j)
                == old(self).post_buffer.remaining(j) + rel by {
                old(self).post_buffer.lemma_cursor_in_range(j);
                lemma_skip_append(
                    post0,
                    rel,
                    crate::dispatch::cursor_or_zero(m0, j) as int,
                );
            }
        }
        let r = self.post_buffer.recv_count(recver_index, recv_count, force_count);
        proof {
            let a0 = old(self).post_buffer.remaining(recver_index);
            let adv = r@.len() as int;
            assert(rel + pre0.skip(k) =~= pre0);
            assert((a0 + rel) + pre0.skip(k) =~= a0 + pre0);
            assert(adv <= (a0 + rel).len());
            old(self).post_buffer.lemma_cursor_in_range(recver_index);
            lemma_skip_append(a0 + rel, pre0.skip(k), adv);
            assert(self.total_remaining(recver_index) =~= old(self).total_remaining(
                recver_index,
            ).skip(adv));
            assert forall|j: usize|
                j != recver_index && m0.dom().contains(j) implies #[trigger] self.total_remaining(
                j,
            ) == old(self).total_remaining(j) by {
                assert(self.post_buffer.remaining(j) == old(self).post_buffer.remaining(j) + rel);
                assert((old(self).post_buffer.remaining(j) + rel) + pre0.skip(k) =~= old(self).post_buffer.remaining(j) + pre0);
            }
        }
        r
    }

    /// A copy of the items in `[start, end)` of the combined sequence:
    /// released items first, then the held pre-stage.
    pub fn query_items(&self, start: usize, end: Option<usize>) -> (r: Vec<T>)
        requires
            self.len_in_range(),
        ensures
            r@ == query_range(self.post_storage() + self.pre_contents(), start, end),
    {
        let mut combined = self.post_buffer.query_items(0, None);
        let mut pre_items = self.pre_buffer.query_items(0, None);
        proof {
            assert(combined@ =~= self.post_storage());
            assert(pre_items@ =~= self.pre_contents());
        }
        combined.append(&mut pre_items);
        VecExt::query_items(&combined, start, end)
    }

    /// Install a cursor for a new receiver at the post-stage base.
    pub fn new_receiver(&mut self, recver_index: usize)
        requires
            old(self).wf(),
        ensures
            final(self).wf(),
            final(self).replay_unchanged(*old(self)),
            final(self).pre_contents() == old(self).pre_contents(),
            final(self).post_storage() == old(self).post_storage(),
            final(self).cursors() == old(self).cursors().insert(recver_index, 0),
    {
        self.post_buffer.new_receiver(recver_index);
    }

    /// Remove a receiver's cursor; the post-stage compacts past the slowest
    /// survivor.
    pub fn drop_receiver(&mut self, recver_index: usize)
        requires
            old(self).wf(),
        ensures
            final(self).wf(),
            final(self).replay_unchanged(*old(self)),
            final(self).pre_contents() == old(self).pre_contents(),
            final(self).cursors().dom() == old(self).cursors().dom().remove(recver_index),
            forall|j: usize|
                j != recver_index && old(self).cursors().dom().contains(j) ==> final(self).total_remaining(j) == old(self).total_remaining(j),
    {
        self.post_buffer.drop_receiver(recver_index);
        proof {
            assert forall|j: usize|
                j != recver_index && old(self).cursors().dom().contains(j) implies #[trigger] self.total_remaining(
                j,
            ) == old(self).total_remaining(j) by {
                assert(self.post_buffer.remaining(j) == old(self).post_buffer.remaining(j));
            }
        }
    }
}



/// The two-stage bounded broadcast shape: an admission ruled pre-stage feeding a
/// bounded broadcast post-stage.  The pre-stage's live bound shrinks as the
/// post-stage fills, so both stages together never hold more than `cap`
/// items.
pub struct TSBoundedDispatchBuffer<T> {
    pre_buffer: TSUnboundedBuffer<T>,
    post_buffer: crate::dispatch::BoundedDispatchBuffer<T>,
}

impl<T: Copy + GetDataTimeExt> TSBoundedDispatchBuffer<T> {
    /// The held (not yet released) items, oldest first.
    pub closed spec fn pre_contents(&self) -> Seq<T> {
        self.pre_buffer.contents()
    }

    /// The released, broadcast-retained items, oldest first.
    pub closed spec fn post_storage(&self) -> Seq<T> {
        self.post_buffer.storage()
    }

    /// Receiver index to cursor position in the post-stage.
    pub closed spec fn cursors(&self) -> Map<usize, usize> {
        self.post_buffer.cursors()
    }

    /// The capacity both stages share.
    pub closed spec fn cap(&self) -> nat {
        self.post_buffer.cap()
    }

    /// The reference data time of the replay.
    pub closed spec fn data_origin(&self) -> i64 {
        self.pre_buffer.data_origin()
    }

    /// The wall time the replay clock was armed at.
    pub closed spec fn wall_origin(&self) -> i64 {
        self.pre_buffer.wall_origin()
    }

    /// The replay rate.
    pub closed spec fn speed(&self) -> Speed {
        self.pre_buffer.speed()
    }

    /// Both stages are well formed and together hold at most `cap` items.
    pub closed spec fn wf(&self) -> bool {
        self.pre_buffer.wf() && self.post_buffer.wf() && self.pre_contents().len()
            + self.post_storage().len() <= self.cap()
    }

    /// The capacity invariant, as callers see it.
    pub open spec fn within_cap(&self) -> bool {
        self.pre_contents().len() + self.post_storage().len() <= self.cap()
    }

    /// Under `wf`, both stages together stay within the capacity.
    pub proof fn lemma_wf_within_cap(&self)
        requires
            self.wf(),
        ensures
            self.within_cap(),
    {
    }

    /// Everything receiver `i` has yet to read, released or not: its unread
    /// post-stage tail followed by the whole held pre-stage.
    pub open spec fn total_remaining(&self, i: usize) -> Seq<T> {
        self.post_storage().skip(
            crate::dispatch::cursor_or_zero(self.cursors(), i) as int,
        ) + self.pre_contents()
    }

    /// What receiver `i` could read at wall time `now`: its unread
    /// post-stage tail followed by the prefix the admission rule admits.
    pub open spec fn admitted_remaining(&self, i: usize, now: i64) -> Seq<T> {
        self.post_storage().skip(
            crate::dispatch::cursor_or_zero(self.cursors(), i) as int,
        ) + self.pre_contents().take(
            released_batch_count(
                self.pre_contents(),
                self.data_origin(),
                self.wall_origin(),
                now,
                self.speed(),
            ),
        )
    }

    /// The replay parameters and capacity of `other` carried over unchanged.
    pub open spec fn replay_unchanged(&self, other: Self) -> bool {
        self.data_origin() == other.data_origin() && self.wall_origin() == other.wall_origin()
            && self.speed() == other.speed() && self.cap() == other.cap()
    }

    /// Arm the replay clock now, with capacity `bounded` over both stages.
    pub fn new(bounded: usize, start_data_time: i64, speed: Speed) -> (r: Self)
        requires
            speed.wf(),
        ensures
            r.pre_contents() == Seq::<T>::empty(),
            r.post_storage() == Seq::<T>::empty(),
            r.cursors() == Map::<usize, usize>::empty(),
            r.cap() == bounded,
            r.data_origin() == start_data_time,
            r.speed() == speed,
            r.wf(),
    {
        TSBoundedDispatchBuffer {
            pre_buffer: TSUnboundedBuffer::new(start_data_time, speed),
            post_buffer: crate::dispatch::BoundedDispatchBuffer::new(bounded),
        }
    }

    /// How many items receiver `i` has yet to read across both stages.
    pub fn len(&self, recver_index: usize) -> (r: usize)
        requires
            self.wf(),
        ensures
            r == self.total_remaining(recver_index).len(),
    {
        proof {
            self.post_buffer.lemma_cursor_in_range(recver_index);
            self.post_buffer.lemma_cap_fits();
            assert(self.post_buffer.remaining(recver_index).len() <= self.post_storage().len());
        }
        self.pre_buffer.len() + self.post_buffer.len(recver_index)
    }

    /// Shrink the stages to the shared capacity: the post-stage keeps at
    /// most `cap` minus the held count, then the pre-stage keeps its last
    /// `cap` items.
    fn apply_capacity(&mut self)
        requires
            old(self).pre_buffer.wf(),
            old(self).post_buffer.wf(),
        ensures
            final(self).wf(),
            final(self).replay_unchanged(*old(self)),
            final(self).cursors().dom() == old(self).cursors().dom(),
            ({
                let plen = old(self).pre_contents().len();
                let cap = old(self).cap();
                final(self).pre_contents() == keep_last(old(self).pre_contents(), cap) && (plen
                    >= cap ==> final(self).post_storage() == Seq::<T>::empty() && (forall|k: usize|
                    old(self).cursors().dom().contains(k) ==> #[trigger] final(self).cursors()[k]
                        == 0)) && (plen < cap ==> final(self).post_storage() == keep_last(
                    old(self).post_storage(),
                    (cap - plen) as nat,
                ) && (forall|k: usize|
                    old(self).cursors().dom().contains(k) ==> #[trigger] final(self).cursors()[k]
                        == crate::dispatch::clamp_sub(
                        old(self).cursors()[k],
                        crate::dispatch::overflow_count(
                            old(self).post_storage().len(),
                            (cap - plen) as nat,
                        ),
                    )))
            }),
    {
        let plen = self.pre_buffer.len();
        let bound = self.post_buffer.part_queue_get_residue_count(plen);
        self.pre_buffer.part_queue_apply_bound(bound);
    }

    /// Hold a new item behind the admission rule, then shrink to the capacity.
    pub fn send(&mut self, data: T)
        requires
            old(self).wf(),
        ensures
            final(self).wf(),
            final(self).replay_unchanged(*old(self)),
            final(self).cursors().dom() == old(self).cursors().dom(),
            final(self).pre_contents() == keep_last(
                old(self).pre_contents().push(data),
                old(self).cap(),
            ),
            ({
                let plen = old(self).pre_contents().len() + 1;
                let cap = old(self).cap();
                (plen >= cap ==> final(self).post_storage() == Seq::<T>::empty() && (forall|k: usize|
                    old(self).cursors().dom().contains(k) ==> #[trigger] final(self).cursors()[k]
                        == 0)) && (plen < cap ==> final(self).post_storage() == keep_last(
                    old(self).post_storage(),
                    (cap - plen) as nat,
                ) && (forall|k: usize|
                    old(self).cursors().dom().contains(k) ==> #[trigger] final(self).cursors()[k]
                        == crate::dispatch::clamp_sub(
                        old(self).cursors()[k],
                        crate::dispatch::overflow_count(
                            old(self).post_storage().len(),
                            (cap - plen) as nat,
                        ),
                    )))
            }),
    {
        self.pre_buffer.send(data);
        self.apply_capacity();
    }

    /// Hold a batch behind the admission rule, then shrink to the capacity.
    pub fn send_items(&mut self, data: Vec<T>)
        requires
            old(self).wf(),
        ensures
            final(self).wf(),
            final(self).replay_unchanged(*old(self)),
            final(self).cursors().dom() == old(self).cursors().dom(),
            final(self).pre_contents() == keep_last(
                old(self).pre_contents() + data@,
                old(self).cap(),
            ),
            ({
                let plen = old(self).pre_contents().len() + data@.len();
                let cap = old(self).cap();
                (plen >= cap ==> final(self).post_storage() == Seq::<T>::empty() && (forall|k: usize|
                    old(self).cursors().dom().contains(k) ==> #[trigger] final(self).cursors()[k]
                        == 0)) && (plen < cap ==> final(self).post_storage() == keep_last(
                    old(self).post_storage(),
                    (cap - plen) as nat,
                ) && (forall|k: usize|
                    old(self).cursors().dom().contains(k) ==> #[trigger] final(self).cursors()[k]
                        == crate::dispatch::clamp_sub(
                        old(self).cursors()[k],
                        crate::dispatch::overflow_count(
                            old(self).post_storage().len(),
                            (cap - plen) as nat,
                        ),
                    )))
            }),
    {
        self.pre_buffer.send_items(data);
        self.apply_capacity();
    }

    /// Under `wf`, receiver `i`'s post-stage cursor lies within the
    /// post-stage storage.
    pub proof fn post_buffer_cursor_bound(&self, i: usize)
        requires
            self.wf(),
        ensures
            crate::dispatch::cursor_or_zero(self.cursors(), i) <= self.post_storage().len(),
    {
        self.post_buffer.lemma_cursor_in_range(i);
    }

    /// Under `wf`, the slowest post-stage cursor sits at the base.
    pub proof fn lemma_wf_base_compacted(&self)
        requires
            self.wf(),
        ensures
            !self.cursors().dom().is_empty() ==> exists|k: usize|
                self.cursors().dom().contains(k) && #[trigger] self.cursors()[k] == 0,
    {
        self.post_buffer.lemma_wf_base_compacted();
    }

    /// Move everything the admission rule admits at `now` from the pre-stage into the
    /// post-stage; the capacity invariant means nothing overflows.
    fn release_admitted(&mut self, now: i64)
        requires
            old(self).wf(),
        ensures
            final(self).wf(),
            final(self).replay_unchanged(*old(self)),
            ({
                let k = released_batch_count(
                    old(self).pre_contents(),
                    old(self).data_origin(),
                    old(self).wall_origin(),
                    now,
                    old(self).speed(),
                );
                final(self).pre_contents() == old(self).pre_contents().skip(k) && final(self).post_storage() == old(self).post_storage() + old(self).pre_contents().take(k)
                    && final(self).cursors() == old(self).cursors()
            }),
    {
        proof {
            lemma_admitted_count_bounds(
                self.pre_contents(),
                self.pre_contents().len() as int,
                self.data_origin(),
                self.wall_origin(),
                now,
                self.speed(),
            );
        }
        let ghost k = released_batch_count(
            self.pre_contents(),
            self.data_origin(),
            self.wall_origin(),
            now,
            self.speed(),
        );
        let plen = self.pre_buffer.len();
        let tmp_data = self.pre_buffer.recv_count_at(plen, false, now);
        self.post_buffer.send_items(tmp_data);
        proof {
            assert(self.post_buffer.storage() =~= old(self).post_storage() + old(self).pre_contents().take(k));
            assert(self.post_buffer.cursors() =~= old(self).cursors());
        }
    }

    /// Release what the admission rule admits at `now`, then copy the item under
    /// receiver `i`'s cursor and advance it.
    pub fn recv_at(&mut self, recver_index: usize, now: i64) -> (r: Option<T>)
        requires
            old(self).wf(),
        ensures
            final(self).wf(),
            final(self).replay_unchanged(*old(self)),
            r == (if old(self).admitted_remaining(recver_index, now).len() > 0 {
                Some(old(self).admitted_remaining(recver_index, now)[0])
            } else {
                None::<T>
            }),
            r is Some ==> r == Some(old(self).total_remaining(recver_index)[0]),
            final(self).cursors().dom() == old(self).cursors().dom().insert(recver_index),
            final(self).pre_contents() == old(self).pre_contents().skip(
                released_batch_count(
                    old(self).pre_contents(),
                    old(self).data_origin(),
                    old(self).wall_origin(),
                    now,
                    old(self).speed(),
                ),
            ),
            final(self).total_remaining(recver_index) == old(self).total_remaining(
                recver_index,
            ).skip(
                if r is Some {
                    1int
                } else {
                    0int
                },
            ),
            forall|j: usize|
                j != recver_index && old(self).cursors().dom().contains(j) ==> final(self).total_remaining(j) == old(self).total_remaining(j),
    {
        let ghost pre0 = self.pre_contents();
        let ghost post0 = self.post_storage();
        let ghost m0 = self.cursors();
        let ghost k = released_batch_count(
            pre0,
            self.data_origin(),
            self.wall_origin(),
            now,
            self.speed(),
        );
        proof {
            lemma_admitted_count_bounds(
                pre0,
                pre0.len() as int,
                self.data_origin(),
                self.wall_origin(),
                now,
                self.speed(),
            );
        }
        self.release_admitted(now);
        let ghost rel = pre0.take(k);
        proof {
            assert forall|j: usize| true implies #[trigger] self.post_buffer.remaining(j)
                == old(self).post_buffer.remaining(j) + rel by {
                old(self).post_buffer.lemma_cursor_in_range(j);
                lemma_skip_append(
                    post0,
                    rel,
                    crate::dispatch::cursor_or_zero(m0, j) as int,
                );
            }
        }
        let r = self.post_buffer.recv(recver_index);
        proof {
            let a0 = old(self).post_buffer.remaining(recver_index);
            assert(rel + pre0.skip(k) =~= pre0);
            assert((a0 + rel) + pre0.skip(k) =~= a0 + pre0);
            if r is Some {
                old(self).post_buffer.lemma_cursor_in_range(recver_index);
                lemma_skip_append(a0 + rel, pre0.skip(k), 1);
                assert(self.total_remaining(recver_index) =~= old(self).total_remaining(
                    recver_index,
                ).skip(1));
            } else {
                assert(self.total_remaining(recver_index) =~= old(self).total_remaining(
                    recver_index,
                ).skip(0));
            }
            assert forall|j: usize|
                j != recver_index && m0.dom().contains(j) implies #[trigger] self.total_remaining(
                j,
            ) == old(self).total_remaining(j) by {
                assert(self.post_buffer.remaining(j) == old(self).post_buffer.remaining(j) + rel);
                assert((old(self).post_buffer.remaining(j) + rel) + pre0.skip(k) =~= old(self).post_buffer.remaining(j) + pre0);
            }
        }
        r
    }

    /// Release what the admission rule admits at `now`, then copy up to
    /// `batch_read_len` items from receiver `i`'s cursor on.
    pub fn recv_count_at(&mut self, recver_index: usize, recv_count: usize, force_count: bool, now: i64) -> (r: Vec<T>)
        requires
            old(self).wf(),
        ensures
            final(self).wf(),
            final(self).replay_unchanged(*old(self)),
            r@ == old(self).admitted_remaining(recver_index, now).take(
                crate::dispatch::batch_read_len(
                    old(self).admitted_remaining(recver_index, now).len(),
                    recv_count,
                    force_count,
                ) as int,
            ),
            final(self).cursors().dom() == old(self).cursors().dom().insert(recver_index),
            final(self).pre_contents() == old(self).pre_contents().skip(
                released_batch_count(
                    old(self).pre_contents(),
                    old(self).data_origin(),
                    old(self).wall_origin(),
                    now,
                    old(self).speed(),
                ),
            ),
            final(self).total_remaining(recver_index) == old(self).total_remaining(
                recver_index,
            ).skip(r@.len() as int),
            forall|j: usize|
                j != recver_index && old(self).cursors().dom().contains(j) ==> final(self).total_remaining(j) == old(self).total_remaining(j),
    {
        let ghost pre0 = self.pre_contents();
        let ghost post0 = self.post_storage();
        let ghost m0 = self.cursors();
        let ghost k = released_batch_count(
            pre0,
            self.data_origin(),
            self.wall_origin(),
            now,
            self.speed(),
        );
        proof {
            lemma_admitted_count_bounds(
                pre0,
                pre0.len() as int,
                self.data_origin(),
                self.wall_origin(),
                now,
                self.speed(),
            );
        }
        self.release_admitted(now);
        let ghost rel = pre0.take(k);
        proof {
            assert forall|j: usize| true implies #[trigger] self.post_buffer.remaining(j)
                == old(self).post_buffer.remaining(j) + rel by {
                old(self).post_buffer.lemma_cursor_in_range(j);
                lemma_skip_append(
                    post0,
                    rel,
                    crate::dispatch::cursor_or_zero(m0, j) as int,
                );
            }
        }
        let r = self.post_buffer.recv_count(recver_index, recv_count, force_count);
        proof {
            let a0 = old(self).post_buffer.remaining(recver_index);
            let adv = r@.len() as int;
            assert(rel + pre0.skip(k) =~= pre0);
            assert((a0 + rel) + pre0.skip(k) =~= a0 + pre0);
            assert(adv <= (a0 + rel).len());
            old(self).post_buffer.lemma_cursor_in_range(recver_index);
            lemma_skip_append(a0 + rel, pre0.skip(k), adv);
            assert(self.total_remaining(recver_index) =~= old(self).total_remaining(
                recver_index,
            ).skip(adv));
            assert forall|j: usize|
                j != recver_index && m0.dom().contains(j) implies #[trigger] self.total_remaining(
                j,
            ) == old(self).total_remaining(j) by {
                assert(self.post_buffer.remaining(j) == old(self).post_buffer.remaining(j) + rel);
                assert((old(self).post_buffer.remaining(j) + rel) + pre0.skip(k) =~= old(self).post_buffer.remaining(j) + pre0);
            }
        }
        r
    }

    /// A copy of the items in `[start, end)` of the combined sequence:
    /// released items first, then the held pre-stage.
    pub fn query_items(&self, start: usize, end: Option<usize>) -> (r: Vec<T>)
        requires
            self.wf(),
        ensures
            r@ == query_range(self.post_storage() + self.pre_contents(), start, end),
    {
        let mut combined = self.post_buffer.query_items(0, None);
        let mut pre_items = self.pre_buffer.query_items(0, None);
        proof {
            assert(combined@ =~= self.post_storage());
            assert(pre_items@ =~= self.pre_contents());
        }
        combined.append(&mut pre_items);
        VecExt::query_items(&combined, start, end)
    }

    /// Install a cursor for a new receiver at the post-stage base.
    pub fn new_receiver(&mut self, recver_index: usize)
        requires
            old(self).wf(),
        ensures
            final(self).wf(),
            final(self).replay_unchanged(*old(self)),
            final(self).pre_contents() == old(self).pre_contents(),
            final(self).post_storage() == old(self).post_storage(),
            final(self).cursors() == old(self).cursors().insert(recver_index, 0),
    {
        self.post_buffer.new_receiver(recver_index);
    }

    /// Remove a receiver's cursor; the post-stage compacts past the slowest
    /// survivor.
    pub fn drop_receiver(&mut self, recver_index: usize)
        requires
            old(self).wf(),
        ensures
            final(self).wf(),
            final(self).replay_unchanged(*old(self)),
            final(self).pre_contents() == old(self).pre_contents(),
            final(self).cursors().dom() == old(self).cursors().dom().remove(recver_index),
            forall|j: usize|
                j != recver_index && old(self).cursors().dom().contains(j) ==> final(self).total_remaining(j) == old(self).total_remaining(j),
    {
        self.post_buffer.drop_receiver(recver_index);
        proof {
            assert forall|j: usize|
                j != recver_index && old(self).cursors().dom().contains(j) implies #[trigger] self.total_remaining(
                j,
            ) == old(self).total_remaining(j) by {
                assert(self.post_buffer.remaining(j) == old(self).post_buffer.remaining(j));
            }
        }
    }
}



/// The four temporal buffer shapes behind one surface.
pub enum TSAnyBuffer<T> {
    UnboundedBuffer(TSUnboundedBuffer<T>),
    BoundedBuffer(TSBoundedBuffer<T>),
    UnboundedDispatchBuffer(TSUnboundedDispatchBuffer<T>),
    BoundedDispatchBuffer(TSBoundedDispatchBuffer<T>),
}

impl<T: Copy + GetDataTimeExt> TSAnyBuffer<T> {
    /// The held (held) items, oldest first.
    pub closed spec fn pre_contents(&self) -> Seq<T> {
        match self {
            TSAnyBuffer::UnboundedBuffer(b) => b.contents(),
            TSAnyBuffer::BoundedBuffer(b) => b.contents(),
            TSAnyBuffer::UnboundedDispatchBuffer(b) => b.pre_contents(),
            TSAnyBuffer::BoundedDispatchBuffer(b) => b.pre_contents(),
        }
    }

    /// The released, broadcast-retained items; empty for consume shapes.
    pub closed spec fn post_storage(&self) -> Seq<T> {
        match self {
            TSAnyBuffer::UnboundedBuffer(_) => Seq::empty(),
            TSAnyBuffer::BoundedBuffer(_) => Seq::empty(),
            TSAnyBuffer::UnboundedDispatchBuffer(b) => b.post_storage(),
            TSAnyBuffer::BoundedDispatchBuffer(b) => b.post_storage(),
        }
    }

    /// Receiver index to cursor position; empty for consume shapes.
    pub closed spec fn cursors(&self) -> Map<usize, usize> {
        match self {
            TSAnyBuffer::UnboundedBuffer(_) => Map::empty(),
            TSAnyBuffer::BoundedBuffer(_) => Map::empty(),
            TSAnyBuffer::UnboundedDispatchBuffer(b) => b.cursors(),
            TSAnyBuffer::BoundedDispatchBuffer(b) => b.cursors(),
        }
    }

    /// Whether receivers own independent cursors (broadcast delivery).
    pub closed spec fn is_dispatch(&self) -> bool {
        match self {
            TSAnyBuffer::UnboundedBuffer(_) => false,
            TSAnyBuffer::BoundedBuffer(_) => false,
            TSAnyBuffer::UnboundedDispatchBuffer(_) => true,
            TSAnyBuffer::BoundedDispatchBuffer(_) => true,
        }
    }

    /// The capacity, where the shape has one.
    pub closed spec fn cap(&self) -> Option<nat> {
        match self {
            TSAnyBuffer::UnboundedBuffer(_) => None,
            TSAnyBuffer::BoundedBuffer(b) => Some(b.cap()),
            TSAnyBuffer::UnboundedDispatchBuffer(_) => None,
            TSAnyBuffer::BoundedDispatchBuffer(b) => Some(b.cap()),
        }
    }

    /// The reference data time of the replay.
    pub closed spec fn data_origin(&self) -> i64 {
        match self {
            TSAnyBuffer::UnboundedBuffer(b) => b.data_origin(),
            TSAnyBuffer::BoundedBuffer(b) => b.data_origin(),
            TSAnyBuffer::UnboundedDispatchBuffer(b) => b.data_origin(),
            TSAnyBuffer::BoundedDispatchBuffer(b) => b.data_origin(),
        }
    }

    /// The wall time the replay clock was armed at.
    pub closed spec fn wall_origin(&self) -> i64 {
        match self {
            TSAnyBuffer::UnboundedBuffer(b) => b.wall_origin(),
            TSAnyBuffer::BoundedBuffer(b) => b.wall_origin(),
            TSAnyBuffer::UnboundedDispatchBuffer(b) => b.wall_origin(),
            TSAnyBuffer::BoundedDispatchBuffer(b) => b.wall_origin(),
        }
    }

    /// The replay rate.
    pub closed spec fn speed(&self) -> Speed {
        match self {
            TSAnyBuffer::UnboundedBuffer(b) => b.speed(),
            TSAnyBuffer::BoundedBuffer(b) => b.speed(),
            TSAnyBuffer::UnboundedDispatchBuffer(b) => b.speed(),
            TSAnyBuffer::BoundedDispatchBuffer(b) => b.speed(),
        }
    }

    pub closed spec fn wf(&self) -> bool {
        match self {
            TSAnyBuffer::UnboundedBuffer(b) => b.wf(),
            TSAnyBuffer::BoundedBuffer(b) => b.wf(),
            TSAnyBuffer::UnboundedDispatchBuffer(b) => b.wf(),
            TSAnyBuffer::BoundedDispatchBuffer(b) => b.wf(),
        }
    }

    /// Everything receiver `i` has yet to read, released or not.
    pub open spec fn total_remaining(&self, i: usize) -> Seq<T> {
        self.post_storage().skip(
            crate::dispatch::cursor_or_zero(self.cursors(), i) as int,
        ) + self.pre_contents()
    }

    /// What receiver `i` could read at wall time `now`: its unread released
    /// tail followed by the held prefix the admission rule admits.
    pub open spec fn admitted_remaining(&self, i: usize, now: i64) -> Seq<T> {
        self.post_storage().skip(
            crate::dispatch::cursor_or_zero(self.cursors(), i) as int,
        ) + self.pre_contents().take(
            released_batch_count(
                self.pre_contents(),
                self.data_origin(),
                self.wall_origin(),
                now,
                self.speed(),
            ),
        )
    }

    /// Both stages fit a `usize` length together.
    pub open spec fn len_in_range(&self) -> bool {
        self.pre_contents().len() + self.post_storage().len() <= usize::MAX
    }

    /// The replay parameters of `other` carried over unchanged.
    pub open spec fn replay_unchanged(&self, other: Self) -> bool {
        self.data_origin() == other.data_origin() && self.wall_origin() == other.wall_origin()
            && self.speed() == other.speed() && self.is_dispatch() == other.is_dispatch()
            && self.cap() == other.cap()
    }

    /// The slowest post-stage cursor sits at the base: whenever any cursor
    /// exists, some cursor is 0.
    pub open spec fn base_compacted(&self) -> bool {
        !self.cursors().dom().is_empty() ==> exists|k: usize|
            self.cursors().dom().contains(k) && #[trigger] self.cursors()[k] == 0
    }

    /// `wf` carries the compaction invariant.
    pub proof fn lemma_wf_base_compacted(&self)
        requires
            self.wf(),
        ensures
            self.base_compacted(),
    {
        match self {
            TSAnyBuffer::UnboundedBuffer(_) => {
                assert(self.cursors().dom() =~= Set::<usize>::empty());
            },
            TSAnyBuffer::BoundedBuffer(_) => {
                assert(self.cursors().dom() =~= Set::<usize>::empty());
            },
            TSAnyBuffer::UnboundedDispatchBuffer(b) => b.lemma_wf_base_compacted(),
            TSAnyBuffer::BoundedDispatchBuffer(b) => b.lemma_wf_base_compacted(),
        }
    }

    /// Build the shape selected by `bounded` and `dispatch`, arming the
    /// admission now.
    pub fn new(bounded: Option<usize>, dispatch: bool, start_data_time: i64, speed: Speed) -> (r:
        Self)
        requires
            speed.wf(),
        ensures
            r.pre_contents() == Seq::<T>::empty(),
            r.post_storage() == Seq::<T>::empty(),
            r.cursors() == Map::<usize, usize>::empty(),
            r.is_dispatch() == dispatch,
            r.cap() == (match bounded {
                Option::None => None::<nat>,
                Option::Some(b) => Some(b as nat),
            }),
            r.data_origin() == start_data_time,
            r.speed() == speed,
            r.wf(),
    {
        match (bounded, dispatch) {
            (None, false) => TSAnyBuffer::UnboundedBuffer(
                TSUnboundedBuffer::new(start_data_time, speed),
            ),
            (Some(b), false) => TSAnyBuffer::BoundedBuffer(
                TSBoundedBuffer::new(b, start_data_time, speed),
            ),
            (None, true) => TSAnyBuffer::UnboundedDispatchBuffer(
                TSUnboundedDispatchBuffer::new(start_data_time, speed),
            ),
            (Some(b), true) => TSAnyBuffer::BoundedDispatchBuffer(
                TSBoundedDispatchBuffer::new(b, start_data_time, speed),
            ),
        }
    }

    /// Hold one item behind the admission rule; bounded shapes shrink to capacity.
    pub fn send(&mut self, data: T)
        requires
            old(self).wf(),
        ensures
            final(self).wf(),
            final(self).replay_unchanged(*old(self)),
            final(self).cursors().dom() == old(self).cursors().dom(),
            old(self).cap() is None ==> final(self).pre_contents() == old(self).pre_contents().push(data) && final(self).post_storage() == old(self).post_storage()
                && final(self).cursors() == old(self).cursors(),
            old(self).cap() matches Some(c) ==> final(self).pre_contents() == keep_last(
                old(self).pre_contents().push(data),
                c,
            ),
            old(self).cap() matches Some(c) ==> old(self).is_dispatch() ==> ({
                let plen = old(self).pre_contents().len() + 1;
                (plen >= c ==> final(self).post_storage() == Seq::<T>::empty() && (forall|k: usize|
                    old(self).cursors().dom().contains(k) ==> #[trigger] final(self).cursors()[k]
                        == 0)) && (plen < c ==> final(self).post_storage() == keep_last(
                    old(self).post_storage(),
                    (c - plen) as nat,
                ) && (forall|k: usize|
                    old(self).cursors().dom().contains(k) ==> #[trigger] final(self).cursors()[k]
                        == crate::dispatch::clamp_sub(
                        old(self).cursors()[k],
                        crate::dispatch::overflow_count(
                            old(self).post_storage().len(),
                            (c - plen) as nat,
                        ),
                    )))
            }),
    {
        match self {
            TSAnyBuffer::UnboundedBuffer(b) => b.send(data),
            TSAnyBuffer::BoundedBuffer(b) => b.send(data),
            TSAnyBuffer::UnboundedDispatchBuffer(b) => b.send(data),
            TSAnyBuffer::BoundedDispatchBuffer(b) => b.send(data),
        }
    }

    /// Hold a batch behind the admission rule; bounded shapes shrink to capacity.
    pub fn send_items(&mut self, data: Vec<T>)
        requires
            old(self).wf(),
        ensures
            final(self).wf(),
            final(self).replay_unchanged(*old(self)),
            final(self).cursors().dom() == old(self).cursors().dom(),
            old(self).cap() is None ==> final(self).pre_contents() == old(self).pre_contents()
                + data@ && final(self).post_storage() == old(self).post_storage() && final(self).cursors() == old(self).cursors(),
            old(self).cap() matches Some(c) ==> final(self).pre_contents() == keep_last(
                old(self).pre_contents() + data@,
                c,
            ),
            old(self).cap() matches Some(c) ==> old(self).is_dispatch() ==> ({
                let plen = old(self).pre_contents().len() + data@.len();
                (plen >= c ==> final(self).post_storage() == Seq::<T>::empty() && (forall|k: usize|
                    old(self).cursors().dom().contains(k) ==> #[trigger] final(self).cursors()[k]
                        == 0)) && (plen < c ==> final(self).post_storage() == keep_last(
                    old(self).post_storage(),
                    (c - plen) as nat,
                ) && (forall|k: usize|
                    old(self).cursors().dom().contains(k) ==> #[trigger] final(self).cursors()[k]
                        == crate::dispatch::clamp_sub(
                        old(self).cursors()[k],
                        crate::dispatch::overflow_count(
                            old(self).post_storage().len(),
                            (c - plen) as nat,
                        ),
                    )))
            }),
    {
        match self {
            TSAnyBuffer::UnboundedBuffer(b) => b.send_items(data),
            TSAnyBuffer::BoundedBuffer(b) => b.send_items(data),
            TSAnyBuffer::UnboundedDispatchBuffer(b) => b.send_items(data),
            TSAnyBuffer::BoundedDispatchBuffer(b) => b.send_items(data),
        }
    }

    /// Read one item for receiver `i` at wall time `now`: consume shapes
    /// remove the head when the admission rule admits it; dispatch shapes first
    /// release everything admitted into the post-stage, then read under
    /// `i`'s cursor.
    pub fn recv_at(&mut self, recver_index: usize, now: i64) -> (r: Option<T>)
        requires
            old(self).wf(),
        ensures
            final(self).wf(),
            final(self).replay_unchanged(*old(self)),
            r is Some ==> r == Some(old(self).total_remaining(recver_index)[0]),
            final(self).total_remaining(recver_index) == old(self).total_remaining(
                recver_index,
            ).skip(
                if r is Some {
                    1int
                } else {
                    0int
                },
            ),
            forall|j: usize|
                j != recver_index && old(self).cursors().dom().contains(j) ==> final(self).total_remaining(j) == old(self).total_remaining(j),
            !old(self).is_dispatch() ==> r == ts_recv_outcome(
                old(self).pre_contents(),
                old(self).data_origin(),
                old(self).wall_origin(),
                now,
                old(self).speed(),
            ) && final(self).cursors() == old(self).cursors(),
            old(self).is_dispatch() ==> ({
                let k = released_batch_count(
                    old(self).pre_contents(),
                    old(self).data_origin(),
                    old(self).wall_origin(),
                    now,
                    old(self).speed(),
                );
                let avail = old(self).post_storage().skip(
                    crate::dispatch::cursor_or_zero(old(self).cursors(), recver_index) as int,
                ) + old(self).pre_contents().take(k);
                r == (if avail.len() > 0 {
                    Some(avail[0])
                } else {
                    None::<T>
                }) && final(self).pre_contents() == old(self).pre_contents().skip(k) && final(self).cursors().dom() == old(self).cursors().dom().insert(recver_index)
            }),
    {
        let ghost pre = *self;
        let r = match self {
            TSAnyBuffer::UnboundedBuffer(b) => b.recv_at(now),
            TSAnyBuffer::BoundedBuffer(b) => b.recv_at(now),
            TSAnyBuffer::UnboundedDispatchBuffer(b) => b.recv_at(recver_index, now),
            TSAnyBuffer::BoundedDispatchBuffer(b) => b.recv_at(recver_index, now),
        };
        proof {
            if !pre.is_dispatch() {
                assert(pre.total_remaining(recver_index) =~= pre.pre_contents());
                assert(self.total_remaining(recver_index) =~= self.pre_contents());
                if r is None {
                    assert(self.total_remaining(recver_index) =~= pre.total_remaining(
                        recver_index,
                    ).skip(0));
                }
            } else {
                assert forall|j: usize|
                    j != recver_index && pre.cursors().dom().contains(j) implies #[trigger] self.total_remaining(
                    j,
                ) == pre.total_remaining(j) by {
                    if pre is UnboundedDispatchBuffer {
                        assert(self->UnboundedDispatchBuffer_0.total_remaining(j)
                            == pre->UnboundedDispatchBuffer_0.total_remaining(j));
                    } else {
                        assert(self->BoundedDispatchBuffer_0.total_remaining(j)
                            == pre->BoundedDispatchBuffer_0.total_remaining(j));
                    }
                }
            }
        }
        r
    }

    /// Read one item for receiver `i` against the wall clock.
    pub fn recv(&mut self, recver_index: usize) -> (r: Option<T>)
        requires
            old(self).wf(),
        ensures
            final(self).wf(),
            final(self).replay_unchanged(*old(self)),
            r is Some ==> r == Some(old(self).total_remaining(recver_index)[0]),
            final(self).total_remaining(recver_index) == old(self).total_remaining(
                recver_index,
            ).skip(
                if r is Some {
                    1int
                } else {
                    0int
                },
            ),
            forall|j: usize|
                j != recver_index && old(self).cursors().dom().contains(j) ==> final(self).total_remaining(j) == old(self).total_remaining(j),
            !old(self).is_dispatch() ==> exists|now: i64|
                r == #[trigger] ts_recv_outcome(
                    old(self).pre_contents(),
                    old(self).data_origin(),
                    old(self).wall_origin(),
                    now,
                    old(self).speed(),
                ),
            old(self).is_dispatch() ==> final(self).cursors().dom() == old(self).cursors().dom().insert(recver_index),
    {
        let now = now_nanos();
        let r = self.recv_at(recver_index, now);
        r
    }

    /// Read up to `recv_count` items for receiver `i` at wall time `now`.
    pub fn recv_count_at(&mut self, recver_index: usize, recv_count: usize, force_count: bool, now: i64) -> (r: Vec<T>)
        requires
            old(self).wf(),
        ensures
            final(self).wf(),
            final(self).replay_unchanged(*old(self)),
            r@ == old(self).total_remaining(recver_index).take(r@.len() as int),
            final(self).total_remaining(recver_index) == old(self).total_remaining(
                recver_index,
            ).skip(r@.len() as int),
            forall|j: usize|
                j != recver_index && old(self).cursors().dom().contains(j) ==> final(self).total_remaining(j) == old(self).total_remaining(j),
            !old(self).is_dispatch() ==> r@.len() as int == admitted_count(
                old(self).pre_contents(),
                consume_read_count(
                    old(self).pre_contents().len(),
                    recv_count,
                    force_count,
                ) as int,
                old(self).data_origin(),
                old(self).wall_origin(),
                now,
                old(self).speed(),
            ) && final(self).cursors() == old(self).cursors(),
            old(self).is_dispatch() ==> ({
                let k = released_batch_count(
                    old(self).pre_contents(),
                    old(self).data_origin(),
                    old(self).wall_origin(),
                    now,
                    old(self).speed(),
                );
                r@.len() as int == crate::dispatch::batch_read_len(
                    old(self).admitted_remaining(recver_index, now).len(),
                    recv_count,
                    force_count,
                ) as int && final(self).pre_contents() == old(self).pre_contents().skip(k)
                    && final(self).cursors().dom() == old(self).cursors().dom().insert(
                    recver_index,
                )
            }),
    {
        let ghost pre = *self;
        let r = match self {
            TSAnyBuffer::UnboundedBuffer(b) => b.recv_count_at(recv_count, force_count, now),
            TSAnyBuffer::BoundedBuffer(b) => b.recv_count_at(recv_count, force_count, now),
            TSAnyBuffer::UnboundedDispatchBuffer(b) => b.recv_count_at(
                recver_index,
                recv_count,
                force_count,
                now,
            ),
            TSAnyBuffer::BoundedDispatchBuffer(b) => b.recv_count_at(
                recver_index,
                recv_count,
                force_count,
                now,
            ),
        };
        proof {
            if !pre.is_dispatch() {
                lemma_admitted_count_bounds(
                    pre.pre_contents(),
                    consume_read_count(
                        pre.pre_contents().len(),
                        recv_count,
                        force_count,
                    ) as int,
                    pre.data_origin(),
                    pre.wall_origin(),
                    now,
                    pre.speed(),
                );
                assert(pre.total_remaining(recver_index) =~= pre.pre_contents());
                assert(self.total_remaining(recver_index) =~= self.pre_contents());
                assert(r@ =~= pre.total_remaining(recver_index).take(r@.len() as int));
                assert(self.total_remaining(recver_index) =~= pre.total_remaining(
                    recver_index,
                ).skip(r@.len() as int));
            } else {
                let ghost k = released_batch_count(
                    pre.pre_contents(),
                    pre.data_origin(),
                    pre.wall_origin(),
                    now,
                    pre.speed(),
                );
                lemma_admitted_count_bounds(
                    pre.pre_contents(),
                    pre.pre_contents().len() as int,
                    pre.data_origin(),
                    pre.wall_origin(),
                    now,
                    pre.speed(),
                );
                let ghost a0 = pre.post_storage().skip(
                    crate::dispatch::cursor_or_zero(pre.cursors(), recver_index) as int,
                );
                let ghost avail = a0 + pre.pre_contents().take(k);
                if pre is UnboundedDispatchBuffer {
                    pre->UnboundedDispatchBuffer_0.post_buffer_cursor_bound(recver_index);
                } else {
                    pre->BoundedDispatchBuffer_0.post_buffer_cursor_bound(recver_index);
                }
                assert(r@.len() as int == crate::dispatch::batch_read_len(
                    avail.len(),
                    recv_count,
                    force_count,
                ) as int);
                assert(r@ =~= pre.total_remaining(recver_index).take(r@.len() as int)) by {
                    assert(r@ == avail.take(r@.len() as int));
                    assert(avail.take(r@.len() as int) =~= (a0 + pre.pre_contents()).take(
                        r@.len() as int,
                    ));
                }
                assert forall|j: usize|
                    j != recver_index && pre.cursors().dom().contains(j) implies #[trigger] self.total_remaining(
                    j,
                ) == pre.total_remaining(j) by {
                    if pre is UnboundedDispatchBuffer {
                        assert(self->UnboundedDispatchBuffer_0.total_remaining(j)
                            == pre->UnboundedDispatchBuffer_0.total_remaining(j));
                    } else {
                        assert(self->BoundedDispatchBuffer_0.total_remaining(j)
                            == pre->BoundedDispatchBuffer_0.total_remaining(j));
                    }
                }
            }
        }
        r
    }

    /// Read up to `recv_count` items for receiver `i` against the wall
    /// clock.
    pub fn recv_count(&mut self, recver_index: usize, recv_count: usize, force_count: bool) -> (r:
        Vec<T>)
        requires
            old(self).wf(),
        ensures
            final(self).wf(),
            final(self).replay_unchanged(*old(self)),
            r@ == old(self).total_remaining(recver_index).take(r@.len() as int),
            final(self).total_remaining(recver_index) == old(self).total_remaining(
                recver_index,
            ).skip(r@.len() as int),
            forall|j: usize|
                j != recver_index && old(self).cursors().dom().contains(j) ==> final(self).total_remaining(j) == old(self).total_remaining(j),
            old(self).is_dispatch() ==> final(self).cursors().dom() == old(self).cursors().dom().insert(recver_index),
            !old(self).is_dispatch() ==> final(self).cursors() == old(self).cursors(),
    {
        let now = now_nanos();
        self.recv_count_at(recver_index, recv_count, force_count, now)
    }

    /// A copy of the items in `[start, end)` of the combined sequence:
    /// released items first, then the held ones.
    pub fn query_items(&self, start: usize, end: Option<usize>) -> (r: Vec<T>)
        requires
            self.wf(),
            self.len_in_range(),
        ensures
            r@ == query_range(self.post_storage() + self.pre_contents(), start, end),
    {
        let r = match self {
            TSAnyBuffer::UnboundedBuffer(b) => b.query_items(start, end),
            TSAnyBuffer::BoundedBuffer(b) => b.query_items(start, end),
            TSAnyBuffer::UnboundedDispatchBuffer(b) => b.query_items(start, end),
            TSAnyBuffer::BoundedDispatchBuffer(b) => b.query_items(start, end),
        };
        proof {
            if !self.is_dispatch() {
                assert(self.post_storage() + self.pre_contents() =~= self.pre_contents());
            }
        }
        r
    }

    /// How many items receiver `i` has yet to read across both stages.
    pub fn len(&self, recver_index: usize) -> (r: usize)
        requires
            self.wf(),
            self.len_in_range(),
        ensures
            r == self.total_remaining(recver_index).len(),
    {
        let r = match self {
            TSAnyBuffer::UnboundedBuffer(b) => b.len(),
            TSAnyBuffer::BoundedBuffer(b) => b.len(),
            TSAnyBuffer::UnboundedDispatchBuffer(b) => b.len(recver_index),
            TSAnyBuffer::BoundedDispatchBuffer(b) => b.len(recver_index),
        };
        proof {
            if !self.is_dispatch() {
                assert(self.total_remaining(recver_index) =~= self.pre_contents());
            }
        }
        r
    }

    /// Install a cursor for receiver `i`; a no-op on consume shapes.
    pub fn new_receiver(&mut self, recver_index: usize)
        requires
            old(self).wf(),
        ensures
            final(self).wf(),
            final(self).replay_unchanged(*old(self)),
            final(self).pre_contents() == old(self).pre_contents(),
            final(self).post_storage() == old(self).post_storage(),
            old(self).is_dispatch() ==> final(self).cursors() == old(self).cursors().insert(
                recver_index,
                0,
            ),
            !old(self).is_dispatch() ==> final(self).cursors() == old(self).cursors(),
    {
        match self {
            TSAnyBuffer::UnboundedBuffer(_) => {},
            TSAnyBuffer::BoundedBuffer(_) => {},
            TSAnyBuffer::UnboundedDispatchBuffer(b) => b.new_receiver(recver_index),
            TSAnyBuffer::BoundedDispatchBuffer(b) => b.new_receiver(recver_index),
        }
    }

    /// Remove receiver `i`'s cursor; a no-op on consume shapes.
    pub fn drop_receiver(&mut self, recver_index: usize)
        requires
            old(self).wf(),
        ensures
            final(self).wf(),
            final(self).replay_unchanged(*old(self)),
            final(self).pre_contents() == old(self).pre_contents(),
            final(self).cursors().dom() == old(self).cursors().dom().remove(recver_index),
            forall|j: usize|
                j != recver_index && old(self).cursors().dom().contains(j) ==> final(self).total_remaining(j) == old(self).total_remaining(j),
            !old(self).is_dispatch() ==> final(self).post_storage() == old(self).post_storage()
                && final(self).cursors() == old(self).cursors(),
    {
        let ghost pre = *self;
        match self {
            TSAnyBuffer::UnboundedBuffer(_) => {},
            TSAnyBuffer::BoundedBuffer(_) => {},
            TSAnyBuffer::UnboundedDispatchBuffer(b) => b.drop_receiver(recver_index),
            TSAnyBuffer::BoundedDispatchBuffer(b) => b.drop_receiver(recver_index),
        }
        proof {
            if !pre.is_dispatch() {
                assert(pre.cursors().dom().remove(recver_index) =~= pre.cursors().dom());
            } else {
                assert forall|j: usize|
                    j != recver_index && pre.cursors().dom().contains(j) implies #[trigger] self.total_remaining(
                    j,
                ) == pre.total_remaining(j) by {
                    if pre is UnboundedDispatchBuffer {
                        assert(self->UnboundedDispatchBuffer_0.total_remaining(j)
                            == pre->UnboundedDispatchBuffer_0.total_remaining(j));
                    } else {
                        assert(self->BoundedDispatchBuffer_0.total_remaining(j)
                            == pre->BoundedDispatchBuffer_0.total_remaining(j));
                    }
                }
            }
        }
    }
}



/// The shared state of a temporal channel: the admission ruled buffer, the handle
/// counts, and the monotone receiver-index allocator.
pub struct TSChannel<T> {
    sender_count: usize,
    receiver_count: usize,
    max_receiver_index: usize,
    buf: TSAnyBuffer<T>,
}

/// A producer handle of a temporal channel.
pub struct TSSender {
    marker: (),
}

/// A consumer handle of a temporal channel, reading under its own index.
pub struct TSReceiver {
    index: usize,
}

impl TSReceiver {
    /// The receiver index this handle reads under.
    pub closed spec fn id(&self) -> usize {
        self.index
    }
}

/// A read-only handle of a temporal channel: counted as a receiver, but
/// owning no cursor.
pub struct TSObserver {
    marker: (),
}

impl<T: Copy + GetDataTimeExt> TSChannel<T> {
    /// The buffer under the lock.
    pub closed spec fn buffer(&self) -> TSAnyBuffer<T> {
        self.buf
    }

    /// How many sender handles are live.
    pub closed spec fn sender_count(&self) -> usize {
        self.sender_count
    }

    /// How many receiver and observer handles are live.
    pub closed spec fn receiver_count(&self) -> usize {
        self.receiver_count
    }

    /// The next receiver index to allocate; strictly monotone, never
    /// reused.
    pub closed spec fn max_receiver_index(&self) -> usize {
        self.max_receiver_index
    }

    /// The buffer is well formed and every cursor belongs to an allocated
    /// receiver index.
    pub open spec fn wf(&self) -> bool {
        self.buffer().wf() && forall|k: usize|
            self.buffer().cursors().dom().contains(k) ==> k < self.max_receiver_index()
    }

    /// The counts of `other` carried over unchanged.
    pub open spec fn counts_unchanged(&self, other: Self) -> bool {
        self.sender_count() == other.sender_count() && self.receiver_count()
            == other.receiver_count() && self.max_receiver_index() == other.max_receiver_index()
    }


    /// The live sender-handle count.
    pub fn live_sender_count(&self) -> (r: usize)
        ensures
            r == self.sender_count(),
    {
        self.sender_count
    }

    /// The live receiver- and observer-handle count.
    pub fn live_receiver_count(&self) -> (r: usize)
        ensures
            r == self.receiver_count(),
    {
        self.receiver_count
    }

    /// The next receiver index that will be allocated.
    pub fn next_receiver_index(&self) -> (r: usize)
        ensures
            r == self.max_receiver_index(),
    {
        self.max_receiver_index
    }

    /// A fresh temporal channel with one sender and one receiver, its
    /// replay clock armed now; the receiver takes index 0 and, in dispatch
    /// mode, owns a cursor at the base.
    pub fn new(bounded: Option<usize>, dispatch: bool, start_data_time: i64, speed: Speed) -> (r: (
        TSChannel<T>,
        TSSender,
        TSReceiver,
    ))
        requires
            speed.wf(),
        ensures
            r.0.wf(),
            r.0.sender_count() == 1,
            r.0.receiver_count() == 1,
            r.0.max_receiver_index() == 1,
            r.0.buffer().pre_contents() == Seq::<T>::empty(),
            r.0.buffer().post_storage() == Seq::<T>::empty(),
            dispatch ==> r.0.buffer().cursors() == Map::<usize, usize>::empty().insert(0, 0),
            !dispatch ==> r.0.buffer().cursors() == Map::<usize, usize>::empty(),
            r.0.buffer().is_dispatch() == dispatch,
            r.0.buffer().cap() == (match bounded {
                Option::None => None::<nat>,
                Option::Some(b) => Some(b as nat),
            }),
            r.0.buffer().data_origin() == start_data_time,
            r.0.buffer().speed() == speed,
            r.2.id() == 0,
    {
        let mut buf = TSAnyBuffer::new(bounded, dispatch, start_data_time, speed);
        buf.new_receiver(0);
        let chan = TSChannel {
            sender_count: 1,
            receiver_count: 1,
            max_receiver_index: 1,
            buf,
        };
        (chan, TSSender { marker: () }, TSReceiver { index: 0 })
    }

    /// A further sender handle; `sender_count` grows by one.
    pub fn clone_sender(&mut self, _from: &TSSender) -> (r: TSSender)
        requires
            old(self).sender_count() < usize::MAX,
        ensures
            final(self).sender_count() == old(self).sender_count() + 1,
            final(self).receiver_count() == old(self).receiver_count(),
            final(self).max_receiver_index() == old(self).max_receiver_index(),
            final(self).buffer() == old(self).buffer(),
    {
        self.sender_count = self.sender_count + 1;
        TSSender { marker: () }
    }

    /// A further receiver handle under a fresh index, with a cursor at the
    /// post-stage base; `receiver_count` grows by one.
    pub fn clone_receiver(&mut self, _from: &TSReceiver) -> (r: TSReceiver)
        requires
            old(self).wf(),
            old(self).receiver_count() < usize::MAX,
            old(self).max_receiver_index() < usize::MAX,
        ensures
            final(self).wf(),
            final(self).sender_count() == old(self).sender_count(),
            final(self).receiver_count() == old(self).receiver_count() + 1,
            final(self).max_receiver_index() == old(self).max_receiver_index() + 1,
            r.id() == old(self).max_receiver_index(),
            final(self).buffer().pre_contents() == old(self).buffer().pre_contents(),
            final(self).buffer().post_storage() == old(self).buffer().post_storage(),
            final(self).buffer().replay_unchanged(old(self).buffer()),
            old(self).buffer().is_dispatch() ==> final(self).buffer().cursors() == old(self).buffer().cursors().insert(r.id(), 0),
            !old(self).buffer().is_dispatch() ==> final(self).buffer().cursors() == old(self).buffer().cursors(),
    {
        self.receiver_count = self.receiver_count + 1;
        let index = self.max_receiver_index;
        self.max_receiver_index = self.max_receiver_index + 1;
        self.buf.new_receiver(index);
        TSReceiver { index }
    }

    /// Drop a sender handle.  The shared state is to be destroyed exactly
    /// when the returned flag is set: both counts have reached zero.
    pub fn drop_sender(&mut self, handle: TSSender) -> (destroy: bool)
        requires
            old(self).sender_count() >= 1,
        ensures
            final(self).sender_count() == old(self).sender_count() - 1,
            final(self).receiver_count() == old(self).receiver_count(),
            final(self).max_receiver_index() == old(self).max_receiver_index(),
            final(self).buffer() == old(self).buffer(),
            destroy == (final(self).sender_count() == 0 && final(self).receiver_count() == 0),
    {
        let _ = handle;
        self.sender_count = self.sender_count - 1;
        self.sender_count == 0 && self.receiver_count == 0
    }

    /// Drop a receiver handle: its cursor is removed and `receiver_count`
    /// shrinks.  The shared state is to be destroyed exactly when the
    /// returned flag is set: both counts have reached zero.
    pub fn drop_receiver_handle(&mut self, handle: TSReceiver) -> (destroy: bool)
        requires
            old(self).wf(),
            old(self).receiver_count() >= 1,
        ensures
            final(self).wf(),
            final(self).sender_count() == old(self).sender_count(),
            final(self).receiver_count() == old(self).receiver_count() - 1,
            final(self).max_receiver_index() == old(self).max_receiver_index(),
            final(self).buffer().replay_unchanged(old(self).buffer()),
            final(self).buffer().pre_contents() == old(self).buffer().pre_contents(),
            final(self).buffer().cursors().dom() == old(self).buffer().cursors().dom().remove(
                handle.id(),
            ),
            forall|j: usize|
                j != handle.id() && old(self).buffer().cursors().dom().contains(j) ==> final(self).buffer().total_remaining(j) == old(self).buffer().total_remaining(j),
            destroy == (final(self).sender_count() == 0 && final(self).receiver_count() == 0),
    {
        self.buf.drop_receiver(handle.index);
        self.receiver_count = self.receiver_count - 1;
        self.sender_count == 0 && self.receiver_count == 0
    }

    /// Drop an observer handle: `receiver_count` shrinks and the buffer is
    /// untouched.  The shared state is to be destroyed exactly when the
    /// returned flag is set: both counts have reached zero.
    pub fn drop_observer(&mut self, handle: TSObserver) -> (destroy: bool)
        requires
            old(self).receiver_count() >= 1,
        ensures
            final(self).sender_count() == old(self).sender_count(),
            final(self).receiver_count() == old(self).receiver_count() - 1,
            final(self).max_receiver_index() == old(self).max_receiver_index(),
            final(self).buffer() == old(self).buffer(),
            destroy == (final(self).sender_count() == 0 && final(self).receiver_count() == 0),
    {
        let _ = handle;
        self.receiver_count = self.receiver_count - 1;
        self.sender_count == 0 && self.receiver_count == 0
    }
}

impl TSSender {
    /// Hold one item behind the channel's admission.
    pub fn send<T: Copy + GetDataTimeExt>(&self, chan: &mut TSChannel<T>, data: T)
        requires
            old(chan).wf(),
        ensures
            final(chan).wf(),
            final(chan).counts_unchanged(*old(chan)),
            final(chan).buffer().replay_unchanged(old(chan).buffer()),
            final(chan).buffer().cursors().dom() == old(chan).buffer().cursors().dom(),
            old(chan).buffer().cap() is None ==> final(chan).buffer().pre_contents() == old(chan).buffer().pre_contents().push(data) && final(chan).buffer().post_storage() == old(chan).buffer().post_storage(),
            old(chan).buffer().cap() matches Some(c) ==> final(chan).buffer().pre_contents()
                == keep_last(old(chan).buffer().pre_contents().push(data), c) && (old(chan).buffer().is_dispatch() ==> ({
                let plen = old(chan).buffer().pre_contents().len() + 1;
                (plen >= c ==> final(chan).buffer().post_storage() == Seq::<T>::empty() && (forall|k: usize|
                    old(chan).buffer().cursors().dom().contains(k) ==> #[trigger] final(chan).buffer().cursors()[k] == 0)) && (plen < c ==> final(chan).buffer().post_storage() == keep_last(
                    old(chan).buffer().post_storage(),
                    (c - plen) as nat,
                ) && (forall|k: usize|
                    old(chan).buffer().cursors().dom().contains(k) ==> #[trigger] final(chan).buffer().cursors()[k] == crate::dispatch::clamp_sub(
                        old(chan).buffer().cursors()[k],
                        crate::dispatch::overflow_count(
                            old(chan).buffer().post_storage().len(),
                            (c - plen) as nat,
                        ),
                    )))
            })),
    {
        chan.buf.send(data);
    }

    /// Hold a batch behind the channel's admission.
    pub fn send_items<T: Copy + GetDataTimeExt>(&self, chan: &mut TSChannel<T>, data: Vec<T>)
        requires
            old(chan).wf(),
        ensures
            final(chan).wf(),
            final(chan).counts_unchanged(*old(chan)),
            final(chan).buffer().replay_unchanged(old(chan).buffer()),
            final(chan).buffer().cursors().dom() == old(chan).buffer().cursors().dom(),
            old(chan).buffer().cap() is None ==> final(chan).buffer().pre_contents() == old(chan).buffer().pre_contents() + data@ && final(chan).buffer().post_storage() == old(chan).buffer().post_storage(),
            old(chan).buffer().cap() matches Some(c) ==> final(chan).buffer().pre_contents()
                == keep_last(old(chan).buffer().pre_contents() + data@, c) && (old(chan).buffer().is_dispatch() ==> ({
                let plen = old(chan).buffer().pre_contents().len() + data@.len();
                (plen >= c ==> final(chan).buffer().post_storage() == Seq::<T>::empty() && (forall|k: usize|
                    old(chan).buffer().cursors().dom().contains(k) ==> #[trigger] final(chan).buffer().cursors()[k] == 0)) && (plen < c ==> final(chan).buffer().post_storage() == keep_last(
                    old(chan).buffer().post_storage(),
                    (c - plen) as nat,
                ) && (forall|k: usize|
                    old(chan).buffer().cursors().dom().contains(k) ==> #[trigger] final(chan).buffer().cursors()[k] == crate::dispatch::clamp_sub(
                        old(chan).buffer().cursors()[k],
                        crate::dispatch::overflow_count(
                            old(chan).buffer().post_storage().len(),
                            (c - plen) as nat,
                        ),
                    )))
            })),
    {
        chan.buf.send_items(data);
    }
}

impl TSReceiver {
    /// Read one item at wall time `now`, under this receiver's index.
    pub fn recv_at<T: Copy + GetDataTimeExt>(&self, chan: &mut TSChannel<T>, now: i64) -> (r:
        Option<T>)
        requires
            old(chan).wf(),
            self.id() < old(chan).max_receiver_index(),
        ensures
            final(chan).wf(),
            final(chan).counts_unchanged(*old(chan)),
            final(chan).buffer().replay_unchanged(old(chan).buffer()),
            r is Some ==> r == Some(old(chan).buffer().total_remaining(self.id())[0]),
            final(chan).buffer().total_remaining(self.id()) == old(chan).buffer().total_remaining(
                self.id(),
            ).skip(
                if r is Some {
                    1int
                } else {
                    0int
                },
            ),
            forall|j: usize|
                j != self.id() && old(chan).buffer().cursors().dom().contains(j) ==> final(chan).buffer().total_remaining(j) == old(chan).buffer().total_remaining(j),
            !old(chan).buffer().is_dispatch() ==> r == ts_recv_outcome(
                old(chan).buffer().pre_contents(),
                old(chan).buffer().data_origin(),
                old(chan).buffer().wall_origin(),
                now,
                old(chan).buffer().speed(),
            ),
    {
        chan.buf.recv_at(self.index, now)
    }

    /// Read one item against the wall clock, under this receiver's index.
    pub fn recv<T: Copy + GetDataTimeExt>(&self, chan: &mut TSChannel<T>) -> (r: Option<T>)
        requires
            old(chan).wf(),
            self.id() < old(chan).max_receiver_index(),
        ensures
            final(chan).wf(),
            final(chan).counts_unchanged(*old(chan)),
            final(chan).buffer().replay_unchanged(old(chan).buffer()),
            r is Some ==> r == Some(old(chan).buffer().total_remaining(self.id())[0]),
            final(chan).buffer().total_remaining(self.id()) == old(chan).buffer().total_remaining(
                self.id(),
            ).skip(
                if r is Some {
                    1int
                } else {
                    0int
                },
            ),
            forall|j: usize|
                j != self.id() && old(chan).buffer().cursors().dom().contains(j) ==> final(chan).buffer().total_remaining(j) == old(chan).buffer().total_remaining(j),
            !old(chan).buffer().is_dispatch() ==> exists|now: i64|
                r == #[trigger] ts_recv_outcome(
                    old(chan).buffer().pre_contents(),
                    old(chan).buffer().data_origin(),
                    old(chan).buffer().wall_origin(),
                    now,
                    old(chan).buffer().speed(),
                ),
    {
        chan.buf.recv(self.index)
    }

    /// Read up to `count` items at wall time `now`, under the strict batch
    /// policy.
    pub fn recv_items_at<T: Copy + GetDataTimeExt>(&self, chan: &mut TSChannel<T>, count: usize, now: i64) -> (r: Vec<T>)
        requires
            old(chan).wf(),
            self.id() < old(chan).max_receiver_index(),
        ensures
            final(chan).wf(),
            final(chan).counts_unchanged(*old(chan)),
            final(chan).buffer().replay_unchanged(old(chan).buffer()),
            r@ == old(chan).buffer().total_remaining(self.id()).take(r@.len() as int),
            final(chan).buffer().total_remaining(self.id()) == old(chan).buffer().total_remaining(
                self.id(),
            ).skip(r@.len() as int),
            forall|j: usize|
                j != self.id() && old(chan).buffer().cursors().dom().contains(j) ==> final(chan).buffer().total_remaining(j) == old(chan).buffer().total_remaining(j),
            !old(chan).buffer().is_dispatch() ==> r@.len() as int == admitted_count(
                old(chan).buffer().pre_contents(),
                consume_read_count(
                    old(chan).buffer().pre_contents().len(),
                    count,
                    true,
                ) as int,
                old(chan).buffer().data_origin(),
                old(chan).buffer().wall_origin(),
                now,
                old(chan).buffer().speed(),
            ),
    {
        chan.buf.recv_count_at(self.index, count, true, now)
    }

    /// Read up to `count` items against the wall clock, under the strict
    /// batch policy.
    pub fn recv_items<T: Copy + GetDataTimeExt>(&self, chan: &mut TSChannel<T>, count: usize) -> (r: Vec<T>)
        requires
            old(chan).wf(),
            self.id() < old(chan).max_receiver_index(),
        ensures
            final(chan).wf(),
            final(chan).counts_unchanged(*old(chan)),
            final(chan).buffer().replay_unchanged(old(chan).buffer()),
            r@ == old(chan).buffer().total_remaining(self.id()).take(r@.len() as int),
            final(chan).buffer().total_remaining(self.id()) == old(chan).buffer().total_remaining(
                self.id(),
            ).skip(r@.len() as int),
            forall|j: usize|
                j != self.id() && old(chan).buffer().cursors().dom().contains(j) ==> final(chan).buffer().total_remaining(j) == old(chan).buffer().total_remaining(j),
    {
        chan.buf.recv_count(self.index, count, true)
    }

    /// Read up to `max_count` items at wall time `now`, under the soft
    /// batch policy.
    pub fn recv_items_weak_at<T: Copy + GetDataTimeExt>(&self, chan: &mut TSChannel<T>, max_count: usize, now: i64) -> (r: Vec<T>)
        requires
            old(chan).wf(),
            self.id() < old(chan).max_receiver_index(),
        ensures
            final(chan).wf(),
            final(chan).counts_unchanged(*old(chan)),
            final(chan).buffer().replay_unchanged(old(chan).buffer()),
            r@ == old(chan).buffer().total_remaining(self.id()).take(r@.len() as int),
            final(chan).buffer().total_remaining(self.id()) == old(chan).buffer().total_remaining(
                self.id(),
            ).skip(r@.len() as int),
            forall|j: usize|
                j != self.id() && old(chan).buffer().cursors().dom().contains(j) ==> final(chan).buffer().total_remaining(j) == old(chan).buffer().total_remaining(j),
            old(chan).buffer().is_dispatch() ==> r@.len() as int
                == crate::dispatch::batch_read_len(
                old(chan).buffer().admitted_remaining(self.id(), now).len(),
                max_count,
                false,
            ) as int,
    {
        chan.buf.recv_count_at(self.index, max_count, false, now)
    }

    /// Read up to `max_count` items against the wall clock, under the soft
    /// batch policy.
    pub fn recv_items_weak<T: Copy + GetDataTimeExt>(&self, chan: &mut TSChannel<T>, max_count: usize) -> (r: Vec<T>)
        requires
            old(chan).wf(),
            self.id() < old(chan).max_receiver_index(),
        ensures
            final(chan).wf(),
            final(chan).counts_unchanged(*old(chan)),
            final(chan).buffer().replay_unchanged(old(chan).buffer()),
            r@ == old(chan).buffer().total_remaining(self.id()).take(r@.len() as int),
            final(chan).buffer().total_remaining(self.id()) == old(chan).buffer().total_remaining(
                self.id(),
            ).skip(r@.len() as int),
            forall|j: usize|
                j != self.id() && old(chan).buffer().cursors().dom().contains(j) ==> final(chan).buffer().total_remaining(j) == old(chan).buffer().total_remaining(j),
    {
        chan.buf.recv_count(self.index, max_count, false)
    }

    /// How many items this receiver has yet to read, released or not.
    pub fn len<T: Copy + GetDataTimeExt>(&self, chan: &TSChannel<T>) -> (r: usize)
        requires
            chan.wf(),
            chan.buffer().len_in_range(),
        ensures
            r == chan.buffer().total_remaining(self.id()).len(),
    {
        chan.buf.len(self.index)
    }

    pub fn is_empty<T: Copy + GetDataTimeExt>(&self, chan: &TSChannel<T>) -> (r: bool)
        requires
            chan.wf(),
            chan.buffer().len_in_range(),
        ensures
            r == (chan.buffer().total_remaining(self.id()).len() == 0),
    {
        chan.buf.len(self.index) == 0
    }

    /// A read-only observer of the same channel.  It counts as a receiver
    /// for lifetime purposes, burns an index, and owns no cursor, so no
    /// receiver's future reads change.
    pub fn get_observer<T: Copy + GetDataTimeExt>(&self, chan: &mut TSChannel<T>) -> (r:
        TSObserver)
        requires
            old(chan).wf(),
            old(chan).receiver_count() < usize::MAX,
            old(chan).max_receiver_index() < usize::MAX,
        ensures
            final(chan).wf(),
            final(chan).sender_count() == old(chan).sender_count(),
            final(chan).receiver_count() == old(chan).receiver_count() + 1,
            final(chan).max_receiver_index() == old(chan).max_receiver_index() + 1,
            final(chan).buffer() == old(chan).buffer(),
    {
        chan.receiver_count = chan.receiver_count + 1;
        chan.max_receiver_index = chan.max_receiver_index + 1;
        TSObserver { marker: () }
    }
}

impl TSObserver {
    /// The whole live length, held and released together: observers have
    /// no cursor.
    pub fn len<T: Copy + GetDataTimeExt>(&self, chan: &TSChannel<T>) -> (r: usize)
        requires
            chan.wf(),
            chan.buffer().len_in_range(),
        ensures
            r == chan.buffer().post_storage().len() + chan.buffer().pre_contents().len(),
    {
        proof {
            assert(chan.buffer().total_remaining(usize::MAX) =~= chan.buffer().post_storage()
                + chan.buffer().pre_contents());
        }
        chan.buf.len(usize::MAX)
    }

    pub fn is_empty<T: Copy + GetDataTimeExt>(&self, chan: &TSChannel<T>) -> (r: bool)
        requires
            chan.wf(),
            chan.buffer().len_in_range(),
        ensures
            r == (chan.buffer().post_storage().len() + chan.buffer().pre_contents().len() == 0),
    {
        proof {
            assert(chan.buffer().total_remaining(usize::MAX) =~= chan.buffer().post_storage()
                + chan.buffer().pre_contents());
        }
        chan.buf.len(usize::MAX) == 0
    }

    /// A copy of the items in `[start, end)` of the combined sequence;
    /// reading moves no cursor.
    pub fn query_items<T: Copy + GetDataTimeExt>(&self, chan: &TSChannel<T>, start: usize, end: Option<usize>) -> (r: Vec<T>)
        requires
            chan.wf(),
            chan.buffer().len_in_range(),
        ensures
            r@ == query_range(
                chan.buffer().post_storage() + chan.buffer().pre_contents(),
                start,
                end,
            ),
    {
        chan.buf.query_items(start, end)
    }

    /// A full receiver handle under a fresh index, with a cursor at the
    /// post-stage base.
    pub fn get_receiver<T: Copy + GetDataTimeExt>(&self, chan: &mut TSChannel<T>) -> (r:
        TSReceiver)
        requires
            old(chan).wf(),
            old(chan).receiver_count() < usize::MAX,
            old(chan).max_receiver_index() < usize::MAX,
        ensures
            final(chan).wf(),
            final(chan).sender_count() == old(chan).sender_count(),
            final(chan).receiver_count() == old(chan).receiver_count() + 1,
            final(chan).max_receiver_index() == old(chan).max_receiver_index() + 1,
            r.id() == old(chan).max_receiver_index(),
            final(chan).buffer().pre_contents() == old(chan).buffer().pre_contents(),
            final(chan).buffer().post_storage() == old(chan).buffer().post_storage(),
            final(chan).buffer().replay_unchanged(old(chan).buffer()),
            old(chan).buffer().is_dispatch() ==> final(chan).buffer().cursors() == old(chan).buffer().cursors().insert(r.id(), 0),
            !old(chan).buffer().is_dispatch() ==> final(chan).buffer().cursors() == old(chan).buffer().cursors(),
    {
        chan.receiver_count = chan.receiver_count + 1;
        let index = chan.max_receiver_index;
        chan.max_receiver_index = chan.max_receiver_index + 1;
        chan.buf.new_receiver(index);
        TSReceiver { index }
    }
}


} // verus!
