//! An in-process, multi-producer / multi-consumer message-passing library.
//!
//! The core is a family of typed channels that differ along three axes:
//! boundedness (unbounded, or bounded with head-drop on overflow), delivery
//! mode (consume, or dispatch/broadcast with one cursor per receiver), and
//! temporal gating (immediate, or replay-at-rate behind a wall-clock admission rule).
//! All shapes share one buffer engine; handle bookkeeping (sender, receiver
//! and observer counts) is part of the channel state, which callers guard
//! with a single lock of their choosing.

use vstd::prelude::*;

pub mod bidirectional;
pub mod buffer;
pub mod channel;
pub mod cursors;
pub mod dispatch;
pub mod metrics_utils;
pub mod time_series;
pub mod time_util;
pub mod vec_utils;

pub use bidirectional::BDUnbBuffer;
pub use bidirectional::BDUnbRequester;
pub use bidirectional::BDUnbResponder;
pub use channel::Channel;
pub use channel::Observer;
pub use channel::Receiver;
pub use channel::Sender;
pub use time_series::GetDataTimeExt;
pub use time_series::TSChannel;
pub use time_series::TSObserver;
pub use time_series::TSReceiver;
pub use time_series::TSSender;
pub use time_series::TimedValue;
pub use time_util::Speed;
pub use vec_utils::VecExt;

verus! {

/// A fresh channel over the four non-temporal shapes, with one sender and
/// one receiver (at index 0).
pub fn new<T: Copy>(bounded: Option<usize>, dispatch: bool) -> (r: (
    Channel<T>,
    Sender,
    Receiver,
))
    ensures
        r.0.wf(),
        r.0.sender_count() == 1,
        r.0.receiver_count() == 1,
        r.0.max_receiver_index() == 1,
        r.0.buffer().storage() == Seq::<T>::empty(),
        dispatch ==> r.0.buffer().cursors() == Map::<usize, usize>::empty().insert(0, 0),
        !dispatch ==> r.0.buffer().cursors() == Map::<usize, usize>::empty(),
        r.0.buffer().is_dispatch() == dispatch,
        r.0.buffer().cap() == (match bounded {
            Option::None => None::<nat>,
            Option::Some(b) => Some(b as nat),
        }),
        r.2.id() == 0,
{
    Channel::new(bounded, dispatch)
}

/// A fresh temporal channel over the four replay-at-rate shapes, its admission
/// armed now, with one sender and one receiver (at index 0).  Data times
/// are nanosecond timestamps; items are admitted once
/// `(data_time - start_data_time) <= round((now - creation) * speed)`.
pub fn new_time_series<T: Copy + GetDataTimeExt>(
    bounded: Option<usize>,
    dispatch: bool,
    start_data_time: i64,
    speed: Speed,
) -> (r: (TSChannel<T>, TSSender, TSReceiver))
    requires
        speed.wf(),
    ensures
        r.0.wf(),
        r.0.sender_count() == 1,
        r.0.receiver_count() == 1,
        r.0.max_receiver_index() == 1,
        r.0.buffer().pre_contents() == Seq::<T>::empty(),
        r.0.buffer().post_storage() == Seq::<T>::empty(),
        dispatch ==> r.0.buffer().cursors() == Map::<usize, usize>::empty().insert(0, 0),
        !dispatch ==> r.0.buffer().cursors() == Map::<usize, usize>::empty(),
        r.0.buffer().is_dispatch() == dispatch,
        r.0.buffer().cap() == (match bounded {
            Option::None => None::<nat>,
            Option::Some(b) => Some(b as nat),
        }),
        r.0.buffer().data_origin() == start_data_time,
        r.0.buffer().speed() == speed,
        r.2.id() == 0,
{
    TSChannel::new(bounded, dispatch, start_data_time, speed)
}

/// A fresh synchronous request/response channel with its requester and
/// responder handles.
pub fn new_unbounded_bidirectional<T1, T2>() -> (r: (
    BDUnbBuffer<T1, T2>,
    BDUnbRequester,
    BDUnbResponder,
))
    ensures
        r.0.wf(),
        r.0.next_token() == 0,
        r.0.requests() == Seq::<(usize, T1)>::empty(),
        r.0.responses() == Map::<usize, T2>::empty(),
        r.1.tokens() == Seq::<usize>::empty(),
        r.2.tokens() == Seq::<usize>::empty(),
{
    BDUnbBuffer::new()
}

} // verus!
