use channel::new_time_series;
use channel::time_util::is_released_at;
use channel::time_util::now_nanos;
use channel::Speed;
use channel::TSChannel;
use channel::TSReceiver;
use channel::TSSender;
use channel::TimedValue;

const MS: i64 = 1_000_000;

fn tv(time: i64, data: i64) -> TimedValue {
    TimedValue { time, data }
}

#[test]
fn test_new_time_series_unbounded() {
    let now = now_nanos();
    let (mut ch, tx, rx): (TSChannel<TimedValue>, TSSender, TSReceiver) =
        new_time_series(None, false, now, Speed::real_time());
    tx.send_items(&mut ch, vec![tv(now - 10 * MS, 111), tv(now + 10 * MS, 222)]);
    assert_eq!(rx.len(&ch), 2);
    let rx2 = ch.clone_receiver(&rx);
    // At creation time the first item is 10 ms in the past and admitted,
    // the second 10 ms in the future and still held.
    assert_eq!(rx.recv_at(&mut ch, now).unwrap().data, 111);
    assert!(rx2.recv_at(&mut ch, now).is_none());
    // 20 ms later the admission rule admits the second item too.
    assert_eq!(rx2.recv_at(&mut ch, now + 20 * MS).unwrap().data, 222);
}

#[test]
fn test_new_time_series_unbounded_weak() {
    let now = now_nanos();
    let (mut ch, tx, rx): (TSChannel<TimedValue>, TSSender, TSReceiver) =
        new_time_series(None, true, now, Speed::real_time());
    let ox = rx.get_observer(&mut ch);
    tx.send_items(&mut ch, vec![tv(now - 10 * MS, 111), tv(now + 10 * MS, 222)]);
    assert_eq!(rx.recv_at(&mut ch, now).unwrap().data, 111);
    let tx2 = ox.get_receiver(&mut ch);
    assert_eq!(tx2.len(&ch), 1);
}

#[test]
fn ts_unbounded_dispatch_two_receivers() {
    let now = now_nanos();
    let (mut ch, tx, rx): (TSChannel<TimedValue>, TSSender, TSReceiver) =
        new_time_series(None, true, now, Speed::real_time());
    let rx2 = ch.clone_receiver(&rx);
    tx.send_items(
        &mut ch,
        vec![
            tv(now - 30 * MS, 1),
            tv(now - 20 * MS, 2),
            tv(now + 50 * MS, 3),
        ],
    );
    // Both receivers see the two released items independently.
    let a = rx.recv_items_at(&mut ch, 2, now);
    let b = rx2.recv_items_at(&mut ch, 2, now);
    assert_eq!(a.len(), 2);
    assert_eq!(a[0].data, 1);
    assert_eq!(a[1].data, 2);
    assert_eq!(b.len(), 2);
    assert_eq!(b[0].data, 1);
    assert_eq!(b[1].data, 2);
    // The future item stays held for both.
    assert!(rx.recv_at(&mut ch, now).is_none());
    assert!(rx2.recv_at(&mut ch, now).is_none());
    // Once admitted, it arrives for both, in arrival order.
    assert_eq!(rx.recv_at(&mut ch, now + 60 * MS).unwrap().data, 3);
    assert_eq!(rx2.recv_at(&mut ch, now + 60 * MS).unwrap().data, 3);
}

#[test]
fn ts_bounded_dispatch_head_drop() {
    let now = now_nanos();
    let (mut ch, tx, rx): (TSChannel<TimedValue>, TSSender, TSReceiver) =
        new_time_series(Some(4), true, now, Speed::real_time());
    let rx2 = ch.clone_receiver(&rx);
    tx.send_items(
        &mut ch,
        vec![
            tv(now - 50 * MS, 1),
            tv(now - 40 * MS, 2),
            tv(now - 30 * MS, 3),
            tv(now - 20 * MS, 4),
        ],
    );
    tx.send(&mut ch, tv(now - 10 * MS, 5));
    // Capacity 4: item 1 was dropped from the head while still held.
    let a = rx.recv_items_at(&mut ch, 3, now);
    assert_eq!(a.iter().map(|v| v.data).collect::<Vec<i64>>(), vec![2, 3, 4]);
    let b = rx2.recv_items_at(&mut ch, 3, now);
    assert_eq!(b.iter().map(|v| v.data).collect::<Vec<i64>>(), vec![2, 3, 4]);
    let aw = rx.recv_items_weak_at(&mut ch, 3, now);
    assert_eq!(aw.iter().map(|v| v.data).collect::<Vec<i64>>(), vec![5]);
    let bw = rx2.recv_items_weak_at(&mut ch, 3, now);
    assert_eq!(bw.iter().map(|v| v.data).collect::<Vec<i64>>(), vec![5]);
}

#[test]
fn ts_release_order_is_arrival_order() {
    let now = now_nanos();
    let (mut ch, tx, rx): (TSChannel<TimedValue>, TSSender, TSReceiver) =
        new_time_series(None, true, now, Speed::real_time());
    // The second arrival has the earlier data time.  Batch release is
    // governed by the last admitted arrival, so both come out, and in
    // arrival order: a receiver never sees a later arrival first.
    tx.send(&mut ch, tv(now + 5 * MS, 1));
    tx.send(&mut ch, tv(now - 10 * MS, 2));
    let got = rx.recv_items_at(&mut ch, 2, now);
    assert_eq!(got.iter().map(|v| v.data).collect::<Vec<i64>>(), vec![1, 2]);
}

#[test]
fn ts_consume_admission_blocks_head() {
    let now = now_nanos();
    let (mut ch, tx, rx): (TSChannel<TimedValue>, TSSender, TSReceiver) =
        new_time_series(None, false, now, Speed::real_time());
    // The head is in the future; the consume shape checks the head alone,
    // so nothing is readable even though a later item is admitted.
    tx.send(&mut ch, tv(now + 50 * MS, 1));
    tx.send(&mut ch, tv(now - 50 * MS, 2));
    assert!(rx.recv_at(&mut ch, now).is_none());
    // A strict batch read of both shrinks to the last admitted index and
    // returns both items.
    let got = rx.recv_items_at(&mut ch, 2, now);
    assert_eq!(got.iter().map(|v| v.data).collect::<Vec<i64>>(), vec![1, 2]);
}

#[test]
fn ts_bounded_consume_caps_held_items() {
    let now = now_nanos();
    let (mut ch, tx, rx): (TSChannel<TimedValue>, TSSender, TSReceiver) =
        new_time_series(Some(2), false, now, Speed::real_time());
    tx.send_items(
        &mut ch,
        vec![
            tv(now - 30 * MS, 1),
            tv(now - 20 * MS, 2),
            tv(now - 10 * MS, 3),
        ],
    );
    assert_eq!(rx.len(&ch), 2);
    assert_eq!(rx.recv_at(&mut ch, now).unwrap().data, 2);
    assert_eq!(rx.recv_at(&mut ch, now).unwrap().data, 3);
    assert!(rx.recv_at(&mut ch, now).is_none());
}

#[test]
fn ts_observer_sees_both_stages() {
    let now = now_nanos();
    let (mut ch, tx, rx): (TSChannel<TimedValue>, TSSender, TSReceiver) =
        new_time_series(None, true, now, Speed::real_time());
    let ox = rx.get_observer(&mut ch);
    tx.send_items(&mut ch, vec![tv(now - 10 * MS, 1), tv(now + 90 * MS, 2)]);
    assert_eq!(ox.len(&ch), 2);
    // One item is released into the post-stage by the read; the other is
    // still held.  The observer's window covers released items first.
    assert_eq!(rx.recv_at(&mut ch, now).unwrap().data, 1);
    assert_eq!(ox.len(&ch), 1);
    let window = ox.query_items(&ch, 0, None);
    assert_eq!(window.iter().map(|v| v.data).collect::<Vec<i64>>(), vec![2]);
}

#[test]
fn ts_handle_lifetime_counts() {
    let now = now_nanos();
    let (mut ch, tx, rx): (TSChannel<TimedValue>, TSSender, TSReceiver) =
        new_time_series(None, true, now, Speed::real_time());
    let ox = rx.get_observer(&mut ch);
    let tx2 = ch.clone_sender(&tx);
    assert!(!ch.drop_sender(tx2));
    assert!(!ch.drop_observer(ox));
    assert!(!ch.drop_receiver_handle(rx));
    assert!(ch.drop_sender(tx));
}

#[test]
fn ts_real_clock_recv_far_past_item() {
    let now = now_nanos();
    let (mut ch, tx, rx): (TSChannel<TimedValue>, TSSender, TSReceiver) =
        new_time_series(None, false, now, Speed::real_time());
    // An item a full second in the past is admitted against the real
    // clock; one an hour ahead is not.
    tx.send(&mut ch, tv(now - 1_000 * MS, 7));
    tx.send(&mut ch, tv(now + 3_600_000 * MS, 8));
    assert_eq!(rx.recv(&mut ch).unwrap().data, 7);
    assert!(rx.recv(&mut ch).is_none());
    assert_eq!(rx.len(&ch), 1);
}

#[test]
fn admission_boundary_is_exact() {
    let s21 = Speed { num: 2, den: 1 };
    // dest <= round(elapsed * 2): at elapsed 5 the threshold is 10.
    assert!(is_released_at(10, 0, 0, 5, s21));
    assert!(!is_released_at(11, 0, 0, 5, s21));
    let s12 = Speed { num: 1, den: 2 };
    // Half rate: at elapsed 9 the threshold is round(4.5) = 5.
    assert!(is_released_at(5, 0, 0, 9, s12));
    assert!(!is_released_at(6, 0, 0, 9, s12));
    // Negative elapsed admits only items far enough in the past.
    assert!(is_released_at(-10, 0, 10, 0, Speed::real_time()));
    assert!(!is_released_at(-9, 0, 10, 0, Speed::real_time()));
    // The subtractions saturate instead of wrapping.
    assert!(is_released_at(i64::MIN, i64::MAX, 0, 0, Speed::real_time()));
    assert!(!is_released_at(i64::MAX, i64::MIN, 0, 0, Speed::real_time()));
}

#[test]
fn ts_bounded_dispatch_capacity_coupling() {
    let now = now_nanos();
    let (mut ch, tx, rx): (TSChannel<TimedValue>, TSSender, TSReceiver) =
        new_time_series(Some(4), true, now, Speed::real_time());
    tx.send_items(
        &mut ch,
        vec![
            tv(now - 90 * MS, 1),
            tv(now - 80 * MS, 2),
            tv(now - 70 * MS, 3),
            tv(now - 60 * MS, 4),
        ],
    );
    // Release everything and read one: the released stage keeps [2, 3, 4].
    assert_eq!(rx.recv_at(&mut ch, now).unwrap().data, 1);
    assert_eq!(rx.len(&ch), 3);
    // Each new held item shrinks the released stage's share of the
    // capacity: after two more sends only two released items survive.
    tx.send(&mut ch, tv(now - 50 * MS, 5));
    assert_eq!(rx.len(&ch), 4);
    tx.send(&mut ch, tv(now - 40 * MS, 6));
    assert_eq!(rx.len(&ch), 4);
    let got = rx.recv_items_weak_at(&mut ch, 10, now);
    assert_eq!(
        got.iter().map(|v| v.data).collect::<Vec<i64>>(),
        vec![3, 4, 5, 6]
    );
}
