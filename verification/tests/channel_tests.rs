use channel::new;
use channel::Channel;
use channel::Receiver;
use channel::Sender;

#[test]
fn test_it_works() {
    assert!(true);
}

#[test]
fn test_new_unbounded() {
    let (mut ch, tx, rx): (Channel<i32>, Sender, Receiver) = new(None, false);
    tx.send_items(&mut ch, vec![1, 2, 3, 4]);
    tx.send(&mut ch, 5);
    assert_eq!(rx.len(&ch), 5);
    let rx2 = ch.clone_receiver(&rx);
    assert_eq!(rx.recv(&mut ch).unwrap(), 1);
    assert_eq!(rx2.recv_items(&mut ch, 3), vec![2, 3, 4]);
    assert_eq!(rx.recv(&mut ch).unwrap(), 5);
}

#[test]
fn test_new_bounded() {
    let (mut ch, tx, rx): (Channel<i32>, Sender, Receiver) = new(Some(4), false);
    tx.send_items(&mut ch, vec![1, 2, 3, 4]);
    tx.send(&mut ch, 5);
    let rx2 = ch.clone_receiver(&rx);
    assert_eq!(rx.recv_items(&mut ch, 2), vec![2, 3]);
    assert_eq!(rx2.recv_items(&mut ch, 2), vec![4, 5]);
    assert!(rx.is_empty(&ch));
}

#[test]
fn test_new_unbounded_dispatch() {
    let (mut ch, tx, rx): (Channel<i32>, Sender, Receiver) = new(None, true);
    tx.send_items(&mut ch, vec![1, 2, 3, 4]);
    tx.send(&mut ch, 5);
    let rx2 = ch.clone_receiver(&rx);
    assert_eq!(rx.recv_items(&mut ch, 3), vec![1, 2, 3]);
    assert_eq!(rx2.recv_items(&mut ch, 3), vec![1, 2, 3]);
    assert_eq!(rx.recv_items_weak(&mut ch, 3), vec![4, 5]);
    assert_eq!(rx2.recv_items_weak(&mut ch, 3), vec![4, 5]);
}

#[test]
fn test_new_bounded_dispatch() {
    let (mut ch, tx, rx): (Channel<i32>, Sender, Receiver) = new(Some(4), true);
    tx.send_items(&mut ch, vec![1, 2, 3, 4]);
    tx.send(&mut ch, 5);
    let rx2 = ch.clone_receiver(&rx);
    assert_eq!(rx.recv_items(&mut ch, 3), vec![2, 3, 4]);
    assert_eq!(rx2.recv_items(&mut ch, 3), vec![2, 3, 4]);
    assert_eq!(rx.recv_items_weak(&mut ch, 3), vec![5]);
    assert_eq!(rx2.recv_items_weak(&mut ch, 3), vec![5]);
}

#[test]
fn test_new_unbounded_weak() {
    let (mut ch, tx, rx): (Channel<i32>, Sender, Receiver) = new(None, true);
    let ox = rx.get_observer(&mut ch);
    tx.send_items(&mut ch, vec![1, 2, 3, 4]);
    tx.send(&mut ch, 5);
    assert_eq!(rx.recv_items(&mut ch, 3), vec![1, 2, 3]);
    assert_eq!(rx.recv_items_weak(&mut ch, 3), vec![4, 5]);
    let tx2 = ox.get_receiver(&mut ch);
    assert_eq!(tx2.len(&ch), 0);
}

#[test]
fn consume_fifo_drains_in_order() {
    let (mut ch, tx, rx): (Channel<u64>, Sender, Receiver) = new(None, false);
    let sent: Vec<u64> = vec![9, 8, 7, 6, 5, 4];
    tx.send_items(&mut ch, sent.clone());
    let rx2 = ch.clone_receiver(&rx);
    let mut got: Vec<u64> = Vec::new();
    loop {
        let from_first = rx.recv(&mut ch);
        match from_first {
            Some(v) => got.push(v),
            None => {}
        }
        match rx2.recv(&mut ch) {
            Some(v) => got.push(v),
            None => break,
        }
    }
    assert_eq!(got, sent);
}

#[test]
fn bounded_head_drop_keeps_last_cap() {
    let (mut ch, tx, rx): (Channel<i32>, Sender, Receiver) = new(Some(3), false);
    tx.send_items(&mut ch, vec![10, 20, 30, 40, 50, 60, 70]);
    assert_eq!(rx.recv_items(&mut ch, 3), vec![50, 60, 70]);
    assert!(rx.is_empty(&ch));
    tx.send(&mut ch, 1);
    tx.send(&mut ch, 2);
    tx.send(&mut ch, 3);
    tx.send(&mut ch, 4);
    assert_eq!(rx.recv_items(&mut ch, 3), vec![2, 3, 4]);
}

#[test]
fn bounded_batch_longer_than_cap_tail_wins() {
    let (mut ch, tx, rx): (Channel<i32>, Sender, Receiver) = new(Some(2), false);
    tx.send_items(&mut ch, vec![1, 2, 3, 4, 5]);
    assert_eq!(rx.len(&ch), 2);
    assert_eq!(rx.recv(&mut ch), Some(4));
    assert_eq!(rx.recv(&mut ch), Some(5));
    assert_eq!(rx.recv(&mut ch), None);
}

#[test]
fn consume_weak_read_past_end_yields_nothing() {
    let (mut ch, tx, rx): (Channel<i32>, Sender, Receiver) = new(None, false);
    tx.send_items(&mut ch, vec![1, 2]);
    // The soft batch policy asks for `len - n` items, which is negative
    // here, so the consume shapes yield nothing rather than a partial read.
    assert_eq!(rx.recv_items_weak(&mut ch, 3), Vec::<i32>::new());
    assert_eq!(rx.len(&ch), 2);
    assert_eq!(rx.recv_items(&mut ch, 2), vec![1, 2]);
}

#[test]
fn recv_on_empty_returns_none() {
    let (mut ch, _tx, rx): (Channel<i32>, Sender, Receiver) = new(None, false);
    assert_eq!(rx.recv(&mut ch), None);
    let (mut dch, _dtx, drx): (Channel<i32>, Sender, Receiver) = new(None, true);
    assert_eq!(drx.recv(&mut dch), None);
    assert_eq!(drx.recv_items(&mut dch, 1), Vec::<i32>::new());
}

#[test]
fn broadcast_independence_interleaved() {
    let (mut ch, tx, rx): (Channel<i32>, Sender, Receiver) = new(None, true);
    let rx2 = ch.clone_receiver(&rx);
    tx.send_items(&mut ch, vec![1, 2, 3]);
    assert_eq!(rx.recv(&mut ch), Some(1));
    assert_eq!(rx.recv(&mut ch), Some(2));
    // rx2 still sees everything from the start, unaffected by rx's reads.
    assert_eq!(rx2.recv(&mut ch), Some(1));
    assert_eq!(rx.recv(&mut ch), Some(3));
    assert_eq!(rx2.recv(&mut ch), Some(2));
    assert_eq!(rx2.recv(&mut ch), Some(3));
    assert_eq!(rx.recv(&mut ch), None);
    assert_eq!(rx2.recv(&mut ch), None);
}

#[test]
fn compaction_after_advance() {
    let (mut ch, tx, rx): (Channel<i32>, Sender, Receiver) = new(None, true);
    let rx2 = ch.clone_receiver(&rx);
    let ox = rx.get_observer(&mut ch);
    tx.send_items(&mut ch, vec![1, 2, 3, 4, 5]);
    assert_eq!(ox.len(&ch), 5);
    assert_eq!(rx.recv_items(&mut ch, 3), vec![1, 2, 3]);
    // rx2 has not advanced, so nothing is retired yet.
    assert_eq!(ox.len(&ch), 5);
    assert_eq!(rx2.recv(&mut ch), Some(1));
    // The slowest cursor advanced by one, so one item is retired and the
    // observer sees exactly the retained storage.
    assert_eq!(ox.len(&ch), 4);
    assert_eq!(ox.query_items(&ch, 0, None), vec![2, 3, 4, 5]);
}

#[test]
fn bounded_dispatch_lagging_cursor_resumes_at_base() {
    let (mut ch, tx, rx): (Channel<i32>, Sender, Receiver) = new(Some(3), true);
    let lag = ch.clone_receiver(&rx);
    tx.send_items(&mut ch, vec![1, 2, 3]);
    assert_eq!(rx.recv_items(&mut ch, 2), vec![1, 2]);
    // Overflow drops 1 and 2; the lagging receiver's cursor, which pointed
    // into the dropped region, clamps to the new base.
    tx.send_items(&mut ch, vec![4, 5]);
    assert_eq!(lag.recv(&mut ch), Some(3));
    assert_eq!(lag.recv(&mut ch), Some(4));
    assert_eq!(lag.recv(&mut ch), Some(5));
    assert_eq!(rx.recv_items_weak(&mut ch, 9), vec![3, 4, 5]);
}

#[test]
fn handle_lifetime_counts() {
    let (mut ch, tx, rx): (Channel<i32>, Sender, Receiver) = new(None, true);
    let tx2 = ch.clone_sender(&tx);
    let ox = rx.get_observer(&mut ch);
    // Observers count as receivers: nothing is destroyed while one lives.
    assert!(!ch.drop_sender(tx));
    assert!(!ch.drop_receiver_handle(rx));
    assert!(!ch.drop_sender(tx2));
    assert!(ch.drop_observer(ox));
}

#[test]
fn handle_lifetime_last_sender_destroys() {
    let (mut ch, tx, rx): (Channel<i32>, Sender, Receiver) = new(None, false);
    assert!(!ch.drop_receiver_handle(rx));
    assert!(ch.drop_sender(tx));
}

#[test]
fn observer_does_not_consume() {
    let (mut ch, tx, rx): (Channel<i32>, Sender, Receiver) = new(None, true);
    tx.send_items(&mut ch, vec![7, 8, 9]);
    let ox = rx.get_observer(&mut ch);
    assert_eq!(ox.len(&ch), 3);
    assert!(!ox.is_empty(&ch));
    assert_eq!(ox.query_items(&ch, 0, None), vec![7, 8, 9]);
    assert_eq!(ox.query_items(&ch, 1, Some(2)), vec![8]);
    assert!(!ch.drop_observer(ox));
    // The receiver's reads are exactly what they would have been.
    assert_eq!(rx.recv_items(&mut ch, 3), vec![7, 8, 9]);
}

#[test]
fn query_items_bounds_are_clamped() {
    let (mut ch, tx, rx): (Channel<i32>, Sender, Receiver) = new(None, true);
    tx.send_items(&mut ch, vec![1, 2, 3]);
    let ox = rx.get_observer(&mut ch);
    assert_eq!(ox.query_items(&ch, 0, Some(10)), vec![1, 2, 3]);
    assert_eq!(ox.query_items(&ch, 3, None), Vec::<i32>::new());
    assert_eq!(ox.query_items(&ch, 2, Some(2)), Vec::<i32>::new());
    assert_eq!(ox.query_items(&ch, 2, Some(1)), Vec::<i32>::new());
    assert_eq!(ox.query_items(&ch, 1, None), vec![2, 3]);
}

#[test]
fn drop_receiver_triggers_compaction() {
    let (mut ch, tx, rx): (Channel<i32>, Sender, Receiver) = new(None, true);
    let rx2 = ch.clone_receiver(&rx);
    let ox = rx.get_observer(&mut ch);
    tx.send_items(&mut ch, vec![1, 2, 3]);
    assert_eq!(rx.recv_items(&mut ch, 3), vec![1, 2, 3]);
    // rx2's cursor still pins the storage.
    assert_eq!(ox.len(&ch), 3);
    // Dropping the slow receiver retires everything the remaining cursor
    // has passed.
    assert!(!ch.drop_receiver_handle(rx2));
    assert_eq!(ox.len(&ch), 0);
}

#[test]
fn first_receiver_retains_before_first_read() {
    let (mut ch, tx, rx): (Channel<i32>, Sender, Receiver) = new(None, true);
    let rx2 = ch.clone_receiver(&rx);
    tx.send_items(&mut ch, vec![1, 2, 3]);
    // The clone drains everything before receiver 0 has ever read; the
    // cursor receiver 0 owns from construction pins the storage, so it
    // still sees the whole sequence.
    assert_eq!(rx2.recv_items(&mut ch, 3), vec![1, 2, 3]);
    assert_eq!(rx.recv_items(&mut ch, 3), vec![1, 2, 3]);
}
