use relay_hub::relay::Relay;
use relay_hub::QUEUE_CAPACITY;
use tokio::sync::mpsc::channel;

#[test]
fn queue_capacity_is_twenty_five() {
    assert_eq!(QUEUE_CAPACITY, 25);
}

#[test]
fn fan_out_reaches_all_but_the_sender() {
    let mut relay = Relay::new();
    let (tx0, mut rx0) = channel::<Vec<u8>>(QUEUE_CAPACITY);
    let (tx1, mut rx1) = channel::<Vec<u8>>(QUEUE_CAPACITY);
    let (tx2, mut rx2) = channel::<Vec<u8>>(QUEUE_CAPACITY);
    let id0 = relay.register(tx0);
    let id1 = relay.register(tx1);
    let id2 = relay.register(tx2);
    assert!(id0 != id1 && id1 != id2 && id0 != id2);

    let frame = vec![b'E', b'N', b'C', 0, 0, 0, 1, 42, 0, 0, 0, 0];
    let (delivered, removed) = relay.publish(id1, &frame);
    assert_eq!(delivered, 2);
    assert!(removed.is_empty());

    assert_eq!(rx0.try_recv().expect("recipient 0"), frame);
    assert_eq!(rx2.try_recv().expect("recipient 2"), frame);
    assert!(rx1.try_recv().is_err(), "the sender must not hear its own frame");
}

#[test]
fn per_recipient_fifo_order() {
    let mut relay = Relay::new();
    let (tx0, mut rx0) = channel::<Vec<u8>>(QUEUE_CAPACITY);
    let (tx1, _rx1) = channel::<Vec<u8>>(QUEUE_CAPACITY);
    let _id0 = relay.register(tx0);
    let id1 = relay.register(tx1);

    let f1 = vec![1u8, 1, 1];
    let f2 = vec![2u8, 2, 2];
    relay.publish(id1, &f1);
    relay.publish(id1, &f2);
    assert_eq!(rx0.try_recv().expect("first frame"), f1);
    assert_eq!(rx0.try_recv().expect("second frame"), f2);
}

#[test]
fn dead_peer_is_pruned_and_not_retried() {
    let mut relay = Relay::new();
    let (tx0, mut rx0) = channel::<Vec<u8>>(QUEUE_CAPACITY);
    let (tx1, rx1) = channel::<Vec<u8>>(QUEUE_CAPACITY);
    let (tx2, mut rx2) = channel::<Vec<u8>>(QUEUE_CAPACITY);
    let id0 = relay.register(tx0);
    let id1 = relay.register(tx1);
    let id2 = relay.register(tx2);

    drop(rx1);
    let frame = vec![5u8; 8];
    let (delivered, removed) = relay.publish(id0, &frame);
    assert_eq!(delivered, 1);
    assert_eq!(removed, vec![id1]);
    assert_eq!(rx2.try_recv().expect("live recipient"), frame);

    // A later publish attempts no delivery to the pruned session.
    let frame2 = vec![6u8; 8];
    let (delivered2, removed2) = relay.publish(id2, &frame2);
    assert_eq!(delivered2, 1);
    assert!(removed2.is_empty());
    assert_eq!(rx0.try_recv().expect("live recipient"), frame2);
}

#[test]
fn several_failures_in_one_pass_prune_all_and_only_those() {
    let mut relay = Relay::new();
    let (tx0, mut rx0) = channel::<Vec<u8>>(QUEUE_CAPACITY);
    let (tx1, rx1) = channel::<Vec<u8>>(QUEUE_CAPACITY);
    let (tx2, mut rx2) = channel::<Vec<u8>>(QUEUE_CAPACITY);
    let (tx3, rx3) = channel::<Vec<u8>>(QUEUE_CAPACITY);
    let id0 = relay.register(tx0);
    let id1 = relay.register(tx1);
    let id2 = relay.register(tx2);
    let id3 = relay.register(tx3);

    drop(rx1);
    drop(rx3);
    let frame = vec![9u8; 4];
    let (delivered, removed) = relay.publish(id0, &frame);
    assert_eq!(delivered, 1);
    assert_eq!(removed.len(), 2);
    assert!(removed.contains(&id1));
    assert!(removed.contains(&id3));
    assert!(!removed.contains(&id0) && !removed.contains(&id2));
    assert_eq!(rx2.try_recv().expect("live recipient"), frame);

    // The two survivors still relay to each other; nobody else is left.
    let frame2 = vec![10u8; 4];
    let (delivered2, removed2) = relay.publish(id2, &frame2);
    assert_eq!(delivered2, 1);
    assert!(removed2.is_empty());
    assert_eq!(rx0.try_recv().expect("live recipient"), frame2);
}

#[test]
fn full_queue_is_a_delivery_failure_for_that_recipient_only() {
    let mut relay = Relay::new();
    let (tx0, _rx0) = channel::<Vec<u8>>(1);
    let (tx1, mut rx1) = channel::<Vec<u8>>(QUEUE_CAPACITY);
    let (tx2, _rx2) = channel::<Vec<u8>>(QUEUE_CAPACITY);
    let id0 = relay.register(tx0);
    let _id1 = relay.register(tx1);
    let id2 = relay.register(tx2);

    let frame = vec![1u8];
    // First publish fills session 0's one-slot queue.
    let (delivered, removed) = relay.publish(id2, &frame);
    assert_eq!(delivered, 2);
    assert!(removed.is_empty());
    // The second overflows it: session 0 is pruned, the others still hear.
    let (delivered2, removed2) = relay.publish(id2, &frame);
    assert_eq!(delivered2, 1);
    assert_eq!(removed2, vec![id0]);
    assert_eq!(rx1.try_recv().expect("first"), frame);
    assert_eq!(rx1.try_recv().expect("second"), frame);
}
