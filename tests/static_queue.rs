use std::mem::MaybeUninit;

use ufotofu_queues::{Queue, Static};

#[test]
fn static__enqueues_and_dequeues_with_correct_amount() {
    let mut queue: Static<u8, 4> = Static::new();

    assert_eq!(queue.enqueue(7), None);
    assert_eq!(queue.enqueue(21), None);
    assert_eq!(queue.enqueue(196), None);
    assert_eq!(queue.len(), 3);

    assert_eq!(queue.enqueue(233), None);
    assert_eq!(queue.len(), 4);

    // First in, first out.
    assert_eq!(queue.dequeue(), Some(7));
    assert_eq!(queue.len(), 3);
}

#[test]
fn static__bulk_enqueues_and_dequeues_with_correct_amount() {
    let mut queue: Static<u8, 4> = Static::new();
    let mut buf: [MaybeUninit<u8>; 4] = [MaybeUninit::uninit(); 4];

    let enqueue_amount = queue.bulk_enqueue(b"ufo");
    let dequeue_amount = queue.bulk_dequeue_uninit(&mut buf);

    assert_eq!(enqueue_amount, dequeue_amount);
}

#[test]
fn static__returns_item_on_enqueue_when_queue_is_full() {
    let mut queue: Static<u8, 1> = Static::new();

    assert_eq!(queue.enqueue(7), None);

    assert_eq!(queue.enqueue(0), Some(0))
}

#[test]
fn static__returns_none_on_dequeue_when_queue_is_empty() {
    let mut queue: Static<u8, 1> = Static::new();

    // Enqueue and then dequeue an item.
    let _ = queue.enqueue(7);
    let _ = queue.dequeue();

    // The queue is now empty.
    assert!(queue.dequeue().is_none());
}

#[test]
fn static__returnes_none_on_enqueue_slots_when_none_are_available() {
    let mut queue: Static<u8, 4> = Static::new();

    // Fill two of the exposed slots and count them as enqueued.
    let data = b"tofu";
    let slots = queue.expose_slots().unwrap();
    slots[0..2].copy_from_slice(&data[0..2]);
    queue.consider_enqueued(2);

    // Fill two more.
    let slots = queue.expose_slots().unwrap();
    slots[0..2].copy_from_slice(&data[0..2]);
    queue.consider_enqueued(2);

    // All slots are taken now.
    assert!(queue.expose_slots().is_none());
}

#[test]
fn static__returns_none_on_dequeue_slots_when_none_are_available() {
    let mut queue: Static<u8, 4> = Static::new();

    let data = b"tofu";
    let _amount = queue.bulk_enqueue(data);

    let _slots = queue.expose_items().unwrap();
    queue.consider_dequeued(4);

    // All items are gone now.
    assert!(queue.expose_items().is_none());
}

#[test]
fn static__zero_capacity_is_always_full_and_empty() {
    let mut queue: Static<u8, 0> = Static::new();
    assert_eq!(queue.enqueue(1), Some(1));
    assert_eq!(queue.dequeue(), None);
    assert!(queue.expose_slots().is_none());
    assert!(queue.expose_items().is_none());
    assert_eq!(queue.bulk_enqueue(&[1, 2]), 0);
    let mut buf = [0u8; 2];
    assert_eq!(queue.bulk_dequeue(&mut buf), 0);
    assert_eq!(buf, [0, 0]);
}

#[test]
fn static__default_is_empty() {
    let mut queue: Static<u16, 3> = Static::default();
    assert!(queue.is_empty());
    assert_eq!(queue.dequeue(), None);
    assert_eq!(queue.enqueue(300), None);
    assert_eq!(queue.len(), 1);
}

#[test]
fn static__bulk_dequeue_uninit_takes_the_oldest_items() {
    let mut queue: Static<u8, 4> = Static::new();
    assert_eq!(queue.bulk_enqueue(&[5, 6, 7]), 3);
    let mut buf: [MaybeUninit<u8>; 2] = [MaybeUninit::uninit(); 2];
    assert_eq!(queue.bulk_dequeue_uninit(&mut buf), 2);
    assert_eq!(queue.len(), 1);
    assert_eq!(queue.dequeue(), Some(7));
}
