use std::mem::MaybeUninit;

use ufotofu_queues::{Fixed, Queue};

#[test]
fn fixed_enqueues_and_dequeues_with_correct_amount() {
    let mut queue: Fixed<u8> = Fixed::new(4);

    assert_eq!(queue.enqueue(7), None);
    assert_eq!(queue.enqueue(21), None);
    assert_eq!(queue.enqueue(196), None);
    assert_eq!(queue.len(), 3);

    assert_eq!(queue.enqueue(233), None);
    assert_eq!(queue.len(), 4);

    // First in, first out.
    assert_eq!(queue.dequeue(), Some(7));
    assert_eq!(queue.len(), 3);
}

#[test]
fn fixed_bulk_enqueues_and_dequeues_with_correct_amount() {
    let mut queue: Fixed<u8> = Fixed::new(4);
    let mut buf: [MaybeUninit<u8>; 4] = [MaybeUninit::uninit(); 4];

    let enqueue_amount = queue.bulk_enqueue(b"ufo");
    let dequeue_amount = queue.bulk_dequeue_uninit(&mut buf);

    assert_eq!(enqueue_amount, dequeue_amount);
}

#[test]
fn fixed_returns_item_on_enqueue_when_queue_is_full() {
    let mut queue: Fixed<u8> = Fixed::new(1);

    assert_eq!(queue.enqueue(7), None);

    assert_eq!(queue.enqueue(0), Some(0))
}

#[test]
fn fixed_returns_none_on_dequeue_when_queue_is_empty() {
    let mut queue: Fixed<u8> = Fixed::new(1);

    // Enqueue and then dequeue an item.
    let _ = queue.enqueue(7);
    let _ = queue.dequeue();

    // The queue is now empty.
    assert!(queue.dequeue().is_none());
}

#[test]
fn fixed_returnes_none_on_enqueue_slots_when_none_are_available() {
    let mut queue: Fixed<u8> = Fixed::new(4);

    // Fill two of the exposed slots and count them as enqueued.
    let data = b"tofu";
    let slots = queue.expose_slots().unwrap();
    slots[0..2].copy_from_slice(&data[0..2]);
    queue.consider_enqueued(2);

    // Fill two more.
    let slots = queue.expose_slots().unwrap();
    slots[0..2].copy_from_slice(&data[0..2]);
    queue.consider_enqueued(2);

    // All slots are taken now.
    assert!(queue.expose_slots().is_none());
}

#[test]
fn fixed_returns_none_on_dequeue_slots_when_none_are_available() {
    let mut queue: Fixed<u8> = Fixed::new(4);

    let data = b"tofu";
    let _amount = queue.bulk_enqueue(data);

    let _slots = queue.expose_items().unwrap();
    queue.consider_dequeued(4);

    // All items are gone now.
    assert!(queue.expose_items().is_none());
}

#[test]
fn fixed_reports_its_capacity() {
    let queue: Fixed<u8> = Fixed::new(17);
    assert_eq!(queue.capacity(), 17);
    assert_eq!(queue.len(), 0);
    assert!(queue.is_empty());
}

#[test]
fn fixed_try_new_gives_an_empty_queue() {
    let mut queue: Fixed<u32> = Fixed::try_new(3).unwrap();
    assert_eq!(queue.capacity(), 3);
    assert!(queue.is_empty());
    assert_eq!(queue.enqueue(40), None);
    assert_eq!(queue.dequeue(), Some(40));
}

#[test]
fn fixed_zero_capacity_is_always_full_and_empty() {
    let mut queue: Fixed<u8> = Fixed::new(0);
    assert_eq!(queue.enqueue(1), Some(1));
    assert_eq!(queue.dequeue(), None);
    assert!(queue.expose_slots().is_none());
    assert!(queue.expose_items().is_none());
    assert_eq!(queue.bulk_enqueue(&[1, 2]), 0);
    let mut buf = [0u8; 2];
    assert_eq!(queue.bulk_dequeue(&mut buf), 0);
    assert_eq!(buf, [0, 0]);
}

#[test]
fn fixed_bulk_dequeue_uninit_takes_the_oldest_items() {
    let mut queue: Fixed<u8> = Fixed::new(4);
    assert_eq!(queue.bulk_enqueue(&[5, 6, 7]), 3);
    let mut buf: [MaybeUninit<u8>; 2] = [MaybeUninit::uninit(); 2];
    assert_eq!(queue.bulk_dequeue_uninit(&mut buf), 2);
    assert_eq!(queue.len(), 1);
    assert_eq!(queue.dequeue(), Some(7));
}
