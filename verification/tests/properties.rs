use ring_array::array::Array;
use ring_array::array_deque::ArrayQueue as ArrayDeque;
use ring_array::array_queue::ArrayQueue;

#[test]
fn ring_capacity_doubles_on_overflow() {
    for cap in [1usize, 2, 3, 5, 8] {
        let mut queue = ArrayDeque::<u8>::with_capacity(cap).unwrap();
        for i in 0u8..(cap as u8) {
            queue.enqueue(i);
        }
        assert_eq!(queue.capacity(), cap);
        queue.enqueue(200);
        assert_eq!(queue.capacity(), 2 * cap);
        assert_eq!(queue.length(), cap + 1);
    }
}

#[test]
fn grow_keeps_logical_order() {
    let mut queue = ArrayDeque::<u8>::with_capacity(4).unwrap();
    queue.enqueue(1);
    queue.enqueue(2);
    queue.enqueue(3);
    queue.enqueue(4);
    queue.enqueue(5);

    assert_eq!(queue.capacity(), 8);
    assert_eq!(queue.peek(0), Some(1));
    assert_eq!(queue.peek(4), Some(5));

    for i in 1u8..6 {
        assert_eq!(queue.dequeue(), Some(i));
    }
    assert_eq!(queue.length(), 0);
    assert_eq!(queue.dequeue(), None);
}

#[test]
fn fifo_order_with_growth() {
    let mut queue = ArrayQueue::<u8>::with_capacity(3).unwrap();
    queue.add(1);
    queue.add(2);
    queue.add(3);
    assert_eq!(queue.remove(), Some(1));
    queue.add(4);
    queue.add(5);

    assert_eq!(queue.capacity(), 6);
    assert_eq!(queue.remove(), Some(2));
    assert_eq!(queue.remove(), Some(3));
    assert_eq!(queue.remove(), Some(4));
    assert_eq!(queue.remove(), Some(5));
    assert_eq!(queue.remove(), None);
}

#[test]
fn tail_insert_full_scan() {
    let mut queue = ArrayDeque::<u8>::new().unwrap();
    for i in 0u8..10 {
        queue.enqueue(i);
    }
    queue.add(7, 100);

    let expected: [u8; 11] = [0, 1, 2, 3, 4, 5, 6, 100, 7, 8, 9];
    assert_eq!(queue.length(), expected.len());
    for (i, v) in expected.iter().enumerate() {
        assert_eq!(queue.peek(i), Some(*v));
    }
}

#[test]
fn head_insert_full_scan() {
    let mut queue = ArrayDeque::<u8>::new().unwrap();
    for i in 0u8..10 {
        queue.enqueue(i);
    }
    queue.add(2, 100);

    let expected: [u8; 11] = [0, 1, 100, 2, 3, 4, 5, 6, 7, 8, 9];
    assert_eq!(queue.length(), expected.len());
    for (i, v) in expected.iter().enumerate() {
        assert_eq!(queue.peek(i), Some(*v));
    }
}

#[test]
fn tail_remove_full_scan() {
    let mut queue = ArrayDeque::<u8>::new().unwrap();
    for i in 0u8..10 {
        queue.enqueue(i);
    }
    assert_eq!(queue.remove(7), Some(7));

    let expected: [u8; 9] = [0, 1, 2, 3, 4, 5, 6, 8, 9];
    assert_eq!(queue.length(), expected.len());
    for (i, v) in expected.iter().enumerate() {
        assert_eq!(queue.peek(i), Some(*v));
    }
}

#[test]
fn head_remove_full_scan() {
    let mut queue = ArrayDeque::<u8>::new().unwrap();
    for i in 0u8..10 {
        queue.enqueue(i);
    }
    assert_eq!(queue.remove(2), Some(2));

    let expected: [u8; 9] = [0, 1, 3, 4, 5, 6, 7, 8, 9];
    assert_eq!(queue.length(), expected.len());
    for (i, v) in expected.iter().enumerate() {
        assert_eq!(queue.peek(i), Some(*v));
    }
}

#[test]
fn add_then_remove_restores_contents() {
    let mut queue = ArrayDeque::<u8>::with_capacity(4).unwrap();
    queue.enqueue(1);
    queue.enqueue(2);
    queue.enqueue(3);
    queue.enqueue(4);
    assert_eq!(queue.dequeue(), Some(1));
    assert_eq!(queue.dequeue(), Some(2));
    queue.enqueue(5);
    queue.enqueue(6);
    // The ring now wraps: logical contents are [3, 4, 5, 6].

    queue.add(2, 9);
    assert_eq!(queue.length(), 5);
    assert_eq!(queue.peek(2), Some(9));
    assert_eq!(queue.remove(2), Some(9));

    let expected: [u8; 4] = [3, 4, 5, 6];
    assert_eq!(queue.length(), expected.len());
    for (i, v) in expected.iter().enumerate() {
        assert_eq!(queue.peek(i), Some(*v));
    }
}

#[test]
fn add_at_the_ends() {
    let mut queue = ArrayDeque::<u8>::with_capacity(8).unwrap();
    queue.enqueue(1);
    queue.enqueue(2);
    queue.add(2, 3);
    queue.add(0, 0);

    let expected: [u8; 4] = [0, 1, 2, 3];
    assert_eq!(queue.length(), expected.len());
    for (i, v) in expected.iter().enumerate() {
        assert_eq!(queue.peek(i), Some(*v));
    }
}

#[test]
fn empty_and_out_of_range_results() {
    let mut deque = ArrayDeque::<u8>::new().unwrap();
    assert_eq!(deque.dequeue(), None);
    assert_eq!(deque.remove(0), None);
    assert_eq!(deque.peek(0), None);
    deque.enqueue(1);
    assert_eq!(deque.peek(1), None);
    assert_eq!(deque.remove(3), None);
    assert_eq!(deque.length(), 1);

    let mut queue = ArrayQueue::<u8>::new().unwrap();
    assert_eq!(queue.remove(), None);
    assert_eq!(queue.peek(), None);

    let mut arr = Array::<u8>::new().unwrap();
    assert_eq!(arr.get(0), None);
    assert_eq!(arr.set(0, 7), None);
    assert_eq!(arr.remove(0), None);
    assert_eq!(arr.pop_back(), None);
    assert_eq!(arr.pop_front(), None);
}

#[test]
fn array_set_returns_former_value() {
    let mut arr = Array::<u8>::with_capacity(2).unwrap();
    arr.push_back(7);
    arr.push_back(8);
    assert_eq!(arr.set(1, 9), Some(8));
    assert_eq!(arr.get(1), Some(9));
    assert_eq!(arr.get(0), Some(7));
}

#[test]
fn array_pop_front_shifts() {
    let mut arr = Array::<u8>::with_capacity(4).unwrap();
    arr.push_back(1);
    arr.push_back(2);
    arr.push_back(3);
    assert_eq!(arr.pop_front(), Some(1));
    assert_eq!(arr.get(0), Some(2));
    assert_eq!(arr.get(1), Some(3));
    assert_eq!(arr.length(), 2);
}
