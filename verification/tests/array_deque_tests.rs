use ring_array::array_deque::ArrayQueue;

#[test]
fn array_deque_test_create() {
    let queue = ArrayQueue::<u8>::new().unwrap();
    assert_eq!(queue.length(), 0);
}

#[test]
fn array_deque_test_resize() {
    let mut queue = ArrayQueue::<u8>::new().unwrap();

    queue.enqueue(1);
    queue.enqueue(2);
    queue.enqueue(3);
    queue.enqueue(4);
    queue.enqueue(5);

    let v1 = queue.dequeue();
    let v2 = queue.dequeue();
    let v3 = queue.dequeue();
    let v4 = queue.dequeue();
    let v5 = queue.dequeue();

    assert_eq!(queue.length(), 0);
    assert_eq!(v1, Some(1));
    assert_eq!(v2, Some(2));
    assert_eq!(v3, Some(3));
    assert_eq!(v4, Some(4));
    assert_eq!(v5, Some(5));
}

#[test]
fn test_add_shift_right() {
    let mut queue = ArrayQueue::<u8>::new().unwrap();

    for i in 0u8..10 {
        queue.enqueue(i);
    }

    queue.add(7, 100);
    queue.add(9, 101);
    queue.add(7, 102);

    assert_eq!(queue.length(), 13);
    assert_eq!(queue.peek(7), Some(102));
    assert_eq!(queue.peek(10), Some(101));
    assert_eq!(queue.peek(8), Some(100));
    assert_eq!(queue.peek(0), Some(0));
}

#[test]
fn test_add_shift_left() {
    let mut queue = ArrayQueue::<u8>::new().unwrap();

    for i in 0u8..10 {
        queue.enqueue(i);
    }

    queue.add(2, 100);
    queue.add(3, 102);

    assert_eq!(queue.length(), 12);
    assert_eq!(queue.peek(3), Some(102));
    assert_eq!(queue.peek(2), Some(100));
    assert_eq!(queue.peek(0), Some(0));
    assert_eq!(queue.peek_back(), Some(9));
}

#[test]
fn array_deque_test_peek() {
    let queue = ArrayQueue::<u8>::new().unwrap();
    assert_eq!(queue.length(), 0);
    assert_eq!(queue.peek_back(), None);
}

#[test]
fn test_remove_at_middle() {
    let mut queue = ArrayQueue::<u8>::with_capacity(10).unwrap();

    queue.enqueue(1);
    queue.enqueue(2);
    queue.enqueue(3);
    queue.enqueue(4);
    queue.enqueue(5);

    let v1 = queue.remove(1);
    let v2 = queue.remove(1);
    let v3 = queue.remove(1);

    assert_eq!(queue.length(), 2);
    assert_eq!(queue.peek(0), Some(1));
    assert_eq!(queue.peek_back(), Some(5));

    assert_eq!(v1, Some(2));
    assert_eq!(v2, Some(3));
    assert_eq!(v3, Some(4));
}

#[test]
fn test_remove_dequeue() {
    let mut queue = ArrayQueue::<u8>::with_capacity(10).unwrap();

    queue.enqueue(1);
    queue.enqueue(2);
    queue.enqueue(3);
    queue.enqueue(4);
    queue.enqueue(5);

    let v1 = queue.dequeue();
    let v2 = queue.dequeue();
    let v3 = queue.dequeue();

    assert_eq!(queue.length(), 2);
    assert_eq!(queue.peek(0), Some(4));
    assert_eq!(queue.peek_back(), Some(5));
    assert_eq!(v1, Some(1));
    assert_eq!(v2, Some(2));
    assert_eq!(v3, Some(3));
}

#[test]
fn array_deque_test_add() {
    let mut queue = ArrayQueue::<u8>::with_capacity(10).unwrap();
    queue.enqueue(1);
    queue.enqueue(2);
    queue.enqueue(3);
    queue.enqueue(4);
    queue.enqueue(5);

    assert_eq!(queue.length(), 5);
    assert_eq!(queue.peek(0), Some(1));
    assert_eq!(queue.peek(4), Some(5));
}
