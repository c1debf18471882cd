use ring_array::array_queue::ArrayQueue;

#[test]
fn array_queue_test_create() {
    let queue = ArrayQueue::<u8>::new().unwrap();
    assert_eq!(queue.length(), 0);
}

#[test]
fn array_queue_test_resize() {
    let mut queue = ArrayQueue::<u8>::new().unwrap();

    queue.add(1);
    queue.add(2);
    queue.add(3);
    queue.add(4);
    queue.add(5);

    let v1 = queue.remove();
    let v2 = queue.remove();
    let v3 = queue.remove();
    let v4 = queue.remove();
    let v5 = queue.remove();

    assert_eq!(queue.length(), 0);
    assert_eq!(v1, Some(1));
    assert_eq!(v2, Some(2));
    assert_eq!(v3, Some(3));
    assert_eq!(v4, Some(4));
    assert_eq!(v5, Some(5));
}

#[test]
fn array_queue_test_peek() {
    let queue = ArrayQueue::<u8>::new().unwrap();
    assert_eq!(queue.length(), 0);
    assert_eq!(queue.peek(), None);
}

#[test]
fn test_remove_01() {
    let mut queue = ArrayQueue::<u8>::with_capacity(10).unwrap();

    queue.add(1);
    queue.add(2);
    queue.add(3);
    queue.add(4);
    queue.add(5);

    let v1 = queue.remove();
    let v2 = queue.remove();
    let v3 = queue.remove();

    assert_eq!(queue.length(), 2);
    assert_eq!(queue.peek(), Some(4));
    assert_eq!(v1, Some(1));
    assert_eq!(v2, Some(2));
    assert_eq!(v3, Some(3));
}

#[test]
fn array_queue_test_add() {
    let mut queue = ArrayQueue::<u8>::with_capacity(10).unwrap();
    queue.add(1);
    queue.add(2);
    queue.add(3);
    queue.add(4);
    queue.add(5);

    assert_eq!(queue.length(), 5);
    assert_eq!(queue.peek(), Some(1));
}
