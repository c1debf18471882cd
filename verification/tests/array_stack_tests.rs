use ring_array::array_stack::Array;

#[test]
fn array_stack_test_create() {
    let arr = Array::<u8>::new();
    assert_eq!(arr.length(), 0);
}

#[test]
fn array_stack_test_push_back() {
    let mut arr = Array::<u8>::new();
    arr.push_back(1);
    arr.push_back(2);
    arr.push_back(3);
    arr.push_back(4);
    arr.push_back(5);

    assert_eq!(arr.length(), 5);
    assert_eq!(arr.get(0), 1);
    assert_eq!(arr.get(1), 2);
    assert_eq!(arr.get(2), 3);
    assert_eq!(arr.get(3), 4);
    assert_eq!(arr.get(4), 5);
}

#[test]
fn array_stack_test_push_front() {
    let mut arr = Array::<u8>::new();
    arr.push_back(1);
    arr.push_back(2);
    arr.push_back(3);
    arr.push_back(4);
    arr.push_back(5);
    arr.push_front(10);
    arr.push_front(11);

    assert_eq!(arr.length(), 7);
    assert_eq!(arr.get(0), 11);
    assert_eq!(arr.get(1), 10);
    assert_eq!(arr.get(2), 1);
    assert_eq!(arr.get(3), 2);
    assert_eq!(arr.get(4), 3);
}

#[test]
fn array_stack_test_grow() {
    let mut arr = Array::<u8>::with_capacity(4);
    arr.push_back(1);
    arr.push_back(2);
    arr.push_back(3);
    arr.push_back(4);
    arr.push_back(5);

    assert_eq!(arr.length(), 5);
    assert_eq!(arr.capacity(), 8);
    assert_eq!(arr.get(0), 1);
    assert_eq!(arr.get(1), 2);
    assert_eq!(arr.get(2), 3);
    assert_eq!(arr.get(3), 4);
    assert_eq!(arr.get(4), 5);
}
