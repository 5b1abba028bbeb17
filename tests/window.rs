use multiddm::window::SlidingWindowBuffer;

#[test]
fn window_fills_then_slides() {
    let mut b = SlidingWindowBuffer::new(3);
    assert!(!b.is_full());
    b.push(1);
    b.push(2);
    assert!(!b.is_full());
    assert_eq!(*b.snapshot(), vec![1, 2]);
    b.push(3);
    assert!(b.is_full());
    assert_eq!(*b.snapshot(), vec![1, 2, 3]);
    b.push(4);
    assert_eq!(*b.snapshot(), vec![2, 3, 4]);
    assert_eq!(b.len(), 3);
    assert_eq!(b.capacity(), 3);
}

#[test]
fn window_holds_latest_after_many_pushes() {
    let w = 4;
    for k in 0..10 {
        let mut b = SlidingWindowBuffer::new(w);
        for i in 0..(w + k) {
            b.push(i);
        }
        let expected: Vec<usize> = (k..(w + k)).collect();
        assert_eq!(*b.snapshot(), expected);
        assert!(b.is_full());
    }
}

#[test]
fn window_of_one() {
    let mut b = SlidingWindowBuffer::new(1);
    b.push("a");
    b.push("b");
    assert_eq!(*b.snapshot(), vec!["b"]);
}
