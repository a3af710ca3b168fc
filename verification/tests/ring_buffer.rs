use polymarket_bot::utils::ring_buffer::RingBuffer;

#[test]
fn test_push_and_latest() {
    let mut rb = RingBuffer::new(3);
    rb.push(1.0);
    rb.push(2.0);
    rb.push(3.0);
    assert_eq!(rb.latest(), Some(&3.0));
    assert_eq!(rb.oldest(), Some(&1.0));
    assert_eq!(rb.len(), 3);
    assert!(rb.is_full());
}

#[test]
fn test_overflow() {
    let mut rb = RingBuffer::new(3);
    rb.push(1.0);
    rb.push(2.0);
    rb.push(3.0);
    rb.push(4.0);
    assert_eq!(rb.latest(), Some(&4.0));
    assert_eq!(rb.oldest(), Some(&2.0));
    assert_eq!(rb.len(), 3);
}

#[test]
fn test_iter() {
    let mut rb = RingBuffer::new(3);
    rb.push(10);
    rb.push(20);
    rb.push(30);
    rb.push(40);
    let items: Vec<&i32> = rb.iter().collect();
    assert_eq!(items, vec![&20, &30, &40]);
}

#[test]
fn empty_and_cleared_buffers() {
    let mut rb: RingBuffer<u8> = RingBuffer::new(2);
    assert!(rb.is_empty());
    assert!(rb.latest().is_none());
    assert!(rb.oldest().is_none());
    assert!(rb.iter().next().is_none());
    rb.push(1);
    assert!(!rb.is_empty() && !rb.is_full());
    rb.push(2);
    rb.push(3);
    let mut it = rb.iter();
    assert_eq!(it.next(), Some(&2));
    assert_eq!(it.next(), Some(&3));
    assert_eq!(it.next(), None);
    rb.clear();
    assert_eq!(rb.len(), 0);
    assert!(rb.latest().is_none());
    rb.push(9);
    assert_eq!(rb.oldest(), Some(&9));
    let none: RingBuffer<u8> = RingBuffer::new(0);
    assert!(none.is_full() && none.is_empty());
}
