use als_engine::ring_buffer::RingBuffer;

#[test]
fn keeps_latest_values_when_full() {
    let mut buffer = RingBuffer::new(3);
    buffer.push(1);
    buffer.push(2);
    buffer.push(3);
    buffer.push(4);

    assert_eq!(buffer.latest(10), vec![2, 3, 4]);
}

#[test]
fn latest_respects_limit() {
    let mut buffer = RingBuffer::new(5);
    buffer.push(1);
    buffer.push(2);
    buffer.push(3);

    assert_eq!(buffer.latest(2), vec![2, 3]);
}

#[test]
fn holds_at_most_its_capacity_of_the_newest_values() {
    let mut buffer = RingBuffer::new(4);
    for v in 0..10u64 {
        buffer.push(v);
        assert!(buffer.len() <= buffer.capacity());
    }
    assert_eq!(buffer.len(), 4);
    assert_eq!(buffer.latest(usize::MAX), vec![6, 7, 8, 9]);
    assert_eq!(buffer.latest(0), Vec::<u64>::new());
    assert_eq!(*buffer.get(0), 6);
    assert_eq!(buffer.pop_oldest(), Some(6));
    assert_eq!(buffer.latest(10), vec![7, 8, 9]);
}

#[test]
fn capacity_one_keeps_only_the_last_value() {
    let mut buffer = RingBuffer::new(1);
    buffer.push("a".to_string());
    buffer.push("b".to_string());
    assert_eq!(buffer.latest(5), vec!["b".to_string()]);
}
