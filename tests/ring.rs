use pac4cli::ringbuffer::RingBuffer;

#[test]
fn writes_and_reads_in_order_across_the_wrap() {
    let mut r = RingBuffer::new(vec![0u8; 4]);
    assert_eq!(r.len(), 0);
    assert_eq!(r.with_next_writeable_chunk(&[1, 2, 3]), 3);
    assert_eq!(r.len(), 3);
    assert_eq!(r.with_next_readable_chunk(2), vec![1, 2]);
    assert_eq!(r.len(), 1);
    assert_eq!(r.with_next_writeable_chunk(&[4, 5, 6]), 1);
    assert_eq!(r.with_next_writeable_chunk(&[5, 6, 7]), 2);
    assert_eq!(r.len(), 4);
    assert_eq!(r.with_next_writeable_chunk(&[9]), 0);
    assert_eq!(r.with_next_readable_chunk(10), vec![3, 4]);
    assert_eq!(r.with_next_readable_chunk(10), vec![5, 6]);
    assert_eq!(r.len(), 0);
    assert_eq!(r.with_next_readable_chunk(10), Vec::<u8>::new());
}

#[test]
fn empty_buffer_takes_nothing() {
    let mut r: RingBuffer<u8> = RingBuffer::new(Vec::new());
    assert_eq!(r.with_next_writeable_chunk(&[1]), 0);
    assert_eq!(r.with_next_readable_chunk(1), Vec::<u8>::new());
    assert_eq!(r.len(), 0);
}
