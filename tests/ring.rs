use audio_scrollback::RingBuffer;

#[test]
fn empty_ring_reads_silence() {
    let mut r = RingBuffer::default();
    r.set_size(4);
    assert_eq!(r.len(), 80);
    assert_eq!(r.get(0), 128);
    assert_eq!(r.get(79), 128);
}

#[test]
fn first_push_lands_in_last_block() {
    let mut r = RingBuffer::default();
    r.set_size(2);
    r.push(vec![1, 2]);
    // The head moved to 1, so reading starts at position 1 and the block at
    // position 19 is read from sample 36 on.
    assert_eq!(r.get(0), 128);
    assert_eq!(r.get(36), 1);
    assert_eq!(r.get(37), 2);
    r.push(vec![3, 4]);
    // The second block went to position 1; reading now starts at 2.
    assert_eq!(r.get(34), 1);
    assert_eq!(r.get(35), 2);
    assert_eq!(r.get(38), 3);
    assert_eq!(r.get(39), 4);
}

#[test]
fn reading_wraps_around_the_ring() {
    let mut r = RingBuffer::default();
    r.set_size(1);
    for i in 0..20u8 {
        r.push(vec![i]);
    }
    // Twenty pushes: the head is back at 0, position 19 holds the last block.
    assert_eq!(r.get(19), 19);
    assert_eq!(r.get(20 + 19), 19);
    assert_eq!(r.get(1), 1);
}
