//! The byte ring between one producer and one consumer.

use wiznet_rs::spsc_ring::SpscRing;

fn ring(cap: usize) -> SpscRing<'static> {
    let mut r = SpscRing::new();
    r.install(vec![0u8; cap].leak());
    r
}

#[test]
fn empty_ring_is_noop() {
    let mut r = SpscRing::new();
    assert_eq!(r.capacity(), 0);
    assert_eq!(r.write(&[1, 2, 3]), 0);
    let mut buf = [0u8; 4];
    assert_eq!(r.read(&mut buf), 0);
}

#[test]
fn write_then_read_roundtrip() {
    let mut r = ring(8);
    assert_eq!(r.free(), 8);
    assert_eq!(r.write(&[1, 2, 3, 4]), 4);
    assert_eq!(r.len(), 4);
    assert_eq!(r.free(), 4);

    let mut out = [0u8; 4];
    assert_eq!(r.read(&mut out), 4);
    assert_eq!(out, [1, 2, 3, 4]);
    assert_eq!(r.len(), 0);
}

#[test]
fn write_saturates_at_capacity() {
    let mut r = ring(4);
    assert_eq!(
        r.write(&[1, 2, 3, 4, 5, 6]),
        4,
        "only `free` bytes accepted"
    );
    assert_eq!(r.len(), 4);
    assert_eq!(r.write(&[7]), 0, "full ring rejects");
}

#[test]
fn read_is_bounded_by_stored_len() {
    let mut r = ring(8);
    r.write(&[1, 2, 3]);
    let mut out = [0u8; 8];
    assert_eq!(r.read(&mut out), 3);
    assert_eq!(&out[..3], &[1, 2, 3]);
}

/// Producing and consuming around the buffer end must wrap correctly. Fill,
/// drain part, then write across the seam and read it back contiguously.
#[test]
fn wraps_around_the_seam() {
    let mut r = ring(8);
    r.write(&[0, 1, 2, 3, 4, 5]); // tail = 6
    let mut sink = [0u8; 4];
    assert_eq!(r.read(&mut sink), 4); // head = 4
    assert_eq!(sink, [0, 1, 2, 3]);

    // free = 6; writing 5 bytes wraps (room 2 at end, 3 at start).
    assert_eq!(r.write(&[10, 11, 12, 13, 14]), 5);
    assert_eq!(r.len(), 7); // [4,5] + [10..15)

    let mut out = [0u8; 7];
    assert_eq!(r.read(&mut out), 7);
    assert_eq!(out, [4, 5, 10, 11, 12, 13, 14]);
}

/// Drive many small interleaved write/read steps across several wraps and
/// confirm the byte stream is order-preserving and lossless.
#[test]
fn streaming_preserves_order_across_wraps() {
    let mut r = ring(5);
    let mut next_write = 0u8;
    let mut next_read = 0u8;
    let mut drained: Vec<u8> = Vec::new();

    for _ in 0..100 {
        let chunk = [
            next_write,
            next_write.wrapping_add(1),
            next_write.wrapping_add(2),
        ];
        let w = r.write(&chunk);
        next_write = next_write.wrapping_add(w as u8);

        let mut out = [0u8; 2];
        let got = r.read(&mut out);
        drained.extend_from_slice(&out[..got]);
    }
    // flush the tail
    loop {
        let mut out = [0u8; 5];
        let got = r.read(&mut out);
        if got == 0 {
            break;
        }
        drained.extend_from_slice(&out[..got]);
    }

    for b in drained {
        assert_eq!(b, next_read, "bytes must come out in the order written");
        next_read = next_read.wrapping_add(1);
    }
}

#[test]
fn peek_leaves_the_bytes() {
    let mut r = ring(4);
    r.write(&[1, 2, 3]);
    let mut out = [9u8; 2];
    assert_eq!(r.peek(&mut out), 2);
    assert_eq!(out, [1, 2]);
    assert_eq!(r.len(), 3);
}

#[test]
fn frames_are_counted_and_cleared() {
    let mut r = ring(4);
    assert_eq!(r.frames(), 0);
    r.write(&[1, 2]);
    r.commit_frame();
    r.commit_frame();
    assert_eq!(r.frames(), 2);
    r.release_frame();
    assert_eq!(r.frames(), 1);
    r.clear();
    assert_eq!((r.frames(), r.len(), r.free()), (0, 0, 4));
}
