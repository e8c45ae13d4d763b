//! Datagrams in a byte ring.
//!
//! UDP is message-oriented, but the rings are byte queues. To preserve datagram
//! boundaries and the peer address without a second data structure, every
//! datagram is stored in the ring as a length-prefixed **frame**:
//!
//! ```text
//! [ len_hi len_lo | ip0 ip1 ip2 ip3 | port_hi port_lo | payload (len bytes) ]
//!  \___________________ FRAME_HEADER (8 bytes) __________________/
//! ```
//!
//! `len` is the payload length; `ip`/`port` are the peer (source on rx, dest on
//! tx). The ring's frame counter counts a frame only once all its bytes are in,
//! so a reader that waits for a frame never sees a torn datagram.
use vstd::prelude::*;

use crate::bytes::{
    be16, be32, copy_at, from_be16, from_be32, law_be16_decoded, law_be32_decoded, overlay,
    u16_from_be, u16_to_be, u32_from_be, u32_to_be,
};
use crate::ring_buffer::min;
use crate::spsc_ring::{RingState, SpscRing};

verus! {

/// An IPv4 socket address: the peer of a datagram.
#[derive(Debug, Clone, Copy, PartialEq, Eq, Structural)]
pub struct SocketAddr {
    /// IPv4 address in host order, the first octet most significant.
    pub ip: u32,
    pub port: u16,
}

/// The length of the header in front of every datagram in a ring:
/// `[len(2) | ip(4) | port(2)]`.
pub const FRAME_HEADER: usize = 8;

/// The header of a datagram of `len` payload bytes to or from `addr`.
pub open spec fn frame_header_of(len: u16, addr: SocketAddr) -> Seq<u8> {
    be16(len) + be32(addr.ip) + be16(addr.port)
}

/// The payload length that a header gives.
pub open spec fn frame_len(h: Seq<u8>) -> u16 {
    from_be16(h.subrange(0, 2))
}

/// The peer that a header gives.
pub open spec fn frame_peer(h: Seq<u8>) -> SocketAddr {
    SocketAddr { ip: from_be32(h.subrange(2, 6)), port: from_be16(h.subrange(6, 8)) }
}

/// Build the frame header for a datagram of `len` payload bytes to/from `addr`.
pub fn frame_header(len: u16, addr: SocketAddr) -> (h: [u8; 8])
    ensures
        h@ == frame_header_of(len, addr),
{
    let mut h = [0u8; 8];
    copy_at(&mut h, 0, &u16_to_be(len));
    copy_at(&mut h, 2, &u32_to_be(addr.ip));
    copy_at(&mut h, 6, &u16_to_be(addr.port));
    h
}

/// Parse a frame header back into the payload length and the peer.
pub fn parse_frame_header(h: &[u8; 8]) -> (r: (usize, SocketAddr))
    ensures
        r.0 == frame_len(h@),
        r.1 == frame_peer(h@),
{
    let len = u16_from_be(h[0], h[1]);
    let ip = u32_from_be(h[2], h[3], h[4], h[5]);
    let port = u16_from_be(h[6], h[7]);
    proof {
        assert(h@.subrange(0, 2) =~= seq![h@[0], h@[1]]);
        assert(h@.subrange(2, 6) =~= seq![h@[2], h@[3], h@[4], h@[5]]);
        assert(h@.subrange(6, 8) =~= seq![h@[6], h@[7]]);
    }
    (len as usize, SocketAddr { ip, port })
}

/// Parsing a header gives back what it was built from.
pub proof fn law_header_round_trip(len: u16, addr: SocketAddr)
    ensures
        frame_header_of(len, addr).len() == FRAME_HEADER,
        frame_len(frame_header_of(len, addr)) == len,
        frame_peer(frame_header_of(len, addr)) == addr,
{
    let h = frame_header_of(len, addr);
    assert(h.subrange(0, 2) =~= be16(len));
    assert(h.subrange(2, 6) =~= be32(addr.ip));
    assert(h.subrange(6, 8) =~= be16(addr.port));
}

/// Building a header from what was parsed gives back the same bytes.
pub proof fn law_header_parsed(h: Seq<u8>)
    requires
        h.len() == FRAME_HEADER,
    ensures
        frame_header_of(frame_len(h), frame_peer(h)) == h,
{
    law_be16_decoded(h.subrange(0, 2));
    law_be32_decoded(h.subrange(2, 6));
    law_be16_decoded(h.subrange(6, 8));
    assert(h.subrange(0, 2) + h.subrange(2, 6) + h.subrange(6, 8) =~= h);
}

/// A ring after a frame was put in.
pub open spec fn framed(ring: RingState, peer: SocketAddr, payload: Seq<u8>) -> RingState {
    ring.put(frame_header_of(payload.len() as u16, peer)).put(payload).committed()
}

/// Whether the ring has room for a frame of `len` payload bytes. There is none
/// for more than a header can spell.
pub open spec fn has_room(ring: RingState, len: nat) -> bool {
    len <= u16::MAX && ring.free() >= FRAME_HEADER + len
}

/// Put a frame into the ring if all of it fits now; report whether it did. A
/// payload whose length the header cannot spell never fits.
pub fn put_frame(ring: &mut SpscRing<'_>, peer: SocketAddr, payload: &[u8]) -> (done: bool)
    requires
        old(ring).wf(),
    ensures
        done == has_room(old(ring)@, payload@.len()),
        final(ring).wf(),
        final(ring)@ == (if done {
            framed(old(ring)@, peer, payload@)
        } else {
            old(ring)@
        }),
{
    // Won't fit now (or ever, if larger than the ring): accept nothing.
    let free = ring.free();
    if payload.len() > 0xFFFF || free < FRAME_HEADER || free - FRAME_HEADER < payload.len() {
        return false;
    }
    // Room checked above, so both writes take everything.
    let _ = ring.write(&frame_header(payload.len() as u16, peer));
    let _ = ring.write(payload);
    ring.commit_frame();
    true
}

/// Whether the ring starts with a complete frame.
pub open spec fn has_frame(ring: RingState) -> bool {
    &&& ring.frames > 0
    &&& ring.bytes.len() >= FRAME_HEADER
    &&& ring.bytes.len() >= FRAME_HEADER + frame_len(ring.bytes)
}

/// The payload of the frame that the ring starts with.
pub open spec fn first_payload(ring: RingState) -> Seq<u8> {
    ring.bytes.subrange(FRAME_HEADER as int, FRAME_HEADER + frame_len(ring.bytes))
}

/// A ring after the frame it starts with was taken out.
pub open spec fn unframed(ring: RingState) -> RingState {
    ring.taken(FRAME_HEADER + frame_len(ring.bytes)).released()
}

/// Drop up to `n` bytes from the front of the ring.
pub fn discard(ring: &mut SpscRing<'_>, n: usize)
    requires
        old(ring).wf(),
    ensures
        final(ring).wf(),
        final(ring)@ == old(ring)@.taken(n as int),
{
    let ghost bytes = ring@.bytes;
    let mut left = n;
    let mut scratch = [0u8; 64];
    proof {
        assert(ring@.taken(0) =~= ring@);
    }
    while left > 0
        invariant
            left <= n,
            bytes == old(ring)@.bytes,
            ring.wf(),
            scratch@.len() == 64,
            ring@ == old(ring)@.taken(n - left),
        decreases left,
    {
        let take = if left < 64 {
            left
        } else {
            64
        };
        let whole: &mut [u8] = &mut scratch;
        let (part, _) = whole.split_at_mut(take);
        let _ = ring.read(part);
        left = left - take;
        proof {
            assert(ring@.bytes =~= bytes.skip(min(n - left, bytes.len() as int)));
        }
    }
}

/// Take the oldest frame out of the ring and as much of its payload as fits
/// into `dst`; the excess is discarded. `None` if the ring does not start with a
/// complete frame.
pub fn take_frame(ring: &mut SpscRing<'_>, dst: &mut [u8]) -> (r: Option<(usize, SocketAddr)>)
    requires
        old(ring).wf(),
    ensures
        final(ring).wf(),
        match r {
            None => {
                &&& !has_frame(old(ring)@)
                &&& final(ring)@ == old(ring)@
                &&& final(dst)@ == old(dst)@
            },
            Some((n, peer)) => {
                &&& has_frame(old(ring)@)
                &&& n == min(frame_len(old(ring)@.bytes) as int, old(dst)@.len() as int)
                &&& peer == frame_peer(old(ring)@.bytes)
                &&& final(dst)@ == overlay(old(dst)@, 0, first_payload(old(ring)@).take(n as int))
                &&& final(ring)@ == unframed(old(ring)@)
            },
        },
{
    if ring.frames() == 0 || ring.len() < FRAME_HEADER {
        return None;
    }
    let ghost bytes = ring@.bytes;
    let mut head = [0u8; 8];
    let _ = ring.peek(&mut head);
    proof {
        assert(head@ =~= bytes.take(8));
        assert(head@.subrange(0, 2) =~= bytes.subrange(0, 2));
        assert(head@.subrange(2, 6) =~= bytes.subrange(2, 6));
        assert(head@.subrange(6, 8) =~= bytes.subrange(6, 8));
    }
    let (payload_len, peer) = parse_frame_header(&head);
    if ring.len() - FRAME_HEADER < payload_len {
        return None;
    }
    let _ = ring.read(&mut head);

    let room = dst.len();
    let n = if payload_len < room {
        payload_len
    } else {
        room
    };
    {
        let (part, _) = dst.split_at_mut(n);
        let _ = ring.read(part);
    }
    // Drop any payload bytes that did not fit `dst`, keeping the ring aligned on
    // the next frame boundary.
    discard(ring, payload_len - n);
    proof {
        assert(ring@.bytes =~= bytes.skip(FRAME_HEADER + payload_len));
    }
    ring.release_frame();
    Some((n, peer))
}

/// A datagram with its peer.
pub struct Datagram {
    pub peer: SocketAddr,
    pub payload: Seq<u8>,
}

/// A datagram as a ring stores it.
pub open spec fn frame_of(d: Datagram) -> Seq<u8> {
    frame_header_of(d.payload.len() as u16, d.peer) + d.payload
}

/// Datagrams as a ring stores them, oldest first.
pub open spec fn frames_of(ds: Seq<Datagram>) -> Seq<u8>
    decreases ds.len(),
{
    if ds.len() == 0 {
        Seq::empty()
    } else {
        frames_of(ds.drop_last()) + frame_of(ds.last())
    }
}

/// Whether the ring holds exactly the datagrams `ds`, each with a length that
/// its header can spell.
pub open spec fn holds(ring: RingState, ds: Seq<Datagram>) -> bool {
    &&& ring.bytes == frames_of(ds)
    &&& ring.frames == ds.len()
    &&& forall|i: int| 0 <= i < ds.len() ==> (#[trigger] ds[i]).payload.len() <= u16::MAX
}

/// A run of frames starts with the frame of the oldest datagram.
proof fn lemma_frames_first(ds: Seq<Datagram>)
    requires
        ds.len() > 0,
    ensures
        frames_of(ds) == frame_of(ds[0]) + frames_of(ds.drop_first()),
    decreases ds.len(),
{
    if ds.len() == 1 {
        assert(ds.drop_last() =~= Seq::<Datagram>::empty());
        assert(ds.drop_first() =~= Seq::<Datagram>::empty());
        assert(frames_of(ds) =~= frame_of(ds[0]) + frames_of(ds.drop_first()));
    } else {
        lemma_frames_first(ds.drop_last());
        assert(ds.drop_last().drop_first() =~= ds.drop_first().drop_last());
        assert(frames_of(ds) =~= frame_of(ds[0]) + frames_of(ds.drop_first()));
    }
}

/// A datagram that fits joins the end of the queue, whole.
pub proof fn law_datagram_queued(ring: RingState, ds: Seq<Datagram>, d: Datagram)
    requires
        holds(ring, ds),
        has_room(ring, d.payload.len()),
        ring.frames < usize::MAX,
    ensures
        holds(framed(ring, d.peer, d.payload), ds.push(d)),
{
    law_header_round_trip(d.payload.len() as u16, d.peer);
    assert(ds.push(d).drop_last() =~= ds);
    assert(framed(ring, d.peer, d.payload).bytes =~= frames_of(ds.push(d)));
}

/// The oldest datagram comes out, whole and with its peer, and the rest stays.
pub proof fn law_datagram_taken(ring: RingState, ds: Seq<Datagram>)
    requires
        holds(ring, ds),
        ds.len() > 0,
    ensures
        has_frame(ring),
        frame_len(ring.bytes) == ds[0].payload.len(),
        frame_peer(ring.bytes) == ds[0].peer,
        first_payload(ring) == ds[0].payload,
        holds(unframed(ring), ds.drop_first()),
{
    let d = ds[0];
    let h = frame_header_of(d.payload.len() as u16, d.peer);
    law_header_round_trip(d.payload.len() as u16, d.peer);
    lemma_frames_first(ds);
    assert(ring.bytes.subrange(0, 2) =~= h.subrange(0, 2));
    assert(ring.bytes.subrange(2, 6) =~= h.subrange(2, 6));
    assert(ring.bytes.subrange(6, 8) =~= h.subrange(6, 8));
    assert(first_payload(ring) =~= d.payload);
    assert(unframed(ring).bytes =~= frames_of(ds.drop_first()));
    assert forall|i: int| 0 <= i < ds.drop_first().len() implies (#[trigger] ds.drop_first()[i]).payload.len()
        <= u16::MAX by {
        assert(ds.drop_first()[i] == ds[i + 1]);
    }
}

/// No datagrams.
pub proof fn law_no_datagrams(ring: RingState)
    requires
        ring.bytes.len() == 0,
        ring.frames == 0,
    ensures
        holds(ring, Seq::empty()),
        !has_frame(ring),
{
    assert(ring.bytes =~= frames_of(Seq::empty()));
}

} // verus!
