//! Cutting a receive ring into packets and moving packets into the
//! environment's memory.

use vstd::prelude::*;
use crate::tee_interface::traits::{overwrite_prefix, zeroed, TeeError, TeeGuard};

verus! {

/// A packet: a borrowed run of bytes of the ring it was cut from.
#[derive(Debug, Clone, Copy)]
pub struct PacketView<'a> {
    pub data: &'a [u8],
}

/// The frames of `bytes` when it is cut every `frame_size` bytes: all of
/// them `frame_size` long but the last, which holds what is left.
pub open spec fn split_frames(bytes: Seq<u8>, frame_size: nat) -> Seq<Seq<u8>>
    decreases bytes.len(),
{
    if bytes.len() == 0 || frame_size == 0 {
        Seq::empty()
    } else if bytes.len() <= frame_size {
        seq![bytes]
    } else {
        seq![bytes.take(frame_size as int)] + split_frames(
            bytes.skip(frame_size as int),
            frame_size,
        )
    }
}

/// Cutting loses nothing: the frames, put back together, are the ring.
pub proof fn lemma_frames_reassemble(bytes: Seq<u8>, frame_size: nat)
    requires
        frame_size > 0,
    ensures
        split_frames(bytes, frame_size).flatten() == bytes,
    decreases bytes.len(),
{
    if bytes.len() == 0 {
        assert(split_frames(bytes, frame_size) =~= Seq::<Seq<u8>>::empty());
        assert(bytes =~= Seq::<u8>::empty());
    } else if bytes.len() <= frame_size {
        assert(seq![bytes].drop_first() =~= Seq::<Seq<u8>>::empty());
        assert(seq![bytes].flatten() =~= bytes + Seq::<Seq<u8>>::empty().flatten());
        assert(bytes + Seq::<u8>::empty() =~= bytes);
    } else {
        let rest = bytes.skip(frame_size as int);
        lemma_frames_reassemble(rest, frame_size);
        let frames = split_frames(bytes, frame_size);
        assert(frames.drop_first() =~= split_frames(rest, frame_size));
        assert(bytes.take(frame_size as int) + rest =~= bytes);
    }
}

/// Every frame is non-empty and at most `frame_size` long; every frame but
/// the last is exactly `frame_size` long.
pub proof fn lemma_frame_lengths(bytes: Seq<u8>, frame_size: nat)
    requires
        frame_size > 0,
    ensures
        forall|i: int|
            0 <= i < split_frames(bytes, frame_size).len() ==> 0 < #[trigger] split_frames(
                bytes,
                frame_size,
            )[i].len() <= frame_size,
        forall|i: int|
            0 <= i < split_frames(bytes, frame_size).len() - 1 ==> #[trigger] split_frames(
                bytes,
                frame_size,
            )[i].len() == frame_size,
    decreases bytes.len(),
{
    if bytes.len() > frame_size {
        let rest = bytes.skip(frame_size as int);
        lemma_frame_lengths(rest, frame_size);
        let frames = split_frames(bytes, frame_size);
        assert forall|i: int| 0 < i < frames.len() implies #[trigger] frames[i] == split_frames(
            rest,
            frame_size,
        )[i - 1] by {}
    }
}

/// There are as many frames as `frame_size` goes into the ring's length,
/// rounded up.
pub proof fn lemma_frame_count(bytes: Seq<u8>, frame_size: nat)
    requires
        frame_size > 0,
    ensures
        split_frames(bytes, frame_size).len() == (bytes.len() + frame_size - 1) / (
        frame_size as int),
    decreases bytes.len(),
{
    let n = bytes.len() as int;
    let f = frame_size as int;
    if bytes.len() == 0 {
        assert((f - 1) / f == 0) by (nonlinear_arith)
            requires
                f > 0,
        ;
    } else if bytes.len() <= frame_size {
        assert((n + f - 1) / f == 1) by (nonlinear_arith)
            requires
                0 < n <= f,
        ;
    } else {
        lemma_frame_count(bytes.skip(frame_size as int), frame_size);
        assert((n + f - 1) / f == 1 + (n - f + f - 1) / f) by (nonlinear_arith)
            requires
                f > 0,
                n > f,
        ;
    }
}

/// The bytes that a sequence of packets carries.
pub open spec fn packet_bytes<'a>(packets: Seq<PacketView<'a>>) -> Seq<Seq<u8>> {
    packets.map_values(|p: PacketView<'a>| p.data@)
}

/// The ingress side of the pipeline.
#[derive(Debug, Default)]
pub struct XdpIngress;

impl XdpIngress {
    /// Cuts `ring_bytes` into frames of `frame_size` bytes; a shorter tail
    /// becomes a last frame of its own. A frame size of zero gives no frames.
    pub fn parse_ring_buffer<'a>(ring_bytes: &'a [u8], frame_size: usize) -> (packets: Vec<
        PacketView<'a>,
    >)
        ensures
            packet_bytes(packets@) == split_frames(ring_bytes@, frame_size as nat),
    {
        let mut packets: Vec<PacketView<'a>> = Vec::new();
        if frame_size == 0 {
            assert(packet_bytes(packets@) =~= split_frames(ring_bytes@, 0));
            return packets;
        }
        let len = ring_bytes.len();
        let mut start: usize = 0;
        assert(ring_bytes@.skip(0) =~= ring_bytes@);
        while start < len
            invariant
                frame_size > 0,
                len == ring_bytes@.len(),
                start <= len,
                packet_bytes(packets@) + split_frames(ring_bytes@.skip(start as int), frame_size as nat)
                    =~= split_frames(ring_bytes@, frame_size as nat),
            decreases len - start,
        {
            let end = if len - start > frame_size {
                start + frame_size
            } else {
                len
            };
            let ghost rest = ring_bytes@.skip(start as int);
            let ghost before = packets@;
            packets.push(PacketView { data: &ring_bytes[start..end] });
            proof {
                assert(packet_bytes(packets@) =~= packet_bytes(before).push(
                    ring_bytes@.subrange(start as int, end as int),
                ));
                if end < len {
                    assert(rest.take(frame_size as int) =~= ring_bytes@.subrange(
                        start as int,
                        end as int,
                    ));
                    assert(rest.skip(frame_size as int) =~= ring_bytes@.skip(end as int));
                } else {
                    assert(rest =~= ring_bytes@.subrange(start as int, end as int));
                    assert(ring_bytes@.skip(end as int) =~= Seq::<u8>::empty());
                }
            }
            start = end;
        }
        assert(ring_bytes@.skip(start as int) =~= Seq::<u8>::empty());
        packets
    }

    /// Allocates room for the packet in `tee` and copies the packet there.
    ///
    /// Where the environment grants the allocation, the call succeeds: the
    /// handle is fresh and holds exactly the packet's bytes, and nothing else
    /// changed (a granted allocation always accepts the packet's write).
    /// Where it refuses, its error is returned and nothing changed.
    pub fn write_packet_into_tee<T: TeeGuard>(&self, tee: &mut T, packet: PacketView<'_>) -> (result:
        Result<usize, TeeError>)
        ensures
            final(tee).ready() == old(tee).ready(),
            match old(tee).allocation_refusal(packet.data@.len() as usize) {
                Some(e) => {
                    &&& result == Err::<usize, TeeError>(e)
                    &&& final(tee).contents() == old(tee).contents()
                },
                None => {
                    &&& result matches Ok(handle)
                    &&& packet.data@.len() > 0
                    &&& !old(tee).contents().contains_key(handle)
                    &&& final(tee).contents() == old(tee).contents().insert(handle, packet.data@)
                },
            },
    {
        let ptr = match tee.allocate_memory(packet.data.len()) {
            Ok(ptr) => ptr,
            Err(e) => {
                return Err(e);
            },
        };
        match tee.write_data(ptr, packet.data) {
            Ok(()) => {
                assert(overwrite_prefix(zeroed(packet.data@.len()), packet.data@) =~= packet.data@);
                assert(tee.contents() =~= old(tee).contents().insert(ptr, packet.data@));
                Ok(ptr)
            },
            // A granted allocation accepts the packet's write, so this arm is
            // never taken; the environment's error would be handed on.
            Err(e) => Err(e),
        }
    }
}

} // verus!
