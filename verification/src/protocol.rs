//! Construction of the binary handshake packets.
//!
//! A packet is its payload prefixed by the varint of the payload's length.
//! The handshake payload announces the protocol state, the protocol version,
//! the host and port probed, and asks for the status exchange; the status
//! request that follows is a single zero byte, framed the same way.

use vstd::prelude::*;
use vstd::string::StringSliceAdditionalSpecFns;
use crate::codec::{varint_encode, write_varint, lemma_varint_encode_len};

verus! {

/// The protocol version constant sent in the handshake.
pub const PROTOCOL_VERSION: u32 = 764;

/// The tag of the protocol state a handshake announces.
pub const HANDSHAKE_TAG: u32 = 0;

/// The next-state marker asking for the status exchange.
pub const STATUS_MARKER: u32 = 1;

/// The single status-request byte sent after the handshake.
pub const STATUS_REQUEST: u8 = 0;

/// The two big-endian bytes of a port number.
pub open spec fn port_be_bytes(port: u16) -> Seq<u8> {
    seq![(port >> 8) as u8, (port & 0xff) as u8]
}

/// A framed packet: the payload prefixed by the varint of its length.
pub open spec fn length_prefixed(data: Seq<u8>) -> Seq<u8> {
    varint_encode(data.len() as u32) + data
}

/// The handshake payload: the protocol-state tag, the protocol version, the
/// host preceded by the varint of its byte length, the big-endian port, and
/// the status marker.
pub open spec fn handshake_payload(host: Seq<u8>, port: u16) -> Seq<u8> {
    varint_encode(HANDSHAKE_TAG) + varint_encode(PROTOCOL_VERSION) + varint_encode(
        host.len() as u32,
    ) + host + port_be_bytes(port) + varint_encode(STATUS_MARKER)
}

/// Appends the two big-endian bytes of a port number.
fn write_port_be(buf: &mut Vec<u8>, port: u16)
    ensures
        final(buf)@ == old(buf)@ + port_be_bytes(port),
{
    proof {
        assert((port >> 8) < 0x100 && (port & 0xff) < 0x100) by (bit_vector);
    }
    buf.push((port >> 8) as u8);
    buf.push((port & 0xff) as u8);
    assert(buf@ =~= old(buf)@ + port_be_bytes(port));
}

/// Appends every byte of `data` to `buf`.
fn push_bytes(buf: &mut Vec<u8>, data: &[u8])
    ensures
        final(buf)@ == old(buf)@ + data@,
{
    let mut i: usize = 0;
    while i < data.len()
        invariant
            i <= data@.len(),
            buf@ == old(buf)@ + data@.subrange(0, i as int),
        decreases data@.len() - i,
    {
        buf.push(data[i]);
        proof {
            assert(old(buf)@ + data@.subrange(0, i + 1) =~= (old(buf)@ + data@.subrange(
                0,
                i as int,
            )).push(data@[i as int]));
        }
        i = i + 1;
    }
    proof {
        assert(data@.subrange(0, data@.len() as int) =~= data@);
    }
}

/// Frames a payload for the wire: the varint of its length, then the payload.
pub fn frame_packet(data: &[u8]) -> (r: Vec<u8>)
    requires
        data@.len() <= 0xffff_ffff,
    ensures
        r@ == length_prefixed(data@),
{
    let mut packet: Vec<u8> = Vec::new();
    write_varint(data.len() as u32, &mut packet);
    push_bytes(&mut packet, data);
    proof {
        assert(packet@ =~= length_prefixed(data@));
    }
    packet
}

/// Builds the framed handshake packet for a host and port. The host length
/// bound keeps every length involved within 32 bits.
pub fn create_handshake_packet(host: &str, port: u16) -> (r: Vec<u8>)
    requires
        host.spec_bytes().len() <= 0xffff_ff00,
    ensures
        r@ == length_prefixed(handshake_payload(host.spec_bytes(), port)),
{
    let hb = host.as_bytes();
    let mut data: Vec<u8> = Vec::new();
    write_varint(HANDSHAKE_TAG, &mut data);
    write_varint(PROTOCOL_VERSION, &mut data);
    write_varint(hb.len() as u32, &mut data);
    push_bytes(&mut data, hb);
    write_port_be(&mut data, port);
    write_varint(STATUS_MARKER, &mut data);
    proof {
        assert(data@ =~= handshake_payload(host.spec_bytes(), port));
        lemma_varint_encode_len(HANDSHAKE_TAG);
        lemma_varint_encode_len(PROTOCOL_VERSION);
        lemma_varint_encode_len(hb@.len() as u32);
        lemma_varint_encode_len(STATUS_MARKER);
    }
    frame_packet(data.as_slice())
}

} // verus!
