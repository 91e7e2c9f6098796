//! The UDP path, emulated as DNS over HTTP: only DNS-query-shaped UDP on
//! the well-known DNS port is supported. Queries and responses travel as
//! frames of a 2-byte big-endian length prefix followed by exactly that
//! many payload bytes.
use vstd::prelude::*;

use crate::handshake::{be_bytes, be_value, lemma_be_bytes_value, pow256};
use crate::stream::ByteStream;
use crate::DNS_PORT;

verus! {

/// Whether a UDP destination port is supported: only the well-known DNS
/// port is; a tunnel to any other UDP port fails before any outbound
/// action.
pub fn udp_port_supported(port: u16) -> (r: bool)
    ensures
        r <==> port == DNS_PORT,
{
    port == DNS_PORT
}

/// The wire form of a DNS frame: a 2-byte big-endian length prefix
/// followed by exactly that many payload bytes.
pub open spec fn spec_dns_frame(payload: Seq<u8>) -> Seq<u8> {
    be_bytes(payload.len(), 2) + payload
}

/// Frame a DNS message for the client stream.
pub fn encode_dns_frame(payload: &[u8]) -> (r: Vec<u8>)
    requires
        payload@.len() <= 0xFFFF,
    ensures
        r@ == spec_dns_frame(payload@),
{
    proof {
        lemma_pow256_two();
        lemma_be_bytes_value(payload@.len(), 2);
    }
    let n = payload.len();
    let hi = (n / 256) as u8;
    let lo = (n % 256) as u8;
    let mut out: Vec<u8> = Vec::new();
    out.push(hi);
    out.push(lo);
    let mut i: usize = 0;
    while i < n
        invariant
            n == payload@.len() <= 0xFFFF,
            0 <= i <= n,
            hi == n / 256,
            lo == n % 256,
            out@ == seq![hi, lo] + payload@.take(i as int),
        decreases n - i,
    {
        out.push(payload[i]);
        proof {
            assert(seq![hi, lo] + payload@.take(i + 1) =~= (seq![hi, lo] + payload@.take(
                i as int,
            )).push(payload@[i as int]));
        }
        i += 1;
    }
    proof {
        assert(payload@.take(n as int) =~= payload@);
        assert(be_bytes(payload@.len(), 2) =~= seq![hi, lo]) by {
            assert(be_bytes(payload@.len(), 2) == be_bytes(n as nat / 256, 1).push(
                (n as nat % 256) as u8,
            ));
            assert(be_bytes(n as nat / 256, 1) == be_bytes(n as nat / 256 / 256, 0).push(
                (n as nat / 256 % 256) as u8,
            ));
            assert(n as nat / 256 % 256 == n as nat / 256) by {
                assert(n as nat / 256 < 256);
            }
        }
        assert(out@ =~= spec_dns_frame(payload@));
    }
    out
}

proof fn lemma_pow256_two()
    ensures
        pow256(2) == 0x1_0000,
{
    assert(pow256(0) == 1);
    assert(pow256(1) == 256 * pow256(0));
    assert(pow256(2) == 256 * pow256(1));
}

/// Framing round-trips: the frame of a payload of length `L` carries
/// `L` in its length field and the payload bytes unchanged after it, so
/// reading the frame back yields exactly the payload; and framing adds
/// exactly two bytes.
pub proof fn lemma_dns_frame_round_trip(payload: Seq<u8>)
    requires
        payload.len() <= 0xFFFF,
    ensures
        spec_dns_frame(payload).len() == 2 + payload.len(),
        be_value(spec_dns_frame(payload).subrange(0, 2)) == payload.len(),
        spec_dns_frame(payload).skip(2) == payload,
{
    lemma_pow256_two();
    lemma_be_bytes_value(payload.len(), 2);
    assert(spec_dns_frame(payload).subrange(0, 2) =~= be_bytes(payload.len(), 2));
    assert(spec_dns_frame(payload).skip(2) =~= payload);
}

/// Take one complete DNS query frame off the stream, atomically: when a
/// full frame — both length bytes and that many payload bytes — is
/// buffered, consume it and return its payload; otherwise consume
/// nothing, so the caller can wait for the next inbound event (or treat
/// a closed, empty stream as the client ending the channel).
pub fn take_frame(stream: &mut ByteStream) -> (r: Option<Vec<u8>>)
    ensures
        match r {
            Some(payload) => {
                &&& old(stream).buffered().len() >= 2
                &&& payload@.len() == be_value(old(stream).buffered().take(2))
                &&& old(stream).buffered().len() >= 2 + payload@.len()
                &&& payload@ == old(stream).buffered().subrange(2, 2 + payload@.len() as int)
                &&& final(stream).buffered() == old(stream).buffered().skip(
                    2 + payload@.len() as int,
                )
                &&& final(stream).delivered_bytes() == old(stream).delivered_bytes() + old(
                    stream,
                ).buffered().take(2 + payload@.len() as int)
            },
            None => {
                &&& (old(stream).buffered().len() < 2 || old(stream).buffered().len() < 2
                    + be_value(old(stream).buffered().take(2)))
                &&& final(stream).buffered() == old(stream).buffered()
                &&& final(stream).delivered_bytes() == old(stream).delivered_bytes()
            },
        },
        final(stream).history() == old(stream).history(),
{
    let avail = stream.buffered_len();
    if avail < 2 {
        return None;
    }
    let b0 = stream.peek(0);
    let b1 = stream.peek(1);
    let len: usize = (b0 as usize) * 256 + (b1 as usize);
    proof {
        let s = old(stream).buffered().take(2);
        assert(s.drop_last() =~= seq![b0]);
        assert(seq![b0].drop_last() =~= Seq::<u8>::empty());
        assert(be_value(Seq::<u8>::empty()) == 0);
        assert(be_value(seq![b0]) == b0);
        assert(be_value(s) == b0 * 256 + b1);
    }
    if avail < 2 || avail - 2 < len {
        return None;
    }
    let _length_bytes = match stream.read_exact(2) {
        Some(h) => h,
        None => {
            proof {
                assert(false);
            }
            return None;
        },
    };
    let payload = match stream.read_exact(len) {
        Some(p) => p,
        None => {
            proof {
                assert(false);
            }
            return None;
        },
    };
    proof {
        let b = old(stream).buffered();
        assert(payload@ =~= b.subrange(2, 2 + len as int));
        assert(stream.buffered() =~= b.skip(2 + len as int));
        assert(old(stream).delivered_bytes() + b.take(2) + b.skip(2).take(len as int) =~= old(
            stream,
        ).delivered_bytes() + b.take(2 + len as int));
    }
    Some(payload)
}

} // verus!
