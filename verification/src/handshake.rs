//! The wire handshake: a compact binary header carrying the protocol
//! version, the client's credential, the network type and the destination
//! address, parsed from the front of the inbound byte stream.
use vstd::prelude::*;
use vstd::slice::slice_to_vec;
use vstd::utf8::{decode_utf8, valid_utf8};

use crate::{
    ADDRESS_TYPE_DOMAIN, ADDRESS_TYPE_IPV4, ADDRESS_TYPE_IPV6, CREDENTIAL_LEN, NETWORK_TYPE_TCP,
    NETWORK_TYPE_UDP, PROTOCOL_VERSION,
};

verus! {

/// The big-endian value of a byte string.
pub open spec fn be_value(s: Seq<u8>) -> nat
    decreases s.len(),
{
    if s.len() == 0 {
        0
    } else {
        be_value(s.drop_last()) * 256 + s.last() as nat
    }
}

/// 256 to the power `n`: the number of byte strings of length `n`.
pub open spec fn pow256(n: nat) -> nat
    decreases n,
{
    if n == 0 {
        1
    } else {
        256 * pow256((n - 1) as nat)
    }
}

pub proof fn lemma_be_value_bound(s: Seq<u8>)
    ensures
        be_value(s) < pow256(s.len()),
    decreases s.len(),
{
    if s.len() > 0 {
        lemma_be_value_bound(s.drop_last());
    }
}

/// Whether the connection forwards to a TCP byte stream or relays
/// UDP-as-DNS.
#[derive(Clone, Copy, PartialEq, Eq, Structural, Debug)]
pub enum NetworkType {
    Tcp,
    Udp,
}

/// The field of the handshake that a rejected connection violated.
#[derive(Clone, Copy, PartialEq, Eq, Structural, Debug)]
pub enum Violation {
    BadVersion,
    BadCredential,
    BadNetworkType,
    BadAddressType,
    BadDomain,
}

/// The destination address, in the three wire forms.
pub enum Address {
    Domain(String),
    V4(u32),
    V6(u128),
}

/// Mathematical model of an [`Address`].
#[verifier::ext_equal]
pub enum SpecAddress {
    Domain(Seq<char>),
    V4(u32),
    V6(u128),
}

impl View for Address {
    type V = SpecAddress;

    open spec fn view(&self) -> SpecAddress {
        match self {
            Address::Domain(s) => SpecAddress::Domain(s@),
            Address::V4(v) => SpecAddress::V4(*v),
            Address::V6(v) => SpecAddress::V6(*v),
        }
    }
}

/// A validated handshake: everything the dispatcher needs to realize the
/// destination.
pub struct HandshakeHeader {
    pub version: u8,
    pub credential: Vec<u8>,
    pub network: NetworkType,
    pub port: u16,
    pub address: Address,
}

/// Mathematical model of a [`HandshakeHeader`].
#[verifier::ext_equal]
pub struct SpecHeader {
    pub version: u8,
    pub credential: Seq<u8>,
    pub network: NetworkType,
    pub port: u16,
    pub address: SpecAddress,
}

impl View for HandshakeHeader {
    type V = SpecHeader;

    open spec fn view(&self) -> SpecHeader {
        SpecHeader {
            version: self.version,
            credential: self.credential@,
            network: self.network,
            port: self.port,
            address: self.address@,
        }
    }
}

/// What parsing a prefix of the inbound stream yields: a finished header
/// (with the number of bytes it occupied), a demand for more bytes (the
/// total the parser must have before it can take another step), or a
/// rejection (with the number of bytes examined when the violation was
/// found).
pub enum ParseResult {
    Complete { header: HandshakeHeader, consumed: usize },
    Incomplete { needed: usize },
    Reject { violation: Violation, consumed: usize },
}

/// Mathematical model of a [`ParseResult`].
#[verifier::ext_equal]
pub enum SpecParse {
    Complete { header: SpecHeader, consumed: int },
    Incomplete { needed: int },
    Reject { violation: Violation, consumed: int },
}

impl View for ParseResult {
    type V = SpecParse;

    open spec fn view(&self) -> SpecParse {
        match self {
            ParseResult::Complete { header, consumed } => SpecParse::Complete {
                header: header@,
                consumed: *consumed as int,
            },
            ParseResult::Incomplete { needed } => SpecParse::Incomplete { needed: *needed as int },
            ParseResult::Reject { violation, consumed } => SpecParse::Reject {
                violation: *violation,
                consumed: *consumed as int,
            },
        }
    }
}

/// What the handshake grammar says of `input`, given the configured
/// credential: the fields are read strictly in order, and a violation is
/// reported at the first offending field, no later byte examined.
pub open spec fn parse_spec(input: Seq<u8>, cred: Seq<u8>) -> SpecParse {
    if input.len() < 1 {
        SpecParse::Incomplete { needed: 1 }
    } else if input[0] != PROTOCOL_VERSION {
        SpecParse::Reject { violation: Violation::BadVersion, consumed: 1 }
    } else if input.len() < 17 {
        SpecParse::Incomplete { needed: 17 }
    } else if input.subrange(1, 17) != cred {
        SpecParse::Reject { violation: Violation::BadCredential, consumed: 17 }
    } else if input.len() < 18 {
        SpecParse::Incomplete { needed: 18 }
    } else {
        let o = 18 + input[17];
        if input.len() < o + 1 {
            SpecParse::Incomplete { needed: o + 1 }
        } else if input[o] != NETWORK_TYPE_TCP && input[o] != NETWORK_TYPE_UDP {
            SpecParse::Reject { violation: Violation::BadNetworkType, consumed: o + 1 }
        } else if input.len() < o + 3 {
            SpecParse::Incomplete { needed: o + 3 }
        } else if input.len() < o + 4 {
            SpecParse::Incomplete { needed: o + 4 }
        } else {
            let network = if input[o] == NETWORK_TYPE_TCP {
                NetworkType::Tcp
            } else {
                NetworkType::Udp
            };
            let port = be_value(input.subrange(o + 1, o + 3)) as u16;
            let at = input[o + 3];
            if at == ADDRESS_TYPE_IPV4 {
                if input.len() < o + 8 {
                    SpecParse::Incomplete { needed: o + 8 }
                } else {
                    SpecParse::Complete {
                        header: SpecHeader {
                            version: PROTOCOL_VERSION,
                            credential: cred,
                            network,
                            port,
                            address: SpecAddress::V4(be_value(input.subrange(o + 4, o + 8)) as u32),
                        },
                        consumed: o + 8,
                    }
                }
            } else if at == ADDRESS_TYPE_DOMAIN {
                if input.len() < o + 5 {
                    SpecParse::Incomplete { needed: o + 5 }
                } else {
                    let dl = input[o + 4];
                    if input.len() < o + 5 + dl {
                        SpecParse::Incomplete { needed: o + 5 + dl }
                    } else {
                        let db = input.subrange(o + 5, o + 5 + dl);
                        if !valid_utf8(db) {
                            SpecParse::Reject {
                                violation: Violation::BadDomain,
                                consumed: o + 5 + dl,
                            }
                        } else {
                            SpecParse::Complete {
                                header: SpecHeader {
                                    version: PROTOCOL_VERSION,
                                    credential: cred,
                                    network,
                                    port,
                                    address: SpecAddress::Domain(decode_utf8(db)),
                                },
                                consumed: o + 5 + dl,
                            }
                        }
                    }
                }
            } else if at == ADDRESS_TYPE_IPV6 {
                if input.len() < o + 20 {
                    SpecParse::Incomplete { needed: o + 20 }
                } else {
                    SpecParse::Complete {
                        header: SpecHeader {
                            version: PROTOCOL_VERSION,
                            credential: cred,
                            network,
                            port,
                            address: SpecAddress::V6(
                                be_value(input.subrange(o + 4, o + 20)) as u128,
                            ),
                        },
                        consumed: o + 20,
                    }
                }
            } else {
                SpecParse::Reject { violation: Violation::BadAddressType, consumed: o + 4 }
            }
        }
    }
}

/// The big-endian encoding of `v` in exactly `n` bytes.
pub open spec fn be_bytes(v: nat, n: nat) -> Seq<u8>
    decreases n,
{
    if n == 0 {
        Seq::empty()
    } else {
        be_bytes(v / 256, (n - 1) as nat).push((v % 256) as u8)
    }
}

pub proof fn lemma_be_bytes_value(v: nat, n: nat)
    requires
        v < pow256(n),
    ensures
        be_bytes(v, n).len() == n,
        be_value(be_bytes(v, n)) == v,
    decreases n,
{
    if n > 0 {
        assert(pow256(n) == 256 * pow256((n - 1) as nat));
        assert(v / 256 < pow256((n - 1) as nat)) by {
            if v / 256 >= pow256((n - 1) as nat) {
                assert(v >= 256 * (v / 256)) by (nonlinear_arith);
                assert(256 * (v / 256) >= 256 * pow256((n - 1) as nat)) by (nonlinear_arith)
                    requires
                        v / 256 >= pow256((n - 1) as nat),
                ;
            }
        }
        lemma_be_bytes_value(v / 256, (n - 1) as nat);
        let s = be_bytes(v, n);
        assert(s.drop_last() =~= be_bytes(v / 256, (n - 1) as nat));
        assert(s.last() == (v % 256) as u8);
        assert(v / 256 * 256 + v % 256 == v) by (nonlinear_arith);
    }
}

/// The wire byte for a network type.
pub open spec fn network_byte(n: NetworkType) -> u8 {
    match n {
        NetworkType::Tcp => NETWORK_TYPE_TCP,
        NetworkType::Udp => NETWORK_TYPE_UDP,
    }
}

/// The wire type byte for an address variant.
pub open spec fn address_type_byte(a: SpecAddress) -> u8 {
    match a {
        SpecAddress::V4(_) => ADDRESS_TYPE_IPV4,
        SpecAddress::Domain(_) => ADDRESS_TYPE_DOMAIN,
        SpecAddress::V6(_) => ADDRESS_TYPE_IPV6,
    }
}

/// The wire bytes of an address payload.
pub open spec fn encode_address(a: SpecAddress) -> Seq<u8> {
    match a {
        SpecAddress::V4(v) => be_bytes(v as nat, 4),
        SpecAddress::Domain(d) => seq![vstd::utf8::encode_utf8(d).len() as u8]
            + vstd::utf8::encode_utf8(d),
        SpecAddress::V6(v) => be_bytes(v as nat, 16),
    }
}

/// A header the wire format can carry: the supported version, a full
/// credential, and a domain short enough for its one-byte length prefix.
pub open spec fn header_wf(h: SpecHeader) -> bool {
    &&& h.version == PROTOCOL_VERSION
    &&& h.credential.len() == CREDENTIAL_LEN
    &&& (h.address matches SpecAddress::Domain(d) ==> vstd::utf8::encode_utf8(d).len() <= 255)
}

/// The full wire encoding of a handshake, with the given addon bytes.
pub open spec fn encode_header(h: SpecHeader, addon: Seq<u8>) -> Seq<u8> {
    seq![h.version] + h.credential + seq![addon.len() as u8] + addon + seq![
        network_byte(h.network),
    ] + be_bytes(h.port as nat, 2) + seq![address_type_byte(h.address)] + encode_address(h.address)
}

/// Round trip: parsing a well-formed handshake's encoding, against the
/// credential it carries, reproduces exactly the encoded fields —
/// version, credential, network type, port and address, the domain text
/// and the IPv4/IPv6 bits included — and consumes the whole encoding.
pub proof fn lemma_parse_encode(h: SpecHeader, addon: Seq<u8>)
    requires
        header_wf(h),
        addon.len() <= 255,
    ensures
        parse_spec(encode_header(h, addon), h.credential) == (SpecParse::Complete {
            header: h,
            consumed: encode_header(h, addon).len() as int,
        }),
{
    broadcast use vstd::utf8::encode_utf8_valid_utf8, vstd::utf8::encode_utf8_decode_utf8;

    let w = encode_header(h, addon);
    let cred = h.credential;
    let o: int = 18 + addon.len() as int;
    lemma_pow256_values();
    lemma_be_bytes_value(h.port as nat, 2);
    let abytes = encode_address(h.address);
    let alen = abytes.len() as int;
    match h.address {
        SpecAddress::V4(v) => {
            lemma_be_bytes_value(v as nat, 4);
        },
        SpecAddress::V6(v) => {
            lemma_be_bytes_value(v as nat, 16);
        },
        SpecAddress::Domain(_) => {},
    }
    assert(w.len() == o + 4 + alen);
    assert(w[0] == h.version);
    assert(w.subrange(1, 17) =~= cred);
    assert(w[17] == addon.len() as u8);
    assert(w[o] == network_byte(h.network));
    assert(w.subrange(o + 1, o + 3) =~= be_bytes(h.port as nat, 2));
    assert(w[o + 3] == address_type_byte(h.address));
    assert(w.subrange(o + 4, o + 4 + alen) =~= abytes);
    assert(be_value(w.subrange(o + 1, o + 3)) == h.port);
    match h.address {
        SpecAddress::V4(v) => {
            assert(be_value(w.subrange(o + 4, o + 8)) == v);
            assert(parse_spec(w, cred) =~~= SpecParse::Complete {
                header: h,
                consumed: w.len() as int,
            });
        },
        SpecAddress::V6(v) => {
            assert(be_value(w.subrange(o + 4, o + 20)) == v);
            assert(parse_spec(w, cred) =~~= SpecParse::Complete {
                header: h,
                consumed: w.len() as int,
            });
        },
        SpecAddress::Domain(d) => {
            let enc = vstd::utf8::encode_utf8(d);
            assert(w[o + 4] == enc.len() as u8);
            assert(w.subrange(o + 5, o + 5 + enc.len() as int) =~= enc);
            assert(decode_utf8(enc) == d);
            assert(parse_spec(w, cred) =~~= SpecParse::Complete {
                header: h,
                consumed: w.len() as int,
            });
        },
    }
}

/// A handshake whose version byte is wrong is rejected after that one
/// byte, whatever the rest of the input holds.
pub proof fn lemma_bad_version_rejected(input: Seq<u8>, cred: Seq<u8>)
    requires
        input.len() >= 1,
        input[0] != PROTOCOL_VERSION,
    ensures
        parse_spec(input, cred) == (SpecParse::Reject {
            violation: Violation::BadVersion,
            consumed: 1,
        }),
{
}

/// A handshake whose credential differs from the configured one in at
/// least one byte is rejected after the seventeen bytes of version and
/// credential, whatever the rest of the input holds.
pub proof fn lemma_bad_credential_rejected(input: Seq<u8>, cred: Seq<u8>, i: int)
    requires
        input.len() >= 17,
        input[0] == PROTOCOL_VERSION,
        0 <= i < 16,
        input[1 + i] != cred[i],
    ensures
        parse_spec(input, cred) == (SpecParse::Reject {
            violation: Violation::BadCredential,
            consumed: 17,
        }),
{
    assert(input.subrange(1, 17)[i] == input[1 + i]);
}

/// While fewer than the seventeen bytes of version and credential have
/// arrived, the parser never demands more than those seventeen: a
/// connection that fails either check has no later field requested.
pub proof fn lemma_needed_within_authentication(input: Seq<u8>, cred: Seq<u8>)
    requires
        input.len() < 17,
    ensures
        (parse_spec(input, cred) matches SpecParse::Incomplete { needed } ==> needed <= 17),
{
}

/// The parser's verdict depends only on the bytes it consumed: once it
/// completes or rejects, any bytes that arrive later leave the verdict
/// unchanged.
pub proof fn lemma_parse_extension(input: Seq<u8>, ext: Seq<u8>, cred: Seq<u8>)
    requires
        !(parse_spec(input, cred) is Incomplete),
    ensures
        parse_spec(input + ext, cred) == parse_spec(input, cred),
{
    let w = input + ext;
    assert(forall|i: int| 0 <= i < input.len() ==> w[i] == input[i]);
    if input.len() < 1 {
    } else if input[0] != PROTOCOL_VERSION {
    } else if input.len() < 17 {
    } else {
        assert(w.subrange(1, 17) =~= input.subrange(1, 17));
        if input.subrange(1, 17) != cred {
        } else if input.len() < 18 {
        } else {
            let o = 18 + input[17];
            if input.len() < o + 1 {
            } else if input[o] != NETWORK_TYPE_TCP && input[o] != NETWORK_TYPE_UDP {
            } else if input.len() < o + 4 {
            } else {
                assert(w.subrange(o + 1, o + 3) =~= input.subrange(o + 1, o + 3));
                let at = input[o + 3];
                if at == ADDRESS_TYPE_IPV4 {
                    if input.len() >= o + 8 {
                        assert(w.subrange(o + 4, o + 8) =~= input.subrange(o + 4, o + 8));
                        assert(parse_spec(w, cred) =~~= parse_spec(input, cred));
                    }
                } else if at == ADDRESS_TYPE_DOMAIN {
                    if input.len() >= o + 5 {
                        let dl = input[o + 4];
                        if input.len() >= o + 5 + dl {
                            assert(w.subrange(o + 5, o + 5 + dl) =~= input.subrange(
                                o + 5,
                                o + 5 + dl,
                            ));
                            assert(parse_spec(w, cred) =~~= parse_spec(input, cred));
                        }
                    }
                } else if at == ADDRESS_TYPE_IPV6 {
                    if input.len() >= o + 20 {
                        assert(w.subrange(o + 4, o + 20) =~= input.subrange(o + 4, o + 20));
                        assert(parse_spec(w, cred) =~~= parse_spec(input, cred));
                    }
                }
            }
        }
    }
}

/// The prefix lengths at which an incremental reader of the handshake
/// comes to rest: nothing yet, or exactly a demand the grammar made of
/// the earlier bytes, every check up to that demand passed. A reader
/// that only ever extends its prefix to the parser's current demand
/// stays aligned, and a verdict it reaches consumes its whole prefix.
pub open spec fn demand_aligned(input: Seq<u8>, cred: Seq<u8>) -> bool {
    ||| input.len() == 0
    ||| input.len() == 1
    ||| (input.len() >= 17 && input[0] == PROTOCOL_VERSION && {
        ||| input.len() == 17
        ||| (input.subrange(1, 17) == cred && {
            ||| input.len() == 18
            ||| (input.len() >= 18 && {
                let o = 18 + input[17];
                {
                    ||| input.len() == o + 1
                    ||| ((input[o] == NETWORK_TYPE_TCP || input[o] == NETWORK_TYPE_UDP) && {
                        ||| input.len() == o + 3
                        ||| input.len() == o + 4
                        ||| (input.len() >= o + 4 && {
                            let at = input[o + 3];
                            {
                                ||| (at == ADDRESS_TYPE_IPV4 && input.len() == o + 8)
                                ||| (at == ADDRESS_TYPE_IPV6 && input.len() == o + 20)
                                ||| (at == ADDRESS_TYPE_DOMAIN && (input.len() == o + 5 || (
                                input.len() >= o + 5 && input.len() == o + 5 + input[o + 4])))
                            }
                        })
                    })
                }
            })
        })
    })
}

/// On an aligned prefix, a verdict consumes the whole prefix: the
/// parser never held a byte it did not account for.
pub proof fn lemma_aligned_verdict(input: Seq<u8>, cred: Seq<u8>)
    requires
        cred.len() == CREDENTIAL_LEN,
        demand_aligned(input, cred),
    ensures
        (parse_spec(input, cred) matches SpecParse::Complete { consumed, .. } ==> consumed
            == input.len()),
        (parse_spec(input, cred) matches SpecParse::Reject { consumed, .. } ==> consumed
            == input.len()),
{
}

/// Extending an aligned prefix to exactly the parser's demand keeps it
/// aligned: the loop that answers each demand in turn stays at rest
/// points of the grammar.
pub proof fn lemma_aligned_step(input: Seq<u8>, chunk: Seq<u8>, cred: Seq<u8>)
    requires
        cred.len() == CREDENTIAL_LEN,
        demand_aligned(input, cred),
        (parse_spec(input, cred) matches SpecParse::Incomplete { needed } && input.len()
            + chunk.len() == needed),
    ensures
        demand_aligned(input + chunk, cred),
{
    let w = input + chunk;
    assert(forall|i: int| 0 <= i < input.len() ==> w[i] == input[i]);
    if input.len() >= 17 {
        assert(w.subrange(1, 17) =~= input.subrange(1, 17));
    }
}

/// Whether `input[start .. start + expect.len()]` equals `expect`,
/// byte for byte.
fn range_eq(input: &[u8], start: usize, expect: &[u8]) -> (r: bool)
    requires
        start + expect@.len() <= input@.len(),
    ensures
        r <==> input@.subrange(start as int, start + expect@.len()) == expect@,
{
    let ilen = input.len();
    let n = expect.len();
    let mut i: usize = 0;
    while i < n
        invariant
            ilen == input@.len(),
            start + n <= ilen,
            n == expect@.len(),
            0 <= i <= n,
            forall|j: int| 0 <= j < i ==> input@[start + j] == expect@[j],
        decreases n - i,
    {
        if input[start + i] != expect[i] {
            assert(input@.subrange(start as int, start + n) != expect@) by {
                assert(input@.subrange(start as int, start + n)[i as int] != expect@[i as int]);
            }
            return false;
        }
        i += 1;
    }
    assert(input@.subrange(start as int, start + n) =~= expect@);
    true
}

/// The big-endian value of `input[start .. start + 2]`.
fn be_u16_at(input: &[u8], start: usize) -> (r: u16)
    requires
        start + 2 <= input@.len(),
    ensures
        r == be_value(input@.subrange(start as int, start + 2)),
{
    let hi = input[start];
    let lo = input[start + 1];
    proof {
        let s = input@.subrange(start as int, start + 2);
        assert(s.drop_last() =~= seq![hi]);
        assert(seq![hi].drop_last() =~= Seq::<u8>::empty());
        assert(be_value(Seq::<u8>::empty()) == 0);
        assert(be_value(seq![hi]) == hi);
        assert(be_value(s) == hi * 256 + lo);
    }
    (hi as u16) * 256 + (lo as u16)
}

/// The big-endian value of `input[start .. start + n]`, for widths up
/// to 16 bytes.
fn be_wide_at(input: &[u8], start: usize, n: usize) -> (r: u128)
    requires
        start + n <= input@.len(),
        n <= 16,
    ensures
        r == be_value(input@.subrange(start as int, start + n)),
{
    proof {
        lemma_pow256_increases(n as nat, 16);
    }
    let ilen = input.len();
    let mut acc: u128 = 0;
    let mut i: usize = 0;
    while i < n
        invariant
            ilen == input@.len(),
            start + n <= ilen,
            n <= 16,
            0 <= i <= n,
            acc == be_value(input@.subrange(start as int, start + i)),
            acc < pow256(i as nat),
            pow256(n as nat) <= pow256(16),
        decreases n - i,
    {
        proof {
            lemma_pow256_increases(i as nat + 1, n as nat);
            let s = input@.subrange(start as int, start + i + 1);
            assert(s.drop_last() =~= input@.subrange(start as int, start + i));
            assert(be_value(s) == acc * 256 + input@[start + i]);
            lemma_pow256_unfold(i as nat + 1);
            lemma_pow256_values();
        }
        acc = acc * 256 + (input[start + i] as u128);
        i += 1;
    }
    acc
}

/// The concrete values of `pow256` at the widths the wire format uses.
pub proof fn lemma_pow256_values()
    ensures
        pow256(2) == 0x1_0000,
        pow256(4) == 0x1_0000_0000,
        pow256(16) == 0x1_0000_0000_0000_0000_0000_0000_0000_0000,
{
    assert(pow256(0) == 1);
    assert(pow256(1) == 256 * pow256(0));
    assert(pow256(2) == 256 * pow256(1));
    assert(pow256(3) == 256 * pow256(2));
    assert(pow256(4) == 256 * pow256(3));
    assert(pow256(5) == 256 * pow256(4));
    assert(pow256(6) == 256 * pow256(5));
    assert(pow256(7) == 256 * pow256(6));
    assert(pow256(8) == 256 * pow256(7));
    assert(pow256(9) == 256 * pow256(8));
    assert(pow256(10) == 256 * pow256(9));
    assert(pow256(11) == 256 * pow256(10));
    assert(pow256(12) == 256 * pow256(11));
    assert(pow256(13) == 256 * pow256(12));
    assert(pow256(14) == 256 * pow256(13));
    assert(pow256(15) == 256 * pow256(14));
    assert(pow256(16) == 256 * pow256(15));
}

pub proof fn lemma_pow256_unfold(n: nat)
    requires
        n >= 1,
    ensures
        pow256(n) == 256 * pow256((n - 1) as nat),
{
}

pub proof fn lemma_pow256_increases(a: nat, b: nat)
    requires
        a <= b,
    ensures
        pow256(a) <= pow256(b),
    decreases b,
{
    if a < b && b > 0 {
        lemma_pow256_increases(a, (b - 1) as nat);
        assert(pow256(b) == 256 * pow256((b - 1) as nat));
    }
}

/// Parse the handshake from the front of `input`, validating it against
/// the configured credential. `input` is whatever prefix of the inbound
/// stream has arrived so far: the result says whether it already holds a
/// complete handshake, demands more bytes, or rejects the connection.
pub fn parse_handshake(input: &[u8], credential: &[u8]) -> (r: ParseResult)
    requires
        credential@.len() == CREDENTIAL_LEN,
    ensures
        r@ == parse_spec(input@, credential@),
{
    let n = input.len();
    if n < 1 {
        return ParseResult::Incomplete { needed: 1 };
    }
    if input[0] != PROTOCOL_VERSION {
        return ParseResult::Reject { violation: Violation::BadVersion, consumed: 1 };
    }
    if n < 17 {
        return ParseResult::Incomplete { needed: 17 };
    }
    if !range_eq(input, 1, credential) {
        return ParseResult::Reject { violation: Violation::BadCredential, consumed: 17 };
    }
    if n < 18 {
        return ParseResult::Incomplete { needed: 18 };
    }
    let o: usize = 18 + input[17] as usize;
    if n < o + 1 {
        return ParseResult::Incomplete { needed: o + 1 };
    }
    let nt = input[o];
    if nt != NETWORK_TYPE_TCP && nt != NETWORK_TYPE_UDP {
        return ParseResult::Reject { violation: Violation::BadNetworkType, consumed: o + 1 };
    }
    if n < o + 3 {
        return ParseResult::Incomplete { needed: o + 3 };
    }
    if n < o + 4 {
        return ParseResult::Incomplete { needed: o + 4 };
    }
    let network = if nt == NETWORK_TYPE_TCP {
        NetworkType::Tcp
    } else {
        NetworkType::Udp
    };
    let port = be_u16_at(input, o + 1);
    let at = input[o + 3];
    if at == ADDRESS_TYPE_IPV4 {
        if n < o + 8 {
            return ParseResult::Incomplete { needed: o + 8 };
        }
        let v = be_wide_at(input, o + 4, 4) as u32;
        proof {
            lemma_be_value_bound(input@.subrange(o + 4, o as int + 8));
            lemma_pow256_values();
        }
        ParseResult::Complete {
            header: HandshakeHeader {
                version: PROTOCOL_VERSION,
                credential: slice_to_vec(credential),
                network,
                port,
                address: Address::V4(v),
            },
            consumed: o + 8,
        }
    } else if at == ADDRESS_TYPE_DOMAIN {
        if n < o + 5 {
            return ParseResult::Incomplete { needed: o + 5 };
        }
        let dl = input[o + 4] as usize;
        if n < o + 5 + dl {
            return ParseResult::Incomplete { needed: o + 5 + dl };
        }
        let db = slice_to_vec(&input[o + 5..o + 5 + dl]);
        match crate::stream::bytes_to_string(db) {
            Err(_) => ParseResult::Reject { violation: Violation::BadDomain, consumed: o + 5 + dl },
            Ok(domain) => ParseResult::Complete {
                header: HandshakeHeader {
                    version: PROTOCOL_VERSION,
                    credential: slice_to_vec(credential),
                    network,
                    port,
                    address: Address::Domain(domain),
                },
                consumed: o + 5 + dl,
            },
        }
    } else if at == ADDRESS_TYPE_IPV6 {
        if n < o + 20 {
            return ParseResult::Incomplete { needed: o + 20 };
        }
        let v = be_wide_at(input, o + 4, 16);
        ParseResult::Complete {
            header: HandshakeHeader {
                version: PROTOCOL_VERSION,
                credential: slice_to_vec(credential),
                network,
                port,
                address: Address::V6(v),
            },
            consumed: o + 20,
        }
    } else {
        ParseResult::Reject { violation: Violation::BadAddressType, consumed: o + 4 }
    }
}

} // verus!
