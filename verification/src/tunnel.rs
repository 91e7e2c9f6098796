//! The coordinator for one accepted connection: drive the handshake
//! parse from the inbound stream, dispatch to the TCP or UDP path, and
//! own the uniform error and close policy. The host's event loop
//! performs the dialing, copying and HTTP exchange these decisions call
//! for, and feeds their outcomes back in.
use vstd::prelude::*;

use crate::addr::{dial_target, spec_dial_target};
use crate::dial::DialPlan;
use crate::dns::{encode_dns_frame, spec_dns_frame};
use crate::handshake::{
    demand_aligned, lemma_aligned_step, lemma_aligned_verdict, parse_handshake, parse_spec,
    HandshakeHeader, NetworkType, ParseResult, SpecParse, Violation,
};
use crate::stream::ByteStream;
use crate::{CREDENTIAL_LEN, DNS_PORT};

verus! {

/// Why a tunnel ended in failure. Every failure is fatal to its
/// connection: the transport is shut down with the abnormal-closure
/// code, and nothing is retried beyond the TCP candidate fallback.
#[derive(Clone, Copy, PartialEq, Eq, Structural, Debug)]
pub enum TunnelError {
    /// The handshake violated the protocol at the named field.
    Protocol(Violation),
    /// The inbound transport reported an error while bytes were awaited.
    Transport,
    /// A dial attempt failed with a class other than connection reset.
    DialFailure,
    /// Every dial candidate was attempted and reset.
    NoTargetReachable,
    /// The bidirectional copy, the DNS exchange, or a client write failed.
    Forward,
    /// A UDP destination on any port but the DNS port.
    UnsupportedUdpPort,
}

/// The close code sent on the inbound transport when a tunnel fails.
pub const ABNORMAL_CLOSE_CODE: u16 = 1003;

/// The close signal the coordinator sends when a tunnel ends: a failure
/// closes the transport abnormally; a graceful end sends no code and
/// leaves the transport to close naturally.
pub fn close_signal(outcome: &Result<(), TunnelError>) -> (r: Option<u16>)
    ensures
        match outcome {
            Ok(_) => r is None,
            Err(_) => r == Some(ABNORMAL_CLOSE_CODE),
        },
{
    match outcome {
        Ok(_) => None,
        Err(_) => Some(ABNORMAL_CLOSE_CODE),
    }
}

/// The fixed two-byte zero acknowledgment written to the client after a
/// destination is realized, before any payload bytes.
pub fn response_header() -> (r: Vec<u8>)
    ensures
        r@ == crate::RESPONSE_HEADER@,
        r@ == seq![0u8, 0u8],
{
    let mut v: Vec<u8> = Vec::new();
    v.push(0u8);
    v.push(0u8);
    proof {
        assert(v@ =~= seq![0u8, 0u8]);
        assert(crate::RESPONSE_HEADER@ =~= seq![0u8, 0u8]);
    }
    v
}

/// An incomplete parse never demands more than the longest possible
/// handshake, and always demands more than it was given.
pub proof fn lemma_incomplete_demand(input: Seq<u8>, cred: Seq<u8>)
    ensures
        (parse_spec(input, cred) matches SpecParse::Incomplete { needed } ==> input.len() < needed
            <= 533),
{
}

/// Drives the handshake parse against the inbound stream for one
/// connection, gathering exactly the bytes the parser demands — never a
/// byte beyond the demand, so a rejected connection has no later field
/// requested from the stream.
pub struct HandshakeDriver {
    gathered: Vec<u8>,
    credential: Vec<u8>,
}

impl HandshakeDriver {
    /// The handshake prefix taken off the stream so far.
    pub closed spec fn gathered_bytes(&self) -> Seq<u8> {
        self.gathered@
    }

    /// The configured credential the handshake is validated against.
    pub closed spec fn spec_credential(&self) -> Seq<u8> {
        self.credential@
    }

    /// The gathered prefix always rests at a demand point of the
    /// grammar: the driver holds no byte the parser did not ask for.
    pub open spec fn wf(&self) -> bool {
        &&& self.spec_credential().len() == CREDENTIAL_LEN
        &&& demand_aligned(self.gathered_bytes(), self.spec_credential())
    }

    pub fn new(credential: Vec<u8>) -> (r: HandshakeDriver)
        requires
            credential@.len() == CREDENTIAL_LEN,
        ensures
            r.wf(),
            r.gathered_bytes() == Seq::<u8>::empty(),
            r.spec_credential() == credential@,
    {
        HandshakeDriver { gathered: Vec::new(), credential }
    }

    /// Pull buffered bytes into the gathered prefix, one parser demand
    /// at a time, until the parse completes, rejects, or the stream has
    /// too few bytes for the next demand (the caller then awaits the
    /// next inbound event and pumps again). The verdict is exactly what
    /// the handshake grammar says of the gathered prefix — and a
    /// verdict consumes that prefix whole, so on a rejection not one
    /// byte beyond the offending field was ever taken off the stream.
    pub fn pump(&mut self, stream: &mut ByteStream) -> (r: ParseResult)
        requires
            old(self).wf(),
        ensures
            final(self).wf(),
            final(self).spec_credential() == old(self).spec_credential(),
            r@ == parse_spec(final(self).gathered_bytes(), old(self).spec_credential()),
            old(self).gathered_bytes().is_prefix_of(final(self).gathered_bytes()),
            final(stream).delivered_bytes() == old(stream).delivered_bytes() + final(self)
                .gathered_bytes().skip(old(self).gathered_bytes().len() as int),
            final(stream).history() == old(stream).history(),
            (r@ matches SpecParse::Incomplete { needed } ==> final(self).gathered_bytes().len()
                < needed && final(stream).buffered().len() + final(self).gathered_bytes().len()
                < needed),
            (r@ matches SpecParse::Complete { consumed, .. } ==> final(self).gathered_bytes().len()
                == consumed),
            (r@ matches SpecParse::Reject { consumed, .. } ==> final(self).gathered_bytes().len()
                == consumed),
    {
        proof {
            assert(old(self).gathered@.skip(old(self).gathered@.len() as int) =~= Seq::<
                u8,
            >::empty());
            assert(stream.delivered_bytes() + Seq::<u8>::empty() =~= stream.delivered_bytes());
        }
        loop
            invariant
                self.credential@ == old(self).credential@,
                self.wf(),
                old(self).gathered@.is_prefix_of(self.gathered@),
                stream.delivered_bytes() == old(stream).delivered_bytes() + self.gathered@.skip(
                    old(self).gathered@.len() as int,
                ),
                stream.history() == old(stream).history(),
            decreases 534 - self.gathered@.len(),
        {
            let res = parse_handshake(self.gathered.as_slice(), self.credential.as_slice());
            let needed = match res {
                ParseResult::Incomplete { needed } => needed,
                other => {
                    proof {
                        lemma_aligned_verdict(self.gathered@, self.credential@);
                    }
                    return other;
                },
            };
            proof {
                lemma_incomplete_demand(self.gathered@, self.credential@);
            }
            let want = needed - self.gathered.len();
            match stream.read_exact(want) {
                None => {
                    return ParseResult::Incomplete { needed };
                },
                Some(mut chunk) => {
                    let ghost g = self.gathered@;
                    let ghost c = chunk@;
                    self.gathered.append(&mut chunk);
                    proof {
                        lemma_aligned_step(g, c, self.credential@);
                        assert(g.is_prefix_of(g + c)) by {
                            assert((g + c).take(g.len() as int) =~= g);
                        }
                        assert(old(self).gathered@.is_prefix_of(self.gathered@)) by {
                            assert(self.gathered@.take(old(self).gathered@.len() as int) =~= old(
                                self,
                            ).gathered@.take(old(self).gathered@.len() as int));
                            assert(old(self).gathered@.take(old(self).gathered@.len() as int) =~= old(
                                self,
                            ).gathered@);
                        }
                        assert(old(stream).delivered_bytes() + g.skip(
                            old(self).gathered@.len() as int,
                        ) + c =~= old(stream).delivered_bytes() + (g + c).skip(
                            old(self).gathered@.len() as int,
                        ));
                    }
                },
            }
        }
    }
}

/// Where the validated handshake sends the connection.
pub enum Dispatch {
    /// Dial these TCP candidates in order: the parsed destination first,
    /// then the configured fallback pool.
    Tcp(DialPlan),
    /// Serve DNS-over-HTTP exchanges for a UDP destination on the DNS
    /// port.
    UdpDns,
}

/// Select the outbound path for a validated handshake. A TCP destination
/// yields the ordered dial plan; a UDP destination is accepted only on
/// the DNS port, any other port failing at once, before any outbound
/// action is taken.
pub fn dispatch(header: &HandshakeHeader, fallback: Vec<String>) -> (r: Result<
    Dispatch,
    TunnelError,
>)
    ensures
        match header@.network {
            NetworkType::Tcp => (r matches Ok(d) && d matches Dispatch::Tcp(plan) && plan.wf()
                && plan.spec_next() == 0 && plan.spec_candidates().len() == 1 + fallback@.len()
                && plan.spec_candidates()[0]@ == spec_dial_target(header@.address) && (forall|
                i: int,
            |
                1 <= i < plan.spec_candidates().len() ==> plan.spec_candidates()[i] == fallback@[i
                    - 1])),
            NetworkType::Udp => if header@.port == DNS_PORT {
                r matches Ok(d) && d is UdpDns
            } else {
                r == Err::<Dispatch, TunnelError>(TunnelError::UnsupportedUdpPort)
            },
        },
{
    match header.network {
        NetworkType::Tcp => {
            let destination = dial_target(&header.address);
            let ghost dv = destination@;
            let plan = DialPlan::new(destination, fallback);
            proof {
                assert(plan.spec_candidates()[0]@ == dv);
                assert(forall|i: int|
                    1 <= i < plan.spec_candidates().len() ==> plan.spec_candidates()[i]
                        == fallback@[i - 1]);
            }
            Ok(Dispatch::Tcp(plan))
        },
        NetworkType::Udp => {
            if header.port == DNS_PORT {
                Ok(Dispatch::UdpDns)
            } else {
                Err(TunnelError::UnsupportedUdpPort)
            }
        },
    }
}

/// Frame a resolver's response body for the client stream: the 2-byte
/// big-endian length carries the exact body size. A body too large for
/// the length field fails the exchange rather than send a wrong length.
pub fn response_frame(body: &Vec<u8>) -> (r: Result<Vec<u8>, TunnelError>)
    ensures
        body@.len() <= 0xFFFF ==> (r matches Ok(f) && f@ == spec_dns_frame(body@)),
        body@.len() > 0xFFFF ==> r == Err::<Vec<u8>, TunnelError>(TunnelError::Forward),
{
    if body.len() > 0xFFFF {
        Err(TunnelError::Forward)
    } else {
        Ok(encode_dns_frame(body.as_slice()))
    }
}

} // verus!
