//! The adapter between the message-framed inbound transport and the
//! pull-based byte stream the parser and the forwarding loops read: an
//! owned growable buffer that inbound frames append to and reads drain
//! from the front, with the optional early-data blob placed first.
use vstd::math::min;
use vstd::prelude::*;
use vstd::utf8::{decode_utf8, valid_utf8};

verus! {

/// An ordered byte stream assembled from discrete inbound frames and an
/// optional early-data blob, drained by pull-based reads. The event loop
/// that owns the transport appends each Message event's bytes with
/// [`ByteStream::push_frame`]; readers take bytes from the front.
pub struct ByteStream {
    buffer: Vec<u8>,
    delivered: Ghost<Seq<u8>>,
}

impl ByteStream {
    /// The bytes already handed to readers, in the order they were read.
    pub closed spec fn delivered_bytes(&self) -> Seq<u8> {
        self.delivered@
    }

    /// The bytes received but not yet read.
    pub closed spec fn buffered(&self) -> Seq<u8> {
        self.buffer@
    }

    /// Every byte the stream has ever held, in arrival order: the early
    /// data first, then each frame's bytes as its event arrived.
    pub open spec fn history(&self) -> Seq<u8> {
        self.delivered_bytes() + self.buffered()
    }

    /// A fresh stream: nothing delivered yet, and the early data (when
    /// present) buffered ahead of any frame.
    pub fn new(early_data: Option<Vec<u8>>) -> (r: ByteStream)
        ensures
            r.delivered_bytes() == Seq::<u8>::empty(),
            r.buffered() == (match early_data {
                Some(d) => d@,
                None => Seq::<u8>::empty(),
            }),
    {
        match early_data {
            Some(d) => ByteStream { buffer: d, delivered: Ghost(Seq::empty()) },
            None => ByteStream { buffer: Vec::new(), delivered: Ghost(Seq::empty()) },
        }
    }

    /// How many bytes are buffered and not yet read.
    pub fn buffered_len(&self) -> (n: usize)
        ensures
            n == self.buffered().len(),
    {
        self.buffer.len()
    }

    /// Append one inbound frame's bytes (what a Message event carries).
    pub fn push_frame(&mut self, frame: &[u8])
        ensures
            final(self).delivered_bytes() == old(self).delivered_bytes(),
            final(self).buffered() == old(self).buffered() + frame@,
            final(self).history() == old(self).history() + frame@,
    {
        let n = frame.len();
        let mut i: usize = 0;
        while i < n
            invariant
                n == frame@.len(),
                0 <= i <= n,
                self.delivered == old(self).delivered,
                self.buffer@ == old(self).buffer@ + frame@.take(i as int),
            decreases n - i,
        {
            self.buffer.push(frame[i]);
            proof {
                assert(old(self).buffer@ + frame@.take(i + 1) =~= (old(self).buffer@ + frame@.take(
                    i as int,
                )).push(frame@[i as int]));
            }
            i += 1;
        }
        proof {
            assert(frame@.take(n as int) =~= frame@);
            assert(final(self).history() =~= old(self).history() + frame@);
        }
    }

    /// Read up to `max` bytes from the front of the buffer: exactly the
    /// ordinary byte-stream semantics, where a read may be satisfied
    /// partially and the caller comes back for the remainder.
    pub fn read(&mut self, max: usize) -> (out: Vec<u8>)
        ensures
            out@.len() == min(max as int, old(self).buffered().len() as int),
            out@ == old(self).buffered().take(out@.len() as int),
            final(self).buffered() == old(self).buffered().skip(out@.len() as int),
            final(self).delivered_bytes() == old(self).delivered_bytes() + out@,
            final(self).history() == old(self).history(),
    {
        let blen = self.buffer.len();
        let amt = if max < blen {
            max
        } else {
            blen
        };
        let mut out: Vec<u8> = Vec::new();
        let mut i: usize = 0;
        while i < amt
            invariant
                amt <= blen == self.buffer@.len(),
                0 <= i <= amt,
                out@ == self.buffer@.take(i as int),
            decreases amt - i,
        {
            out.push(self.buffer[i]);
            proof {
                assert(self.buffer@.take(i + 1) =~= self.buffer@.take(i as int).push(
                    self.buffer@[i as int],
                ));
            }
            i += 1;
        }
        let mut rest: Vec<u8> = Vec::new();
        let mut j: usize = amt;
        while j < blen
            invariant
                amt <= blen == self.buffer@.len(),
                amt <= j <= blen,
                rest@ == self.buffer@.subrange(amt as int, j as int),
            decreases blen - j,
        {
            rest.push(self.buffer[j]);
            proof {
                assert(self.buffer@.subrange(amt as int, j + 1) =~= self.buffer@.subrange(
                    amt as int,
                    j as int,
                ).push(self.buffer@[j as int]));
            }
            j += 1;
        }
        proof {
            assert(rest@ =~= self.buffer@.skip(amt as int));
        }
        self.buffer = rest;
        proof {
            self.delivered@ = self.delivered@ + out@;
            assert(final(self).history() =~= old(self).history());
        }
        out
    }

    /// Look at one buffered byte without consuming it.
    pub fn peek(&self, i: usize) -> (b: u8)
        requires
            i < self.buffered().len(),
        ensures
            b == self.buffered()[i as int],
    {
        self.buffer[i]
    }

    /// Read exactly `n` bytes if that many are buffered; otherwise leave
    /// the stream unchanged, so the caller can wait for the next inbound
    /// event and try again.
    pub fn read_exact(&mut self, n: usize) -> (r: Option<Vec<u8>>)
        ensures
            match r {
                Some(v) => {
                    &&& old(self).buffered().len() >= n
                    &&& v@ == old(self).buffered().take(n as int)
                    &&& v@.len() == n
                    &&& final(self).buffered() == old(self).buffered().skip(n as int)
                    &&& final(self).delivered_bytes() == old(self).delivered_bytes() + v@
                },
                None => {
                    &&& old(self).buffered().len() < n
                    &&& final(self).buffered() == old(self).buffered()
                    &&& final(self).delivered_bytes() == old(self).delivered_bytes()
                },
            },
            final(self).history() == old(self).history(),
    {
        if self.buffer.len() < n {
            return None;
        }
        Some(self.read(n))
    }
}

/// Convenience reads over a buffered byte stream, as the handshake parser
/// and the framing loops use them.
pub trait StreamExt {
    /// The bytes received but not yet read.
    spec fn ext_buffered(&self) -> Seq<u8>;

    /// The bytes already handed to readers.
    spec fn ext_delivered(&self) -> Seq<u8>;

    /// Read exactly `n` bytes if that many are buffered, else `None`.
    fn read_bytes(&mut self, n: usize) -> (r: Option<Vec<u8>>)
        ensures
            match r {
                Some(v) => {
                    &&& old(self).ext_buffered().len() >= n
                    &&& v@ == old(self).ext_buffered().take(n as int)
                    &&& v@.len() == n
                    &&& final(self).ext_buffered() == old(self).ext_buffered().skip(n as int)
                    &&& final(self).ext_delivered() == old(self).ext_delivered() + v@
                },
                None => {
                    &&& old(self).ext_buffered().len() < n
                    &&& final(self).ext_buffered() == old(self).ext_buffered()
                    &&& final(self).ext_delivered() == old(self).ext_delivered()
                },
            },
    ;

    /// Read exactly `n` bytes and decode them as UTF-8 text. `Err` hands
    /// back the consumed bytes when they are not valid UTF-8; `None`
    /// means fewer than `n` bytes are buffered.
    fn read_string(&mut self, n: usize) -> (r: Option<Result<String, Vec<u8>>>)
        ensures
            match r {
                Some(inner) => {
                    &&& old(self).ext_buffered().len() >= n
                    &&& final(self).ext_buffered() == old(self).ext_buffered().skip(n as int)
                    &&& final(self).ext_delivered() == old(self).ext_delivered() + old(
                        self,
                    ).ext_buffered().take(n as int)
                    &&& match inner {
                        Ok(s) => valid_utf8(old(self).ext_buffered().take(n as int)) && s@
                            == decode_utf8(old(self).ext_buffered().take(n as int)),
                        Err(b) => !valid_utf8(b@) && b@ == old(self).ext_buffered().take(n as int),
                    }
                },
                None => {
                    &&& old(self).ext_buffered().len() < n
                    &&& final(self).ext_buffered() == old(self).ext_buffered()
                    &&& final(self).ext_delivered() == old(self).ext_delivered()
                },
            },
    ;
}

/// Relies on `String::from_utf8`: it succeeds exactly when the bytes are
/// valid UTF-8, and the resulting string holds those bytes' decoding.
#[verifier::external_body]
pub(crate) fn bytes_to_string(v: Vec<u8>) -> (r: Result<String, Vec<u8>>)
    ensures
        match r {
            Ok(s) => valid_utf8(v@) && s@ == decode_utf8(v@),
            Err(b) => !valid_utf8(v@) && b@ == v@,
        },
{
    String::from_utf8(v).map_err(|e| e.into_bytes())
}

impl StreamExt for ByteStream {
    open spec fn ext_buffered(&self) -> Seq<u8> {
        self.buffered()
    }

    open spec fn ext_delivered(&self) -> Seq<u8> {
        self.delivered_bytes()
    }

    fn read_bytes(&mut self, n: usize) -> (r: Option<Vec<u8>>) {
        self.read_exact(n)
    }

    fn read_string(&mut self, n: usize) -> (r: Option<Result<String, Vec<u8>>>) {
        match self.read_exact(n) {
            None => None,
            Some(v) => Some(bytes_to_string(v)),
        }
    }
}

/// Early data is read first: however reads are chunked, every byte a
/// reader was handed at a position within the early data equals the
/// early-data byte at that position. The hypothesis — the early data is
/// a prefix of the stream's history — holds of every stream built by
/// [`ByteStream::new`] with that early data, since frames only ever
/// append to the history.
pub proof fn lemma_early_data_first(s: &ByteStream, early: Seq<u8>, i: int)
    requires
        early.is_prefix_of(s.history()),
        0 <= i < s.delivered_bytes().len(),
        i < early.len(),
    ensures
        s.delivered_bytes()[i] == early[i],
{
    assert(s.history()[i] == s.delivered_bytes()[i]);
    assert(s.history()[i] == early[i]);
}

} // verus!
