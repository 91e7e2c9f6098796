//! Decoding the two values the host hands a connection before the tunnel
//! starts: the shared-secret identifier (hex text decoded to the
//! credential bytes) and the optional early data (URL-safe base64 carried
//! in a transport subprotocol header).
use base64::Engine as _;
use vstd::prelude::*;
use vstd::string::StringSliceAdditionalSpecFns;

verus! {

/// The value of an ASCII hex digit, if the byte is one.
pub open spec fn hex_val(b: u8) -> Option<u8> {
    if 0x30 <= b <= 0x39 {
        Some((b - 0x30) as u8)
    } else if 0x61 <= b <= 0x66 {
        Some((b - 0x61 + 10) as u8)
    } else if 0x41 <= b <= 0x46 {
        Some((b - 0x41 + 10) as u8)
    } else {
        None
    }
}

/// The hex-digit values occurring in `s`, in order; other bytes skipped.
pub open spec fn hex_digits(s: Seq<u8>) -> Seq<u8>
    decreases s.len(),
{
    if s.len() == 0 {
        Seq::empty()
    } else {
        let rest = hex_digits(s.drop_last());
        match hex_val(s.last()) {
            Some(v) => rest.push(v),
            None => rest,
        }
    }
}

/// Pairs of digit values combined into bytes, high digit first; a
/// trailing unpaired digit is dropped.
pub open spec fn paired(d: Seq<u8>) -> Seq<u8> {
    Seq::new(d.len() / 2, |i: int| (d[2 * i] * 16 + d[2 * i + 1]) as u8)
}

/// What decoding an identifier string yields: its hex digits, paired
/// into bytes.
pub open spec fn decoded_user_id(s: Seq<u8>) -> Seq<u8> {
    paired(hex_digits(s))
}

fn hex_val_exec(b: u8) -> (r: Option<u8>)
    ensures
        r == hex_val(b),
{
    if 0x30 <= b && b <= 0x39 {
        Some(b - 0x30)
    } else if 0x61 <= b && b <= 0x66 {
        Some(b - 0x61 + 10)
    } else if 0x41 <= b && b <= 0x46 {
        Some(b - 0x41 + 10)
    } else {
        None
    }
}

/// Decode the configured identifier string into credential bytes: hex
/// digits are kept (any other character skipped), paired into bytes, a
/// trailing unpaired digit dropped. A well-formed configuration yields
/// exactly the sixteen credential bytes.
pub fn parse_user_id(user_id: &str) -> (r: Vec<u8>)
    ensures
        r@ == decoded_user_id(user_id.spec_bytes()),
{
    let bytes = user_id.as_bytes();
    let n = bytes.len();
    let mut digits: Vec<u8> = Vec::new();
    let mut i: usize = 0;
    while i < n
        invariant
            n == bytes@.len(),
            0 <= i <= n,
            digits@ == hex_digits(bytes@.take(i as int)),
            forall|j: int| 0 <= j < digits@.len() ==> digits@[j] < 16,
        decreases n - i,
    {
        proof {
            assert(bytes@.take(i + 1).drop_last() =~= bytes@.take(i as int));
            assert(bytes@.take(i + 1).last() == bytes@[i as int]);
        }
        match hex_val_exec(bytes[i]) {
            Some(v) => digits.push(v),
            None => (),
        }
        i += 1;
    }
    proof {
        assert(bytes@.take(n as int) =~= bytes@);
    }
    let dl = digits.len();
    let m = dl / 2;
    let mut out: Vec<u8> = Vec::new();
    let mut k: usize = 0;
    while k < m
        invariant
            dl == digits@.len(),
            m == digits@.len() / 2,
            0 <= k <= m,
            forall|j: int| 0 <= j < digits@.len() ==> digits@[j] < 16,
            out@.len() == k,
            forall|j: int| 0 <= j < k ==> out@[j] == paired(digits@)[j],
        decreases m - k,
    {
        out.push(digits[2 * k] * 16 + digits[2 * k + 1]);
        k += 1;
    }
    proof {
        assert(out@ =~= paired(digits@));
    }
    out
}

/// The transport-header value held early data that is not decodable as
/// base64.
#[derive(Clone, Copy, PartialEq, Eq, Structural, Debug)]
pub struct EarlyDataError;

/// The substitution a header value undergoes before the URL-safe decode:
/// `+` becomes `-` and `/` becomes `_`.
pub open spec fn b64_subst(b: u8) -> u8 {
    if b == 0x2b {
        0x2d
    } else if b == 0x2f {
        0x5f
    } else {
        b
    }
}

/// The normalized header value: every `=` dropped and the URL-safe
/// substitution applied to each remaining byte.
pub open spec fn b64_normalized(s: Seq<u8>) -> Seq<u8>
    decreases s.len(),
{
    if s.len() == 0 {
        Seq::empty()
    } else {
        let rest = b64_normalized(s.drop_last());
        if s.last() == 0x3d {
            rest
        } else {
            rest.push(b64_subst(s.last()))
        }
    }
}

/// What base64's URL-safe, unpadded decode returns on the given bytes;
/// `None` where the engine rejects them.
pub uninterp spec fn b64_url_decoded(s: Seq<u8>) -> Option<Seq<u8>>;

/// Relies on base64's `Engine::decode` with the `URL_SAFE_NO_PAD`
/// engine: the result is a function of the input bytes alone.
#[verifier::external_body]
fn b64_url_decode(s: &[u8]) -> (r: Option<Vec<u8>>)
    ensures
        match r {
            Some(v) => b64_url_decoded(s@) == Some(v@),
            None => b64_url_decoded(s@) is None,
        },
{
    base64::engine::general_purpose::URL_SAFE_NO_PAD.decode(s).ok()
}

fn normalize_b64(s: &[u8]) -> (r: Vec<u8>)
    ensures
        r@ == b64_normalized(s@),
{
    let n = s.len();
    let mut out: Vec<u8> = Vec::new();
    let mut i: usize = 0;
    while i < n
        invariant
            n == s@.len(),
            0 <= i <= n,
            out@ == b64_normalized(s@.take(i as int)),
        decreases n - i,
    {
        proof {
            assert(s@.take(i + 1).drop_last() =~= s@.take(i as int));
            assert(s@.take(i + 1).last() == s@[i as int]);
        }
        let b = s[i];
        if b != 0x3d {
            if b == 0x2b {
                out.push(0x2d);
            } else if b == 0x2f {
                out.push(0x5f);
            } else {
                out.push(b);
            }
        }
        i += 1;
    }
    proof {
        assert(s@.take(n as int) =~= s@);
    }
    out
}

/// Decode the optional early data carried in a transport subprotocol
/// header: an absent or empty value means no early data; otherwise the
/// value is normalized to the URL-safe unpadded alphabet and decoded,
/// a value the engine rejects failing the connection setup.
pub fn parse_early_data(data: Option<String>) -> (r: Result<Option<Vec<u8>>, EarlyDataError>)
    ensures
        match data {
            None => (r matches Ok(o) && o is None),
            Some(s) => if s@.len() == 0 {
                r matches Ok(o) && o is None
            } else {
                match b64_url_decoded(b64_normalized(vstd::utf8::encode_utf8(s@))) {
                    Some(bytes) => (r matches Ok(o) && o matches Some(v) && v@ == bytes),
                    None => r is Err,
                }
            },
        },
{
    match data {
        None => Ok(None),
        Some(s) => {
            if s.as_str().is_empty() {
                return Ok(None);
            }
            let norm = normalize_b64(s.as_str().as_bytes());
            match b64_url_decode(norm.as_slice()) {
                Some(v) => Ok(Some(v)),
                None => Err(EarlyDataError),
            }
        },
    }
}

} // verus!
