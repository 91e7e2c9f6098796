//! The textual dial targets: a domain is dialed as its own text, an IPv4
//! address as dotted decimal, and an IPv6 address in bracketed form with
//! lowercase hex groups and the leftmost longest run of two or more zero
//! groups compressed to `::`.
use vstd::arithmetic::div_mod::lemma_div_denominator;
use vstd::prelude::*;
use vstd::string::StringExecFns;

use crate::handshake::{pow256, Address, SpecAddress};

verus! {

/// The character for one digit value, decimal digits first, then the
/// lowercase hex letters.
pub open spec fn digit_char(d: int) -> char {
    if d == 0 {
        '0'
    } else if d == 1 {
        '1'
    } else if d == 2 {
        '2'
    } else if d == 3 {
        '3'
    } else if d == 4 {
        '4'
    } else if d == 5 {
        '5'
    } else if d == 6 {
        '6'
    } else if d == 7 {
        '7'
    } else if d == 8 {
        '8'
    } else if d == 9 {
        '9'
    } else if d == 10 {
        'a'
    } else if d == 11 {
        'b'
    } else if d == 12 {
        'c'
    } else if d == 13 {
        'd'
    } else if d == 14 {
        'e'
    } else {
        'f'
    }
}

fn digit_str(d: u8) -> (r: &'static str)
    requires
        d < 16,
    ensures
        r@ == seq![digit_char(d as int)],
{
    if d == 0 {
        proof {
            reveal_strlit("0");
        }
        "0"
    } else if d == 1 {
        proof {
            reveal_strlit("1");
        }
        "1"
    } else if d == 2 {
        proof {
            reveal_strlit("2");
        }
        "2"
    } else if d == 3 {
        proof {
            reveal_strlit("3");
        }
        "3"
    } else if d == 4 {
        proof {
            reveal_strlit("4");
        }
        "4"
    } else if d == 5 {
        proof {
            reveal_strlit("5");
        }
        "5"
    } else if d == 6 {
        proof {
            reveal_strlit("6");
        }
        "6"
    } else if d == 7 {
        proof {
            reveal_strlit("7");
        }
        "7"
    } else if d == 8 {
        proof {
            reveal_strlit("8");
        }
        "8"
    } else if d == 9 {
        proof {
            reveal_strlit("9");
        }
        "9"
    } else if d == 10 {
        proof {
            reveal_strlit("a");
        }
        "a"
    } else if d == 11 {
        proof {
            reveal_strlit("b");
        }
        "b"
    } else if d == 12 {
        proof {
            reveal_strlit("c");
        }
        "c"
    } else if d == 13 {
        proof {
            reveal_strlit("d");
        }
        "d"
    } else if d == 14 {
        proof {
            reveal_strlit("e");
        }
        "e"
    } else {
        proof {
            reveal_strlit("f");
        }
        "f"
    }
}

/// A byte in decimal, without leading zeros.
pub open spec fn dec_byte(b: u8) -> Seq<char> {
    if b < 10 {
        seq![digit_char(b as int)]
    } else if b < 100 {
        seq![digit_char(b as int / 10), digit_char(b as int % 10)]
    } else {
        seq![
            digit_char(b as int / 100),
            digit_char(b as int / 10 % 10),
            digit_char(b as int % 10),
        ]
    }
}

fn push_dec_byte(s: &mut String, b: u8)
    ensures
        final(s)@ == old(s)@ + dec_byte(b),
{
    if b >= 100 {
        s.append(digit_str(b / 100));
        s.append(digit_str(b / 10 % 10));
        s.append(digit_str(b % 10));
    } else if b >= 10 {
        s.append(digit_str(b / 10));
        s.append(digit_str(b % 10));
    } else {
        s.append(digit_str(b));
    }
    proof {
        assert(final(s)@ =~= old(s)@ + dec_byte(b));
    }
}

/// Byte `i` (most significant first) of an IPv4 address's 32 bits.
pub open spec fn ipv4_byte(v: u32, i: int) -> u8 {
    ((v as nat / pow256((3 - i) as nat)) % 256) as u8
}

/// The dotted-decimal text of an IPv4 address.
pub open spec fn ipv4_text(v: u32) -> Seq<char> {
    dec_byte(ipv4_byte(v, 0)) + seq!['.'] + dec_byte(ipv4_byte(v, 1)) + seq!['.'] + dec_byte(
        ipv4_byte(v, 2),
    ) + seq!['.'] + dec_byte(ipv4_byte(v, 3))
}

/// Format an IPv4 address as dotted decimal.
pub fn format_ipv4(v: u32) -> (r: String)
    ensures
        r@ == ipv4_text(v),
{
    proof {
        lemma_small_pow256();
    }
    let b0 = ((v / 0x100_0000) % 256) as u8;
    let b1 = ((v / 0x1_0000) % 256) as u8;
    let b2 = ((v / 0x100) % 256) as u8;
    let b3 = (v % 256) as u8;
    proof {
        assert(v as nat / 1 == v as nat);
        assert(b0 == ipv4_byte(v, 0));
        assert(b1 == ipv4_byte(v, 1));
        assert(b2 == ipv4_byte(v, 2));
        assert(b3 == ipv4_byte(v, 3));
    }
    let mut s = String::new();
    push_dec_byte(&mut s, b0);
    proof {
        reveal_strlit(".");
        assert("."@ =~= seq!['.']);
    }
    s.append(".");
    push_dec_byte(&mut s, b1);
    s.append(".");
    push_dec_byte(&mut s, b2);
    s.append(".");
    push_dec_byte(&mut s, b3);
    proof {
        assert(s@ =~= ipv4_text(v));
    }
    s
}

proof fn lemma_small_pow256()
    ensures
        pow256(0) == 1,
        pow256(1) == 0x100,
        pow256(2) == 0x1_0000,
        pow256(3) == 0x100_0000,
{
    assert(pow256(0) == 1);
    assert(pow256(1) == 256 * pow256(0));
    assert(pow256(2) == 256 * pow256(1));
    assert(pow256(3) == 256 * pow256(2));
}

/// 65536 to the power `n`.
pub open spec fn g16pow(n: nat) -> nat
    decreases n,
{
    if n == 0 {
        1
    } else {
        65536 * g16pow((n - 1) as nat)
    }
}

/// Group `i` (most significant first) of an IPv6 address's 128 bits.
pub open spec fn ipv6_group(v: u128, i: int) -> u16 {
    ((v as nat / g16pow((7 - i) as nat)) % 65536) as u16
}

/// The eight 16-bit groups of an IPv6 address, most significant first.
pub open spec fn ipv6_groups(v: u128) -> Seq<u16> {
    Seq::new(8, |i: int| ipv6_group(v, i))
}

fn groups_of(v: u128) -> (r: Vec<u16>)
    ensures
        r@ == ipv6_groups(v),
{
    let mut rev: Vec<u16> = Vec::new();
    let mut rest: u128 = v;
    let mut k: usize = 0;
    proof {
        assert(g16pow(0) == 1);
        assert(v as nat / 1 == v as nat);
    }
    while k < 8
        invariant
            0 <= k <= 8,
            rev@.len() == k,
            rest == v as nat / g16pow(k as nat),
            forall|j: int| 0 <= j < k ==> rev@[j] == ipv6_group(v, 7 - j),
        decreases 8 - k,
    {
        rev.push((rest % 65536) as u16);
        proof {
            lemma_g16pow_pos(k as nat);
            lemma_div_denominator(v as int, g16pow(k as nat) as int, 65536);
            assert(g16pow((k + 1) as nat) == 65536 * g16pow(k as nat));
            assert(rev@[k as int] == ipv6_group(v, 7 - k as int)) by {
                assert((7 - (7 - k as int)) as nat == k as nat);
            }
        }
        rest = rest / 65536;
        k += 1;
    }
    let mut r: Vec<u16> = Vec::new();
    let mut j: usize = 0;
    while j < 8
        invariant
            0 <= j <= 8,
            rev@.len() == 8,
            forall|i: int| 0 <= i < 8 ==> rev@[i] == ipv6_group(v, 7 - i),
            r@.len() == j,
            forall|i: int| 0 <= i < j ==> r@[i] == ipv6_group(v, i),
        decreases 8 - j,
    {
        r.push(rev[7 - j]);
        j += 1;
    }
    proof {
        assert(r@ =~= ipv6_groups(v));
    }
    r
}

pub proof fn lemma_g16pow_pos(n: nat)
    ensures
        g16pow(n) > 0,
    decreases n,
{
    if n > 0 {
        lemma_g16pow_pos((n - 1) as nat);
    }
}

/// The length of the zero-group run starting at `i`.
pub open spec fn zero_run_len(gs: Seq<u16>, i: int) -> int
    decreases gs.len() - i,
{
    if i < 0 || i >= gs.len() {
        0
    } else if gs[i] != 0 {
        0
    } else {
        1 + zero_run_len(gs, i + 1)
    }
}

/// The leftmost longest zero run at or after `i`, improving on a best
/// run of `bl` groups starting at `bs`.
pub open spec fn scan_best(gs: Seq<u16>, i: int, bs: int, bl: int) -> (int, int)
    decreases gs.len() - i,
{
    if i < 0 || i >= gs.len() {
        (bs, bl)
    } else {
        let l = zero_run_len(gs, i);
        if l > bl {
            scan_best(gs, i + 1, i, l)
        } else {
            scan_best(gs, i + 1, bs, bl)
        }
    }
}

/// The colon-separated lowercase hex text of a group, without leading
/// zeros.
pub open spec fn hex_group(v: u16) -> Seq<char>
    decreases v,
{
    if v < 16 {
        seq![digit_char(v as int)]
    } else {
        hex_group(v / 16).push(digit_char(v as int % 16))
    }
}

/// Groups joined with `:` separators.
pub open spec fn join_groups(gs: Seq<u16>) -> Seq<char>
    decreases gs.len(),
{
    if gs.len() == 0 {
        Seq::empty()
    } else if gs.len() == 1 {
        hex_group(gs[0])
    } else {
        join_groups(gs.drop_last()) + seq![':'] + hex_group(gs.last())
    }
}

/// The canonical text of an IPv6 address, without brackets: lowercase
/// hex groups, and the leftmost longest run of two or more zero groups
/// compressed to `::`.
pub open spec fn ipv6_text(v: u128) -> Seq<char> {
    let gs = ipv6_groups(v);
    let best = scan_best(gs, 0, 0, 0);
    if best.1 >= 2 {
        join_groups(gs.take(best.0)) + seq![':', ':'] + join_groups(gs.skip(best.0 + best.1))
    } else {
        join_groups(gs)
    }
}

fn append_hex_group(s: &mut String, v: u16)
    ensures
        final(s)@ == old(s)@ + hex_group(v),
    decreases v,
{
    if v < 16 {
        s.append(digit_str(v as u8));
    } else {
        append_hex_group(s, v / 16);
        s.append(digit_str((v % 16) as u8));
    }
    proof {
        assert(final(s)@ =~= old(s)@ + hex_group(v));
    }
}

fn append_join(s: &mut String, gs: &Vec<u16>, from: usize, to: usize)
    requires
        from <= to <= gs@.len(),
    ensures
        final(s)@ == old(s)@ + join_groups(gs@.subrange(from as int, to as int)),
{
    let mut k = from;
    while k < to
        invariant
            from <= k <= to <= gs@.len(),
            s@ == old(s)@ + join_groups(gs@.subrange(from as int, k as int)),
        decreases to - k,
    {
        if k > from {
            proof {
                reveal_strlit(":");
            }
            s.append(":");
        }
        append_hex_group(s, gs[k]);
        proof {
            let sub = gs@.subrange(from as int, k + 1);
            assert(sub.drop_last() =~= gs@.subrange(from as int, k as int));
            assert(sub.last() == gs@[k as int]);
            if k == from {
                assert(join_groups(gs@.subrange(from as int, from as int)) =~= Seq::<
                    char,
                >::empty());
                assert(s@ =~= old(s)@ + join_groups(sub));
            } else {
                assert(s@ =~= old(s)@ + join_groups(sub));
            }
        }
        k += 1;
    }
    proof {
        if from == to {
            assert(join_groups(gs@.subrange(from as int, to as int)) =~= Seq::<char>::empty());
            assert(s@ =~= old(s)@ + join_groups(gs@.subrange(from as int, to as int)));
        }
    }
}

fn run_len_at(gs: &Vec<u16>, i: usize) -> (l: usize)
    requires
        i <= gs@.len(),
    ensures
        l == zero_run_len(gs@, i as int),
        i + l <= gs@.len(),
{
    let n = gs.len();
    let mut j = i;
    while j < n && gs[j] == 0
        invariant
            i <= j <= n == gs@.len(),
            zero_run_len(gs@, i as int) == j - i + zero_run_len(gs@, j as int),
        decreases n - j,
    {
        j += 1;
    }
    j - i
}

/// Format an IPv6 address in canonical (zero-compressed, lowercase) text
/// without brackets.
pub fn format_ipv6(v: u128) -> (r: String)
    ensures
        r@ == ipv6_text(v),
{
    let gs = groups_of(v);
    let mut bs: usize = 0;
    let mut bl: usize = 0;
    let mut i: usize = 0;
    while i < 8
        invariant
            0 <= i <= 8,
            gs@.len() == 8,
            gs@ == ipv6_groups(v),
            0 <= bs <= 8,
            bs + bl <= 8,
            scan_best(gs@, 0, 0, 0) == scan_best(gs@, i as int, bs as int, bl as int),
        decreases 8 - i,
    {
        let l = run_len_at(&gs, i);
        if l > bl {
            bs = i;
            bl = l;
        }
        i += 1;
    }
    let mut s = String::new();
    if bl >= 2 {
        append_join(&mut s, &gs, 0, bs);
        proof {
            reveal_strlit("::");
        }
        s.append("::");
        append_join(&mut s, &gs, bs + bl, 8);
        proof {
            assert(gs@.subrange(0, bs as int) =~= gs@.take(bs as int));
            assert(gs@.subrange(bs + bl, 8) =~= gs@.skip(bs + bl));
            assert("::"@ =~= seq![':', ':']);
            assert(s@ =~= ipv6_text(v));
        }
    } else {
        append_join(&mut s, &gs, 0, 8);
        proof {
            assert(gs@.subrange(0, 8) =~= gs@);
            assert(s@ =~= ipv6_text(v));
        }
    }
    s
}

/// The text of a destination address as a dial target: the domain's own
/// text, dotted decimal for IPv4, or the bracketed IPv6 form.
pub open spec fn spec_dial_target(a: SpecAddress) -> Seq<char> {
    match a {
        SpecAddress::Domain(d) => d,
        SpecAddress::V4(v) => ipv4_text(v),
        SpecAddress::V6(v) => seq!['['] + ipv6_text(v) + seq![']'],
    }
}

/// The dial-target text of a parsed destination address.
pub fn dial_target(a: &Address) -> (r: String)
    ensures
        r@ == spec_dial_target(a@),
{
    match a {
        Address::Domain(d) => d.clone(),
        Address::V4(v) => format_ipv4(*v),
        Address::V6(v) => {
            proof {
                reveal_strlit("[");
                reveal_strlit("]");
            }
            let mut s = String::from_str("[");
            let inner = format_ipv6(*v);
            s.append(inner.as_str());
            s.append("]");
            proof {
                assert(s@ =~= spec_dial_target(a@));
            }
            s
        },
    }
}

} // verus!
