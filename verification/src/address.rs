//! Ethereum addresses as plain values.
//!
//! An address is 160 bits, held as three machine words. Addresses arrive as
//! hex literals (`0x` followed by 40 hex digits, in either case); parsing
//! normalizes them, so two spellings of the same address that differ only in
//! letter case yield the same value.

use vstd::prelude::*;

verus! {

use vstd::string::StrSliceExecFns;
use vstd::string::StringSliceAdditionalSpecFns;

/// A 160-bit Ethereum address: the first eight bytes in `hi`, the next eight
/// in `mid`, the last four in `lo`, each big-endian.
#[derive(PartialEq, Eq, Structural, Clone, Copy, Debug)]
pub struct EthAddr {
    pub hi: u64,
    pub mid: u64,
    pub lo: u32,
}

/// The decimal digits, `a` to `f` and `A` to `F`.
pub open spec fn is_hex_digit(b: u8) -> bool {
    (0x30 <= b && b <= 0x39) || (0x61 <= b && b <= 0x66) || (0x41 <= b && b <= 0x46)
}

/// The numeric value of one hex digit, in either case.
pub open spec fn hex_digit_val(b: u8) -> int {
    if 0x30 <= b && b <= 0x39 {
        b - 0x30
    } else if 0x61 <= b && b <= 0x66 {
        b - 0x61 + 10
    } else {
        b - 0x41 + 10
    }
}

/// The value of a big-endian string of hex digits.
pub open spec fn hex_value(s: Seq<u8>) -> int
    decreases s.len(),
{
    if s.len() == 0 {
        0
    } else {
        hex_value(s.drop_last()) * 16 + hex_digit_val(s.last())
    }
}

/// An ASCII byte folded to lower case.
pub open spec fn ascii_lower(b: u8) -> u8 {
    if 0x41 <= b && b <= 0x5a {
        (b + 0x20) as u8
    } else {
        b
    }
}

/// Two byte strings that agree once folded to lower case.
pub open spec fn eq_ignore_ascii_case(s1: Seq<u8>, s2: Seq<u8>) -> bool {
    s1.len() == s2.len() && forall|i: int|
        0 <= i < s1.len() ==> ascii_lower(s1[i]) == ascii_lower(s2[i])
}

/// The shape of an address literal: `0x` or `0X`, then 40 hex digits.
pub open spec fn is_addr_literal(s: Seq<u8>) -> bool {
    &&& s.len() == 42
    &&& s[0] == 0x30
    &&& (s[1] == 0x78 || s[1] == 0x58)
    &&& forall|i: int| 2 <= i < 42 ==> is_hex_digit(s[i])
}

/// What parsing an address literal yields.
pub open spec fn spec_parse_addr(s: Seq<u8>) -> Option<EthAddr> {
    if is_addr_literal(s) {
        Some(
            EthAddr {
                hi: hex_value(s.subrange(2, 18)) as u64,
                mid: hex_value(s.subrange(18, 34)) as u64,
                lo: hex_value(s.subrange(34, 42)) as u32,
            },
        )
    } else {
        None
    }
}

/// A string of hex digits of length `n` has a value below `16^n`; in
/// particular 16 digits fit in a `u64` and 8 in a `u32`.
pub proof fn lemma_hex_value_bound(s: Seq<u8>, bound: int)
    requires
        forall|i: int| 0 <= i < s.len() ==> is_hex_digit(s[i]),
        pow16(s.len() as nat) <= bound,
    ensures
        0 <= hex_value(s) < bound,
    decreases s.len(),
{
    if s.len() == 0 {
    } else {
        assert(forall|i: int|
            0 <= i < s.drop_last().len() ==> is_hex_digit(#[trigger] s.drop_last()[i]));
        lemma_hex_value_bound(s.drop_last(), pow16((s.len() - 1) as nat));
    }
}

/// `16^n`.
pub open spec fn pow16(n: nat) -> int
    decreases n,
{
    if n == 0 {
        1
    } else {
        16 * pow16((n - 1) as nat)
    }
}

/// The exec counterpart of `hex_digit_val`: `None` on a byte that is no hex
/// digit.
fn hex_digit(b: u8) -> (r: Option<u8>)
    ensures
        r is Some <==> is_hex_digit(b),
        r is Some ==> r->0 == hex_digit_val(b),
{
    if 0x30 <= b && b <= 0x39 {
        Some(b - 0x30)
    } else if 0x61 <= b && b <= 0x66 {
        Some(b - 0x61 + 10)
    } else if 0x41 <= b && b <= 0x46 {
        Some(b - 0x41 + 10)
    } else {
        None
    }
}

/// Reads `count` hex digits of `bytes` starting at `start` as a big-endian
/// number. `None` when some byte is no hex digit.
fn parse_hex_digits(bytes: &Vec<u8>, start: usize, count: usize) -> (r: Option<u64>)
    requires
        start + count <= bytes.len(),
        count <= 16,
    ensures
        r is Some <==> (forall|i: int|
            start <= i < start + count ==> is_hex_digit(bytes@[i])),
        r is Some ==> r->0 == hex_value(bytes@.subrange(start as int, (start + count) as int)),
{
    let mut acc: u64 = 0;
    let mut k: usize = 0;
    proof {
        lemma_pow16_increases(0, 16);
    }
    while k < count
        invariant
            start + count <= bytes.len(),
            count <= 16,
            0 <= k <= count,
            forall|i: int| start <= i < start + k ==> is_hex_digit(bytes@[i]),
            acc == hex_value(bytes@.subrange(start as int, (start + k) as int)),
            acc < pow16(k as nat),
            pow16(k as nat) <= pow16(16),
        decreases count - k,
    {
        proof {
            lemma_pow16_increases(k as nat, count as nat);
            lemma_pow16_increases(count as nat, 16);
            assert(pow16(16) == 0x1_0000_0000_0000_0000) by {
                reveal_with_fuel(pow16, 17);
            }
        }
        let b = bytes[start + k];
        match hex_digit(b) {
            None => {
                proof {
                    assert(!is_hex_digit(bytes@[start + k as int]));
                }
                return None;
            },
            Some(d) => {
                proof {
                    lemma_pow16_increases((k + 1) as nat, 16);
                    assert(acc * 16 + d < pow16((k + 1) as nat)) by {
                        assert(acc <= pow16(k as nat) - 1);
                        assert(acc * 16 <= (pow16(k as nat) - 1) * 16) by (nonlinear_arith)
                            requires
                                acc <= pow16(k as nat) - 1,
                        ;
                    }
                    assert(pow16((k + 1) as nat) <= 0x1_0000_0000_0000_0000);
                }
                acc = acc * 16 + (d as u64);
                proof {
                    let pre = bytes@.subrange(start as int, (start + k) as int);
                    let post = bytes@.subrange(start as int, (start + k + 1) as int);
                    assert(post.drop_last() =~= pre);
                    assert(post.last() == bytes@[start + k as int]);
                }
                k = k + 1;
            },
        }
    }
    proof {
        assert(bytes@.subrange(start as int, (start + k) as int) =~= bytes@.subrange(
            start as int,
            (start + count) as int,
        ));
    }
    Some(acc)
}

/// `16^a` is positive.
proof fn lemma_pow16_pos(a: nat)
    ensures
        pow16(a) >= 1,
    decreases a,
{
    if a > 0 {
        lemma_pow16_pos((a - 1) as nat);
    }
}

/// `16^a <= 16^b` for `a <= b`.
proof fn lemma_pow16_increases(a: nat, b: nat)
    requires
        a <= b,
    ensures
        1 <= pow16(a),
        pow16(a) <= pow16(b),
    decreases b,
{
    lemma_pow16_pos(a);
    if a < b {
        lemma_pow16_increases(a, (b - 1) as nat);
    }
}

/// Parses an address literal (`0x` plus 40 hex digits, either case).
/// Returns `None` on anything else.
pub fn parse_eth_address(s: &str) -> (r: Option<EthAddr>)
    ensures
        r == spec_parse_addr(s.spec_bytes()),
{
    let bytes = s.as_bytes_vec();
    if bytes.len() != 42 {
        return None;
    }
    let b0 = bytes[0];
    let b1 = bytes[1];
    if b0 != 0x30 || (b1 != 0x78 && b1 != 0x58) {
        return None;
    }
    let hi = match parse_hex_digits(&bytes, 2, 16) {
        None => {
            return None;
        },
        Some(v) => v,
    };
    let mid = match parse_hex_digits(&bytes, 18, 16) {
        None => {
            return None;
        },
        Some(v) => v,
    };
    let lo = match parse_hex_digits(&bytes, 34, 8) {
        None => {
            return None;
        },
        Some(v) => v,
    };
    proof {
        let sb = s.spec_bytes();
        assert(is_addr_literal(sb));
        lemma_hex_value_bound(sb.subrange(34, 42), pow16(8));
        assert(pow16(8) == 0x1_0000_0000) by {
            reveal_with_fuel(pow16, 9);
        }
    }
    Some(EthAddr { hi, mid, lo: lo as u32 })
}

/// Folding a byte to lower case does not change which hex digit it is,
/// nor its value.
proof fn lemma_hex_digit_case(b1: u8, b2: u8)
    requires
        ascii_lower(b1) == ascii_lower(b2),
    ensures
        is_hex_digit(b1) == is_hex_digit(b2),
        is_hex_digit(b1) ==> hex_digit_val(b1) == hex_digit_val(b2),
{
}

/// Hex-digit strings that agree up to letter case have the same value.
proof fn lemma_hex_value_case(s1: Seq<u8>, s2: Seq<u8>)
    requires
        eq_ignore_ascii_case(s1, s2),
        forall|i: int| 0 <= i < s1.len() ==> is_hex_digit(s1[i]),
    ensures
        hex_value(s1) == hex_value(s2),
    decreases s1.len(),
{
    if s1.len() > 0 {
        assert(eq_ignore_ascii_case(s1.drop_last(), s2.drop_last()));
        assert(forall|i: int|
            0 <= i < s1.drop_last().len() ==> is_hex_digit(#[trigger] s1.drop_last()[i]));
        lemma_hex_value_case(s1.drop_last(), s2.drop_last());
        lemma_hex_digit_case(s1.last(), s2.last());
    }
}

/// Address parsing is insensitive to the letter case of the literal: two
/// spellings that agree once folded to lower case parse to the same value
/// (or both fail).
pub proof fn lemma_parse_addr_case_insensitive(s1: Seq<u8>, s2: Seq<u8>)
    requires
        eq_ignore_ascii_case(s1, s2),
    ensures
        spec_parse_addr(s1) == spec_parse_addr(s2),
{
    assert forall|i: int| 0 <= i < s1.len() implies is_hex_digit(s1[i]) == is_hex_digit(s2[i])
        && (is_hex_digit(s1[i]) ==> hex_digit_val(s1[i]) == hex_digit_val(s2[i])) by {
        lemma_hex_digit_case(s1[i], s2[i]);
    }
    if is_addr_literal(s1) || is_addr_literal(s2) {
        if s1.len() == 42 {
            assert(is_addr_literal(s1) == is_addr_literal(s2));
        }
    }
    if is_addr_literal(s1) && is_addr_literal(s2) {
        assert(eq_ignore_ascii_case(s1.subrange(2, 18), s2.subrange(2, 18)));
        assert(eq_ignore_ascii_case(s1.subrange(18, 34), s2.subrange(18, 34)));
        assert(eq_ignore_ascii_case(s1.subrange(34, 42), s2.subrange(34, 42)));
        lemma_hex_value_case(s1.subrange(2, 18), s2.subrange(2, 18));
        lemma_hex_value_case(s1.subrange(18, 34), s2.subrange(18, 34));
        lemma_hex_value_case(s1.subrange(34, 42), s2.subrange(34, 42));
    }
}

} // verus!
