//! Exact arithmetic on token amounts.
//!
//! Batch fees and gas figures are raw on-chain integers; deciding whether a
//! batch pays for its own gas compares `amount * price` against
//! `gas * gas_price`. Both products can exceed 128 bits, so they are compared
//! through an exact 256-bit product, never truncated.

use vstd::prelude::*;

verus! {

use vstd::string::StrSliceExecFns;
use vstd::string::StringSliceAdditionalSpecFns;

/// `2^64`: the base in which 128-bit factors are split into limbs.
pub const LIMB_BASE: u128 = 0x1_0000_0000_0000_0000;

/// `2^128`, the weight of the high half of a 256-bit product.
pub open spec fn base128() -> int {
    0x1_0000_0000_0000_0000_0000_0000_0000_0000int
}

/// The full 256-bit product of two 128-bit integers, as high and low halves.
pub fn wide_mul(a: u128, b: u128) -> (r: (u128, u128))
    ensures
        r.0 * base128() + r.1 == a * b,
{
    let a1 = a / LIMB_BASE;
    let a0 = a % LIMB_BASE;
    let b1 = b / LIMB_BASE;
    let b0 = b % LIMB_BASE;
    proof {
        assert(a1 < LIMB_BASE && b1 < LIMB_BASE) by (nonlinear_arith)
            requires
                a1 == a / LIMB_BASE,
                b1 == b / LIMB_BASE,
                a <= u128::MAX,
                b <= u128::MAX,
                LIMB_BASE == 0x1_0000_0000_0000_0000,
        ;
        assert(a0 * b0 <= (LIMB_BASE - 1) * (LIMB_BASE - 1) && a1 * b0 <= (LIMB_BASE - 1) * (LIMB_BASE - 1)
            && a0 * b1 <= (LIMB_BASE - 1) * (LIMB_BASE - 1) && a1 * b1 <= (LIMB_BASE - 1) * (LIMB_BASE - 1))
            by (nonlinear_arith)
            requires
                a0 < LIMB_BASE,
                a1 < LIMB_BASE,
                b0 < LIMB_BASE,
                b1 < LIMB_BASE,
        ;
    }
    let ll = a0 * b0;
    let lh = a0 * b1;
    let hl = a1 * b0;
    let hh = a1 * b1;
    proof {
        assert(ll / LIMB_BASE < LIMB_BASE && hl + ll / LIMB_BASE < LIMB_BASE * LIMB_BASE) by (nonlinear_arith)
            requires
                ll <= (LIMB_BASE - 1) * (LIMB_BASE - 1),
                hl <= (LIMB_BASE - 1) * (LIMB_BASE - 1),
                LIMB_BASE == 0x1_0000_0000_0000_0000,
        ;
    }
    let mid1 = hl + ll / LIMB_BASE;
    proof {
        assert(lh + mid1 % LIMB_BASE < LIMB_BASE * LIMB_BASE) by (nonlinear_arith)
            requires
                lh <= (LIMB_BASE - 1) * (LIMB_BASE - 1),
                mid1 % LIMB_BASE < LIMB_BASE,
                LIMB_BASE == 0x1_0000_0000_0000_0000,
        ;
    }
    let mid2 = lh + mid1 % LIMB_BASE;
    let lo = (mid2 % LIMB_BASE) * LIMB_BASE + ll % LIMB_BASE;
    proof {
        assert(mid1 / LIMB_BASE < LIMB_BASE && mid2 / LIMB_BASE < LIMB_BASE && hh + mid1 / LIMB_BASE + mid2
            / LIMB_BASE <= u128::MAX) by (nonlinear_arith)
            requires
                mid1 < LIMB_BASE * LIMB_BASE,
                mid2 < LIMB_BASE * LIMB_BASE,
                hh <= (LIMB_BASE - 1) * (LIMB_BASE - 1),
                LIMB_BASE == 0x1_0000_0000_0000_0000,
        ;
    }
    let hi = hh + mid1 / LIMB_BASE + mid2 / LIMB_BASE;
    proof {
        lemma_wide_mul_correct(
            a as int,
            b as int,
            a1 as int,
            a0 as int,
            b1 as int,
            b0 as int,
            ll as int,
            lh as int,
            hl as int,
            hh as int,
            mid1 as int,
            mid2 as int,
            hi as int,
            lo as int,
        );
    }
    (hi, lo)
}

/// The accumulation scheme of `wide_mul` assembles exactly `a * b`.
proof fn lemma_wide_mul_correct(
    a: int,
    b: int,
    a1: int,
    a0: int,
    b1: int,
    b0: int,
    ll: int,
    lh: int,
    hl: int,
    hh: int,
    mid1: int,
    mid2: int,
    hi: int,
    lo: int,
)
    requires
        a == a1 * 0x1_0000_0000_0000_0000 + a0,
        b == b1 * 0x1_0000_0000_0000_0000 + b0,
        0 <= a0 < 0x1_0000_0000_0000_0000,
        0 <= b0 < 0x1_0000_0000_0000_0000,
        0 <= a1,
        0 <= b1,
        ll == a0 * b0,
        lh == a0 * b1,
        hl == a1 * b0,
        hh == a1 * b1,
        mid1 == hl + ll / 0x1_0000_0000_0000_0000,
        mid2 == lh + mid1 % 0x1_0000_0000_0000_0000,
        lo == (mid2 % 0x1_0000_0000_0000_0000) * 0x1_0000_0000_0000_0000 + ll
            % 0x1_0000_0000_0000_0000,
        hi == hh + mid1 / 0x1_0000_0000_0000_0000 + mid2 / 0x1_0000_0000_0000_0000,
    ensures
        hi * base128() + lo == a * b,
{
    let p: int = 0x1_0000_0000_0000_0000;
    vstd::arithmetic::div_mod::lemma_fundamental_div_mod(ll, p);
    vstd::arithmetic::div_mod::lemma_fundamental_div_mod(mid1, p);
    vstd::arithmetic::div_mod::lemma_fundamental_div_mod(mid2, p);
    assert(a * b == hh * (p * p) + lh * p + hl * p + ll) by (nonlinear_arith)
        requires
            a == a1 * p + a0,
            b == b1 * p + b0,
            ll == a0 * b0,
            lh == a0 * b1,
            hl == a1 * b0,
            hh == a1 * b1,
            p == 0x1_0000_0000_0000_0000,
    ;
    assert(hi * (p * p) + lo == hh * (p * p) + lh * p + hl * p + ll) by (nonlinear_arith)
        requires
            ll == (ll / p) * p + ll % p,
            mid1 == (mid1 / p) * p + mid1 % p,
            mid2 == (mid2 / p) * p + mid2 % p,
            mid1 == hl + ll / p,
            mid2 == lh + mid1 % p,
            lo == (mid2 % p) * p + ll % p,
            hi == hh + mid1 / p + mid2 / p,
    ;
    assert(p * p == 0x1_0000_0000_0000_0000_0000_0000_0000_0000int) by (nonlinear_arith)
        requires
            p == 0x1_0000_0000_0000_0000,
    ;
    assert(base128() == p * p);
}

/// Whether `a * b >= c * d`, decided on the exact 256-bit products.
pub fn prod_ge(a: u128, b: u128, c: u128, d: u128) -> (r: bool)
    ensures
        r == (a * b >= c * d),
{
    let (h1, l1) = wide_mul(a, b);
    let (h2, l2) = wide_mul(c, d);
    proof {
        assert(h1 * base128() + l1 >= h2 * base128() + l2 <==> (h1 > h2 || (h1 == h2 && l1 >= l2)))
            by (nonlinear_arith)
            requires
                0 <= l1 < base128(),
                0 <= l2 < base128(),
                0 <= h1,
                0 <= h2,
        ;
    }
    if h1 != h2 {
        h1 > h2
    } else {
        l1 >= l2
    }
}

/// A decimal digit.
pub open spec fn is_dec_digit(b: u8) -> bool {
    0x30 <= b && b <= 0x39
}

/// A well-formed decimal literal: at least one digit, nothing else.
pub open spec fn is_dec_literal(s: Seq<u8>) -> bool {
    s.len() > 0 && forall|i: int| 0 <= i < s.len() ==> is_dec_digit(s[i])
}

/// The value of a big-endian string of decimal digits.
pub open spec fn dec_value(s: Seq<u8>) -> int
    decreases s.len(),
{
    if s.len() == 0 {
        0
    } else {
        dec_value(s.drop_last()) * 10 + (s.last() - 0x30)
    }
}

/// A digit string's value never shrinks as the string grows on the right.
proof fn lemma_dec_value_grows(s: Seq<u8>, n: int)
    requires
        forall|i: int| 0 <= i < s.len() ==> is_dec_digit(s[i]),
        0 <= n <= s.len(),
    ensures
        0 <= dec_value(s.subrange(0, n)) <= dec_value(s),
    decreases s.len() - n,
{
    if n == s.len() {
        assert(s.subrange(0, n) =~= s);
        lemma_dec_value_nonneg(s);
    } else {
        lemma_dec_value_grows(s, n + 1);
        let t = s.subrange(0, n + 1);
        assert(t.drop_last() =~= s.subrange(0, n));
        lemma_dec_value_nonneg(t.drop_last());
        assert(dec_value(t) == dec_value(t.drop_last()) * 10 + (t.last() - 0x30));
        assert(dec_value(t.drop_last()) * 10 >= dec_value(t.drop_last())) by (nonlinear_arith)
            requires
                dec_value(t.drop_last()) >= 0,
        ;
    }
}

/// A digit string's value is not negative.
proof fn lemma_dec_value_nonneg(s: Seq<u8>)
    requires
        forall|i: int| 0 <= i < s.len() ==> is_dec_digit(s[i]),
    ensures
        dec_value(s) >= 0,
    decreases s.len(),
{
    if s.len() > 0 {
        assert(forall|i: int|
            0 <= i < s.drop_last().len() ==> is_dec_digit(#[trigger] s.drop_last()[i]));
        lemma_dec_value_nonneg(s.drop_last());
        assert(dec_value(s.drop_last()) * 10 >= 0) by (nonlinear_arith)
            requires
                dec_value(s.drop_last()) >= 0,
        ;
    }
}

/// Parses a decimal integer literal. `None` when the string is empty, holds
/// a non-digit, or names a value above `u128::MAX`.
pub fn parse_dec_u128(s: &str) -> (r: Option<u128>)
    ensures
        r is Some <==> is_dec_literal(s.spec_bytes()) && dec_value(s.spec_bytes()) <= u128::MAX,
        r is Some ==> r->0 == dec_value(s.spec_bytes()),
{
    let bytes = s.as_bytes_vec();
    if bytes.len() == 0 {
        return None;
    }
    let ghost sb = s.spec_bytes();
    let mut acc: u128 = 0;
    let mut k: usize = 0;
    while k < bytes.len()
        invariant
            sb == s.spec_bytes(),
            bytes@ == sb,
            bytes.len() > 0,
            0 <= k <= bytes.len(),
            forall|i: int| 0 <= i < k ==> is_dec_digit(sb[i]),
            acc == dec_value(sb.subrange(0, k as int)),
        decreases bytes.len() - k,
    {
        let b = bytes[k];
        if b < 0x30 || b > 0x39 {
            proof {
                assert(!is_dec_digit(sb[k as int]));
            }
            return None;
        }
        let d = b - 0x30;
        let next = match acc.checked_mul(10) {
            None => {
                proof {
                    lemma_parse_overflow(sb, k as int, acc as int * 10);
                }
                return None;
            },
            Some(m) => match m.checked_add(d as u128) {
                None => {
                    proof {
                        lemma_parse_overflow(sb, k as int, m + d);
                    }
                    return None;
                },
                Some(v) => v,
            },
        };
        proof {
            let pre = sb.subrange(0, k as int);
            let post = sb.subrange(0, k as int + 1);
            assert(post.drop_last() =~= pre);
            assert(post.last() == sb[k as int]);
        }
        acc = next;
        k = k + 1;
    }
    proof {
        assert(sb.subrange(0, k as int) =~= sb);
    }
    Some(acc)
}

/// When the accumulator overflows at digit `k`, the whole literal's value is
/// out of range (or some later byte is no digit, letting `None` stand).
proof fn lemma_parse_overflow(s: Seq<u8>, k: int, next: int)
    requires
        0 <= k < s.len(),
        forall|i: int| 0 <= i < k ==> is_dec_digit(s[i]),
        is_dec_digit(s[k]),
        next <= dec_value(s.subrange(0, k)) * 10 + (s[k] - 0x30),
        next > u128::MAX,
    ensures
        !(is_dec_literal(s) && dec_value(s) <= u128::MAX),
{
    if is_dec_literal(s) {
        let post = s.subrange(0, k + 1);
        assert(post.drop_last() =~= s.subrange(0, k));
        assert(post.last() == s[k]);
        assert(dec_value(post) >= next);
        lemma_dec_value_grows(s, k + 1);
    }
}

} // verus!
