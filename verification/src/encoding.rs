//! Rendering values into wire text.
//!
//! The price oracle takes a JSON request naming the batch's fee and the
//! estimated gas cost; addresses travel as lowercase hex literals. Both are
//! assembled here as bytes, exactly specified, and only the final
//! bytes-to-`String` step is trusted.

use crate::address::EthAddr;
use crate::address::hex_value;
use crate::address::is_hex_digit;
use crate::arith::dec_value;
use crate::arith::is_dec_digit;
use crate::types::Erc20Token;
use crate::types::GasCost;
use vstd::prelude::*;

verus! {

use vstd::string::StrSliceExecFns;
use vstd::string::StringSliceAdditionalSpecFns;
use vstd::utf8::encode_utf8;
use vstd::utf8::is_ascii_chars;
use vstd::utf8::valid_utf8;

/// Relies on `String::from_utf8`: accepts exactly the byte strings that
/// decode as UTF-8, and the accepted string holds exactly the given bytes.
#[verifier::external_body]
fn bytes_to_string(v: Vec<u8>) -> (r: Option<String>)
    ensures
        r is Some <==> valid_utf8(v@),
        r is Some ==> encode_utf8(r->0@) == v@,
{
    match String::from_utf8(v) {
        Ok(s) => Some(s),
        Err(_) => None,
    }
}

/// A single byte below `0x80` is a valid UTF-8 scalar.
proof fn lemma_ascii_byte_valid_utf8(b: u8)
    requires
        b < 0x80,
    ensures
        valid_utf8(seq![b]),
{
    let s = seq![b];
    assert((b & 0x7F) == b) by (bit_vector)
        requires
            b < 0x80,
    ;
    assert(vstd::utf8::is_leading_byte_width_1(b));
    assert(vstd::utf8::length_of_first_codepoint(s) == 1);
    assert(vstd::utf8::decode_first_codepoint(s) == b as u32);
    assert(vstd::utf8::valid_first_scalar(s));
    assert(vstd::utf8::pop_first_scalar(s) =~= Seq::<u8>::empty());
    assert(valid_utf8(Seq::<u8>::empty()));
}

/// A byte string of ASCII bytes is valid UTF-8.
proof fn lemma_ascii_seq_valid_utf8(s: Seq<u8>)
    requires
        forall|i: int| 0 <= i < s.len() ==> s[i] < 0x80,
    ensures
        valid_utf8(s),
    decreases s.len(),
{
    if s.len() > 0 {
        assert(forall|i: int| 0 <= i < s.drop_last().len() ==> #[trigger] s.drop_last()[i] < 0x80);
        lemma_ascii_seq_valid_utf8(s.drop_last());
        lemma_ascii_byte_valid_utf8(s.last());
        vstd::utf8::valid_utf8_concat(s.drop_last(), seq![s.last()]);
        assert(s.drop_last() + seq![s.last()] =~= s);
    }
}

/// The decimal rendering of an integer, most significant digit first.
pub open spec fn spec_dec_bytes(n: int) -> Seq<u8>
    decreases n,
{
    if n < 10 {
        seq![(0x30 + if n >= 0 {
            n
        } else {
            0
        }) as u8]
    } else {
        spec_dec_bytes(n / 10).push((0x30 + n % 10) as u8)
    }
}

/// Renders an integer in decimal. The digits read back to the value.
pub fn dec_bytes(n: u128) -> (r: Vec<u8>)
    ensures
        r@ == spec_dec_bytes(n as int),
        r@.len() > 0,
        forall|i: int| 0 <= i < r@.len() ==> is_dec_digit(#[trigger] r@[i]),
        dec_value(r@) == n,
    decreases n,
{
    if n < 10 {
        let mut v: Vec<u8> = Vec::new();
        v.push(0x30 + (n as u8));
        proof {
            assert(v@ =~= seq![(0x30 + n as int) as u8]);
            assert(v@.drop_last() =~= Seq::<u8>::empty());
            assert(dec_value(v@.drop_last()) == 0);
            assert(v@.last() == (0x30 + n as int) as u8);
            assert(v@.last() - 0x30 == n);
            assert(dec_value(v@) == dec_value(v@.drop_last()) * 10 + (v@.last() - 0x30));
        }
        v
    } else {
        let mut v = dec_bytes(n / 10);
        let ghost pre = v@;
        v.push(0x30 + ((n % 10) as u8));
        proof {
            assert(v@.drop_last() =~= pre);
            assert(v@.last() == (0x30 + n as int % 10) as u8);
            assert(dec_value(v@) == dec_value(pre) * 10 + (n % 10));
            assert((n / 10) * 10 + n % 10 == n) by (nonlinear_arith);
        }
        v
    }
}

/// The fixed-width lowercase hex rendering of an integer.
pub open spec fn spec_hex_bytes(n: int, width: nat) -> Seq<u8>
    decreases width,
{
    if width == 0 {
        Seq::empty()
    } else {
        spec_hex_bytes(n / 16, (width - 1) as nat).push(spec_hex_digit(n % 16))
    }
}

/// The lowercase hex digit for a value below 16.
pub open spec fn spec_hex_digit(d: int) -> u8 {
    if d < 10 {
        (0x30 + d) as u8
    } else {
        (0x61 + (d - 10)) as u8
    }
}

/// Renders the low `width` hex digits of an integer, lowercase, most
/// significant first; exact when the value fits the width.
pub fn hex_bytes(n: u64, width: usize) -> (r: Vec<u8>)
    requires
        width <= 16,
    ensures
        r@ == spec_hex_bytes(n as int, width as nat),
        r@.len() == width,
        forall|i: int| 0 <= i < r@.len() ==> is_hex_digit(#[trigger] r@[i]) && r@[i] < 0x80,
        n < crate::address::pow16(width as nat) ==> hex_value(r@) == n,
    decreases width,
{
    if width == 0 {
        Vec::new()
    } else {
        let mut v = hex_bytes(n / 16, width - 1);
        let ghost pre = v@;
        let d = (n % 16) as u8;
        let digit: u8 = if d < 10 {
            0x30 + d
        } else {
            0x61 + (d - 10)
        };
        v.push(digit);
        proof {
            assert(v@.drop_last() =~= pre);
            assert(v@.last() == spec_hex_digit(n as int % 16));
            if n < crate::address::pow16(width as nat) {
                assert(n as int / 16 < crate::address::pow16((width - 1) as nat)) by {
                    assert(crate::address::pow16(width as nat) == 16 * crate::address::pow16(
                        (width - 1) as nat,
                    ));
                };
                assert(hex_value(v@) == hex_value(pre) * 16 + (n as int % 16));
                assert((n as int / 16) * 16 + n as int % 16 == n) by (nonlinear_arith);
            }
        }
        v
    }
}

/// The canonical lowercase form of an address: `0x` and 40 hex digits.
pub open spec fn spec_format_addr(a: EthAddr) -> Seq<u8> {
    "0x".spec_bytes() + spec_hex_bytes(a.hi as int, 16) + spec_hex_bytes(a.mid as int, 16)
        + spec_hex_bytes(a.lo as int, 8)
}

/// The address bytes: `0x` followed by the 40 digits, lowercase.
fn format_addr_bytes(a: &EthAddr) -> (r: Vec<u8>)
    ensures
        r@ == spec_format_addr(*a),
        valid_utf8(r@),
{
    let mut v = "0x".as_bytes_vec();
    let mut hi = hex_bytes(a.hi, 16);
    let mut mid = hex_bytes(a.mid, 16);
    let mut lo = hex_bytes(a.lo as u64, 8);
    let ghost hi_s = hi@;
    let ghost mid_s = mid@;
    let ghost lo_s = lo@;
    v.append(&mut hi);
    v.append(&mut mid);
    v.append(&mut lo);
    proof {
        assert(v@ =~= "0x".spec_bytes() + hi_s + mid_s + lo_s);
        vstd::utf8::encode_utf8_valid_utf8("0x"@);
        lemma_ascii_seq_valid_utf8(hi_s + mid_s + lo_s);
        vstd::utf8::valid_utf8_concat("0x".spec_bytes(), hi_s + mid_s + lo_s);
        assert("0x".spec_bytes() + (hi_s + mid_s + lo_s) =~= v@);
    }
    v
}

/// Formats an address the way the price table and the oracle expect it:
/// `0x` and 40 lowercase hex digits.
pub fn format_eth_address(a: &EthAddr) -> (r: String)
    ensures
        encode_utf8(r@) == spec_format_addr(*a),
{
    let v = format_addr_bytes(a);
    match bytes_to_string(v) {
        Some(s) => s,
        None => String::new(),
    }
}

/// The fixed-width rendering is exact and all hex digits: width many
/// digits that read back to the value, for values in range.
proof fn lemma_spec_hex_bytes_props(n: int, width: nat)
    requires
        0 <= n < crate::address::pow16(width),
    ensures
        spec_hex_bytes(n, width).len() == width,
        forall|i: int|
            0 <= i < width ==> is_hex_digit(#[trigger] spec_hex_bytes(n, width)[i]),
        hex_value(spec_hex_bytes(n, width)) == n,
    decreases width,
{
    if width == 0 {
    } else {
        let p = crate::address::pow16((width - 1) as nat);
        assert(crate::address::pow16(width) == 16 * p);
        vstd::arithmetic::div_mod::lemma_fundamental_div_mod(n, 16);
        assert(n / 16 < p) by (nonlinear_arith)
            requires
                n == 16 * (n / 16) + n % 16,
                0 <= n % 16 < 16,
                n < 16 * p,
        ;
        lemma_spec_hex_bytes_props(n / 16, (width - 1) as nat);
        let s = spec_hex_bytes(n, width);
        assert(s.drop_last() =~= spec_hex_bytes(n / 16, (width - 1) as nat));
        assert(s.last() == spec_hex_digit(n % 16));
        assert(hex_value(s) == hex_value(s.drop_last()) * 16 + crate::address::hex_digit_val(
            s.last(),
        ));
    }
}

/// Formatting an address and parsing the literal back round-trips: the
/// canonical lowercase form denotes exactly the address it was made from.
pub proof fn lemma_format_parse_round_trip(a: EthAddr)
    ensures
        crate::address::spec_parse_addr(spec_format_addr(a)) == Some(a),
{
    reveal_strlit("0x");
    vstd::utf8::is_ascii_chars_encode_utf8("0x"@);
    assert("0x".spec_bytes() =~= seq![0x30u8, 0x78u8]) by {
        assert("0x"@[0] == '0' && "0x"@[1] == 'x');
        assert(is_ascii_chars("0x"@)) by {
            assert('\0' <= "0x"@[0] <= '\u{7f}');
            assert('\0' <= "0x"@[1] <= '\u{7f}');
        }
        assert("0x".spec_bytes()[0] == '0' as u8 && "0x".spec_bytes()[1] == 'x' as u8);
    }
    assert(crate::address::pow16(16) == 0x1_0000_0000_0000_0000 && crate::address::pow16(8)
        == 0x1_0000_0000) by {
        reveal_with_fuel(crate::address::pow16, 17);
    }
    lemma_spec_hex_bytes_props(a.hi as int, 16);
    lemma_spec_hex_bytes_props(a.mid as int, 16);
    lemma_spec_hex_bytes_props(a.lo as int, 8);
    let fb = spec_format_addr(a);
    let h = spec_hex_bytes(a.hi as int, 16);
    let m = spec_hex_bytes(a.mid as int, 16);
    let l = spec_hex_bytes(a.lo as int, 8);
    assert(fb.len() == 42);
    assert(fb.subrange(2, 18) =~= h);
    assert(fb.subrange(18, 34) =~= m);
    assert(fb.subrange(34, 42) =~= l);
    assert(fb[0] == 0x30 && fb[1] == 0x78);
    assert forall|i: int| 2 <= i < 42 implies is_hex_digit(fb[i]) by {
        if i < 18 {
            assert(fb[i] == h[i - 2]);
        } else if i < 34 {
            assert(fb[i] == m[i - 18]);
        } else {
            assert(fb[i] == l[i - 34]);
        }
    }
    assert(crate::address::is_addr_literal(fb));
}

/// The oracle request: the batch's fee and the estimated cost, as the JSON
/// object the oracle expects.
pub open spec fn spec_oracle_request_bytes(batch_fee: Erc20Token, estimated_cost: GasCost) -> Seq<
    u8,
> {
    "{\"batchFee\":{\"amount\":".spec_bytes() + spec_dec_bytes(batch_fee.amount as int)
        + ",\"tokenContractAddress\":\"".spec_bytes() + spec_format_addr(
        batch_fee.token_contract_address,
    ) + "\"},\"estimatedCost\":{\"gas\":".spec_bytes() + spec_dec_bytes(estimated_cost.gas as int)
        + ",\"gasPrice\":".spec_bytes() + spec_dec_bytes(estimated_cost.gas_price as int)
        + "}}".spec_bytes()
}

/// All digits are ASCII.
proof fn lemma_dec_bytes_ascii(s: Seq<u8>)
    requires
        forall|i: int| 0 <= i < s.len() ==> is_dec_digit(#[trigger] s[i]),
    ensures
        forall|i: int| 0 <= i < s.len() ==> #[trigger] s[i] < 0x80,
{
}

/// Builds the oracle's request body for one batch.
pub fn oracle_request_body(batch_fee: &Erc20Token, estimated_cost: &GasCost) -> (r: String)
    ensures
        encode_utf8(r@) == spec_oracle_request_bytes(*batch_fee, *estimated_cost),
{
    let mut v = "{\"batchFee\":{\"amount\":".as_bytes_vec();
    let mut amount = dec_bytes(batch_fee.amount);
    let mut lit2 = ",\"tokenContractAddress\":\"".as_bytes_vec();
    let mut addr = format_addr_bytes(&batch_fee.token_contract_address);
    let mut lit3 = "\"},\"estimatedCost\":{\"gas\":".as_bytes_vec();
    let mut gas = dec_bytes(estimated_cost.gas);
    let mut lit4 = ",\"gasPrice\":".as_bytes_vec();
    let mut gas_price = dec_bytes(estimated_cost.gas_price);
    let mut lit5 = "}}".as_bytes_vec();
    let ghost pieces: Seq<Seq<u8>> = seq![
        v@,
        amount@,
        lit2@,
        addr@,
        lit3@,
        gas@,
        lit4@,
        gas_price@,
        lit5@,
    ];
    proof {
        vstd::utf8::encode_utf8_valid_utf8("{\"batchFee\":{\"amount\":"@);
        vstd::utf8::encode_utf8_valid_utf8(",\"tokenContractAddress\":\""@);
        vstd::utf8::encode_utf8_valid_utf8("\"},\"estimatedCost\":{\"gas\":"@);
        vstd::utf8::encode_utf8_valid_utf8(",\"gasPrice\":"@);
        vstd::utf8::encode_utf8_valid_utf8("}}"@);
        lemma_dec_bytes_ascii(amount@);
        lemma_dec_bytes_ascii(gas@);
        lemma_dec_bytes_ascii(gas_price@);
        lemma_ascii_seq_valid_utf8(amount@);
        lemma_ascii_seq_valid_utf8(gas@);
        lemma_ascii_seq_valid_utf8(gas_price@);
    }
    let ghost expected = spec_oracle_request_bytes(*batch_fee, *estimated_cost);
    v.append(&mut amount);
    proof {
        vstd::utf8::valid_utf8_concat(pieces[0], pieces[1]);
    }
    v.append(&mut lit2);
    proof {
        vstd::utf8::valid_utf8_concat(pieces[0] + pieces[1], pieces[2]);
    }
    v.append(&mut addr);
    proof {
        vstd::utf8::valid_utf8_concat(pieces[0] + pieces[1] + pieces[2], pieces[3]);
    }
    v.append(&mut lit3);
    proof {
        vstd::utf8::valid_utf8_concat(pieces[0] + pieces[1] + pieces[2] + pieces[3], pieces[4]);
    }
    v.append(&mut gas);
    proof {
        vstd::utf8::valid_utf8_concat(
            pieces[0] + pieces[1] + pieces[2] + pieces[3] + pieces[4],
            pieces[5],
        );
    }
    v.append(&mut lit4);
    proof {
        vstd::utf8::valid_utf8_concat(
            pieces[0] + pieces[1] + pieces[2] + pieces[3] + pieces[4] + pieces[5],
            pieces[6],
        );
    }
    v.append(&mut gas_price);
    proof {
        vstd::utf8::valid_utf8_concat(
            pieces[0] + pieces[1] + pieces[2] + pieces[3] + pieces[4] + pieces[5] + pieces[6],
            pieces[7],
        );
    }
    v.append(&mut lit5);
    proof {
        vstd::utf8::valid_utf8_concat(
            pieces[0] + pieces[1] + pieces[2] + pieces[3] + pieces[4] + pieces[5] + pieces[6]
                + pieces[7],
            pieces[8],
        );
        assert(v@ =~= pieces[0] + pieces[1] + pieces[2] + pieces[3] + pieces[4] + pieces[5]
            + pieces[6] + pieces[7] + pieces[8]);
        assert(v@ =~= expected);
    }
    match bytes_to_string(v) {
        Some(s) => s,
        None => String::new(),
    }
}

} // verus!
