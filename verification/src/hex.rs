//! Lowercase hexadecimal rendering and parsing of byte counts, as used by
//! the TEXT frame length field.  The rendering matches two-digit-minimum
//! formatting: values below 16 get a leading zero, larger values are
//! written with no padding.

use vstd::arithmetic::div_mod::lemma_div_is_strictly_smaller;
use vstd::arithmetic::div_mod::lemma_fundamental_div_mod;
use vstd::prelude::*;

verus! {

/// The ASCII byte for hex digit `d` (lowercase letters).
pub open spec fn hex_digit(d: nat) -> u8
    recommends
        d < 16,
{
    if d < 10 {
        (48 + d) as u8
    } else {
        (87 + d) as u8
    }
}

/// ASCII bytes `0`-`9` and lowercase `a`-`f`.
pub open spec fn is_hex_digit(b: u8) -> bool {
    (48 <= b && b <= 57) || (97 <= b && b <= 102)
}

/// The value of one hex digit byte.
pub open spec fn hex_val(b: u8) -> nat
    recommends
        is_hex_digit(b),
{
    if b <= 57 {
        (b - 48) as nat
    } else {
        (b - 87) as nat
    }
}

/// Hex rendering of `n` with no padding: most significant digit first,
/// a single `0` for zero.
pub open spec fn hex_rep(n: nat) -> Seq<u8>
    decreases n,
    via hex_rep_decreases
{
    if n < 16 {
        seq![hex_digit(n)]
    } else {
        hex_rep(n / 16).push(hex_digit(n % 16))
    }
}

#[via_fn]
proof fn hex_rep_decreases(n: nat) {
    if 16 <= n {
        lemma_div_is_strictly_smaller(n as int, 16);
    }
}

/// Hex rendering of `n`, zero-padded on the left to at least two digits.
pub open spec fn hex_width2(n: nat) -> Seq<u8> {
    if n < 16 {
        seq![48u8, hex_digit(n)]
    } else {
        hex_rep(n)
    }
}

/// The number a big-endian string of hex digit bytes denotes.
pub open spec fn hex_value(s: Seq<u8>) -> nat
    decreases s.len(),
{
    if s.len() == 0 {
        0
    } else {
        hex_value(s.drop_last()) * 16 + hex_val(s.last())
    }
}

/// Each digit byte round-trips through its value.
pub proof fn lemma_hex_digit_props(d: nat)
    requires
        d < 16,
    ensures
        is_hex_digit(hex_digit(d)),
        hex_val(hex_digit(d)) == d,
{
}

/// Appending a digit multiplies the value by 16 and adds the digit.
pub proof fn lemma_hex_value_push(s: Seq<u8>, b: u8)
    ensures
        hex_value(s.push(b)) == hex_value(s) * 16 + hex_val(b),
{
    assert(s.push(b).drop_last() =~= s);
    assert(s.push(b).last() == b);
    assert(s.push(b).len() == s.len() + 1);
}

/// The unpadded rendering consists of hex digits and denotes `n`.
pub proof fn lemma_hex_rep_value(n: nat)
    ensures
        hex_rep(n).len() >= 1,
        forall|i: int| 0 <= i < hex_rep(n).len() ==> is_hex_digit(#[trigger] hex_rep(n)[i]),
        hex_value(hex_rep(n)) == n,
        16 <= n ==> hex_rep(n).len() >= 2,
    decreases n,
{
    if n < 16 {
        lemma_hex_digit_props(n);
        assert(hex_rep(n) =~= seq![hex_digit(n)]);
        assert(hex_rep(n).drop_last() =~= Seq::<u8>::empty());
        assert(hex_value(hex_rep(n)) == hex_value(Seq::<u8>::empty()) * 16 + hex_val(hex_digit(n)));
    } else {
        lemma_div_is_strictly_smaller(n as int, 16);
        lemma_hex_rep_value(n / 16);
        lemma_hex_digit_props(n % 16);
        lemma_hex_value_push(hex_rep(n / 16), hex_digit(n % 16));
        lemma_fundamental_div_mod(n as int, 16);
        assert(forall|i: int|
            0 <= i < hex_rep(n).len() ==> is_hex_digit(#[trigger] hex_rep(n)[i])) by {
            assert(hex_rep(n) == hex_rep(n / 16).push(hex_digit(n % 16)));
            assert(forall|i: int|
                0 <= i < hex_rep(n / 16).len() ==> hex_rep(n)[i] == #[trigger] hex_rep(n / 16)[i]);
            assert(hex_rep(n)[hex_rep(n).len() - 1] == hex_digit(n % 16));
        }
    }
}

/// The padded rendering consists of hex digits, is at least two digits
/// long, and denotes `n`.
pub proof fn lemma_hex_width2_value(n: nat)
    ensures
        hex_width2(n).len() >= 2,
        forall|i: int| 0 <= i < hex_width2(n).len() ==> is_hex_digit(#[trigger] hex_width2(n)[i]),
        hex_value(hex_width2(n)) == n,
{
    if n < 16 {
        lemma_hex_digit_props(n);
        let s = hex_width2(n);
        assert(s == seq![48u8, hex_digit(n)]);
        assert(s.drop_last() =~= seq![48u8]);
        assert(s.drop_last().drop_last() =~= Seq::<u8>::empty());
        assert(hex_value(s.drop_last()) == hex_value(Seq::<u8>::empty()) * 16 + hex_val(48u8));
        assert(hex_value(s) == hex_value(s.drop_last()) * 16 + hex_val(hex_digit(n)));
    } else {
        lemma_hex_rep_value(n);
    }
}

/// The exec form of `hex_digit`.
pub fn hex_digit_byte(d: u8) -> (r: u8)
    requires
        d < 16,
    ensures
        r == hex_digit(d as nat),
{
    if d < 10 {
        48 + d
    } else {
        87 + d
    }
}

/// Recognize a hex digit byte.
pub fn is_hex_digit_byte(b: u8) -> (r: bool)
    ensures
        r == is_hex_digit(b),
{
    (48 <= b && b <= 57) || (97 <= b && b <= 102)
}

/// The value of a hex digit byte.
pub fn hex_val_byte(b: u8) -> (r: u8)
    requires
        is_hex_digit(b),
    ensures
        r as nat == hex_val(b),
        r < 16,
{
    if b <= 57 {
        b - 48
    } else {
        b - 87
    }
}

/// Render `n` in lowercase hex with no padding.
pub fn hex_rep_vec(n: usize) -> (r: Vec<u8>)
    ensures
        r@ == hex_rep(n as nat),
    decreases n,
{
    if n < 16 {
        let mut v: Vec<u8> = Vec::new();
        v.push(hex_digit_byte(n as u8));
        assert(v@ =~= hex_rep(n as nat));
        v
    } else {
        proof {
            lemma_div_is_strictly_smaller(n as int, 16);
        }
        let mut v = hex_rep_vec(n / 16);
        v.push(hex_digit_byte((n % 16) as u8));
        assert(v@ =~= hex_rep(n as nat));
        v
    }
}

/// Render `n` in lowercase hex, zero-padded to at least two digits.
pub fn hex_width2_vec(n: usize) -> (r: Vec<u8>)
    ensures
        r@ == hex_width2(n as nat),
{
    if n < 16 {
        let mut v: Vec<u8> = Vec::new();
        v.push(48u8);
        v.push(hex_digit_byte(n as u8));
        assert(v@ =~= hex_width2(n as nat));
        v
    } else {
        hex_rep_vec(n)
    }
}

} // verus!
