//! Decimal and hexadecimal digit strings: the textual form in which numeric
//! chain values travel once they leave the wire (hexadecimal once persisted,
//! decimal transiently for small integer fields), and the parser that reads
//! small decimal fields back.

use vstd::arithmetic::div_mod::{lemma_div_decreases, lemma_fundamental_div_mod};
use vstd::prelude::*;

verus! {

/// The character for a single digit value (digits above 9 are lower-case).
pub open spec fn digit_char(d: nat) -> char {
    if d == 0 {
        '0'
    } else if d == 1 {
        '1'
    } else if d == 2 {
        '2'
    } else if d == 3 {
        '3'
    } else if d == 4 {
        '4'
    } else if d == 5 {
        '5'
    } else if d == 6 {
        '6'
    } else if d == 7 {
        '7'
    } else if d == 8 {
        '8'
    } else if d == 9 {
        '9'
    } else if d == 10 {
        'a'
    } else if d == 11 {
        'b'
    } else if d == 12 {
        'c'
    } else if d == 13 {
        'd'
    } else if d == 14 {
        'e'
    } else {
        'f'
    }
}

/// Digit string of `n` in the given base, most significant digit first,
/// without leading zeros (`0` itself is the single digit `0`).
pub open spec fn rep(n: nat, base: nat) -> Seq<char>
    decreases n,
    when 2 <= base
    via rep_decreases
{
    if n < base {
        seq![digit_char(n)]
    } else {
        rep(n / base, base) + seq![digit_char(n % base)]
    }
}

#[via_fn]
proof fn rep_decreases(n: nat, base: nat) {
    if n >= base {
        lemma_div_decreases(n as int, base as int);
    }
}

/// Decimal rendering of a number, as the chain client prints raw call results.
pub open spec fn dec_string(n: nat) -> Seq<char> {
    rep(n, 10)
}

/// `0x`-prefixed lower-case hexadecimal rendering, the persisted form of
/// numeric chain values.
pub open spec fn hex_string(n: nat) -> Seq<char> {
    seq!['0', 'x'] + rep(n, 16)
}

pub open spec fn is_dec_digit(c: char) -> bool {
    '0' <= c && c <= '9'
}

pub open spec fn dec_digit_val(c: char) -> nat {
    (c as nat - '0' as nat) as nat
}

/// A non-empty string of decimal digits.
pub open spec fn is_dec_string(s: Seq<char>) -> bool {
    s.len() > 0 && forall|i: int| 0 <= i < s.len() ==> is_dec_digit(#[trigger] s[i])
}

/// Value of a digit string read most significant digit first.
pub open spec fn dec_value(s: Seq<char>) -> nat
    decreases s.len(),
{
    if s.len() == 0 {
        0
    } else {
        dec_value(s.drop_last()) * 10 + dec_digit_val(s.last())
    }
}

/// Appending further digits can only grow the value of a digit string.
proof fn lemma_dec_value_extend_ge(p: Seq<char>, t: Seq<char>)
    ensures
        dec_value(p + t) >= dec_value(p),
    decreases t.len(),
{
    if t.len() == 0 {
        assert(p + t =~= p);
    } else {
        assert((p + t).drop_last() =~= p + t.drop_last());
        lemma_dec_value_extend_ge(p, t.drop_last());
    }
}

pub open spec fn is_hex_digit(c: char) -> bool {
    ('0' <= c && c <= '9') || ('a' <= c && c <= 'f') || ('A' <= c && c <= 'F')
}

pub open spec fn hex_digit_val(c: char) -> nat {
    if '0' <= c && c <= '9' {
        (c as nat - '0' as nat) as nat
    } else if 'a' <= c && c <= 'f' {
        (c as nat - 'a' as nat + 10) as nat
    } else {
        (c as nat - 'A' as nat + 10) as nat
    }
}

/// Value of a hexadecimal digit string read most significant digit first.
pub open spec fn hex_value(s: Seq<char>) -> nat
    decreases s.len(),
{
    if s.len() == 0 {
        0
    } else {
        hex_value(s.drop_last()) * 16 + hex_digit_val(s.last())
    }
}

/// A `0x`-prefixed string of at least one hexadecimal digit, either letter
/// case.
pub open spec fn is_hex_literal(s: Seq<char>) -> bool {
    s.len() >= 3 && s[0] == '0' && s[1] == 'x' && (forall|i: int|
        2 <= i < s.len() ==> is_hex_digit(#[trigger] s[i]))
}

/// Appending further digits can only grow the value of a hex digit string.
pub proof fn lemma_hex_value_extend_ge(p: Seq<char>, t: Seq<char>)
    ensures
        hex_value(p + t) >= hex_value(p),
    decreases t.len(),
{
    if t.len() == 0 {
        assert(p + t =~= p);
    } else {
        assert((p + t).drop_last() =~= p + t.drop_last());
        lemma_hex_value_extend_ge(p, t.drop_last());
    }
}

/// The character of a digit value reads back as that value.
proof fn lemma_digit_char_val(d: nat)
    requires
        d < 16,
    ensures
        is_hex_digit(digit_char(d)),
        hex_digit_val(digit_char(d)) == d,
{
}

/// The hexadecimal rendering of a number reads back as that number, digit
/// for digit.
pub proof fn lemma_hex_rep_round_trip(n: nat)
    ensures
        forall|i: int| 0 <= i < rep(n, 16).len() ==> is_hex_digit(#[trigger] rep(n, 16)[i]),
        hex_value(rep(n, 16)) == n,
    decreases n,
{
    vstd::arithmetic::div_mod::lemma_fundamental_div_mod(n as int, 16);
    if n < 16 {
        lemma_digit_char_val(n);
        let one = seq![digit_char(n)];
        assert(rep(n, 16) == one);
        assert(one.drop_last() =~= Seq::<char>::empty());
        assert(one.last() == digit_char(n));
        assert(hex_value(one) == hex_value(one.drop_last()) * 16 + hex_digit_val(digit_char(n)));
    } else {
        lemma_div_decreases(n as int, 16);
        lemma_hex_rep_round_trip(n / 16);
        lemma_digit_char_val(n % 16);
        let whole = rep(n, 16);
        assert(whole =~= rep(n / 16, 16) + seq![digit_char(n % 16)]);
        assert(whole.drop_last() =~= rep(n / 16, 16));
        assert(whole.last() == digit_char(n % 16));
        assert forall|i: int| 0 <= i < whole.len() implies is_hex_digit(whole[i]) by {
            if i < whole.len() - 1 {
                assert(whole[i] == rep(n / 16, 16)[i]);
            }
        }
    }
}

/// Parses a non-empty all-decimal string into a `u64`; anything else — an
/// empty string, a non-digit character, or a value above `u64::MAX` — is
/// rejected. This is the transient decimal parse applied to small integer
/// fields of chain results (an option's side, type, or expiry).
pub fn parse_dec_u64(s: &str) -> (r: Option<u64>)
    ensures
        r is Some <==> is_dec_string(s@) && dec_value(s@) <= u64::MAX,
        r matches Some(n) ==> n == dec_value(s@),
{
    let len = s.unicode_len();
    if len == 0 {
        return None;
    }
    let mut acc: u64 = 0;
    let mut i: usize = 0;
    while i < len
        invariant
            0 <= i <= len,
            len == s@.len(),
            forall|k: int| 0 <= k < i ==> is_dec_digit(#[trigger] s@[k]),
            acc == dec_value(s@.subrange(0, i as int)),
        decreases len - i,
    {
        let c = s.get_char(i);
        let code = c as u32;
        if code < 48 || code > 57 {
            assert(!is_dec_digit(s@[i as int]));
            return None;
        }
        let d: u64 = (code - 48) as u64;
        assert(is_dec_digit(s@[i as int]) && d == dec_digit_val(s@[i as int]));
        let wide: u128 = (acc as u128) * 10 + (d as u128);
        if wide > u64::MAX as u128 {
            proof {
                let p = s@.subrange(0, i + 1);
                assert(p.drop_last() =~= s@.subrange(0, i as int));
                assert(p.last() == s@[i as int]);
                assert(dec_value(p) == acc * 10 + d);
                assert(s@ =~= p + s@.subrange(i + 1, s@.len() as int));
                lemma_dec_value_extend_ge(p, s@.subrange(i + 1, s@.len() as int));
            }
            return None;
        }
        acc = wide as u64;
        proof {
            let p = s@.subrange(0, i + 1);
            assert(p.drop_last() =~= s@.subrange(0, i as int));
            assert(p.last() == s@[i as int]);
        }
        i = i + 1;
    }
    proof {
        assert(s@.subrange(0, len as int) =~= s@);
    }
    Some(acc)
}

} // verus!
