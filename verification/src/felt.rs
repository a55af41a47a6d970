//! The library's model of a field-sized chain integer: an unsigned 256-bit
//! value held as four 64-bit limbs. Calldata and raw call results are ordered
//! sequences of these; the surrounding process converts them to and from the
//! chain SDK's own field type at the wire, while every computation on them —
//! equality, range checks, decimal and hexadecimal rendering — is done here.

use crate::digits::{
    dec_string, digit_char, hex_digit_val, hex_string, hex_value, is_hex_digit, is_hex_literal,
    lemma_hex_rep_round_trip, lemma_hex_value_extend_ge, rep,
};
use vstd::arithmetic::div_mod::{
    lemma_div_nonincreasing, lemma_fundamental_div_mod, lemma_mod_division_less_than_divisor,
    lemma_multiply_divide_lt,
};
use vstd::arithmetic::mul::lemma_mul_inequality;
use vstd::prelude::*;
use vstd::string::StringExecFns;

verus! {

/// An unsigned 256-bit value; `l0` is the least significant limb.
#[derive(Clone, Copy, PartialEq, Eq, Structural, Debug)]
pub struct Felt {
    pub l0: u64,
    pub l1: u64,
    pub l2: u64,
    pub l3: u64,
}

/// The number a `Felt` stands for.
pub open spec fn felt_value(f: Felt) -> nat {
    (f.l0 + f.l1 * 0x10000000000000000 + f.l2 * 0x100000000000000000000000000000000 + f.l3
        * 0x1000000000000000000000000000000000000000000000000) as nat
}

/// Combining per-limb division steps (most significant limb first, remainder
/// carried down) yields the quotient and remainder of the whole value.
proof fn lemma_limb_div_combine(
    l0: int,
    l1: int,
    l2: int,
    l3: int,
    q0: int,
    q1: int,
    q2: int,
    q3: int,
    r0: int,
    r1: int,
    r2: int,
    r3: int,
    d: int,
)
    requires
        l3 == d * q3 + r3,
        r3 * 0x10000000000000000 + l2 == d * q2 + r2,
        r2 * 0x10000000000000000 + l1 == d * q1 + r1,
        r1 * 0x10000000000000000 + l0 == d * q0 + r0,
    ensures
        (q0 + q1 * 0x10000000000000000 + q2 * 0x100000000000000000000000000000000 + q3
            * 0x1000000000000000000000000000000000000000000000000) * d + r0 == l0 + l1
            * 0x10000000000000000 + l2 * 0x100000000000000000000000000000000 + l3
            * 0x1000000000000000000000000000000000000000000000000,
{
    assert((q0 + q1 * 0x10000000000000000 + q2 * 0x100000000000000000000000000000000 + q3
        * 0x1000000000000000000000000000000000000000000000000) * d + r0 == l0 + l1
        * 0x10000000000000000 + l2 * 0x100000000000000000000000000000000 + l3
        * 0x1000000000000000000000000000000000000000000000000) by (nonlinear_arith)
        requires
            l3 == d * q3 + r3,
            r3 * 0x10000000000000000 + l2 == d * q2 + r2,
            r2 * 0x10000000000000000 + l1 == d * q1 + r1,
            r1 * 0x10000000000000000 + l0 == d * q0 + r0,
    ;
}

impl Felt {
    /// A `Felt` holding a machine integer.
    pub fn from_u64(x: u64) -> (f: Felt)
        ensures
            felt_value(f) == x,
    {
        Felt { l0: x, l1: 0, l2: 0, l3: 0 }
    }

    /// The value as a machine integer, if it fits.
    pub fn to_u64(&self) -> (r: Option<u64>)
        ensures
            r is Some <==> felt_value(*self) < 0x10000000000000000,
            r matches Some(n) ==> n == felt_value(*self),
    {
        if self.l1 == 0 && self.l2 == 0 && self.l3 == 0 {
            Some(self.l0)
        } else {
            None
        }
    }

    pub fn is_zero(&self) -> (b: bool)
        ensures
            b <==> felt_value(*self) == 0,
    {
        self.l0 == 0 && self.l1 == 0 && self.l2 == 0 && self.l3 == 0
    }

    /// Quotient and remainder by a small divisor, the step behind digit
    /// extraction.
    pub fn divmod_small(&self, d: u64) -> (res: (Felt, u64))
        requires
            2 <= d <= 0x10000,
        ensures
            felt_value(res.0) * d + res.1 == felt_value(*self),
            res.1 < d,
            felt_value(res.0) <= felt_value(*self),
    {
        let dw = d as u128;
        let p64: u128 = 0x10000000000000000;

        let x3: u128 = self.l3 as u128;
        proof {
            lemma_mod_division_less_than_divisor(x3 as int, dw as int);
            lemma_div_nonincreasing(x3 as int, dw as int);
            lemma_fundamental_div_mod(x3 as int, dw as int);
        }
        let q3 = (x3 / dw) as u64;
        let r3 = (x3 % dw) as u64;

        let x2: u128 = (r3 as u128) * p64 + self.l2 as u128;
        proof {
            lemma_mul_inequality(r3 as int, dw as int - 1, p64 as int);
            lemma_multiply_divide_lt(x2 as int, dw as int, p64 as int);
            lemma_mod_division_less_than_divisor(x2 as int, dw as int);
            lemma_fundamental_div_mod(x2 as int, dw as int);
        }
        let q2 = (x2 / dw) as u64;
        let r2 = (x2 % dw) as u64;

        let x1: u128 = (r2 as u128) * p64 + self.l1 as u128;
        proof {
            lemma_mul_inequality(r2 as int, dw as int - 1, p64 as int);
            lemma_multiply_divide_lt(x1 as int, dw as int, p64 as int);
            lemma_mod_division_less_than_divisor(x1 as int, dw as int);
            lemma_fundamental_div_mod(x1 as int, dw as int);
        }
        let q1 = (x1 / dw) as u64;
        let r1 = (x1 % dw) as u64;

        let x0: u128 = (r1 as u128) * p64 + self.l0 as u128;
        proof {
            lemma_mul_inequality(r1 as int, dw as int - 1, p64 as int);
            lemma_multiply_divide_lt(x0 as int, dw as int, p64 as int);
            lemma_mod_division_less_than_divisor(x0 as int, dw as int);
            lemma_fundamental_div_mod(x0 as int, dw as int);
        }
        let q0 = (x0 / dw) as u64;
        let r0 = (x0 % dw) as u64;

        let q = Felt { l0: q0, l1: q1, l2: q2, l3: q3 };
        proof {
            lemma_limb_div_combine(
                self.l0 as int,
                self.l1 as int,
                self.l2 as int,
                self.l3 as int,
                q0 as int,
                q1 as int,
                q2 as int,
                q3 as int,
                r0 as int,
                r1 as int,
                r2 as int,
                r3 as int,
                d as int,
            );
            assert(felt_value(q) <= felt_value(*self)) by (nonlinear_arith)
                requires
                    felt_value(q) * d + r0 == felt_value(*self),
                    d >= 2,
                    r0 >= 0,
            ;
        }
        (q, r0 as u64)
    }
}

/// Digit characters of a little-endian digit sequence, most significant first.
spec fn digits_chars(ds: Seq<u64>) -> Seq<char> {
    Seq::new(ds.len(), |k: int| digit_char(ds[ds.len() - 1 - k] as nat))
}

proof fn lemma_digits_chars_push(ds: Seq<u64>, r: u64)
    ensures
        digits_chars(ds.push(r)) =~= seq![digit_char(r as nat)] + digits_chars(ds),
{
}

/// The character for one digit value.
fn digit_str(d: u64) -> (s: &'static str)
    requires
        d < 16,
    ensures
        s@ =~= seq![digit_char(d as nat)],
{
    proof {
        reveal_strlit("0");
        reveal_strlit("1");
        reveal_strlit("2");
        reveal_strlit("3");
        reveal_strlit("4");
        reveal_strlit("5");
        reveal_strlit("6");
        reveal_strlit("7");
        reveal_strlit("8");
        reveal_strlit("9");
        reveal_strlit("a");
        reveal_strlit("b");
        reveal_strlit("c");
        reveal_strlit("d");
        reveal_strlit("e");
        reveal_strlit("f");
    }
    match d {
        0 => "0",
        1 => "1",
        2 => "2",
        3 => "3",
        4 => "4",
        5 => "5",
        6 => "6",
        7 => "7",
        8 => "8",
        9 => "9",
        10 => "a",
        11 => "b",
        12 => "c",
        13 => "d",
        14 => "e",
        _ => "f",
    }
}

/// Renders a value in the given base by repeated division, most significant
/// digit first, without leading zeros.
fn fmt_radix(f: &Felt, base: u64) -> (s: String)
    requires
        base == 10 || base == 16,
    ensures
        s@ == rep(felt_value(*f), base as nat),
{
    let ghost v: nat = felt_value(*f);
    let mut digits: Vec<u64> = Vec::new();
    let mut cur: Felt = *f;
    while !cur.is_zero()
        invariant
            base == 10 || base == 16,
            v == felt_value(*f),
            forall|k: int| 0 <= k < digits@.len() ==> #[trigger] digits@[k] < base,
            felt_value(cur) > 0 ==> v > 0,
            felt_value(cur) > 0 ==> rep(v, base as nat) == rep(felt_value(cur), base as nat)
                + digits_chars(digits@),
            felt_value(cur) == 0 ==> ((v == 0 && digits@.len() == 0) || (v > 0 && rep(
                v,
                base as nat,
            ) == digits_chars(digits@))),
        decreases felt_value(cur),
    {
        let ghost c_before: nat = felt_value(cur);
        let (q, r) = cur.divmod_small(base);
        proof {
            assert(felt_value(q) < c_before) by (nonlinear_arith)
                requires
                    felt_value(q) * base + r == c_before,
                    base >= 2,
                    r >= 0,
                    c_before > 0,
            ;
            assert(felt_value(q) == c_before / base as nat && r == c_before % base as nat) by {
                lemma_fundamental_div_mod(c_before as int, base as int);
                assert((c_before - r) == felt_value(q) * base);
                vstd::arithmetic::div_mod::lemma_div_multiples_vanish_fancy(
                    felt_value(q) as int,
                    r as int,
                    base as int,
                );
            }
            lemma_digits_chars_push(digits@, r);
            if c_before >= base {
                assert(rep(c_before, base as nat) == rep(c_before / base as nat, base as nat)
                    + seq![digit_char((c_before % base as nat))]);
                assert(rep(v, base as nat) == rep(felt_value(q), base as nat) + digits_chars(
                    digits@.push(r),
                )) by {
                    assert((rep(felt_value(q), base as nat)
                        + seq![digit_char((c_before % base as nat))]) + digits_chars(digits@)
                        =~= rep(felt_value(q), base as nat) + (seq![
                        digit_char((c_before % base as nat)),
                    ] + digits_chars(digits@)));
                }
            } else {
                assert(rep(c_before, base as nat) == seq![digit_char(c_before)]);
                assert(rep(v, base as nat) == digits_chars(digits@.push(r))) by {
                    assert(seq![digit_char(c_before)] + digits_chars(digits@) =~= digits_chars(
                        digits@.push(r),
                    ));
                }
            }
        }
        digits.push(r);
        cur = q;
    }
    let mut s = String::new();
    if digits.len() == 0 {
        s.append("0");
        proof {
            reveal_strlit("0");
            assert(s@ =~= rep(0, base as nat));
        }
        return s;
    }
    let n = digits.len();
    let mut i: usize = n;
    while i > 0
        invariant
            n == digits@.len(),
            0 <= i <= n,
            forall|k: int| 0 <= k < digits@.len() ==> #[trigger] digits@[k] < base,
            base == 10 || base == 16,
            s@ =~= digits_chars(digits@).subrange(0, n - i),
        decreases i,
    {
        i = i - 1;
        let d = digits[i];
        s.append(digit_str(d));
        proof {
            assert(s@ =~= digits_chars(digits@).subrange(0, n - i));
        }
    }
    proof {
        assert(digits_chars(digits@).subrange(0, n as int) =~= digits_chars(digits@));
    }
    s
}

/// Decimal rendering, the form in which raw call results are handed on.
pub fn felt_to_dec(f: &Felt) -> (s: String)
    ensures
        s@ == dec_string(felt_value(*f)),
{
    fmt_radix(f, 10)
}

/// `0x`-prefixed lower-case hexadecimal rendering, the persisted form of
/// capital amounts, balances, prices and addresses.
pub fn felt_to_hex(f: &Felt) -> (s: String)
    ensures
        s@ == hex_string(felt_value(*f)),
{
    let mut s = String::from_str("0x");
    let tail = fmt_radix(f, 16);
    s.append(tail.as_str());
    proof {
        reveal_strlit("0x");
        assert(s@ =~= hex_string(felt_value(*f)));
    }
    s
}

/// Parses a `0x`-prefixed hexadecimal literal, either letter case, into a
/// `Felt`; anything else — a missing prefix, a non-digit character, no
/// digits at all, or a value of more than 256 bits — is rejected. This is
/// how persisted hexadecimal fields (addresses, strike prices) come back
/// into calldata.
pub fn felt_from_hex(s: &str) -> (r: Option<Felt>)
    ensures
        r is Some <==> is_hex_literal(s@) && hex_value(s@.skip(2))
            < 0x10000000000000000000000000000000000000000000000000000000000000000,
        r matches Some(f) ==> felt_value(f) == hex_value(s@.skip(2)),
{
    let len = s.unicode_len();
    if len < 3 {
        return None;
    }
    if s.get_char(0) as u32 != 48 || s.get_char(1) as u32 != 120 {
        proof {
            assert(s@[0] != '0' || s@[1] != 'x');
        }
        return None;
    }
    let p64: u128 = 0x10000000000000000;
    let mut f = Felt { l0: 0, l1: 0, l2: 0, l3: 0 };
    let mut i: usize = 2;
    while i < len
        invariant
            2 <= i <= len,
            len == s@.len(),
            p64 == 0x10000000000000000,
            forall|k: int| 2 <= k < i ==> is_hex_digit(#[trigger] s@[k]),
            felt_value(f) == hex_value(s@.subrange(2, i as int)),
        decreases len - i,
    {
        let c = s.get_char(i);
        let code = c as u32;
        let d: u64 = if 48 <= code && code <= 57 {
            (code - 48) as u64
        } else if 97 <= code && code <= 102 {
            (code - 87) as u64
        } else if 65 <= code && code <= 70 {
            (code - 55) as u64
        } else {
            proof {
                assert(!is_hex_digit(s@[i as int]));
            }
            return None;
        };
        proof {
            assert(is_hex_digit(s@[i as int]) && d == hex_digit_val(s@[i as int]));
        }
        let t0: u128 = (f.l0 as u128) * 16 + d as u128;
        proof {
            lemma_fundamental_div_mod(t0 as int, p64 as int);
            lemma_mod_division_less_than_divisor(t0 as int, p64 as int);
            lemma_multiply_divide_lt(t0 as int, p64 as int, 16);
        }
        let t1: u128 = (f.l1 as u128) * 16 + t0 / p64;
        proof {
            lemma_fundamental_div_mod(t1 as int, p64 as int);
            lemma_mod_division_less_than_divisor(t1 as int, p64 as int);
            lemma_multiply_divide_lt(t1 as int, p64 as int, 16);
        }
        let t2: u128 = (f.l2 as u128) * 16 + t1 / p64;
        proof {
            lemma_fundamental_div_mod(t2 as int, p64 as int);
            lemma_mod_division_less_than_divisor(t2 as int, p64 as int);
            lemma_multiply_divide_lt(t2 as int, p64 as int, 16);
        }
        let t3: u128 = (f.l3 as u128) * 16 + t2 / p64;
        let ghost prefix = s@.subrange(2, i as int);
        let ghost prefix1 = s@.subrange(2, i + 1);
        proof {
            assert(prefix1.drop_last() =~= prefix);
            assert(prefix1.last() == s@[i as int]);
        }
        if t3 >= p64 {
            proof {
                assert(hex_value(prefix1) >= p64 * p64 * p64 * p64) by (nonlinear_arith)
                    requires
                        hex_value(prefix1) == felt_value(f) * 16 + d,
                        felt_value(f) == (f.l0 + f.l1 * 0x10000000000000000 + f.l2
                            * 0x100000000000000000000000000000000 + f.l3
                            * 0x1000000000000000000000000000000000000000000000000) as nat,
                        t0 == f.l0 * 16 + d,
                        t1 == f.l1 * 16 + t0 / 0x10000000000000000,
                        t2 == f.l2 * 16 + t1 / 0x10000000000000000,
                        t3 == f.l3 * 16 + t2 / 0x10000000000000000,
                        t0 == 0x10000000000000000 * (t0 / 0x10000000000000000) + t0
                            % 0x10000000000000000,
                        t1 == 0x10000000000000000 * (t1 / 0x10000000000000000) + t1
                            % 0x10000000000000000,
                        t2 == 0x10000000000000000 * (t2 / 0x10000000000000000) + t2
                            % 0x10000000000000000,
                        0 <= t0 % 0x10000000000000000,
                        0 <= t1 % 0x10000000000000000,
                        0 <= t2 % 0x10000000000000000,
                        t3 >= 0x10000000000000000,
                        p64 == 0x10000000000000000,
                ;
                assert(s@.skip(2) =~= prefix1 + s@.subrange(i + 1, s@.len() as int));
                lemma_hex_value_extend_ge(prefix1, s@.subrange(i + 1, s@.len() as int));
            }
            return None;
        }
        let g = Felt {
            l0: (t0 % p64) as u64,
            l1: (t1 % p64) as u64,
            l2: (t2 % p64) as u64,
            l3: t3 as u64,
        };
        proof {
            assert(felt_value(g) == felt_value(f) * 16 + d) by (nonlinear_arith)
                requires
                    felt_value(f) == (f.l0 + f.l1 * 0x10000000000000000 + f.l2
                        * 0x100000000000000000000000000000000 + f.l3
                        * 0x1000000000000000000000000000000000000000000000000) as nat,
                    felt_value(g) == (g.l0 + g.l1 * 0x10000000000000000 + g.l2
                        * 0x100000000000000000000000000000000 + g.l3
                        * 0x1000000000000000000000000000000000000000000000000) as nat,
                    t0 == f.l0 * 16 + d,
                    t1 == f.l1 * 16 + t0 / 0x10000000000000000,
                    t2 == f.l2 * 16 + t1 / 0x10000000000000000,
                    t3 == f.l3 * 16 + t2 / 0x10000000000000000,
                    t0 == 0x10000000000000000 * (t0 / 0x10000000000000000) + g.l0,
                    t1 == 0x10000000000000000 * (t1 / 0x10000000000000000) + g.l1,
                    t2 == 0x10000000000000000 * (t2 / 0x10000000000000000) + g.l2,
                    g.l3 == t3,
            ;
        }
        f = g;
        i = i + 1;
    }
    proof {
        assert(s@.subrange(2, len as int) =~= s@.skip(2));
        assert(felt_value(f) < 0x10000000000000000000000000000000000000000000000000000000000000000);
    }
    Some(f)
}

/// The hexadecimal rendering of a value parses back to it: the persisted
/// form loses nothing.
pub proof fn lemma_hex_round_trip(f: Felt)
    ensures
        is_hex_literal(hex_string(felt_value(f))),
        hex_value(hex_string(felt_value(f)).skip(2)) == felt_value(f),
{
    lemma_hex_rep_round_trip(felt_value(f));
    let s = hex_string(felt_value(f));
    assert(s.skip(2) =~= rep(felt_value(f), 16));
    assert forall|i: int| 2 <= i < s.len() implies is_hex_digit(s[i]) by {
        assert(s[i] == rep(felt_value(f), 16)[i - 2]);
    }
}

} // verus!
