//! Exact decimal numbers for quantity cells. A cell is parsed into a sign, an
//! integer mantissa and a decimal scale, so that the positivity filter and the
//! report contracts can speak of the value without floating point. The
//! accepted shape is an optional sign, then digits with at most one decimal
//! point and at least one digit in all; at most eighteen digits are
//! representable, anything else (an exponent, a word) is unparsable. The
//! valuation variant rewrites the comma decimal separator to a dot before
//! parsing.

use vstd::prelude::*;
use crate::text::{is_digit, digit_val};

verus! {

/// A signed decimal number: the value is `mantissa / 10^scale`, negated when
/// `neg` holds.
#[derive(Debug, Clone, Copy, PartialEq, Eq, Structural)]
pub struct Dec {
    pub neg: bool,
    pub mantissa: u64,
    pub scale: u32,
}

impl Dec {
    /// The number zero, the default for an unparsable cell.
    pub open spec fn spec_zero() -> Dec {
        Dec { neg: false, mantissa: 0, scale: 0 }
    }

    /// Strictly positive value.
    pub open spec fn is_pos(self) -> bool {
        !self.neg && self.mantissa > 0
    }

    /// The number zero, the default for an unparsable cell.
    pub fn zero() -> (r: Dec)
        ensures
            r == Dec::spec_zero(),
    {
        Dec { neg: false, mantissa: 0, scale: 0 }
    }

    /// Whether the value is strictly positive.
    pub fn positive(&self) -> (r: bool)
        ensures
            r == self.is_pos(),
    {
        !self.neg && self.mantissa > 0
    }
}

/// Ten to the power `e`.
pub open spec fn pow10(e: nat) -> nat
    decreases e,
{
    if e == 0 {
        1
    } else {
        10 * pow10((e - 1) as nat)
    }
}

/// The index of the first decimal point of `s`, or `s.len()` if there is
/// none.
pub open spec fn first_dot(s: Seq<char>) -> int
    decreases s.len(),
{
    if s.len() == 0 {
        0
    } else if s[0] == '.' {
        0
    } else {
        1 + first_dot(s.drop_first())
    }
}

pub proof fn lemma_first_dot(s: Seq<char>)
    ensures
        0 <= first_dot(s) <= s.len(),
        forall|i: int| 0 <= i < first_dot(s) ==> s[i] != '.',
        first_dot(s) < s.len() ==> s[first_dot(s)] == '.',
    decreases s.len(),
{
    if s.len() == 0 {
    } else if s[0] == '.' {
    } else {
        lemma_first_dot(s.drop_first());
        assert forall|i: int| 0 <= i < first_dot(s) implies s[i] != '.' by {
            if i > 0 {
                assert(s.drop_first()[i - 1] == s[i]);
            }
        }
        if first_dot(s) < s.len() {
            assert(s.drop_first()[first_dot(s) - 1] == s[first_dot(s)]);
        }
    }
}

/// Whether `s` opens with a sign character.
pub open spec fn has_sign(s: Seq<char>) -> bool {
    s.len() > 0 && (s[0] == '-' || s[0] == '+')
}

/// Whether `s` opens with a minus sign.
pub open spec fn is_negative(s: Seq<char>) -> bool {
    s.len() > 0 && s[0] == '-'
}

/// `s` without its sign, if any.
pub open spec fn body_of(s: Seq<char>) -> Seq<char> {
    if has_sign(s) {
        s.drop_first()
    } else {
        s
    }
}

/// The digits before the decimal point.
pub open spec fn int_digits(s: Seq<char>) -> Seq<char> {
    body_of(s).take(first_dot(body_of(s)))
}

/// The digits after the decimal point; empty when there is no point.
pub open spec fn frac_digits(s: Seq<char>) -> Seq<char> {
    let b = body_of(s);
    if first_dot(b) < b.len() {
        b.skip(first_dot(b) + 1)
    } else {
        Seq::empty()
    }
}

pub open spec fn all_digits(s: Seq<char>) -> bool {
    forall|i: int| 0 <= i < s.len() ==> is_digit(s[i])
}

/// The value of a digit string, most significant digit first.
pub open spec fn digits_to_nat(s: Seq<char>) -> nat
    decreases s.len(),
{
    if s.len() == 0 {
        0
    } else {
        digits_to_nat(s.drop_last()) * 10 + digit_val(s.last())
    }
}

/// Whether `s` has the accepted decimal shape and fits the representation:
/// an optional sign, digit runs around at most one decimal point, at least
/// one digit in all and at most eighteen.
pub open spec fn dec_parsable(s: Seq<char>) -> bool {
    &&& all_digits(int_digits(s))
    &&& all_digits(frac_digits(s))
    &&& int_digits(s).len() + frac_digits(s).len() >= 1
    &&& int_digits(s).len() + frac_digits(s).len() <= 18
}

/// The parse of a cell: its sign, its digits as one mantissa, and the length
/// of the fractional run as the scale; `None` when the shape is not accepted.
pub open spec fn parse_dec(s: Seq<char>) -> Option<Dec> {
    if dec_parsable(s) {
        Some(
            Dec {
                neg: is_negative(s),
                mantissa: digits_to_nat(int_digits(s) + frac_digits(s)) as u64,
                scale: frac_digits(s).len() as u32,
            },
        )
    } else {
        None
    }
}

/// The parse of a cell, with zero standing in for an unparsable one.
pub open spec fn parse_or_zero(s: Seq<char>) -> Dec {
    match parse_dec(s) {
        Some(d) => d,
        None => Dec::spec_zero(),
    }
}

/// `s` with every comma rewritten to a decimal point.
pub open spec fn commas_to_dots(s: Seq<char>) -> Seq<char> {
    Seq::new(s.len(), |i: int| if s[i] == ',' { '.' } else { s[i] })
}

/// A digit string is bounded by ten to the power of its length.
pub proof fn lemma_digits_bound(s: Seq<char>)
    requires
        all_digits(s),
    ensures
        digits_to_nat(s) < pow10(s.len()),
    decreases s.len(),
{
    if s.len() == 0 {
    } else {
        assert(all_digits(s.drop_last())) by {
            assert(forall|i: int| 0 <= i < s.len() - 1 ==> s.drop_last()[i] == s[i]);
        }
        lemma_digits_bound(s.drop_last());
        assert(digit_val(s.last()) <= 9);
    }
}

pub proof fn lemma_pow10_18()
    ensures
        pow10(18) == 1_000_000_000_000_000_000,
{
    reveal_with_fuel(pow10, 19);
    assert(pow10(18) == 1_000_000_000_000_000_000);
}

/// Appending one digit multiplies by ten and adds its value.
pub proof fn lemma_digits_push(s: Seq<char>, c: char)
    ensures
        digits_to_nat(s.push(c)) == digits_to_nat(s) * 10 + digit_val(c),
{
    assert(s.push(c).drop_last() =~= s);
    assert(s.push(c).last() == c);
}

fn norm_char(s: &str, i: usize, comma_as_dot: bool) -> (c: char)
    requires
        i < s@.len(),
    ensures
        c == (if comma_as_dot {
            commas_to_dots(s@)
        } else {
            s@
        })[i as int],
{
    let c0 = s.get_char(i);
    if comma_as_dot && c0 == ',' {
        '.'
    } else {
        c0
    }
}

/// Parses a cell as a signed decimal number; with `comma_as_dot`, a comma
/// counts as the decimal point. Returns `None` exactly when the cell does not
/// have the accepted decimal shape.
pub fn parse_decimal(s: &str, comma_as_dot: bool) -> (r: Option<Dec>)
    ensures
        r == parse_dec(
            if comma_as_dot {
                commas_to_dots(s@)
            } else {
                s@
            },
        ),
{
    let ghost t: Seq<char> = if comma_as_dot {
        commas_to_dots(s@)
    } else {
        s@
    };
    let n = s.unicode_len();
    proof {
        assert(t.len() == n);
    }
    let mut neg = false;
    let mut signed = false;
    if n > 0 {
        let c0 = norm_char(s, 0, comma_as_dot);
        neg = c0 == '-';
        signed = neg || c0 == '+';
    }
    let i0: usize = if signed {
        1
    } else {
        0
    };
    let ghost b = body_of(t);
    proof {
        assert(neg == is_negative(t));
        assert(signed == has_sign(t));
        assert(b =~= t.skip(i0 as int));
        assert(b.len() == n - i0);
    }
    // Find the first decimal point at or after the sign.
    let mut dp: usize = i0;
    while dp < n && norm_char(s, dp, comma_as_dot) != '.'
        invariant
            i0 <= dp <= n,
            n == t.len(),
            n == s@.len(),
            t == (if comma_as_dot {
                commas_to_dots(s@)
            } else {
                s@
            }),
            b == t.skip(i0 as int),
            b.len() == n - i0,
            forall|j: int| i0 <= j < dp ==> t[j] != '.',
        decreases n - dp,
    {
        dp += 1;
    }
    proof {
        lemma_first_dot(b);
        assert forall|m: int| 0 <= m < dp - i0 implies b[m] != '.' by {
            assert(b[m] == t[i0 + m]);
        }
        if first_dot(b) < dp - i0 {
            assert(b[first_dot(b)] == '.');
            assert(false);
        }
        if first_dot(b) > dp - i0 {
            assert(dp < n);
            assert(b[dp - i0] == t[dp as int]);
            assert(b[dp - i0] != '.');
            assert(false);
        }
        assert(first_dot(b) == dp - i0);
    }
    let ip_len = dp - i0;
    let frac_len: usize = if dp < n {
        n - dp - 1
    } else {
        0
    };
    let ghost ip = int_digits(t);
    let ghost fp = frac_digits(t);
    proof {
        assert(ip =~= t.subrange(i0 as int, dp as int));
        assert(ip.len() == ip_len);
        if dp < n {
            assert(fp =~= t.subrange(dp + 1, n as int));
        }
        assert(fp.len() == frac_len);
    }
    let total = ip_len + frac_len;
    if total < 1 || total > 18 {
        return None;
    }
    let ghost d = ip + fp;
    let mut mant: u64 = 0;
    let mut k: usize = 0;
    proof {
        lemma_pow10_18();
    }
    while k < total
        invariant
            k <= total,
            1 <= total <= 18,
            total == d.len(),
            ip_len == ip.len(),
            frac_len == fp.len(),
            ip == int_digits(t),
            fp == frac_digits(t),
            d == ip + fp,
            n == t.len(),
            n == s@.len(),
            t == (if comma_as_dot {
                commas_to_dots(s@)
            } else {
                s@
            }),
            i0 + ip_len <= n,
            dp == i0 + ip_len,
            frac_len > 0 ==> dp < n && frac_len == n - dp - 1,
            ip =~= t.subrange(i0 as int, dp as int),
            frac_len > 0 ==> fp =~= t.subrange(dp + 1, n as int),
            mant == digits_to_nat(d.take(k as int)),
            mant < pow10(k as nat),
            pow10(18) == 1_000_000_000_000_000_000,
            forall|j: int| 0 <= j < k ==> is_digit(d[j]),
        decreases total - k,
    {
        let idx = if k < ip_len {
            i0 + k
        } else {
            dp + 1 + (k - ip_len)
        };
        proof {
            if k < ip_len {
                assert(d[k as int] == ip[k as int]);
                assert(ip[k as int] == t[i0 + k]);
            } else {
                assert(d[k as int] == fp[k - ip_len]);
                assert(fp[k - ip_len] == t[dp + 1 + (k - ip_len)]);
            }
            assert(idx < n);
        }
        let c = norm_char(s, idx, comma_as_dot);
        let u = c as u32;
        if u < 48 || u > 57 {
            proof {
                assert(!is_digit(d[k as int]));
                if k < ip_len {
                    assert(!all_digits(ip));
                } else {
                    assert(!all_digits(fp));
                }
            }
            return None;
        }
        proof {
            // Growth of the accumulator stays within eighteen digits.
            assert(pow10((k + 1) as nat) == 10 * pow10(k as nat));
            assert(pow10(k as nat) <= pow10(17)) by {
                lemma_pow10_monotone(k as nat, 17);
            }
            assert(pow10(17) * 10 == pow10(18));
            lemma_digits_push(d.take(k as int), d[k as int]);
            assert(d.take(k + 1) =~= d.take(k as int).push(d[k as int]));
        }
        mant = mant * 10 + ((u - 48) as u64);
        k += 1;
    }
    proof {
        assert(d.take(total as int) =~= d);
        assert forall|j: int| 0 <= j < ip.len() implies is_digit(#[trigger] ip[j]) by {
            assert(ip[j] == d[j]);
        }
        assert(all_digits(ip));
        assert forall|j: int| 0 <= j < fp.len() implies is_digit(#[trigger] fp[j]) by {
            assert(fp[j] == d[ip.len() + j]);
        }
        assert(all_digits(fp));
        assert(dec_parsable(t));
        lemma_digits_bound(d);
        assert(digits_to_nat(d) < pow10(18)) by {
            lemma_pow10_monotone(d.len(), 18);
        }
        assert(mant == digits_to_nat(d) as u64);
        assert(frac_len as u32 as nat == fp.len());
    }
    Some(Dec { neg, mantissa: mant, scale: frac_len as u32 })
}

/// `pow10` is monotone.
pub proof fn lemma_pow10_monotone(a: nat, c: nat)
    requires
        a <= c,
    ensures
        pow10(a) <= pow10(c),
    decreases c,
{
    if a < c {
        lemma_pow10_monotone(a, (c - 1) as nat);
        assert(pow10(c) == 10 * pow10((c - 1) as nat));
    }
}

/// Parses a cell and falls back to zero when it is unparsable.
pub fn parse_or_default(s: &str, comma_as_dot: bool) -> (r: Dec)
    ensures
        r == parse_or_zero(
            if comma_as_dot {
                commas_to_dots(s@)
            } else {
                s@
            },
        ),
{
    match parse_decimal(s, comma_as_dot) {
        Some(d) => d,
        None => Dec::zero(),
    }
}

} // verus!
