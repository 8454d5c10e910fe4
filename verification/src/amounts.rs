//! Decimal amount strings.
//!
//! Amounts, prices and exchange rates travel as decimal strings.  This
//! module parses them into integer centi-units (hundredths of a unit,
//! truncating further fraction digits) and formats integer paisa back into
//! two-decimal display strings.  Malformed strings degrade to zero rather
//! than aborting: noisy chain data is expected.

use vstd::prelude::*;
use crate::text::{ascii_str_of, ascii_to_string};

verus! {

/// Whether `c` is an ASCII decimal digit.
pub open spec fn is_digit(c: char) -> bool {
    48 <= c as int && c as int <= 57
}

/// The numeric value of an ASCII decimal digit.
pub open spec fn digit_val(c: char) -> int {
    c as int - 48
}

/// Whether every character of `s` is an ASCII decimal digit.
pub open spec fn all_digits(s: Seq<char>) -> bool {
    forall|i: int| 0 <= i < s.len() ==> is_digit(s[i])
}

/// The integer that a sequence of decimal digits denotes, most significant
/// digit first.
pub open spec fn digits_value(s: Seq<char>) -> int
    decreases s.len(),
{
    if s.len() == 0 {
        0
    } else {
        digits_value(s.drop_last()) * 10 + digit_val(s.last())
    }
}

/// The index of the first `.` in `s`, or `s.len()` if there is none.
pub open spec fn dot_pos(s: Seq<char>) -> int
    decreases s.len(),
{
    if s.len() == 0 {
        0
    } else if s[0] == '.' {
        0
    } else {
        1 + dot_pos(s.skip(1))
    }
}

/// Whether `s` is a well-formed non-negative decimal amount: one or more
/// ASCII digits with at most one decimal point somewhere among them.
pub open spec fn is_amount(s: Seq<char>) -> bool {
    let k = dot_pos(s);
    &&& s.len() > 0
    &&& all_digits(s.take(k))
    &&& (k < s.len() ==> all_digits(s.skip(k + 1)))
    &&& (k < s.len() ==> s.len() > 1)
}

/// The first two fraction digits of an amount, read as hundredths.
pub open spec fn frac_centi(s: Seq<char>) -> int {
    if s.len() == 0 {
        0
    } else if s.len() == 1 {
        digit_val(s[0]) * 10
    } else {
        digit_val(s[0]) * 10 + digit_val(s[1])
    }
}

/// The exact value of a well-formed amount in centi-units, truncating
/// fraction digits beyond the second.
pub open spec fn amount_centi(s: Seq<char>) -> int {
    let k = dot_pos(s);
    if k < s.len() {
        digits_value(s.take(k)) * 100 + frac_centi(s.skip(k + 1))
    } else {
        digits_value(s) * 100
    }
}

/// Clamp a non-negative value into the `u64` range.
pub open spec fn cap64(v: int) -> int {
    if v > u64::MAX {
        u64::MAX as int
    } else {
        v
    }
}

/// The centi-unit value that parsing assigns to `s`: its clamped exact
/// value when well formed, zero otherwise.
pub open spec fn centi_of(s: Seq<char>) -> int {
    if is_amount(s) {
        cap64(amount_centi(s))
    } else {
        0
    }
}

/// A well-formed amount whose digits are all zero denotes the value zero,
/// whatever precision it is read at.
pub open spec fn is_zero_amount(s: Seq<char>) -> bool {
    is_amount(s) && forall|i: int|
        0 <= i < s.len() ==> (s[i] == '0' || s[i] == '.')
}

proof fn lemma_dot_pos_le(s: Seq<char>)
    ensures
        0 <= dot_pos(s) <= s.len(),
    decreases s.len(),
{
    if s.len() > 0 && s[0] != '.' {
        lemma_dot_pos_le(s.skip(1));
    }
}

proof fn lemma_dot_pos_at(s: Seq<char>, i: int)
    requires
        0 <= i < s.len(),
        s[i] == '.',
        forall|j: int| 0 <= j < i ==> s[j] != '.',
    ensures
        dot_pos(s) == i,
    decreases i,
{
    if i > 0 {
        lemma_dot_pos_at(s.skip(1), i - 1);
    }
}

proof fn lemma_dot_pos_none(s: Seq<char>)
    requires
        forall|j: int| 0 <= j < s.len() ==> s[j] != '.',
    ensures
        dot_pos(s) == s.len(),
    decreases s.len(),
{
    if s.len() > 0 {
        lemma_dot_pos_none(s.skip(1));
    }
}

proof fn lemma_digits_value_step(s: Seq<char>, i: int)
    requires
        0 <= i < s.len(),
    ensures
        digits_value(s.take(i + 1)) == digits_value(s.take(i)) * 10 + digit_val(s[i]),
{
    assert(s.take(i + 1).drop_last() =~= s.take(i));
    assert(s.take(i + 1).last() == s[i]);
}

/// One saturating base-10 accumulation step.
fn push_digit(acc: u64, d: u8) -> (r: u64)
    requires
        d <= 9,
    ensures
        r == cap64(acc * 10 + d),
{
    if acc > (u64::MAX - d as u64) / 10 {
        assert(acc * 10 + d > u64::MAX) by (nonlinear_arith)
            requires
                acc > (u64::MAX - d as u64) / 10,
                d <= 9,
        ;
        u64::MAX
    } else {
        assert(acc * 10 + d <= u64::MAX) by (nonlinear_arith)
            requires
                acc <= (u64::MAX - d as u64) / 10,
                d <= 9,
        ;
        acc * 10 + d as u64
    }
}

/// Parse a decimal amount string into centi-units (hundredths), truncating
/// fraction digits beyond the second and clamping at `u64::MAX`.  The
/// result tells a malformed string apart from one that denotes zero.
pub fn parse_amount_opt(s: &str) -> (r: Option<u64>)
    ensures
        match r {
            Some(v) => is_amount(s@) && v == cap64(amount_centi(s@)),
            None => !is_amount(s@),
        },
{
    let n = s.unicode_len();
    if n == 0 {
        return None;
    }
    let mut acc: u64 = 0;
    let mut i: usize = 0;
    // Integer part: digits up to the first dot or the end.
    while i < n
        invariant
            0 <= i <= n,
            n == s@.len(),
            all_digits(s@.take(i as int)),
            forall|j: int| 0 <= j < i ==> s@[j] != '.',
            acc == cap64(digits_value(s@.take(i as int))),
        ensures
            0 <= i <= n,
            n == s@.len(),
            all_digits(s@.take(i as int)),
            forall|j: int| 0 <= j < i ==> s@[j] != '.',
            acc == cap64(digits_value(s@.take(i as int))),
            i < n ==> s@[i as int] == '.',
        decreases n - i,
    {
        let c = s.get_char(i);
        if c == '.' {
            break;
        }
        let code = c as u32;
        if code < 48 || code > 57 {
            proof {
                assert(!is_digit(s@[i as int]));
                lemma_dot_pos_le(s@);
                let k = dot_pos(s@);
                if k < s@.len() {
                    lemma_dot_pos_is_dot(s@);
                    // No dot was seen through index i, so the first dot
                    // stands strictly beyond it.
                    assert(k > i);
                    assert(s@.take(k)[i as int] == s@[i as int]);
                    assert(!all_digits(s@.take(k)));
                } else {
                    assert(s@.take(k) =~= s@);
                    assert(!all_digits(s@.take(k)));
                }
            }
            return None;
        }
        let d: u8 = (code - 48) as u8;
        proof {
            assert(is_digit(s@[i as int]));
            assert(d == digit_val(s@[i as int]));
            lemma_digits_value_step(s@, i as int);
            assert(all_digits(s@.take(i + 1))) by {
                assert(forall|j: int| 0 <= j < i + 1 ==> s@.take(i + 1)[j] == s@[j]);
            }
        }
        let acc0 = Ghost(acc);
        acc = push_digit(acc, d);
        proof {
            lemma_cap_mul_add(digits_value(s@.take(i as int)), acc0@ as int, d as int);
        }
        i = i + 1;
    }
    if i == n {
        // No decimal point: the whole string is the integer part.
        proof {
            lemma_dot_pos_none(s@);
            assert(s@.take(n as int) =~= s@);
        }
        return Some(push_digit_scale100(acc, 0, Ghost(digits_value(s@))));
    }
    // s[i] is the decimal point; a lone dot is no amount.
    proof {
        lemma_dot_pos_at(s@, i as int);
    }
    if n == 1 {
        return None;
    }
    let ghost k: int = i as int;
    let mut j: usize = i + 1;
    let mut frac: u64 = 0;
    while j < n
        invariant
            i as int == k,
            k + 1 <= j <= n,
            n == s@.len(),
            0 <= k < n,
            dot_pos(s@) == k,
            all_digits(s@.take(k)),
            acc == cap64(digits_value(s@.take(k))),
            all_digits(s@.skip(k + 1).take(j - k - 1)),
            frac == frac_centi(s@.skip(k + 1).take(j - k - 1)),
            frac <= 99,
        decreases n - j,
    {
        let c = s.get_char(j);
        let code = c as u32;
        if code < 48 || code > 57 {
            proof {
                let rest = s@.skip(k + 1);
                assert(rest[j - k - 1] == s@[j as int]);
                assert(!is_digit(rest[j - k - 1]));
                assert(!all_digits(rest));
            }
            return None;
        }
        let d: u8 = (code - 48) as u8;
        proof {
            let rest = s@.skip(k + 1);
            let m = j - k - 1;
            assert(rest[m] == s@[j as int]);
            assert(is_digit(rest[m]));
            assert(rest.take(m + 1) =~= rest.take(m).push(rest[m]));
            assert(all_digits(rest.take(m + 1))) by {
                assert(forall|t: int| 0 <= t < m + 1 ==> rest.take(m + 1)[t] == rest[t]);
            }
            lemma_frac_take_step(rest, m);
        }
        let off = j - i;
        if off == 1 {
            frac = d as u64 * 10;
        } else if off == 2 {
            frac = frac + d as u64;
        }
        j = j + 1;
    }
    proof {
        let rest = s@.skip(k + 1);
        assert(rest.take(n - k - 1) =~= rest);
    }
    Some(push_digit_scale100(acc, frac, Ghost(digits_value(s@.take(k)))))
}

/// Parse a decimal amount string into centi-units, with malformed strings
/// degrading to zero: noisy data contributes nothing rather than aborting.
pub fn parse_amount(s: &str) -> (r: u64)
    ensures
        r == centi_of(s@),
{
    match parse_amount_opt(s) {
        Some(v) => v,
        None => 0,
    }
}

/// Taking one more fraction digit changes the hundredths value only for the
/// first two digits.
proof fn lemma_frac_take_step(rest: Seq<char>, m: int)
    requires
        0 <= m < rest.len(),
    ensures
        m == 0 ==> frac_centi(rest.take(1)) == digit_val(rest[0]) * 10,
        m == 1 ==> frac_centi(rest.take(2)) == digit_val(rest[0]) * 10 + digit_val(rest[1]),
        m >= 2 ==> frac_centi(rest.take(m + 1)) == frac_centi(rest.take(m)),
{
    if m == 0 {
        assert(rest.take(1).len() == 1);
        assert(rest.take(1)[0] == rest[0]);
    } else if m == 1 {
        assert(rest.take(2)[0] == rest[0]);
        assert(rest.take(2)[1] == rest[1]);
    } else {
        assert(rest.take(m + 1)[0] == rest[0]);
        assert(rest.take(m + 1)[1] == rest[1]);
        assert(rest.take(m)[0] == rest[0]);
        assert(rest.take(m)[1] == rest[1]);
    }
}

proof fn lemma_dot_pos_is_dot(s: Seq<char>)
    requires
        dot_pos(s) < s.len(),
    ensures
        s[dot_pos(s)] == '.',
        forall|j: int| 0 <= j < dot_pos(s) ==> s[j] != '.',
    decreases s.len(),
{
    if s.len() > 0 && s[0] != '.' {
        lemma_dot_pos_le(s.skip(1));
        lemma_dot_pos_is_dot(s.skip(1));
        let p = dot_pos(s.skip(1));
        assert(s[1 + p] == s.skip(1)[p]);
        assert(forall|j: int| 1 <= j < dot_pos(s) ==> s[j] == s.skip(1)[j - 1]);
    }
}

/// Clamping composes: clamping after each step equals clamping once.
proof fn lemma_cap_mul_add(v: int, c: int, d: int)
    requires
        0 <= v,
        0 <= d <= 9,
        c == cap64(v),
    ensures
        cap64(c * 10 + d) == cap64(v * 10 + d),
{
    if v > u64::MAX {
        assert(c == u64::MAX);
        assert(c * 10 + d > u64::MAX);
        assert(v * 10 + d > u64::MAX) by (nonlinear_arith)
            requires
                v > u64::MAX,
                d >= 0,
        ;
    }
}

/// Combine integer and fraction parts: `cap64(acc) * 100 + frac`, clamped.
fn push_digit_scale100(acc: u64, frac: u64, Ghost(v): Ghost<int>) -> (r: u64)
    requires
        0 <= v,
        frac <= 99,
        acc == cap64(v),
    ensures
        r == cap64(v * 100 + frac),
{
    if acc > (u64::MAX - frac) / 100 {
        assert(acc * 100 + frac > u64::MAX) by (nonlinear_arith)
            requires
                acc > (u64::MAX - frac) / 100,
                frac <= 99,
        ;
        proof {
            if v <= u64::MAX {
                assert(v * 100 + frac > u64::MAX);
            } else {
                assert(v * 100 + frac > u64::MAX) by (nonlinear_arith)
                    requires
                        v > u64::MAX,
                        frac >= 0,
                ;
            }
        }
        u64::MAX
    } else {
        assert(acc * 100 + frac <= u64::MAX) by (nonlinear_arith)
            requires
                acc <= (u64::MAX - frac) / 100,
                frac <= 99,
        ;
        proof {
            if v > u64::MAX {
                assert(acc == u64::MAX);
                assert(acc * 100 + frac > u64::MAX) by (nonlinear_arith)
                    requires
                        acc == u64::MAX as int,
                        frac >= 0,
                ;
            }
        }
        acc * 100 + frac
    }
}

proof fn lemma_digits_value_nonneg(s: Seq<char>)
    requires
        all_digits(s),
    ensures
        digits_value(s) >= 0,
    decreases s.len(),
{
    if s.len() > 0 {
        assert(all_digits(s.drop_last())) by {
            assert(forall|i: int| 0 <= i < s.len() - 1 ==> s.drop_last()[i] == s[i]);
        }
        lemma_digits_value_nonneg(s.drop_last());
        assert(is_digit(s.last()));
        assert(digits_value(s.drop_last()) * 10 >= 0) by (nonlinear_arith)
            requires
                digits_value(s.drop_last()) >= 0,
        ;
    }
}

/// The parsed centi-unit value of any string fits in `u64`.
pub proof fn lemma_centi_of_range(s: Seq<char>)
    ensures
        0 <= centi_of(s) <= u64::MAX,
{
    if is_amount(s) {
        let k = dot_pos(s);
        lemma_dot_pos_le(s);
        if k < s.len() {
            lemma_digits_value_nonneg(s.take(k));
            let rest = s.skip(k + 1);
            if rest.len() > 0 {
                assert(is_digit(rest[0]));
            }
            if rest.len() > 1 {
                assert(is_digit(rest[1]));
            }
            assert(digits_value(s.take(k)) * 100 >= 0) by (nonlinear_arith)
                requires
                    digits_value(s.take(k)) >= 0,
            ;
        } else {
            assert(s.take(k) =~= s);
            lemma_digits_value_nonneg(s);
            assert(digits_value(s) * 100 >= 0) by (nonlinear_arith)
                requires
                    digits_value(s) >= 0,
            ;
        }
    }
}

/// The ASCII digits of a non-negative integer, most significant first.
pub open spec fn dec_bytes(n: int) -> Seq<u8>
    decreases n,
{
    if n <= 0 {
        seq![48u8]
    } else if n < 10 {
        seq![(48 + n) as u8]
    } else {
        dec_bytes(n / 10).push((48 + n % 10) as u8)
    }
}

/// Every byte of a decimal rendering is an ASCII digit.
pub proof fn lemma_dec_bytes_ascii(n: int)
    ensures
        forall|i: int| 0 <= i < dec_bytes(n).len() ==> 48 <= #[trigger] dec_bytes(n)[i] <= 57,
    decreases n,
{
    if n >= 10 {
        lemma_dec_bytes_ascii(n / 10);
        assert(forall|i: int|
            0 <= i < dec_bytes(n / 10).len() ==> dec_bytes(n)[i] == dec_bytes(n / 10)[i]);
    }
}

/// Append the decimal digits of `n` to `out`.
fn push_dec(out: &mut Vec<u8>, n: u64)
    ensures
        final(out)@ == old(out)@ + dec_bytes(n as int),
    decreases n,
{
    if n < 10 {
        out.push((48 + n) as u8);
        assert(out@ =~= old(out)@ + dec_bytes(n as int));
    } else {
        assert(n / 10 < n) by (nonlinear_arith)
            requires
                n >= 10,
        ;
        push_dec(out, n / 10);
        out.push((48 + n % 10) as u8);
        assert(out@ =~= old(out)@ + dec_bytes(n as int));
    }
}

/// The two-decimal INR rendering of a paisa value: the rupee digits, a
/// point, then exactly two paisa digits.
pub open spec fn inr_bytes(paisa: int) -> Seq<u8> {
    dec_bytes(paisa / 100) + seq![
        46u8,
        (48 + (paisa / 10) % 10) as u8,
        (48 + paisa % 10) as u8,
    ]
}

/// Format an integer paisa value as an INR string with two decimal places.
pub fn format_inr_paisa(paisa: u64) -> (r: String)
    ensures
        r@ == ascii_str_of(inr_bytes(paisa as int)),
{
    let mut bytes: Vec<u8> = Vec::new();
    push_dec(&mut bytes, paisa / 100);
    bytes.push(46);
    bytes.push((48 + (paisa / 10) % 10) as u8);
    bytes.push((48 + paisa % 10) as u8);
    proof {
        lemma_dec_bytes_ascii((paisa / 100) as int);
        assert(bytes@ =~= inr_bytes(paisa as int));
    }
    ascii_to_string(bytes)
}

} // verus!
