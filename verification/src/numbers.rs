//! Fixed-point parsing of decimal number tokens.
//!
//! A document number token is `-?digits(.digits)?` — the plain decimal
//! forms a JSON writer emits for map data; exponent forms are rejected.
//! A real-valued token is parsed into micro-units (six fractional digits;
//! further digits are truncated toward zero). The integer part may hold at
//! most `UNIT_LIMIT` units, so every parsed value fits the documented
//! magnitude cap `NUMBER_LIMIT_MICRO`.
use vstd::arithmetic::mul::lemma_mul_inequality;
use vstd::prelude::*;
use vstd::string::StrSliceExecFns;

use crate::model::NUMBER_LIMIT_MICRO;

verus! {

/// Largest whole-unit magnitude a real-valued token may carry.
pub const UNIT_LIMIT: i64 = 999_999_999;

/// The value of a decimal digit character, or 10 for any other character.
pub open spec fn spec_digit(c: char) -> int {
    match c {
        '0' => 0,
        '1' => 1,
        '2' => 2,
        '3' => 3,
        '4' => 4,
        '5' => 5,
        '6' => 6,
        '7' => 7,
        '8' => 8,
        '9' => 9,
        _ => 10,
    }
}

/// Whether every character of the sequence is a decimal digit.
pub open spec fn is_digit_seq(s: Seq<char>) -> bool {
    forall|i: int| 0 <= i < s.len() ==> spec_digit(#[trigger] s[i]) < 10
}

/// The value of a digit sequence read as a base-10 numeral.
pub open spec fn digits_val(s: Seq<char>) -> int
    decreases s.len(),
{
    if s.len() == 0 {
        0
    } else {
        digits_val(s.drop_last()) * 10 + spec_digit(s.last())
    }
}

/// Ten to the `n`-th power (1 for non-positive `n`).
pub open spec fn pow10(n: int) -> int
    decreases n,
{
    if n <= 0 {
        1
    } else {
        10 * pow10(n - 1)
    }
}

/// The index of the first `'.'` in the sequence, or its length.
pub open spec fn dot_pos(s: Seq<char>) -> int
    decreases s.len(),
{
    if s.len() == 0 {
        0
    } else if s[0] == '.' {
        0
    } else {
        1 + dot_pos(s.drop_first())
    }
}

/// A non-empty all-digit token worth at most `cap`, or nothing.
pub open spec fn spec_parse_digits(t: Seq<char>, cap: int) -> Option<i64> {
    if t.len() >= 1 && is_digit_seq(t) && digits_val(t) <= cap {
        Some(digits_val(t) as i64)
    } else {
        None
    }
}

/// The micro-unit value of a fraction-digit sequence: the first six digits,
/// padded with zeros on the right; further digits are truncated.
pub open spec fn frac_micro(fp: Seq<char>) -> int {
    if fp.len() >= 6 {
        digits_val(fp.take(6))
    } else {
        digits_val(fp) * pow10(6 - fp.len())
    }
}

/// An unsigned decimal token in micro-units: digits, optionally followed by
/// a dot and fraction digits; the whole part capped at `UNIT_LIMIT`.
pub open spec fn spec_parse_unsigned_micro(t: Seq<char>) -> Option<i64> {
    let d = dot_pos(t);
    if d == t.len() {
        match spec_parse_digits(t, UNIT_LIMIT as int) {
            Some(u) => Some((u * 1_000_000) as i64),
            None => None,
        }
    } else {
        let fp = t.skip(d + 1);
        match spec_parse_digits(t.take(d), UNIT_LIMIT as int) {
            Some(u) => if fp.len() >= 1 && is_digit_seq(fp) {
                Some((u * 1_000_000 + frac_micro(fp)) as i64)
            } else {
                None
            },
            None => None,
        }
    }
}

/// A signed decimal token in micro-units.
pub open spec fn spec_parse_micro(s: Seq<char>) -> Option<i64> {
    if s.len() >= 1 && s[0] == '-' {
        match spec_parse_unsigned_micro(s.drop_first()) {
            Some(v) => Some((-v) as i64),
            None => None,
        }
    } else {
        spec_parse_unsigned_micro(s)
    }
}

/// An unsigned integer token that fits `u32`.
pub open spec fn spec_parse_u32(s: Seq<char>) -> Option<u32> {
    match spec_parse_digits(s, u32::MAX as int) {
        Some(v) => Some(v as u32),
        None => None,
    }
}

/// A signed integer token (a layer cell value), within the document
/// number magnitude cap.
pub open spec fn spec_parse_cell(s: Seq<char>) -> Option<i64> {
    if s.len() >= 1 && s[0] == '-' {
        match spec_parse_digits(s.drop_first(), NUMBER_LIMIT_MICRO as int) {
            Some(v) => Some((-v) as i64),
            None => None,
        }
    } else {
        spec_parse_digits(s, NUMBER_LIMIT_MICRO as int)
    }
}

/// A numeral's value is never negative.
pub proof fn lemma_digits_val_nonneg(t: Seq<char>)
    ensures
        0 <= digits_val(t),
    decreases t.len(),
{
    if t.len() > 0 {
        lemma_digits_val_nonneg(t.drop_last());
    }
}

/// A numeral's value only grows as digits are appended.
pub proof fn lemma_digits_val_monotone(t: Seq<char>, j: int)
    requires
        0 <= j <= t.len(),
    ensures
        digits_val(t.take(j)) <= digits_val(t),
    decreases t.len(),
{
    if j == t.len() {
        assert(t.take(j) =~= t);
    } else {
        lemma_digits_val_monotone(t.drop_last(), j);
        assert(t.drop_last().take(j) =~= t.take(j));
        lemma_digits_val_nonneg(t.drop_last());
    }
}

/// An all-digit numeral of `n` digits is worth less than `10^n`.
pub proof fn lemma_digits_val_bound(t: Seq<char>)
    requires
        is_digit_seq(t),
    ensures
        digits_val(t) < pow10(t.len() as int),
    decreases t.len(),
{
    if t.len() > 0 {
        assert(is_digit_seq(t.drop_last())) by {
            assert(forall|i: int|
                0 <= i < t.len() - 1 ==> t.drop_last()[i] == #[trigger] t[i]);
        }
        lemma_digits_val_bound(t.drop_last());
        assert(spec_digit(t.last()) <= 9);
    }
}

/// Powers of ten multiply by adding exponents.
pub proof fn lemma_pow10_adds(a: int, b: int)
    requires
        0 <= a,
        0 <= b,
    ensures
        pow10(a + b) == pow10(a) * pow10(b),
    decreases a,
{
    if a == 0 {
        assert(pow10(b) == 1 * pow10(b));
    } else {
        lemma_pow10_adds(a - 1, b);
        assert(pow10(a + b) == 10 * pow10(a - 1 + b));
        assert(10 * (pow10(a - 1) * pow10(b)) == (10 * pow10(a - 1)) * pow10(b))
            by (nonlinear_arith);
    }
}

/// Powers of ten are positive.
pub proof fn lemma_pow10_pos(n: int)
    ensures
        0 < pow10(n),
    decreases n,
{
    if n > 0 {
        lemma_pow10_pos(n - 1);
    }
}

/// The digit value of a character, or nothing if it is not a digit.
fn digit_of(c: char) -> (r: Option<i64>)
    ensures
        r matches Some(d) ==> spec_digit(c) == d && 0 <= d <= 9,
        r is None ==> spec_digit(c) == 10,
{
    match c {
        '0' => Some(0),
        '1' => Some(1),
        '2' => Some(2),
        '3' => Some(3),
        '4' => Some(4),
        '5' => Some(5),
        '6' => Some(6),
        '7' => Some(7),
        '8' => Some(8),
        '9' => Some(9),
        _ => None,
    }
}

/// Parses the digit run `s[from..to]` as a numeral worth at most `cap`.
fn parse_digits(s: &str, from: usize, to: usize, cap: i64) -> (r: Option<i64>)
    requires
        from <= to <= s@.len(),
        0 <= cap <= NUMBER_LIMIT_MICRO,
    ensures
        r == spec_parse_digits(s@.subrange(from as int, to as int), cap as int),
        r matches Some(v) ==> 0 <= v <= cap,
{
    let ghost t = s@.subrange(from as int, to as int);
    if from == to {
        return None;
    }
    let mut acc: i64 = 0;
    let mut i = from;
    proof {
        assert(s@.subrange(from as int, from as int) =~= Seq::<char>::empty());
    }
    while i < to
        invariant
            from <= i <= to <= s@.len(),
            0 <= cap <= NUMBER_LIMIT_MICRO,
            t == s@.subrange(from as int, to as int),
            is_digit_seq(s@.subrange(from as int, i as int)),
            acc == digits_val(s@.subrange(from as int, i as int)),
            0 <= acc <= cap,
        decreases to - i,
    {
        let ghost prefix = s@.subrange(from as int, i as int);
        let ghost prefix1 = s@.subrange(from as int, i as int + 1);
        proof {
            assert(prefix1.drop_last() =~= prefix);
            assert(prefix1.last() == s@[i as int]);
        }
        let c = s.get_char(i);
        match digit_of(c) {
            None => {
                proof {
                    assert(t[i - from] == s@[i as int]);
                    assert(!is_digit_seq(t));
                }
                return None;
            },
            Some(d) => {
                let next = acc * 10 + d;
                proof {
                    assert(is_digit_seq(prefix1)) by {
                        assert(forall|k: int|
                            0 <= k < prefix.len() ==> prefix1[k] == #[trigger] prefix[k]);
                    }
                    assert(digits_val(prefix1) == digits_val(prefix) * 10 + spec_digit(
                        s@[i as int],
                    ));
                }
                if next > cap {
                    proof {
                        if is_digit_seq(t) {
                            assert(t.take(i - from + 1) =~= prefix1);
                            lemma_digits_val_monotone(t, i - from + 1);
                        }
                    }
                    return None;
                }
                acc = next;
            },
        }
        i += 1;
    }
    proof {
        assert(s@.subrange(from as int, to as int) =~= t);
    }
    Some(acc)
}

/// Finds the first `'.'` at or after `from`, or returns `to`.
fn find_dot(s: &str, from: usize, to: usize) -> (d: usize)
    requires
        from <= to <= s@.len(),
    ensures
        from <= d <= to,
        d < to ==> s@[d as int] == '.',
        forall|k: int| from <= k < d ==> s@[k] != '.',
{
    let mut d = from;
    let mut found = false;
    while !found && d < to
        invariant
            from <= d <= to <= s@.len(),
            forall|k: int| from <= k < d ==> s@[k] != '.',
            found ==> d < to && s@[d as int] == '.',
        decreases to - d + (if found {
            0int
        } else {
            1int
        }),
    {
        if s.get_char(d) == '.' {
            found = true;
        } else {
            d += 1;
        }
    }
    d
}

/// `dot_pos` of a sequence whose first `j` characters are not dots and
/// whose `j`-th character (if any) is one.
proof fn lemma_dot_pos_at(t: Seq<char>, j: int)
    requires
        0 <= j <= t.len(),
        forall|k: int| 0 <= k < j ==> t[k] != '.',
        j == t.len() || t[j] == '.',
    ensures
        dot_pos(t) == j,
    decreases j,
{
    if j == 0 {
    } else {
        lemma_dot_pos_at(t.drop_first(), j - 1);
    }
}

/// Ten to a small power, executably.
fn pow10_exec(k: usize) -> (r: i64)
    requires
        k <= 6,
    ensures
        r == pow10(k as int),
{
    proof {
        reveal_with_fuel(pow10, 8);
    }
    if k == 0 {
        1
    } else if k == 1 {
        10
    } else if k == 2 {
        100
    } else if k == 3 {
        1_000
    } else if k == 4 {
        10_000
    } else if k == 5 {
        100_000
    } else {
        1_000_000
    }
}

/// The micro-unit value of a fraction is less than one whole unit.
proof fn lemma_frac_micro_bound(fp: Seq<char>)
    requires
        is_digit_seq(fp),
    ensures
        0 <= frac_micro(fp) < 1_000_000,
{
    reveal_with_fuel(pow10, 8);
    if fp.len() >= 6 {
        let f6 = fp.take(6);
        assert(is_digit_seq(f6)) by {
            assert(forall|j: int| 0 <= j < f6.len() ==> f6[j] == #[trigger] fp[j]);
        }
        lemma_digits_val_nonneg(f6);
        lemma_digits_val_bound(f6);
    } else {
        let flen = fp.len() as int;
        let p = pow10(6 - flen);
        lemma_digits_val_nonneg(fp);
        lemma_digits_val_bound(fp);
        lemma_pow10_pos(6 - flen);
        lemma_pow10_pos(flen);
        lemma_mul_inequality(digits_val(fp), pow10(flen) - 1, p);
        lemma_pow10_adds(flen, 6 - flen);
        assert((pow10(flen) - 1) * p == pow10(flen) * p - p) by (nonlinear_arith);
        assert(0 <= digits_val(fp) * p) by (nonlinear_arith)
            requires
                0 <= digits_val(fp),
                0 < p,
        ;
    }
}

/// Parses the fraction digits `s[from..to]` into micro-units: the first
/// six digits, zero-padded; further digits are validated and truncated.
fn parse_frac_micro(s: &str, from: usize, to: usize) -> (r: Option<i64>)
    requires
        from <= to <= s@.len(),
    ensures
        ({
            let fp = s@.subrange(from as int, to as int);
            if fp.len() >= 1 && is_digit_seq(fp) {
                r == Some(frac_micro(fp) as i64) && (r matches Some(v) ==> 0 <= v < 1_000_000)
            } else {
                r is None
            }
        }),
{
    let ghost fp = s@.subrange(from as int, to as int);
    let flen = to - from;
    if flen == 0 {
        return None;
    }
    // every fraction digit must be a digit, even truncated ones
    let mut k = from;
    while k < to
        invariant
            from <= k <= to <= s@.len(),
            fp == s@.subrange(from as int, to as int),
            forall|j: int| from <= j < k ==> spec_digit(#[trigger] s@[j]) < 10,
        decreases to - k,
    {
        let c = s.get_char(k);
        if digit_of(c).is_none() {
            proof {
                assert(fp[k - from] == s@[k as int]);
                assert(!is_digit_seq(fp));
            }
            return None;
        }
        k += 1;
    }
    proof {
        assert forall|j: int| 0 <= j < fp.len() implies spec_digit(#[trigger] fp[j]) < 10 by {
            assert(fp[j] == s@[from + j]);
        }
    }
    let taken = if flen >= 6 {
        6
    } else {
        flen
    };
    let ghost f6 = fp.take(taken as int);
    proof {
        assert(f6 =~= s@.subrange(from as int, from as int + taken as int));
        assert(is_digit_seq(f6)) by {
            assert(forall|j: int| 0 <= j < f6.len() ==> f6[j] == #[trigger] fp[j]);
        }
        lemma_digits_val_nonneg(f6);
        lemma_digits_val_bound(f6);
        reveal_with_fuel(pow10, 8);
    }
    let fval = match parse_digits(s, from, from + taken, 999_999) {
        Some(u) => u,
        None => {
            proof {
                assert(false);
            }
            return None;
        },
    };
    let mult = pow10_exec(6 - taken);
    proof {
        lemma_frac_micro_bound(fp);
        reveal_with_fuel(pow10, 8);
        if flen < 6 {
            assert(fp.take(flen as int) =~= fp);
            assert(f6 =~= fp);
            assert(fval * mult == frac_micro(fp));
        } else {
            assert(frac_micro(fp) == digits_val(f6));
            assert(mult == 1);
            assert(fval * mult == frac_micro(fp));
        }
    }
    Some(fval * mult)
}

/// Parses a signed decimal token into micro-units. Only plain decimal
/// forms are accepted; the result magnitude never exceeds the document
/// number cap.
pub fn parse_micro(s: &str) -> (r: Option<i64>)
    ensures
        r == spec_parse_micro(s@),
        r matches Some(v) ==> -NUMBER_LIMIT_MICRO <= v <= NUMBER_LIMIT_MICRO,
{
    let n = s.unicode_len();
    let neg = n >= 1 && s.get_char(0) == '-';
    let off: usize = if neg {
        1
    } else {
        0
    };
    let ghost t = s@.skip(off as int);
    proof {
        if neg {
            assert(t =~= s@.drop_first());
        } else {
            assert(t =~= s@);
        }
    }
    let dp = find_dot(s, off, n);
    proof {
        lemma_dot_pos_at(t, dp - off);
        assert(t.take(dp - off) =~= s@.subrange(off as int, dp as int));
    }
    let whole = match parse_digits(s, off, dp, UNIT_LIMIT) {
        Some(u) => u,
        None => {
            return None;
        },
    };
    if dp == n {
        proof {
            assert(t.take(dp - off) =~= t);
        }
        let v = whole * 1_000_000;
        if neg {
            Some(-v)
        } else {
            Some(v)
        }
    } else {
        let ghost fp = t.skip(dp - off + 1);
        proof {
            assert(fp =~= s@.subrange(dp as int + 1, n as int));
        }
        let fval = match parse_frac_micro(s, dp + 1, n) {
            Some(u) => u,
            None => {
                return None;
            },
        };
        let v = whole * 1_000_000 + fval;
        proof {
            assert(fp.len() >= 1 && is_digit_seq(fp));
            lemma_frac_micro_bound(fp);
            assert(fval == frac_micro(fp));
        }
        if neg {
            Some(-v)
        } else {
            Some(v)
        }
    }
}

/// Parses an unsigned integer token that fits `u32`.
pub fn parse_u32(s: &str) -> (r: Option<u32>)
    ensures
        r == spec_parse_u32(s@),
{
    let n = s.unicode_len();
    proof {
        assert(s@.subrange(0, n as int) =~= s@);
    }
    match parse_digits(s, 0, n, 4_294_967_295) {
        Some(v) => Some(v as u32),
        None => None,
    }
}

/// Parses a signed integer token (a layer cell value).
pub fn parse_cell(s: &str) -> (r: Option<i64>)
    ensures
        r == spec_parse_cell(s@),
        r matches Some(v) ==> -NUMBER_LIMIT_MICRO <= v <= NUMBER_LIMIT_MICRO,
{
    let n = s.unicode_len();
    let neg = n >= 1 && s.get_char(0) == '-';
    let off: usize = if neg {
        1
    } else {
        0
    };
    proof {
        if neg {
            assert(s@.subrange(1, n as int) =~= s@.drop_first());
        } else {
            assert(s@.subrange(0, n as int) =~= s@);
        }
    }
    match parse_digits(s, off, n, NUMBER_LIMIT_MICRO) {
        Some(v) => if neg {
            Some(-v)
        } else {
            Some(v)
        },
        None => None,
    }
}

} // verus!
