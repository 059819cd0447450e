//! Decimal-digit groundwork shared by the quantity codec, the duration codec
//! and the JSON layer: what a run of digits denotes, and a verified reader
//! for signed 64-bit integers written in decimal.

use vstd::prelude::*;

verus! {

/// `c` is one of the ten ASCII digits.
pub open spec fn is_digit(c: char) -> bool {
    '0' <= c && c <= '9'
}

/// The numeric value of one digit.
pub open spec fn digit_val(c: char) -> int {
    c as int - '0' as int
}

/// Every character of `s` is a digit.
pub open spec fn all_digits(s: Seq<char>) -> bool {
    forall|i: int| 0 <= i < s.len() ==> is_digit(s[i])
}

/// The number denoted by the digit run `s`, most significant digit first.
/// Leading zeros do not change the value.
pub open spec fn digits_val(s: Seq<char>) -> int
    decreases s.len(),
{
    if s.len() == 0 {
        0
    } else {
        digits_val(s.drop_last()) * 10 + digit_val(s.last())
    }
}

/// The digits of `s` after an optional leading sign.
pub open spec fn num_body(s: Seq<char>) -> Seq<char> {
    if s.len() > 0 && (s[0] == '+' || s[0] == '-') {
        s.drop_first()
    } else {
        s
    }
}

/// -1 for a leading minus sign, 1 otherwise.
pub open spec fn num_sign(s: Seq<char>) -> int {
    if s.len() > 0 && s[0] == '-' {
        -1
    } else {
        1
    }
}

/// `s` is a decimal integer literal: an optional sign, then one or more
/// digits.
pub open spec fn is_int_literal(s: Seq<char>) -> bool {
    num_body(s).len() > 0 && all_digits(num_body(s))
}

/// The value of the integer literal `s`.
pub open spec fn int_literal_val(s: Seq<char>) -> int {
    num_sign(s) * digits_val(num_body(s))
}

/// A digit run denotes a non-negative number.
pub proof fn lemma_digits_val_nonneg(s: Seq<char>)
    requires
        all_digits(s),
    ensures
        digits_val(s) >= 0,
    decreases s.len(),
{
    if s.len() > 0 {
        lemma_digits_val_nonneg(s.drop_last());
    }
}

/// Extending a digit run on the right multiplies its value by ten and adds
/// the new digit.
pub proof fn lemma_digits_val_snoc(s: Seq<char>, i: int)
    requires
        0 <= i < s.len(),
    ensures
        digits_val(s.take(i + 1)) == digits_val(s.take(i)) * 10 + digit_val(s[i]),
{
    assert(s.take(i + 1).drop_last() =~= s.take(i));
    assert(s.take(i + 1).last() == s[i]);
}

/// A digit run is worth at least any of its prefixes.
pub proof fn lemma_digits_val_prefix_le(s: Seq<char>, i: int)
    requires
        all_digits(s),
        0 <= i <= s.len(),
    ensures
        digits_val(s.take(i)) <= digits_val(s),
    decreases s.len() - i,
{
    if i < s.len() {
        lemma_digits_val_snoc(s, i);
        lemma_digits_val_nonneg(s.take(i));
        lemma_digits_val_prefix_le(s, i + 1);
    } else {
        assert(s.take(i) =~= s);
    }
}

/// End of the digit run starting at `i`: the first position at or after `i`
/// that is past the end or not a digit.
pub open spec fn digits_end(s: Seq<char>, i: int) -> int
    decreases s.len() - i when 0 <= i <= s.len()
{
    if i < s.len() && is_digit(s[i]) {
        digits_end(s, i + 1)
    } else {
        i
    }
}

/// The digit run ends within the string, covers only digits, and stops at
/// the first non-digit.
pub proof fn lemma_digits_end(s: Seq<char>, i: int)
    requires
        0 <= i <= s.len(),
    ensures
        i <= digits_end(s, i) <= s.len(),
        forall|j: int| i <= j < digits_end(s, i) ==> is_digit(s[j]),
        digits_end(s, i) < s.len() ==> !is_digit(s[digits_end(s, i)]),
    decreases s.len() - i,
{
    if i < s.len() && is_digit(s[i]) {
        lemma_digits_end(s, i + 1);
    }
}

/// Scans past the digit run starting at `from`.
pub fn scan_digits(s: &str, from: usize) -> (r: usize)
    requires
        from <= s@.len(),
    ensures
        r as int == digits_end(s@, from as int),
        from <= r <= s@.len(),
{
    let n = s.unicode_len();
    let mut i: usize = from;
    while i < n
        invariant
            from <= i <= n == s@.len(),
            digits_end(s@, from as int) == digits_end(s@, i as int),
        decreases n - i,
    {
        let c = s.get_char(i);
        if c < '0' || c > '9' {
            proof {
                assert(!is_digit(s@[i as int]));
            }
            return i;
        }
        i = i + 1;
    }
    i
}

/// Index of the first `.` in `s`, or `s.len()` when there is none.
pub open spec fn dot_index(s: Seq<char>) -> int
    decreases s.len(),
{
    if s.len() == 0 {
        0
    } else if s[0] == '.' {
        0
    } else {
        1 + dot_index(s.drop_first())
    }
}

/// `dot_index` points at the first dot: everything before it is not a dot,
/// and it is a dot unless it is the end.
pub proof fn lemma_dot_index(s: Seq<char>)
    ensures
        0 <= dot_index(s) <= s.len(),
        forall|i: int| 0 <= i < dot_index(s) ==> s[i] != '.',
        dot_index(s) < s.len() ==> s[dot_index(s)] == '.',
    decreases s.len(),
{
    if s.len() > 0 && s[0] != '.' {
        lemma_dot_index(s.drop_first());
        assert forall|i: int| 0 <= i < dot_index(s) implies s[i] != '.' by {
            if i > 0 {
                assert(s[i] == s.drop_first()[i - 1]);
            }
        }
    }
}

/// Conversely, a position with no dot before it, and a dot (or the end) at
/// it, is `dot_index`.
pub proof fn lemma_dot_index_is(s: Seq<char>, k: int)
    requires
        0 <= k <= s.len(),
        forall|i: int| 0 <= i < k ==> s[i] != '.',
        k == s.len() || s[k] == '.',
    ensures
        dot_index(s) == k,
    decreases s.len(),
{
    if s.len() > 0 && s[0] != '.' {
        lemma_dot_index_is(s.drop_first(), k - 1);
    }
}

/// The digits before the first dot.
pub open spec fn int_part(b: Seq<char>) -> Seq<char> {
    b.take(dot_index(b))
}

/// The digits after the first dot; empty when there is no dot.
pub open spec fn frac_part(b: Seq<char>) -> Seq<char> {
    if dot_index(b) < b.len() {
        b.skip(dot_index(b) + 1)
    } else {
        Seq::empty()
    }
}

/// `b` is an unsigned decimal numeral: digits, at most one dot, and at
/// least one digit overall (`"15"`, `"23.5"`, `"1."`, `".5"`).
pub open spec fn is_unsigned_decimal(b: Seq<char>) -> bool {
    &&& all_digits(int_part(b))
    &&& all_digits(frac_part(b))
    &&& int_part(b).len() + frac_part(b).len() >= 1
}

/// What the fraction digits `f` contribute when one whole unit is worth
/// `scale`: each digit is worth a tenth of the digit before it, remainders
/// truncated.
pub open spec fn frac_scaled(f: Seq<char>, scale: int) -> int
    decreases f.len(),
{
    if f.len() == 0 {
        0
    } else {
        digit_val(f[0]) * (scale / 10) + frac_scaled(f.drop_first(), scale / 10)
    }
}

/// The fraction contributes at most one whole unit.
pub proof fn lemma_frac_scaled_bounds(f: Seq<char>, scale: int)
    requires
        all_digits(f),
        scale >= 0,
    ensures
        0 <= frac_scaled(f, scale) <= scale,
    decreases f.len(),
{
    if f.len() > 0 {
        lemma_frac_scaled_bounds(f.drop_first(), scale / 10);
        assert(digit_val(f[0]) * (scale / 10) <= 9 * (scale / 10)) by {
            assert(0 <= digit_val(f[0]) <= 9);
            vstd::arithmetic::mul::lemma_mul_inequality(
                digit_val(f[0]),
                9,
                scale / 10,
            );
        }
        assert(10 * (scale / 10) <= scale);
    }
}

/// The value of the unsigned decimal `b` when one whole unit is worth
/// `scale`.
pub open spec fn decimal_scaled(b: Seq<char>, scale: int) -> int {
    digits_val(int_part(b)) * scale + frac_scaled(frac_part(b), scale)
}

/// `p` is a decimal numeral with an optional leading sign.
pub open spec fn is_decimal_literal(p: Seq<char>) -> bool {
    is_unsigned_decimal(num_body(p))
}

/// The signed value of `p` when one whole unit is worth `scale`.
pub open spec fn signed_decimal_scaled(p: Seq<char>, scale: int) -> int {
    num_sign(p) * decimal_scaled(num_body(p), scale)
}

/// Reads the digit run `s[from..to]` as a non-negative number, into a `u64`.
/// Returns `None` when some character there is not a digit or the value
/// exceeds `u64::MAX`.
pub fn read_digits_u64(s: &str, from: usize, to: usize) -> (r: Option<u64>)
    requires
        from <= to <= s@.len(),
    ensures
        r matches Some(v) ==> {
            let d = s@.subrange(from as int, to as int);
            &&& all_digits(d)
            &&& digits_val(d) == v as int
        },
        r is None ==> {
            let d = s@.subrange(from as int, to as int);
            !(all_digits(d) && digits_val(d) <= u64::MAX)
        },
{
    let ghost d = s@.subrange(from as int, to as int);
    let mut acc: u64 = 0;
    let mut i: usize = from;
    while i < to
        invariant
            from <= i <= to <= s@.len(),
            d == s@.subrange(from as int, to as int),
            all_digits(d.take(i - from)),
            digits_val(d.take(i - from)) == acc as int,
        decreases to - i,
    {
        let c = s.get_char(i);
        assert(c == d[i - from]);
        if c < '0' || c > '9' {
            proof {
                assert(!is_digit(d[i - from]));
            }
            return None;
        }
        let dv: u64 = (c as u32 as u64) - ('0' as u32 as u64);
        proof {
            assert(dv as int == digit_val(d[i - from]));
        }
        if acc > (u64::MAX - dv) / 10 {
            // The run can only grow from here, so the value cannot fit.
            proof {
                lemma_digits_val_snoc(d, i - from);
                lemma_digits_val_nonneg(d.take(i - from));
                if all_digits(d) {
                    lemma_digits_val_prefix_le(d, i - from + 1);
                }
            }
            return None;
        }
        acc = acc * 10 + dv;
        proof {
            lemma_digits_val_snoc(d, i - from);
        }
        i = i + 1;
    }
    proof {
        assert(d.take(to - from) =~= d);
    }
    Some(acc)
}

/// Reads `s[from..to]` as a signed decimal integer literal, into an `i64`.
/// Returns `None` when the range is not an integer literal or its value is
/// outside the `i64` range.
pub fn read_int_i64(s: &str, from: usize, to: usize) -> (r: Option<i64>)
    requires
        from <= to <= s@.len(),
    ensures
        ({
            let lit = s@.subrange(from as int, to as int);
            match r {
                Some(v) => is_int_literal(lit) && int_literal_val(lit) == v as int,
                None => !(is_int_literal(lit) && i64::MIN <= int_literal_val(lit)
                    <= i64::MAX),
            }
        }),
{
    let ghost lit = s@.subrange(from as int, to as int);
    if from == to {
        return None;
    }
    let first = s.get_char(from);
    let (digits_from, negative) = if first == '-' {
        (from + 1, true)
    } else if first == '+' {
        (from + 1, false)
    } else {
        (from, false)
    };
    proof {
        assert(num_body(lit) =~= s@.subrange(digits_from as int, to as int));
        assert(num_sign(lit) == if negative { -1int } else { 1int });
    }
    if digits_from == to {
        // A bare sign is not a literal.
        return None;
    }
    let mag = match read_digits_u64(s, digits_from, to) {
        Some(m) => m,
        None => {
            proof {
                if is_int_literal(lit) {
                    lemma_digits_val_nonneg(num_body(lit));
                }
            }
            return None;
        },
    };
    if negative {
        if mag > 9223372036854775808u64 {
            return None;
        }
        if mag == 9223372036854775808u64 {
            return Some(i64::MIN);
        }
        Some(-(mag as i64))
    } else {
        if mag > i64::MAX as u64 {
            return None;
        }
        Some(mag as i64)
    }
}

/// Applies a sign to a magnitude and narrows it to an `i64`; `None` when it
/// does not fit.
pub fn signed_to_i64(mag: u128, negative: bool) -> (r: Option<i64>)
    ensures
        ({
            let v = if negative {
                -1 * (mag as int)
            } else {
                mag as int
            };
            match r {
                Some(x) => x as int == v,
                None => !(i64::MIN <= v <= i64::MAX),
            }
        }),
{
    if negative {
        if mag > 9223372036854775808u128 {
            None
        } else if mag == 9223372036854775808u128 {
            Some(i64::MIN)
        } else {
            Some(-(mag as i64))
        }
    } else {
        if mag > i64::MAX as u128 {
            None
        } else {
            Some(mag as i64)
        }
    }
}

/// Reads the fraction digits `s[from..to]`, worth `scale` per whole unit.
/// Returns `None` exactly when some character there is not a digit.
pub fn read_frac_scaled(s: &str, from: usize, to: usize, scale: u64) -> (r: Option<u64>)
    requires
        from <= to <= s@.len(),
    ensures
        ({
            let f = s@.subrange(from as int, to as int);
            match r {
                Some(v) => all_digits(f) && v as int == frac_scaled(f, scale as int),
                None => !all_digits(f),
            }
        }),
{
    let ghost f = s@.subrange(from as int, to as int);
    let mut acc: u64 = 0;
    let mut pow: u64 = scale;
    let mut i: usize = from;
    proof {
        assert(f.skip(0) =~= f);
        assert(f.take(0) =~= Seq::<char>::empty());
    }
    while i < to
        invariant
            from <= i <= to <= s@.len(),
            f == s@.subrange(from as int, to as int),
            all_digits(f.take(i - from)),
            frac_scaled(f, scale as int) == acc as int + frac_scaled(
                f.skip(i - from),
                pow as int,
            ),
            acc + pow <= scale,
        decreases to - i,
    {
        let c = s.get_char(i);
        assert(c == f[i - from]);
        if c < '0' || c > '9' {
            proof {
                assert(!is_digit(f[i - from]));
            }
            return None;
        }
        let dv: u64 = (c as u32 as u64) - ('0' as u32 as u64);
        proof {
            assert(dv as int == digit_val(f[i - from]));
            assert(f.skip(i - from)[0] == f[i - from]);
            assert(f.skip(i - from).drop_first() =~= f.skip(i - from + 1));
            assert(frac_scaled(f.skip(i - from), pow as int) == digit_val(f[i - from]) * (
            pow as int / 10) + frac_scaled(f.skip(i - from + 1), pow as int / 10));
            assert(0 <= dv as int * (pow as int / 10) <= 9 * (pow as int / 10)) by {
                vstd::arithmetic::mul::lemma_mul_inequality(
                    dv as int,
                    9,
                    pow as int / 10,
                );
                vstd::arithmetic::mul::lemma_mul_nonnegative(dv as int, pow as int / 10);
            }
        }
        let p10: u64 = pow / 10;
        acc = acc + dv * p10;
        pow = p10;
        proof {
            assert(f.take(i - from + 1) =~= f.take(i - from).push(f[i - from]));
            assert(all_digits(f.take(i - from + 1)));
        }
        i = i + 1;
    }
    proof {
        assert(f.skip(to - from) =~= Seq::<char>::empty());
        assert(f.take(to - from) =~= f);
    }
    Some(acc)
}

/// Reads `s[from..to]` as an unsigned decimal numeral worth `scale` per
/// whole unit. Returns `None` when the range is not an unsigned decimal
/// numeral, or its whole part alone exceeds `u64::MAX` units.
pub fn read_unsigned_decimal_scaled(s: &str, from: usize, to: usize, scale: u64) -> (r:
    Option<u128>)
    requires
        from <= to <= s@.len(),
    ensures
        ({
            let b = s@.subrange(from as int, to as int);
            match r {
                Some(v) => is_unsigned_decimal(b) && v as int == decimal_scaled(
                    b,
                    scale as int,
                ),
                None => !(is_unsigned_decimal(b) && digits_val(int_part(b)) <= u64::MAX),
            }
        }),
{
    let ghost b = s@.subrange(from as int, to as int);
    // Find the first dot.
    let mut dp: usize = from;
    while dp < to && s.get_char(dp) != '.'
        invariant
            from <= dp <= to <= s@.len(),
            b == s@.subrange(from as int, to as int),
            forall|i: int| 0 <= i < dp - from ==> b[i] != '.',
        decreases to - dp,
    {
        dp = dp + 1;
    }
    proof {
        lemma_dot_index_is(b, dp - from);
        assert(int_part(b) =~= s@.subrange(from as int, dp as int));
    }
    let intv = match read_digits_u64(s, from, dp) {
        Some(v) => v,
        None => {
            return None;
        },
    };
    let fracv: u64;
    if dp < to {
        proof {
            assert(frac_part(b) =~= s@.subrange(dp + 1, to as int));
        }
        if dp == from && dp + 1 == to {
            // A bare dot: no digits at all.
            return None;
        }
        fracv = match read_frac_scaled(s, dp + 1, to, scale) {
            Some(v) => v,
            None => {
                return None;
            },
        };
    } else {
        proof {
            assert(frac_part(b) =~= Seq::<char>::empty());
        }
        if dp == from {
            // Empty numeral.
            return None;
        }
        fracv = 0;
    }
    proof {
        let mi = intv as int;
        let ms = scale as int;
        assert(mi * ms <= (u64::MAX as int) * (u64::MAX as int)) by (nonlinear_arith)
            requires
                0 <= mi <= u64::MAX as int,
                0 <= ms <= u64::MAX as int,
        ;
    }
    let v: u128 = (intv as u128) * (scale as u128) + (fracv as u128);
    Some(v)
}

} // verus!
