//! The quantity codec: Kubernetes resource-quantity strings such as
//! `"1848836Ki"` (memory, bytes) and `"196382978n"` (CPU, fractional cores).
//!
//! A memory quantity is a signed integer with an optional binary suffix
//! (`Ki`, `Mi`, `Gi`). A CPU quantity is a signed decimal with an optional
//! metric suffix (`n`, `u`, `m`); its exact value is reported in whole
//! nanocores, so `"3491m"` is 3_491_000_000 nanocores (3.491 cores).

use vstd::prelude::*;

use crate::decimal::is_int_literal;
use crate::decimal::int_literal_val;
use crate::decimal::is_decimal_literal;
use crate::decimal::signed_decimal_scaled;
use crate::decimal::num_body;
use crate::decimal::num_sign;
use crate::decimal::int_part;
use crate::decimal::frac_part;
use crate::decimal::digits_val;
use crate::decimal::lemma_digits_val_nonneg;
use crate::decimal::lemma_frac_scaled_bounds;
use crate::decimal::read_int_i64;
use crate::decimal::read_unsigned_decimal_scaled;
use crate::decimal::decimal_scaled;

verus! {

/// A resource quantity, kept in its textual wire form and parsed on demand.
#[derive(Clone, Debug, PartialEq, Eq)]
pub struct Quantity(pub String);

impl View for Quantity {
    type V = Seq<char>;

    open spec fn view(&self) -> Seq<char> {
        self.0@
    }
}

impl Quantity {
    /// Wraps a quantity string verbatim.
    pub fn from_text(text: &str) -> (q: Quantity)
        ensures
            q@ == text@,
    {
        Quantity(String::from_str(text))
    }

    /// The stored text.
    pub fn text(&self) -> (t: &str)
        ensures
            t@ == self@,
    {
        self.0.as_str()
    }

    /// The quantity read as bytes of memory.
    pub fn to_memory(&self) -> (r: Result<i64, QuantityParseError>)
        ensures
            r is Ok <==> mem_parsable(self@),
            r matches Ok(v) ==> v as int == mem_value(self@),
            r matches Err(e) ==> e@ == self@,
    {
        parse_as_bytes(self.0.as_str())
    }

    /// The quantity read as whole nanocores of CPU.
    pub fn to_nanocores(&self) -> (r: Result<i64, QuantityParseError>)
        ensures
            r is Ok <==> cpu_parsable(self@),
            r matches Ok(v) ==> v as int == cpu_value(self@),
            r matches Err(e) ==> e@ == self@,
    {
        parse_as_fractional(self.0.as_str())
    }
}

/// A quantity string whose number or suffix could not be read; it keeps the
/// offending text verbatim.
#[derive(Clone, Debug)]
pub struct QuantityParseError {
    text: String,
}

impl View for QuantityParseError {
    type V = Seq<char>;

    closed spec fn view(&self) -> Seq<char> {
        self.text@
    }
}

impl QuantityParseError {
    /// Records `text` as the offending quantity string.
    pub fn new(text: &str) -> (e: QuantityParseError)
        ensures
            e@ == text@,
    {
        QuantityParseError { text: String::from_str(text) }
    }

    /// The offending text.
    pub fn text(&self) -> (t: &str)
        ensures
            t@ == self@,
    {
        self.text.as_str()
    }

    /// A diagnostic line naming the offending text.
    pub fn message(&self) -> (m: String)
        ensures
            m@ == "Unexpected format: "@ + self@,
    {
        let prefix = String::from_str("Unexpected format: ");
        prefix.concat(self.text.as_str())
    }
}

/// The memory suffix is the last two characters, one of `Ki`, `Mi`, `Gi`.
pub open spec fn has_mem_suffix(s: Seq<char>) -> bool {
    s.len() >= 2 && s.last() == 'i' && (s[s.len() - 2] == 'K' || s[s.len() - 2] == 'M'
        || s[s.len() - 2] == 'G')
}

/// Bytes per unit for the memory suffix of `s`: 1024 for `Ki`, 1024² for
/// `Mi`, 1024³ for `Gi`, and 1 with no suffix.
pub open spec fn mem_scale(s: Seq<char>) -> int {
    if has_mem_suffix(s) {
        if s[s.len() - 2] == 'K' {
            1024
        } else if s[s.len() - 2] == 'M' {
            1048576
        } else {
            1073741824
        }
    } else {
        1
    }
}

/// The numeric prefix of a memory quantity: everything before the suffix.
pub open spec fn mem_prefix(s: Seq<char>) -> Seq<char> {
    if has_mem_suffix(s) {
        s.take(s.len() - 2)
    } else {
        s
    }
}

/// The byte value of the memory quantity `s`.
pub open spec fn mem_value(s: Seq<char>) -> int {
    int_literal_val(mem_prefix(s)) * mem_scale(s)
}

/// A memory quantity parses exactly when its prefix is a signed integer
/// whose value, and scaled value, fit in an `i64`.
pub open spec fn mem_parsable(s: Seq<char>) -> bool {
    &&& is_int_literal(mem_prefix(s))
    &&& i64::MIN <= int_literal_val(mem_prefix(s)) <= i64::MAX
    &&& i64::MIN <= mem_value(s) <= i64::MAX
}

/// Parses a memory quantity into bytes: `"{n}Ki"`, `"{n}Mi"`, `"{n}Gi"` give
/// n × 1024, 1024², 1024³, and a bare `"{n}"` gives n. Fails, carrying the
/// text, when the prefix is not an integer, the suffix is unrecognized, or
/// the value leaves the `i64` range.
pub fn parse_as_bytes(text: &str) -> (r: Result<i64, QuantityParseError>)
    ensures
        r is Ok <==> mem_parsable(text@),
        r matches Ok(v) ==> v as int == mem_value(text@),
        r matches Err(e) ==> e@ == text@,
{
    let n = text.unicode_len();
    let (end, scale): (usize, i64) = if n >= 2 {
        let a = text.get_char(n - 2);
        let b = text.get_char(n - 1);
        if b == 'i' && a == 'K' {
            (n - 2, 1024)
        } else if b == 'i' && a == 'M' {
            (n - 2, 1048576)
        } else if b == 'i' && a == 'G' {
            (n - 2, 1073741824)
        } else {
            (n, 1)
        }
    } else {
        (n, 1)
    };
    proof {
        assert(mem_prefix(text@) =~= text@.subrange(0, end as int));
        assert(mem_scale(text@) == scale as int);
    }
    match read_int_i64(text, 0, end) {
        Some(v) => match v.checked_mul(scale) {
            Some(b) => Ok(b),
            None => Err(QuantityParseError::new(text)),
        },
        None => Err(QuantityParseError::new(text)),
    }
}

/// The CPU suffix is the last character, one of `n`, `u`, `m`.
pub open spec fn has_cpu_suffix(s: Seq<char>) -> bool {
    s.len() >= 1 && (s.last() == 'n' || s.last() == 'u' || s.last() == 'm')
}

/// Nanocores per unit for the CPU suffix of `s`: 1 for `n`, 10³ for `u`,
/// 10⁶ for `m`, and 10⁹ with no suffix (whole cores).
pub open spec fn cpu_scale(s: Seq<char>) -> int {
    if has_cpu_suffix(s) {
        if s.last() == 'n' {
            1
        } else if s.last() == 'u' {
            1000
        } else {
            1000000
        }
    } else {
        1000000000
    }
}

/// The numeric prefix of a CPU quantity: everything before the suffix.
pub open spec fn cpu_prefix(s: Seq<char>) -> Seq<char> {
    if has_cpu_suffix(s) {
        s.drop_last()
    } else {
        s
    }
}

/// The nanocore value of the CPU quantity `s`: its decimal prefix scaled by
/// its suffix, finer-than-nanocore digits truncated.
pub open spec fn cpu_value(s: Seq<char>) -> int {
    signed_decimal_scaled(cpu_prefix(s), cpu_scale(s))
}

/// A CPU quantity parses exactly when its prefix is a signed decimal whose
/// nanocore value fits in an `i64`.
pub open spec fn cpu_parsable(s: Seq<char>) -> bool {
    &&& is_decimal_literal(cpu_prefix(s))
    &&& i64::MIN <= cpu_value(s) <= i64::MAX
}

/// Parses a CPU quantity into whole nanocores: `"{n}n"`, `"{n}u"`, `"{n}m"`
/// give n, n × 10³, n × 10⁶, and a bare `"{n}"` gives n × 10⁹. Fails,
/// carrying the text, when the prefix is not a decimal, the suffix is
/// unrecognized, or the value leaves the `i64` range.
pub fn parse_as_fractional(text: &str) -> (r: Result<i64, QuantityParseError>)
    ensures
        r is Ok <==> cpu_parsable(text@),
        r matches Ok(v) ==> v as int == cpu_value(text@),
        r matches Err(e) ==> e@ == text@,
{
    let n = text.unicode_len();
    let (end, scale): (usize, u64) = if n >= 1 {
        let c = text.get_char(n - 1);
        if c == 'n' {
            (n - 1, 1)
        } else if c == 'u' {
            (n - 1, 1000)
        } else if c == 'm' {
            (n - 1, 1000000)
        } else {
            (n, 1000000000)
        }
    } else {
        (n, 1000000000)
    };
    let ghost prefix = cpu_prefix(text@);
    proof {
        assert(prefix =~= text@.subrange(0, end as int));
        assert(cpu_scale(text@) == scale as int);
    }
    let (start, negative): (usize, bool) = if end >= 1 {
        let c0 = text.get_char(0);
        if c0 == '-' {
            (1, true)
        } else if c0 == '+' {
            (1, false)
        } else {
            (0, false)
        }
    } else {
        (0, false)
    };
    proof {
        assert(num_body(prefix) =~= text@.subrange(start as int, end as int));
        assert(num_sign(prefix) == if negative { -1int } else { 1int });
    }
    let mag = match read_unsigned_decimal_scaled(text, start, end, scale) {
        Some(m) => m,
        None => {
            proof {
                if is_decimal_literal(prefix) {
                    lemma_cpu_too_big(prefix, scale as int);
                }
            }
            return Err(QuantityParseError::new(text));
        },
    };
    let ghost val = cpu_value(text@);
    let ghost magi = mag as int;
    proof {
        assert(is_decimal_literal(prefix));
        assert(val == (if negative {
            -1 * magi
        } else {
            magi
        })) by {
            assert(decimal_scaled(num_body(prefix), scale as int) == magi);
            assert(num_sign(prefix) == if negative {
                -1int
            } else {
                1int
            });
            assert(val == num_sign(prefix) * decimal_scaled(
                num_body(prefix),
                cpu_scale(text@),
            ));
        }
    }
    match crate::decimal::signed_to_i64(mag, negative) {
        Some(x) => {
            proof {
                assert(x as int == (if negative {
                    -1 * magi
                } else {
                    magi
                }));
                assert(x as int == val);
                assert(cpu_parsable(text@));
            }
            Ok(x)
        },
        None => {
            proof {
                assert(!(i64::MIN <= (if negative {
                    -1 * magi
                } else {
                    magi
                }) <= i64::MAX));
                assert(!cpu_parsable(text@));
            }
            Err(QuantityParseError::new(text))
        },
    }
}

/// For every digit run `n`: `"{n}Ki"`, `"{n}Mi"`, `"{n}Gi"` are worth
/// n × 1024, 1024², 1024³ bytes, and a bare `"{n}"` is worth n bytes.
pub proof fn lemma_bytes_binary_suffixes(d: Seq<char>)
    requires
        d.len() > 0,
        crate::decimal::all_digits(d),
    ensures
        mem_value(d + "Ki"@) == digits_val(d) * 1024,
        mem_value(d + "Mi"@) == digits_val(d) * 1048576,
        mem_value(d + "Gi"@) == digits_val(d) * 1073741824,
        mem_value(d) == digits_val(d),
{
    reveal_strlit("Ki");
    reveal_strlit("Mi");
    reveal_strlit("Gi");
    lemma_one_suffix(d, "Ki"@, 1024);
    lemma_one_suffix(d, "Mi"@, 1048576);
    lemma_one_suffix(d, "Gi"@, 1073741824);
    assert(crate::decimal::is_digit(d[0]));
    assert(num_body(d) == d);
    assert(mem_scale(d) == 1);
    assert(mem_value(d) == digits_val(d));
}

/// One binary suffix case of `lemma_bytes_binary_suffixes`.
proof fn lemma_one_suffix(d: Seq<char>, suffix: Seq<char>, scale: int)
    requires
        d.len() > 0,
        crate::decimal::all_digits(d),
        suffix.len() == 2,
        suffix[1] == 'i',
        suffix[0] == 'K' || suffix[0] == 'M' || suffix[0] == 'G',
        scale == (if suffix[0] == 'K' {
            1024int
        } else if suffix[0] == 'M' {
            1048576int
        } else {
            1073741824int
        }),
    ensures
        mem_value(d + suffix) == digits_val(d) * scale,
{
    let s = d + suffix;
    assert(s.last() == 'i');
    assert(s[s.len() - 2] == suffix[0]);
    assert(has_mem_suffix(s));
    assert(mem_scale(s) == scale);
    assert(mem_prefix(s) =~= d);
    assert(crate::decimal::is_digit(d[0]));
    assert(num_body(d) == d);
    assert(int_literal_val(d) == digits_val(d));
}

/// Leading zeros do not change what a digit run denotes.
pub proof fn lemma_leading_zero(d: Seq<char>)
    ensures
        digits_val(seq!['0'] + d) == digits_val(d),
    decreases d.len(),
{
    let s = seq!['0'] + d;
    if d.len() == 0 {
        assert(s =~= seq!['0']);
        assert(s.drop_last() =~= Seq::<char>::empty());
        assert(digits_val(Seq::<char>::empty()) == 0);
        assert(digits_val(s) == crate::decimal::digit_val('0'));
    } else {
        lemma_leading_zero(d.drop_last());
        assert(s.drop_last() =~= seq!['0'] + d.drop_last());
        assert(s.last() == d.last());
    }
}

/// For every digit run `n`: `"{n}n"`, `"{n}u"`, `"{n}m"` are worth n,
/// n × 10³, n × 10⁶ nanocores, and a bare `"{n}"` is worth n × 10⁹
/// nanocores (n whole cores).
pub proof fn lemma_cpu_metric_suffixes(d: Seq<char>)
    requires
        d.len() > 0,
        crate::decimal::all_digits(d),
    ensures
        cpu_value(d + "n"@) == digits_val(d),
        cpu_value(d + "u"@) == digits_val(d) * 1000,
        cpu_value(d + "m"@) == digits_val(d) * 1000000,
        cpu_value(d) == digits_val(d) * 1000000000,
{
    reveal_strlit("n");
    reveal_strlit("u");
    reveal_strlit("m");
    lemma_one_cpu_suffix(d, 'n', 1);
    assert(d + "n"@ =~= d.push('n'));
    lemma_one_cpu_suffix(d, 'u', 1000);
    assert(d + "u"@ =~= d.push('u'));
    lemma_one_cpu_suffix(d, 'm', 1000000);
    assert(d + "m"@ =~= d.push('m'));
    assert(crate::decimal::is_digit(d.last()));
    assert(!has_cpu_suffix(d));
    assert(cpu_prefix(d) == d);
    lemma_all_digits_decimal(d);
    assert(cpu_value(d) == digits_val(d) * 1000000000);
}

/// One metric suffix case of `lemma_cpu_metric_suffixes`.
proof fn lemma_one_cpu_suffix(d: Seq<char>, suffix: char, scale: int)
    requires
        d.len() > 0,
        crate::decimal::all_digits(d),
        suffix == 'n' || suffix == 'u' || suffix == 'm',
        scale == (if suffix == 'n' {
            1int
        } else if suffix == 'u' {
            1000int
        } else {
            1000000int
        }),
    ensures
        cpu_value(d.push(suffix)) == digits_val(d) * scale,
{
    let s = d.push(suffix);
    assert(s.last() == suffix);
    assert(has_cpu_suffix(s));
    assert(cpu_scale(s) == scale);
    assert(cpu_prefix(s) =~= d);
    lemma_all_digits_decimal(d);
}

/// A bare digit run is a decimal numeral worth its digits, whole units
/// only.
proof fn lemma_all_digits_decimal(d: Seq<char>)
    requires
        d.len() > 0,
        crate::decimal::all_digits(d),
    ensures
        is_decimal_literal(d),
        forall|scale: int| #[trigger] signed_decimal_scaled(d, scale) == digits_val(d) * scale,
{
    assert(crate::decimal::is_digit(d[0]));
    assert(num_body(d) == d);
    crate::decimal::lemma_dot_index_is(d, d.len() as int);
    assert(int_part(d) =~= d);
    assert(frac_part(d) =~= Seq::<char>::empty());
    assert forall|scale: int| #[trigger] signed_decimal_scaled(d, scale) == digits_val(d)
        * scale by {
        assert(crate::decimal::frac_scaled(frac_part(d), scale) == 0);
        assert(decimal_scaled(d, scale) == digits_val(d) * scale);
    }
}

/// When the whole part of a decimal does not even fit a `u64`, its scaled
/// value cannot fit an `i64` either.
proof fn lemma_cpu_too_big(p: Seq<char>, scale: int)
    requires
        is_decimal_literal(p),
        scale >= 1,
        digits_val(int_part(num_body(p))) > u64::MAX,
    ensures
        !(i64::MIN <= signed_decimal_scaled(p, scale) <= i64::MAX),
{
    let b = num_body(p);
    lemma_digits_val_nonneg(int_part(b));
    lemma_frac_scaled_bounds(frac_part(b), scale);
    assert(digits_val(int_part(b)) * scale >= digits_val(int_part(b)) * 1) by {
        vstd::arithmetic::mul::lemma_mul_inequality(1, scale, digits_val(int_part(b)));
    }
}

} // verus!
