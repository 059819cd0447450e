//! The duration codec: Go-style duration strings, as Kubernetes reports them
//! in metric windows. A duration is an optional sign followed either by a
//! bare digit run (whole nanoseconds) or by one or more `<number><unit>`
//! pairs, summed; units are `ns`, `us`, `µs`, `ms`, `s`, `m`, `h`, and the
//! number may carry a fraction (`"23.5s"`, `"1h2m"`).

use vstd::prelude::*;

use crate::decimal::is_digit;
use crate::decimal::digits_end;
use crate::decimal::lemma_digits_end;
use crate::decimal::scan_digits;
use crate::decimal::digit_val;
use crate::decimal::all_digits;
use crate::decimal::digits_val;
use crate::decimal::frac_scaled;
use crate::decimal::lemma_digits_val_nonneg;
use crate::decimal::lemma_frac_scaled_bounds;
use crate::decimal::read_digits_u64;
use crate::decimal::read_frac_scaled;
use crate::decimal::signed_to_i64;

verus! {

/// A unit character is anything but a digit or a dot.
pub open spec fn is_unit_char(c: char) -> bool {
    !is_digit(c) && c != '.'
}

/// End of the unit-character run starting at `i`.
pub open spec fn unit_end(s: Seq<char>, i: int) -> int
    decreases s.len() - i when 0 <= i <= s.len()
{
    if i < s.len() && is_unit_char(s[i]) {
        unit_end(s, i + 1)
    } else {
        i
    }
}

/// The same, for the unit-character run.
pub proof fn lemma_unit_end(s: Seq<char>, i: int)
    requires
        0 <= i <= s.len(),
    ensures
        i <= unit_end(s, i) <= s.len(),
        forall|j: int| i <= j < unit_end(s, i) ==> is_unit_char(s[j]),
        unit_end(s, i) < s.len() ==> !is_unit_char(s[unit_end(s, i)]),
    decreases s.len() - i,
{
    if i < s.len() && is_unit_char(s[i]) {
        lemma_unit_end(s, i + 1);
    }
}

/// Nanoseconds per unit: `ns`, `us`/`µs`, `ms`, `s`, `m`, `h`; anything else
/// is not a unit.
pub open spec fn unit_scale(u: Seq<char>) -> Option<int> {
    if u.len() == 2 && u[0] == 'n' && u[1] == 's' {
        Some(1)
    } else if u.len() == 2 && u[0] == 'u' && u[1] == 's' {
        Some(1000)
    } else if u.len() == 2 && u[0] == 'µ' && u[1] == 's' {
        Some(1000)
    } else if u.len() == 2 && u[0] == 'm' && u[1] == 's' {
        Some(1000000)
    } else if u.len() == 1 && u[0] == 's' {
        Some(1000000000)
    } else if u.len() == 1 && u[0] == 'm' {
        Some(60000000000)
    } else if u.len() == 1 && u[0] == 'h' {
        Some(3600000000000)
    } else {
        None
    }
}

/// One `<number><unit>` pair read at position `i`: its value in nanoseconds
/// and the position just past its unit. The number needs at least one digit
/// before an optional fraction; the unit is the longest run of unit
/// characters and must be known.
pub open spec fn pair_at(s: Seq<char>, i: int) -> Option<(int, int)> {
    let d_end = digits_end(s, i);
    let has_frac = d_end < s.len() && s[d_end] == '.';
    let f_start = if has_frac {
        d_end + 1
    } else {
        d_end
    };
    let f_end = if has_frac {
        digits_end(s, d_end + 1)
    } else {
        d_end
    };
    let u_end = unit_end(s, f_end);
    if d_end > i {
        match unit_scale(s.subrange(f_end, u_end)) {
            Some(scale) => Some(
                (
                    digits_val(s.subrange(i, d_end)) * scale + frac_scaled(
                        s.subrange(f_start, f_end),
                        scale,
                    ),
                    u_end,
                ),
            ),
            None => None,
        }
    } else {
        None
    }
}

/// The summed value of the pairs from `i` to the end of `s`; at least one
/// pair, and nothing left over.
pub open spec fn pairs_nanos(s: Seq<char>, i: int) -> Option<int>
    decreases s.len() - i when 0 <= i <= s.len()
{
    match pair_at(s, i) {
        Some((v, end)) => if end == s.len() {
            Some(v)
        } else if i < end < s.len() {
            match pairs_nanos(s, end) {
                Some(rest) => Some(v + rest),
                None => None,
            }
        } else {
            None
        },
        None => None,
    }
}

/// A pair's value is non-negative and its end lies past `i`.
pub proof fn lemma_pair_at(s: Seq<char>, i: int)
    requires
        0 <= i <= s.len(),
        pair_at(s, i) is Some,
    ensures
        ({
            let (v, end) = pair_at(s, i)->0;
            v >= 0 && i < end <= s.len()
        }),
{
    let d_end = digits_end(s, i);
    lemma_digits_end(s, i);
    let has_frac = d_end < s.len() && s[d_end] == '.';
    let f_start = if has_frac {
        d_end + 1
    } else {
        d_end
    };
    let f_end = if has_frac {
        digits_end(s, d_end + 1)
    } else {
        d_end
    };
    if has_frac {
        lemma_digits_end(s, d_end + 1);
    }
    lemma_unit_end(s, f_end);
    let scale = unit_scale(s.subrange(f_end, unit_end(s, f_end)))->0;
    let ip = s.subrange(i, d_end);
    let fp = s.subrange(f_start, f_end);
    assert(all_digits(ip));
    assert(all_digits(fp));
    lemma_digits_val_nonneg(ip);
    lemma_frac_scaled_bounds(fp, scale);
    assert(digits_val(ip) * scale >= 0) by {
        vstd::arithmetic::mul::lemma_mul_nonnegative(digits_val(ip), scale);
    }
}

/// A pair sum is non-negative, and at least its first pair's value.
pub proof fn lemma_pairs_nanos_nonneg(s: Seq<char>, i: int)
    requires
        0 <= i <= s.len(),
        pairs_nanos(s, i) is Some,
    ensures
        ({
            let (v, end) = pair_at(s, i)->0;
            pairs_nanos(s, i)->0 >= 0 && pairs_nanos(s, i)->0 >= v
        }),
    decreases s.len() - i,
{
    lemma_pair_at(s, i);
    let (v, end) = pair_at(s, i)->0;
    if end != s.len() {
        lemma_pairs_nanos_nonneg(s, end);
    }
}

/// A magnitude beyond 2⁶³ leaves the `i64` nanosecond range whatever the
/// sign.
proof fn lemma_magnitude_out_of_range(value: int, m: int, sign_neg: bool)
    requires
        m > 9223372036854775808,
        value == if sign_neg {
            -1 * m
        } else {
            m
        },
    ensures
        !(i64::MIN <= value <= i64::MAX),
{
}

/// Position of the first character after the optional sign.
pub open spec fn dur_body_start(s: Seq<char>) -> int {
    if s.len() > 0 && (s[0] == '+' || s[0] == '-') {
        1
    } else {
        0
    }
}

/// -1 for a leading minus sign, 1 otherwise.
pub open spec fn dur_sign(s: Seq<char>) -> int {
    if s.len() > 0 && s[0] == '-' {
        -1
    } else {
        1
    }
}

/// The magnitude of the duration `s` in nanoseconds: a bare digit run is
/// read as whole nanoseconds, anything else as a run of pairs.
pub open spec fn dur_magnitude(s: Seq<char>) -> Option<int> {
    let st = dur_body_start(s);
    if st < s.len() && digits_end(s, st) == s.len() {
        Some(digits_val(s.subrange(st, s.len() as int)))
    } else {
        pairs_nanos(s, st)
    }
}

/// The signed value of the duration `s` in nanoseconds; zero when `s` does
/// not parse.
pub open spec fn dur_value(s: Seq<char>) -> int {
    dur_sign(s) * (match dur_magnitude(s) {
        Some(m) => m,
        None => 0,
    })
}

/// A duration parses exactly when it fits the grammar and its value fits in
/// an `i64` of nanoseconds.
pub open spec fn dur_parsable(s: Seq<char>) -> bool {
    &&& dur_magnitude(s) is Some
    &&& i64::MIN <= dur_value(s) <= i64::MAX
}

/// A duration string that is not in the Go notation; it keeps the offending
/// text verbatim.
#[derive(Clone, Debug)]
pub struct DurationFormatError {
    text: String,
}

impl View for DurationFormatError {
    type V = Seq<char>;

    closed spec fn view(&self) -> Seq<char> {
        self.text@
    }
}

impl DurationFormatError {
    /// Records `text` as the offending duration string.
    pub fn new(text: &str) -> (e: DurationFormatError)
        ensures
            e@ == text@,
    {
        DurationFormatError { text: String::from_str(text) }
    }

    /// The offending text.
    pub fn text(&self) -> (t: &str)
        ensures
            t@ == self@,
    {
        self.text.as_str()
    }

    /// A diagnostic line naming the offending text.
    pub fn message(&self) -> (m: String)
        ensures
            m@ == "invalid duration: '"@ + self@ + "'"@,
    {
        let head = String::from_str("invalid duration: '");
        head.concat(self.text.as_str()).concat("'")
    }
}

/// Scans past the unit-character run starting at `from`.
fn scan_unit(s: &str, from: usize) -> (r: usize)
    requires
        from <= s@.len(),
    ensures
        r as int == unit_end(s@, from as int),
        from <= r <= s@.len(),
{
    let n = s.unicode_len();
    let mut i: usize = from;
    while i < n
        invariant
            from <= i <= n == s@.len(),
            unit_end(s@, from as int) == unit_end(s@, i as int),
        decreases n - i,
    {
        let c = s.get_char(i);
        if ('0' <= c && c <= '9') || c == '.' {
            proof {
                assert(!is_unit_char(s@[i as int]));
            }
            return i;
        }
        i = i + 1;
    }
    i
}

/// Parses a Go-style duration into signed nanoseconds. Fails, carrying the
/// text, when the string does not fit the grammar or the value leaves the
/// `i64` range.
pub fn parse_duration(text: &str) -> (r: Result<i64, DurationFormatError>)
    ensures
        r is Ok <==> dur_parsable(text@),
        r matches Ok(v) ==> v as int == dur_value(text@),
        r matches Err(e) ==> e@ == text@,
{
    let ghost s = text@;
    let n = text.unicode_len();
    let (start, negative): (usize, bool) = if n >= 1 {
        let c0 = text.get_char(0);
        if c0 == '-' {
            (1, true)
        } else if c0 == '+' {
            (1, false)
        } else {
            (0, false)
        }
    } else {
        (0, false)
    };
    proof {
        assert(dur_body_start(s) == start as int);
        assert(dur_sign(s) == if negative { -1int } else { 1int });
    }
    if start == n {
        // Nothing after the sign.
        proof {
            assert(pair_at(s, start as int) is None);
        }
        return Err(DurationFormatError::new(text));
    }
    let d0 = scan_digits(text, start);
    if d0 == n {
        // A bare digit run: whole nanoseconds.
        let mag = match read_digits_u64(text, start, n) {
            Some(m) => m,
            None => {
                proof {
                    lemma_digits_end(s, start as int);
                    assert(all_digits(s.subrange(start as int, n as int)));
                    lemma_digits_val_nonneg(s.subrange(start as int, n as int));
                }
                return Err(DurationFormatError::new(text));
            },
        };
        let ghost magi = mag as int;
        let ghost val = dur_value(s);
        proof {
            assert(dur_magnitude(s) == Some(magi));
            assert(val == (if negative {
                -1 * magi
            } else {
                magi
            }));
        }
        return match signed_to_i64(mag as u128, negative) {
            Some(x) => {
                proof {
                    assert(x as int == val);
                    assert(dur_parsable(s));
                }
                Ok(x)
            },
            None => {
                proof {
                    assert(!(i64::MIN <= val <= i64::MAX));
                }
                Err(DurationFormatError::new(text))
            },
        };
    }
    // A run of pairs.
    let mut i: usize = start;
    let mut total: u128 = 0;
    loop
        invariant
            start <= i < n == s.len(),
            s == text@,
            dur_body_start(s) == start as int,
            dur_sign(s) == if negative { -1int } else { 1int },
            !(start < n && digits_end(s, start as int) == n as int),
            total as int <= 9223372036854775808,
            ({
                match pairs_nanos(s, i as int) {
                    Some(v) => pairs_nanos(s, start as int) == Some(total as int + v),
                    None => pairs_nanos(s, start as int) is None,
                }
            }),
        decreases n - i,
    {
        let ghost ii = i as int;
        let d_end = scan_digits(text, i);
        if d_end == i {
            proof {
                assert(pair_at(s, ii) is None);
            }
            return Err(DurationFormatError::new(text));
        }
        let (f_start, f_end): (usize, usize) = if d_end < n && text.get_char(d_end) == '.' {
            (d_end + 1, scan_digits(text, d_end + 1))
        } else {
            (d_end, d_end)
        };
        let u_end = scan_unit(text, f_end);
        let ghost unit = s.subrange(f_end as int, u_end as int);
        proof {
            lemma_unit_end(s, f_end as int);
            assert(unit.len() == u_end - f_end);
        }
        let u_len = u_end - f_end;
        let scale: u64 = if u_len == 1 {
            let c = text.get_char(f_end);
            proof {
                assert(unit[0] == s[f_end as int]);
            }
            if c == 's' {
                1000000000
            } else if c == 'm' {
                60000000000
            } else if c == 'h' {
                3600000000000
            } else {
                proof {
                    assert(unit_scale(unit) is None);
                    assert(pair_at(s, ii) is None);
                }
                return Err(DurationFormatError::new(text));
            }
        } else if u_len == 2 {
            let c0 = text.get_char(f_end);
            let c1 = text.get_char(f_end + 1);
            proof {
                assert(unit[0] == s[f_end as int]);
                assert(unit[1] == s[f_end as int + 1]);
            }
            if c1 != 's' {
                proof {
                    assert(unit_scale(unit) is None);
                    assert(pair_at(s, ii) is None);
                }
                return Err(DurationFormatError::new(text));
            } else if c0 == 'n' {
                1
            } else if c0 == 'u' {
                1000
            } else if c0 == 'µ' {
                1000
            } else if c0 == 'm' {
                1000000
            } else {
                proof {
                    assert(unit_scale(unit) is None);
                    assert(pair_at(s, ii) is None);
                }
                return Err(DurationFormatError::new(text));
            }
        } else {
            proof {
                assert(unit_scale(unit) is None);
                assert(pair_at(s, ii) is None);
            }
            return Err(DurationFormatError::new(text));
        };
        proof {
            assert(unit_scale(unit) == Some(scale as int));
        }
        proof {
            lemma_digits_end(s, ii);
            assert(all_digits(s.subrange(ii, d_end as int)));
            if f_start > d_end {
                lemma_digits_end(s, d_end as int + 1);
            }
            assert(all_digits(s.subrange(f_start as int, f_end as int)));
        }
        let ip = match read_digits_u64(text, i, d_end) {
            Some(v) => v,
            None => {
                // The whole part alone already exceeds any representable
                // duration.
                proof {
                    if pairs_nanos(s, ii) is Some {
                        lemma_pairs_nanos_nonneg(s, ii);
                        let (pv0, end0) = pair_at(s, ii)->0;
                        let ipv = digits_val(s.subrange(ii, d_end as int));
                        let ms = scale as int;
                        lemma_frac_scaled_bounds(
                            s.subrange(f_start as int, f_end as int),
                            ms,
                        );
                        lemma_digits_val_nonneg(s.subrange(ii, d_end as int));
                        assert(ipv * ms >= ipv) by (nonlinear_arith)
                            requires
                                ipv >= 0,
                                ms >= 1,
                        ;
                        assert(pv0 > u64::MAX);
                        let m = pairs_nanos(s, start as int)->0;
                        assert(m >= pv0);
                        assert(dur_value(s) == (if negative {
                            -1 * m
                        } else {
                            m
                        }));
                        lemma_magnitude_out_of_range(dur_value(s), m, negative);
                    }
                }
                return Err(DurationFormatError::new(text));
            },
        };
        let fv = match read_frac_scaled(text, f_start, f_end, scale) {
            Some(v) => v,
            None => {
                // Unreachable: the fraction run was scanned as digits.
                return Err(DurationFormatError::new(text));
            },
        };
        proof {
            let mi = ip as int;
            let ms = scale as int;
            assert(mi * ms <= (u64::MAX as int) * 3600000000000int) by (nonlinear_arith)
                requires
                    0 <= mi <= u64::MAX as int,
                    0 <= ms <= 3600000000000int,
            ;
            vstd::arithmetic::mul::lemma_mul_nonnegative(mi, ms);
        }
        let pair_v: u128 = (ip as u128) * (scale as u128) + (fv as u128);
        let ghost pv = pair_v as int;
        proof {
            assert(pair_at(s, ii) == Some((pv, u_end as int)));
        }
        if u_end == n {
            total = total + pair_v;
            proof {
                assert(pairs_nanos(s, ii) == Some(pv));
                assert(pairs_nanos(s, start as int) == Some(total as int));
                assert(dur_magnitude(s) == Some(total as int));
            }
            let ghost magi = total as int;
            let ghost val = dur_value(s);
            proof {
                assert(val == (if negative {
                    -1 * magi
                } else {
                    magi
                }));
            }
            return match signed_to_i64(total, negative) {
                Some(x) => {
                    proof {
                        assert(x as int == val);
                        assert(dur_parsable(s));
                    }
                    Ok(x)
                },
                None => {
                    proof {
                        assert(!(i64::MIN <= val <= i64::MAX));
                        assert(!dur_parsable(s));
                    }
                    Err(DurationFormatError::new(text))
                },
            };
        }
        total = total + pair_v;
        proof {
            if pairs_nanos(s, u_end as int) is Some {
                let rest = pairs_nanos(s, u_end as int)->0;
                assert(pairs_nanos(s, ii) == Some(pv + rest));
            } else {
                assert(pairs_nanos(s, ii) is None);
            }
        }
        if total > 9223372036854775808u128 {
            proof {
                if pairs_nanos(s, u_end as int) is Some {
                    lemma_pairs_nanos_nonneg(s, u_end as int);
                    let rest = pairs_nanos(s, u_end as int)->0;
                    let m = pairs_nanos(s, start as int)->0;
                    assert(m == total as int + rest);
                    assert(m > 9223372036854775808);
                    assert(dur_value(s) == (if negative {
                        -1 * m
                    } else {
                        m
                    }));
                    lemma_magnitude_out_of_range(dur_value(s), m, negative);
                }
            }
            return Err(DurationFormatError::new(text));
        }
        i = u_end;
    }
}

/// The one-character string `"0"` is a valid duration denoting zero.
pub proof fn lemma_zero_parsable()
    ensures
        dur_parsable("0"@),
        dur_value("0"@) == 0,
{
    reveal_strlit("0");
    let s = "0"@;
    assert(s.len() == 1);
    assert(is_digit(s[0]));
    assert(dur_body_start(s) == 0);
    assert(digits_end(s, 1) == 1);
    assert(digits_end(s, 0) == 1);
    assert(s.subrange(0, 1) =~= s);
    assert(s.drop_last() =~= Seq::<char>::empty());
    assert(digits_val(s) == digits_val(Seq::<char>::empty()) * 10 + digit_val(s[0]));
    assert(digit_val('0') == 0);
    assert(dur_magnitude(s) == Some(0int));
}

/// A duration, kept in its textual wire form together with the
/// nanoseconds it denotes; the two always agree.
#[derive(Clone, Debug, PartialEq, Eq)]
pub struct Duration {
    text: String,
    nanos: i64,
}

impl Duration {
    /// The stored text, as a sequence of characters.
    pub closed spec fn spec_text(&self) -> Seq<char> {
        self.text@
    }

    /// The stored value, in nanoseconds.
    pub closed spec fn spec_nanos(&self) -> int {
        self.nanos as int
    }

    /// The text parses and denotes exactly the stored nanoseconds.
    pub open spec fn wf(&self) -> bool {
        &&& dur_parsable(self.spec_text())
        &&& self.spec_nanos() == dur_value(self.spec_text())
    }

    /// Parses `text` as a Go-style duration, keeping the text verbatim.
    pub fn parse(text: &str) -> (r: Result<Duration, DurationFormatError>)
        ensures
            r is Ok <==> dur_parsable(text@),
            r matches Ok(d) ==> d.wf() && d.spec_text() == text@ && d.spec_nanos()
                == dur_value(text@),
            r matches Err(e) ==> e@ == text@,
    {
        match parse_duration(text) {
            Ok(n) => Ok(Duration { text: String::from_str(text), nanos: n }),
            Err(e) => Err(e),
        }
    }

    /// The zero duration, written `"0"`.
    pub fn zero() -> (d: Duration)
        ensures
            d.wf(),
            d.spec_text() == "0"@,
            d.spec_nanos() == 0,
    {
        proof {
            lemma_zero_parsable();
        }
        Duration { text: String::from_str("0"), nanos: 0 }
    }

    /// The duration in whole nanoseconds.
    pub fn as_nanos(&self) -> (n: i64)
        ensures
            n as int == self.spec_nanos(),
    {
        self.nanos
    }

    /// The stored text.
    pub fn text(&self) -> (t: &str)
        ensures
            t@ == self.spec_text(),
    {
        self.text.as_str()
    }

    /// A textual form of the duration, for diagnostics and round trips:
    /// the text it was parsed from, which denotes exactly its
    /// nanoseconds.
    pub fn format(&self) -> (r: String)
        ensures
            r@ == self.spec_text(),
    {
        self.text.clone()
    }
}

} // verus!
