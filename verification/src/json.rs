//! A small JSON layer for the metrics wire format: a document tree, a
//! renderer and a parser. It covers what the Kubernetes metrics payloads
//! use: objects, arrays, strings with the common escapes, signed whole
//! numbers (an `i64`), booleans and null.

use vstd::prelude::*;

use crate::decimal::digit_val;
use crate::decimal::digits_end;
use crate::decimal::digits_val;
use crate::decimal::is_digit;
use crate::decimal::lemma_digits_end;
use crate::decimal::lemma_digits_val_nonneg;
use crate::decimal::read_digits_u64;
use crate::decimal::scan_digits;
use crate::decimal::signed_to_i64;

verus! {

broadcast use {vstd::std_specs::vec::group_vec_axioms, vstd::seq::group_seq_axioms};

/// The mathematical shape of a JSON document.
pub enum JsonV {
    Null,
    Bool(bool),
    Int(int),
    Str(Seq<char>),
    Arr(Seq<JsonV>),
    Obj(Seq<(Seq<char>, JsonV)>),
}

/// A JSON document. Object members keep their wire order and may repeat;
/// lookups take the first match.
#[derive(Debug, PartialEq, Eq)]
pub enum Json {
    Null,
    Bool(bool),
    Int(i64),
    Str(String),
    Arr(Vec<Json>),
    Obj(Vec<(String, Json)>),
}

/// The mathematical value of a document.
pub open spec fn jv(j: Json) -> JsonV
    decreases j, 1int,
{
    match j {
        Json::Null => JsonV::Null,
        Json::Bool(b) => JsonV::Bool(b),
        Json::Int(n) => JsonV::Int(n as int),
        Json::Str(t) => JsonV::Str(t@),
        Json::Arr(es) => JsonV::Arr(jv_seq(es@)),
        Json::Obj(ms) => JsonV::Obj(jv_members(ms@)),
    }
}

/// The mathematical values of a sequence of documents.
pub open spec fn jv_seq(es: Seq<Json>) -> Seq<JsonV>
    decreases es, 0int,
{
    if es.len() == 0 {
        Seq::empty()
    } else {
        seq![jv(es[0])] + jv_seq(es.drop_first())
    }
}

/// The mathematical values of a sequence of members.
pub open spec fn jv_members(ms: Seq<(String, Json)>) -> Seq<(Seq<char>, JsonV)>
    decreases ms, 0int,
{
    if ms.len() == 0 {
        Seq::empty()
    } else {
        seq![(ms[0].0@, jv(ms[0].1))] + jv_members(ms.drop_first())
    }
}

/// `jv_seq` maps the sequence element by element.
pub proof fn lemma_jv_seq(es: Seq<Json>)
    ensures
        jv_seq(es).len() == es.len(),
        forall|k: int| 0 <= k < es.len() ==> jv_seq(es)[k] == jv(es[k]),
    decreases es.len(),
{
    if es.len() > 0 {
        lemma_jv_seq(es.drop_first());
        assert forall|k: int| 0 <= k < es.len() implies jv_seq(es)[k] == jv(es[k]) by {
            if k > 0 {
                assert(es.drop_first()[k - 1] == es[k]);
            }
        }
    }
}

/// `jv_members` maps the sequence member by member.
pub proof fn lemma_jv_members(ms: Seq<(String, Json)>)
    ensures
        jv_members(ms).len() == ms.len(),
        forall|k: int|
            0 <= k < ms.len() ==> jv_members(ms)[k] == (ms[k].0@, jv(ms[k].1)),
    decreases ms.len(),
{
    if ms.len() > 0 {
        lemma_jv_members(ms.drop_first());
        assert forall|k: int|
            0 <= k < ms.len() implies jv_members(ms)[k] == (ms[k].0@, jv(ms[k].1)) by {
            if k > 0 {
                assert(ms.drop_first()[k - 1] == ms[k]);
            }
        }
    }
}

impl View for Json {
    type V = JsonV;

    open spec fn view(&self) -> JsonV {
        jv(*self)
    }
}

/// Relies on `String::push`: appends exactly the one character.
#[verifier::external_body]
fn push_char(out: &mut String, c: char)
    ensures
        final(out)@ == old(out)@.push(c),
{
    out.push(c);
}

/// How one character appears inside a rendered JSON string.
pub open spec fn esc_char_rep(c: char) -> Seq<char> {
    if c == '"' {
        seq!['\\', '"']
    } else if c == '\\' {
        seq!['\\', '\\']
    } else if c == '\n' {
        seq!['\\', 'n']
    } else if c == '\t' {
        seq!['\\', 't']
    } else if c == '\r' {
        seq!['\\', 'r']
    } else {
        seq![c]
    }
}

/// A string's characters, escaped for rendering.
pub open spec fn escaped(t: Seq<char>) -> Seq<char>
    decreases t.len(),
{
    if t.len() == 0 {
        Seq::empty()
    } else {
        esc_char_rep(t[0]) + escaped(t.drop_first())
    }
}

/// Extending the string extends its escaped form.
pub proof fn lemma_escaped_snoc(t: Seq<char>, i: int)
    requires
        0 <= i < t.len(),
    ensures
        escaped(t.take(i + 1)) == escaped(t.take(i)) + esc_char_rep(t[i]),
    decreases i,
{
    if i == 0 {
        assert(t.take(1) =~= seq![t[0]]);
        assert(t.take(1).drop_first() =~= Seq::<char>::empty());
        assert(t.take(0) =~= Seq::<char>::empty());
        assert(escaped(t.take(1)) =~= escaped(t.take(0)) + esc_char_rep(t[0]));
    } else {
        lemma_escaped_snoc(t.drop_first(), i - 1);
        assert(t.take(i + 1).drop_first() =~= t.drop_first().take(i));
        assert(t.take(i).drop_first() =~= t.drop_first().take(i - 1));
        assert(t.take(i + 1)[0] == t[0]);
        assert(t.take(i)[0] == t[0]);
        assert(t.drop_first()[i - 1] == t[i]);
        assert(escaped(t.take(i + 1)) =~= escaped(t.take(i)) + esc_char_rep(t[i]));
    }
}

/// The decimal digits of `n`, most significant first.
pub open spec fn dec_rep(n: int) -> Seq<char>
    decreases n when n >= 0
{
    if n < 10 {
        seq![digit_char(n)]
    } else {
        dec_rep(n / 10).push(digit_char(n % 10))
    }
}

/// The digit character for one digit value.
pub open spec fn digit_char(d: int) -> char {
    if d == 0 {
        '0'
    } else if d == 1 {
        '1'
    } else if d == 2 {
        '2'
    } else if d == 3 {
        '3'
    } else if d == 4 {
        '4'
    } else if d == 5 {
        '5'
    } else if d == 6 {
        '6'
    } else if d == 7 {
        '7'
    } else if d == 8 {
        '8'
    } else {
        '9'
    }
}

/// The rendering of a signed whole number.
pub open spec fn int_rep(n: int) -> Seq<char> {
    if n < 0 {
        seq!['-'] + dec_rep(-n)
    } else {
        dec_rep(n)
    }
}

/// The canonical rendering of a document: no whitespace, members in stored
/// order, strings escaped by `esc_char_rep`.
pub open spec fn spec_render(j: JsonV) -> Seq<char>
    decreases j, 0int,
{
    match j {
        JsonV::Null => seq!['n', 'u', 'l', 'l'],
        JsonV::Bool(b) => if b {
            seq!['t', 'r', 'u', 'e']
        } else {
            seq!['f', 'a', 'l', 's', 'e']
        },
        JsonV::Int(n) => int_rep(n),
        JsonV::Str(t) => seq!['"'] + escaped(t) + seq!['"'],
        JsonV::Arr(es) => seq!['['] + render_elems_from(es, 0) + seq![']'],
        JsonV::Obj(ms) => seq!['{'] + render_members_from(ms, 0) + seq!['}'],
    }
}

/// Appends the escaped form of `t` to `out`.
fn render_string_body(t: &str, out: &mut String)
    ensures
        final(out)@ == old(out)@ + escaped(t@),
{
    let n = t.unicode_len();
    let mut i: usize = 0;
    proof {
        assert(t@.take(0) =~= Seq::<char>::empty());
        assert(old(out)@ + escaped(t@.take(0)) =~= old(out)@);
    }
    while i < n
        invariant
            i <= n == t@.len(),
            out@ == old(out)@ + escaped(t@.take(i as int)),
        decreases n - i,
    {
        let c = t.get_char(i);
        if c == '"' || c == '\\' {
            push_char(out, '\\');
            push_char(out, c);
        } else if c == '\n' {
            push_char(out, '\\');
            push_char(out, 'n');
        } else if c == '\t' {
            push_char(out, '\\');
            push_char(out, 't');
        } else if c == '\r' {
            push_char(out, '\\');
            push_char(out, 'r');
        } else {
            push_char(out, c);
        }
        proof {
            lemma_escaped_snoc(t@, i as int);
            assert(out@ =~= old(out)@ + escaped(t@.take(i + 1)));
        }
        i = i + 1;
    }
    proof {
        assert(t@.take(n as int) =~= t@);
    }
}

/// Appends the decimal digits of `n` to `out`.
fn render_u64(n: u64, out: &mut String)
    ensures
        final(out)@ == old(out)@ + dec_rep(n as int),
{
    let mut digits: Vec<char> = Vec::new();
    let mut cur: u64 = n;
    proof {
        assert(dec_rep(n as int) + digits@.reverse() =~= dec_rep(n as int));
    }
    while cur >= 10
        invariant
            dec_rep(n as int) == dec_rep(cur as int) + digits@.reverse(),
        decreases cur,
    {
        let d: u64 = cur % 10;
        let c = digit_char_of(d);
        proof {
            assert(dec_rep(cur as int) == dec_rep(cur as int / 10).push(digit_char(
                cur as int % 10,
            )));
            assert((digits@.push(c)).reverse() =~= seq![c] + digits@.reverse());
            assert(dec_rep(cur as int / 10) + (seq![c] + digits@.reverse()) =~= (dec_rep(
                cur as int / 10,
            ).push(c)) + digits@.reverse());
        }
        digits.push(c);
        cur = cur / 10;
    }
    let top = digit_char_of(cur);
    push_char(out, top);
    proof {
        assert(dec_rep(cur as int) == seq![digit_char(cur as int)]);
        assert(out@ + digits@.reverse().take(0) =~= old(out)@.push(top));
    }
    let m = digits.len();
    let mut k: usize = 0;
    while k < m
        invariant
            k <= m == digits@.len(),
            dec_rep(n as int) == seq![digit_char(cur as int)] + digits@.reverse(),
            out@ == old(out)@.push(digit_char(cur as int)) + digits@.reverse().take(
                k as int,
            ),
        decreases m - k,
    {
        let c = digits[m - 1 - k];
        push_char(out, c);
        proof {
            let r = digits@.reverse();
            assert(r[k as int] == digits@[m - 1 - k]);
            assert(r.take(k as int + 1) =~= r.take(k as int).push(digits@[m - 1 - k]));
            assert(out@ =~= old(out)@.push(digit_char(cur as int)) + r.take(k as int + 1));
        }
        k = k + 1;
    }
    proof {
        assert(digits@.reverse().take(m as int) =~= digits@.reverse());
        assert(out@ =~= old(out)@ + (seq![digit_char(cur as int)] + digits@.reverse()));
    }
}

/// The digit character, executably.
fn digit_char_of(d: u64) -> (c: char)
    requires
        d <= 9,
    ensures
        c == digit_char(d as int),
{
    if d == 0 {
        '0'
    } else if d == 1 {
        '1'
    } else if d == 2 {
        '2'
    } else if d == 3 {
        '3'
    } else if d == 4 {
        '4'
    } else if d == 5 {
        '5'
    } else if d == 6 {
        '6'
    } else if d == 7 {
        '7'
    } else if d == 8 {
        '8'
    } else {
        '9'
    }
}

/// Appends the rendering of a signed whole number to `out`.
fn render_i64(n: i64, out: &mut String)
    ensures
        final(out)@ == old(out)@ + int_rep(n as int),
{
    if n < 0 {
        push_char(out, '-');
        let mag: u64 = if n == i64::MIN {
            9223372036854775808u64
        } else {
            (-n) as u64
        };
        render_u64(mag, out);
        proof {
            assert(old(out)@.push('-') + dec_rep(mag as int) =~= old(out)@ + (seq!['-']
                + dec_rep(-(n as int))));
        }
    } else {
        render_u64(n as u64, out);
    }
}

/// Appends the canonical rendering of `j` to `out`.
fn render_into(j: &Json, out: &mut String)
    ensures
        final(out)@ == old(out)@ + spec_render(j@),
    decreases *j,
{
    match j {
        Json::Null => {
            out.append("null");
            proof {
                reveal_strlit("null");
                assert(old(out)@ + "null"@ =~= old(out)@ + spec_render(j@));
            }
        },
        Json::Bool(b) => {
            if *b {
                out.append("true");
                proof {
                    reveal_strlit("true");
                    assert(old(out)@ + "true"@ =~= old(out)@ + spec_render(j@));
                }
            } else {
                out.append("false");
                proof {
                    reveal_strlit("false");
                    assert(old(out)@ + "false"@ =~= old(out)@ + spec_render(j@));
                }
            }
        },
        Json::Int(n) => {
            render_i64(*n, out);
        },
        Json::Str(t) => {
            push_char(out, '"');
            render_string_body(t.as_str(), out);
            push_char(out, '"');
            proof {
                assert(((old(out)@.push('"')) + escaped(t@)).push('"') =~= old(out)@ + (
                seq!['"'] + escaped(t@) + seq!['"']));
            }
        },
        Json::Arr(es) => {
            push_char(out, '[');
            let ghost evs = jv_seq(es@);
            proof {
                lemma_jv_seq(es@);
            }
            let m = es.len();
            let mut k: usize = 0;
            proof {
                assert(old(out)@.push('[') =~= old(out)@ + seq!['[']);
            }
            while k < m
                invariant
                    k <= m == es@.len(),
                    *j == Json::Arr(*es),
                    evs == jv_seq(es@),
                    out@ + render_elems_from(evs, k as int) == old(out)@ + seq!['[']
                        + render_elems_from(evs, 0),
                decreases m - k,
            {
                if k > 0 {
                    push_char(out, ',');
                }
                proof {
                    lemma_jv_seq(es@);
                    assert(decreases_to!(*j => (*j)->Arr_0));
                    assert((*j)->Arr_0 == *es);
                    assert(decreases_to!(*es => es@));
                    assert(decreases_to!(es@ => es@[k as int]));
                }
                render_into(&es[k], out);
                proof {
                    assert(jv(es@[k as int]) == evs[k as int]);
                    assert(evs.len() == es@.len());
                    if k > 0 {
                        assert(render_elems_from(evs, k as int) == seq![','] + spec_render(
                            evs[k as int],
                        ) + render_elems_from(evs, k as int + 1));
                    } else {
                        assert(render_elems_from(evs, 0) == spec_render(evs[0])
                            + render_elems_from(evs, 1)) by {
                            lemma_render_elems_from_first(evs);
                        }
                    }
                }
                k = k + 1;
            }
            push_char(out, ']');
            proof {
                assert(render_elems_from(evs, m as int) =~= Seq::<char>::empty());
                assert(out@ =~= old(out)@ + (seq!['['] + render_elems_from(evs, 0) + seq![
                    ']',
                ]));
            }
        },
        Json::Obj(ms) => {
            push_char(out, '{');
            let ghost mvs = jv_members(ms@);
            proof {
                lemma_jv_members(ms@);
            }
            let m = ms.len();
            let mut k: usize = 0;
            proof {
                assert(old(out)@.push('{') =~= old(out)@ + seq!['{']);
            }
            while k < m
                invariant
                    k <= m == ms@.len(),
                    *j == Json::Obj(*ms),
                    mvs == jv_members(ms@),
                    out@ + render_members_from(mvs, k as int) == old(out)@ + seq!['{']
                        + render_members_from(mvs, 0),
                decreases m - k,
            {
                if k > 0 {
                    push_char(out, ',');
                }
                proof {
                    lemma_jv_members(ms@);
                    assert(decreases_to!(*j => (*j)->Obj_0));
                    assert((*j)->Obj_0 == *ms);
                    assert(decreases_to!(*ms => ms@));
                    assert(decreases_to!(ms@ => ms@[k as int]));
                    assert(decreases_to!(ms@[k as int] => ms@[k as int].1));
                }
                let ghost before = out@;
                push_char(out, '"');
                render_string_body(ms[k].0.as_str(), out);
                push_char(out, '"');
                push_char(out, ':');
                render_into(&ms[k].1, out);
                proof {
                    assert(mvs[k as int] == (ms@[k as int].0@, jv(ms@[k as int].1)));
                    assert(out@ =~= before + (seq!['"'] + escaped(mvs[k as int].0) + seq![
                        '"',
                        ':',
                    ] + spec_render(mvs[k as int].1)));
                    if k > 0 {
                        assert(render_members_from(mvs, k as int) == seq![','] + (seq!['"']
                            + escaped(mvs[k as int].0) + seq!['"', ':'] + spec_render(
                            mvs[k as int].1,
                        )) + render_members_from(mvs, k as int + 1));
                    } else {
                        lemma_render_members_from_first(mvs);
                    }
                }
                k = k + 1;
            }
            push_char(out, '}');
            proof {
                assert(render_members_from(mvs, m as int) =~= Seq::<char>::empty());
                assert(out@ =~= old(out)@ + (seq!['{'] + render_members_from(mvs, 0)
                    + seq!['}']));
            }
        },
    }
}

/// What remains to render of an array from element `k` on: a comma before
/// each element but the first.
pub open spec fn render_elems_from(es: Seq<JsonV>, k: int) -> Seq<char>
    decreases es, es.len() - k when 0 <= k <= es.len()
{
    if k >= es.len() {
        Seq::empty()
    } else if k == 0 {
        spec_render(es[0]) + render_elems_from(es, 1)
    } else {
        seq![','] + spec_render(es[k]) + render_elems_from(es, k + 1)
    }
}

/// Unfolds the first element of `render_elems_from`.
proof fn lemma_render_elems_from_first(es: Seq<JsonV>)
    requires
        es.len() > 0,
    ensures
        render_elems_from(es, 0) == spec_render(es[0]) + render_elems_from(es, 1),
{
}

/// What remains to render of an object from member `k` on.
pub open spec fn render_members_from(ms: Seq<(Seq<char>, JsonV)>, k: int) -> Seq<char>
    decreases ms, ms.len() - k when 0 <= k <= ms.len()
{
    if k >= ms.len() {
        Seq::empty()
    } else {
        let piece = seq!['"'] + escaped(ms[k].0) + seq!['"', ':'] + spec_render(ms[k].1);
        if k == 0 {
            piece + render_members_from(ms, 1)
        } else {
            seq![','] + piece + render_members_from(ms, k + 1)
        }
    }
}

/// Unfolds the first member of `render_members_from`.
proof fn lemma_render_members_from_first(ms: Seq<(Seq<char>, JsonV)>)
    requires
        ms.len() > 0,
    ensures
        render_members_from(ms, 0) == (seq!['"'] + escaped(ms[0].0) + seq!['"', ':']
            + spec_render(ms[0].1)) + render_members_from(ms, 1),
{
}

impl Json {
    /// Renders the document canonically: no whitespace, members in stored
    /// order.
    pub fn render(&self) -> (r: String)
        ensures
            r@ == spec_render(self@),
    {
        let mut out = String::new();
        render_into(self, &mut out);
        out
    }
}

/// JSON whitespace.
pub open spec fn is_ws(c: char) -> bool {
    c == ' ' || c == '\n' || c == '\t' || c == '\r'
}

/// End of the whitespace run starting at `i`.
pub open spec fn ws_end(s: Seq<char>, i: int) -> int
    decreases s.len() - i when 0 <= i <= s.len()
{
    if i < s.len() && is_ws(s[i]) {
        ws_end(s, i + 1)
    } else {
        i
    }
}

/// What an escape letter stands for; the accepted escapes are `\"`, `\\`,
/// `\/`, `\n`, `\t`, `\r`.
pub open spec fn esc_unrep(c: char) -> Option<char> {
    if c == '"' {
        Some('"')
    } else if c == '\\' {
        Some('\\')
    } else if c == '/' {
        Some('/')
    } else if c == 'n' {
        Some('\n')
    } else if c == 't' {
        Some('\t')
    } else if c == 'r' {
        Some('\r')
    } else {
        None
    }
}

/// The body of a string starting just after its opening quote: its
/// characters, unescaped, and the position just after the closing quote.
pub open spec fn p_string(s: Seq<char>, i: int) -> Option<(Seq<char>, int)>
    decreases s.len() - i when 0 <= i <= s.len()
{
    if i >= s.len() {
        None
    } else if s[i] == '"' {
        Some((Seq::empty(), i + 1))
    } else if s[i] == '\\' {
        if i + 2 <= s.len() {
            match esc_unrep(s[i + 1]) {
                Some(c) => match p_string(s, i + 2) {
                    Some((t, e)) => Some((seq![c] + t, e)),
                    None => None,
                },
                None => None,
            }
        } else {
            None
        }
    } else {
        match p_string(s, i + 1) {
            Some((t, e)) => Some((seq![s[i]] + t, e)),
            None => None,
        }
    }
}

/// A parsed string ends past where it began.
pub proof fn lemma_p_string_advances(s: Seq<char>, i: int)
    requires
        0 <= i <= s.len(),
        p_string(s, i) is Some,
    ensures
        ({
            let (t, e) = p_string(s, i)->0;
            i < e <= s.len()
        }),
    decreases s.len() - i,
{
    if i < s.len() && s[i] != '"' {
        if s[i] == '\\' {
            lemma_p_string_advances(s, i + 2);
        } else {
            lemma_p_string_advances(s, i + 1);
        }
    }
}

/// A signed whole number at `i`: its value and end. The value must fit an
/// `i64`.
pub open spec fn p_int(s: Seq<char>, i: int) -> Option<(int, int)> {
    let neg = i < s.len() && s[i] == '-';
    let d0 = if neg {
        i + 1
    } else {
        i
    };
    let d_end = digits_end(s, d0);
    if 0 <= d0 <= s.len() && d_end > d0 {
        let m = digits_val(s.subrange(d0, d_end));
        let v = if neg {
            -m
        } else {
            m
        };
        if i64::MIN <= v <= i64::MAX {
            Some((v, d_end))
        } else {
            None
        }
    } else {
        None
    }
}

/// A JSON value at `i`: `null`, `true`, `false`, a string, a number, an
/// array or an object, and the position just after it.
pub open spec fn p_value(s: Seq<char>, i: int) -> Option<(JsonV, int)>
    decreases s.len() - i, 2int when 0 <= i <= s.len()
{
    if i >= s.len() {
        None
    } else if s[i] == 'n' {
        if i + 4 <= s.len() && s[i + 1] == 'u' && s[i + 2] == 'l' && s[i + 3] == 'l' {
            Some((JsonV::Null, i + 4))
        } else {
            None
        }
    } else if s[i] == 't' {
        if i + 4 <= s.len() && s[i + 1] == 'r' && s[i + 2] == 'u' && s[i + 3] == 'e' {
            Some((JsonV::Bool(true), i + 4))
        } else {
            None
        }
    } else if s[i] == 'f' {
        if i + 5 <= s.len() && s[i + 1] == 'a' && s[i + 2] == 'l' && s[i + 3] == 's' && s[i
            + 4] == 'e' {
            Some((JsonV::Bool(false), i + 5))
        } else {
            None
        }
    } else if s[i] == '"' {
        match p_string(s, i + 1) {
            Some((t, e)) => Some((JsonV::Str(t), e)),
            None => None,
        }
    } else if s[i] == '[' {
        let j = ws_end(s, i + 1);
        if i + 1 <= j <= s.len() {
            if j < s.len() && s[j] == ']' {
                Some((JsonV::Arr(Seq::empty()), j + 1))
            } else {
                match p_elems(s, j) {
                    Some((es, e)) => Some((JsonV::Arr(es), e)),
                    None => None,
                }
            }
        } else {
            None
        }
    } else if s[i] == '{' {
        let j = ws_end(s, i + 1);
        if i + 1 <= j <= s.len() {
            if j < s.len() && s[j] == '}' {
                Some((JsonV::Obj(Seq::empty()), j + 1))
            } else {
                match p_members(s, j) {
                    Some((ms, e)) => Some((JsonV::Obj(ms), e)),
                    None => None,
                }
            }
        } else {
            None
        }
    } else {
        match p_int(s, i) {
            Some((v, e)) => Some((JsonV::Int(v), e)),
            None => None,
        }
    }
}

/// One or more comma-separated values ending at a `]`, the bracket
/// consumed.
pub open spec fn p_elems(s: Seq<char>, i: int) -> Option<(Seq<JsonV>, int)>
    decreases s.len() - i, 3int when 0 <= i <= s.len()
{
    match p_value(s, i) {
        Some((v, e)) => {
            let j = if 0 <= e <= s.len() {
                ws_end(s, e)
            } else {
                e
            };
            if j < s.len() && s[j] == ',' {
                let k = ws_end(s, j + 1);
                if i < k <= s.len() {
                    match p_elems(s, k) {
                        Some((rest, e2)) => Some((seq![v] + rest, e2)),
                        None => None,
                    }
                } else {
                    None
                }
            } else if 0 <= j < s.len() && s[j] == ']' {
                Some((seq![v], j + 1))
            } else {
                None
            }
        },
        None => None,
    }
}

/// One or more comma-separated `"key":value` members ending at a `}`, the
/// brace consumed.
pub open spec fn p_members(s: Seq<char>, i: int) -> Option<(Seq<(Seq<char>, JsonV)>, int)>
    decreases s.len() - i, 3int when 0 <= i <= s.len()
{
    if i < s.len() && s[i] == '"' {
        match p_string(s, i + 1) {
            Some((key, e1)) => {
                let c = if 0 <= e1 <= s.len() {
                    ws_end(s, e1)
                } else {
                    e1
                };
                if 0 <= c < s.len() && s[c] == ':' {
                    let vstart = ws_end(s, c + 1);
                    if i < vstart <= s.len() {
                        match p_value(s, vstart) {
                            Some((v, e2)) => {
                                let j = if 0 <= e2 <= s.len() {
                                    ws_end(s, e2)
                                } else {
                                    e2
                                };
                                if j < s.len() && s[j] == ',' {
                                    let k = ws_end(s, j + 1);
                                    if i < k <= s.len() {
                                        match p_members(s, k) {
                                            Some((rest, e3)) => Some(
                                                (seq![(key, v)] + rest, e3),
                                            ),
                                            None => None,
                                        }
                                    } else {
                                        None
                                    }
                                } else if 0 <= j < s.len() && s[j] == '}' {
                                    Some((seq![(key, v)], j + 1))
                                } else {
                                    None
                                }
                            },
                            None => None,
                        }
                    } else {
                        None
                    }
                } else {
                    None
                }
            },
            None => None,
        }
    } else {
        None
    }
}

/// The whole string as one JSON document, surrounded by optional
/// whitespace.
pub open spec fn spec_parse_json(s: Seq<char>) -> Option<JsonV> {
    let i = ws_end(s, 0);
    if 0 <= i <= s.len() {
        match p_value(s, i) {
            Some((v, e)) => if 0 <= e <= s.len() && ws_end(s, e) == s.len() {
                Some(v)
            } else {
                None
            },
            None => None,
        }
    } else {
        None
    }
}

/// Scans past the whitespace run starting at `from`.
fn skip_ws(s: &str, from: usize) -> (r: usize)
    requires
        from <= s@.len(),
    ensures
        r as int == ws_end(s@, from as int),
        from <= r <= s@.len(),
{
    let n = s.unicode_len();
    let mut i: usize = from;
    while i < n
        invariant
            from <= i <= n == s@.len(),
            ws_end(s@, from as int) == ws_end(s@, i as int),
        decreases n - i,
    {
        let c = s.get_char(i);
        if !(c == ' ' || c == '\n' || c == '\t' || c == '\r') {
            proof {
                assert(!is_ws(s@[i as int]));
            }
            return i;
        }
        i = i + 1;
    }
    i
}

/// Reads a string body starting just after its opening quote.
fn parse_string_body(s: &str, i: usize) -> (r: Option<(String, usize)>)
    requires
        i <= s@.len(),
    ensures
        ({
            match r {
                Some((t, e)) => p_string(s@, i as int) == Some((t@, e as int)) && i < e
                    <= s@.len(),
                None => p_string(s@, i as int) is None,
            }
        }),
{
    let n = s.unicode_len();
    let mut acc = String::new();
    let mut cur: usize = i;
    loop
        invariant
            i <= cur <= n == s@.len(),
            ({
                match p_string(s@, cur as int) {
                    Some((t, e)) => p_string(s@, i as int) == Some((acc@ + t, e)),
                    None => p_string(s@, i as int) is None,
                }
            }),
        decreases n - cur,
    {
        if cur >= n {
            return None;
        }
        let c = s.get_char(cur);
        if c == '"' {
            proof {
                assert(p_string(s@, cur as int) == Some((Seq::<char>::empty(), cur as int
                    + 1)));
                assert(acc@ + Seq::<char>::empty() =~= acc@);
                lemma_p_string_advances(s@, i as int);
            }
            return Some((acc, cur + 1));
        }
        if c == '\\' {
            if cur + 1 >= n {
                return None;
            }
            let l = s.get_char(cur + 1);
            let u: char = if l == '"' {
                '"'
            } else if l == '\\' {
                '\\'
            } else if l == '/' {
                '/'
            } else if l == 'n' {
                '\n'
            } else if l == 't' {
                '\t'
            } else if l == 'r' {
                '\r'
            } else {
                proof {
                    assert(esc_unrep(s@[cur as int + 1]) is None);
                }
                return None;
            };
            proof {
                assert(esc_unrep(s@[cur as int + 1]) == Some(u));
                if p_string(s@, cur as int + 2) is Some {
                    let (t2, e2) = p_string(s@, cur as int + 2)->0;
                    assert(p_string(s@, cur as int) == Some((seq![u] + t2, e2)));
                    assert((acc@.push(u)) + t2 =~= acc@ + (seq![u] + t2));
                }
            }
            push_char(&mut acc, u);
            cur = cur + 2;
        } else {
            proof {
                if p_string(s@, cur as int + 1) is Some {
                    let (t2, e2) = p_string(s@, cur as int + 1)->0;
                    assert(p_string(s@, cur as int) == Some((seq![c] + t2, e2)));
                    assert((acc@.push(c)) + t2 =~= acc@ + (seq![c] + t2));
                }
            }
            push_char(&mut acc, c);
            cur = cur + 1;
        }
    }
}

/// Reads a signed whole number.
fn parse_int_at(s: &str, i: usize) -> (r: Option<(i64, usize)>)
    requires
        i <= s@.len(),
    ensures
        ({
            match r {
                Some((v, e)) => p_int(s@, i as int) == Some((v as int, e as int)) && i < e
                    <= s@.len(),
                None => p_int(s@, i as int) is None,
            }
        }),
{
    let n = s.unicode_len();
    let (neg, d0): (bool, usize) = if i < n && s.get_char(i) == '-' {
        (true, i + 1)
    } else {
        (false, i)
    };
    let d_end = scan_digits(s, d0);
    if d_end == d0 {
        return None;
    }
    let m = match read_digits_u64(s, d0, d_end) {
        Some(m) => m,
        None => {
            proof {
                lemma_digits_end(s@, d0 as int);
                assert(crate::decimal::all_digits(s@.subrange(d0 as int, d_end as int)));
                lemma_digits_val_nonneg(s@.subrange(d0 as int, d_end as int));
            }
            return None;
        },
    };
    match signed_to_i64(m as u128, neg) {
        Some(x) => Some((x, d_end)),
        None => None,
    }
}

/// Reads a JSON value at `i`.
fn parse_value(s: &str, i: usize) -> (r: Option<(Json, usize)>)
    requires
        i <= s@.len(),
    ensures
        ({
            match r {
                Some((j, e)) => p_value(s@, i as int) == Some((j@, e as int)) && i < e
                    <= s@.len(),
                None => p_value(s@, i as int) is None,
            }
        }),
    decreases s@.len() - i, 2int,
{
    let n = s.unicode_len();
    if i >= n {
        return None;
    }
    let c = s.get_char(i);
    if c == 'n' {
        if n - i >= 4 && s.get_char(i + 1) == 'u' && s.get_char(i + 2) == 'l' && s.get_char(
            i + 3,
        ) == 'l' {
            Some((Json::Null, i + 4))
        } else {
            None
        }
    } else if c == 't' {
        if n - i >= 4 && s.get_char(i + 1) == 'r' && s.get_char(i + 2) == 'u' && s.get_char(
            i + 3,
        ) == 'e' {
            Some((Json::Bool(true), i + 4))
        } else {
            None
        }
    } else if c == 'f' {
        if n - i >= 5 && s.get_char(i + 1) == 'a' && s.get_char(i + 2) == 'l' && s.get_char(
            i + 3,
        ) == 's' && s.get_char(i + 4) == 'e' {
            Some((Json::Bool(false), i + 5))
        } else {
            None
        }
    } else if c == '"' {
        match parse_string_body(s, i + 1) {
            Some((t, e)) => Some((Json::Str(t), e)),
            None => None,
        }
    } else if c == '[' {
        let j = skip_ws(s, i + 1);
        if j < n && s.get_char(j) == ']' {
            proof {
                assert(jv_seq(Seq::<Json>::empty()) =~= Seq::<JsonV>::empty());
            }
            Some((Json::Arr(Vec::new()), j + 1))
        } else {
            match parse_elems(s, j) {
                Some((es, e)) => Some((Json::Arr(es), e)),
                None => None,
            }
        }
    } else if c == '{' {
        let j = skip_ws(s, i + 1);
        if j < n && s.get_char(j) == '}' {
            proof {
                assert(jv_members(Seq::<(String, Json)>::empty()) =~= Seq::<(
                    Seq<char>,
                    JsonV,
                )>::empty());
            }
            Some((Json::Obj(Vec::new()), j + 1))
        } else {
            match parse_members(s, j) {
                Some((ms, e)) => Some((Json::Obj(ms), e)),
                None => None,
            }
        }
    } else {
        match parse_int_at(s, i) {
            Some((v, e)) => Some((Json::Int(v), e)),
            None => None,
        }
    }
}

/// Reads the elements of an array up to and including its `]`.
fn parse_elems(s: &str, i: usize) -> (r: Option<(Vec<Json>, usize)>)
    requires
        i <= s@.len(),
    ensures
        ({
            match r {
                Some((es, e)) => p_elems(s@, i as int) == Some((jv_seq(es@), e as int))
                    && i < e <= s@.len(),
                None => p_elems(s@, i as int) is None,
            }
        }),
    decreases s@.len() - i, 3int,
{
    let n = s.unicode_len();
    let (v, e) = match parse_value(s, i) {
        Some(p) => p,
        None => {
            return None;
        },
    };
    let j = skip_ws(s, e);
    if j < n && s.get_char(j) == ',' {
        let k = skip_ws(s, j + 1);
        if k <= i {
            // Cannot happen: positions only move forward.
            return None;
        }
        match parse_elems(s, k) {
            Some((rest, e2)) => {
                let mut es: Vec<Json> = Vec::new();
                es.push(v);
                let mut rest = rest;
                let ghost rest0 = rest@;
                es.append(&mut rest);
                proof {
                    assert(es@ =~= seq![v] + rest0);
                    lemma_jv_seq_cons(v, rest0);
                    assert(jv_seq(es@) == seq![jv(v)] + jv_seq(rest0));
                    assert(p_elems(s@, i as int) == Some((jv_seq(es@), e2 as int)));
                }
                Some((es, e2))
            },
            None => None,
        }
    } else if j < n && s.get_char(j) == ']' {
        let mut es: Vec<Json> = Vec::new();
        es.push(v);
        proof {
            assert(es@ =~= seq![v] + Seq::<Json>::empty());
            lemma_jv_seq_cons(v, Seq::<Json>::empty());
            assert(jv_seq(Seq::<Json>::empty()) =~= Seq::<JsonV>::empty());
            assert(jv_seq(es@) =~= seq![jv(v)]);
        }
        Some((es, j + 1))
    } else {
        None
    }
}

/// Prepending one document prepends its value.
proof fn lemma_jv_seq_cons(v: Json, rest: Seq<Json>)
    ensures
        jv_seq(seq![v] + rest) == seq![jv(v)] + jv_seq(rest),
{
    let s = seq![v] + rest;
    assert(s.len() > 0);
    assert(s[0] == v);
    assert(s.drop_first() =~= rest);
    assert(jv_seq(s) =~= seq![jv(v)] + jv_seq(rest));
}

/// Prepending one member prepends its value.
proof fn lemma_jv_members_cons(kv: (String, Json), rest: Seq<(String, Json)>)
    ensures
        jv_members(seq![kv] + rest) == seq![(kv.0@, jv(kv.1))] + jv_members(rest),
{
    let s = seq![kv] + rest;
    assert(s.len() > 0);
    assert(s[0] == kv);
    assert(s.drop_first() =~= rest);
    assert(jv_members(s) =~= seq![(kv.0@, jv(kv.1))] + jv_members(rest));
}

/// Reads the members of an object up to and including its `}`.
fn parse_members(s: &str, i: usize) -> (r: Option<(Vec<(String, Json)>, usize)>)
    requires
        i <= s@.len(),
    ensures
        ({
            match r {
                Some((ms, e)) => p_members(s@, i as int) == Some(
                    (jv_members(ms@), e as int),
                ) && i < e <= s@.len(),
                None => p_members(s@, i as int) is None,
            }
        }),
    decreases s@.len() - i, 3int,
{
    let n = s.unicode_len();
    if !(i < n && s.get_char(i) == '"') {
        return None;
    }
    let (key, e1) = match parse_string_body(s, i + 1) {
        Some(p) => p,
        None => {
            return None;
        },
    };
    let cpos = skip_ws(s, e1);
    if !(cpos < n && s.get_char(cpos) == ':') {
        return None;
    }
    let vstart = skip_ws(s, cpos + 1);
    let (v, e2) = match parse_value(s, vstart) {
        Some(p) => p,
        None => {
            return None;
        },
    };
    let j = skip_ws(s, e2);
    if j < n && s.get_char(j) == ',' {
        let k = skip_ws(s, j + 1);
        if k <= i {
            // Cannot happen: positions only move forward.
            return None;
        }
        match parse_members(s, k) {
            Some((rest, e3)) => {
                let mut ms: Vec<(String, Json)> = Vec::new();
                ms.push((key, v));
                let mut rest = rest;
                let ghost rest0 = rest@;
                ms.append(&mut rest);
                proof {
                    assert(ms@ =~= seq![ms@[0]] + rest0);
                    lemma_jv_members_cons(ms@[0], rest0);
                    assert(jv_members(ms@) == seq![(ms@[0].0@, jv(ms@[0].1))] + jv_members(
                        rest0,
                    ));
                    assert(p_members(s@, i as int) == Some((jv_members(ms@), e3 as int)));
                }
                Some((ms, e3))
            },
            None => None,
        }
    } else if j < n && s.get_char(j) == '}' {
        let mut ms: Vec<(String, Json)> = Vec::new();
        ms.push((key, v));
        proof {
            assert(ms@ =~= seq![ms@[0]] + Seq::<(String, Json)>::empty());
            lemma_jv_members_cons(ms@[0], Seq::<(String, Json)>::empty());
            assert(jv_members(Seq::<(String, Json)>::empty()) =~= Seq::<(
                Seq<char>,
                JsonV,
            )>::empty());
            assert(jv_members(ms@) =~= seq![(ms@[0].0@, jv(ms@[0].1))]);
        }
        Some((ms, j + 1))
    } else {
        None
    }
}

impl Json {
    /// Parses a whole JSON document, with optional surrounding whitespace.
    /// Returns `None` when the text is not in the supported subset.
    pub fn parse(s: &str) -> (r: Option<Json>)
        ensures
            ({
                match r {
                    Some(j) => spec_parse_json(s@) == Some(j@),
                    None => spec_parse_json(s@) is None,
                }
            }),
    {
        let start = skip_ws(s, 0);
        match parse_value(s, start) {
            Some((j, e)) => {
                let t = skip_ws(s, e);
                if t == s.unicode_len() {
                    Some(j)
                } else {
                    None
                }
            },
            None => None,
        }
    }
}

} // verus!
