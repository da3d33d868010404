//! A small JSON parser for provider payloads.
//!
//! The grammar accepted here is defined by the `sp_*` specification
//! functions below: documents built from objects, arrays, strings with the
//! usual escapes (including non-surrogate `\uXXXX`), numbers, `true`,
//! `false` and `null`. Numeric payloads are recognized but not retained,
//! since no provider schema reads them. Nesting is limited to
//! [`MAX_DEPTH`] levels so that parsing runs in bounded stack space.
//! The executable parser is verified to return exactly what the
//! specification functions say.

use vstd::prelude::*;

verus! {

/// Deepest nesting of arrays and objects that a document may use.
pub const MAX_DEPTH: u32 = 64;

/// A parsed JSON document. Strings are kept as their decoded characters;
/// object members are kept in payload order, and a key lookup takes the
/// first binding of the key.
pub enum JsonValue {
    Null,
    Bool(bool),
    Number,
    Text(Vec<char>),
    Array(Vec<JsonValue>),
    Object(Vec<(Vec<char>, JsonValue)>),
}

/// The mathematical shape of a parsed JSON document.
pub enum JVal {
    Null,
    Bool(bool),
    Number,
    Text(Seq<char>),
    Array(Seq<JVal>),
    Object(Seq<(Seq<char>, JVal)>),
}

/// The shapes of the values in `es`, in order.
pub open spec fn jvals(es: Seq<JsonValue>) -> Seq<JVal>
    decreases es,
{
    if es.len() == 0 {
        Seq::empty()
    } else {
        seq![es[0].sview()] + jvals(es.drop_first())
    }
}

/// The shapes of the members in `ms`, in order.
pub open spec fn jmembers(ms: Seq<(Vec<char>, JsonValue)>) -> Seq<(Seq<char>, JVal)>
    decreases ms,
{
    if ms.len() == 0 {
        Seq::empty()
    } else {
        seq![(ms[0].0@, ms[0].1.sview())] + jmembers(ms.drop_first())
    }
}

impl JsonValue {
    /// The mathematical shape of this document.
    pub open spec fn sview(self) -> JVal
        decreases self,
    {
        match self {
            JsonValue::Null => JVal::Null,
            JsonValue::Bool(b) => JVal::Bool(b),
            JsonValue::Number => JVal::Number,
            JsonValue::Text(t) => JVal::Text(t@),
            JsonValue::Array(es) => JVal::Array(jvals(es@)),
            JsonValue::Object(ms) => JVal::Object(jmembers(ms@)),
        }
    }
}

pub proof fn lemma_jvals_len(es: Seq<JsonValue>)
    ensures
        jvals(es).len() == es.len(),
    decreases es,
{
    if es.len() > 0 {
        lemma_jvals_len(es.drop_first());
    }
}

pub proof fn lemma_jvals_index(es: Seq<JsonValue>, i: int)
    requires
        0 <= i < es.len(),
    ensures
        jvals(es).len() == es.len(),
        jvals(es)[i] == es[i].sview(),
    decreases es,
{
    lemma_jvals_len(es);
    if i > 0 {
        lemma_jvals_index(es.drop_first(), i - 1);
    }
}

pub proof fn lemma_jvals_push(es: Seq<JsonValue>, v: JsonValue)
    ensures
        jvals(es.push(v)) =~= jvals(es) + seq![v.sview()],
    decreases es,
{
    lemma_jvals_len(es);
    lemma_jvals_len(es.push(v));
    if es.len() == 0 {
        assert(es.push(v).drop_first() =~= Seq::<JsonValue>::empty());
    } else {
        assert(es.push(v).drop_first() =~= es.drop_first().push(v));
        lemma_jvals_push(es.drop_first(), v);
        assert(es.push(v)[0] == es[0]);
    }
}

pub proof fn lemma_jmembers_len(ms: Seq<(Vec<char>, JsonValue)>)
    ensures
        jmembers(ms).len() == ms.len(),
    decreases ms,
{
    if ms.len() > 0 {
        lemma_jmembers_len(ms.drop_first());
    }
}

pub proof fn lemma_jmembers_index(ms: Seq<(Vec<char>, JsonValue)>, i: int)
    requires
        0 <= i < ms.len(),
    ensures
        jmembers(ms).len() == ms.len(),
        jmembers(ms)[i] == (ms[i].0@, ms[i].1.sview()),
    decreases ms,
{
    lemma_jmembers_len(ms);
    if i > 0 {
        lemma_jmembers_index(ms.drop_first(), i - 1);
    }
}

pub proof fn lemma_jmembers_push(ms: Seq<(Vec<char>, JsonValue)>, k: Vec<char>, v: JsonValue)
    ensures
        jmembers(ms.push((k, v))) =~= jmembers(ms) + seq![(k@, v.sview())],
    decreases ms,
{
    let grown = ms.push((k, v));
    if ms.len() == 0 {
        assert(grown.drop_first() =~= Seq::<(Vec<char>, JsonValue)>::empty());
        assert(grown[0] == (k, v));
        assert(jmembers(grown) == seq![(k@, v.sview())] + jmembers(grown.drop_first()));
    } else {
        assert(grown.drop_first() =~= ms.drop_first().push((k, v)));
        lemma_jmembers_push(ms.drop_first(), k, v);
        assert(grown[0] == ms[0]);
        assert(jmembers(grown) == seq![(ms[0].0@, ms[0].1.sview())] + jmembers(
            grown.drop_first(),
        ));
        assert(jmembers(grown.drop_first()) =~= jmembers(ms.drop_first()) + seq![
            (k@, v.sview()),
        ]);
    }
}

/// JSON insignificant whitespace.
pub open spec fn json_ws(c: char) -> bool {
    c == ' ' || c == '\t' || c == '\n' || c == '\r'
}

/// An ASCII decimal digit.
pub open spec fn json_digit(c: char) -> bool {
    '0' <= c && c <= '9'
}

/// The first position at or after `i` holding no whitespace.
pub open spec fn sp_skip_ws(s: Seq<char>, i: int) -> int
    decreases s.len() - i,
{
    if 0 <= i < s.len() && json_ws(s[i]) {
        sp_skip_ws(s, i + 1)
    } else {
        i
    }
}

/// The first position at or after `i` holding no digit.
pub open spec fn sp_skip_digits(s: Seq<char>, i: int) -> int
    decreases s.len() - i,
{
    if 0 <= i < s.len() && json_digit(s[i]) {
        sp_skip_digits(s, i + 1)
    } else {
        i
    }
}

pub proof fn lemma_sp_skip_digits(s: Seq<char>, i: int)
    requires
        0 <= i <= s.len(),
    ensures
        i <= sp_skip_digits(s, i) <= s.len(),
    decreases s.len() - i,
{
    if i < s.len() && json_digit(s[i]) {
        lemma_sp_skip_digits(s, i + 1);
    }
}

/// The value of `c` as a hexadecimal digit.
pub open spec fn sp_hex_val(c: char) -> Option<int> {
    if c == '0' {
        Some(0)
    } else if c == '1' {
        Some(1)
    } else if c == '2' {
        Some(2)
    } else if c == '3' {
        Some(3)
    } else if c == '4' {
        Some(4)
    } else if c == '5' {
        Some(5)
    } else if c == '6' {
        Some(6)
    } else if c == '7' {
        Some(7)
    } else if c == '8' {
        Some(8)
    } else if c == '9' {
        Some(9)
    } else if c == 'a' || c == 'A' {
        Some(10)
    } else if c == 'b' || c == 'B' {
        Some(11)
    } else if c == 'c' || c == 'C' {
        Some(12)
    } else if c == 'd' || c == 'D' {
        Some(13)
    } else if c == 'e' || c == 'E' {
        Some(14)
    } else if c == 'f' || c == 'F' {
        Some(15)
    } else {
        None
    }
}

/// The character named by the escape whose designator stands at `i`
/// (right after the backslash), and the position after the escape.
/// `\uXXXX` escapes naming surrogate code points are rejected.
pub open spec fn sp_escape(s: Seq<char>, i: int) -> Option<(char, int)> {
    if !(0 <= i < s.len()) {
        None
    } else {
        let c = s[i];
        if c == '"' {
            Some(('"', i + 1))
        } else if c == '\\' {
            Some(('\\', i + 1))
        } else if c == '/' {
            Some(('/', i + 1))
        } else if c == 'b' {
            Some(('\u{0008}', i + 1))
        } else if c == 'f' {
            Some(('\u{000C}', i + 1))
        } else if c == 'n' {
            Some(('\n', i + 1))
        } else if c == 'r' {
            Some(('\r', i + 1))
        } else if c == 't' {
            Some(('\t', i + 1))
        } else if c == 'u' && i + 5 <= s.len() {
            match (sp_hex_val(s[i + 1]), sp_hex_val(s[i + 2]), sp_hex_val(s[i + 3]), sp_hex_val(
                s[i + 4],
            )) {
                (Some(a), Some(b), Some(x), Some(d)) => {
                    let code = a * 4096 + b * 256 + x * 16 + d;
                    if 0xD800 <= code < 0xE000 {
                        None
                    } else {
                        Some((code as char, i + 5))
                    }
                },
                _ => None,
            }
        } else {
            None
        }
    }
}

/// The decoded contents of a string whose opening quote stands just before
/// `i`, and the position after the closing quote. Unescaped control
/// characters are rejected.
pub open spec fn sp_string_body(s: Seq<char>, i: int) -> Option<(Seq<char>, int)>
    decreases s.len() - i,
{
    if !(0 <= i < s.len()) {
        None
    } else {
        let c = s[i];
        if c == '"' {
            Some((Seq::empty(), i + 1))
        } else if c == '\\' {
            match sp_escape(s, i + 1) {
                None => None,
                Some((e, j)) => if !(i < j <= s.len()) {
                    None  // escapes always advance; kept for well-foundedness
                } else {
                    match sp_string_body(s, j) {
                        None => None,
                        Some((rest, k)) => Some((seq![e] + rest, k)),
                    }
                },
            }
        } else if c <= '\u{001F}' {
            None
        } else {
            match sp_string_body(s, i + 1) {
                None => None,
                Some((rest, k)) => Some((seq![c] + rest, k)),
            }
        }
    }
}

/// The position after the number that starts at `i`: an optional minus
/// sign, an integer part without leading zeros, an optional fraction, and
/// an optional exponent.
pub open spec fn sp_number_end(s: Seq<char>, i: int) -> Option<int> {
    if !(0 <= i <= s.len()) {
        None
    } else {
        let j = if i < s.len() && s[i] == '-' {
            i + 1
        } else {
            i
        };
        if !(j < s.len() && json_digit(s[j])) {
            None
        } else {
            let k = if s[j] == '0' {
                j + 1
            } else {
                sp_skip_digits(s, j)
            };
            let frac = if k < s.len() && s[k] == '.' {
                if k + 1 < s.len() && json_digit(s[k + 1]) {
                    Some(sp_skip_digits(s, k + 1))
                } else {
                    None
                }
            } else {
                Some(k)
            };
            match frac {
                None => None,
                Some(k2) => {
                    if k2 < s.len() && (s[k2] == 'e' || s[k2] == 'E') {
                        let l = if k2 + 1 < s.len() && (s[k2 + 1] == '+' || s[k2 + 1] == '-') {
                            k2 + 2
                        } else {
                            k2 + 1
                        };
                        if l < s.len() && json_digit(s[l]) {
                            Some(sp_skip_digits(s, l))
                        } else {
                            None
                        }
                    } else {
                        Some(k2)
                    }
                },
            }
        }
    }
}

/// The value that starts at `i` after optional whitespace, and the
/// position right after it. `depth` bounds the nesting still allowed.
pub open spec fn sp_value(s: Seq<char>, i: int, depth: int) -> Option<(JVal, int)>
    decreases s.len() - i, 1int,
{
    if !(0 <= i <= s.len()) {
        None
    } else {
        let j = sp_skip_ws(s, i);
        if !(i <= j < s.len()) {
            None
        } else {
            let c = s[j];
            if c == '"' {
                match sp_string_body(s, j + 1) {
                    None => None,
                    Some((t, k)) => Some((JVal::Text(t), k)),
                }
            } else if c == '[' {
                if depth <= 0 {
                    None
                } else {
                    match sp_elements(s, j + 1, depth - 1) {
                        None => None,
                        Some((es, k)) => Some((JVal::Array(es), k)),
                    }
                }
            } else if c == '{' {
                if depth <= 0 {
                    None
                } else {
                    match sp_members(s, j + 1, depth - 1) {
                        None => None,
                        Some((ms, k)) => Some((JVal::Object(ms), k)),
                    }
                }
            } else if c == 't' {
                if j + 4 <= s.len() && s[j + 1] == 'r' && s[j + 2] == 'u' && s[j + 3] == 'e' {
                    Some((JVal::Bool(true), j + 4))
                } else {
                    None
                }
            } else if c == 'f' {
                if j + 5 <= s.len() && s[j + 1] == 'a' && s[j + 2] == 'l' && s[j + 3] == 's' && s[j
                    + 4] == 'e' {
                    Some((JVal::Bool(false), j + 5))
                } else {
                    None
                }
            } else if c == 'n' {
                if j + 4 <= s.len() && s[j + 1] == 'u' && s[j + 2] == 'l' && s[j + 3] == 'l' {
                    Some((JVal::Null, j + 4))
                } else {
                    None
                }
            } else if c == '-' || json_digit(c) {
                match sp_number_end(s, j) {
                    None => None,
                    Some(k) => Some((JVal::Number, k)),
                }
            } else {
                None
            }
        }
    }
}

/// The elements of an array whose opening bracket stands just before `i`,
/// and the position after the closing bracket.
pub open spec fn sp_elements(s: Seq<char>, i: int, depth: int) -> Option<(Seq<JVal>, int)>
    decreases s.len() - i, 3int,
{
    if !(0 <= i <= s.len()) {
        None
    } else {
        let j = sp_skip_ws(s, i);
        if !(i <= j <= s.len()) {
            None  // whitespace never rewinds; kept for well-foundedness
        } else if j < s.len() && s[j] == ']' {
            Some((Seq::empty(), j + 1))
        } else {
            sp_elements_more(s, i, depth)
        }
    }
}

/// The elements of a non-empty (rest of an) array, starting right after
/// the opening bracket or a comma.
pub open spec fn sp_elements_more(s: Seq<char>, i: int, depth: int) -> Option<(Seq<JVal>, int)>
    decreases s.len() - i, 2int,
{
    if !(0 <= i <= s.len()) {
        None
    } else {
        match sp_value(s, i, depth) {
            None => None,
            Some((v, k)) => {
                if !(i < k <= s.len()) {
                    None  // values always advance; kept for well-foundedness
                } else {
                    let m = sp_skip_ws(s, k);
                    if !(k <= m <= s.len()) {
                        None
                    } else if m < s.len() && s[m] == ',' {
                        match sp_elements_more(s, m + 1, depth) {
                            None => None,
                            Some((rest, e)) => Some((seq![v] + rest, e)),
                        }
                    } else if m < s.len() && s[m] == ']' {
                        Some((seq![v], m + 1))
                    } else {
                        None
                    }
                }
            },
        }
    }
}

/// The members of an object whose opening brace stands just before `i`,
/// and the position after the closing brace.
pub open spec fn sp_members(s: Seq<char>, i: int, depth: int) -> Option<
    (Seq<(Seq<char>, JVal)>, int),
>
    decreases s.len() - i, 3int,
{
    if !(0 <= i <= s.len()) {
        None
    } else {
        let j = sp_skip_ws(s, i);
        if !(i <= j <= s.len()) {
            None
        } else if j < s.len() && s[j] == '}' {
            Some((Seq::empty(), j + 1))
        } else {
            sp_members_more(s, i, depth)
        }
    }
}

/// The members of a non-empty (rest of an) object, starting right after
/// the opening brace or a comma.
pub open spec fn sp_members_more(s: Seq<char>, i: int, depth: int) -> Option<
    (Seq<(Seq<char>, JVal)>, int),
>
    decreases s.len() - i, 2int,
{
    if !(0 <= i <= s.len()) {
        None
    } else {
        let j = sp_skip_ws(s, i);
        if !(i <= j <= s.len() && j < s.len() && s[j] == '"') {
            None
        } else {
            match sp_string_body(s, j + 1) {
                None => None,
                Some((key, k)) => {
                    if !(j < k <= s.len()) {
                        None  // strings always advance; kept for well-foundedness
                    } else {
                        let m = sp_skip_ws(s, k);
                        if !(k <= m <= s.len() && m < s.len() && s[m] == ':') {
                            None
                        } else {
                            match sp_value(s, m + 1, depth) {
                                None => None,
                                Some((v, e)) => {
                                    if !(m < e <= s.len()) {
                                        None
                                    } else {
                                        let p = sp_skip_ws(s, e);
                                        if !(e <= p <= s.len()) {
                                            None
                                        } else if p < s.len() && s[p] == ',' {
                                            match sp_members_more(s, p + 1, depth) {
                                                None => None,
                                                Some((rest, q)) => Some(
                                                    (seq![(key, v)] + rest, q),
                                                ),
                                            }
                                        } else if p < s.len() && s[p] == '}' {
                                            Some((seq![(key, v)], p + 1))
                                        } else {
                                            None
                                        }
                                    }
                                },
                            }
                        }
                    }
                },
            }
        }
    }
}

/// `r`, with `prefix` prepended to the decoded characters.
pub open spec fn sb_prepend(prefix: Seq<char>, r: Option<(Seq<char>, int)>) -> Option<
    (Seq<char>, int),
> {
    match r {
        None => None,
        Some((t, k)) => Some((prefix + t, k)),
    }
}

proof fn lemma_sb_prepend(a: Seq<char>, b: Seq<char>, r: Option<(Seq<char>, int)>)
    ensures
        sb_prepend(a, sb_prepend(b, r)) == sb_prepend(a + b, r),
{
    match r {
        None => {},
        Some((t, k)) => {
            assert(a + (b + t) =~= (a + b) + t);
        },
    }
}

/// The characters of `s`, one by one.
fn str_to_chars(s: &str) -> (r: Vec<char>)
    ensures
        r@ == s@,
{
    let n = s.unicode_len();
    let mut r: Vec<char> = Vec::new();
    let mut i: usize = 0;
    while i < n
        invariant
            n == s@.len(),
            0 <= i <= n,
            r@ == s@.subrange(0, i as int),
        decreases n - i,
    {
        r.push(s.get_char(i));
        i = i + 1;
        proof {
            assert(r@ =~= s@.subrange(0, i as int));
        }
    }
    proof {
        assert(s@.subrange(0, n as int) =~= s@);
    }
    r
}

fn ws_char(c: char) -> (b: bool)
    ensures
        b == json_ws(c),
{
    c == ' ' || c == '\t' || c == '\n' || c == '\r'
}

fn digit_char(c: char) -> (b: bool)
    ensures
        b == json_digit(c),
{
    '0' <= c && c <= '9'
}

fn skip_ws(s: &Vec<char>, i: usize) -> (j: usize)
    requires
        i <= s@.len(),
    ensures
        j as int == sp_skip_ws(s@, i as int),
        i <= j <= s@.len(),
{
    let mut j = i;
    while j < s.len() && ws_char(s[j])
        invariant
            i <= j <= s@.len(),
            sp_skip_ws(s@, i as int) == sp_skip_ws(s@, j as int),
        decreases s@.len() - j,
    {
        j = j + 1;
    }
    j
}

fn skip_digits(s: &Vec<char>, i: usize) -> (j: usize)
    requires
        i <= s@.len(),
    ensures
        j as int == sp_skip_digits(s@, i as int),
        i <= j <= s@.len(),
{
    let mut j = i;
    while j < s.len() && digit_char(s[j])
        invariant
            i <= j <= s@.len(),
            sp_skip_digits(s@, i as int) == sp_skip_digits(s@, j as int),
        decreases s@.len() - j,
    {
        j = j + 1;
    }
    j
}

fn hex_val(c: char) -> (r: Option<u8>)
    ensures
        match r {
            Some(v) => sp_hex_val(c) == Some(v as int) && v <= 15,
            None => sp_hex_val(c) is None,
        },
{
    if '0' <= c && c <= '9' {
        if c == '0' {
            Some(0)
        } else if c == '1' {
            Some(1)
        } else if c == '2' {
            Some(2)
        } else if c == '3' {
            Some(3)
        } else if c == '4' {
            Some(4)
        } else if c == '5' {
            Some(5)
        } else if c == '6' {
            Some(6)
        } else if c == '7' {
            Some(7)
        } else if c == '8' {
            Some(8)
        } else {
            Some(9)
        }
    } else if c == 'a' || c == 'A' {
        Some(10)
    } else if c == 'b' || c == 'B' {
        Some(11)
    } else if c == 'c' || c == 'C' {
        Some(12)
    } else if c == 'd' || c == 'D' {
        Some(13)
    } else if c == 'e' || c == 'E' {
        Some(14)
    } else if c == 'f' || c == 'F' {
        Some(15)
    } else {
        None
    }
}

fn parse_escape(s: &Vec<char>, i: usize) -> (r: Option<(char, usize)>)
    requires
        i <= s@.len(),
    ensures
        match r {
            Some(p) => sp_escape(s@, i as int) == Some((p.0, p.1 as int)) && i < p.1 <= s@.len(),
            None => sp_escape(s@, i as int) is None,
        },
{
    if i >= s.len() {
        return None;
    }
    let c = s[i];
    if c == '"' {
        Some(('"', i + 1))
    } else if c == '\\' {
        Some(('\\', i + 1))
    } else if c == '/' {
        Some(('/', i + 1))
    } else if c == 'b' {
        Some(('\u{0008}', i + 1))
    } else if c == 'f' {
        Some(('\u{000C}', i + 1))
    } else if c == 'n' {
        Some(('\n', i + 1))
    } else if c == 'r' {
        Some(('\r', i + 1))
    } else if c == 't' {
        Some(('\t', i + 1))
    } else if c == 'u' && s.len() - i >= 5 {
        match (hex_val(s[i + 1]), hex_val(s[i + 2]), hex_val(s[i + 3]), hex_val(s[i + 4])) {
            (Some(a), Some(b), Some(x), Some(d)) => {
                let code: u32 = (a as u32) * 4096 + (b as u32) * 256 + (x as u32) * 16 + (d as u32);
                if 0xD800 <= code && code < 0xE000 {
                    None
                } else {
                    Some((crate::sys::char_from_code(code), i + 5))
                }
            },
            _ => None,
        }
    } else {
        None
    }
}

fn parse_string_body(s: &Vec<char>, i: usize) -> (r: Option<(Vec<char>, usize)>)
    requires
        i <= s@.len(),
    ensures
        match r {
            Some(p) => sp_string_body(s@, i as int) == Some((p.0@, p.1 as int)) && i < p.1
                <= s@.len(),
            None => sp_string_body(s@, i as int) is None,
        },
{
    let mut acc: Vec<char> = Vec::new();
    let mut cur = i;
    loop
        invariant
            i <= cur <= s@.len(),
            sp_string_body(s@, i as int) == sb_prepend(acc@, sp_string_body(s@, cur as int)),
        decreases s@.len() - cur,
    {
        if cur >= s.len() {
            return None;
        }
        let c = s[cur];
        if c == '"' {
            proof {
                assert(acc@ + Seq::<char>::empty() =~= acc@);
            }
            return Some((acc, cur + 1));
        } else if c == '\\' {
            match parse_escape(s, cur + 1) {
                None => {
                    return None;
                },
                Some((e, j)) => {
                    proof {
                        lemma_sb_prepend(acc@, seq![e], sp_string_body(s@, j as int));
                        assert(acc@ + seq![e] =~= acc@.push(e));
                    }
                    acc.push(e);
                    cur = j;
                },
            }
        } else if c <= '\u{001F}' {
            return None;
        } else {
            proof {
                lemma_sb_prepend(acc@, seq![c], sp_string_body(s@, cur + 1));
                assert(acc@ + seq![c] =~= acc@.push(c));
            }
            acc.push(c);
            cur = cur + 1;
        }
    }
}

fn parse_number_end(s: &Vec<char>, i: usize) -> (r: Option<usize>)
    requires
        i <= s@.len(),
    ensures
        match r {
            Some(k) => sp_number_end(s@, i as int) == Some(k as int) && i < k <= s@.len(),
            None => sp_number_end(s@, i as int) is None,
        },
{
    let j = if i < s.len() && s[i] == '-' {
        i + 1
    } else {
        i
    };
    if !(j < s.len() && digit_char(s[j])) {
        return None;
    }
    let k = if s[j] == '0' {
        j + 1
    } else {
        proof {
            lemma_sp_skip_digits(s@, j + 1);
        }
        skip_digits(s, j)
    };
    let k2 = if k < s.len() && s[k] == '.' {
        if k + 1 < s.len() && digit_char(s[k + 1]) {
            proof {
                lemma_sp_skip_digits(s@, k + 2);
            }
            skip_digits(s, k + 1)
        } else {
            return None;
        }
    } else {
        k
    };
    let k3 = if k2 < s.len() && (s[k2] == 'e' || s[k2] == 'E') {
        let l = if k2 + 1 < s.len() && (s[k2 + 1] == '+' || s[k2 + 1] == '-') {
            k2 + 2
        } else {
            k2 + 1
        };
        if l < s.len() && digit_char(s[l]) {
            proof {
                lemma_sp_skip_digits(s@, l + 1);
            }
            skip_digits(s, l)
        } else {
            return None;
        }
    } else {
        k2
    };
    Some(k3)
}

/// The document that the whole of `s` denotes, if any: one value with
/// nothing but whitespace around it.
pub open spec fn spec_json(s: Seq<char>) -> Option<JVal> {
    match sp_value(s, 0, MAX_DEPTH as int) {
        None => None,
        Some((v, k)) => if sp_skip_ws(s, k) == s.len() {
            Some(v)
        } else {
            None
        },
    }
}

/// `r`, with `prefix` prepended to the parsed elements.
pub open spec fn ev_prepend(prefix: Seq<JVal>, r: Option<(Seq<JVal>, int)>) -> Option<
    (Seq<JVal>, int),
> {
    match r {
        None => None,
        Some((es, k)) => Some((prefix + es, k)),
    }
}

proof fn lemma_ev_prepend(a: Seq<JVal>, b: Seq<JVal>, r: Option<(Seq<JVal>, int)>)
    ensures
        ev_prepend(a, ev_prepend(b, r)) == ev_prepend(a + b, r),
{
    match r {
        None => {},
        Some((es, k)) => {
            assert(a + (b + es) =~= (a + b) + es);
        },
    }
}

/// `r`, with `prefix` prepended to the parsed members.
pub open spec fn mb_prepend(
    prefix: Seq<(Seq<char>, JVal)>,
    r: Option<(Seq<(Seq<char>, JVal)>, int)>,
) -> Option<(Seq<(Seq<char>, JVal)>, int)> {
    match r {
        None => None,
        Some((ms, k)) => Some((prefix + ms, k)),
    }
}

proof fn lemma_mb_prepend(
    a: Seq<(Seq<char>, JVal)>,
    b: Seq<(Seq<char>, JVal)>,
    r: Option<(Seq<(Seq<char>, JVal)>, int)>,
)
    ensures
        mb_prepend(a, mb_prepend(b, r)) == mb_prepend(a + b, r),
{
    match r {
        None => {},
        Some((ms, k)) => {
            assert(a + (b + ms) =~= (a + b) + ms);
        },
    }
}

fn parse_value(s: &Vec<char>, i: usize, depth: u32) -> (r: Option<(JsonValue, usize)>)
    requires
        i <= s@.len(),
    ensures
        match r {
            Some(p) => sp_value(s@, i as int, depth as int) == Some((p.0.sview(), p.1 as int)) && i
                < p.1 <= s@.len(),
            None => sp_value(s@, i as int, depth as int) is None,
        },
    decreases s@.len() - i, 1int,
{
    let j = skip_ws(s, i);
    if j >= s.len() {
        return None;
    }
    let c = s[j];
    if c == '"' {
        match parse_string_body(s, j + 1) {
            None => None,
            Some((t, k)) => Some((JsonValue::Text(t), k)),
        }
    } else if c == '[' {
        if depth == 0 {
            return None;
        }
        match parse_elements(s, j + 1, depth - 1) {
            None => None,
            Some((es, k)) => Some((JsonValue::Array(es), k)),
        }
    } else if c == '{' {
        if depth == 0 {
            return None;
        }
        match parse_members(s, j + 1, depth - 1) {
            None => None,
            Some((ms, k)) => Some((JsonValue::Object(ms), k)),
        }
    } else if c == 't' {
        if s.len() - j >= 4 && s[j + 1] == 'r' && s[j + 2] == 'u' && s[j + 3] == 'e' {
            Some((JsonValue::Bool(true), j + 4))
        } else {
            None
        }
    } else if c == 'f' {
        if s.len() - j >= 5 && s[j + 1] == 'a' && s[j + 2] == 'l' && s[j + 3] == 's' && s[j + 4]
            == 'e' {
            Some((JsonValue::Bool(false), j + 5))
        } else {
            None
        }
    } else if c == 'n' {
        if s.len() - j >= 4 && s[j + 1] == 'u' && s[j + 2] == 'l' && s[j + 3] == 'l' {
            Some((JsonValue::Null, j + 4))
        } else {
            None
        }
    } else if c == '-' || digit_char(c) {
        match parse_number_end(s, j) {
            None => None,
            Some(k) => Some((JsonValue::Number, k)),
        }
    } else {
        None
    }
}

fn parse_elements(s: &Vec<char>, i: usize, depth: u32) -> (r: Option<(Vec<JsonValue>, usize)>)
    requires
        i <= s@.len(),
    ensures
        match r {
            Some(p) => sp_elements(s@, i as int, depth as int) == Some((jvals(p.0@), p.1 as int))
                && i < p.1 <= s@.len(),
            None => sp_elements(s@, i as int, depth as int) is None,
        },
    decreases s@.len() - i, 3int,
{
    let j = skip_ws(s, i);
    if j < s.len() && s[j] == ']' {
        let es: Vec<JsonValue> = Vec::new();
        proof {
            assert(jvals(es@) =~= Seq::<JVal>::empty());
        }
        return Some((es, j + 1));
    }
    let mut acc: Vec<JsonValue> = Vec::new();
    let mut cur = i;
    proof {
        assert(jvals(acc@) + Seq::<JVal>::empty() =~= jvals(acc@));
        assert(sp_elements(s@, i as int, depth as int) == sp_elements_more(
            s@,
            i as int,
            depth as int,
        ));
        assert(ev_prepend(Seq::empty(), sp_elements_more(s@, i as int, depth as int))
            == sp_elements_more(s@, i as int, depth as int)) by {
            match sp_elements_more(s@, i as int, depth as int) {
                None => {},
                Some((es, k)) => {
                    assert(Seq::empty() + es =~= es);
                },
            }
        }
    }
    loop
        invariant
            i <= cur <= s@.len(),
            s@.len() == s.len(),
            sp_elements(s@, i as int, depth as int) == ev_prepend(
                jvals(acc@),
                sp_elements_more(s@, cur as int, depth as int),
            ),
        decreases s@.len() - cur,
    {
        match parse_value(s, cur, depth) {
            None => {
                return None;
            },
            Some((v, k)) => {
                let m = skip_ws(s, k);
                if m < s.len() && s[m] == ',' {
                    proof {
                        assert(sp_elements_more(s@, cur as int, depth as int) == ev_prepend(
                            seq![v.sview()],
                            sp_elements_more(s@, m + 1, depth as int),
                        ));
                        lemma_ev_prepend(
                            jvals(acc@),
                            seq![v.sview()],
                            sp_elements_more(s@, m + 1, depth as int),
                        );
                        lemma_jvals_push(acc@, v);
                    }
                    acc.push(v);
                    cur = m + 1;
                } else if m < s.len() && s[m] == ']' {
                    proof {
                        assert(sp_elements_more(s@, cur as int, depth as int) == Some(
                            (seq![v.sview()], m + 1),
                        ));
                        lemma_jvals_push(acc@, v);
                        assert(jvals(acc@.push(v)) =~= jvals(acc@) + seq![v.sview()]);
                    }
                    acc.push(v);
                    return Some((acc, m + 1));
                } else {
                    return None;
                }
            },
        }
    }
}

fn parse_members(s: &Vec<char>, i: usize, depth: u32) -> (r: Option<
    (Vec<(Vec<char>, JsonValue)>, usize),
>)
    requires
        i <= s@.len(),
    ensures
        match r {
            Some(p) => sp_members(s@, i as int, depth as int) == Some((jmembers(p.0@), p.1 as int))
                && i < p.1 <= s@.len(),
            None => sp_members(s@, i as int, depth as int) is None,
        },
    decreases s@.len() - i, 3int,
{
    let j = skip_ws(s, i);
    if j < s.len() && s[j] == '}' {
        let ms: Vec<(Vec<char>, JsonValue)> = Vec::new();
        proof {
            assert(jmembers(ms@) =~= Seq::<(Seq<char>, JVal)>::empty());
        }
        return Some((ms, j + 1));
    }
    let mut acc: Vec<(Vec<char>, JsonValue)> = Vec::new();
    let mut cur = i;
    proof {
        assert(sp_members(s@, i as int, depth as int) == sp_members_more(
            s@,
            i as int,
            depth as int,
        ));
        assert(mb_prepend(Seq::empty(), sp_members_more(s@, i as int, depth as int))
            == sp_members_more(s@, i as int, depth as int)) by {
            match sp_members_more(s@, i as int, depth as int) {
                None => {},
                Some((ms, k)) => {
                    assert(Seq::empty() + ms =~= ms);
                },
            }
        }
    }
    loop
        invariant
            i <= cur <= s@.len(),
            s@.len() == s.len(),
            sp_members(s@, i as int, depth as int) == mb_prepend(
                jmembers(acc@),
                sp_members_more(s@, cur as int, depth as int),
            ),
        decreases s@.len() - cur,
    {
        let j2 = skip_ws(s, cur);
        if !(j2 < s.len() && s[j2] == '"') {
            return None;
        }
        match parse_string_body(s, j2 + 1) {
            None => {
                return None;
            },
            Some((key, k)) => {
                let m = skip_ws(s, k);
                if !(m < s.len() && s[m] == ':') {
                    return None;
                }
                match parse_value(s, m + 1, depth) {
                    None => {
                        return None;
                    },
                    Some((v, e)) => {
                        let p = skip_ws(s, e);
                        if p < s.len() && s[p] == ',' {
                            proof {
                                assert(sp_members_more(s@, cur as int, depth as int) == mb_prepend(
                                    seq![(key@, v.sview())],
                                    sp_members_more(s@, p + 1, depth as int),
                                ));
                                lemma_mb_prepend(
                                    jmembers(acc@),
                                    seq![(key@, v.sview())],
                                    sp_members_more(s@, p + 1, depth as int),
                                );
                                lemma_jmembers_push(acc@, key, v);
                            }
                            acc.push((key, v));
                            cur = p + 1;
                        } else if p < s.len() && s[p] == '}' {
                            proof {
                                assert(sp_members_more(s@, cur as int, depth as int) == Some(
                                    (seq![(key@, v.sview())], p + 1),
                                ));
                                lemma_jmembers_push(acc@, key, v);
                            }
                            acc.push((key, v));
                            return Some((acc, p + 1));
                        } else {
                            return None;
                        }
                    },
                }
            },
        }
    }
}

/// Parses `s` as one JSON document. Returns the document exactly when
/// [`spec_json`] accepts the characters of `s`.
pub fn parse_json(s: &str) -> (r: Option<JsonValue>)
    ensures
        match r {
            Some(v) => spec_json(s@) == Some(v.sview()),
            None => spec_json(s@) is None,
        },
{
    let chars = str_to_chars(s);
    match parse_value(&chars, 0, MAX_DEPTH) {
        None => None,
        Some((v, k)) => {
            let e = skip_ws(&chars, k);
            if e == chars.len() {
                Some(v)
            } else {
                None
            }
        },
    }
}

} // verus!
