use vstd::prelude::*;

use crate::timestamp::{spec_digit_val, spec_is_digit};

verus! {

// The remote API answers every call with a small JSON document. The
// shapes this client meets are fixed: arrays of strings, arrays of flat
// summary objects, one message object, and — for address generation —
// an arbitrary document whose top-level array's first element is read
// as a string. This module gives those shapes a direct specification
// over character sequences and parses them with verified code. JSON
// strings may use every escape the format has, `\u` with surrogate
// pairs included. The typed record parsers reject an object member the
// records do not have; the generation classifier skips values of every
// kind without decoding them.

/// Whether `c` is JSON whitespace.
pub open spec fn is_json_ws(c: char) -> bool {
    c == ' ' || c == '\n' || c == '\r' || c == '\t'
}

/// The first position at or after `i` that does not hold whitespace.
pub open spec fn spec_skip_ws(s: Seq<char>, i: nat) -> nat
    decreases s.len() - i,
{
    if i < s.len() && is_json_ws(s[i as int]) {
        spec_skip_ws(s, i + 1)
    } else {
        i
    }
}

pub proof fn lemma_skip_ws_bounds(s: Seq<char>, i: nat)
    ensures
        i <= spec_skip_ws(s, i),
        i <= s.len() ==> spec_skip_ws(s, i) <= s.len(),
    decreases s.len() - i,
{
    if i < s.len() && is_json_ws(s[i as int]) {
        lemma_skip_ws_bounds(s, i + 1);
    }
}

/// The character a single-character escape stands for, if `c` is one.
pub open spec fn spec_unescape(c: char) -> Option<char> {
    match c {
        '"' => Some('"'),
        '\\' => Some('\\'),
        '/' => Some('/'),
        'b' => Some('\u{8}'),
        'f' => Some('\u{c}'),
        'n' => Some('\n'),
        'r' => Some('\r'),
        't' => Some('\t'),
        _ => None,
    }
}

/// The value of the hexadecimal digit `c`, if it is one.
pub open spec fn spec_hex_val(c: char) -> Option<int> {
    if '0' <= c && c <= '9' {
        Some(c as int - '0' as int)
    } else if 'a' <= c && c <= 'f' {
        Some(c as int - 'a' as int + 10)
    } else if 'A' <= c && c <= 'F' {
        Some(c as int - 'A' as int + 10)
    } else {
        None
    }
}

/// The value of the four hexadecimal digits at positions `i` to
/// `i + 3`, if all four are there and are digits.
pub open spec fn spec_hex4(s: Seq<char>, i: nat) -> Option<int> {
    if i + 3 < s.len() && spec_hex_val(s[i as int]) is Some && spec_hex_val(s[i as int + 1])
        is Some && spec_hex_val(s[i as int + 2]) is Some && spec_hex_val(s[i as int + 3])
        is Some {
        Some(
            spec_hex_val(s[i as int]).unwrap() * 4096 + spec_hex_val(s[i as int + 1]).unwrap()
                * 256 + spec_hex_val(s[i as int + 2]).unwrap() * 16 + spec_hex_val(
                s[i as int + 3],
            ).unwrap(),
        )
    } else {
        None
    }
}

/// The character a `\u` escape with value `v` stands for, paired with
/// `w` when `v` is a high surrogate and `w` the low one that follows.
pub open spec fn spec_surrogate_pair_char(v: int, w: int) -> char {
    ((0x10000 + (v - 0xD800) * 0x400 + (w - 0xDC00)) as u32) as char
}

/// Parses the body of a JSON string from position `i` (just after the
/// opening quote) with `acc` already decoded: the decoded content and
/// the position after the closing quote. Control characters, escapes
/// other than the JSON ones, and unpaired surrogates are rejected.
pub open spec fn spec_parse_jstring(s: Seq<char>, i: nat, acc: Seq<char>) -> Option<
    (Seq<char>, nat),
>
    decreases s.len() - i,
{
    if i >= s.len() {
        None
    } else if s[i as int] == '"' {
        Some((acc, (i + 1) as nat))
    } else if s[i as int] == '\\' {
        if i + 1 < s.len() && s[i as int + 1] == 'u' {
            match spec_hex4(s, (i + 2) as nat) {
                None => None,
                Some(v) => if 0xD800 <= v <= 0xDBFF {
                    if i + 7 < s.len() && s[i as int + 6] == '\\' && s[i as int + 7] == 'u' {
                        match spec_hex4(s, (i + 8) as nat) {
                            None => None,
                            Some(w) => if 0xDC00 <= w <= 0xDFFF {
                                spec_parse_jstring(
                                    s,
                                    (i + 12) as nat,
                                    acc.push(spec_surrogate_pair_char(v, w)),
                                )
                            } else {
                                None
                            },
                        }
                    } else {
                        None
                    }
                } else if 0xDC00 <= v <= 0xDFFF {
                    None
                } else {
                    spec_parse_jstring(s, (i + 6) as nat, acc.push((v as u32) as char))
                },
            }
        } else if i + 1 < s.len() && spec_unescape(s[i as int + 1]) is Some {
            spec_parse_jstring(s, (i + 2) as nat, acc.push(spec_unescape(s[i as int + 1]).unwrap()))
        } else {
            None
        }
    } else if (s[i as int] as u32) < 32 {
        None
    } else {
        spec_parse_jstring(s, (i + 1) as nat, acc.push(s[i as int]))
    }
}

pub proof fn lemma_jstring_bounds(s: Seq<char>, i: nat, acc: Seq<char>)
    ensures
        spec_parse_jstring(s, i, acc) matches Some(p) ==> i < p.1 <= s.len(),
    decreases s.len() - i,
{
    if i >= s.len() {
    } else if s[i as int] == '"' {
    } else if s[i as int] == '\\' {
        if i + 1 < s.len() && s[i as int + 1] == 'u' {
            if let Some(v) = spec_hex4(s, (i + 2) as nat) {
                if 0xD800 <= v <= 0xDBFF {
                    if i + 7 < s.len() && s[i as int + 6] == '\\' && s[i as int + 7] == 'u' {
                        if let Some(w) = spec_hex4(s, (i + 8) as nat) {
                            if 0xDC00 <= w <= 0xDFFF {
                                lemma_jstring_bounds(
                                    s,
                                    (i + 12) as nat,
                                    acc.push(spec_surrogate_pair_char(v, w)),
                                );
                            }
                        }
                    }
                } else if 0xDC00 <= v <= 0xDFFF {
                } else {
                    lemma_jstring_bounds(s, (i + 6) as nat, acc.push((v as u32) as char));
                }
            }
        } else if i + 1 < s.len() && spec_unescape(s[i as int + 1]) is Some {
            lemma_jstring_bounds(
                s,
                (i + 2) as nat,
                acc.push(spec_unescape(s[i as int + 1]).unwrap()),
            );
        }
    } else if (s[i as int] as u32) < 32 {
    } else {
        lemma_jstring_bounds(s, (i + 1) as nat, acc.push(s[i as int]));
    }
}

/// Accumulates decimal digits from position `i` onto `acc`: the value
/// and the position after the last digit.
pub open spec fn spec_parse_digits(s: Seq<char>, i: nat, acc: int) -> (int, nat)
    decreases s.len() - i,
{
    if i < s.len() && spec_is_digit(s[i as int]) {
        spec_parse_digits(s, i + 1, acc * 10 + spec_digit_val(s[i as int]))
    } else {
        (acc, i)
    }
}

pub proof fn lemma_digits_bounds(s: Seq<char>, i: nat, acc: int)
    requires
        acc >= 0,
    ensures
        spec_parse_digits(s, i, acc).0 >= acc,
        i <= spec_parse_digits(s, i, acc).1,
        i <= s.len() ==> spec_parse_digits(s, i, acc).1 <= s.len(),
    decreases s.len() - i,
{
    if i < s.len() && spec_is_digit(s[i as int]) {
        lemma_digits_bounds(s, i + 1, acc * 10 + spec_digit_val(s[i as int]));
    }
}

/// Parses a nonnegative JSON integer at position `i`: its mathematical
/// value and the position after it. A leading zero is only the number
/// zero itself; a sign, fraction or exponent is rejected.
pub open spec fn spec_parse_number(s: Seq<char>, i: nat) -> Option<(int, nat)> {
    if i < s.len() && spec_is_digit(s[i as int]) {
        if s[i as int] == '0' {
            if i + 1 < s.len() && spec_is_digit(s[i as int + 1]) {
                None
            } else {
                Some((0, (i + 1) as nat))
            }
        } else {
            Some(spec_parse_digits(s, i, 0))
        }
    } else {
        None
    }
}

/// The position ends of the two optional tails of a JSON number: a
/// fraction (`.` and at least one digit) at position `i`, if present.
pub open spec fn spec_skip_frac(s: Seq<char>, i: nat) -> Option<nat> {
    if i < s.len() && s[i as int] == '.' {
        if i + 1 < s.len() && spec_is_digit(s[i as int + 1]) {
            Some(spec_parse_digits(s, (i + 1) as nat, 0).1)
        } else {
            None
        }
    } else {
        Some(i)
    }
}

/// An exponent (`e` or `E`, an optional sign, and at least one digit)
/// at position `i`, if present.
pub open spec fn spec_skip_exp(s: Seq<char>, i: nat) -> Option<nat> {
    if i < s.len() && (s[i as int] == 'e' || s[i as int] == 'E') {
        let d = if i + 1 < s.len() && (s[i as int + 1] == '+' || s[i as int + 1] == '-') {
            (i + 2) as nat
        } else {
            (i + 1) as nat
        };
        if d < s.len() && spec_is_digit(s[d as int]) {
            Some(spec_parse_digits(s, d, 0).1)
        } else {
            None
        }
    } else {
        Some(i)
    }
}

/// The position after a full JSON number at position `i`: an optional
/// sign, an integer part without a leading zero, and the optional
/// fraction and exponent. Nothing of its value is computed.
pub open spec fn spec_skip_number(s: Seq<char>, i: nat) -> Option<nat> {
    let start = if i < s.len() && s[i as int] == '-' {
        (i + 1) as nat
    } else {
        i
    };
    if start < s.len() && spec_is_digit(s[start as int]) {
        let ai = if s[start as int] == '0' {
            (start + 1) as nat
        } else {
            spec_parse_digits(s, start, 0).1
        };
        match spec_skip_frac(s, ai) {
            None => None,
            Some(af) => spec_skip_exp(s, af),
        }
    } else {
        None
    }
}

/// The position after one whole JSON value of any kind at position
/// `i`: a string, an array, an object, a literal, or a number. Only
/// well-formedness is judged; nothing is decoded.
pub open spec fn spec_skip_value(s: Seq<char>, i: nat) -> Option<nat>
    decreases s.len() - i, 0int,
{
    if i >= s.len() {
        None
    } else if s[i as int] == '"' {
        match spec_parse_jstring(s, (i + 1) as nat, Seq::<char>::empty()) {
            None => None,
            Some(p) => Some(p.1),
        }
    } else if s[i as int] == '[' {
        let j = spec_skip_ws(s, (i + 1) as nat);
        if j < s.len() && s[j as int] == ']' {
            Some((j + 1) as nat)
        } else {
            spec_skip_array_items(s, (i + 1) as nat)
        }
    } else if s[i as int] == '{' {
        let j = spec_skip_ws(s, (i + 1) as nat);
        if j < s.len() && s[j as int] == '}' {
            Some((j + 1) as nat)
        } else {
            spec_skip_object_members(s, (i + 1) as nat)
        }
    } else if s[i as int] == 'n' {
        if i + 3 < s.len() && s[i as int + 1] == 'u' && s[i as int + 2] == 'l' && s[i as int + 3]
            == 'l' {
            Some((i + 4) as nat)
        } else {
            None
        }
    } else if s[i as int] == 't' {
        if i + 3 < s.len() && s[i as int + 1] == 'r' && s[i as int + 2] == 'u' && s[i as int + 3]
            == 'e' {
            Some((i + 4) as nat)
        } else {
            None
        }
    } else if s[i as int] == 'f' {
        if i + 4 < s.len() && s[i as int + 1] == 'a' && s[i as int + 2] == 'l' && s[i as int + 3]
            == 's' && s[i as int + 4] == 'e' {
            Some((i + 5) as nat)
        } else {
            None
        }
    } else {
        spec_skip_number(s, i)
    }
}

/// The position after the remaining elements of a nonempty array,
/// entered just after `[` or `,`. The explicit bound checks on every
/// intermediate position restate what the callees in fact guarantee;
/// they are never false and make the recursion visibly well-founded.
pub open spec fn spec_skip_array_items(s: Seq<char>, i: nat) -> Option<nat>
    decreases s.len() - i, 1int,
{
    let j = spec_skip_ws(s, i);
    if !(i <= j && j <= s.len()) {
        None
    } else {
        match spec_skip_value(s, j) {
            None => None,
            Some(k) => if !(j < k <= s.len()) {
                None
            } else {
                let m = spec_skip_ws(s, k);
                if !(k <= m) {
                    None
                } else if m >= s.len() {
                    None
                } else if s[m as int] == ']' {
                    Some((m + 1) as nat)
                } else if s[m as int] == ',' {
                    spec_skip_array_items(s, (m + 1) as nat)
                } else {
                    None
                }
            },
        }
    }
}

/// The position after the remaining members of a nonempty object,
/// entered just after `{` or `,`, with the same style of bound checks.
pub open spec fn spec_skip_object_members(s: Seq<char>, i: nat) -> Option<nat>
    decreases s.len() - i, 1int,
{
    let j = spec_skip_ws(s, i);
    if !(i <= j) || j >= s.len() || s[j as int] != '"' {
        None
    } else {
        match spec_parse_jstring(s, (j + 1) as nat, Seq::<char>::empty()) {
            None => None,
            Some(kp) => if !(j < kp.1 <= s.len()) {
                None
            } else {
                let c = spec_skip_ws(s, kp.1);
                if !(kp.1 <= c) || c >= s.len() || s[c as int] != ':' {
                    None
                } else {
                    let v = spec_skip_ws(s, (c + 1) as nat);
                    if !(c < v && v <= s.len()) {
                        None
                    } else {
                        match spec_skip_value(s, v) {
                            None => None,
                            Some(k) => if !(v < k <= s.len()) {
                                None
                            } else {
                                let m = spec_skip_ws(s, k);
                                if !(k <= m) {
                                    None
                                } else if m >= s.len() {
                                    None
                                } else if s[m as int] == '}' {
                                    Some((m + 1) as nat)
                                } else if s[m as int] == ',' {
                                    spec_skip_object_members(s, (m + 1) as nat)
                                } else {
                                    None
                                }
                            },
                        }
                    }
                }
            },
        }
    }
}

/// What a whole JSON document offers as the first element of its
/// top-level array, read as a string: the document is not valid JSON
/// at all; or it is valid but no string stands first (not an array,
/// an empty array, or a first element of another kind); or it is that
/// string. This mirrors indexing the document with `0` and asking for
/// a string.
pub ghost enum FirstElement {
    NotJson,
    NoString,
    AString(Seq<char>),
}

/// Classifies a whole document as `FirstElement` describes.
pub open spec fn spec_first_string(s: Seq<char>) -> FirstElement {
    let i = spec_skip_ws(s, 0);
    match spec_skip_value(s, i) {
        None => FirstElement::NotJson,
        Some(e) => if spec_skip_ws(s, e) != s.len() {
            FirstElement::NotJson
        } else if s[i as int] != '[' {
            FirstElement::NoString
        } else {
            let j = spec_skip_ws(s, (i + 1) as nat);
            if j >= s.len() || s[j as int] == ']' || s[j as int] != '"' {
                FirstElement::NoString
            } else {
                match spec_parse_jstring(s, (j + 1) as nat, Seq::<char>::empty()) {
                    None => FirstElement::NoString,
                    Some(p) => FirstElement::AString(p.0),
                }
            }
        },
    }
}

/// Parses the elements of a nonempty JSON array of strings, entered
/// just after `[` or `,`: the decoded strings collected onto `acc` and
/// the position after the closing `]`.
pub open spec fn spec_parse_string_items(s: Seq<char>, i: nat, acc: Seq<Seq<char>>) -> Option<
    (Seq<Seq<char>>, nat),
>
    decreases s.len() - i,
    via spec_parse_string_items_decreases
{
    let j = spec_skip_ws(s, i);
    if j >= s.len() || s[j as int] != '"' {
        None
    } else {
        match spec_parse_jstring(s, (j + 1) as nat, Seq::<char>::empty()) {
            None => None,
            Some(p) => {
                let m = spec_skip_ws(s, p.1);
                if m >= s.len() {
                    None
                } else if s[m as int] == ']' {
                    Some((acc.push(p.0), (m + 1) as nat))
                } else if s[m as int] == ',' {
                    spec_parse_string_items(s, (m + 1) as nat, acc.push(p.0))
                } else {
                    None
                }
            },
        }
    }
}

#[via_fn]
proof fn spec_parse_string_items_decreases(s: Seq<char>, i: nat, acc: Seq<Seq<char>>) {
    let j = spec_skip_ws(s, i);
    lemma_skip_ws_bounds(s, i);
    if j < s.len() && s[j as int] == '"' {
        lemma_jstring_bounds(s, (j + 1) as nat, Seq::<char>::empty());
        if let Some(p) = spec_parse_jstring(s, (j + 1) as nat, Seq::<char>::empty()) {
            lemma_skip_ws_bounds(s, p.1);
        }
    }
}

/// Parses a whole document holding a JSON array of strings: the
/// decoded strings, provided nothing but whitespace follows.
pub open spec fn spec_parse_string_list(s: Seq<char>) -> Option<Seq<Seq<char>>> {
    let i = spec_skip_ws(s, 0);
    if i >= s.len() || s[i as int] != '[' {
        None
    } else {
        let j = spec_skip_ws(s, (i + 1) as nat);
        if j < s.len() && s[j as int] == ']' {
            if spec_skip_ws(s, (j + 1) as nat) == s.len() {
                Some(Seq::<Seq<char>>::empty())
            } else {
                None
            }
        } else {
            match spec_parse_string_items(s, (i + 1) as nat, Seq::<Seq<char>>::empty()) {
                None => None,
                Some(p) => if spec_skip_ws(s, p.1) == s.len() {
                    Some(p.0)
                } else {
                    None
                },
            }
        }
    }
}

/// Skips whitespace executably.
pub(crate) fn skip_ws(s: &str, n: usize, i: usize) -> (r: usize)
    requires
        n == s@.len(),
        i <= n,
    ensures
        r == spec_skip_ws(s@, i as nat),
        i <= r <= n,
{
    let mut j = i;
    while j < n && is_ws(s.get_char(j))
        invariant
            n == s@.len(),
            i <= j <= n,
            spec_skip_ws(s@, i as nat) == spec_skip_ws(s@, j as nat),
        decreases n - j,
    {
        j = j + 1;
    }
    j
}

/// Compares two string slices by content.
pub(crate) fn str_eq(a: &str, b: &str) -> (r: bool)
    ensures
        r == (a@ == b@),
{
    let x = a.to_owned();
    let y = b.to_owned();
    x == y
}

/// Whether `c` is JSON whitespace, executably.
fn is_ws(c: char) -> (r: bool)
    ensures
        r == is_json_ws(c),
{
    c == ' ' || c == '\n' || c == '\r' || c == '\t'
}

/// The value of the hexadecimal digit `c`, executably.
fn hex_val(c: char) -> (r: Option<u32>)
    ensures
        match r {
            Some(v) => spec_hex_val(c) == Some(v as int),
            None => spec_hex_val(c) is None,
        },
{
    if '0' <= c && c <= '9' {
        Some(c as u32 - '0' as u32)
    } else if 'a' <= c && c <= 'f' {
        Some(c as u32 - 'a' as u32 + 10)
    } else if 'A' <= c && c <= 'F' {
        Some(c as u32 - 'A' as u32 + 10)
    } else {
        None
    }
}

/// Reads the four hexadecimal digits of a `\u` escape, executably.
fn parse_hex4(s: &str, n: usize, j: usize) -> (r: Option<u32>)
    requires
        n == s@.len(),
        j <= n,
    ensures
        match r {
            Some(v) => spec_hex4(s@, j as nat) == Some(v as int) && v <= 0xFFFF && j + 4 <= n,
            None => spec_hex4(s@, j as nat) is None,
        },
{
    if j >= n || n - j < 4 {
        return None;
    }
    let h0 = hex_val(s.get_char(j));
    let h1 = hex_val(s.get_char(j + 1));
    let h2 = hex_val(s.get_char(j + 2));
    let h3 = hex_val(s.get_char(j + 3));
    match (h0, h1, h2, h3) {
        (Some(a), Some(b), Some(c), Some(d)) => Some(a * 4096 + b * 256 + c * 16 + d),
        _ => None,
    }
}

/// Relies on char::from_u32: it returns the character with the given
/// code point for every Unicode scalar value, and only surrogate
/// range values are not scalars below 0x110000.
#[verifier::external_body]
fn char_from_scalar(v: u32) -> (c: char)
    requires
        vstd::utf8::is_scalar(v),
    ensures
        c as u32 == v,
{
    char::from_u32(v).expect("not a scalar value")
}

/// Relies on String::push: it appends exactly the given character.
#[verifier::external_body]
fn push_char(acc: &mut String, c: char)
    ensures
        final(acc)@ == old(acc)@.push(c),
{
    acc.push(c);
}

/// Appends the character that the escape `c` stands for, if any.
fn append_escape(acc: &mut String, c: char) -> (ok: bool)
    ensures
        ok == (spec_unescape(c) is Some),
        ok ==> final(acc)@ == old(acc)@.push(spec_unescape(c).unwrap()),
        !ok ==> final(acc)@ == old(acc)@,
{
    if c == '"' {
        proof {
            reveal_strlit("\"");
        }
        acc.append("\"");
        assert(acc@ =~= old(acc)@.push('"'));
        true
    } else if c == '\\' {
        proof {
            reveal_strlit("\\");
        }
        acc.append("\\");
        assert(acc@ =~= old(acc)@.push('\\'));
        true
    } else if c == '/' {
        proof {
            reveal_strlit("/");
        }
        acc.append("/");
        assert(acc@ =~= old(acc)@.push('/'));
        true
    } else if c == 'b' {
        proof {
            reveal_strlit("\u{8}");
        }
        acc.append("\u{8}");
        assert(acc@ =~= old(acc)@.push('\u{8}'));
        true
    } else if c == 'f' {
        proof {
            reveal_strlit("\u{c}");
        }
        acc.append("\u{c}");
        assert(acc@ =~= old(acc)@.push('\u{c}'));
        true
    } else if c == 'n' {
        proof {
            reveal_strlit("\n");
        }
        acc.append("\n");
        assert(acc@ =~= old(acc)@.push('\n'));
        true
    } else if c == 'r' {
        proof {
            reveal_strlit("\r");
        }
        acc.append("\r");
        assert(acc@ =~= old(acc)@.push('\r'));
        true
    } else if c == 't' {
        proof {
            reveal_strlit("\t");
        }
        acc.append("\t");
        assert(acc@ =~= old(acc)@.push('\t'));
        true
    } else {
        false
    }
}

/// Parses a JSON string body executably, from just after the opening
/// quote; returns the decoded content and the position after the
/// closing quote.
pub(crate) fn parse_jstring(s: &str, n: usize, i: usize) -> (r: Option<(String, usize)>)
    requires
        n == s@.len(),
        i <= n,
    ensures
        match r {
            Some(p) => spec_parse_jstring(s@, i as nat, Seq::<char>::empty()) == Some(
                (p.0@, p.1 as nat),
            ) && i < p.1 <= n,
            None => spec_parse_jstring(s@, i as nat, Seq::<char>::empty()) is None,
        },
{
    let mut acc = String::new();
    let mut j = i;
    loop
        invariant
            n == s@.len(),
            i <= j <= n,
            spec_parse_jstring(s@, i as nat, Seq::<char>::empty()) == spec_parse_jstring(
                s@,
                j as nat,
                acc@,
            ),
        decreases n - j,
    {
        if j >= n {
            return None;
        }
        let c = s.get_char(j);
        if c == '"' {
            return Some((acc, j + 1));
        } else if c == '\\' {
            if j + 1 >= n {
                return None;
            }
            let c2 = s.get_char(j + 1);
            if c2 == 'u' {
                let v = match parse_hex4(s, n, j + 2) {
                    None => { return None; },
                    Some(v) => v,
                };
                if 0xD800 <= v && v <= 0xDBFF {
                    if j + 6 >= n {
                        return None;
                    }
                    if s.get_char(j + 6) != '\\' {
                        return None;
                    }
                    if j + 7 >= n {
                        return None;
                    }
                    if s.get_char(j + 7) != 'u' {
                        return None;
                    }
                    let w = match parse_hex4(s, n, j + 8) {
                        None => { return None; },
                        Some(w) => w,
                    };
                    if !(0xDC00 <= w && w <= 0xDFFF) {
                        return None;
                    }
                    let scalar: u32 = 0x10000 + (v - 0xD800) * 0x400 + (w - 0xDC00);
                    let c3 = char_from_scalar(scalar);
                    proof {
                        vstd::utf8::char_u32_cast(c3, scalar);
                        assert(c3 == spec_surrogate_pair_char(v as int, w as int));
                    }
                    push_char(&mut acc, c3);
                    j = j + 12;
                } else if 0xDC00 <= v && v <= 0xDFFF {
                    return None;
                } else {
                    let c3 = char_from_scalar(v);
                    proof {
                        vstd::utf8::char_u32_cast(c3, v);
                    }
                    push_char(&mut acc, c3);
                    j = j + 6;
                }
            } else if !append_escape(&mut acc, c2) {
                return None;
            } else {
                j = j + 2;
            }
        } else if (c as u32) < 32 {
            return None;
        } else {
            let ghost acc0 = acc@;
            let piece = s.substring_char(j, j + 1);
            acc.append(piece);
            assert(acc@ =~= acc0.push(s@[j as int]));
            j = j + 1;
        }
    }
}

proof fn lemma_digits_end_indep(s: Seq<char>, i: nat, a: int, b: int)
    ensures
        spec_parse_digits(s, i, a).1 == spec_parse_digits(s, i, b).1,
    decreases s.len() - i,
{
    if i < s.len() && spec_is_digit(s[i as int]) {
        lemma_digits_end_indep(
            s,
            i + 1,
            a * 10 + spec_digit_val(s[i as int]),
            b * 10 + spec_digit_val(s[i as int]),
        );
    }
}

/// Scans past decimal digits executably; only the end position is of
/// interest, which does not depend on any accumulator.
fn skip_digits(s: &str, n: usize, i: usize) -> (r: usize)
    requires
        n == s@.len(),
        i <= n,
    ensures
        r == spec_parse_digits(s@, i as nat, 0).1,
        i <= r <= n,
{
    let mut j = i;
    while j < n && is_digit(s.get_char(j))
        invariant
            n == s@.len(),
            i <= j <= n,
            spec_parse_digits(s@, i as nat, 0).1 == spec_parse_digits(s@, j as nat, 0).1,
        decreases n - j,
    {
        proof {
            lemma_digits_end_indep(
                s@,
                (j + 1) as nat,
                spec_digit_val(s@[j as int]),
                0,
            );
        }
        j = j + 1;
    }
    j
}

/// Scans past one JSON number executably.
fn skip_number_x(s: &str, n: usize, i: usize) -> (r: Option<usize>)
    requires
        n == s@.len(),
        i <= n,
    ensures
        match r {
            Some(e) => spec_skip_number(s@, i as nat) == Some(e as nat) && i < e <= n,
            None => spec_skip_number(s@, i as nat) is None,
        },
{
    let start = if i < n && s.get_char(i) == '-' {
        i + 1
    } else {
        i
    };
    if start >= n {
        return None;
    }
    let c0 = s.get_char(start);
    if !is_digit(c0) {
        return None;
    }
    let ai = if c0 == '0' {
        start + 1
    } else {
        skip_digits(s, n, start)
    };
    proof {
        if c0 != '0' {
            lemma_digits_bounds(s@, (start + 1) as nat, spec_digit_val(s@[start as int]));
            lemma_digits_end_indep(
                s@,
                (start + 1) as nat,
                spec_digit_val(s@[start as int]),
                0,
            );
        }
    }
    let af: usize;
    if ai < n && s.get_char(ai) == '.' {
        if ai + 1 < n && is_digit(s.get_char(ai + 1)) {
            af = skip_digits(s, n, ai + 1);
        } else {
            return None;
        }
    } else {
        af = ai;
    }
    if af < n && (s.get_char(af) == 'e' || s.get_char(af) == 'E') {
        let d = if af + 1 < n && (s.get_char(af + 1) == '+' || s.get_char(af + 1) == '-') {
            af + 2
        } else {
            af + 1
        };
        if d < n && is_digit(s.get_char(d)) {
            Some(skip_digits(s, n, d))
        } else {
            None
        }
    } else {
        Some(af)
    }
}

/// Scans past one whole JSON value executably.
fn skip_value_x(s: &str, n: usize, i: usize) -> (r: Option<usize>)
    requires
        n == s@.len(),
        i <= n,
    ensures
        match r {
            Some(e) => spec_skip_value(s@, i as nat) == Some(e as nat) && i < e <= n,
            None => spec_skip_value(s@, i as nat) is None,
        },
    decreases n - i, 0int,
{
    if i >= n {
        return None;
    }
    let c = s.get_char(i);
    if c == '"' {
        match parse_jstring(s, n, i + 1) {
            None => None,
            Some(p) => Some(p.1),
        }
    } else if c == '[' {
        let j = skip_ws(s, n, i + 1);
        if j < n && s.get_char(j) == ']' {
            return Some(j + 1);
        }
        skip_array_items_x(s, n, i + 1)
    } else if c == '{' {
        let j = skip_ws(s, n, i + 1);
        if j < n && s.get_char(j) == '}' {
            return Some(j + 1);
        }
        skip_object_members_x(s, n, i + 1)
    } else if c == 'n' {
        if n - i < 4 {
            return None;
        }
        if s.get_char(i + 1) == 'u' && s.get_char(i + 2) == 'l' && s.get_char(i + 3) == 'l' {
            Some(i + 4)
        } else {
            None
        }
    } else if c == 't' {
        if n - i < 4 {
            return None;
        }
        if s.get_char(i + 1) == 'r' && s.get_char(i + 2) == 'u' && s.get_char(i + 3) == 'e' {
            Some(i + 4)
        } else {
            None
        }
    } else if c == 'f' {
        if n - i < 5 {
            return None;
        }
        if s.get_char(i + 1) == 'a' && s.get_char(i + 2) == 'l' && s.get_char(i + 3) == 's'
            && s.get_char(i + 4) == 'e' {
            Some(i + 5)
        } else {
            None
        }
    } else {
        skip_number_x(s, n, i)
    }
}

/// Scans past the elements of a nonempty array executably.
fn skip_array_items_x(s: &str, n: usize, i: usize) -> (r: Option<usize>)
    requires
        n == s@.len(),
        i <= n,
    ensures
        match r {
            Some(e) => spec_skip_array_items(s@, i as nat) == Some(e as nat) && i < e <= n,
            None => spec_skip_array_items(s@, i as nat) is None,
        },
    decreases n - i, 1int,
{
    let j = skip_ws(s, n, i);
    let k = match skip_value_x(s, n, j) {
        None => { return None; },
        Some(k) => k,
    };
    let m = skip_ws(s, n, k);
    if m >= n {
        return None;
    }
    let cm = s.get_char(m);
    if cm == ']' {
        Some(m + 1)
    } else if cm == ',' {
        skip_array_items_x(s, n, m + 1)
    } else {
        None
    }
}

/// Scans past the members of a nonempty object executably.
fn skip_object_members_x(s: &str, n: usize, i: usize) -> (r: Option<usize>)
    requires
        n == s@.len(),
        i <= n,
    ensures
        match r {
            Some(e) => spec_skip_object_members(s@, i as nat) == Some(e as nat) && i < e <= n,
            None => spec_skip_object_members(s@, i as nat) is None,
        },
    decreases n - i, 1int,
{
    let j = skip_ws(s, n, i);
    if j >= n {
        return None;
    }
    if s.get_char(j) != '"' {
        return None;
    }
    let kp = match parse_jstring(s, n, j + 1) {
        None => { return None; },
        Some(p) => p,
    };
    let c = skip_ws(s, n, kp.1);
    if c >= n {
        return None;
    }
    if s.get_char(c) != ':' {
        return None;
    }
    let v = skip_ws(s, n, c + 1);
    let k = match skip_value_x(s, n, v) {
        None => { return None; },
        Some(k) => k,
    };
    let m = skip_ws(s, n, k);
    if m >= n {
        return None;
    }
    let cm = s.get_char(m);
    if cm == '}' {
        Some(m + 1)
    } else if cm == ',' {
        skip_object_members_x(s, n, m + 1)
    } else {
        None
    }
}

/// The outcome of `parse_first_string`, mirroring `FirstElement`.
pub enum FirstStringResult {
    NotJson,
    NoString,
    AString(String),
}

/// Classifies a whole document as `spec_first_string` says: not valid
/// JSON at all, valid JSON without a leading string element, or that
/// first string, decoded.
pub fn parse_first_string(s: &str) -> (r: FirstStringResult)
    ensures
        match r {
            FirstStringResult::NotJson => spec_first_string(s@) is NotJson,
            FirstStringResult::NoString => spec_first_string(s@) is NoString,
            FirstStringResult::AString(v) => spec_first_string(s@) == FirstElement::AString(v@),
        },
{
    let n = s.unicode_len();
    let i = skip_ws(s, n, 0);
    let e = match skip_value_x(s, n, i) {
        None => { return FirstStringResult::NotJson; },
        Some(e) => e,
    };
    if skip_ws(s, n, e) != n {
        return FirstStringResult::NotJson;
    }
    if s.get_char(i) != '[' {
        return FirstStringResult::NoString;
    }
    let j = skip_ws(s, n, i + 1);
    if j >= n {
        return FirstStringResult::NoString;
    }
    let cj = s.get_char(j);
    if cj == ']' || cj != '"' {
        return FirstStringResult::NoString;
    }
    match parse_jstring(s, n, j + 1) {
        None => FirstStringResult::NoString,
        Some(p) => FirstStringResult::AString(p.0),
    }
}

pub proof fn lemma_string_items_bounds(s: Seq<char>, i: nat, acc: Seq<Seq<char>>)
    ensures
        spec_parse_string_items(s, i, acc) matches Some(p) ==> i < p.1 <= s.len(),
    decreases s.len() - i,
{
    let j = spec_skip_ws(s, i);
    lemma_skip_ws_bounds(s, i);
    if j < s.len() && s[j as int] == '"' {
        lemma_jstring_bounds(s, (j + 1) as nat, Seq::<char>::empty());
        if let Some(p) = spec_parse_jstring(s, (j + 1) as nat, Seq::<char>::empty()) {
            let m = spec_skip_ws(s, p.1);
            lemma_skip_ws_bounds(s, p.1);
            if m < s.len() && s[m as int] == ',' {
                lemma_string_items_bounds(s, (m + 1) as nat, acc.push(p.0));
            }
        }
    }
}

/// Parses a nonnegative JSON integer executably. The result is `None`
/// both when no well-formed number stands at `i` and when its value
/// does not fit in `usize`; `fits` tells the two apart.
pub(crate) fn parse_number(s: &str, n: usize, i: usize) -> (r: (Option<(usize, usize)>, Ghost<bool>))
    requires
        n == s@.len(),
        i <= n,
    ensures
        match r.0 {
            Some(p) => spec_parse_number(s@, i as nat) == Some((p.0 as int, p.1 as nat)) && i < p.1
                <= n,
            None => r.1@ ==> spec_parse_number(s@, i as nat) is None,
        },
        r.0 is None && !r.1@ ==> (spec_parse_number(s@, i as nat) matches Some(q) && q.0
            > usize::MAX),
{
    if i >= n {
        return (None, Ghost(true));
    }
    let c = s.get_char(i);
    if !('0' <= c && c <= '9') {
        return (None, Ghost(true));
    }
    if c == '0' {
        if i + 1 < n {
            let c2 = s.get_char(i + 1);
            if '0' <= c2 && c2 <= '9' {
                return (None, Ghost(true));
            }
        }
        return (Some((0, i + 1)), Ghost(true));
    }
    let mut acc: usize = 0;
    let mut j = i;
    while j < n && is_digit(s.get_char(j))
        invariant
            n == s@.len(),
            i <= j <= n,
            i < n && spec_is_digit(s@[i as int]) && s@[i as int] != '0',
            spec_parse_digits(s@, i as nat, 0) == spec_parse_digits(s@, j as nat, acc as int),
        decreases n - j,
    {
        let c3 = s.get_char(j);
        let d = (c3 as u32 - '0' as u32) as usize;
        if acc > (usize::MAX - d) / 10 {
            proof {
                lemma_digits_bounds(s@, (j + 1) as nat, acc as int * 10 + d);
                assert(acc as int * 10 + d > usize::MAX) by (nonlinear_arith)
                    requires
                        acc > (usize::MAX - d) / 10,
                        d < 10,
                ;
            }
            return (None, Ghost(false));
        }
        assert(acc * 10 + d <= usize::MAX) by (nonlinear_arith)
            requires
                acc <= (usize::MAX - d) / 10,
                d < 10,
        ;
        acc = acc * 10 + d;
        j = j + 1;
    }
    assert(spec_parse_digits(s@, j as nat, acc as int) == (acc as int, j as nat));
    (Some((acc, j)), Ghost(true))
}

/// Whether `c` is an ASCII decimal digit, executably.
fn is_digit(c: char) -> (r: bool)
    ensures
        r == spec_is_digit(c),
{
    '0' <= c && c <= '9'
}

/// Parses the elements of a nonempty array of strings executably.
fn parse_string_items(s: &str, n: usize, i: usize) -> (r: Option<(Vec<String>, usize)>)
    requires
        n == s@.len(),
        i <= n,
    ensures
        match r {
            Some(p) => spec_parse_string_items(s@, i as nat, Seq::<Seq<char>>::empty()) == Some(
                (p.0.deep_view(), p.1 as nat),
            ) && i < p.1 <= n,
            None => spec_parse_string_items(s@, i as nat, Seq::<Seq<char>>::empty()) is None,
        },
{
    let mut acc: Vec<String> = Vec::new();
    let mut j = i;
    assert(acc.deep_view() =~= Seq::<Seq<char>>::empty());
    loop
        invariant
            n == s@.len(),
            i <= j <= n,
            spec_parse_string_items(s@, i as nat, Seq::<Seq<char>>::empty())
                == spec_parse_string_items(s@, j as nat, acc.deep_view()),
        decreases n - j,
    {
        let j1 = skip_ws(s, n, j);
        if j1 >= n {
            return None;
        }
        if s.get_char(j1) != '"' {
            return None;
        }
        let (v, k) = match parse_jstring(s, n, j1 + 1) {
            None => { return None; },
            Some(p) => p,
        };
        let m = skip_ws(s, n, k);
        if m >= n {
            return None;
        }
        let cm = s.get_char(m);
        let ghost acc0 = acc.deep_view();
        if cm == ']' {
            acc.push(v);
            assert(acc.deep_view() =~= acc0.push(v@));
            proof {
                lemma_string_items_bounds(s@, i as nat, Seq::<Seq<char>>::empty());
            }
            return Some((acc, m + 1));
        } else if cm == ',' {
            acc.push(v);
            assert(acc.deep_view() =~= acc0.push(v@));
            j = m + 1;
        } else {
            return None;
        }
    }
}

/// Parses a whole document holding a JSON array of strings.
///
/// Succeeds exactly on the documents `spec_parse_string_list` accepts,
/// and then returns their decoded elements in order.
pub fn parse_string_list(s: &str) -> (r: Option<Vec<String>>)
    ensures
        match r {
            Some(v) => spec_parse_string_list(s@) == Some(v.deep_view()),
            None => spec_parse_string_list(s@) is None,
        },
{
    let n = s.unicode_len();
    let i = skip_ws(s, n, 0);
    if i >= n {
        return None;
    }
    if s.get_char(i) != '[' {
        return None;
    }
    let j = skip_ws(s, n, i + 1);
    if j < n && s.get_char(j) == ']' {
        if skip_ws(s, n, j + 1) == n {
            let empty: Vec<String> = Vec::new();
            assert(empty.deep_view() =~= Seq::<Seq<char>>::empty());
            return Some(empty);
        } else {
            return None;
        }
    }
    let (v, k) = match parse_string_items(s, n, i + 1) {
        None => { return None; },
        Some(p) => p,
    };
    if skip_ws(s, n, k) == n {
        Some(v)
    } else {
        None
    }
}

} // verus!
