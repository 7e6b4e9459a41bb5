//! The wire format of the word API.
//!
//! A response body is a JSON array of flat objects whose members are
//! scalars: every member value is a string, a number, `true`, `false`
//! or `null`.  Each object must carry the string members `word`,
//! `definition` and `pronunciation` exactly once; other members are
//! allowed and ignored.  Strings support the JSON escapes, including
//! `\uXXXX` for characters outside the surrogate range.
//!
//! The grammar is stated by the `parse_*` and `skip_*` spec functions
//! below, which read a character sequence at a position and give back
//! what was recognised together with the position after it, or `None`
//! where the input does not follow the format.  The executable scanner
//! in this module is verified to return exactly what they say.

use vstd::prelude::*;
use vstd::std_specs::iter::IteratorSpec;

use crate::model::Word;
use crate::model::WordFields;

verus! {

/// The characters of `s`, gathered into a vector.
fn chars_vec(s: &str) -> (r: Vec<char>)
    ensures
        r@ == s@,
{
    broadcast use vstd::string::group_string_axioms;

    let mut it = s.chars();
    let mut v: Vec<char> = Vec::new();
    loop
        invariant
            it.obeys_prophetic_iter_laws(),
            it.decrease() is Some,
            v@ + it.remaining() == s@,
        decreases it.decrease()->0,
    {
        match it.next() {
            Some(c) => {
                v.push(c);
            },
            None => {
                return v;
            },
        }
    }
}

/// Relies on String: a string is its sequence of characters, so
/// collecting characters yields the string with exactly them.
#[verifier::external_body]
fn string_from_chars(v: Vec<char>) -> (r: String)
    ensures
        r@ == v@,
{
    v.into_iter().collect()
}

/// Relies on char::from_u32: `Some` exactly on Unicode scalar values,
/// giving the character with that value.
#[verifier::external_body]
fn char_from_code(v: u32) -> (r: Option<char>)
    ensures
        r is Some <==> (v < 0xD800 || (0xE000 <= v && v < 0x110000)),
        r matches Some(c) ==> c as u32 == v,
{
    char::from_u32(v)
}

/// `c` is JSON whitespace.
pub open spec fn is_json_ws(c: char) -> bool {
    c == ' ' || c == '\t' || c == '\n' || c == '\r'
}

/// Position of the first non-whitespace character at or after `i`.
pub open spec fn skip_ws(s: Seq<char>, i: int) -> int
    decreases s.len() - i
    when 0 <= i <= s.len()
{
    if i < s.len() && is_json_ws(s[i]) {
        skip_ws(s, i + 1)
    } else {
        i
    }
}

pub proof fn lemma_skip_ws_bounds(s: Seq<char>, i: int)
    requires
        0 <= i <= s.len(),
    ensures
        i <= skip_ws(s, i) <= s.len(),
    decreases s.len() - i,
{
    if i < s.len() && is_json_ws(s[i]) {
        lemma_skip_ws_bounds(s, i + 1);
    }
}

/// `c` is a decimal digit.
pub open spec fn is_digit_char(c: char) -> bool {
    '0' <= c && c <= '9'
}

/// `c` is a hexadecimal digit.
pub open spec fn is_hex_digit(c: char) -> bool {
    is_digit_char(c) || ('a' <= c && c <= 'f') || ('A' <= c && c <= 'F')
}

/// Numeric value of the hexadecimal digit `c`.
pub open spec fn hex_digit_value(c: char) -> int {
    if is_digit_char(c) {
        c as int - '0' as int
    } else if 'a' <= c && c <= 'f' {
        10 + c as int - 'a' as int
    } else {
        10 + c as int - 'A' as int
    }
}

/// The character named by a single-character JSON escape, if any.
pub open spec fn escaped_char(c: char) -> Option<char> {
    if c == '"' {
        Some('"')
    } else if c == '\\' {
        Some('\\')
    } else if c == '/' {
        Some('/')
    } else if c == 'b' {
        Some('\u{0008}')
    } else if c == 'f' {
        Some('\u{000C}')
    } else if c == 'n' {
        Some('\n')
    } else if c == 'r' {
        Some('\r')
    } else if c == 't' {
        Some('\t')
    } else {
        None
    }
}

/// Value of the four hexadecimal digits of a `\uXXXX` escape at `i`.
pub open spec fn hex4_value(s: Seq<char>, i: int) -> int {
    4096 * hex_digit_value(s[i]) + 256 * hex_digit_value(s[i + 1]) + 16 * hex_digit_value(
        s[i + 2],
    ) + hex_digit_value(s[i + 3])
}

/// The four characters at `i` are hexadecimal digits.
pub open spec fn hex4_at(s: Seq<char>, i: int) -> bool {
    i + 4 <= s.len() && is_hex_digit(s[i]) && is_hex_digit(s[i + 1]) && is_hex_digit(s[i + 2])
        && is_hex_digit(s[i + 3])
}

/// Content of a JSON string read from `i` (the position after the
/// opening quote), with `acc` the characters read so far: the decoded
/// content and the position after the closing quote.
pub open spec fn parse_string_body(s: Seq<char>, i: int, acc: Seq<char>) -> Option<(Seq<char>, int)>
    decreases s.len() - i
    when 0 <= i <= s.len()
{
    if i >= s.len() {
        None
    } else if s[i] == '"' {
        Some((acc, i + 1))
    } else if s[i] == '\\' {
        if i + 1 >= s.len() {
            None
        } else if s[i + 1] == 'u' {
            if i + 6 > s.len() || !hex4_at(s, i + 2) {
                None
            } else {
                let v = hex4_value(s, i + 2);
                if 0xD800 <= v && v < 0xE000 {
                    None
                } else {
                    parse_string_body(s, i + 6, acc.push((v as u32) as char))
                }
            }
        } else {
            match escaped_char(s[i + 1]) {
                Some(e) => parse_string_body(s, i + 2, acc.push(e)),
                None => None,
            }
        }
    } else if (s[i] as u32) < 0x20 {
        None
    } else {
        parse_string_body(s, i + 1, acc.push(s[i]))
    }
}

pub proof fn lemma_parse_string_body_bounds(s: Seq<char>, i: int, acc: Seq<char>)
    requires
        0 <= i <= s.len(),
    ensures
        parse_string_body(s, i, acc) matches Some(r) ==> i < r.1 <= s.len(),
    decreases s.len() - i,
{
    if i >= s.len() {
    } else if s[i] == '"' {
    } else if s[i] == '\\' {
        if i + 1 >= s.len() {
        } else if s[i + 1] == 'u' {
            if i + 6 > s.len() || !hex4_at(s, i + 2) {
            } else {
                let v = hex4_value(s, i + 2);
                if !(0xD800 <= v && v < 0xE000) {
                    lemma_parse_string_body_bounds(s, i + 6, acc.push((v as u32) as char));
                }
            }
        } else {
            match escaped_char(s[i + 1]) {
                Some(e) => lemma_parse_string_body_bounds(s, i + 2, acc.push(e)),
                None => (),
            }
        }
    } else if (s[i] as u32) < 0x20 {
    } else {
        lemma_parse_string_body_bounds(s, i + 1, acc.push(s[i]));
    }
}

/// A complete JSON string at `i`: its decoded content and the position
/// after the closing quote.
pub open spec fn parse_json_string(s: Seq<char>, i: int) -> Option<(Seq<char>, int)> {
    if 0 <= i < s.len() && s[i] == '"' {
        parse_string_body(s, i + 1, Seq::empty())
    } else {
        None
    }
}

pub proof fn lemma_parse_json_string_bounds(s: Seq<char>, i: int)
    requires
        0 <= i <= s.len(),
    ensures
        parse_json_string(s, i) matches Some(r) ==> i < r.1 <= s.len(),
{
    if 0 <= i < s.len() && s[i] == '"' {
        lemma_parse_string_body_bounds(s, i + 1, Seq::empty());
    }
}

/// Position of the first non-digit character at or after `i`.
pub open spec fn skip_digits(s: Seq<char>, i: int) -> int
    decreases s.len() - i
    when 0 <= i <= s.len()
{
    if i < s.len() && is_digit_char(s[i]) {
        skip_digits(s, i + 1)
    } else {
        i
    }
}

pub proof fn lemma_skip_digits_bounds(s: Seq<char>, i: int)
    requires
        0 <= i <= s.len(),
    ensures
        i <= skip_digits(s, i) <= s.len(),
    decreases s.len() - i,
{
    if i < s.len() && is_digit_char(s[i]) {
        lemma_skip_digits_bounds(s, i + 1);
    }
}

/// Position after the fraction part of a JSON number at `i`, if the
/// input there is one (possibly empty).
pub open spec fn skip_fraction(s: Seq<char>, i: int) -> Option<int> {
    if i < s.len() && s[i] == '.' {
        if i + 1 < s.len() && is_digit_char(s[i + 1]) {
            Some(skip_digits(s, i + 1))
        } else {
            None
        }
    } else {
        Some(i)
    }
}

/// Position after the exponent part of a JSON number at `i`, if the
/// input there is one (possibly empty).
pub open spec fn skip_exponent(s: Seq<char>, i: int) -> Option<int> {
    if i < s.len() && (s[i] == 'e' || s[i] == 'E') {
        let j = if i + 1 < s.len() && (s[i + 1] == '+' || s[i + 1] == '-') {
            i + 2
        } else {
            i + 1
        };
        if j < s.len() && is_digit_char(s[j]) {
            Some(skip_digits(s, j))
        } else {
            None
        }
    } else {
        Some(i)
    }
}

/// Position after the JSON number starting at `i`, if the input there
/// is one.
pub open spec fn skip_number(s: Seq<char>, i: int) -> Option<int> {
    let j = if 0 <= i < s.len() && s[i] == '-' {
        i + 1
    } else {
        i
    };
    if 0 <= j < s.len() && is_digit_char(s[j]) {
        let k = if s[j] == '0' {
            j + 1
        } else {
            skip_digits(s, j)
        };
        match skip_fraction(s, k) {
            Some(k2) => skip_exponent(s, k2),
            None => None,
        }
    } else {
        None
    }
}

pub proof fn lemma_skip_number_bounds(s: Seq<char>, i: int)
    requires
        0 <= i <= s.len(),
    ensures
        skip_number(s, i) matches Some(r) ==> i < r <= s.len(),
{
    let j = if i < s.len() && s[i] == '-' {
        i + 1
    } else {
        i
    };
    if j < s.len() && is_digit_char(s[j]) {
        let k = if s[j] == '0' {
            j + 1
        } else {
            skip_digits(s, j)
        };
        lemma_skip_digits_bounds(s, j + 1);
        assert(skip_digits(s, j) == skip_digits(s, j + 1));
        assert(j < k <= s.len());
        if k < s.len() && s[k] == '.' {
            if k + 1 < s.len() && is_digit_char(s[k + 1]) {
                lemma_skip_digits_bounds(s, k + 1);
            }
        }
        match skip_fraction(s, k) {
            Some(k2) => {
                assert(k <= k2 <= s.len());
                if k2 < s.len() && (s[k2] == 'e' || s[k2] == 'E') {
                    let j2 = if k2 + 1 < s.len() && (s[k2 + 1] == '+' || s[k2 + 1] == '-') {
                        k2 + 2
                    } else {
                        k2 + 1
                    };
                    if j2 < s.len() && is_digit_char(s[j2]) {
                        lemma_skip_digits_bounds(s, j2);
                        assert(skip_exponent(s, k2) == Some(skip_digits(s, j2)));
                    } else {
                        assert(skip_exponent(s, k2) is None);
                    }
                } else {
                    assert(skip_exponent(s, k2) == Some(k2));
                }
            },
            None => (),
        }
    }
}

/// A scalar member value at `i`: the decoded content where the value
/// is a string (`None` for the other scalars), and the position after
/// the value.
pub open spec fn parse_scalar(s: Seq<char>, i: int) -> Option<(Option<Seq<char>>, int)> {
    if 0 <= i < s.len() {
        let c = s[i];
        if c == '"' {
            match parse_json_string(s, i) {
                Some(r) => Some((Some(r.0), r.1)),
                None => None,
            }
        } else if c == 't' {
            if i + 4 <= s.len() && s[i + 1] == 'r' && s[i + 2] == 'u' && s[i + 3] == 'e' {
                Some((None, i + 4))
            } else {
                None
            }
        } else if c == 'f' {
            if i + 5 <= s.len() && s[i + 1] == 'a' && s[i + 2] == 'l' && s[i + 3] == 's' && s[i + 4]
                == 'e' {
                Some((None, i + 5))
            } else {
                None
            }
        } else if c == 'n' {
            if i + 4 <= s.len() && s[i + 1] == 'u' && s[i + 2] == 'l' && s[i + 3] == 'l' {
                Some((None, i + 4))
            } else {
                None
            }
        } else if c == '-' || is_digit_char(c) {
            match skip_number(s, i) {
                Some(j) => Some((None, j)),
                None => None,
            }
        } else {
            None
        }
    } else {
        None
    }
}

pub proof fn lemma_parse_scalar_bounds(s: Seq<char>, i: int)
    requires
        0 <= i <= s.len(),
    ensures
        parse_scalar(s, i) matches Some(r) ==> i < r.1 <= s.len(),
{
    lemma_parse_json_string_bounds(s, i);
    lemma_skip_number_bounds(s, i);
}

/// An object member at `i`: its key, its decoded content where the
/// value is a string (`None` for the other scalars), and the position
/// after the value.
pub open spec fn parse_member(s: Seq<char>, i: int) -> Option<((Seq<char>, Option<Seq<char>>), int)> {
    match parse_json_string(s, i) {
        Some((key, j)) => {
            let j1 = skip_ws(s, j);
            if j1 < s.len() && s[j1] == ':' {
                let j2 = skip_ws(s, j1 + 1);
                match parse_scalar(s, j2) {
                    Some((v, k)) => Some(((key, v), k)),
                    None => None,
                }
            } else {
                None
            }
        },
        None => None,
    }
}

pub proof fn lemma_parse_member_bounds(s: Seq<char>, i: int)
    requires
        0 <= i <= s.len(),
    ensures
        parse_member(s, i) matches Some(r) ==> i < r.1 <= s.len(),
{
    lemma_parse_json_string_bounds(s, i);
    match parse_json_string(s, i) {
        Some((key, j)) => {
            lemma_skip_ws_bounds(s, j);
            let j1 = skip_ws(s, j);
            if j1 < s.len() && s[j1] == ':' {
                lemma_skip_ws_bounds(s, j1 + 1);
                let j2 = skip_ws(s, j1 + 1);
                lemma_parse_scalar_bounds(s, j2);
            }
        },
        None => (),
    }
}

/// The three field slots gathered while reading an object's members:
/// the contents seen so far for `word`, `definition` and
/// `pronunciation`.
pub type FieldSlots = (Option<Seq<char>>, Option<Seq<char>>, Option<Seq<char>>);

/// The slots after taking the member `key`/`content` into account:
/// a required key seen twice, or with a value that is not a string,
/// refuses the object; an unknown key changes nothing.
pub open spec fn update_slots(slots: FieldSlots, key: Seq<char>, content: Option<Seq<char>>) -> Option<FieldSlots> {
    if key == "word"@ {
        if slots.0 is Some || content is None {
            None
        } else {
            Some((content, slots.1, slots.2))
        }
    } else if key == "definition"@ {
        if slots.1 is Some || content is None {
            None
        } else {
            Some((slots.0, content, slots.2))
        }
    } else if key == "pronunciation"@ {
        if slots.2 is Some || content is None {
            None
        } else {
            Some((slots.0, slots.1, content))
        }
    } else {
        Some(slots)
    }
}

/// The members of an object read from `i` (at the start of a member),
/// with `slots` what earlier members filled in: the three fields and
/// the position after the closing brace.  An object that does not
/// carry all three required fields is refused.
pub open spec fn parse_members(s: Seq<char>, i: int, slots: FieldSlots) -> Option<(WordFields, int)>
    decreases s.len() - i
    when 0 <= i <= s.len()
{
    match parse_member(s, i) {
        Some(((key, content), j)) => match update_slots(slots, key, content) {
            Some(new_slots) => {
                let j1 = skip_ws(s, j);
                proof {
                    lemma_parse_member_bounds(s, i);
                    lemma_skip_ws_bounds(s, j);
                }
                if j1 < s.len() && s[j1] == ',' {
                    let j2 = skip_ws(s, j1 + 1);
                    proof {
                        lemma_skip_ws_bounds(s, j1 + 1);
                    }
                    parse_members(s, j2, new_slots)
                } else if j1 < s.len() && s[j1] == '}' {
                    match new_slots {
                        (Some(w), Some(d), Some(p)) => Some(((w, d, p), j1 + 1)),
                        _ => None,
                    }
                } else {
                    None
                }
            },
            None => None,
        },
        None => None,
    }
}

pub proof fn lemma_parse_members_bounds(s: Seq<char>, i: int, slots: FieldSlots)
    requires
        0 <= i <= s.len(),
    ensures
        parse_members(s, i, slots) matches Some(r) ==> i < r.1 <= s.len(),
    decreases s.len() - i,
{
    lemma_parse_member_bounds(s, i);
    match parse_member(s, i) {
        Some(((key, content), j)) => match update_slots(slots, key, content) {
            Some(new_slots) => {
                lemma_skip_ws_bounds(s, j);
                let j1 = skip_ws(s, j);
                if j1 < s.len() && s[j1] == ',' {
                    lemma_skip_ws_bounds(s, j1 + 1);
                    let j2 = skip_ws(s, j1 + 1);
                    lemma_parse_members_bounds(s, j2, new_slots);
                }
            },
            None => (),
        },
        None => (),
    }
}

/// A word object at `i`: its three fields and the position after the
/// closing brace.
pub open spec fn parse_word_object(s: Seq<char>, i: int) -> Option<(WordFields, int)> {
    if 0 <= i < s.len() && s[i] == '{' {
        let j = skip_ws(s, i + 1);
        if j < s.len() && s[j] == '"' {
            parse_members(s, j, (None, None, None))
        } else {
            None
        }
    } else {
        None
    }
}

pub proof fn lemma_parse_word_object_bounds(s: Seq<char>, i: int)
    requires
        0 <= i <= s.len(),
    ensures
        parse_word_object(s, i) matches Some(r) ==> i < r.1 <= s.len(),
{
    if 0 <= i < s.len() && s[i] == '{' {
        lemma_skip_ws_bounds(s, i + 1);
        let j = skip_ws(s, i + 1);
        lemma_parse_members_bounds(s, j, (None, None, None));
    }
}

/// The elements of the array read from `i` (at the start of an
/// element), with `acc` the word records read so far: all records and
/// the position after the closing bracket.
pub open spec fn parse_elements(s: Seq<char>, i: int, acc: Seq<WordFields>) -> Option<(Seq<WordFields>, int)>
    decreases s.len() - i
    when 0 <= i <= s.len()
{
    match parse_word_object(s, i) {
        Some((rec, j)) => {
            let j1 = skip_ws(s, j);
            proof {
                lemma_parse_word_object_bounds(s, i);
                lemma_skip_ws_bounds(s, j);
            }
            if j1 < s.len() && s[j1] == ',' {
                let j2 = skip_ws(s, j1 + 1);
                proof {
                    lemma_skip_ws_bounds(s, j1 + 1);
                }
                parse_elements(s, j2, acc.push(rec))
            } else if j1 < s.len() && s[j1] == ']' {
                Some((acc.push(rec), j1 + 1))
            } else {
                None
            }
        },
        None => None,
    }
}

/// The word list held in a whole response body: the word records of
/// the JSON array `s` spells, or `None` where `s` does not follow the
/// wire format.
pub open spec fn parse_word_list(s: Seq<char>) -> Option<Seq<WordFields>> {
    let i = skip_ws(s, 0);
    if i < s.len() && s[i] == '[' {
        let j = skip_ws(s, i + 1);
        if j < s.len() && s[j] == ']' {
            if skip_ws(s, j + 1) == s.len() {
                Some(Seq::empty())
            } else {
                None
            }
        } else {
            match parse_elements(s, j, Seq::empty()) {
                Some((recs, k)) => {
                    if skip_ws(s, k) == s.len() {
                        Some(recs)
                    } else {
                        None
                    }
                },
                None => None,
            }
        }
    } else {
        None
    }
}

fn is_ws_char(c: char) -> (r: bool)
    ensures
        r == is_json_ws(c),
{
    c == ' ' || c == '\t' || c == '\n' || c == '\r'
}

fn is_digit(c: char) -> (r: bool)
    ensures
        r == is_digit_char(c),
{
    c >= '0' && c <= '9'
}

fn is_hex(c: char) -> (r: bool)
    ensures
        r == is_hex_digit(c),
{
    (c >= '0' && c <= '9') || (c >= 'a' && c <= 'f') || (c >= 'A' && c <= 'F')
}

fn hex_val(c: char) -> (r: u32)
    requires
        is_hex_digit(c),
    ensures
        r as int == hex_digit_value(c),
        r < 16,
{
    if c >= '0' && c <= '9' {
        c as u32 - '0' as u32
    } else if c >= 'a' && c <= 'f' {
        10 + (c as u32 - 'a' as u32)
    } else {
        10 + (c as u32 - 'A' as u32)
    }
}

fn escape_of(c: char) -> (r: Option<char>)
    ensures
        r == escaped_char(c),
{
    if c == '"' {
        Some('"')
    } else if c == '\\' {
        Some('\\')
    } else if c == '/' {
        Some('/')
    } else if c == 'b' {
        Some('\u{0008}')
    } else if c == 'f' {
        Some('\u{000C}')
    } else if c == 'n' {
        Some('\n')
    } else if c == 'r' {
        Some('\r')
    } else if c == 't' {
        Some('\t')
    } else {
        None
    }
}

/// First position at or after `i` that holds no whitespace.
fn ws_end(s: &Vec<char>, i: usize) -> (r: usize)
    requires
        i <= s.len(),
    ensures
        r as int == skip_ws(s@, i as int),
        i <= r <= s.len(),
{
    let mut j = i;
    while j < s.len() && is_ws_char(s[j])
        invariant
            i <= j <= s.len(),
            skip_ws(s@, i as int) == skip_ws(s@, j as int),
        decreases s.len() - j,
    {
        j = j + 1;
    }
    j
}

/// First position at or after `i` that holds no digit.
fn digits_end(s: &Vec<char>, i: usize) -> (r: usize)
    requires
        i <= s.len(),
    ensures
        r as int == skip_digits(s@, i as int),
        i <= r <= s.len(),
{
    let mut j = i;
    while j < s.len() && is_digit(s[j])
        invariant
            i <= j <= s.len(),
            skip_digits(s@, i as int) == skip_digits(s@, j as int),
        decreases s.len() - j,
    {
        j = j + 1;
    }
    j
}

/// Reads the JSON string starting at `i`: its decoded content and the
/// position after the closing quote.
fn scan_string(s: &Vec<char>, i: usize) -> (r: Option<(Vec<char>, usize)>)
    requires
        i <= s.len(),
    ensures
        match r {
            Some(p) => parse_json_string(s@, i as int) == Some((p.0@, p.1 as int)) && i < p.1
                <= s.len(),
            None => parse_json_string(s@, i as int) is None,
        },
{
    if i >= s.len() || s[i] != '"' {
        return None;
    }
    let mut j = i + 1;
    let mut acc: Vec<char> = Vec::new();
    loop
        invariant
            i + 1 <= j <= s.len(),
            parse_json_string(s@, i as int) == parse_string_body(s@, j as int, acc@),
        decreases s.len() - j,
    {
        if j >= s.len() {
            return None;
        }
        let c = s[j];
        if c == '"' {
            return Some((acc, j + 1));
        } else if c == '\\' {
            if j + 1 >= s.len() {
                return None;
            }
            let e = s[j + 1];
            if e == 'u' {
                if s.len() - j < 6 || !(is_hex(s[j + 2]) && is_hex(s[j + 3]) && is_hex(s[j + 4])
                    && is_hex(s[j + 5])) {
                    return None;
                }
                let v: u32 = 4096 * hex_val(s[j + 2]) + 256 * hex_val(s[j + 3]) + 16 * hex_val(
                    s[j + 4],
                ) + hex_val(s[j + 5]);
                proof {
                    assert(v as int == hex4_value(s@, j + 2));
                }
                if v >= 0xD800 && v < 0xE000 {
                    return None;
                }
                let ch = char_from_code(v).unwrap();
                proof {
                    vstd::utf8::char_u32_cast(ch, v);
                    assert(acc@.push(ch) == acc@.push((hex4_value(s@, j + 2) as u32) as char));
                }
                acc.push(ch);
                j = j + 6;
            } else {
                match escape_of(e) {
                    Some(ec) => {
                        acc.push(ec);
                        j = j + 2;
                    },
                    None => {
                        return None;
                    },
                }
            }
        } else if (c as u32) < 0x20 {
            return None;
        } else {
            acc.push(c);
            j = j + 1;
        }
    }
}

/// Position after the JSON number starting at `i`, if the input there
/// is one.
fn number_end(s: &Vec<char>, i: usize) -> (r: Option<usize>)
    requires
        i <= s.len(),
    ensures
        match r {
            Some(k) => skip_number(s@, i as int) == Some(k as int) && i < k <= s.len(),
            None => skip_number(s@, i as int) is None,
        },
{
    let mut j = i;
    if j < s.len() && s[j] == '-' {
        j = j + 1;
    }
    if !(j < s.len() && is_digit(s[j])) {
        return None;
    }
    let k = if s[j] == '0' {
        j + 1
    } else {
        digits_end(s, j)
    };
    proof {
        lemma_skip_digits_bounds(s@, j + 1);
        assert(skip_digits(s@, j as int) == skip_digits(s@, j + 1));
    }
    let k2: usize;
    if k < s.len() && s[k] == '.' {
        if k + 1 < s.len() && is_digit(s[k + 1]) {
            k2 = digits_end(s, k + 1);
        } else {
            return None;
        }
    } else {
        k2 = k;
    }
    assert(skip_fraction(s@, k as int) == Some(k2 as int));
    if k2 < s.len() && (s[k2] == 'e' || s[k2] == 'E') {
        let mut j2 = k2 + 1;
        if j2 < s.len() && (s[j2] == '+' || s[j2] == '-') {
            j2 = j2 + 1;
        }
        if j2 < s.len() && is_digit(s[j2]) {
            let k3 = digits_end(s, j2);
            assert(skip_exponent(s@, k2 as int) == Some(k3 as int));
            Some(k3)
        } else {
            None
        }
    } else {
        assert(skip_exponent(s@, k2 as int) == Some(k2 as int));
        Some(k2)
    }
}

/// The content of a member value slot, as a sequence of characters.
pub open spec fn slot_view(o: Option<Vec<char>>) -> Option<Seq<char>> {
    match o {
        Some(v) => Some(v@),
        None => None,
    }
}

fn is_key_word(key: &Vec<char>) -> (r: bool)
    ensures
        r == (key@ == "word"@),
{
    proof {
        reveal_strlit("word");
    }
    let r = key.len() == 4 && key[0] == 'w' && key[1] == 'o' && key[2] == 'r' && key[3] == 'd';
    proof {
        if r {
            assert(key@ =~= "word"@);
        }
    }
    r
}

fn is_key_definition(key: &Vec<char>) -> (r: bool)
    ensures
        r == (key@ == "definition"@),
{
    proof {
        reveal_strlit("definition");
    }
    let r = key.len() == 10 && key[0] == 'd' && key[1] == 'e' && key[2] == 'f' && key[3] == 'i'
        && key[4] == 'n' && key[5] == 'i' && key[6] == 't' && key[7] == 'i' && key[8] == 'o'
        && key[9] == 'n';
    proof {
        if r {
            assert(key@ =~= "definition"@);
        }
    }
    r
}

fn is_key_pronunciation(key: &Vec<char>) -> (r: bool)
    ensures
        r == (key@ == "pronunciation"@),
{
    proof {
        reveal_strlit("pronunciation");
    }
    let r = key.len() == 13 && key[0] == 'p' && key[1] == 'r' && key[2] == 'o' && key[3] == 'n'
        && key[4] == 'u' && key[5] == 'n' && key[6] == 'c' && key[7] == 'i' && key[8] == 'a'
        && key[9] == 't' && key[10] == 'i' && key[11] == 'o' && key[12] == 'n';
    proof {
        if r {
            assert(key@ =~= "pronunciation"@);
        }
    }
    r
}

/// Reads the scalar member value starting at `i`: its decoded content
/// where it is a string (`None` for the other scalars) and the
/// position after the value.
fn scan_scalar(s: &Vec<char>, i: usize) -> (r: Option<(Option<Vec<char>>, usize)>)
    requires
        i <= s.len(),
    ensures
        match r {
            Some(p) => parse_scalar(s@, i as int) == Some((slot_view(p.0), p.1 as int)) && i < p.1
                <= s.len(),
            None => parse_scalar(s@, i as int) is None,
        },
{
    if i >= s.len() {
        return None;
    }
    let c = s[i];
    if c == '"' {
        match scan_string(s, i) {
            Some((v, j)) => Some((Some(v), j)),
            None => None,
        }
    } else if c == 't' {
        if s.len() - i >= 4 && s[i + 1] == 'r' && s[i + 2] == 'u' && s[i + 3] == 'e' {
            Some((None, i + 4))
        } else {
            None
        }
    } else if c == 'f' {
        if s.len() - i >= 5 && s[i + 1] == 'a' && s[i + 2] == 'l' && s[i + 3] == 's' && s[i + 4]
            == 'e' {
            Some((None, i + 5))
        } else {
            None
        }
    } else if c == 'n' {
        if s.len() - i >= 4 && s[i + 1] == 'u' && s[i + 2] == 'l' && s[i + 3] == 'l' {
            Some((None, i + 4))
        } else {
            None
        }
    } else if c == '-' || is_digit(c) {
        match number_end(s, i) {
            Some(j) => Some((None, j)),
            None => None,
        }
    } else {
        None
    }
}

/// Reads the object member starting at `i`: its key, the decoded
/// content where its value is a string (`None` for the other scalars),
/// and the position after the value.
fn scan_member(s: &Vec<char>, i: usize) -> (r: Option<(Vec<char>, Option<Vec<char>>, usize)>)
    requires
        i <= s.len(),
    ensures
        match r {
            Some(p) => parse_member(s@, i as int) == Some(((p.0@, slot_view(p.1)), p.2 as int))
                && i < p.2 <= s.len(),
            None => parse_member(s@, i as int) is None,
        },
{
    let (key, j) = match scan_string(s, i) {
        Some(p) => p,
        None => {
            return None;
        },
    };
    let j1 = ws_end(s, j);
    if !(j1 < s.len() && s[j1] == ':') {
        return None;
    }
    let j2 = ws_end(s, j1 + 1);
    match scan_scalar(s, j2) {
        Some((v, k)) => Some((key, v, k)),
        None => None,
    }
}

/// Reads the word object starting at `i`: the word it carries and the
/// position after the closing brace.
fn scan_object(s: &Vec<char>, i: usize) -> (r: Option<(Word, usize)>)
    requires
        i <= s.len(),
    ensures
        match r {
            Some(p) => parse_word_object(s@, i as int) == Some((p.0@, p.1 as int)) && i < p.1
                <= s.len(),
            None => parse_word_object(s@, i as int) is None,
        },
{
    if !(i < s.len() && s[i] == '{') {
        return None;
    }
    let j0 = ws_end(s, i + 1);
    if !(j0 < s.len() && s[j0] == '"') {
        return None;
    }
    let mut j = j0;
    let mut word_slot: Option<Vec<char>> = None;
    let mut definition_slot: Option<Vec<char>> = None;
    let mut pronunciation_slot: Option<Vec<char>> = None;
    loop
        invariant
            i < j <= s.len(),
            parse_word_object(s@, i as int) == parse_members(
                s@,
                j as int,
                (slot_view(word_slot), slot_view(definition_slot), slot_view(pronunciation_slot)),
            ),
        decreases s.len() - j,
    {
        let ghost slots = (
            slot_view(word_slot),
            slot_view(definition_slot),
            slot_view(pronunciation_slot),
        );
        let (key, content, k) = match scan_member(s, j) {
            Some(p) => p,
            None => {
                return None;
            },
        };
        if is_key_word(&key) {
            if word_slot.is_some() || content.is_none() {
                return None;
            }
            word_slot = content;
        } else if is_key_definition(&key) {
            if definition_slot.is_some() || content.is_none() {
                return None;
            }
            definition_slot = content;
        } else if is_key_pronunciation(&key) {
            if pronunciation_slot.is_some() || content.is_none() {
                return None;
            }
            pronunciation_slot = content;
        }
        proof {
            assert(update_slots(slots, key@, slot_view(content)) == Some(
                (
                    slot_view(word_slot),
                    slot_view(definition_slot),
                    slot_view(pronunciation_slot),
                ),
            ));
        }
        let j1 = ws_end(s, k);
        if j1 < s.len() && s[j1] == ',' {
            j = ws_end(s, j1 + 1);
        } else if j1 < s.len() && s[j1] == '}' {
            match (word_slot, definition_slot, pronunciation_slot) {
                (Some(w), Some(d), Some(p)) => {
                    let rec = Word {
                        word: string_from_chars(w),
                        definition: string_from_chars(d),
                        pronunciation: string_from_chars(p),
                    };
                    return Some((rec, j1 + 1));
                },
                _ => {
                    return None;
                },
            }
        } else {
            return None;
        }
    }
}

/// The word records of a sequence of words, field by field.
pub open spec fn words_view(q: Seq<Word>) -> Seq<WordFields> {
    q.map_values(|w: Word| w@)
}

/// Decodes a response body: the words of the JSON array it spells, or
/// `None` where it does not follow the wire format.
pub fn decode_word_list(body: &str) -> (r: Option<Vec<Word>>)
    ensures
        match r {
            Some(ws) => parse_word_list(body@) == Some(words_view(ws@)),
            None => parse_word_list(body@) is None,
        },
{
    let s = chars_vec(body);
    let i = ws_end(&s, 0);
    if !(i < s.len() && s[i] == '[') {
        return None;
    }
    let j0 = ws_end(&s, i + 1);
    if j0 < s.len() && s[j0] == ']' {
        let e = ws_end(&s, j0 + 1);
        if e == s.len() {
            let out: Vec<Word> = Vec::new();
            proof {
                assert(words_view(out@) =~= Seq::<WordFields>::empty());
            }
            return Some(out);
        } else {
            return None;
        }
    }
    let mut j = j0;
    let mut out: Vec<Word> = Vec::new();
    proof {
        assert(words_view(out@) =~= Seq::<WordFields>::empty());
    }
    loop
        invariant
            j <= s.len(),
            s@ == body@,
            i as int == skip_ws(s@, 0),
            i < s.len() && s@[i as int] == '[',
            j0 as int == skip_ws(s@, i + 1),
            !(j0 < s.len() && s@[j0 as int] == ']'),
            parse_elements(s@, j0 as int, Seq::empty()) == parse_elements(
                s@,
                j as int,
                words_view(out@),
            ),
        decreases s.len() - j,
    {
        let ghost seen = words_view(out@);
        let (rec, k) = match scan_object(&s, j) {
            Some(p) => p,
            None => {
                return None;
            },
        };
        let j1 = ws_end(&s, k);
        if j1 < s.len() && s[j1] == ',' {
            out.push(rec);
            proof {
                assert(words_view(out@) =~= seen.push(out@.last()@));
            }
            j = ws_end(&s, j1 + 1);
        } else if j1 < s.len() && s[j1] == ']' {
            out.push(rec);
            proof {
                assert(words_view(out@) =~= seen.push(out@.last()@));
                assert(parse_elements(s@, j0 as int, Seq::empty()) == Some(
                    (words_view(out@), j1 + 1 as int),
                ));
            }
            let e = ws_end(&s, j1 + 1);
            if e == s.len() {
                return Some(out);
            } else {
                return None;
            }
        } else {
            return None;
        }
    }
}

} // verus!
