//! The parser: JSON text to a JSON value.
//!
//! The grammar is specified by a family of spec functions (`sp_value` and
//! friends) that scan a character sequence from a position and either yield a
//! value with the position just past it, or nothing. The executable parser is
//! proved to return exactly what the specification yields: parsing succeeds
//! if and only if the text is a single well-formed JSON document, and the
//! parsed value is the one the grammar gives.
//!
//! Deviations from lenient parsers, chosen deliberately: objects with a
//! repeated key are rejected (so an object's model is a map), and a lone
//! surrogate escape is rejected (so strings are sequences of Unicode
//! scalars).
//!
//! The spec functions carry a fuel argument to bound their recursion; any
//! fuel of at least twice the remaining input length plus two gives the same
//! answer (see `lemma_sp_mono`), so the fuel is a definitional device, not a
//! limit the executable parser inherits.

use vstd::prelude::*;
use vstd::string::StrSliceExecFns;
use vstd::string::StringExecFns;

use crate::json::{obj_has, view_entries, view_list, Json, JsonV};
use crate::json::{lemma_view_entries, lemma_view_list};
use crate::strutil::{char_from_u32, string_push};

verus! {

/// JSON whitespace.
pub open spec fn is_ws(c: char) -> bool {
    c == ' ' || c == '\t' || c == '\n' || c == '\r'
}

/// A decimal digit.
pub open spec fn is_digit(c: char) -> bool {
    '0' <= c && c <= '9'
}

/// The value of a hexadecimal digit, or -1.
pub open spec fn hex_v(c: char) -> int {
    if '0' <= c && c <= '9' {
        c as u32 - '0' as u32
    } else if 'a' <= c && c <= 'f' {
        c as u32 - 'a' as u32 + 10
    } else if 'A' <= c && c <= 'F' {
        c as u32 - 'A' as u32 + 10
    } else {
        -1
    }
}

/// The first position at or after `i` that does not hold whitespace.
pub open spec fn skip_ws(s: Seq<char>, i: int) -> int
    decreases s.len() - i,
    when 0 <= i <= s.len()
{
    if i < s.len() && is_ws(s[i]) {
        skip_ws(s, i + 1)
    } else {
        i
    }
}

/// Skipping whitespace stays within the input.
pub proof fn lemma_skip_ws(s: Seq<char>, i: int)
    requires
        0 <= i <= s.len(),
    ensures
        i <= skip_ws(s, i) <= s.len(),
    decreases s.len() - i,
{
    if i < s.len() && is_ws(s[i]) {
        lemma_skip_ws(s, i + 1);
    }
}

/// The first position at or after `k` that does not hold a digit.
pub open spec fn scan_digits(s: Seq<char>, k: int) -> int
    decreases s.len() - k,
    when 0 <= k <= s.len()
{
    if k < s.len() && is_digit(s[k]) {
        scan_digits(s, k + 1)
    } else {
        k
    }
}

/// Scanning digits stays within the input.
pub proof fn lemma_scan_digits(s: Seq<char>, k: int)
    requires
        0 <= k <= s.len(),
    ensures
        k <= scan_digits(s, k) <= s.len(),
    decreases s.len() - k,
{
    if k < s.len() && is_digit(s[k]) {
        lemma_scan_digits(s, k + 1);
    }
}

/// A number literal starting at `i`: its text and the position after it.
pub open spec fn sp_number(s: Seq<char>, i: int) -> Option<(Seq<char>, int)> {
    let a = if i < s.len() && s[i] == '-' {
        i + 1
    } else {
        i
    };
    if a >= s.len() || !is_digit(s[a]) {
        None
    } else {
        let b = if s[a] == '0' {
            a + 1
        } else {
            scan_digits(s, a)
        };
        let c = if b < s.len() && s[b] == '.' {
            if b + 1 < s.len() && is_digit(s[b + 1]) {
                scan_digits(s, b + 1)
            } else {
                -1
            }
        } else {
            b
        };
        if c < 0 {
            None
        } else {
            let d = if c < s.len() && (s[c] == 'e' || s[c] == 'E') {
                let e0 = if c + 1 < s.len() && (s[c + 1] == '+' || s[c + 1] == '-') {
                    c + 2
                } else {
                    c + 1
                };
                if e0 < s.len() && is_digit(s[e0]) {
                    scan_digits(s, e0)
                } else {
                    -1
                }
            } else {
                c
            };
            if d < 0 {
                None
            } else {
                Some((s.subrange(i, d), d))
            }
        }
    }
}

/// A number ends after where it starts, within the input.
pub proof fn lemma_sp_number(s: Seq<char>, i: int)
    requires
        0 <= i <= s.len(),
    ensures
        sp_number(s, i) matches Some(p) ==> i < p.1 <= s.len(),
{
    let a = if i < s.len() && s[i] == '-' {
        i + 1
    } else {
        i
    };
    if a < s.len() && is_digit(s[a]) {
        lemma_scan_digits(s, a);
        let b = if s[a] == '0' {
            a + 1
        } else {
            scan_digits(s, a)
        };
        if 0 <= b <= s.len() {
            if b + 1 <= s.len() {
                lemma_scan_digits(s, b + 1);
            }
            let c = if b < s.len() && s[b] == '.' {
                if b + 1 < s.len() && is_digit(s[b + 1]) {
                    scan_digits(s, b + 1)
                } else {
                    -1
                }
            } else {
                b
            };
            if 0 <= c <= s.len() {
                if c + 1 <= s.len() {
                    lemma_scan_digits(s, c + 1);
                }
                if c + 2 <= s.len() {
                    lemma_scan_digits(s, c + 2);
                }
            }
        }
    }
}

/// The escaped character named by `c` in a `\c` escape, if `\c` is a simple
/// escape.
pub open spec fn esc_decode(c: char) -> Option<char> {
    if c == '"' {
        Some('"')
    } else if c == '\\' {
        Some('\\')
    } else if c == '/' {
        Some('/')
    } else if c == 'b' {
        Some('\u{8}')
    } else if c == 'f' {
        Some('\u{c}')
    } else if c == 'n' {
        Some('\n')
    } else if c == 'r' {
        Some('\r')
    } else if c == 't' {
        Some('\t')
    } else {
        None
    }
}

/// The value of four hexadecimal digits at `j`, or -1.
pub open spec fn hex4(s: Seq<char>, j: int) -> int {
    if 0 <= j && j + 4 <= s.len() && hex_v(s[j]) >= 0 && hex_v(s[j + 1]) >= 0 && hex_v(s[j + 2])
        >= 0 && hex_v(s[j + 3]) >= 0 {
        hex_v(s[j]) * 0x1000 + hex_v(s[j + 1]) * 0x100 + hex_v(s[j + 2]) * 16 + hex_v(s[j + 3])
    } else {
        -1
    }
}

/// The rest of a string literal from position `k` (inside the quotes), with
/// the characters decoded so far in `acc`: the decoded string and the
/// position after the closing quote.
pub open spec fn sp_str_chars(s: Seq<char>, k: int, acc: Seq<char>) -> Option<(Seq<char>, int)>
    decreases s.len() - k,
    when 0 <= k <= s.len()
{
    if k >= s.len() {
        None
    } else if s[k] == '"' {
        Some((acc, k + 1))
    } else if s[k] == '\\' {
        if k + 1 >= s.len() {
            None
        } else if s[k + 1] == 'u' {
            if k + 6 > s.len() {
                None
            } else {
                let u = hex4(s, k + 2);
                if u < 0 {
                    None
                } else if 0xD800 <= u < 0xDC00 {
                    if k + 12 > s.len() {
                        None
                    } else if s[k + 6] == '\\' && s[k + 7] == 'u' {
                        let u2 = hex4(s, k + 8);
                        if 0xDC00 <= u2 < 0xE000 {
                            let cp = 0x10000 + (u - 0xD800) * 0x400 + (u2 - 0xDC00);
                            sp_str_chars(s, k + 12, acc.push(cp as u32 as char))
                        } else {
                            None
                        }
                    } else {
                        None
                    }
                } else if 0xDC00 <= u < 0xE000 {
                    None
                } else {
                    sp_str_chars(s, k + 6, acc.push(u as u32 as char))
                }
            }
        } else {
            match esc_decode(s[k + 1]) {
                Some(c) => sp_str_chars(s, k + 2, acc.push(c)),
                None => None,
            }
        }
    } else if (s[k] as u32) < 0x20 {
        None
    } else {
        sp_str_chars(s, k + 1, acc.push(s[k]))
    }
}

/// A string literal whose opening quote stands at `i`: the decoded string
/// and the position after the closing quote.
pub open spec fn sp_string(s: Seq<char>, i: int) -> Option<(Seq<char>, int)> {
    if 0 <= i < s.len() && s[i] == '"' {
        sp_str_chars(s, i + 1, Seq::empty())
    } else {
        None
    }
}

/// A string body ends within the input, after `k`.
pub proof fn lemma_sp_str_chars(s: Seq<char>, k: int, acc: Seq<char>)
    requires
        0 <= k <= s.len(),
    ensures
        sp_str_chars(s, k, acc) matches Some(p) ==> k < p.1 <= s.len(),
    decreases s.len() - k,
{
    if k < s.len() && s[k] != '"' {
        if s[k] == '\\' {
            if k + 1 < s.len() {
                if s[k + 1] == 'u' {
                    if k + 6 <= s.len() {
                        let u = hex4(s, k + 2);
                        if 0xD800 <= u < 0xDC00 {
                            if k + 12 <= s.len() {
                                lemma_sp_str_chars(
                                    s,
                                    k + 12,
                                    acc.push(
                                        (0x10000 + (u - 0xD800) * 0x400 + (hex4(s, k + 8)
                                            - 0xDC00)) as u32 as char,
                                    ),
                                );
                            }
                        } else {
                            lemma_sp_str_chars(s, k + 6, acc.push(u as u32 as char));
                        }
                    }
                } else {
                    match esc_decode(s[k + 1]) {
                        Some(c) => lemma_sp_str_chars(s, k + 2, acc.push(c)),
                        None => {},
                    }
                }
            }
        } else {
            lemma_sp_str_chars(s, k + 1, acc.push(s[k]));
        }
    }
}

/// The string a literal yields ends after its opening quote, within the
/// input.
pub proof fn lemma_sp_string(s: Seq<char>, i: int)
    requires
        0 <= i <= s.len(),
    ensures
        sp_string(s, i) matches Some(p) ==> i < p.1 <= s.len(),
{
    if 0 <= i < s.len() && s[i] == '"' {
        lemma_sp_str_chars(s, i + 1, Seq::empty());
    }
}

/// The fuel that suffices for a value starting at `i`.
pub open spec fn fuel_v(s: Seq<char>, i: int) -> nat {
    (2 * (s.len() - i) + 2) as nat
}

/// The fuel that suffices for an element or member list starting at `i`.
pub open spec fn fuel_l(s: Seq<char>, i: int) -> nat {
    (2 * (s.len() - i) + 3) as nat
}

/// A JSON value at position `i` (leading whitespace allowed): the value and
/// the position after it.
pub open spec fn sp_value(s: Seq<char>, i: int, fuel: nat) -> Option<(JsonV, int)>
    decreases fuel,
{
    if fuel == 0 {
        None
    } else {
        let k = skip_ws_in(s, i);
        if k >= s.len() {
            None
        } else if s[k] == 'n' {
            if k + 4 <= s.len() && s[k + 1] == 'u' && s[k + 2] == 'l' && s[k + 3] == 'l' {
                Some((JsonV::Null, k + 4))
            } else {
                None
            }
        } else if s[k] == 't' {
            if k + 4 <= s.len() && s[k + 1] == 'r' && s[k + 2] == 'u' && s[k + 3] == 'e' {
                Some((JsonV::Bool(true), k + 4))
            } else {
                None
            }
        } else if s[k] == 'f' {
            if k + 5 <= s.len() && s[k + 1] == 'a' && s[k + 2] == 'l' && s[k + 3] == 's' && s[k + 4]
                == 'e' {
                Some((JsonV::Bool(false), k + 5))
            } else {
                None
            }
        } else if s[k] == '"' {
            match sp_string(s, k) {
                Some((cs, j)) => Some((JsonV::Str(cs), j)),
                None => None,
            }
        } else if s[k] == '[' {
            let k2 = skip_ws_in(s, k + 1);
            if k2 < s.len() && s[k2] == ']' {
                Some((JsonV::Arr(Seq::empty()), k2 + 1))
            } else {
                match sp_elems(s, k + 1, (fuel - 1) as nat) {
                    Some((l, j)) => Some((JsonV::Arr(l), j)),
                    None => None,
                }
            }
        } else if s[k] == '{' {
            let k2 = skip_ws_in(s, k + 1);
            if k2 < s.len() && s[k2] == '}' {
                Some((JsonV::Obj(Seq::empty()), k2 + 1))
            } else {
                match sp_members(s, k + 1, (fuel - 1) as nat) {
                    Some((l, j)) => Some((JsonV::Obj(l), j)),
                    None => None,
                }
            }
        } else {
            match sp_number(s, k) {
                Some((cs, j)) => Some((JsonV::Num(cs), j)),
                None => None,
            }
        }
    }
}

/// One or more array elements from position `i`: the elements and the
/// position after the closing bracket.
pub open spec fn sp_elems(s: Seq<char>, i: int, fuel: nat) -> Option<(Seq<JsonV>, int)>
    decreases fuel,
{
    if fuel == 0 {
        None
    } else {
        match sp_value(s, i, (fuel - 1) as nat) {
            None => None,
            Some((v, j)) => {
                let k = skip_ws_in(s, j);
                if k < s.len() && s[k] == ',' {
                    match sp_elems(s, k + 1, (fuel - 1) as nat) {
                        None => None,
                        Some((rest, j2)) => Some((seq![v] + rest, j2)),
                    }
                } else if k < s.len() && s[k] == ']' {
                    Some((seq![v], k + 1))
                } else {
                    None
                }
            },
        }
    }
}

/// One or more object members from position `i`: the members and the
/// position after the closing brace.
pub open spec fn sp_members(s: Seq<char>, i: int, fuel: nat) -> Option<
    (Seq<(Seq<char>, JsonV)>, int),
>
    decreases fuel,
{
    if fuel == 0 {
        None
    } else {
        let k = skip_ws_in(s, i);
        if k >= s.len() || s[k] != '"' {
            None
        } else {
            match sp_string(s, k) {
                None => None,
                Some((key, j)) => {
                    let k2 = skip_ws_in(s, j);
                    if k2 >= s.len() || s[k2] != ':' {
                        None
                    } else {
                        match sp_value(s, k2 + 1, (fuel - 1) as nat) {
                            None => None,
                            Some((v, j2)) => {
                                let k3 = skip_ws_in(s, j2);
                                if k3 < s.len() && s[k3] == ',' {
                                    match sp_members(s, k3 + 1, (fuel - 1) as nat) {
                                        None => None,
                                        Some((rest, j3)) => if obj_has(rest, key) {
                                            None
                                        } else {
                                            Some((seq![(key, v)] + rest, j3))
                                        },
                                    }
                                } else if k3 < s.len() && s[k3] == '}' {
                                    Some((seq![(key, v)], k3 + 1))
                                } else {
                                    None
                                }
                            },
                        }
                    }
                },
            }
        }
    }
}

/// Skips whitespace from a position already known to lie within the input.
///
/// Identical to [`skip_ws`], with the bound clipped so that the mutually
/// recursive grammar functions stay well defined for any argument.
pub open spec fn skip_ws_in(s: Seq<char>, i: int) -> int {
    if 0 <= i <= s.len() {
        skip_ws(s, i)
    } else {
        i
    }
}

/// Whatever the grammar yields ends after where it starts, within the input.
pub proof fn lemma_sp_progress(s: Seq<char>, i: int, fuel: nat)
    requires
        0 <= i <= s.len(),
    ensures
        sp_value(s, i, fuel) matches Some(p) ==> i < p.1 <= s.len(),
        sp_elems(s, i, fuel) matches Some(p) ==> i < p.1 <= s.len(),
        sp_members(s, i, fuel) matches Some(p) ==> i < p.1 <= s.len(),
    decreases fuel,
{
    if fuel > 0 {
        let f1 = (fuel - 1) as nat;
        let k = skip_ws(s, i);
        lemma_skip_ws(s, i);
        if k < s.len() {
            if s[k] == '"' {
                lemma_sp_string(s, k);
            } else if s[k] == '[' || s[k] == '{' {
                lemma_skip_ws(s, k + 1);
                lemma_sp_progress(s, k + 1, f1);
            } else {
                lemma_sp_number(s, k);
            }
        }
        // element lists
        lemma_sp_progress(s, i, f1);
        match sp_value(s, i, f1) {
            Some((v, j)) => {
                lemma_skip_ws(s, j);
                let ka = skip_ws(s, j);
                if ka < s.len() && s[ka] == ',' {
                    lemma_sp_progress(s, ka + 1, f1);
                }
            },
            None => {},
        }
        // member lists
        if k < s.len() && s[k] == '"' {
            match sp_string(s, k) {
                Some((key, j)) => {
                    lemma_skip_ws(s, j);
                    let k2 = skip_ws(s, j);
                    if k2 < s.len() && s[k2] == ':' {
                        lemma_sp_progress(s, k2 + 1, f1);
                        match sp_value(s, k2 + 1, f1) {
                            Some((v, j2)) => {
                                lemma_skip_ws(s, j2);
                                let k3 = skip_ws(s, j2);
                                if k3 < s.len() && s[k3] == ',' {
                                    lemma_sp_progress(s, k3 + 1, f1);
                                }
                            },
                            None => {},
                        }
                    }
                },
                None => {},
            }
        }
    }
}

/// Any fuel at or above the sufficient amount gives the same answer.
pub proof fn lemma_sp_mono(s: Seq<char>, i: int, f1: nat, f2: nat)
    requires
        0 <= i <= s.len(),
    ensures
        f1 >= fuel_v(s, i) && f2 >= fuel_v(s, i) ==> sp_value(s, i, f1) == sp_value(s, i, f2),
        f1 >= fuel_l(s, i) && f2 >= fuel_l(s, i) ==> sp_elems(s, i, f1) == sp_elems(s, i, f2),
        f1 >= fuel_l(s, i) && f2 >= fuel_l(s, i) ==> sp_members(s, i, f1) == sp_members(s, i, f2),
    decreases f1 + f2,
{
    let g1 = (f1 - 1) as nat;
    let g2 = (f2 - 1) as nat;
    if f1 >= fuel_v(s, i) && f2 >= fuel_v(s, i) {
        let k = skip_ws(s, i);
        lemma_skip_ws(s, i);
        if k < s.len() && (s[k] == '[' || s[k] == '{') {
            lemma_sp_mono(s, k + 1, g1, g2);
        }
    }
    if f1 >= fuel_l(s, i) && f2 >= fuel_l(s, i) {
        lemma_sp_mono(s, i, g1, g2);
        lemma_sp_progress(s, i, g1);
        match sp_value(s, i, g1) {
            Some((v, j)) => {
                lemma_skip_ws(s, j);
                let ka = skip_ws(s, j);
                if ka < s.len() && s[ka] == ',' {
                    lemma_sp_mono(s, ka + 1, g1, g2);
                }
            },
            None => {},
        }
        let k = skip_ws(s, i);
        if k < s.len() && s[k] == '"' {
            lemma_sp_string(s, k);
            match sp_string(s, k) {
                Some((key, j)) => {
                    lemma_skip_ws(s, j);
                    let k2 = skip_ws(s, j);
                    if k2 < s.len() && s[k2] == ':' {
                        lemma_sp_mono(s, k2 + 1, g1, g2);
                        lemma_sp_progress(s, k2 + 1, g1);
                        match sp_value(s, k2 + 1, g1) {
                            Some((v, j2)) => {
                                lemma_skip_ws(s, j2);
                                let k3 = skip_ws(s, j2);
                                if k3 < s.len() && s[k3] == ',' {
                                    lemma_sp_mono(s, k3 + 1, g1, g2);
                                }
                            },
                            None => {},
                        }
                    }
                },
                None => {},
            }
        }
    }
}

/// A whole text as one JSON document: the value, if the text is one
/// well-formed JSON value with nothing but whitespace around it.
pub open spec fn text_parses(s: Seq<char>) -> Option<JsonV> {
    match sp_value(s, 0, fuel_v(s, 0)) {
        None => None,
        Some((v, j)) => if skip_ws_in(s, j) == s.len() {
            Some(v)
        } else {
            None
        },
    }
}

fn skip_ws_exec(s: &str, i: usize, n: usize) -> (r: usize)
    requires
        i <= n,
        n == s@.len(),
    ensures
        i <= r <= n,
        r as int == skip_ws(s@, i as int),
{
    let mut k = i;
    loop
        invariant
            i <= k <= n,
            n == s@.len(),
            skip_ws(s@, k as int) == skip_ws(s@, i as int),
        ensures
            i <= k <= n,
            k as int == skip_ws(s@, i as int),
        decreases n - k,
    {
        if k >= n {
            break;
        }
        let c = s.get_char(k);
        if !(c == ' ' || c == '\t' || c == '\n' || c == '\r') {
            break;
        }
        k = k + 1;
    }
    k
}

fn scan_digits_exec(s: &str, i: usize, n: usize) -> (r: usize)
    requires
        i <= n,
        n == s@.len(),
    ensures
        i <= r <= n,
        r as int == scan_digits(s@, i as int),
{
    let mut k = i;
    loop
        invariant
            i <= k <= n,
            n == s@.len(),
            scan_digits(s@, k as int) == scan_digits(s@, i as int),
        ensures
            i <= k <= n,
            k as int == scan_digits(s@, i as int),
        decreases n - k,
    {
        if k >= n {
            break;
        }
        let c = s.get_char(k);
        if !('0' <= c && c <= '9') {
            break;
        }
        k = k + 1;
    }
    k
}

fn hexv_exec(c: char) -> (r: i32)
    ensures
        r as int == hex_v(c),
{
    if '0' <= c && c <= '9' {
        (c as u32 as i32) - 48
    } else if 'a' <= c && c <= 'f' {
        (c as u32 as i32) - 97 + 10
    } else if 'A' <= c && c <= 'F' {
        (c as u32 as i32) - 65 + 10
    } else {
        -1
    }
}

fn hex4_exec(s: &str, j: usize, n: usize) -> (r: Option<u32>)
    requires
        j + 4 <= n,
        n == s@.len(),
    ensures
        r is Some <==> hex4(s@, j as int) >= 0,
        r matches Some(v) ==> v as int == hex4(s@, j as int) && v < 0x10000,
{
    let v0 = hexv_exec(s.get_char(j));
    let v1 = hexv_exec(s.get_char(j + 1));
    let v2 = hexv_exec(s.get_char(j + 2));
    let v3 = hexv_exec(s.get_char(j + 3));
    if v0 < 0 || v1 < 0 || v2 < 0 || v3 < 0 {
        None
    } else {
        Some((v0 as u32) * 0x1000 + (v1 as u32) * 0x100 + (v2 as u32) * 16 + (v3 as u32))
    }
}

/// Parses a number literal starting at `i`: its raw text and the position
/// after it.
fn parse_number(s: &str, i: usize, n: usize) -> (r: Result<(String, usize), usize>)
    requires
        i <= n,
        n == s@.len(),
    ensures
        r matches Ok(p) ==> i < p.1 <= n && sp_number(s@, i as int) == Some((p.0@, p.1 as int)),
        r is Err ==> sp_number(s@, i as int) is None,
{
    proof {
        lemma_sp_number(s@, i as int);
    }
    let a: usize = if i < n && s.get_char(i) == '-' {
        i + 1
    } else {
        i
    };
    if a >= n || !({
        let c = s.get_char(a);
        '0' <= c && c <= '9'
    }) {
        return Err(a);
    }
    let b: usize = if s.get_char(a) == '0' {
        a + 1
    } else {
        scan_digits_exec(s, a, n)
    };
    let c: usize = if b < n && s.get_char(b) == '.' {
        if b + 1 < n && ({
            let ch = s.get_char(b + 1);
            '0' <= ch && ch <= '9'
        }) {
            scan_digits_exec(s, b + 1, n)
        } else {
            return Err(b);
        }
    } else {
        b
    };
    let d: usize = if c < n && ({
        let ch = s.get_char(c);
        ch == 'e' || ch == 'E'
    }) {
        let e0: usize = if c + 1 < n && ({
            let ch = s.get_char(c + 1);
            ch == '+' || ch == '-'
        }) {
            c + 2
        } else {
            c + 1
        };
        if e0 < n && ({
            let ch = s.get_char(e0);
            '0' <= ch && ch <= '9'
        }) {
            scan_digits_exec(s, e0, n)
        } else {
            return Err(c);
        }
    } else {
        c
    };
    let raw = String::from_str(s.substring_char(i, d));
    Ok((raw, d))
}

/// Parses a string literal whose opening quote stands at `i`: the decoded
/// string and the position after the closing quote.
fn parse_string(s: &str, i: usize, n: usize) -> (r: Result<(String, usize), usize>)
    requires
        i < n,
        n == s@.len(),
        s@[i as int] == '"',
    ensures
        r matches Ok(p) ==> i < p.1 <= n && sp_string(s@, i as int) == Some((p.0@, p.1 as int)),
        r is Err ==> sp_string(s@, i as int) is None,
{
    let mut acc = String::new();
    let mut k = i + 1;
    loop
        invariant
            i + 1 <= k <= n,
            i < n,
            n == s@.len(),
            s@[i as int] == '"',
            sp_str_chars(s@, k as int, acc@) == sp_string(s@, i as int),
        decreases n - k,
    {
        if k >= n {
            return Err(k);
        }
        let c = s.get_char(k);
        if c == '"' {
            return Ok((acc, k + 1));
        }
        if c == '\\' {
            if k + 1 >= n {
                return Err(k);
            }
            let e = s.get_char(k + 1);
            if e == 'u' {
                if n - k < 6 {
                    return Err(k);
                }
                match hex4_exec(s, k + 2, n) {
                    None => {
                        return Err(k);
                    },
                    Some(u) => {
                        if 0xD800 <= u && u < 0xDC00 {
                            if n - k < 12 {
                                return Err(k);
                            }
                            if !(s.get_char(k + 6) == '\\' && s.get_char(k + 7) == 'u') {
                                return Err(k);
                            }
                            match hex4_exec(s, k + 8, n) {
                                None => {
                                    return Err(k);
                                },
                                Some(u2) => {
                                    if 0xDC00 <= u2 && u2 < 0xE000 {
                                        let cp: u32 = 0x10000 + (u - 0xD800) * 0x400 + (u2
                                            - 0xDC00);
                                        match char_from_u32(cp) {
                                            Some(c2) => {
                                                proof {
                                                    vstd::utf8::char_u32_cast(c2, cp);
                                                }
                                                string_push(&mut acc, c2);
                                                k = k + 12;
                                            },
                                            None => {
                                                proof {
                                                    assert(false);
                                                }
                                                return Err(k);
                                            },
                                        }
                                    } else {
                                        return Err(k);
                                    }
                                },
                            }
                        } else if 0xDC00 <= u && u < 0xE000 {
                            return Err(k);
                        } else {
                            match char_from_u32(u) {
                                Some(c2) => {
                                    proof {
                                        vstd::utf8::char_u32_cast(c2, u);
                                    }
                                    string_push(&mut acc, c2);
                                    k = k + 6;
                                },
                                None => {
                                    proof {
                                        assert(false);
                                    }
                                    return Err(k);
                                },
                            }
                        }
                    },
                }
            } else {
                let dec: Option<char> = if e == '"' {
                    Some('"')
                } else if e == '\\' {
                    Some('\\')
                } else if e == '/' {
                    Some('/')
                } else if e == 'b' {
                    Some('\u{8}')
                } else if e == 'f' {
                    Some('\u{c}')
                } else if e == 'n' {
                    Some('\n')
                } else if e == 'r' {
                    Some('\r')
                } else if e == 't' {
                    Some('\t')
                } else {
                    None
                };
                match dec {
                    Some(c2) => {
                        string_push(&mut acc, c2);
                        k = k + 2;
                    },
                    None => {
                        return Err(k);
                    },
                }
            }
        } else if (c as u32) < 0x20 {
            return Err(k);
        } else {
            string_push(&mut acc, c);
            k = k + 1;
        }
    }
}

/// Parses one JSON value at position `i` (leading whitespace allowed).
///
/// On success the result is exactly what the grammar yields there; on failure
/// the grammar yields nothing, and the error holds a position near the fault.
fn parse_value(s: &str, i: usize, n: usize) -> (r: Result<(Json, usize), usize>)
    requires
        i <= n,
        n == s@.len(),
    ensures
        r matches Ok(p) ==> i < p.1 <= n && sp_value(s@, i as int, fuel_v(s@, i as int)) == Some(
            (p.0@, p.1 as int),
        ),
        r is Err ==> sp_value(s@, i as int, fuel_v(s@, i as int)) is None,
    decreases n - i, 0int,
{
    let ghost fv = fuel_v(s@, i as int);
    let k = skip_ws_exec(s, i, n);
    if k >= n {
        return Err(k);
    }
    let c = s.get_char(k);
    if c == 'n' {
        if n - k >= 4 && s.get_char(k + 1) == 'u' && s.get_char(k + 2) == 'l' && s.get_char(k + 3)
            == 'l' {
            Ok((Json::Null, k + 4))
        } else {
            Err(k)
        }
    } else if c == 't' {
        if n - k >= 4 && s.get_char(k + 1) == 'r' && s.get_char(k + 2) == 'u' && s.get_char(k + 3)
            == 'e' {
            Ok((Json::Bool(true), k + 4))
        } else {
            Err(k)
        }
    } else if c == 'f' {
        if n - k >= 5 && s.get_char(k + 1) == 'a' && s.get_char(k + 2) == 'l' && s.get_char(k + 3)
            == 's' && s.get_char(k + 4) == 'e' {
            Ok((Json::Bool(false), k + 5))
        } else {
            Err(k)
        }
    } else if c == '"' {
        match parse_string(s, k, n) {
            Ok((cs, j)) => Ok((Json::Str(cs), j)),
            Err(e) => Err(e),
        }
    } else if c == '[' {
        let k2 = skip_ws_exec(s, k + 1, n);
        if k2 < n && s.get_char(k2) == ']' {
            let items: Vec<Json> = Vec::new();
            proof {
                assert(view_list(items@) =~= Seq::<JsonV>::empty());
            }
            Ok((Json::Arr(items), k2 + 1))
        } else {
            proof {
                lemma_sp_mono(s@, k + 1 as int, (fv - 1) as nat, fuel_l(s@, k + 1 as int));
            }
            match parse_elems(s, k + 1, n) {
                Ok((items, j)) => Ok((Json::Arr(items), j)),
                Err(e) => Err(e),
            }
        }
    } else if c == '{' {
        let k2 = skip_ws_exec(s, k + 1, n);
        if k2 < n && s.get_char(k2) == '}' {
            let entries: Vec<(String, Json)> = Vec::new();
            proof {
                assert(view_entries(entries@) =~= Seq::<(Seq<char>, JsonV)>::empty());
            }
            Ok((Json::Obj(entries), k2 + 1))
        } else {
            proof {
                lemma_sp_mono(s@, k + 1 as int, (fv - 1) as nat, fuel_l(s@, k + 1 as int));
            }
            match parse_members(s, k + 1, n) {
                Ok((entries, j)) => Ok((Json::Obj(entries), j)),
                Err(e) => Err(e),
            }
        }
    } else {
        match parse_number(s, k, n) {
            Ok((cs, j)) => Ok((Json::Num(cs), j)),
            Err(e) => Err(e),
        }
    }
}

/// Parses one or more array elements up to and including the closing
/// bracket.
#[verifier::rlimit(100)]
fn parse_elems(s: &str, i: usize, n: usize) -> (r: Result<(Vec<Json>, usize), usize>)
    requires
        i <= n,
        n == s@.len(),
    ensures
        r matches Ok(p) ==> i < p.1 <= n && sp_elems(s@, i as int, fuel_l(s@, i as int)) == Some(
            (view_list(p.0@), p.1 as int),
        ),
        r is Err ==> sp_elems(s@, i as int, fuel_l(s@, i as int)) is None,
    decreases n - i, 1int,
{
    let ghost fl = fuel_l(s@, i as int);
    match parse_value(s, i, n) {
        Err(e) => Err(e),
        Ok((v, j)) => {
            let k = skip_ws_exec(s, j, n);
            if k < n && s.get_char(k) == ',' {
                proof {
                    lemma_sp_mono(s@, k + 1 as int, (fl - 1) as nat, fuel_l(s@, k + 1 as int));
                }
                match parse_elems(s, k + 1, n) {
                    Err(e) => Err(e),
                    Ok((rest, j2)) => {
                        let ghost rest0 = rest@;
                        let ghost gv = v;
                        let mut rest = rest;
                        rest.insert(0, v);
                        proof {
                            crate::json::lemma_view_list_insert0(rest0, gv);
                        }
                        Ok((rest, j2))
                    },
                }
            } else if k < n && s.get_char(k) == ']' {
                let mut items: Vec<Json> = Vec::new();
                items.push(v);
                proof {
                    lemma_view_list(items@);
                    assert(view_list(items@) =~= seq![v@]);
                }
                Ok((items, k + 1))
            } else {
                Err(k)
            }
        },
    }
}

/// Parses one or more object members up to and including the closing brace.
#[verifier::rlimit(100)]
fn parse_members(s: &str, i: usize, n: usize) -> (r: Result<(Vec<(String, Json)>, usize), usize>)
    requires
        i <= n,
        n == s@.len(),
    ensures
        r matches Ok(p) ==> i < p.1 <= n && sp_members(s@, i as int, fuel_l(s@, i as int)) == Some(
            (view_entries(p.0@), p.1 as int),
        ),
        r is Err ==> sp_members(s@, i as int, fuel_l(s@, i as int)) is None,
    decreases n - i, 1int,
{
    let ghost fl = fuel_l(s@, i as int);
    let k = skip_ws_exec(s, i, n);
    if k >= n {
        return Err(k);
    }
    if !(s.get_char(k) == '"') {
        return Err(k);
    }
    match parse_string(s, k, n) {
        Err(e) => Err(e),
        Ok((key, j)) => {
            let k2 = skip_ws_exec(s, j, n);
            if k2 >= n || !(s.get_char(k2) == ':') {
                return Err(k2);
            }
            proof {
                lemma_sp_mono(s@, k2 + 1 as int, (fl - 1) as nat, fuel_v(s@, k2 + 1 as int));
            }
            match parse_value(s, k2 + 1, n) {
                Err(e) => Err(e),
                Ok((v, j2)) => {
                    let k3 = skip_ws_exec(s, j2, n);
                    if k3 < n && s.get_char(k3) == ',' {
                        proof {
                            lemma_sp_mono(
                                s@,
                                k3 + 1 as int,
                                (fl - 1) as nat,
                                fuel_l(s@, k3 + 1 as int),
                            );
                        }
                        match parse_members(s, k3 + 1, n) {
                            Err(e) => Err(e),
                            Ok((rest, j3)) => {
                                if crate::json::obj_find(&rest, key.as_str()).is_some() {
                                    return Err(k3);
                                }
                                let ghost rest0 = rest@;
                                let ghost gk = key;
                                let ghost gv = v;
                                let mut rest = rest;
                                rest.insert(0, (key, v));
                                proof {
                                    crate::json::lemma_view_entries_insert0(rest0, (gk, gv));
                                }
                                Ok((rest, j3))
                            },
                        }
                    } else if k3 < n && s.get_char(k3) == '}' {
                        let mut entries: Vec<(String, Json)> = Vec::new();
                        entries.push((key, v));
                        proof {
                            lemma_view_entries(entries@);
                            assert(view_entries(entries@) =~= seq![
                                (entries@[0].0@, entries@[0].1@),
                            ]);
                        }
                        Ok((entries, k3 + 1))
                    } else {
                        Err(k3)
                    }
                },
            }
        },
    }
}

/// Parses a whole text as one JSON document.
///
/// Succeeds exactly when the text is one well-formed JSON value surrounded by
/// nothing but whitespace; the error holds a position near the first fault.
pub fn parse_text(s: &str) -> (r: Result<Json, usize>)
    ensures
        r matches Ok(v) ==> text_parses(s@) == Some(v@),
        r is Err <==> text_parses(s@) is None,
{
    let n = s.unicode_len();
    match parse_value(s, 0, n) {
        Err(e) => Err(e),
        Ok((v, j)) => {
            let k = skip_ws_exec(s, j, n);
            if k == n {
                Ok(v)
            } else {
                Err(k)
            }
        },
    }
}

} // verus!
