//! The serializer: a JSON value to its canonical text.
//!
//! The output is compact (no whitespace), members and elements appear in
//! order, and strings escape exactly the quote, the backslash and the control
//! characters. The rendering is a function of the value's model alone
//! ([`jv_text`]), which is what makes request fingerprints deterministic.

use vstd::prelude::*;
use vstd::string::StrSliceExecFns;
use vstd::string::StringExecFns;

use crate::json::{view_entries, view_list, Json, JsonV};
use crate::json::{lemma_view_entries, lemma_view_list};
use crate::strutil::string_push;

verus! {

/// The character for one hexadecimal digit.
pub open spec fn hex_char(d: int) -> char {
    if d < 10 {
        crate::strutil::digit_char(d)
    } else if d == 10 {
        'a'
    } else if d == 11 {
        'b'
    } else if d == 12 {
        'c'
    } else if d == 13 {
        'd'
    } else if d == 14 {
        'e'
    } else {
        'f'
    }
}

/// The rendering of one character inside a JSON string literal.
pub open spec fn esc_char(c: char) -> Seq<char> {
    if c == '"' {
        seq!['\\', '"']
    } else if c == '\\' {
        seq!['\\', '\\']
    } else if c == '\u{8}' {
        seq!['\\', 'b']
    } else if c == '\u{c}' {
        seq!['\\', 'f']
    } else if c == '\n' {
        seq!['\\', 'n']
    } else if c == '\r' {
        seq!['\\', 'r']
    } else if c == '\t' {
        seq!['\\', 't']
    } else if (c as u32) < 0x20 {
        seq!['\\', 'u', '0', '0', hex_char((c as u32) as int / 16), hex_char((c as u32) as int % 16)]
    } else {
        seq![c]
    }
}

/// The rendering of a string's characters, escaped.
pub open spec fn esc_str(s: Seq<char>) -> Seq<char>
    decreases s.len(),
{
    if s.len() == 0 {
        Seq::empty()
    } else {
        esc_str(s.drop_last()) + esc_char(s.last())
    }
}

/// The rendering of a string, quoted and escaped.
pub open spec fn quoted(s: Seq<char>) -> Seq<char> {
    seq!['"'] + esc_str(s) + seq!['"']
}

/// The text of a JSON value.
pub open spec fn jv_text(v: JsonV) -> Seq<char>
    decreases v,
{
    match v {
        JsonV::Null => "null"@,
        JsonV::Bool(b) => if b {
            "true"@
        } else {
            "false"@
        },
        JsonV::Num(s) => s,
        JsonV::Str(s) => quoted(s),
        JsonV::Arr(items) => seq!['['] + jv_text_list(items) + seq![']'],
        JsonV::Obj(entries) => seq!['{'] + jv_text_entries(entries) + seq!['}'],
    }
}

/// The text of array elements, joined with commas.
pub open spec fn jv_text_list(l: Seq<JsonV>) -> Seq<char>
    decreases l,
{
    if l.len() == 0 {
        Seq::empty()
    } else if l.len() == 1 {
        jv_text(l.last())
    } else {
        jv_text_list(l.drop_last()) + seq![','] + jv_text(l.last())
    }
}

/// The text of object members, joined with commas.
pub open spec fn jv_text_entries(l: Seq<(Seq<char>, JsonV)>) -> Seq<char>
    decreases l,
{
    if l.len() == 0 {
        Seq::empty()
    } else if l.len() == 1 {
        quoted(l.last().0) + seq![':'] + jv_text(l.last().1)
    } else {
        jv_text_entries(l.drop_last()) + seq![','] + quoted(l.last().0) + seq![':'] + jv_text(
            l.last().1,
        )
    }
}

fn hex_to_char(d: u32) -> (c: char)
    requires
        d < 16,
    ensures
        c == hex_char(d as int),
{
    if d == 0 {
        '0'
    } else if d == 1 {
        '1'
    } else if d == 2 {
        '2'
    } else if d == 3 {
        '3'
    } else if d == 4 {
        '4'
    } else if d == 5 {
        '5'
    } else if d == 6 {
        '6'
    } else if d == 7 {
        '7'
    } else if d == 8 {
        '8'
    } else if d == 9 {
        '9'
    } else if d == 10 {
        'a'
    } else if d == 11 {
        'b'
    } else if d == 12 {
        'c'
    } else if d == 13 {
        'd'
    } else if d == 14 {
        'e'
    } else {
        'f'
    }
}

/// Appends one string character to `out`, escaped as JSON requires.
fn write_esc_char(out: &mut String, c: char)
    ensures
        final(out)@ == old(out)@ + esc_char(c),
{
    let u = c as u32;
    if c == '"' {
        string_push(out, '\\');
        string_push(out, '"');
    } else if c == '\\' {
        string_push(out, '\\');
        string_push(out, '\\');
    } else if c == '\u{8}' {
        string_push(out, '\\');
        string_push(out, 'b');
    } else if c == '\u{c}' {
        string_push(out, '\\');
        string_push(out, 'f');
    } else if c == '\n' {
        string_push(out, '\\');
        string_push(out, 'n');
    } else if c == '\r' {
        string_push(out, '\\');
        string_push(out, 'r');
    } else if c == '\t' {
        string_push(out, '\\');
        string_push(out, 't');
    } else if u < 0x20 {
        string_push(out, '\\');
        string_push(out, 'u');
        string_push(out, '0');
        string_push(out, '0');
        string_push(out, hex_to_char(u / 16));
        string_push(out, hex_to_char(u % 16));
    } else {
        string_push(out, c);
    }
    proof {
        assert(out@ =~= old(out)@ + esc_char(c));
    }
}

/// Appends a quoted, escaped JSON string literal to `out`.
fn write_quoted(out: &mut String, s: &str)
    ensures
        final(out)@ == old(out)@ + quoted(s@),
{
    string_push(out, '"');
    let n: usize = s.unicode_len();
    let mut i: usize = 0;
    while i < n
        invariant
            i <= n,
            n == s@.len(),
            out@ == old(out)@ + seq!['"'] + esc_str(s@.take(i as int)),
        decreases n - i,
    {
        let c = s.get_char(i);
        write_esc_char(out, c);
        proof {
            assert(s@.take(i + 1 as int).drop_last() =~= s@.take(i as int));
            assert(s@.take(i + 1 as int).last() == s@[i as int]);
            assert(out@ =~= old(out)@ + seq!['"'] + esc_str(s@.take(i + 1 as int)));
        }
        i = i + 1;
    }
    string_push(out, '"');
    proof {
        assert(s@.take(n as int) =~= s@);
        assert(out@ =~= old(out)@ + quoted(s@));
    }
}

/// Appends the text of `j` to `out`.
#[verifier::loop_isolation(false)]
pub fn write_value(out: &mut String, j: &Json)
    ensures
        final(out)@ == old(out)@ + jv_text(j@),
    decreases j,
{
    match j {
        Json::Null => {
            out.append("null");
        },
        Json::Bool(b) => {
            if *b {
                out.append("true");
            } else {
                out.append("false");
            }
        },
        Json::Num(s) => {
            out.append(s.as_str());
        },
        Json::Str(s) => {
            write_quoted(out, s.as_str());
        },
        Json::Arr(items) => {
            proof {
                lemma_view_list(items@);
            }
            string_push(out, '[');
            let n = items.len();
            let mut i: usize = 0;
            while i < n
                invariant
                    i <= n,
                    n == items.len(),
                    view_list(items@).len() == n,
                    forall|k: int| 0 <= k < n ==> view_list(items@)[k] == #[trigger] items@[k]@,
                    out@ == old(out)@ + seq!['['] + jv_text_list(view_list(items@).take(i as int)),
                decreases n - i,
            {
                if i > 0 {
                    string_push(out, ',');
                }
                proof {
                    assert(decreases_to!(j => items));
                    assert(decreases_to!(items => items@));
                    assert(decreases_to!(items@ => items@[i as int]));
                }
                write_value(out, &items[i]);
                proof {
                    let lv = view_list(items@);
                    assert(lv.take(i + 1 as int).drop_last() =~= lv.take(i as int));
                    assert(lv.take(i + 1 as int).last() == lv[i as int]);
                    assert(out@ =~= old(out)@ + seq!['['] + jv_text_list(lv.take(i + 1 as int)));
                }
                i = i + 1;
            }
            string_push(out, ']');
            proof {
                assert(view_list(items@).take(n as int) =~= view_list(items@));
                assert(out@ =~= old(out)@ + jv_text(j@));
            }
        },
        Json::Obj(entries) => {
            proof {
                lemma_view_entries(entries@);
            }
            string_push(out, '{');
            let n = entries.len();
            let mut i: usize = 0;
            while i < n
                invariant
                    i <= n,
                    n == entries.len(),
                    view_entries(entries@).len() == n,
                    forall|k: int|
                        0 <= k < n ==> view_entries(entries@)[k] == (
                        #[trigger] entries@[k].0@,
                        entries@[k].1@,
                        ),
                    out@ == old(out)@ + seq!['{'] + jv_text_entries(
                        view_entries(entries@).take(i as int),
                    ),
                decreases n - i,
            {
                if i > 0 {
                    string_push(out, ',');
                }
                write_quoted(out, entries[i].0.as_str());
                string_push(out, ':');
                proof {
                    assert(decreases_to!(j => entries));
                    assert(decreases_to!(entries => entries@));
                    assert(decreases_to!(entries@ => entries@[i as int]));
                    assert(decreases_to!(entries@[i as int] => entries@[i as int].1));
                }
                write_value(out, &entries[i].1);
                proof {
                    let ev = view_entries(entries@);
                    assert(ev.take(i + 1 as int).drop_last() =~= ev.take(i as int));
                    assert(ev.take(i + 1 as int).last() == ev[i as int]);
                    assert(out@ =~= old(out)@ + seq!['{'] + jv_text_entries(ev.take(i + 1 as int)));
                }
                i = i + 1;
            }
            string_push(out, '}');
            proof {
                assert(view_entries(entries@).take(n as int) =~= view_entries(entries@));
                assert(out@ =~= old(out)@ + jv_text(j@));
            }
        },
    }
}

impl Json {
    /// The canonical text of this value.
    pub fn to_text(&self) -> (r: String)
        ensures
            r@ == jv_text(self@),
    {
        let mut out = String::new();
        write_value(&mut out, self);
        proof {
            assert(out@ =~= jv_text(self@));
        }
        out
    }
}

} // verus!
