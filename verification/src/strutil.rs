//! Small string utilities shared across the crate: decimal formatting of
//! integers, lexicographic ordering of character sequences, and the two
//! standard-library calls (pushing a character, checking a Unicode scalar)
//! that vstd gives no specification for.

use vstd::prelude::*;
use vstd::string::StrSliceExecFns;

verus! {

/// Relies on `String::push`: appends the given character to the end of the
/// string and changes nothing else.
#[verifier::external_body]
pub fn string_push(s: &mut String, c: char)
    ensures
        final(s)@ == old(s)@.push(c),
{
    s.push(c);
}

/// Relies on `char::from_u32`: returns `Some` exactly for Unicode scalar
/// values (all code points outside the surrogate range `0xD800..0xE000` and
/// below `0x110000`), and the returned character has the given code point.
#[verifier::external_body]
pub fn char_from_u32(u: u32) -> (r: Option<char>)
    ensures
        r is Some <==> vstd::utf8::is_scalar(u),
        r matches Some(c) ==> c as u32 == u,
{
    char::from_u32(u)
}

/// The character for one decimal digit.
pub open spec fn digit_char(d: int) -> char {
    if d == 0 {
        '0'
    } else if d == 1 {
        '1'
    } else if d == 2 {
        '2'
    } else if d == 3 {
        '3'
    } else if d == 4 {
        '4'
    } else if d == 5 {
        '5'
    } else if d == 6 {
        '6'
    } else if d == 7 {
        '7'
    } else if d == 8 {
        '8'
    } else {
        '9'
    }
}

/// The usual decimal rendering of a natural number, without leading zeros
/// (except for the number zero itself).
pub open spec fn dec_chars(n: nat) -> Seq<char>
    decreases n,
{
    if n < 10 {
        seq![digit_char(n as int)]
    } else {
        dec_chars(n / 10).push(digit_char((n % 10) as int))
    }
}

fn digit_to_char(d: u64) -> (c: char)
    requires
        d < 10,
    ensures
        c == digit_char(d as int),
{
    if d == 0 {
        '0'
    } else if d == 1 {
        '1'
    } else if d == 2 {
        '2'
    } else if d == 3 {
        '3'
    } else if d == 4 {
        '4'
    } else if d == 5 {
        '5'
    } else if d == 6 {
        '6'
    } else if d == 7 {
        '7'
    } else if d == 8 {
        '8'
    } else {
        '9'
    }
}

/// Appends the decimal rendering of `n` to `s`.
pub fn push_decimal(s: &mut String, n: u64)
    ensures
        final(s)@ == old(s)@ + dec_chars(n as nat),
    decreases n,
{
    if n >= 10 {
        push_decimal(s, n / 10);
    }
    string_push(s, digit_to_char(n % 10));
    proof {
        assert(s@ =~= old(s)@ + dec_chars(n as nat));
    }
}

/// The decimal rendering of `n` as a fresh string.
pub fn u64_to_string(n: u64) -> (r: String)
    ensures
        r@ == dec_chars(n as nat),
{
    let mut s = String::new();
    push_decimal(&mut s, n);
    proof {
        assert(s@ =~= dec_chars(n as nat));
    }
    s
}

/// The length of a string without its trailing slashes.
pub open spec fn trimmed_slash_len(s: Seq<char>) -> int
    decreases s.len(),
{
    if s.len() > 0 && s.last() == '/' {
        trimmed_slash_len(s.drop_last())
    } else {
        s.len() as int
    }
}

/// A copy of the string without its trailing slashes.
pub fn trim_trailing_slashes(s: &str) -> (r: String)
    ensures
        r@ == s@.take(trimmed_slash_len(s@)),
{
    let n: usize = s.unicode_len();
    proof {
        assert(s@.take(n as int) =~= s@);
    }
    let mut k = n;
    loop
        invariant
            k <= n,
            n == s@.len(),
            trimmed_slash_len(s@.take(k as int)) == trimmed_slash_len(s@),
            forall|j: int| 0 <= j < k ==> s@.take(k as int)[j] == s@[j],
        ensures
            k <= n,
            k as int == trimmed_slash_len(s@),
        decreases k,
    {
        proof {
            assert(s@.take(k as int).len() == k);
        }
        if k == 0 {
            break;
        }
        let c = s.get_char(k - 1);
        proof {
            assert(s@.take(k as int).last() == s@[k - 1]);
            assert(s@.take(k as int).drop_last() =~= s@.take(k - 1));
        }
        if !(c == '/') {
            break;
        }
        k = k - 1;
    }
    let r = String::from_str(s.substring_char(0, k));
    proof {
        assert(s@.subrange(0, k as int) =~= s@.take(k as int));
    }
    r
}

/// Compares two strings character by character.
pub fn str_eq(a: &str, b: &str) -> (r: bool)
    ensures
        r == (a@ == b@),
{
    let alen: usize = a.unicode_len();
    let blen: usize = b.unicode_len();
    if alen != blen {
        return false;
    }
    let mut i: usize = 0;
    while i < alen
        invariant
            i <= alen,
            alen == a@.len(),
            blen == b@.len(),
            alen == blen,
            forall|j: int| 0 <= j < i ==> a@[j] == b@[j],
        decreases alen - i,
    {
        let ca = a.get_char(i);
        let cb = b.get_char(i);
        if ca as u32 != cb as u32 {
            return false;
        }
        proof {
            vstd::utf8::char_u32_cast(ca, ca as u32);
            vstd::utf8::char_u32_cast(cb, cb as u32);
        }
        i = i + 1;
    }
    proof {
        assert(a@ =~= b@);
    }
    true
}

/// True when every character is a decimal digit and there is at least one.
pub open spec fn all_digits(s: Seq<char>) -> bool {
    s.len() > 0 && forall|i: int| 0 <= i < s.len() ==> '0' <= #[trigger] s[i] && s[i] <= '9'
}

/// The value of a digit string.
pub open spec fn digits_val(s: Seq<char>) -> nat
    decreases s.len(),
{
    if s.len() == 0 {
        0
    } else {
        digits_val(s.drop_last()) * 10 + (if '0' <= s.last() && s.last() <= '9' {
            (s.last() as u32 - '0' as u32) as nat
        } else {
            0
        })
    }
}

/// Reads an unsigned decimal number: digits only, no sign, no leading or
/// trailing extras.
pub fn parse_u64_digits(s: &str) -> (r: Option<u64>)
    ensures
        r is Some <==> all_digits(s@) && digits_val(s@) < 0x1_0000_0000_0000_0000,
        r matches Some(v) ==> v as nat == digits_val(s@),
{
    let n: usize = s.unicode_len();
    if n == 0 {
        return None;
    }
    let mut v: u64 = 0;
    let mut i: usize = 0;
    proof {
        assert(s@.take(0) =~= Seq::<char>::empty());
    }
    while i < n
        invariant
            i <= n,
            n == s@.len(),
            n > 0,
            v as nat == digits_val(s@.take(i as int)),
            forall|t: int| 0 <= t < i ==> '0' <= #[trigger] s@[t] && s@[t] <= '9',
        decreases n - i,
    {
        let c = s.get_char(i);
        let u = c as u32;
        if !(u >= 48 && u <= 57) {
            proof {
                vstd::utf8::char_u32_cast(c, u);
                assert(!('0' <= s@[i as int] && s@[i as int] <= '9'));
            }
            return None;
        }
        let d = (u - 48) as u64;
        if v > 0xFFFF_FFFF_FFFF_FFFFu64 / 10 || (v == 0xFFFF_FFFF_FFFF_FFFFu64 / 10 && d > 5) {
            proof {
                assert(s@.take(i + 1 as int).drop_last() =~= s@.take(i as int));
                assert(s@.take(i + 1 as int).last() == s@[i as int]);
                assert(digits_val(s@.take(i + 1 as int)) == v as nat * 10 + d as nat);
                lemma_digits_val_grows(s@, i as int);
                assert(digits_val(s@) >= 0x1_0000_0000_0000_0000);
            }
            return None;
        }
        v = v * 10 + d;
        proof {
            assert(s@.take(i + 1 as int).drop_last() =~= s@.take(i as int));
            assert(s@.take(i + 1 as int).last() == s@[i as int]);
        }
        i = i + 1;
    }
    proof {
        assert(s@.take(n as int) =~= s@);
    }
    Some(v)
}

/// A longer digit prefix never shrinks the value.
proof fn lemma_digits_val_grows(s: Seq<char>, i: int)
    requires
        0 <= i < s.len(),
    ensures
        digits_val(s) >= digits_val(s.take(i + 1)),
    decreases s.len() - i,
{
    if i + 1 == s.len() {
        assert(s.take(i + 1) =~= s);
    } else {
        lemma_digits_val_grows(s, i + 1);
        assert(s.take(i + 2).drop_last() =~= s.take(i + 1));
        assert(digits_val(s.take(i + 2)) >= digits_val(s.take(i + 1)));
    }
}

/// Lexicographic order on character sequences, by code point; a prefix comes
/// before every sequence it is a prefix of.
pub open spec fn lex_le(a: Seq<char>, b: Seq<char>) -> bool
    decreases a.len(),
{
    if a.len() == 0 {
        true
    } else if b.len() == 0 {
        false
    } else if (a[0] as u32) < (b[0] as u32) {
        true
    } else if (a[0] as u32) > (b[0] as u32) {
        false
    } else {
        lex_le(a.drop_first(), b.drop_first())
    }
}

/// `lex_le` is total: any two sequences are comparable.
pub proof fn lemma_lex_le_total(a: Seq<char>, b: Seq<char>)
    ensures
        lex_le(a, b) || lex_le(b, a),
    decreases a.len(),
{
    if a.len() != 0 && b.len() != 0 && a[0] as u32 == b[0] as u32 {
        lemma_lex_le_total(a.drop_first(), b.drop_first());
    }
}

/// `lex_le` is antisymmetric: mutual order means equality.
pub proof fn lemma_lex_le_antisymmetric(a: Seq<char>, b: Seq<char>)
    requires
        lex_le(a, b),
        lex_le(b, a),
    ensures
        a == b,
    decreases a.len(),
{
    if a.len() != 0 && b.len() != 0 {
        vstd::utf8::char_u32_cast(a[0], a[0] as u32);
        vstd::utf8::char_u32_cast(b[0], b[0] as u32);
        assert(a[0] as u32 == b[0] as u32);
        assert(a[0] == b[0]);
        lemma_lex_le_antisymmetric(a.drop_first(), b.drop_first());
        assert(a.drop_first().len() == a.len() - 1);
        assert(b.drop_first().len() == b.len() - 1);
        assert(a.len() == b.len());
        assert(forall|j: int| 1 <= j < a.len() ==> #[trigger] a[j] == a.drop_first()[j - 1]);
        assert(forall|j: int| 1 <= j < b.len() ==> #[trigger] b[j] == b.drop_first()[j - 1]);
        assert(a =~= b);
    } else {
        assert(a =~= b);
    }
}

/// `lex_le` is transitive.
pub proof fn lemma_lex_le_transitive(a: Seq<char>, b: Seq<char>, c: Seq<char>)
    requires
        lex_le(a, b),
        lex_le(b, c),
    ensures
        lex_le(a, c),
    decreases a.len(),
{
    if a.len() != 0 && b.len() != 0 && c.len() != 0 {
        if a[0] as u32 == b[0] as u32 && b[0] as u32 == c[0] as u32 {
            lemma_lex_le_transitive(a.drop_first(), b.drop_first(), c.drop_first());
        }
    }
}

/// Dropping an equal prefix of both sequences does not change their order.
pub proof fn lemma_lex_le_common_prefix(a: Seq<char>, b: Seq<char>, i: int)
    requires
        0 <= i <= a.len(),
        i <= b.len(),
        forall|j: int| 0 <= j < i ==> a[j] == b[j],
    ensures
        lex_le(a, b) == lex_le(a.skip(i), b.skip(i)),
    decreases i,
{
    if i > 0 {
        assert(a.len() != 0 && b.len() != 0);
        assert(a[0] == b[0]);
        lemma_lex_le_common_prefix(a.drop_first(), b.drop_first(), i - 1);
        assert(a.drop_first().skip(i - 1) =~= a.skip(i));
        assert(b.drop_first().skip(i - 1) =~= b.skip(i));
    } else {
        assert(a.skip(0) =~= a);
        assert(b.skip(0) =~= b);
    }
}

/// Compares two strings in the order given by [`lex_le`].
pub fn str_lex_le(a: &str, b: &str) -> (r: bool)
    ensures
        r == lex_le(a@, b@),
{
    let alen: usize = a.unicode_len();
    let blen: usize = b.unicode_len();
    let mut i: usize = 0;
    loop
        invariant
            i <= alen,
            i <= blen,
            alen == a@.len(),
            blen == b@.len(),
            forall|j: int| 0 <= j < i ==> a@[j] == b@[j],
        ensures
            i <= alen,
            i <= blen,
            i >= alen || i >= blen,
            alen == a@.len(),
            blen == b@.len(),
            forall|j: int| 0 <= j < i ==> a@[j] == b@[j],
        decreases alen - i,
    {
        if i >= alen || i >= blen {
            break;
        }
        let ca = a.get_char(i);
        let cb = b.get_char(i);
        if (ca as u32) < (cb as u32) {
            proof {
                lemma_lex_le_common_prefix(a@, b@, i as int);
            }
            return true;
        }
        if (ca as u32) > (cb as u32) {
            proof {
                lemma_lex_le_common_prefix(a@, b@, i as int);
            }
            return false;
        }
        proof {
            vstd::utf8::char_u32_cast(ca, ca as u32);
            vstd::utf8::char_u32_cast(cb, cb as u32);
        }
        i = i + 1;
    }
    proof {
        lemma_lex_le_common_prefix(a@, b@, i as int);
    }
    i == alen
}

} // verus!
