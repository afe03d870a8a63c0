//! Character classes and text helpers shared by the token model and the
//! scanner: the letter / digit / whitespace predicates, string building and
//! comparison, and decimal numerals.

use vstd::prelude::*;
use vstd::string::StrSliceExecFns;
use vstd::string::StringExecFns;

verus! {

/// Whether `c` has the Unicode `Alphabetic` property, as `char::is_alphabetic`
/// decides it. The property depends on the character alone.
pub uninterp spec fn char_alphabetic(c: char) -> bool;

/// Whether `c` has the Unicode `White_Space` property, as `char::is_whitespace`
/// decides it. The property depends on the character alone.
pub uninterp spec fn char_whitespace(c: char) -> bool;

/// Relies on `char::is_alphabetic`: true exactly when the character has the
/// Unicode `Alphabetic` property, a function of the character alone.
#[verifier::external_body]
pub fn is_alphabetic_char(c: char) -> (r: bool)
    ensures
        r == char_alphabetic(c),
{
    c.is_alphabetic()
}

/// Relies on `char::is_whitespace`: true exactly when the character has the
/// Unicode `White_Space` property, a function of the character alone.
#[verifier::external_body]
pub fn is_whitespace_char(c: char) -> (r: bool)
    ensures
        r == char_whitespace(c),
{
    c.is_whitespace()
}

/// Relies on `String::push`: appends one character at the end of the string.
#[verifier::external_body]
pub fn push_char(s: &mut String, c: char)
    ensures
        final(s)@ == old(s)@.push(c),
{
    s.push(c);
}

/// A letter-class character: an alphabetic codepoint or the underscore.
/// Decimal digits are not letters, so identifiers never swallow them.
pub open spec fn is_letter_char(c: char) -> bool {
    char_alphabetic(c) || c == '_'
}

/// Executable letter-class test matching [`is_letter_char`].
pub fn is_letter(c: char) -> (r: bool)
    ensures
        r == is_letter_char(c),
{
    is_alphabetic_char(c) || c == '_'
}

/// A decimal digit `'0'` through `'9'`.
pub open spec fn is_digit_char(c: char) -> bool {
    48 <= c as u32 <= 57
}

/// Executable decimal-digit test matching [`is_digit_char`].
pub fn is_digit(c: char) -> (r: bool)
    ensures
        r == is_digit_char(c),
{
    let u = c as u32;
    48 <= u && u <= 57
}

/// Character-by-character string equality: true exactly when the two views
/// are the same character sequence.
pub fn str_eq(a: &str, b: &str) -> (r: bool)
    ensures
        r == (a@ == b@),
{
    let na = a.unicode_len();
    let nb = b.unicode_len();
    if na != nb {
        return false;
    }
    let mut i: usize = 0;
    while i < na
        invariant
            na == a@.len(),
            na == b@.len(),
            i <= na,
            forall|j: int| 0 <= j < i ==> a@[j] == b@[j],
        decreases na - i,
    {
        if a.get_char(i) != b.get_char(i) {
            return false;
        }
        i = i + 1;
    }
    proof {
        assert(a@ =~= b@);
    }
    true
}

/// The numeric value of a digit character.
pub open spec fn digit_val(c: char) -> int {
    c as u32 - 48
}

/// The value of a digit string read left to right in base ten.
pub open spec fn digits_val(s: Seq<char>) -> int
    decreases s.len(),
{
    if s.len() == 0 {
        0
    } else {
        digits_val(s.drop_last()) * 10 + digit_val(s.last())
    }
}

/// A string of decimal digits has a nonnegative value.
pub proof fn lemma_digits_val_nonneg(s: Seq<char>)
    requires
        forall|i: int| 0 <= i < s.len() ==> is_digit_char(#[trigger] s[i]),
    ensures
        digits_val(s) >= 0,
    decreases s.len(),
{
    if s.len() > 0 {
        assert(forall|i: int|
            0 <= i < s.drop_last().len() ==> is_digit_char(#[trigger] s.drop_last()[i]));
        lemma_digits_val_nonneg(s.drop_last());
        assert(is_digit_char(s.last()));
    }
}

/// Executable digit value matching [`digit_val`].
pub fn digit_value(c: char) -> (d: i64)
    requires
        is_digit_char(c),
    ensures
        d == digit_val(c),
        0 <= d <= 9,
{
    (c as u32 as i64) - 48
}

/// The decimal digit character for one digit value.
pub open spec fn dec_digit_char(d: int) -> char {
    if d == 0 {
        '0'
    } else if d == 1 {
        '1'
    } else if d == 2 {
        '2'
    } else if d == 3 {
        '3'
    } else if d == 4 {
        '4'
    } else if d == 5 {
        '5'
    } else if d == 6 {
        '6'
    } else if d == 7 {
        '7'
    } else if d == 8 {
        '8'
    } else {
        '9'
    }
}

/// The shortest decimal numeral of a nonnegative number, most significant
/// digit first.
pub open spec fn dec_rep_nat(n: nat) -> Seq<char>
    decreases n,
{
    if n < 10 {
        seq![dec_digit_char(n as int)]
    } else {
        dec_rep_nat(n / 10) + seq![dec_digit_char((n % 10) as int)]
    }
}

/// The decimal numeral of an integer: a minus sign before the numeral of the
/// magnitude when the number is negative.
pub open spec fn dec_rep_int(v: int) -> Seq<char> {
    if v >= 0 {
        dec_rep_nat(v as nat)
    } else {
        seq!['-'] + dec_rep_nat((-v) as nat)
    }
}

/// Executable digit character matching [`dec_digit_char`].
fn dec_digit(d: u64) -> (c: char)
    requires
        d < 10,
    ensures
        c == dec_digit_char(d as int),
{
    if d == 0 {
        '0'
    } else if d == 1 {
        '1'
    } else if d == 2 {
        '2'
    } else if d == 3 {
        '3'
    } else if d == 4 {
        '4'
    } else if d == 5 {
        '5'
    } else if d == 6 {
        '6'
    } else if d == 7 {
        '7'
    } else if d == 8 {
        '8'
    } else {
        '9'
    }
}

/// Writes a nonnegative number as its decimal numeral.
pub fn u64_to_decimal(n: u64) -> (r: String)
    ensures
        r@ == dec_rep_nat(n as nat),
{
    let mut m = n;
    let mut rev: Vec<char> = Vec::new();
    proof {
        assert(dec_rep_nat(n as nat) =~= dec_rep_nat(m as nat) + rev@.reverse());
    }
    while m >= 10
        invariant
            dec_rep_nat(n as nat) == dec_rep_nat(m as nat) + rev@.reverse(),
        decreases m,
    {
        let ghost rev0 = rev@;
        let ghost m0 = m as nat;
        let c = dec_digit(m % 10);
        rev.push(c);
        m = m / 10;
        proof {
            assert(rev@.reverse() =~= seq![dec_digit_char((m0 % 10) as int)] + rev0.reverse());
            assert(dec_rep_nat(m0) == dec_rep_nat(m0 / 10) + seq![dec_digit_char((m0 % 10) as int)]);
            assert(dec_rep_nat(m as nat) + rev@.reverse() =~= dec_rep_nat(m0) + rev0.reverse());
        }
    }
    let ghost rev0 = rev@;
    let c = dec_digit(m);
    rev.push(c);
    proof {
        assert(rev@.reverse() =~= seq![dec_digit_char(m as int)] + rev0.reverse());
        assert(dec_rep_nat(n as nat) =~= rev@.reverse());
    }
    let mut out = String::new();
    let mut i: usize = rev.len();
    proof {
        assert(out@ =~= rev@.skip(i as int).reverse());
    }
    while i > 0
        invariant
            i <= rev@.len(),
            out@ == rev@.skip(i as int).reverse(),
            rev@.reverse() == dec_rep_nat(n as nat),
        decreases i,
    {
        i = i - 1;
        push_char(&mut out, rev[i]);
        proof {
            assert(out@ =~= rev@.skip(i as int).reverse());
        }
    }
    proof {
        assert(rev@.skip(0).reverse() =~= rev@.reverse());
    }
    out
}

/// Writes a signed number as its decimal numeral, with a leading minus sign
/// when it is negative.
pub fn i64_to_decimal(v: i64) -> (r: String)
    ensures
        r@ == dec_rep_int(v as int),
{
    if v >= 0 {
        u64_to_decimal(v as u64)
    } else {
        let mag: u64 = if v == i64::MIN {
            9223372036854775808u64
        } else {
            (-v) as u64
        };
        let digits = u64_to_decimal(mag);
        let mut out = String::from_str("-");
        out.append(digits.as_str());
        proof {
            reveal_strlit("-");
            assert(out@ =~= seq!['-'] + dec_rep_nat((-(v as int)) as nat));
        }
        out
    }
}

} // verus!
