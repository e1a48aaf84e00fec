//! Text building blocks taken from `std` that the library relies on.

use vstd::prelude::*;

verus! {

/// Appends `c` to `s` (`String::push`).
///
/// Trusted: the contract restates `String::push`'s documentation, that the
/// character is appended at the end.
#[verifier::external_body]
pub(crate) fn push_char(s: &mut String, c: char)
    ensures
        final(s)@ == old(s)@.push(c),
{
    s.push(c);
}

/// Appends every character of `t` to `s`.
pub(crate) fn push_chars(s: &mut String, t: &String)
    ensures
        final(s)@ == old(s)@ + t@,
{
    s.append(t.as_str());
}

/// An ASCII letter.
pub open spec fn is_ascii_letter(c: char) -> bool {
    ('a' <= c && c <= 'z') || ('A' <= c && c <= 'Z')
}

/// An ASCII decimal digit (what `char::is_digit(10)` accepts).
pub open spec fn is_decimal_digit(c: char) -> bool {
    '0' <= c && c <= '9'
}

/// What `char::is_alphanumeric` returns for `c`.
pub uninterp spec fn alphanumeric(c: char) -> bool;

/// Whether `c` continues a name: for an ASCII character, a letter or a digit;
/// for any other, what `char::is_alphanumeric` says.
pub open spec fn name_char(c: char) -> bool {
    if (c as u32) < 128 {
        is_ascii_letter(c) || is_decimal_digit(c)
    } else {
        alphanumeric(c)
    }
}

/// Whether `c` is alphabetic or numeric in Unicode (`char::is_alphanumeric`).
///
/// Trusted: the result is named `alphanumeric(c)`; for an ASCII character the
/// contract also states that exactly the ASCII letters and digits are
/// alphanumeric. What the name is on other characters is left to `std`'s tables.
#[verifier::external_body]
pub(crate) fn is_alphanumeric(c: char) -> (r: bool)
    ensures
        r == alphanumeric(c),
        (c as u32) < 128 ==> (r <==> (is_ascii_letter(c) || is_decimal_digit(c))),
{
    c.is_alphanumeric()
}

pub(crate) fn char_is_decimal_digit(c: char) -> (r: bool)
    ensures
        r == is_decimal_digit(c),
{
    '0' <= c && c <= '9'
}

pub(crate) fn char_is_ascii_letter(c: char) -> (r: bool)
    ensures
        r == is_ascii_letter(c),
{
    ('a' <= c && c <= 'z') || ('A' <= c && c <= 'Z')
}

/// What `format!("{:?}", s)` gives for a string `s`.
pub uninterp spec fn debug_quoted(s: Seq<char>) -> Seq<char>;

/// The `Debug` text of a name: a name of ASCII letters and digits between two
/// `"`; any other, what `format!("{:?}", ..)` gives.
pub open spec fn quoted_name(s: Seq<char>) -> Seq<char> {
    if forall|i: int| 0 <= i < s.len() ==> is_ascii_letter(#[trigger] s[i]) || is_decimal_digit(s[i]) {
        seq!['"'] + s + seq!['"']
    } else {
        debug_quoted(s)
    }
}

/// The `Debug` text of a string (`<str as Debug>::fmt`): the string in double
/// quotes, with characters that need it escaped.
///
/// Trusted: the result is named `debug_quoted(s)`; for a string of ASCII letters
/// and digits, which `char::escape_debug` leaves as they are, the contract also
/// states that the text is the string between two `"`. The escapes of other
/// characters are left to `std`.
#[verifier::external_body]
pub(crate) fn debug_text(s: &String) -> (r: String)
    ensures
        r@ == debug_quoted(s@),
        (forall|i: int| 0 <= i < s@.len() ==> is_ascii_letter(#[trigger] s@[i]) || is_decimal_digit(s@[i]))
            ==> r@ == seq!['"'] + s@ + seq!['"'],
{
    format!("{:?}", s)
}

} // verus!
