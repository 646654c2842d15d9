//! Text helpers over std: the character classes the lexer asks about,
//! building a string a char at a time, and placing a message in a file.
use vstd::prelude::*;
use crate::format_spec::decimal;

verus! {

/// What `char::is_whitespace` answers for a char: whether it has the
/// Unicode `White_Space` property.
pub uninterp spec fn white_space(c: char) -> bool;

/// What `char::is_alphabetic` answers for a char: whether it has the
/// Unicode `Alphabetic` property.
pub uninterp spec fn alphabetic(c: char) -> bool;

/// What `char::is_alphanumeric` answers for a char.
pub uninterp spec fn alphanumeric(c: char) -> bool;

/// An ASCII decimal digit.
pub open spec fn is_digit(c: char) -> bool {
    '0' <= c && c <= '9'
}

/// An ASCII letter.
pub open spec fn is_ascii_letter(c: char) -> bool {
    ('a' <= c && c <= 'z') || ('A' <= c && c <= 'Z')
}

/// The ASCII chars with the Unicode `White_Space` property: tab, line feed,
/// vertical tab, form feed, carriage return and space.
pub open spec fn is_ascii_white_space(c: char) -> bool {
    c == '\t' || c == '\n' || c == '\u{0B}' || c == '\u{0C}' || c == '\r' || c == ' '
}

pub open spec fn is_ascii(c: char) -> bool {
    (c as u32) < 128
}

/// `char::is_whitespace`: whether the char has the Unicode `White_Space`
/// property. Its result is named; of the table it consults only the ASCII
/// part is stated here.
#[verifier::external_body]
pub(crate) fn is_whitespace(c: char) -> (r: bool)
    ensures
        r == white_space(c),
        is_ascii(c) ==> (r <==> is_ascii_white_space(c)),
{
    c.is_whitespace()
}

/// `char::is_alphabetic`: whether the char has the Unicode `Alphabetic`
/// property. Its result is named; of the table it consults only the ASCII
/// part (the letters) is stated here.
#[verifier::external_body]
pub(crate) fn is_alphabetic(c: char) -> (r: bool)
    ensures
        r == alphabetic(c),
        is_ascii(c) ==> (r <==> is_ascii_letter(c)),
{
    c.is_alphabetic()
}

/// `char::is_alphanumeric`: alphabetic or numeric. Its result is named; it
/// holds of every char that `is_alphabetic` holds of, and of the ASCII chars
/// exactly of the letters and digits; the rest of the numeric table is left
/// unsaid here.
#[verifier::external_body]
pub(crate) fn is_alphanumeric(c: char) -> (r: bool)
    ensures
        r == alphanumeric(c),
        alphabetic(c) ==> r,
        is_ascii(c) ==> (r <==> (is_ascii_letter(c) || is_digit(c))),
{
    c.is_alphanumeric()
}

/// Whether the char is one of `'0'` to `'9'` (what `char::is_digit(10)`
/// answers).
pub(crate) fn is_decimal_digit(c: char) -> (r: bool)
    ensures
        r == is_digit(c),
{
    '0' <= c && c <= '9'
}

/// `String::push`: the char is appended.
#[verifier::external_body]
pub(crate) fn push_char(s: &mut String, c: char)
    ensures
        final(s)@ == old(s)@.push(c),
{
    s.push(c)
}

/// A message placed in a file: the message, " at ", the file, a space, the
/// line, a colon and the column.
pub open spec fn place_message(message: Seq<char>, file: Seq<char>, line: nat, column: nat) -> Seq<char> {
    message + " at "@ + file + " "@ + decimal(line) + ":"@ + decimal(column)
}

/// `format!("{} at {} {}:{}", message, file, line, column)`.
#[verifier::external_body]
pub(crate) fn describe_error(message: &str, file: &str, line: usize, column: usize) -> (r: String)
    ensures
        r@ == place_message(message@, file@, line as nat, column as nat),
{
    format!("{} at {} {}:{}", message, file, line, column)
}

/// The chars of a text, in order.
pub fn chars_of(text: &str) -> (r: Vec<char>)
    ensures
        r@ == text@,
{
    let mut chars: Vec<char> = Vec::new();
    proof {
        broadcast use vstd::string::group_string_axioms;
    }
    for c in it: text.chars()
        invariant
            chars@ == it.seq().take(it.index()),
            it.seq() == text@,
    {
        chars.push(c);
        proof {
            assert(chars@ =~= it.seq().take(it.index() + 1));
        }
    }
    proof {
        assert(chars@ =~= text@);
    }
    chars
}

/// The string made of the given chars, in order.
pub fn string_of(chars: &Vec<char>) -> (r: String)
    ensures
        r@ == chars@,
{
    let mut s = String::new();
    let mut i: usize = 0;
    while i < chars.len()
        invariant
            i <= chars.len(),
            s@ == chars@.take(i as int),
        decreases chars.len() - i,
    {
        push_char(&mut s, chars[i]);
        i = i + 1;
        proof {
            assert(chars@.take(i as int) =~= chars@.take(i - 1).push(chars@[i - 1]));
        }
    }
    proof {
        assert(chars@.take(i as int) =~= chars@);
    }
    s
}

/// Whether the chars spell the given text.
pub fn same_text(chars: &Vec<char>, text: &str) -> (r: bool)
    ensures
        r == (chars@ == text@),
{
    let n = text.unicode_len();
    if chars.len() != n {
        return false;
    }
    let mut i: usize = 0;
    while i < n
        invariant
            n == text@.len(),
            n == chars.len(),
            i <= n,
            forall|k: int| 0 <= k < i ==> chars@[k] == text@[k],
        decreases n - i,
    {
        if chars[i] != text.get_char(i) {
            return false;
        }
        i = i + 1;
    }
    proof {
        assert(chars@ =~= text@);
    }
    true
}

} // verus!
