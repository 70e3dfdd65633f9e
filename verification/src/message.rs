//! Human-readable descriptions of parse errors.
use vstd::prelude::*;
use vstd::string::*;

use crate::text::{self, nat_text};
use crate::ParseError;

verus! {

/// What `{:?}` writes for the `char` whose code point is `byte`: std's `Debug`
/// text of a character, quotes and escapes included.
pub uninterp spec fn char_debug_text(byte: u8) -> Seq<char>;

/// Whether `byte` is printable ASCII (`0x20..=0x7e`) other than the quote
/// `'` and the backslash: a character that `Debug` shows as itself.
pub open spec fn shows_plainly(byte: u8) -> bool {
    0x20 <= byte <= 0x7e && byte != 0x27 && byte != 0x5c
}

/// A character between single quotes.
pub open spec fn quoted(c: char) -> Seq<char> {
    seq!['\'', c, '\'']
}

/// Formats `byte` taken as a `char` with std's `Debug` (`format!("{:?}", ..)`).
/// The contract claims that the text is `char_debug_text(byte)`, which depends
/// on the byte alone, and that a printable ASCII character other than `'` and
/// `\` is shown as itself between single quotes; how std escapes the other
/// characters is left unstated.
#[verifier::external_body]
fn char_debug(byte: u8) -> (shown: String)
    ensures
        shown@ == char_debug_text(byte),
        shows_plainly(byte) ==> shown@ == quoted(byte as char),
{
    format!("{:?}", char::from(byte))
}

/// The message for an invalid byte shown as `shown`, found at position `pos`.
pub fn invalid_char_message(shown: &str, pos: usize) -> (text: String)
    ensures
        text@ == "invalid character "@ + shown@ + " at position "@ + nat_text(pos as nat),
{
    let mut out = String::from_str("invalid character ");
    out.append(shown);
    out.append(" at position ");
    text::append_nat(&mut out, pos as u64);
    out
}

impl ParseError {
    /// The text of `message`.
    pub open spec fn message_text(self) -> Seq<char> {
        match self {
            ParseError::Empty => "empty or missing digits"@,
            ParseError::InvalidChar { byte, pos } => "invalid character "@ + char_debug_text(byte)
                + " at position "@ + nat_text(pos as nat),
            ParseError::Overflow => "numeric overflow"@,
            ParseError::Underflow => "value too small to represent (underflow)"@,
            ParseError::TooManyFractional { got, max } => "too many fractional digits: got "@
                + nat_text(got as nat) + ", max "@ + nat_text(max as nat),
        }
    }

    /// Human-readable description of the error, e.g.
    /// `invalid character 'x' at position 3`.
    pub fn message(&self) -> (text: String)
        ensures
            text@ == self.message_text(),
            match *self {
                ParseError::InvalidChar { byte, pos } => shows_plainly(byte) ==> text@
                    == "invalid character "@ + quoted(byte as char) + " at position "@
                    + nat_text(pos as nat),
                _ => true,
            },
    {
        match *self {
            ParseError::Empty => String::from_str("empty or missing digits"),
            ParseError::InvalidChar { byte, pos } => {
                let shown = char_debug(byte);
                invalid_char_message(shown.as_str(), pos)
            },
            ParseError::Overflow => String::from_str("numeric overflow"),
            ParseError::Underflow => String::from_str("value too small to represent (underflow)"),
            ParseError::TooManyFractional { got, max } => {
                let mut out = String::from_str("too many fractional digits: got ");
                text::append_nat(&mut out, got as u64);
                out.append(", max ");
                text::append_nat(&mut out, max as u64);
                out
            },
        }
    }
}

} // verus!
