//! Conversion of one token, a numeral or a single character, to the pair
//! of a codepoint and its character.

use crate::base::Base;
use crate::numeral::{
    digit_of, lemma_parse_numeral, lemma_parse_single, numeral, parse_byte, parse_u8, push_numeral,
};
use vstd::prelude::*;
use vstd::string::StringExecFns;

verus! {

/// A codepoint and the character at it. The two always agree:
/// `character` is the character whose scalar value is `codepoint`.
#[derive(Clone, Copy, Debug, PartialEq, Eq, Structural)]
pub struct Convert {
    pub codepoint: u8,
    pub character: char,
}

impl Convert {
    /// The character is the one at the codepoint.
    pub open spec fn wf(self) -> bool {
        self.character as nat == self.codepoint as nat
    }
}

/// Why a token was not converted.
#[derive(Debug, PartialEq, Eq)]
pub enum ConversionError {
    /// The token is a numeral, but of a value outside 33 to 126.
    OutOfRange { value: u8 },
    /// The token is one character, and it is not an ASCII character.
    NotAscii { token: String },
    /// The token is no numeral and not a single character.
    MultiCharacter { token: String },
}

/// A `ConversionError` with its token as a sequence of characters.
pub enum ConversionErrorView {
    OutOfRange { value: u8 },
    NotAscii { token: Seq<char> },
    MultiCharacter { token: Seq<char> },
}

impl View for ConversionError {
    type V = ConversionErrorView;

    open spec fn view(&self) -> ConversionErrorView {
        match self {
            ConversionError::OutOfRange { value } => ConversionErrorView::OutOfRange {
                value: *value,
            },
            ConversionError::NotAscii { token } => ConversionErrorView::NotAscii { token: token@ },
            ConversionError::MultiCharacter { token } => ConversionErrorView::MultiCharacter {
                token: token@,
            },
        }
    }
}

impl ConversionErrorView {
    /// The message that tells the user of the error.
    pub open spec fn message(self) -> Seq<char> {
        match self {
            ConversionErrorView::OutOfRange { value } => "Codepoint "@ + numeral(value as nat, 10)
                + " not in the range 33-126"@,
            ConversionErrorView::NotAscii { token } => token + " is not an ASCII value"@,
            ConversionErrorView::MultiCharacter { token } => "Input \""@ + token
                + "\" must be a single character"@,
        }
    }
}

impl ConversionError {
    /// The message that tells the user of the error.
    pub fn message(&self) -> (text: String)
        ensures
            text@ == self@.message(),
    {
        let mut text = String::new();
        match self {
            ConversionError::OutOfRange { value } => {
                text.append("Codepoint ");
                push_numeral(&mut text, *value, 10);
                text.append(" not in the range 33-126");
            },
            ConversionError::NotAscii { token } => {
                text.append(token.as_str());
                text.append(" is not an ASCII value");
            },
            ConversionError::MultiCharacter { token } => {
                text.append("Input \"");
                text.append(token.as_str());
                text.append("\" must be a single character");
            },
        }
        assert(text@ =~= self@.message());
        text
    }
}

/// The outcome of a conversion, with an error taken by its view.
pub open spec fn outcome(res: Result<Convert, ConversionError>) -> Result<
    Convert,
    ConversionErrorView,
> {
    match res {
        Ok(pair) => Ok(pair),
        Err(e) => Err(e@),
    }
}

/// What a token converts to.
///
/// A numeral that fits in eight bits is taken as a codepoint, which has
/// to lie in 33 to 126. Any other token has to be a single character,
/// and that character an ASCII one; it is then taken as it is, with no
/// further bound on its codepoint.
pub open spec fn spec_convert(token: Seq<char>, base: Base) -> Result<
    Convert,
    ConversionErrorView,
> {
    match parse_byte(token, base.spec_radix()) {
        Some(value) => if 33 <= value <= 126 {
            Ok(Convert { codepoint: value, character: value as char })
        } else {
            Err(ConversionErrorView::OutOfRange { value })
        },
        None => if token.len() == 1 {
            if token[0] as nat <= 127 {
                Ok(Convert { codepoint: token[0] as u8, character: token[0] })
            } else {
                Err(ConversionErrorView::NotAscii { token })
            }
        } else {
            Err(ConversionErrorView::MultiCharacter { token })
        },
    }
}

/// Converts one token, read in `base`, to a codepoint and its character.
pub fn convert(val: &str, base: Base) -> (res: Result<Convert, ConversionError>)
    ensures
        outcome(res) == spec_convert(val@, base),
        res matches Ok(pair) ==> pair.wf(),
{
    match parse_u8(val, base.radix()) {
        Some(codepoint) => {
            if 33 <= codepoint && codepoint < 127 {
                Ok(Convert { codepoint, character: codepoint as char })
            } else {
                Err(ConversionError::OutOfRange { value: codepoint })
            }
        },
        None => {
            if val.unicode_len() == 1 {
                let character = val.get_char(0);
                if character as u32 <= 127 {
                    Ok(Convert { codepoint: character as u8, character })
                } else {
                    Err(ConversionError::NotAscii { token: val.to_owned() })
                }
            } else {
                Err(ConversionError::MultiCharacter { token: val.to_owned() })
            }
        },
    }
}

/// What holds of every pair that a token converts to: its character is
/// the one at its codepoint, and an ASCII character. One read from a
/// numeral lies in 33 to 126; any other is the token itself.
pub proof fn law_converted_pair(token: Seq<char>, base: Base)
    ensures
        spec_convert(token, base) matches Ok(pair) ==> {
            &&& pair.wf()
            &&& pair.codepoint <= 127
            &&& parse_byte(token, base.spec_radix()) is Some ==> 33 <= pair.codepoint <= 126
            &&& parse_byte(token, base.spec_radix()) is None ==> token == seq![pair.character]
        },
{
    match spec_convert(token, base) {
        Ok(pair) => {
            if parse_byte(token, base.spec_radix()) is None {
                assert(token =~= seq![pair.character]);
            }
        },
        Err(_) => {},
    }
}

/// Every codepoint from 33 to 126, written as a numeral of the base,
/// converts to that codepoint and the character at it.
pub proof fn law_numeral_in_range(n: nat, base: Base)
    requires
        33 <= n <= 126,
    ensures
        spec_convert(numeral(n, base.spec_radix()), base) == Ok::<Convert, ConversionErrorView>(
            Convert { codepoint: n as u8, character: n as u8 as char },
        ),
{
    lemma_parse_numeral(n, base.spec_radix());
}

/// Every other number that fits in eight bits, written as a numeral of
/// the base, is refused as out of range, and the error carries it.
pub proof fn law_numeral_out_of_range(n: nat, base: Base)
    requires
        n <= 255,
        !(33 <= n <= 126),
    ensures
        spec_convert(numeral(n, base.spec_radix()), base) == Err::<Convert, ConversionErrorView>(
            ConversionErrorView::OutOfRange { value: n as u8 },
        ),
{
    lemma_parse_numeral(n, base.spec_radix());
}

/// A token that is empty or has two or more characters, and is no
/// numeral that fits in eight bits, is refused as not a single
/// character, and the error carries the token.
pub proof fn law_not_single_character(token: Seq<char>, base: Base)
    requires
        token.len() != 1,
        parse_byte(token, base.spec_radix()) is None,
    ensures
        spec_convert(token, base) == Err::<Convert, ConversionErrorView>(
            ConversionErrorView::MultiCharacter { token },
        ),
{
}

/// A single character beyond the ASCII range is refused as not ASCII,
/// and the error carries the token.
pub proof fn law_not_ascii(c: char, base: Base)
    requires
        c as nat > 127,
    ensures
        spec_convert(seq![c], base) == Err::<Convert, ConversionErrorView>(
            ConversionErrorView::NotAscii { token: seq![c] },
        ),
{
    lemma_parse_single(c, base.spec_radix());
}

/// For a codepoint from 33 to 126 whose character is not a digit of the
/// base, the numeral and the character convert to the same pair: the
/// codepoint and its character. (A digit of the base, given alone, is
/// read as a numeral.)
pub proof fn law_round_trip(n: nat, base: Base)
    requires
        33 <= n <= 126,
        digit_of(n as u8 as char) >= base.spec_radix(),
    ensures
        spec_convert(numeral(n, base.spec_radix()), base) == spec_convert(
            seq![n as u8 as char],
            base,
        ),
        spec_convert(seq![n as u8 as char], base) == Ok::<Convert, ConversionErrorView>(
            Convert { codepoint: n as u8, character: n as u8 as char },
        ),
{
    law_numeral_in_range(n, base);
    lemma_parse_single(n as u8 as char, base.spec_radix());
}

/// A single digit of the base is read as a numeral, so it is refused as
/// out of range with the digit's value.
pub proof fn law_single_digit(c: char, base: Base)
    requires
        digit_of(c) < base.spec_radix(),
    ensures
        spec_convert(seq![c], base) == Err::<Convert, ConversionErrorView>(
            ConversionErrorView::OutOfRange { value: digit_of(c) as u8 },
        ),
{
    lemma_parse_single(c, base.spec_radix());
}

} // verus!
