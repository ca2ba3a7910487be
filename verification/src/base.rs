//! The numeral base in which codepoints are read and shown.

use crate::numeral::{numeral, push_numeral};
use crate::text::{pad_left, push_padded};
use vstd::prelude::*;

verus! {

/// The radix in which a codepoint is read and shown.
#[derive(Clone, Copy, Debug, PartialEq, Eq, Structural)]
pub enum Base {
    Binary,
    Decimal,
    Hexadecimal,
}

impl Default for Base {
    fn default() -> (base: Base)
        ensures
            base == Base::Decimal,
    {
        Base::Decimal
    }
}

impl Base {
    /// The radix: 2, 10 or 16.
    pub open spec fn spec_radix(self) -> nat {
        match self {
            Base::Binary => 2,
            Base::Decimal => 10,
            Base::Hexadecimal => 16,
        }
    }

    /// The width of the field in which a codepoint is shown.
    pub open spec fn spec_width(self) -> nat {
        match self {
            Base::Binary => 7,
            Base::Decimal => 3,
            Base::Hexadecimal => 2,
        }
    }

    /// What fills the field in front of the digits: a space in decimal,
    /// a zero otherwise.
    pub open spec fn spec_fill(self) -> char {
        match self {
            Base::Decimal => ' ',
            _ => '0',
        }
    }

    /// How `codepoint` is shown: its numeral, right-aligned in the field.
    pub open spec fn spec_field(self, codepoint: u8) -> Seq<char> {
        pad_left(numeral(codepoint as nat, self.spec_radix()), self.spec_width(), self.spec_fill())
    }

    /// The radix as a machine integer.
    pub fn radix(self) -> (r: u8)
        ensures
            r == self.spec_radix(),
            2 <= r <= 36,
    {
        match self {
            Base::Binary => 2,
            Base::Decimal => 10,
            Base::Hexadecimal => 16,
        }
    }

    /// Shows `codepoint` in this base: seven binary digits, three decimal
    /// places, or two lowercase hexadecimal digits.
    pub fn field(self, codepoint: u8) -> (s: String)
        ensures
            s@ == self.spec_field(codepoint),
    {
        let mut digits = String::new();
        push_numeral(&mut digits, codepoint, self.radix());
        let mut s = String::new();
        match self {
            Base::Binary => push_padded(&mut s, digits.as_str(), 7, '0'),
            Base::Decimal => push_padded(&mut s, digits.as_str(), 3, ' '),
            Base::Hexadecimal => push_padded(&mut s, digits.as_str(), 2, '0'),
        }
        assert(s@ =~= self.spec_field(codepoint));
        s
    }
}

} // verus!
