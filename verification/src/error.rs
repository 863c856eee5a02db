use vstd::prelude::*;

verus! {

/// Why a run of digits could not be read as an 8-bit number.
#[derive(Debug, Clone, Copy, PartialEq, Eq, Structural)]
pub enum NumberFault {
    /// There was no digit where a number had to stand.
    Empty,
    /// The digits denote a value above 255.
    TooLarge,
}

/// Everything that can go wrong between a dice code and its result.
#[derive(Debug)]
pub enum FourADError {
    /// A given character was expected; the text found in its place is kept.
    UnexpectedChar(char, String),
    /// The input ended inside the text that is kept.
    UnexpectedEndOfString(String),
    /// A number was missing or too large.
    ParseNumberError(NumberFault),
    /// A die was declared with no side or with one side.
    ZeroOrOneSide,
    /// A factor asked for zero dice.
    ZeroRepeats,
    /// A complete dice code was followed by the text that is kept.
    UnexpectedEOL(String),
    /// Any other failure, in words.
    GeneralError(String),
}

pub type Error = FourADError;

/// The mathematical content of a [`FourADError`]: texts are sequences of characters.
pub enum Fault {
    UnexpectedChar(char, Seq<char>),
    UnexpectedEndOfString(Seq<char>),
    ParseNumberError(NumberFault),
    ZeroOrOneSide,
    ZeroRepeats,
    UnexpectedEOL(Seq<char>),
    GeneralError(Seq<char>),
}

impl View for FourADError {
    type V = Fault;

    open spec fn view(&self) -> Fault {
        match self {
            FourADError::UnexpectedChar(c, found) => Fault::UnexpectedChar(*c, found@),
            FourADError::UnexpectedEndOfString(text) => Fault::UnexpectedEndOfString(text@),
            FourADError::ParseNumberError(fault) => Fault::ParseNumberError(*fault),
            FourADError::ZeroOrOneSide => Fault::ZeroOrOneSide,
            FourADError::ZeroRepeats => Fault::ZeroRepeats,
            FourADError::UnexpectedEOL(rest) => Fault::UnexpectedEOL(rest@),
            FourADError::GeneralError(text) => Fault::GeneralError(text@),
        }
    }
}

} // verus!
