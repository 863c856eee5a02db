//! A roller of dice codes such as `2d6+3`, `d6xd6`, `d66` and `3d12-3E`.
//!
//! A code is parsed into a [`DieCode`] by [`parse_diecode`] and evaluated by
//! [`execute_with_roller`] on the faces that a [`Roller`] gives; [`roll`] does
//! both with random dice.
use vstd::prelude::*;
use crate::executor::can_be_worth;
use crate::grammar::{diecode_spec, trimmed};

pub mod error;
pub mod executor;
pub mod grammar;
pub mod laws;
pub mod narrow;
pub mod notation;
pub mod play;
pub mod roller;
pub mod spew;
pub mod supply;

pub use crate::error::{Error, Fault, FourADError, NumberFault};
pub use crate::executor::{execute, execute_with_roller, Executor};
pub use crate::grammar::{parse_diecode, DieCode, Directives, Factor, Modifier, Repeat};
pub use crate::play::{if_some, if_some_with};
pub use crate::roller::{ConstRoller, IterRoller, RandRoller, Roller, TracingRoller};
pub use crate::spew::{quiet_fa, set_level, set_spew_level, spew_fa, verbose_fa, Spew, SpewLevel};

verus! {

/// Whether `out` can be what [`roll`] returns for the text `diecode`: the parser's
/// fault where the text is no dice code, and else the value of a complete run of
/// faces.
pub open spec fn rolls_to(diecode: Seq<char>, explode: bool, force_66: bool, out: Result<i16, FourADError>) -> bool {
    match diecode_spec(trimmed(diecode)) {
        Ok(code) => out is Ok && can_be_worth(code, explode, force_66, out->Ok_0),
        Err(fault) => out is Err && out->Err_0@ == fault,
    }
}

/// Parses `diecode` and evaluates it with random dice.
///
/// A text that is no dice code gives the parser's fault. For a dice code the
/// result is the value of a complete run of faces, whatever the dice showed.
pub fn roll(diecode: &str, explode: bool, force_66: bool) -> (out: Result<i16, FourADError>)
    ensures
        rolls_to(diecode@, explode, force_66, out),
{
    match parse_diecode(diecode) {
        Ok(code) => {
            Ok(execute(code, explode, force_66))
        },
        Err(error) => Err(error),
    }
}

} // verus!
