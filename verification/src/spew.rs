//! Leveled diagnostics: which messages pass at which level.
//!
//! A message has a priority, and a [`Spew`] has a threshold. The message passes
//! if its priority is not above the threshold. The functions here decide that and
//! hand back the line to emit; printing it is the caller's business.
use vstd::prelude::*;
use crate::error::FourADError;

verus! {

/// How much a run says, from least to most.
#[derive(Debug, Clone, Copy, PartialEq, Eq, PartialOrd, Ord, Structural)]
pub enum SpewLevel {
    QUIET,
    STANDARD,
    VERBOSE,
}

impl SpewLevel {
    /// The place of a level in the order: quiet, standard, verbose.
    pub open spec fn rank(self) -> nat {
        match self {
            SpewLevel::QUIET => 0,
            SpewLevel::STANDARD => 1,
            SpewLevel::VERBOSE => 2,
        }
    }

    /// The place of a level in the order.
    pub fn place(self) -> (place: u8)
        ensures
            place == self.rank(),
    {
        match self {
            SpewLevel::QUIET => 0,
            SpewLevel::STANDARD => 1,
            SpewLevel::VERBOSE => 2,
        }
    }
}

/// A threshold for messages.
pub struct Spew {
    pub level: SpewLevel,
}

impl Spew {
    /// Whether a message of priority `level` passes.
    pub open spec fn admits(&self, level: SpewLevel) -> bool {
        level.rank() <= self.level.rank()
    }

    /// A threshold at the standard level.
    pub fn new() -> (spew: Spew)
        ensures
            spew.level == SpewLevel::STANDARD,
    {
        Spew { level: SpewLevel::STANDARD }
    }

    /// Moves the threshold.
    pub fn set_level(&mut self, level: SpewLevel)
        ensures
            final(self).level == level,
    {
        self.level = level;
    }

    /// The line to emit for a message of priority `level`: the message if it
    /// passes, nothing if it does not.
    pub fn spew_at_level(&self, level: SpewLevel, s: &str) -> (line: Option<String>)
        ensures
            self.admits(level) ==> (line matches Some(text) && text@ == s@),
            !self.admits(level) ==> line is None,
    {
        if level.place() <= self.level.place() {
            Some(s.to_owned())
        } else {
            None
        }
    }
}

/// Moves the threshold of `spew` to `level`.
pub fn set_level(spew: &mut Spew, level: SpewLevel)
    ensures
        final(spew).level == level,
{
    spew.set_level(level)
}

/// The line to emit for a message of standard priority.
pub fn spew_fa(spew: &Spew, s: &str) -> (line: Option<String>)
    ensures
        spew.admits(SpewLevel::STANDARD) ==> (line matches Some(text) && text@ == s@),
        !spew.admits(SpewLevel::STANDARD) ==> line is None,
{
    spew.spew_at_level(SpewLevel::STANDARD, s)
}

/// The line to emit for a message that even a quiet run shows.
pub fn quiet_fa(spew: &Spew, s: &str) -> (line: Option<String>)
    ensures
        line matches Some(text) && text@ == s@,
{
    spew.spew_at_level(SpewLevel::QUIET, s)
}

/// The line to emit for a message that only a verbose run shows.
pub fn verbose_fa(spew: &Spew, s: &str) -> (line: Option<String>)
    ensures
        spew.level == SpewLevel::VERBOSE ==> (line matches Some(text) && text@ == s@),
        spew.level != SpewLevel::VERBOSE ==> line is None,
{
    spew.spew_at_level(SpewLevel::VERBOSE, s)
}

/// Sets the threshold from the two switches of a run: quiet, verbose, or neither
/// for the standard level. Both at once is a fault, and the threshold stays.
pub fn set_spew_level(spew: &mut Spew, quiet: bool, verbose: bool) -> (out: Result<(), FourADError>)
    ensures
        quiet && verbose ==> (out matches Err(FourADError::GeneralError(text)) && text@
            == "--quiet and --verbose are not compatible."@) && final(spew).level == old(
            spew,
        ).level,
        !(quiet && verbose) ==> out is Ok && final(spew).level == level_for(quiet, verbose),
{
    if quiet && verbose {
        return Err(
            FourADError::GeneralError("--quiet and --verbose are not compatible.".to_owned()),
        );
    }
    let level = if quiet {
        SpewLevel::QUIET
    } else if verbose {
        SpewLevel::VERBOSE
    } else {
        SpewLevel::STANDARD
    };
    spew.set_level(level);
    Ok(())
}

/// The level that the switches ask for when they do not contradict each other.
pub open spec fn level_for(quiet: bool, verbose: bool) -> SpewLevel {
    if quiet {
        SpewLevel::QUIET
    } else if verbose {
        SpewLevel::VERBOSE
    } else {
        SpewLevel::STANDARD
    }
}

} // verus!
