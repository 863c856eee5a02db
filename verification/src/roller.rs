//! Where the faces of the dice come from.
//!
//! A [`Roller`] shows one face at a time. The evaluator draws every face through
//! it, so that a run can use random dice or play back faces that were fixed in
//! advance.
use vstd::prelude::*;
use vstd::slice::slice_subrange;
use crate::executor::code_total;
use crate::grammar::DieCode;
use crate::supply::faces_needed;

verus! {

/// A source of die faces.
///
/// An implementation needs `roll` alone. What it then says of itself is the
/// least: that it never runs dry, and nothing of the faces it shows.
pub trait Roller {
    /// What is known ahead of the faces to come. `Some(script)` stands for a
    /// roller that shows the faces of `script` in order and has nothing after
    /// them. `None` stands for a roller that never runs dry and whose faces are
    /// not fixed in advance.
    open spec fn upcoming(&self) -> Option<Seq<u8>> {
        None
    }

    /// Whether every face that the roller shows lies on the die it is asked for:
    /// from one to the number of sides.
    open spec fn fair(&self) -> bool {
        false
    }

    /// Shows the next face, for a die of `sides` sides. A roller with a script
    /// must have a face left, and shows the first one whatever `sides` is. A
    /// script is a list held in memory, so its length is a `usize`.
    fn roll(&mut self, sides: u8) -> (face: u8)
        requires
            sides >= 1,
            old(self).upcoming() matches Some(script) ==> script.len() > 0,
        ensures
            match old(self).upcoming() {
                Some(script) => {
                    &&& script.len() <= usize::MAX
                    &&& face == script[0]
                    &&& final(self).upcoming() == Some(script.drop_first())
                },
                None => final(self).upcoming() is None,
            },
            old(self).fair() ==> 1 <= face <= sides && final(self).fair(),
    ;
}

/// A roller that shows the same face every time.
pub struct ConstRoller {
    value: u8,
}

impl ConstRoller {
    /// The face that every roll shows.
    pub closed spec fn face(&self) -> u8 {
        self.value
    }

    /// A roller that always shows `value`.
    pub fn new(value: u8) -> (roller: ConstRoller)
        ensures
            roller.face() == value,
    {
        ConstRoller { value }
    }
}

impl Roller for ConstRoller {
    open spec fn upcoming(&self) -> Option<Seq<u8>> {
        None
    }

    open spec fn fair(&self) -> bool {
        false
    }

    fn roll(&mut self, sides: u8) -> (face: u8)
        ensures
            face == old(self).face(),
            final(self).face() == old(self).face(),
    {
        self.value
    }
}

/// A roller that plays back the faces it was made with, in order.
pub struct IterRoller {
    faces: Vec<u8>,
    at: usize,
}

impl IterRoller {
    /// The faces that have not been shown yet.
    pub closed spec fn script(&self) -> Seq<u8> {
        if self.at <= self.faces.len() {
            self.faces@.skip(self.at as int)
        } else {
            Seq::empty()
        }
    }

    /// A roller that will show `faces`, first to last.
    pub fn new(faces: Vec<u8>) -> (roller: IterRoller)
        ensures
            roller.script() == faces@,
    {
        IterRoller { faces, at: 0 }
    }

    /// How many faces are left.
    pub fn remaining(&self) -> (n: usize)
        ensures
            n == self.script().len(),
    {
        if self.at <= self.faces.len() {
            self.faces.len() - self.at
        } else {
            0
        }
    }

    /// Whether the faces that are left are enough for an evaluation of `code`.
    pub fn suffices(&self, code: &DieCode, explode: bool, force_66: bool) -> (enough: bool)
        ensures
            enough == (code_total(self.script(), code@, explode, force_66) is Some),
    {
        let all: &[u8] = self.faces.as_slice();
        let start: usize = if self.at <= all.len() {
            self.at
        } else {
            all.len()
        };
        let rest: &[u8] = slice_subrange(all, start, all.len());
        assert(rest@ =~= self.script());
        faces_needed(code, explode, force_66, rest).is_some()
    }
}

impl Roller for IterRoller {
    open spec fn upcoming(&self) -> Option<Seq<u8>> {
        Some(self.script())
    }

    open spec fn fair(&self) -> bool {
        false
    }

    fn roll(&mut self, sides: u8) -> (face: u8)
        ensures
            face == old(self).script()[0],
            final(self).script() == old(self).script().drop_first(),
    {
        let face: u8 = self.faces[self.at];
        self.at = self.at + 1;
        assert(self.faces@.skip(self.at as int) =~= old(self).faces@.skip(old(self).at as int).drop_first());
        face
    }
}

/// A roller of random dice: every face of a die is as likely as any other.
pub struct RandRoller {
    rng: rand::rngs::ThreadRng,
}

/// The random number generator of the current thread, from the `rand` crate.
#[verifier::external_type_specification]
#[verifier::external_body]
pub struct ExThreadRng(rand::rngs::ThreadRng);

/// Hands out the thread's generator, with `rand::thread_rng`. Nothing is claimed
/// of the generator.
#[verifier::external_body]
fn thread_generator() -> rand::rngs::ThreadRng {
    rand::thread_rng()
}

/// Draws a face with `Rng::gen_range` on the range from 1 to `sides`. The range
/// must not be empty, and what is drawn lies in it.
#[verifier::external_body]
fn random_face(rng: &mut rand::rngs::ThreadRng, sides: u8) -> (face: u8)
    requires
        sides >= 1,
    ensures
        1 <= face <= sides,
{
    rand::Rng::gen_range(rng, 1..=sides)
}

impl Default for RandRoller {
    /// A roller on the generator of the current thread.
    fn default() -> (roller: RandRoller) {
        RandRoller { rng: thread_generator() }
    }
}

impl Roller for RandRoller {
    open spec fn upcoming(&self) -> Option<Seq<u8>> {
        None
    }

    open spec fn fair(&self) -> bool {
        true
    }

    fn roll(&mut self, sides: u8) -> (face: u8)
        ensures
            1 <= face <= sides,
    {
        random_face(&mut self.rng, sides)
    }
}

/// A roller that hands on the faces of another roller and keeps a record of them,
/// for a caller that wants to tell afterwards what was rolled.
pub struct TracingRoller<R: Roller> {
    inner: R,
    trace: Vec<u8>,
}

impl<R: Roller> TracingRoller<R> {
    /// The roller whose faces are handed on.
    pub closed spec fn inner(&self) -> R {
        self.inner
    }

    /// The faces handed on so far, first to last.
    pub closed spec fn seen(&self) -> Seq<u8> {
        self.trace@
    }

    /// A record around `inner`, with nothing seen yet.
    pub fn new(inner: R) -> (roller: TracingRoller<R>)
        ensures
            roller.inner() == inner,
            roller.seen() == Seq::<u8>::empty(),
    {
        TracingRoller { inner, trace: Vec::new() }
    }

    /// The faces handed on so far, first to last.
    pub fn faces(&self) -> (faces: &Vec<u8>)
        ensures
            faces@ == self.seen(),
    {
        &self.trace
    }
}

impl<R: Roller> Roller for TracingRoller<R> {
    open spec fn upcoming(&self) -> Option<Seq<u8>> {
        self.inner().upcoming()
    }

    open spec fn fair(&self) -> bool {
        self.inner().fair()
    }

    fn roll(&mut self, sides: u8) -> (face: u8)
        ensures
            final(self).seen() == old(self).seen().push(face),
    {
        let face: u8 = self.inner.roll(sides);
        self.trace.push(face);
        face
    }
}

} // verus!
