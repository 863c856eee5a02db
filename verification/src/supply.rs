//! How many faces an evaluation takes.
//!
//! An evaluation on a roller with a script needs the script to hold enough faces.
//! The functions here walk a list of faces as the evaluator would, without
//! computing any value, and tell how many of the faces it would take, or that
//! they are not enough.
use vstd::prelude::*;
use crate::executor::{
    code_total, dice_total, die_total, factor_total, lemma_dice_fewer, lemma_product_fewer,
    product_total, roll_total, Tally,
};
use crate::grammar::{DieCode, Factor};

verus! {

/// Whether `end` is where a reading that starts at `start` ends: behind the faces
/// that the reading takes, or nowhere if the faces are not enough.
pub open spec fn ends_at(reading: Option<Tally>, start: usize, end: Option<usize>) -> bool {
    match reading {
        Some(tally) => end matches Some(e) && e == start + tally.used,
        None => end is None,
    }
}

/// Where the reading of one roll ends that starts at `start`.
pub fn roll_end(faces: &[u8], start: usize, sides: u8, explode: bool, force_66: bool) -> (end: Option<usize>)
    requires
        start <= faces@.len(),
    ensures
        ends_at(roll_total(faces@.skip(start as int), sides, explode, force_66), start, end),
        end matches Some(e) ==> start < e <= faces@.len(),
{
    let len: usize = faces.len();
    if sides == 66 && !force_66 {
        return if len - start >= 2 {
            Some(start + 2)
        } else {
            None
        };
    }
    let explosive: bool = explode && sides == 6;
    let ghost script = faces@.skip(start as int);
    let mut at: usize = start;
    while at < len && explosive && faces[at] == 6
        invariant
            start <= at <= len,
            len == faces@.len(),
            script == faces@.skip(start as int),
            match die_total(faces@.skip(at as int), sides, explosive) {
                Some(rest) => die_total(script, sides, explosive) matches Some(all) && all.used
                    == (at - start) + rest.used,
                None => die_total(script, sides, explosive) is None,
            },
        decreases len - at,
    {
        assert(faces@.skip(at as int).drop_first() =~= faces@.skip(at + 1));
        at = at + 1;
    }
    if at < len {
        Some(at + 1)
    } else {
        None
    }
}

/// Where the reading of one factor ends that starts at `start`.
pub fn factor_end(faces: &[u8], start: usize, factor: &Factor, explode: bool, force_66: bool) -> (end: Option<usize>)
    requires
        start <= faces@.len(),
    ensures
        ends_at(factor_total(faces@.skip(start as int), *factor, explode, force_66), start, end),
        end matches Some(e) ==> start <= e <= faces@.len(),
{
    let ghost script = faces@.skip(start as int);
    let sides: u8 = factor.sides;
    let count: u8 = factor.repeat.number;
    let mut at: usize = start;
    let mut done: u8 = 0;
    while done < count
        invariant
            sides == factor.sides,
            count == factor.repeat.number,
            done <= count,
            start <= at <= faces@.len(),
            script == faces@.skip(start as int),
            dice_total(script, done as nat, sides, explode, force_66) matches Some(tally)
                && tally.used == at - start,
        decreases count - done,
    {
        assert(script.skip(at - start) =~= faces@.skip(at as int));
        match roll_end(faces, at, sides, explode, force_66) {
            Some(end) => {
                at = end;
            },
            None => {
                proof {
                    assert(dice_total(script, (done + 1) as nat, sides, explode, force_66) is None);
                    if dice_total(script, count as nat, sides, explode, force_66) is Some {
                        lemma_dice_fewer(script, (done + 1) as nat, count as nat, sides, explode, force_66);
                    }
                }
                return None;
            },
        }
        done = done + 1;
    }
    Some(at)
}

/// How many of `faces` an evaluation of `code` takes, or nothing if they are not
/// enough for it.
pub fn faces_needed(code: &DieCode, explode: bool, force_66: bool, faces: &[u8]) -> (needed: Option<usize>)
    ensures
        match code_total(faces@, code@, explode, force_66) {
            Some(tally) => needed matches Some(n) && n == tally.used && n <= faces@.len(),
            None => needed is None,
        },
{
    let explodes: bool = explode || code.directives.explode;
    let ghost factors = code.factors@;
    let mut at: usize = 0;
    let mut done: usize = 0;
    proof {
        assert(factors.take(0) =~= Seq::<Factor>::empty());
    }
    while done < code.factors.len()
        invariant
            explodes == (explode || code.directives.explode),
            factors == code.factors@,
            done <= factors.len(),
            at <= faces@.len(),
            product_total(faces@, factors.take(done as int), explodes, force_66) matches Some(tally)
                && tally.used == at,
        decreases factors.len() - done,
    {
        proof {
            assert(factors.take(done + 1).drop_last() =~= factors.take(done as int));
            assert(factors.take(done + 1).last() == factors[done as int]);
        }
        match factor_end(faces, at, &code.factors[done], explodes, force_66) {
            Some(end) => {
                at = end;
            },
            None => {
                proof {
                    assert(product_total(faces@, factors.take(done + 1), explodes, force_66) is None);
                    if product_total(faces@, factors, explodes, force_66) is Some {
                        lemma_product_fewer(faces@, factors, done + 1, explodes, force_66);
                    }
                }
                return None;
            },
        }
        done = done + 1;
    }
    proof {
        assert(factors.take(done as int) =~= factors);
    }
    Some(at)
}

} // verus!
