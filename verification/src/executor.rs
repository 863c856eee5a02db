//! The evaluator: what a dice code is worth, given the faces that the dice show.
//!
//! The worth of a code is defined on a sequence of faces, by the spec functions
//! below: each reads the faces it needs from the front of the sequence and tells
//! the value it came to and how many faces it took. The executable functions draw
//! those faces from a [`Roller`], one at a time, and are proved to return the
//! value that the spec functions give for the faces drawn.
use vstd::prelude::*;
use crate::grammar::{DieCode, DieCodeView, Factor, Modifier};
use crate::narrow::{add16, lemma_narrow_add, lemma_narrow_mul, mul16, narrow};
use crate::roller::{RandRoller, Roller};

verus! {

/// What a reading of faces came to, how many faces it took, and whether each of
/// them lies on its die: from one to the number of sides.
pub struct Tally {
    pub value: int,
    pub used: nat,
    pub fair: bool,
}

/// Whether a die of `sides` sides can show `face`.
pub open spec fn on_die(face: u8, sides: u8) -> bool {
    1 <= face <= sides
}

/// One die. It shows the first face. Where the die is explosive and the face is a
/// six, the die is rolled again and the next reading is added, for as long as a
/// six comes up. `None` where the faces run out first.
pub open spec fn die_total(faces: Seq<u8>, sides: u8, explosive: bool) -> Option<Tally>
    decreases faces.len(),
{
    if faces.len() == 0 {
        None
    } else if explosive && faces[0] == 6 {
        match die_total(faces.drop_first(), sides, explosive) {
            Some(rest) => Some(
                Tally {
                    value: 6 + rest.value,
                    used: 1 + rest.used,
                    fair: on_die(6, sides) && rest.fair,
                },
            ),
            None => None,
        }
    } else {
        Some(Tally { value: faces[0] as int, used: 1, fair: on_die(faces[0], sides) })
    }
}

/// The double die: two faces read as the tens and the units of one number.
pub open spec fn d66_total(faces: Seq<u8>) -> Option<Tally> {
    if faces.len() < 2 {
        None
    } else {
        Some(
            Tally {
                value: faces[0] * 10 + faces[1],
                used: 2,
                fair: on_die(faces[0], 6) && on_die(faces[1], 6),
            },
        )
    }
}

/// One roll of a die of `sides` sides. Sixty-six sides stand for the double die
/// unless `force_66` says otherwise; only a six-sided die can explode.
pub open spec fn roll_total(faces: Seq<u8>, sides: u8, explode: bool, force_66: bool) -> Option<
    Tally,
> {
    if sides == 66 && !force_66 {
        d66_total(faces)
    } else {
        die_total(faces, sides, explode && sides == 6)
    }
}

/// The sum of `count` rolls: the first `count - 1` of them, then one more on the
/// faces that those left.
pub open spec fn dice_total(
    faces: Seq<u8>,
    count: nat,
    sides: u8,
    explode: bool,
    force_66: bool,
) -> Option<Tally>
    decreases count,
{
    if count == 0 {
        Some(Tally { value: 0, used: 0, fair: true })
    } else {
        match dice_total(faces, (count - 1) as nat, sides, explode, force_66) {
            Some(before) => match roll_total(faces.skip(before.used as int), sides, explode, force_66) {
                Some(last) => Some(
                    Tally {
                        value: before.value + last.value,
                        used: before.used + last.used,
                        fair: before.fair && last.fair,
                    },
                ),
                None => None,
            },
            None => None,
        }
    }
}

/// A sum of dice with the modifier applied.
pub open spec fn modified(modifier: Modifier, unmodified: int) -> int {
    match modifier {
        Modifier::Nothing => unmodified,
        Modifier::Plus(operand) => unmodified + operand,
        Modifier::Minus(operand) => unmodified - operand,
    }
}

/// One factor: its dice summed, then its modifier.
pub open spec fn factor_total(faces: Seq<u8>, factor: Factor, explode: bool, force_66: bool) -> Option<
    Tally,
> {
    match dice_total(faces, factor.repeat.number as nat, factor.sides, explode, force_66) {
        Some(dice) => Some(
            Tally { value: modified(factor.modifier, dice.value), used: dice.used, fair: dice.fair },
        ),
        None => None,
    }
}

/// The product of the factors: all but the last, then the last on the faces that
/// those left. No factor at all is worth one.
pub open spec fn product_total(
    faces: Seq<u8>,
    factors: Seq<Factor>,
    explode: bool,
    force_66: bool,
) -> Option<Tally>
    decreases factors.len(),
{
    if factors.len() == 0 {
        Some(Tally { value: 1, used: 0, fair: true })
    } else {
        match product_total(faces, factors.drop_last(), explode, force_66) {
            Some(before) => match factor_total(
                faces.skip(before.used as int),
                factors.last(),
                explode,
                force_66,
            ) {
                Some(last) => Some(
                    Tally {
                        value: before.value * last.value,
                        used: before.used + last.used,
                        fair: before.fair && last.fair,
                    },
                ),
                None => None,
            },
            None => None,
        }
    }
}

/// A dice code: the product of its factors. Dice explode where the caller asks
/// for it or the code does.
pub open spec fn code_total(faces: Seq<u8>, code: DieCodeView, explode: bool, force_66: bool) -> Option<
    Tally,
> {
    product_total(faces, code.factors, explode || code.directives.explode, force_66)
}

/// Sixes that are followed by a face that ends the run make one reading of a die.
pub proof fn lemma_die_run(sixes: Seq<u8>, last: u8, sides: u8, explosive: bool)
    requires
        forall|i: int| 0 <= i < sixes.len() ==> sixes[i] == 6,
        sixes.len() > 0 ==> explosive,
        !(explosive && last == 6),
    ensures
        die_total(sixes.push(last), sides, explosive) == Some(
            Tally {
                value: 6 * sixes.len() + last,
                used: sixes.len() + 1,
                fair: (sixes.len() > 0 ==> on_die(6, sides)) && on_die(last, sides),
            },
        ),
    decreases sixes.len(),
{
    if sixes.len() > 0 {
        assert(sixes.push(last).drop_first() =~= sixes.drop_first().push(last));
        lemma_die_run(sixes.drop_first(), last, sides, explosive);
    }
}

/// A reading of a die that has seen nothing but sixes so far needs one more face.
pub proof fn lemma_die_needs_more(faces: Seq<u8>, sixes: nat, sides: u8, explosive: bool)
    requires
        sixes <= faces.len(),
        forall|i: int| 0 <= i < sixes ==> faces[i] == 6,
        sixes > 0 ==> explosive,
        die_total(faces, sides, explosive) is Some,
    ensures
        sixes < faces.len(),
    decreases sixes,
{
    if sixes > 0 {
        lemma_die_needs_more(faces.drop_first(), (sixes - 1) as nat, sides, explosive);
    }
}

/// A reading of a die takes faces from the front only: more faces behind them
/// change nothing.
pub proof fn lemma_die_extends(faces: Seq<u8>, more: Seq<u8>, sides: u8, explosive: bool)
    requires
        die_total(faces, sides, explosive) is Some,
    ensures
        die_total(faces + more, sides, explosive) == die_total(faces, sides, explosive),
        die_total(faces, sides, explosive)->0.used <= faces.len(),
    decreases faces.len(),
{
    if explosive && faces[0] == 6 {
        assert((faces + more).drop_first() =~= faces.drop_first() + more);
        lemma_die_extends(faces.drop_first(), more, sides, explosive);
    }
}

/// A roll takes faces from the front only.
pub proof fn lemma_roll_extends(faces: Seq<u8>, more: Seq<u8>, sides: u8, explode: bool, force_66: bool)
    requires
        roll_total(faces, sides, explode, force_66) is Some,
    ensures
        roll_total(faces + more, sides, explode, force_66) == roll_total(
            faces,
            sides,
            explode,
            force_66,
        ),
        roll_total(faces, sides, explode, force_66)->0.used <= faces.len(),
{
    if sides == 66 && !force_66 {
    } else {
        lemma_die_extends(faces, more, sides, explode && sides == 6);
    }
}

/// A sum of dice takes faces from the front only.
pub proof fn lemma_dice_extends(
    faces: Seq<u8>,
    more: Seq<u8>,
    count: nat,
    sides: u8,
    explode: bool,
    force_66: bool,
)
    requires
        dice_total(faces, count, sides, explode, force_66) is Some,
    ensures
        dice_total(faces + more, count, sides, explode, force_66) == dice_total(
            faces,
            count,
            sides,
            explode,
            force_66,
        ),
        dice_total(faces, count, sides, explode, force_66)->0.used <= faces.len(),
    decreases count,
{
    if count > 0 {
        let fewer = (count - 1) as nat;
        lemma_dice_extends(faces, more, fewer, sides, explode, force_66);
        let before = dice_total(faces, fewer, sides, explode, force_66)->0;
        assert((faces + more).skip(before.used as int) =~= faces.skip(before.used as int) + more);
        lemma_roll_extends(faces.skip(before.used as int), more, sides, explode, force_66);
    }
}

/// A factor takes faces from the front only.
pub proof fn lemma_factor_extends(
    faces: Seq<u8>,
    more: Seq<u8>,
    factor: Factor,
    explode: bool,
    force_66: bool,
)
    requires
        factor_total(faces, factor, explode, force_66) is Some,
    ensures
        factor_total(faces + more, factor, explode, force_66) == factor_total(
            faces,
            factor,
            explode,
            force_66,
        ),
        factor_total(faces, factor, explode, force_66)->0.used <= faces.len(),
{
    lemma_dice_extends(faces, more, factor.repeat.number as nat, factor.sides, explode, force_66);
}

/// A product of factors takes faces from the front only.
pub proof fn lemma_product_extends(
    faces: Seq<u8>,
    more: Seq<u8>,
    factors: Seq<Factor>,
    explode: bool,
    force_66: bool,
)
    requires
        product_total(faces, factors, explode, force_66) is Some,
    ensures
        product_total(faces + more, factors, explode, force_66) == product_total(
            faces,
            factors,
            explode,
            force_66,
        ),
        product_total(faces, factors, explode, force_66)->0.used <= faces.len(),
    decreases factors.len(),
{
    if factors.len() > 0 {
        lemma_product_extends(faces, more, factors.drop_last(), explode, force_66);
        let before = product_total(faces, factors.drop_last(), explode, force_66)->0;
        assert((faces + more).skip(before.used as int) =~= faces.skip(before.used as int) + more);
        lemma_factor_extends(faces.skip(before.used as int), more, factors.last(), explode, force_66);
    }
}

/// Faces that are enough for `count` dice are enough for fewer.
pub proof fn lemma_dice_fewer(
    faces: Seq<u8>,
    fewer: nat,
    count: nat,
    sides: u8,
    explode: bool,
    force_66: bool,
)
    requires
        fewer <= count,
        dice_total(faces, count, sides, explode, force_66) is Some,
    ensures
        dice_total(faces, fewer, sides, explode, force_66) is Some,
    decreases count,
{
    if fewer < count {
        lemma_dice_fewer(faces, fewer, (count - 1) as nat, sides, explode, force_66);
    }
}

/// Faces that are enough for all the factors are enough for the first ones.
pub proof fn lemma_product_fewer(
    faces: Seq<u8>,
    factors: Seq<Factor>,
    fewer: int,
    explode: bool,
    force_66: bool,
)
    requires
        0 <= fewer <= factors.len(),
        product_total(faces, factors, explode, force_66) is Some,
    ensures
        product_total(faces, factors.take(fewer), explode, force_66) is Some,
    decreases factors.len(),
{
    if fewer < factors.len() {
        assert(factors.drop_last().take(fewer) =~= factors.take(fewer));
        lemma_product_fewer(faces, factors.drop_last(), fewer, explode, force_66);
    } else {
        assert(factors.take(fewer) =~= factors);
    }
}

/// Whether `got` can be the faces that a roller gave on its way from `before` to
/// `after`. Of a roller with a script this says that `got` is the front of the
/// script and that the rest of the script is still to come.
pub open spec fn drew<R: Roller>(before: &R, after: &R, got: Seq<u8>) -> bool {
    &&& before.fair() ==> after.fair()
    &&& match before.upcoming() {
        Some(script) => {
            &&& got.len() <= script.len()
            &&& got == script.take(got.len() as int)
            &&& after.upcoming() == Some(script.skip(got.len() as int))
        },
        None => after.upcoming() is None,
    }
}

/// Whether `reading` is a complete reading of exactly the faces `got`, with a
/// value that narrows to `out`; and, where the faces came from a fair roller,
/// whether each of them lies on its die.
pub open spec fn comes_to(reading: Option<Tally>, got: Seq<u8>, out: i16, fair: bool) -> bool {
    &&& reading is Some
    &&& reading->0.used == got.len()
    &&& out == narrow(reading->0.value)
    &&& fair ==> reading->0.fair
}

/// A roller that was not asked drew nothing.
pub proof fn lemma_drew_nothing<R: Roller>(roller: &R)
    ensures
        drew(roller, roller, Seq::empty()),
{
    if let Some(script) = roller.upcoming() {
        assert(script.take(0) =~= Seq::empty());
        assert(script.skip(0) =~= script);
    }
}

/// Faces drawn one stretch after another are drawn as one stretch.
pub proof fn lemma_drew_twice<R: Roller>(before: &R, between: &R, after: &R, first: Seq<u8>, second: Seq<u8>)
    requires
        drew(before, between, first),
        drew(between, after, second),
    ensures
        drew(before, after, first + second),
{
    if let Some(script) = before.upcoming() {
        let all = first + second;
        let rest = script.skip(first.len() as int);
        assert(all =~= script.take(all.len() as int)) by {
            assert forall|i: int| 0 <= i < all.len() implies all[i] == script[i] by {
                if i >= first.len() {
                    assert(second[i - first.len()] == rest.take(second.len() as int)[i - first.len()]);
                } else {
                    assert(first[i] == script.take(first.len() as int)[i]);
                }
            }
        }
        assert(rest.skip(second.len() as int) =~= script.skip(all.len() as int));
    }
}

/// One evaluation: the code, and what the caller asked for.
pub struct Executor {
    pub code: DieCode,
    pub explode: bool,
    pub force_66: bool,
}

impl Executor {
    /// Whether six-sided dice explode: the caller can ask for it, and so can the code.
    pub open spec fn explodes(&self) -> bool {
        self.explode || self.code.directives.explode
    }

    /// Whether six-sided dice explode.
    pub fn explode(&self) -> (explode: bool)
        ensures
            explode == self.explodes(),
    {
        self.explode || self.code.directives.explode
    }

    /// Applies a modifier to a sum of dice.
    pub fn modify(&self, modifier: &Modifier, unmodified: i16) -> (out: i16)
        ensures
            out == narrow(modified(*modifier, unmodified as int)),
    {
        match modifier {
            Modifier::Nothing => unmodified,
            Modifier::Plus(operand) => add16(unmodified, *operand as i16),
            Modifier::Minus(operand) => add16(unmodified, -(*operand as i16)),
        }
    }

    /// Rolls the double die: two six-sided dice that never explode, read as tens
    /// and units.
    pub fn roll_d66<R: Roller>(&self, roller: &mut R) -> (out: i16)
        requires
            old(roller).upcoming() matches Some(script) ==> d66_total(script) is Some,
        ensures
            exists|got: Seq<u8>| #[trigger]
                drew(old(roller), final(roller), got) && comes_to(
                    d66_total(got),
                    got,
                    out,
                    old(roller).fair(),
                ),
        decreases 1nat,
    {
        let tens: i16 = self.roll(6, false, roller);
        let ghost between = *roller;
        let ghost first = choose|got: Seq<u8>| #[trigger]
            drew(old(roller), &between, got) && comes_to(
                roll_total(got, 6, false, self.force_66),
                got,
                tens,
                old(roller).fair(),
            );
        let units: i16 = self.roll(6, false, roller);
        let ghost second = choose|got: Seq<u8>| #[trigger]
            drew(&between, roller, got) && comes_to(
                roll_total(got, 6, false, self.force_66),
                got,
                units,
                between.fair(),
            );
        proof {
            lemma_drew_twice(old(roller), &between, roller, first, second);
            assert(first.len() == 1 && second.len() == 1);
            assert((first + second)[0] == first[0] && (first + second)[1] == second[0]);
        }
        tens * 10 + units
    }

    /// Rolls one die of `sides` sides and returns what it shows. A six-sided die
    /// that may explode is rolled again on every six, and all its faces count.
    ///
    /// A run of sixes is followed for `usize::MAX` faces; a roller without a
    /// script that has shown so many is not asked again, and the run counts as
    /// ended by a one.
    pub fn roll<R: Roller>(&self, sides: u8, explode: bool, roller: &mut R) -> (out: i16)
        requires
            sides >= 1,
            old(roller).upcoming() matches Some(script) ==> roll_total(
                script,
                sides,
                explode,
                self.force_66,
            ) is Some,
        ensures
            exists|got: Seq<u8>| #[trigger]
                drew(old(roller), final(roller), got) && comes_to(
                    roll_total(got, sides, explode, self.force_66),
                    got,
                    out,
                    old(roller).fair(),
                ),
        decreases
                (if sides == 66 && !self.force_66 {
                    2nat
                } else {
                    0nat
                }),
    {
        if sides == 66 && !self.force_66 {
            return self.roll_d66(roller);
        }
        let explosive: bool = explode && sides == 6;
        let mut total: i16 = 0;
        let mut count: usize = 0;
        let ghost mut got: Seq<u8> = Seq::empty();
        proof {
            lemma_drew_nothing(roller);
        }
        loop
            invariant
                sides >= 1,
                explosive == (explode && sides == 6),
                !(sides == 66 && !self.force_66),
                got.len() == count,
                forall|i: int| 0 <= i < got.len() ==> got[i] == 6,
                count > 0 ==> explosive,
                total == narrow(6 * count),
                drew(old(roller), roller, got),
                old(roller).upcoming() matches Some(script) ==> die_total(
                    script,
                    sides,
                    explosive,
                ) is Some,
                count > 0 ==> (old(roller).upcoming() matches Some(script) ==> script.len()
                    <= usize::MAX),
            decreases usize::MAX - count,
        {
            proof {
                if let Some(script) = old(roller).upcoming() {
                    assert forall|i: int| 0 <= i < count implies script[i] == 6 by {
                        assert(script[i] == script.take(got.len() as int)[i]);
                    }
                    lemma_die_needs_more(script, count as nat, sides, explosive);
                }
            }
            if count == usize::MAX {
                proof {
                    lemma_die_run(got, 1, sides, explosive);
                    lemma_narrow_add(6 * count, 1);
                    assert(drew(old(roller), roller, got.push(1)));
                }
                return add16(total, 1);
            }
            let face: u8 = roller.roll(sides);
            proof {
                if let Some(script) = old(roller).upcoming() {
                    assert(got.push(face) =~= script.take(count + 1));
                    assert(script.skip(count as int).drop_first() =~= script.skip(count + 1));
                }
                assert(drew(old(roller), roller, got.push(face)));
            }
            if explosive && face == 6 {
                proof {
                    lemma_narrow_add(6 * count, 6);
                    got = got.push(face);
                }
                total = add16(total, 6);
                count = count + 1;
            } else {
                proof {
                    lemma_die_run(got, face, sides, explosive);
                    lemma_narrow_add(6 * count, face as int);
                }
                return add16(total, face as i16);
            }
        }
    }

    /// Rolls the dice of one factor, sums them and applies the modifier.
    pub fn execute_factor<R: Roller>(&self, factor: &Factor, roller: &mut R) -> (out: i16)
        requires
            factor.wf(),
            old(roller).upcoming() matches Some(script) ==> factor_total(
                script,
                *factor,
                self.explodes(),
                self.force_66,
            ) is Some,
        ensures
            exists|got: Seq<u8>| #[trigger]
                drew(old(roller), final(roller), got) && comes_to(
                    factor_total(got, *factor, self.explodes(), self.force_66),
                    got,
                    out,
                    old(roller).fair(),
                ),
    {
        let explode: bool = self.explode();
        let sides: u8 = factor.sides;
        let count: u8 = factor.repeat.number;
        let mut total: i16 = 0;
        let mut done: u8 = 0;
        let ghost mut got: Seq<u8> = Seq::empty();
        let ghost mut sum: int = 0;
        let ghost mut fair: bool = true;
        proof {
            lemma_drew_nothing(roller);
        }
        while done < count
            invariant
                sides >= 1,
                done <= count,
                drew(old(roller), roller, got),
                dice_total(got, done as nat, sides, explode, self.force_66) == Some(
                    Tally { value: sum, used: got.len(), fair },
                ),
                old(roller).fair() ==> fair,
                total == narrow(sum),
                old(roller).upcoming() matches Some(script) ==> dice_total(
                    script,
                    count as nat,
                    sides,
                    explode,
                    self.force_66,
                ) is Some,
            decreases count - done,
        {
            proof {
                if let Some(script) = old(roller).upcoming() {
                    let rest = script.skip(got.len() as int);
                    assert(script =~= got + rest);
                    lemma_dice_extends(got, rest, done as nat, sides, explode, self.force_66);
                    lemma_dice_fewer(script, (done + 1) as nat, count as nat, sides, explode, self.force_66);
                }
            }
            let ghost before = *roller;
            let rolled: i16 = self.roll(sides, explode, roller);
            proof {
                let more = choose|more: Seq<u8>| #[trigger]
                    drew(&before, roller, more) && comes_to(
                        roll_total(more, sides, explode, self.force_66),
                        more,
                        rolled,
                        before.fair(),
                    );
                let last = roll_total(more, sides, explode, self.force_66)->0;
                lemma_drew_twice(old(roller), &before, roller, got, more);
                lemma_dice_extends(got, more, done as nat, sides, explode, self.force_66);
                assert((got + more).skip(got.len() as int) =~= more);
                lemma_narrow_add(sum, last.value);
                got = got + more;
                sum = sum + last.value;
                fair = fair && last.fair;
            }
            total = add16(total, rolled);
            done = done + 1;
        }
        self.modify(&factor.modifier, total)
    }

    /// Evaluates the code: the product of its factors.
    pub fn execute<R: Roller>(&self, roller: &mut R) -> (out: i16)
        requires
            self.code.wf(),
            old(roller).upcoming() matches Some(script) ==> code_total(
                script,
                self.code@,
                self.explode,
                self.force_66,
            ) is Some,
        ensures
            exists|got: Seq<u8>| #[trigger]
                drew(old(roller), final(roller), got) && comes_to(
                    code_total(got, self.code@, self.explode, self.force_66),
                    got,
                    out,
                    old(roller).fair(),
                ),
    {
        let ghost factors = self.code.factors@;
        let ghost explode = self.explodes();
        let mut product: i16 = 1;
        let mut done: usize = 0;
        let ghost mut got: Seq<u8> = Seq::empty();
        let ghost mut value: int = 1;
        let ghost mut fair: bool = true;
        proof {
            lemma_drew_nothing(roller);
            assert(factors.take(0) =~= Seq::empty());
        }
        while done < self.code.factors.len()
            invariant
                self.code.wf(),
                factors == self.code.factors@,
                explode == self.explodes(),
                done <= factors.len(),
                drew(old(roller), roller, got),
                product_total(got, factors.take(done as int), explode, self.force_66) == Some(
                    Tally { value, used: got.len(), fair },
                ),
                old(roller).fair() ==> fair,
                product == narrow(value),
                old(roller).upcoming() matches Some(script) ==> product_total(
                    script,
                    factors,
                    explode,
                    self.force_66,
                ) is Some,
            decreases factors.len() - done,
        {
            let factor: &Factor = &self.code.factors[done];
            proof {
                assert(factors.take(done + 1).drop_last() =~= factors.take(done as int));
                assert(factors.take(done + 1).last() == factors[done as int]);
                if let Some(script) = old(roller).upcoming() {
                    let rest = script.skip(got.len() as int);
                    assert(script =~= got + rest);
                    lemma_product_extends(got, rest, factors.take(done as int), explode, self.force_66);
                    lemma_product_fewer(script, factors, done + 1, explode, self.force_66);
                }
            }
            let ghost before = *roller;
            let worth: i16 = self.execute_factor(factor, roller);
            proof {
                let more = choose|more: Seq<u8>| #[trigger]
                    drew(&before, roller, more) && comes_to(
                        factor_total(more, *factor, explode, self.force_66),
                        more,
                        worth,
                        before.fair(),
                    );
                let last = factor_total(more, *factor, explode, self.force_66)->0;
                lemma_drew_twice(old(roller), &before, roller, got, more);
                lemma_product_extends(got, more, factors.take(done as int), explode, self.force_66);
                assert((got + more).skip(got.len() as int) =~= more);
                lemma_narrow_mul(value, last.value);
                got = got + more;
                value = value * last.value;
                fair = fair && last.fair;
            }
            product = mul16(product, worth);
            done = done + 1;
        }
        proof {
            assert(factors.take(done as int) =~= factors);
        }
        product
    }
}

/// Evaluates `code` on the faces that `roller` gives: the product of the factors,
/// each the sum of its dice with its modifier, narrowed to 16 bits.
///
/// A roller with a script must hold enough faces. The result is then the value
/// that the script gives, and the roller is left with the faces that were not
/// needed. Of any other roller the result is the value of some complete run of
/// faces, each of them on its die if the roller is fair.
pub fn execute_with_roller<R: Roller>(code: DieCode, explode: bool, force_66: bool, roller: &mut R) -> (out: i16)
    requires
        code.wf(),
        old(roller).upcoming() matches Some(script) ==> code_total(script, code@, explode, force_66) is Some,
    ensures
        exists|got: Seq<u8>| #[trigger]
            drew(old(roller), final(roller), got) && comes_to(
                code_total(got, code@, explode, force_66),
                got,
                out,
                old(roller).fair(),
            ),
        old(roller).upcoming() matches Some(script) ==> {
            let tally = code_total(script, code@, explode, force_66)->0;
            &&& out == narrow(tally.value)
            &&& tally.used <= script.len()
            &&& final(roller).upcoming() == Some(script.skip(tally.used as int))
        },
{
    let ghost view = code@;
    let executor = Executor { code, explode, force_66 };
    let out: i16 = executor.execute(roller);
    proof {
        if let Some(script) = old(roller).upcoming() {
            let got = choose|got: Seq<u8>| #[trigger]
                drew(old(roller), roller, got) && comes_to(
                    code_total(got, view, explode, force_66),
                    got,
                    out,
                    old(roller).fair(),
                );
            let rest = script.skip(got.len() as int);
            assert(script =~= got + rest);
            lemma_product_extends(got, rest, view.factors, explode || view.directives.explode, force_66);
        }
    }
    out
}

/// Whether fair dice can make `code` worth `value`: whether there is a complete
/// run of faces, each on its die, with that value.
pub open spec fn can_be_worth(code: DieCodeView, explode: bool, force_66: bool, value: i16) -> bool {
    exists|got: Seq<u8>| #[trigger]
        comes_to(code_total(got, code, explode, force_66), got, value, true)
}

/// Evaluates `code` with random dice. Whatever the dice show, the result is the
/// value of a complete run of faces that fair dice can show.
pub fn execute(code: DieCode, explode: bool, force_66: bool) -> (out: i16)
    requires
        code.wf(),
    ensures
        can_be_worth(code@, explode, force_66, out),
{
    let mut roller = RandRoller::default();
    let ghost before = roller;
    let out: i16 = execute_with_roller(code, explode, force_66, &mut roller);
    proof {
        let got = choose|got: Seq<u8>| #[trigger]
            drew(&before, &roller, got) && comes_to(
                code_total(got, code@, explode, force_66),
                got,
                out,
                before.fair(),
            );
        assert(comes_to(code_total(got, code@, explode, force_66), got, out, true));
    }
    out
}

} // verus!
