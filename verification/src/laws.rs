//! What holds of every dice code and of every run of faces.
use vstd::prelude::*;
use crate::error::FourADError;
use crate::executor::{
    code_total, d66_total, dice_total, die_total, factor_total, on_die, product_total, roll_total,
    Tally,
};
use crate::grammar::{
    codetail_spec, diecode_spec, factor_spec, lemma_codetail_wf, parses_as, trimmed, DieCode,
    DieCodeView, Factor,
};

verus! {

/// Parsing is a function of the text: whatever the parser returns for a text, it
/// returns the same for the same text, be it a dice code or a fault.
pub proof fn parse_is_deterministic(
    text: Seq<char>,
    first: Result<DieCode, FourADError>,
    second: Result<DieCode, FourADError>,
)
    requires
        parses_as(first, diecode_spec(trimmed(text))),
        parses_as(second, diecode_spec(trimmed(text))),
    ensures
        match (first, second) {
            (Ok(one), Ok(other)) => one@ == other@,
            (Err(one), Err(other)) => one@ == other@,
            _ => false,
        },
{
}

/// Every code that the grammar accepts has at least one factor, no die with
/// fewer than two sides and no factor without dice.
pub proof fn parsed_codes_are_well_formed(text: Seq<char>)
    ensures
        diecode_spec(text) matches Ok(code) ==> code.wf(),
{
    if let Ok((first, rest)) = factor_spec(text) {
        lemma_codetail_wf(rest, seq![first]);
    }
}

/// The factors of a code stand in the order of the text: the first factor of the
/// text is the first factor of the code.
pub proof fn first_factor_comes_first(text: Seq<char>)
    ensures
        diecode_spec(text) matches Ok(code) ==> (factor_spec(text) matches Ok((first, _))
            && code.factors[0] == first),
{
    if let Ok((first, rest)) = factor_spec(text) {
        lemma_codetail_keeps(rest, seq![first]);
        let all = codetail_spec(rest, seq![first]).factors;
        assert(all.take(1)[0] == all[0]);
    }
}

/// The tail of a code adds factors behind those it was given and changes none.
pub proof fn lemma_codetail_keeps(text: Seq<char>, factors: Seq<Factor>)
    ensures
        codetail_spec(text, factors).factors.len() >= factors.len(),
        codetail_spec(text, factors).factors.take(factors.len() as int) == factors,
    decreases text.len(),
{
    let all = codetail_spec(text, factors).factors;
    if text.len() > 0 && text[0] == 'x' {
        crate::grammar::lemma_factor_rest(text.skip(1));
        if let Ok((factor, rest)) = factor_spec(text.skip(1)) {
            lemma_codetail_keeps(rest, factors.push(factor));
            assert(all.take(factors.len() as int) =~= all.take(factors.len() as int + 1).take(
                factors.len() as int,
            ));
            assert(factors.push(factor).take(factors.len() as int) =~= factors);
        } else {
            assert(all.take(factors.len() as int) =~= factors);
        }
    } else {
        assert(all.take(factors.len() as int) =~= factors);
    }
}

/// A die that cannot explode shows one face and is worth that face.
pub proof fn plain_die_is_its_face(faces: Seq<u8>, sides: u8)
    requires
        faces.len() > 0,
    ensures
        die_total(faces, sides, false) == Some(
            Tally { value: faces[0] as int, used: 1, fair: on_die(faces[0], sides) },
        ),
{
}

/// Only a six-sided die explodes: for a die of any other number of sides the
/// request to explode changes nothing. This holds of the double die too.
pub proof fn only_six_sided_dice_explode(faces: Seq<u8>, sides: u8, explode: bool, force_66: bool)
    requires
        sides != 6,
    ensures
        roll_total(faces, sides, explode, force_66) == roll_total(faces, sides, false, force_66),
{
}

/// The double die reads two faces as tens and units whether or not dice explode,
/// sixes included.
pub proof fn double_die_never_explodes(faces: Seq<u8>, explode: bool)
    requires
        faces.len() >= 2,
    ensures
        roll_total(faces, 66, explode, false) == Some(
            Tally {
                value: faces[0] * 10 + faces[1],
                used: 2,
                fair: on_die(faces[0], 6) && on_die(faces[1], 6),
            },
        ),
{
}

/// Forced, a die of sixty-six sides is one die like any other: one face, worth
/// what it shows.
pub proof fn forced_66_is_one_die(faces: Seq<u8>, explode: bool)
    requires
        faces.len() > 0,
    ensures
        roll_total(faces, 66, explode, true) == Some(
            Tally { value: faces[0] as int, used: 1, fair: on_die(faces[0], 66) },
        ),
{
}

/// A code in which no die has six sides is worth the same whether or not dice
/// explode.
pub proof fn explosion_needs_a_six_sided_die(
    faces: Seq<u8>,
    factors: Seq<Factor>,
    explode: bool,
    force_66: bool,
)
    requires
        forall|i: int| 0 <= i < factors.len() ==> (#[trigger] factors[i]).sides != 6,
    ensures
        product_total(faces, factors, explode, force_66) == product_total(
            faces,
            factors,
            false,
            force_66,
        ),
    decreases factors.len(),
{
    if factors.len() > 0 {
        let front = factors.drop_last();
        let last = factors.last();
        assert forall|i: int| 0 <= i < front.len() implies (#[trigger] front[i]).sides != 6 by {
            assert(front[i] == factors[i]);
        }
        explosion_needs_a_six_sided_die(faces, front, explode, force_66);
        assert(last == factors[factors.len() - 1]);
        if let Some(before) = product_total(faces, front, false, force_66) {
            lemma_dice_without_six(
                faces.skip(before.used as int),
                last.repeat.number as nat,
                last.sides,
                explode,
                force_66,
            );
        }
    }
}

/// Dice that do not have six sides sum to the same whether or not dice explode.
pub proof fn lemma_dice_without_six(faces: Seq<u8>, count: nat, sides: u8, explode: bool, force_66: bool)
    requires
        sides != 6,
    ensures
        dice_total(faces, count, sides, explode, force_66) == dice_total(
            faces,
            count,
            sides,
            false,
            force_66,
        ),
    decreases count,
{
    if count > 0 {
        lemma_dice_without_six(faces, (count - 1) as nat, sides, explode, force_66);
    }
}

/// Factors multiply: a code of two factors is worth the product of what each is
/// worth, the second read from the faces that the first left.
pub proof fn two_factors_multiply(
    faces: Seq<u8>,
    first: Factor,
    second: Factor,
    explode: bool,
    force_66: bool,
)
    ensures
        product_total(faces, seq![first, second], explode, force_66) == (match factor_total(
            faces,
            first,
            explode,
            force_66,
        ) {
            Some(one) => match factor_total(faces.skip(one.used as int), second, explode, force_66) {
                Some(other) => Some(
                    Tally {
                        value: one.value * other.value,
                        used: one.used + other.used,
                        fair: one.fair && other.fair,
                    },
                ),
                None => None,
            },
            None => None,
        }),
{
    let both = seq![first, second];
    assert(both.drop_last() =~= seq![first]);
    assert(seq![first].drop_last() =~= Seq::<Factor>::empty());
    assert(both.last() == second);
    assert(seq![first].last() == first);
    assert(faces.skip(0) =~= faces);
    assert(product_total(faces, Seq::<Factor>::empty(), explode, force_66) == Some(
        Tally { value: 1, used: 0, fair: true },
    ));
    assert(product_total(faces, seq![first], explode, force_66) == (match factor_total(
        faces,
        first,
        explode,
        force_66,
    ) {
        Some(one) => Some(Tally { value: 1 * one.value, used: 0 + one.used, fair: true && one.fair }),
        None => None,
    }));
}

/// A factor is worth the sum of its dice with its modifier added or taken away;
/// the value is not held above zero.
pub proof fn one_die_with_modifier(faces: Seq<u8>, factor: Factor, explode: bool, force_66: bool)
    requires
        factor.repeat.number == 1,
    ensures
        factor_total(faces, factor, explode, force_66) == (match roll_total(
            faces,
            factor.sides,
            explode,
            force_66,
        ) {
            Some(die) => Some(
                Tally {
                    value: crate::executor::modified(factor.modifier, die.value),
                    used: die.used,
                    fair: die.fair,
                },
            ),
            None => None,
        }),
{
    assert(faces.skip(0) =~= faces);
    assert(dice_total(faces, 0, factor.sides, explode, force_66) == Some(
        Tally { value: 0, used: 0, fair: true },
    ));
    assert(dice_total(faces, 1, factor.sides, explode, force_66) == (match roll_total(
        faces,
        factor.sides,
        explode,
        force_66,
    ) {
        Some(die) => Some(Tally { value: 0 + die.value, used: 0 + die.used, fair: true && die.fair }),
        None => None,
    }));
}

/// The worth of a code on given faces is one value: the flag of the caller and
/// the directive of the code ask for explosion in the same way.
pub proof fn directive_and_flag_agree(faces: Seq<u8>, code: DieCodeView, force_66: bool)
    requires
        code.directives.explode,
    ensures
        code_total(faces, code, false, force_66) == code_total(faces, code, true, force_66),
{
}

/// The double die of a fair roller is worth at least eleven and at most
/// sixty-six, and both its digits are faces of a six-sided die.
pub proof fn fair_double_die_range(faces: Seq<u8>)
    requires
        d66_total(faces) matches Some(tally) && tally.fair,
    ensures
        11 <= d66_total(faces)->0.value <= 66,
        1 <= d66_total(faces)->0.value % 10 <= 6,
{
}

/// A fair die that does not explode is worth at least one and at most its number
/// of sides.
pub proof fn fair_die_range(faces: Seq<u8>, sides: u8)
    requires
        die_total(faces, sides, false) matches Some(tally) && tally.fair,
    ensures
        1 <= die_total(faces, sides, false)->0.value <= sides,
{
}

/// A fair six-sided die that explodes is worth six for every six it showed and
/// then a face from one to five: it is worth at least one, and never a multiple
/// of six.
pub proof fn fair_exploding_die(faces: Seq<u8>)
    requires
        die_total(faces, 6, true) matches Some(tally) && tally.fair,
    ensures
        ({
            let tally = die_total(faces, 6, true)->0;
            &&& 1 <= tally.used <= faces.len()
            &&& 1 <= faces[tally.used - 1] <= 5
            &&& tally.value == 6 * (tally.used - 1) + faces[tally.used - 1]
        }),
    decreases faces.len(),
{
    if faces[0] == 6 {
        fair_exploding_die(faces.drop_first());
    }
}

/// Fair dice that do not explode sum to at least their number and to at most
/// their number times their sides.
pub proof fn fair_dice_range(faces: Seq<u8>, count: nat, sides: u8, force_66: bool)
    requires
        sides != 66 || force_66,
        dice_total(faces, count, sides, false, force_66) matches Some(tally) && tally.fair,
    ensures
        count <= dice_total(faces, count, sides, false, force_66)->0.value <= count * sides,
    decreases count,
{
    if count > 0 {
        let fewer = (count - 1) as nat;
        fair_dice_range(faces, fewer, sides, force_66);
        assert(fewer * sides + sides == count * sides) by (nonlinear_arith)
            requires
                fewer + 1 == count,
        ;
    }
}

} // verus!
