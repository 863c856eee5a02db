//! The text of a dice code, and the proof that the grammar reads it back.
//!
//! [`notation`] writes a code down: every factor with its number of dice, the
//! letter `d`, its sides and its modifier, the factors joined by `x`, and an `E`
//! at the end if the code asks for explosion. The grammar reads that text as the
//! code it was written from, so every well-formed code can be written down.
use vstd::prelude::*;
use crate::grammar::{
    codetail_spec, decimal, diecode_spec, digit_value, directives_spec, factor_spec, is_digit,
    lemma_digit_run, modifier_spec, number_spec, repeat_spec, sides_spec, DieCodeView, Directives,
    Factor, Modifier, Repeat, Tail,
};

verus! {

/// The character of a digit from zero to nine.
pub open spec fn digit_char(digit: nat) -> char {
    (48 + digit) as u8 as char
}

/// A number in base ten, without zeros in front.
pub open spec fn digits(n: nat) -> Seq<char>
    decreases n,
{
    if n < 10 {
        seq![digit_char(n)]
    } else {
        digits(n / 10).push(digit_char(n % 10))
    }
}

/// The text of a modifier: a sign and the operand, or nothing.
pub open spec fn modifier_notation(modifier: Modifier) -> Seq<char> {
    match modifier {
        Modifier::Nothing => Seq::empty(),
        Modifier::Plus(operand) => seq!['+'] + digits(operand as nat),
        Modifier::Minus(operand) => seq!['-'] + digits(operand as nat),
    }
}

/// The text of a factor: the number of dice, `d`, the sides and the modifier.
pub open spec fn factor_notation(factor: Factor) -> Seq<char> {
    digits(factor.repeat.number as nat) + seq!['d'] + digits(factor.sides as nat)
        + modifier_notation(factor.modifier)
}

/// The text of the factors behind the first: each with an `x` before it.
pub open spec fn tail_notation(factors: Seq<Factor>) -> Seq<char>
    decreases factors.len(),
{
    if factors.len() == 0 {
        Seq::empty()
    } else {
        seq!['x'] + factor_notation(factors[0]) + tail_notation(factors.drop_first())
    }
}

/// The text of the directives: an `E` if dice explode.
pub open spec fn directives_notation(directives: Directives) -> Seq<char> {
    if directives.explode {
        seq!['E']
    } else {
        Seq::empty()
    }
}

/// The text of a code with at least one factor.
pub open spec fn notation(code: DieCodeView) -> Seq<char> {
    factor_notation(code.factors[0]) + tail_notation(code.factors.drop_first())
        + directives_notation(code.directives)
}

/// Whether a text can follow a number in a dice code: it is empty or starts with
/// a character that is no digit.
pub open spec fn ends_number(rest: Seq<char>) -> bool {
    rest.len() == 0 || !is_digit(rest[0])
}

/// Whether a text can follow a factor in a dice code: it is empty or starts with
/// `x` or with `E`.
pub open spec fn ends_factor(rest: Seq<char>) -> bool {
    rest.len() == 0 || rest[0] == 'x' || rest[0] == 'E'
}

/// The digits of a number are digits, and they denote the number.
pub proof fn lemma_digits(n: nat)
    ensures
        digits(n).len() >= 1,
        forall|i: int| 0 <= i < digits(n).len() ==> is_digit(#[trigger] digits(n)[i]),
        decimal(digits(n)) == n,
    decreases n,
{
    if n < 10 {
        assert(digits(n).drop_last() =~= Seq::<char>::empty());
        assert(decimal(Seq::<char>::empty()) == 0);
        assert(digit_value(digit_char(n)) == n);
    } else {
        lemma_digits(n / 10);
        let front = digits(n / 10);
        let last = digit_char(n % 10);
        assert(front.push(last).drop_last() =~= front);
        assert(digit_value(last) == n % 10);
        assert forall|i: int| 0 <= i < digits(n).len() implies is_digit(
            #[trigger] digits(n)[i],
        ) by {
            if i < front.len() {
                assert(digits(n)[i] == front[i]);
            }
        }
    }
}

/// The grammar reads the digits of an 8-bit number as that number and leaves
/// what follows them.
pub proof fn lemma_number_reads_digits(n: u8, rest: Seq<char>)
    requires
        ends_number(rest),
    ensures
        number_spec(digits(n as nat) + rest) == Ok::<(u8, Seq<char>), crate::error::Fault>(
            (n, rest),
        ),
        is_digit((digits(n as nat) + rest)[0]),
{
    let text = digits(n as nat);
    let all = text + rest;
    lemma_digits(n as nat);
    assert forall|i: int| 0 <= i < text.len() implies is_digit(#[trigger] all[i]) by {
        assert(all[i] == text[i]);
    }
    if rest.len() > 0 {
        assert(all[text.len() as int] == rest[0]);
    }
    lemma_digit_run(all, text.len() as int);
    assert(all.take(text.len() as int) =~= text);
    assert(all.skip(text.len() as int) =~= rest);
}

/// The grammar reads the text of a modifier as that modifier.
pub proof fn lemma_modifier_reads(modifier: Modifier, rest: Seq<char>)
    requires
        ends_factor(rest),
    ensures
        modifier_spec(modifier_notation(modifier) + rest) == Ok::<
            (Modifier, Seq<char>),
            crate::error::Fault,
        >((modifier, rest)),
{
    match modifier {
        Modifier::Nothing => {
            assert(modifier_notation(modifier) + rest =~= rest);
        },
        Modifier::Plus(operand) => {
            let all = modifier_notation(modifier) + rest;
            assert(all.skip(1) =~= digits(operand as nat) + rest);
            assert(all[0] == '+');
            lemma_number_reads_digits(operand, rest);
        },
        Modifier::Minus(operand) => {
            let all = modifier_notation(modifier) + rest;
            assert(all.skip(1) =~= digits(operand as nat) + rest);
            assert(all[0] == '-');
            lemma_number_reads_digits(operand, rest);
        },
    }
}

/// What follows the sides in the text of a factor starts with no digit.
pub proof fn lemma_modifier_ends_number(modifier: Modifier, rest: Seq<char>)
    requires
        ends_factor(rest),
    ensures
        ends_number(modifier_notation(modifier) + rest),
{
    match modifier {
        Modifier::Nothing => {
            assert(modifier_notation(modifier) + rest =~= rest);
        },
        Modifier::Plus(operand) => {
            assert((modifier_notation(modifier) + rest)[0] == '+');
        },
        Modifier::Minus(operand) => {
            assert((modifier_notation(modifier) + rest)[0] == '-');
        },
    }
}

/// The grammar reads the text of a well-formed factor as that factor.
pub proof fn lemma_factor_reads(factor: Factor, rest: Seq<char>)
    requires
        factor.wf(),
        ends_factor(rest),
    ensures
        factor_spec(factor_notation(factor) + rest) == Ok::<(Factor, Seq<char>), crate::error::Fault>(
            (factor, rest),
        ),
{
    let all = factor_notation(factor) + rest;
    let after_sides = modifier_notation(factor.modifier) + rest;
    let after_d = digits(factor.sides as nat) + after_sides;
    let after_repeat = seq!['d'] + after_d;
    assert(all =~= digits(factor.repeat.number as nat) + after_repeat);
    assert(after_repeat[0] == 'd');
    lemma_number_reads_digits(factor.repeat.number, after_repeat);
    assert(repeat_spec(all) == Ok::<(Repeat, Seq<char>), crate::error::Fault>(
        (factor.repeat, after_repeat),
    ));
    assert(after_repeat.skip(1) =~= after_d);
    lemma_modifier_ends_number(factor.modifier, rest);
    lemma_number_reads_digits(factor.sides, after_sides);
    assert(sides_spec(after_d) == Ok::<(u8, Seq<char>), crate::error::Fault>(
        (factor.sides, after_sides),
    ));
    lemma_modifier_reads(factor.modifier, rest);
}

/// The grammar reads the text of well-formed factors behind the first as those
/// factors, added to the ones before them.
pub proof fn lemma_tail_reads(factors: Seq<Factor>, before: Seq<Factor>, rest: Seq<char>)
    requires
        forall|i: int| 0 <= i < factors.len() ==> (#[trigger] factors[i]).wf(),
        rest.len() == 0 || rest[0] == 'E',
    ensures
        codetail_spec(tail_notation(factors) + rest, before) == (Tail {
            factors: before + factors,
            end: Ok(rest),
        }),
    decreases factors.len(),
{
    let all = tail_notation(factors) + rest;
    if factors.len() == 0 {
        assert(all =~= rest);
        assert(before + factors =~= before);
    } else {
        let first = factors[0];
        let others = factors.drop_first();
        let after = tail_notation(others) + rest;
        assert(all =~= seq!['x'] + (factor_notation(first) + after));
        assert(all[0] == 'x');
        assert(all.skip(1) =~= factor_notation(first) + after);
        assert(ends_factor(after)) by {
            if others.len() > 0 {
                assert(after[0] == 'x');
            } else {
                assert(after =~= rest);
            }
        }
        lemma_factor_reads(first, after);
        assert forall|i: int| 0 <= i < others.len() implies (#[trigger] others[i]).wf() by {
            assert(others[i] == factors[i + 1]);
        }
        lemma_tail_reads(others, before.push(first), rest);
        assert(before.push(first) + others =~= before + factors);
    }
}

/// Every well-formed code can be written down: the grammar reads the text of the
/// code as the code itself.
pub proof fn notation_reads_back(code: DieCodeView)
    requires
        code.wf(),
    ensures
        diecode_spec(notation(code)) == Ok::<DieCodeView, crate::error::Fault>(code),
{
    let first = code.factors[0];
    let others = code.factors.drop_first();
    let end = directives_notation(code.directives);
    let after = tail_notation(others) + end;
    assert(notation(code) =~= factor_notation(first) + after);
    assert(ends_factor(after)) by {
        if others.len() > 0 {
            assert(after[0] == 'x');
        } else {
            assert(after =~= end);
        }
    }
    lemma_factor_reads(first, after);
    assert forall|i: int| 0 <= i < others.len() implies (#[trigger] others[i]).wf() by {
        assert(others[i] == code.factors[i + 1]);
    }
    lemma_tail_reads(others, seq![first], end);
    assert(seq![first] + others =~= code.factors);
    assert(directives_spec(end) == Ok::<(Directives, Seq<char>), crate::error::Fault>(
        (code.directives, Seq::<char>::empty()),
    )) by {
        if code.directives.explode {
            assert(end.skip(1) =~= Seq::<char>::empty());
        }
    }
}

} // verus!
