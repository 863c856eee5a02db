//! The grammar of dice codes and its parser.
//!
//! ```text
//! diecode    := factor codetail directives
//! codetail   := 'x' factor codetail | (nothing)
//! factor     := repeat 'd' sides modifier
//! repeat     := number | (nothing)
//! sides      := number
//! modifier   := '+' operand | '-' operand | (nothing)
//! operand    := number
//! directives := 'E' | (nothing)
//! number     := one or more ASCII digits, at most 255 in value
//! ```
//!
//! Every rule has a spec function over `Seq<char>` that says what the rule reads
//! and what it leaves, and an executable function on `&str` that is proved to
//! agree with it.
use vstd::prelude::*;
use vstd::string::*;
use crate::error::{Fault, FourADError, NumberFault};

verus! {

/// How many dice a factor rolls.
#[derive(Debug, Clone, Copy, PartialEq, Eq, Structural)]
pub struct Repeat {
    pub number: u8,
}

/// What is added to or taken from the sum of a factor's dice.
#[derive(Debug, Clone, Copy, PartialEq, Eq, Structural)]
pub enum Modifier {
    Nothing,
    Plus(u8),
    Minus(u8),
}

/// One term of a dice code: `repeat` dice of `sides` sides, then the modifier.
#[derive(Debug, Clone, Copy, PartialEq, Eq, Structural)]
pub struct Factor {
    pub repeat: Repeat,
    pub sides: u8,
    pub modifier: Modifier,
}

/// What a dice code asks of the whole evaluation.
#[derive(Debug, Clone, Copy, PartialEq, Eq, Structural)]
pub struct Directives {
    pub explode: bool,
}

/// A parsed dice code: its factors in the order of the text, and its directives.
#[derive(Debug, PartialEq, Eq)]
pub struct DieCode {
    pub factors: Vec<Factor>,
    pub directives: Directives,
}

/// The mathematical content of a [`DieCode`].
pub struct DieCodeView {
    pub factors: Seq<Factor>,
    pub directives: Directives,
}

impl View for DieCode {
    type V = DieCodeView;

    open spec fn view(&self) -> DieCodeView {
        DieCodeView { factors: self.factors@, directives: self.directives }
    }
}

impl Factor {
    /// A die has at least two sides and a factor rolls at least one die.
    pub open spec fn wf(self) -> bool {
        self.sides >= 2 && self.repeat.number >= 1
    }
}

impl DieCodeView {
    /// There is at least one factor, and every factor is well formed.
    pub open spec fn wf(self) -> bool {
        &&& self.factors.len() >= 1
        &&& forall|i: int| 0 <= i < self.factors.len() ==> (#[trigger] self.factors[i]).wf()
    }
}

impl DieCode {
    /// There is at least one factor, and every factor is well formed.
    pub open spec fn wf(&self) -> bool {
        self@.wf()
    }
}

impl Default for Repeat {
    /// One die.
    fn default() -> (repeat: Repeat)
        ensures
            repeat == (Repeat { number: 1 }),
    {
        Repeat { number: 1 }
    }
}

impl Default for Modifier {
    /// No modifier.
    fn default() -> (modifier: Modifier)
        ensures
            modifier == Modifier::Nothing,
    {
        Modifier::Nothing
    }
}

impl Default for Factor {
    /// The factor that `d6` denotes.
    fn default() -> (factor: Factor)
        ensures
            factor == (Factor { repeat: Repeat { number: 1 }, sides: 6, modifier: Modifier::Nothing }),
            factor.wf(),
    {
        Factor { repeat: Repeat { number: 1 }, sides: 6, modifier: Modifier::Nothing }
    }
}

impl Default for Directives {
    /// Nothing is asked for.
    fn default() -> (directives: Directives)
        ensures
            directives == (Directives { explode: false }),
    {
        Directives { explode: false }
    }
}

/// What a rule makes of a text: the value it read and the text it left, or the fault.
pub type Reading<T> = Result<(T, Seq<char>), Fault>;

/// An ASCII digit.
pub open spec fn is_digit(c: char) -> bool {
    '0' <= c <= '9'
}

/// The value of an ASCII digit.
pub open spec fn digit_value(c: char) -> nat {
    (c as u32 - '0' as u32) as nat
}

/// How many digits stand at the front of `s`.
pub open spec fn digit_run(s: Seq<char>) -> nat
    decreases s.len(),
{
    if s.len() > 0 && is_digit(s[0]) {
        1 + digit_run(s.drop_first())
    } else {
        0
    }
}

/// The number that a sequence of digits denotes in base ten.
pub open spec fn decimal(s: Seq<char>) -> nat
    decreases s.len(),
{
    if s.len() == 0 {
        0
    } else {
        decimal(s.drop_last()) * 10 + digit_value(s.last())
    }
}

/// `number`: the digits at the front of `s`, read in base ten. No digit at all is
/// a fault, and so is a value above 255.
pub open spec fn number_spec(s: Seq<char>) -> Reading<u8> {
    let n = digit_run(s) as int;
    let value = decimal(s.take(n));
    if n == 0 {
        Err(Fault::ParseNumberError(NumberFault::Empty))
    } else if value > 255 {
        Err(Fault::ParseNumberError(NumberFault::TooLarge))
    } else {
        Ok((value as u8, s.skip(n)))
    }
}

/// `repeat`: a number that is not zero, or nothing, which stands for one.
pub open spec fn repeat_spec(s: Seq<char>) -> Reading<Repeat> {
    if s.len() > 0 && is_digit(s[0]) {
        match number_spec(s) {
            Ok((number, rest)) => if number == 0 {
                Err(Fault::ZeroRepeats)
            } else {
                Ok((Repeat { number }, rest))
            },
            Err(fault) => Err(fault),
        }
    } else {
        Ok((Repeat { number: 1 }, s))
    }
}

/// `sides`: a number that is neither zero nor one.
pub open spec fn sides_spec(s: Seq<char>) -> Reading<u8> {
    match number_spec(s) {
        Ok((sides, rest)) => if sides == 0 || sides == 1 {
            Err(Fault::ZeroOrOneSide)
        } else {
            Ok((sides, rest))
        },
        Err(fault) => Err(fault),
    }
}

/// `operand`: a number.
pub open spec fn operand_spec(s: Seq<char>) -> Reading<u8> {
    number_spec(s)
}

/// `modifier`: a sign and its operand, or nothing.
pub open spec fn modifier_spec(s: Seq<char>) -> Reading<Modifier> {
    if s.len() > 0 && s[0] == '+' {
        match operand_spec(s.skip(1)) {
            Ok((operand, rest)) => Ok((Modifier::Plus(operand), rest)),
            Err(fault) => Err(fault),
        }
    } else if s.len() > 0 && s[0] == '-' {
        match operand_spec(s.skip(1)) {
            Ok((operand, rest)) => Ok((Modifier::Minus(operand), rest)),
            Err(fault) => Err(fault),
        }
    } else {
        Ok((Modifier::Nothing, s))
    }
}

/// `directives`: one `E`, or nothing. This rule never fails.
pub open spec fn directives_spec(s: Seq<char>) -> Reading<Directives> {
    if s.len() > 0 && s[0] == 'E' {
        Ok((Directives { explode: true }, s.skip(1)))
    } else {
        Ok((Directives { explode: false }, s))
    }
}

/// `factor`: a repeat, the letter `d`, the sides and a modifier.
pub open spec fn factor_spec(s: Seq<char>) -> Reading<Factor> {
    match repeat_spec(s) {
        Err(fault) => Err(fault),
        Ok((repeat, rest)) => if rest.len() == 0 {
            Err(Fault::UnexpectedEndOfString(s))
        } else if rest[0] != 'd' {
            Err(Fault::UnexpectedChar('d', rest))
        } else {
            match sides_spec(rest.skip(1)) {
                Err(fault) => Err(fault),
                Ok((sides, rest)) => match modifier_spec(rest) {
                    Err(fault) => Err(fault),
                    Ok((modifier, rest)) => Ok((Factor { repeat, sides, modifier }, rest)),
                },
            }
        },
    }
}

/// What `codetail` makes of a text: the factors read so far, and the text left or
/// the fault that ended the reading.
pub struct Tail {
    pub factors: Seq<Factor>,
    pub end: Result<Seq<char>, Fault>,
}

/// `codetail`: as long as an `x` comes next, one more factor, added to `factors`.
pub open spec fn codetail_spec(s: Seq<char>, factors: Seq<Factor>) -> Tail
    decreases s.len(),
    via codetail_decreases
{
    if s.len() > 0 && s[0] == 'x' {
        match factor_spec(s.skip(1)) {
            Ok((factor, rest)) => codetail_spec(rest, factors.push(factor)),
            Err(fault) => Tail { factors, end: Err(fault) },
        }
    } else {
        Tail { factors, end: Ok(s) }
    }
}

#[via_fn]
proof fn codetail_decreases(s: Seq<char>, factors: Seq<Factor>) {
    if s.len() > 0 && s[0] == 'x' {
        lemma_factor_rest(s.skip(1));
    }
}

/// `diecode`: a factor, the factors that `x` joins to it and the directives, with
/// nothing left after them.
pub open spec fn diecode_spec(s: Seq<char>) -> Result<DieCodeView, Fault> {
    match factor_spec(s) {
        Err(fault) => Err(fault),
        Ok((first, rest)) => {
            let tail = codetail_spec(rest, seq![first]);
            match tail.end {
                Err(fault) => Err(fault),
                Ok(rest) => match directives_spec(rest) {
                    Err(fault) => Err(fault),
                    Ok((directives, rest)) => if rest.len() > 0 {
                        Err(Fault::UnexpectedEOL(rest))
                    } else {
                        Ok(DieCodeView { factors: tail.factors, directives })
                    },
                },
            }
        },
    }
}

/// Whether `c` has the Unicode property White_Space, which is what
/// `char::is_whitespace` tells and what `str::trim` removes.
pub uninterp spec fn white_space(c: char) -> bool;

/// `s` without the white space at its front.
pub open spec fn strip_front(s: Seq<char>) -> Seq<char>
    decreases s.len(),
{
    if s.len() > 0 && white_space(s[0]) {
        strip_front(s.drop_first())
    } else {
        s
    }
}

/// `s` without the white space at its end.
pub open spec fn strip_back(s: Seq<char>) -> Seq<char>
    decreases s.len(),
{
    if s.len() > 0 && white_space(s.last()) {
        strip_back(s.drop_last())
    } else {
        s
    }
}

/// `s` without the white space at its front and at its end.
pub open spec fn trimmed(s: Seq<char>) -> Seq<char> {
    strip_back(strip_front(s))
}

/// Whether what the parser returned is what the grammar says of the text.
pub open spec fn parses_as(got: Result<DieCode, FourADError>, want: Result<DieCodeView, Fault>) -> bool {
    match (got, want) {
        (Ok(code), Ok(wanted)) => code@ == wanted,
        (Err(error), Err(fault)) => error@ == fault,
        _ => false,
    }
}

/// Whether what a parsing function returned is what the rule's spec function says.
pub open spec fn reads_as<T>(got: Result<(T, &str), FourADError>, want: Reading<T>) -> bool {
    match (got, want) {
        (Ok((value, rest)), Ok((wanted, left))) => value == wanted && rest@ == left,
        (Err(error), Err(fault)) => error@ == fault,
        _ => false,
    }
}

/// A text whose first `n` characters are digits, and whose next one is not, starts
/// with a run of exactly `n` digits.
pub proof fn lemma_digit_run(s: Seq<char>, n: int)
    requires
        0 <= n <= s.len(),
        forall|i: int| 0 <= i < n ==> is_digit(#[trigger] s[i]),
        n == s.len() || !is_digit(s[n]),
    ensures
        digit_run(s) == n,
    decreases n,
{
    if n > 0 {
        let tail = s.drop_first();
        assert forall|i: int| 0 <= i < n - 1 implies is_digit(#[trigger] tail[i]) by {
            assert(tail[i] == s[i + 1]);
        }
        lemma_digit_run(tail, n - 1);
    }
}

/// The run of digits at the front of a text is no longer than the text.
pub proof fn lemma_digit_run_bound(s: Seq<char>)
    ensures
        digit_run(s) <= s.len(),
    decreases s.len(),
{
    if s.len() > 0 && is_digit(s[0]) {
        lemma_digit_run_bound(s.drop_first());
    }
}

/// One more digit at the end multiplies the value by ten and adds the digit.
pub proof fn lemma_decimal_step(s: Seq<char>, n: int)
    requires
        0 <= n < s.len(),
    ensures
        decimal(s.take(n + 1)) == decimal(s.take(n)) * 10 + digit_value(s[n]),
{
    assert(s.take(n + 1).drop_last() =~= s.take(n));
}

/// `number`: reads the digits at the front of `s` as an 8-bit number.
pub fn parse_number(s: &str) -> (out: Result<(u8, &str), FourADError>)
    ensures
        reads_as(out, number_spec(s@)),
{
    let len: usize = s.unicode_len();
    let mut end: usize = 0;
    let mut value: u8 = 0;
    let mut too_large: bool = false;
    while end < len && digit_of(s.get_char(end)).is_some()
        invariant
            len == s@.len(),
            end <= len,
            forall|i: int| 0 <= i < end ==> is_digit(#[trigger] s@[i]),
            !too_large ==> value == decimal(s@.take(end as int)),
            too_large ==> decimal(s@.take(end as int)) > 255,
        decreases len - end,
    {
        let digit: u8 = digit_of(s.get_char(end)).unwrap();
        proof {
            lemma_decimal_step(s@, end as int);
        }
        if !too_large {
            if value > 25 || (value == 25 && digit > 5) {
                too_large = true;
            } else {
                value = value * 10 + digit;
            }
        }
        end = end + 1;
    }
    proof {
        lemma_digit_run(s@, end as int);
    }
    if end == 0 {
        Err(FourADError::ParseNumberError(NumberFault::Empty))
    } else if too_large {
        Err(FourADError::ParseNumberError(NumberFault::TooLarge))
    } else {
        Ok((value, s.substring_char(end, len)))
    }
}

/// The value of `c` if it is an ASCII digit.
pub fn digit_of(c: char) -> (digit: Option<u8>)
    ensures
        digit is Some <==> is_digit(c),
        digit matches Some(value) ==> value == digit_value(c),
{
    if c >= '0' && c <= '9' {
        Some((c as u32 - '0' as u32) as u8)
    } else {
        None
    }
}

/// A number takes at least one character off the text.
pub proof fn lemma_number_rest(s: Seq<char>)
    ensures
        number_spec(s) matches Ok((_, rest)) ==> rest.len() < s.len(),
{
    lemma_digit_run_bound(s);
}

/// A factor takes at least two characters off the text.
pub proof fn lemma_factor_rest(s: Seq<char>)
    ensures
        factor_spec(s) matches Ok((_, rest)) ==> rest.len() + 2 <= s.len(),
{
    lemma_number_rest(s);
    if let Ok((_, rest)) = repeat_spec(s) {
        if rest.len() > 0 && rest[0] == 'd' {
            lemma_number_rest(rest.skip(1));
            if let Ok((_, rest)) = sides_spec(rest.skip(1)) {
                if rest.len() > 0 {
                    lemma_number_rest(rest.skip(1));
                }
            }
        }
    }
}

/// `repeat`: reads how many dice to roll; no number stands for one die.
pub fn parse_repeat(s: &str) -> (out: Result<(Repeat, &str), FourADError>)
    ensures
        reads_as(out, repeat_spec(s@)),
{
    if s.unicode_len() > 0 && digit_of(s.get_char(0)).is_some() {
        match parse_number(s) {
            Ok((number, rest)) => {
                if number == 0 {
                    Err(FourADError::ZeroRepeats)
                } else {
                    Ok((Repeat { number }, rest))
                }
            },
            Err(error) => Err(error),
        }
    } else {
        Ok((Repeat { number: 1 }, s))
    }
}

/// `sides`: reads the number of sides of a die, which is at least two.
pub fn parse_sides(s: &str) -> (out: Result<(u8, &str), FourADError>)
    ensures
        reads_as(out, sides_spec(s@)),
{
    match parse_number(s) {
        Ok((sides, rest)) => {
            if sides == 0 || sides == 1 {
                Err(FourADError::ZeroOrOneSide)
            } else {
                Ok((sides, rest))
            }
        },
        Err(error) => Err(error),
    }
}

/// `operand`: reads the number behind a sign.
pub fn parse_operand(s: &str) -> (out: Result<(u8, &str), FourADError>)
    ensures
        reads_as(out, operand_spec(s@)),
{
    parse_number(s)
}

/// `modifier`: reads a sign and its operand, if a sign comes next.
pub fn parse_modifier(s: &str) -> (out: Result<(Modifier, &str), FourADError>)
    ensures
        reads_as(out, modifier_spec(s@)),
{
    let len: usize = s.unicode_len();
    if len > 0 && s.get_char(0) == '+' {
        match parse_operand(s.substring_char(1, len)) {
            Ok((operand, rest)) => Ok((Modifier::Plus(operand), rest)),
            Err(error) => Err(error),
        }
    } else if len > 0 && s.get_char(0) == '-' {
        match parse_operand(s.substring_char(1, len)) {
            Ok((operand, rest)) => Ok((Modifier::Minus(operand), rest)),
            Err(error) => Err(error),
        }
    } else {
        Ok((Modifier::Nothing, s))
    }
}

/// `directives`: reads one `E`, if it comes next.
pub fn parse_directives(s: &str) -> (out: Result<(Directives, &str), FourADError>)
    ensures
        reads_as(out, directives_spec(s@)),
        out is Ok,
{
    let len: usize = s.unicode_len();
    if len > 0 && s.get_char(0) == 'E' {
        Ok((Directives { explode: true }, s.substring_char(1, len)))
    } else {
        Ok((Directives { explode: false }, s))
    }
}

/// `factor`: reads one factor.
pub fn parse_factor(s: &str) -> (out: Result<(Factor, &str), FourADError>)
    ensures
        reads_as(out, factor_spec(s@)),
        out matches Ok((factor, _)) ==> factor.wf(),
{
    let (repeat, rest) = match parse_repeat(s) {
        Ok(read) => read,
        Err(error) => { return Err(error); },
    };
    let len: usize = rest.unicode_len();
    if len == 0 {
        return Err(FourADError::UnexpectedEndOfString(s.to_owned()));
    }
    if rest.get_char(0) != 'd' {
        return Err(FourADError::UnexpectedChar('d', rest.to_owned()));
    }
    let (sides, rest) = match parse_sides(rest.substring_char(1, len)) {
        Ok(read) => read,
        Err(error) => { return Err(error); },
    };
    let (modifier, rest) = match parse_modifier(rest) {
        Ok(read) => read,
        Err(error) => { return Err(error); },
    };
    Ok((Factor { repeat, sides, modifier }, rest))
}

/// `codetail`: reads the factors that `x` joins to the first one and adds them to
/// `factors`. Those read before a fault stay in `factors`.
pub fn parse_codetail<'a>(s: &'a str, factors: &mut Vec<Factor>) -> (out: Result<&'a str, FourADError>)
    ensures
        final(factors)@ == codetail_spec(s@, old(factors)@).factors,
        match (out, codetail_spec(s@, old(factors)@).end) {
            (Ok(rest), Ok(left)) => rest@ == left,
            (Err(error), Err(fault)) => error@ == fault,
            _ => false,
        },
    decreases s@.len(),
{
    let len: usize = s.unicode_len();
    if len > 0 && s.get_char(0) == 'x' {
        proof {
            lemma_factor_rest(s@.skip(1));
        }
        match parse_factor(s.substring_char(1, len)) {
            Ok((factor, rest)) => {
                factors.push(factor);
                parse_codetail(rest, factors)
            },
            Err(error) => Err(error),
        }
    } else {
        Ok(s)
    }
}

/// Parses a dice code that has no white space around it.
pub fn parse_code(s: &str) -> (out: Result<DieCode, FourADError>)
    ensures
        parses_as(out, diecode_spec(s@)),
        out matches Ok(code) ==> code.wf(),
{
    let mut factors: Vec<Factor> = Vec::new();
    let (factor, rest) = match parse_factor(s) {
        Ok(read) => read,
        Err(error) => { return Err(error); },
    };
    factors.push(factor);
    assert(factors@ =~= seq![factor]);
    proof {
        lemma_codetail_wf(rest@, factors@);
    }
    let rest = match parse_codetail(rest, &mut factors) {
        Ok(rest) => rest,
        Err(error) => { return Err(error); },
    };
    let (directives, rest) = match parse_directives(rest) {
        Ok(read) => read,
        Err(error) => { return Err(error); },
    };
    if rest.unicode_len() > 0 {
        return Err(FourADError::UnexpectedEOL(rest.to_owned()));
    }
    Ok(DieCode { factors, directives })
}

/// `codetail` keeps the factors it was given and adds well-formed ones only.
pub proof fn lemma_codetail_wf(s: Seq<char>, factors: Seq<Factor>)
    requires
        forall|i: int| 0 <= i < factors.len() ==> (#[trigger] factors[i]).wf(),
    ensures
        codetail_spec(s, factors).factors.len() >= factors.len(),
        forall|i: int| 0 <= i < codetail_spec(s, factors).factors.len() ==> (#[trigger] codetail_spec(s, factors).factors[i]).wf(),
    decreases s.len(),
{
    if s.len() > 0 && s[0] == 'x' {
        lemma_factor_rest(s.skip(1));
        if let Ok((factor, rest)) = factor_spec(s.skip(1)) {
            lemma_codetail_wf(rest, factors.push(factor));
        }
    }
}

/// Removes the white space around `s`, with `str::trim`: the result is `s`
/// without the characters at its front and at its end that have the Unicode
/// property White_Space.
#[verifier::external_body]
fn trim(s: &str) -> (out: &str)
    ensures
        out@ == trimmed(s@),
        out@.len() > 0 ==> !white_space(out@[0]) && !white_space(out@.last()),
{
    s.trim()
}

/// Parses a dice code. White space around the code is ignored; white space
/// inside it is a fault, as is anything after a complete code.
pub fn parse_diecode(s: &str) -> (out: Result<DieCode, FourADError>)
    ensures
        parses_as(out, diecode_spec(trimmed(s@))),
        out matches Ok(code) ==> code.wf(),
{
    parse_code(trim(s))
}

impl core::str::FromStr for DieCode {
    type Err = FourADError;

    fn from_str(s: &str) -> (out: Result<DieCode, FourADError>)
        ensures
            parses_as(out, diecode_spec(trimmed(s@))),
    {
        parse_diecode(s)
    }
}

impl DieCode {
    /// Tells whether the code is well formed, as every code from the parser is.
    pub fn is_wf(&self) -> (well_formed: bool)
        ensures
            well_formed == self.wf(),
    {
        if self.factors.len() == 0 {
            return false;
        }
        let mut at: usize = 0;
        while at < self.factors.len()
            invariant
                at <= self.factors.len(),
                forall|i: int| 0 <= i < at ==> (#[trigger] self.factors@[i]).wf(),
            decreases self.factors.len() - at,
        {
            let factor: &Factor = &self.factors[at];
            if factor.sides < 2 || factor.repeat.number < 1 {
                return false;
            }
            at = at + 1;
        }
        true
    }
}

} // verus!
