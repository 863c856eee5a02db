use fourad::grammar::{
    parse_directives, parse_modifier, parse_number, parse_operand, parse_repeat, parse_sides,
};
use fourad::{parse_diecode, Directives, Error, Modifier, Repeat};

#[test]
fn test_parse_diecode() {
    let diecode = parse_diecode("d6").unwrap();
    assert_eq!(1, diecode.factors.len());

    let diecode = parse_diecode("d6xd6xd6").unwrap();
    assert_eq!(3, diecode.factors.len());
}

#[test]
fn test_parse_repeat() {
    let (repeat, rest) = parse_repeat("8d6").unwrap();
    assert_eq!(repeat, Repeat { number: 8 });
    assert_eq!(rest, "d6");

    let (repeat, rest) = parse_repeat("d6").unwrap();
    assert_eq!(repeat, Repeat { number: 1 });
    assert_eq!(rest, "d6");

    let err = parse_repeat("0d6").unwrap_err();
    assert!(matches!(err, Error::ZeroRepeats));
}

#[test]
fn test_parse_sides() {
    let (sides, rest) = parse_sides("3").unwrap();
    assert_eq!(sides, 3);
    assert_eq!(rest, "");

    let (sides, rest) = parse_sides("6+3").unwrap();
    assert_eq!(sides, 6);
    assert_eq!(rest, "+3");

    let err = parse_sides("0").unwrap_err();
    assert!(matches!(err, Error::ZeroOrOneSide));

    let err = parse_sides("1").unwrap_err();
    assert!(matches!(err, Error::ZeroOrOneSide));
}

#[test]
fn test_parse_number() {
    let (number, rest) = parse_number("64REST").unwrap();
    assert_eq!(number, 64);
    assert_eq!(rest, "REST");

    let (number, rest) = parse_number("83").unwrap();
    assert_eq!(number, 83);
    assert_eq!(rest, "");

    let err = parse_number("888").unwrap_err();
    assert!(matches!(err, Error::ParseNumberError(_)));

    let err = parse_number("MISSING").unwrap_err();
    assert!(matches!(err, Error::ParseNumberError(_)));
}

#[test]
fn test_parse_modifier() {
    let (modifier, rest) = parse_modifier("NONE").unwrap();
    assert_eq!(modifier, Modifier::Nothing);
    assert_eq!(rest, "NONE");

    // PLUS, AT END
    let (modifier, rest) = parse_modifier("+38").unwrap();
    assert_eq!(modifier, Modifier::Plus(38));
    assert_eq!(rest, "");

    // MINUS, WITH REST
    let (modifier, rest) = parse_modifier("-83REST").unwrap();
    assert_eq!(modifier, Modifier::Minus(83));
    assert_eq!(rest, "REST");
}

#[test]
fn test_parse_operand() {
    let (operand, rest) = parse_operand("123REST").unwrap();
    assert_eq!(operand, 123);
    assert_eq!(rest, "REST");

    // TOO BIG
    let err = parse_operand("1234REST").unwrap_err();
    assert!(matches!(err, Error::ParseNumberError(_)));

    // MISSING
    let err = parse_operand("MISSING").unwrap_err();
    assert!(matches!(err, Error::ParseNumberError(_)));
}

#[test]
fn test_parse_directives() {
    let (directives, rest) = parse_directives("").unwrap();
    assert_eq!(directives, Directives::default());
    assert_eq!(rest, "");

    let (directives, rest) = parse_directives("EEE").unwrap();
    assert_eq!(
        directives,
        Directives {
            explode: true,
            ..Directives::default()
        }
    );
    assert_eq!(rest, "EE");
}
