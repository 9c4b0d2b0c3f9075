use pushparse::either::{tag_left, tag_right, Either};
use pushparse::error::{ParseError, ParseResult, ParseResultExt, ParseResultUpdateExt};
use pushparse::parser::{Outcome, Update};

#[test]
fn map_custom_translates_only_the_custom_variant() {
    let e: ParseError<u32> = ParseError::Custom(7);
    assert!(matches!(e.map_custom(|n| n + 1), ParseError::Custom(8)));
    let e: ParseError<u32> = ParseError::UnexpectedInput;
    assert!(matches!(e.map_custom(|n: u32| n + 1), ParseError::UnexpectedInput));
    let e: ParseError<u32> = ParseError::ExpectedMoreInput;
    assert!(matches!(e.map_custom(|n: u32| n + 1), ParseError::ExpectedMoreInput));
}

#[test]
fn map_err_custom_on_results() {
    let r: ParseResult<bool, u32> = Err(ParseError::Custom(3));
    assert!(matches!(r.map_err_custom(|n| n * 2), Err(ParseError::Custom(6))));
    let r: ParseResult<bool, u32> = Ok(true);
    assert!(matches!(r.map_err_custom(|n| n * 2), Ok(true)));
}

#[test]
fn update_maps_keep_the_consumed_count() {
    let u: Update<u8, u8> = Update { consumed: 3, outcome: Outcome::Parsed(10) };
    let u2 = u.map_output(|x| x + 1);
    assert_eq!(u2.consumed, 3);
    assert!(matches!(u2.outcome, Outcome::Parsed(11)));

    let u: Update<u8, u8> = Update { consumed: 2, outcome: Outcome::Next(5) };
    let u2 = u.map_next(|s| s * 10);
    assert_eq!(u2.consumed, 2);
    assert!(matches!(u2.outcome, Outcome::Next(50)));

    let u: Update<u8, u8> = Update { consumed: 1, outcome: Outcome::Next(4) };
    let u2 = u.map_outcome(|oc| -> Outcome<u8, u8> { match oc {
        Outcome::Next(s) => Outcome::Parsed(s),
        Outcome::Parsed(x) => Outcome::Parsed(x),
    } });
    assert_eq!(u2.consumed, 1);
    assert!(matches!(u2.outcome, Outcome::Parsed(4)));
}

#[test]
fn outcome_maps_and_transpose() {
    let oc: Outcome<u8, u8> = Outcome::Parsed(1);
    assert!(matches!(oc.map_output(|x| x + 1), Outcome::Parsed(2)));
    let oc: Outcome<u8, u8> = Outcome::Next(1);
    assert!(matches!(oc.map_next(|s| s + 1), Outcome::Next(2)));

    let oc: Outcome<u8, Result<u8, bool>> = Outcome::Parsed(Ok(9));
    assert!(matches!(oc.transpose_output(), Ok(Outcome::Parsed(9))));
    let oc: Outcome<u8, Result<u8, bool>> = Outcome::Parsed(Err(true));
    assert!(matches!(oc.transpose_output(), Err(true)));
    let oc: Outcome<u8, Result<u8, bool>> = Outcome::Next(3);
    assert!(matches!(oc.transpose_output(), Ok(Outcome::Next(3))));
}

#[test]
fn result_update_maps() {
    let r: ParseResult<Update<u8, u8>, u32> = Ok(Update {
        consumed: 4,
        outcome: Outcome::Parsed(6),
    });
    match r.map_output(|x| x * 2) {
        Ok(Update { consumed: 4, outcome: Outcome::Parsed(12) }) => {},
        _ => panic!("expected a mapped output"),
    }
    let r: ParseResult<Update<u8, u8>, u32> = Ok(Update { consumed: 4, outcome: Outcome::Next(6) });
    match r.map_next(|s| s + 1) {
        Ok(Update { consumed: 4, outcome: Outcome::Next(7) }) => {},
        _ => panic!("expected a mapped state"),
    }
    let r: ParseResult<Update<u8, u8>, u32> = Err(ParseError::UnexpectedInput);
    assert!(matches!(
        r.map_outcome(|oc: Outcome<u8, u8>| oc),
        Err(ParseError::UnexpectedInput)
    ));
}

#[test]
fn either_helpers() {
    let l: Either<u8, bool> = tag_left(3);
    assert!(l.is_left());
    assert!(matches!(l.map_left(|x| x + 1), Either::Left(4)));
    let r: Either<u8, bool> = tag_right(true);
    assert!(!r.is_left());
    assert!(matches!(r.map_right(|b| !b), Either::Right(false)));
    let same: Either<u8, u8> = Either::Right(9);
    assert_eq!(same.into_inner(), 9);
    let same: Either<u8, u8> = Either::Left(4);
    assert_eq!(same.into_inner(), 4);
}
