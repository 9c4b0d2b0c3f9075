use pushparse::either::Either;
use pushparse::error::ParseError;
use pushparse::parser::{Outcome, ParserBase, ParserCore, PushParser, Update};
use pushparse::primitive::{end, literal};

#[test]
fn end_accepts_empty_input() {
    assert!(matches!(
        end().feed(b"".as_slice()),
        Ok(Update { consumed: 0, outcome: Outcome::Next(_) })
    ));
}

#[test]
fn end_rejects_any_input() {
    assert!(matches!(end().feed(b"x".as_slice()), Err(ParseError::UnexpectedInput)));
}

#[test]
fn end_resolves_at_end_of_input() {
    assert!(end().end_of_input().is_ok());
}

#[test]
fn optional_success_is_some() {
    let p = literal(b"Hello".as_slice()).optional();
    match p.feed(b"Hello World!".as_slice()) {
        Ok(Update { consumed, outcome: Outcome::Parsed(Some(x)) }) => {
            assert_eq!(consumed, 5);
            assert_eq!(x, b"Hello");
        },
        _ => panic!("expected Some"),
    }
}

#[test]
fn optional_failure_is_none_with_zero_consumed() {
    let p = literal(b"Hello".as_slice()).optional();
    assert!(matches!(
        p.feed(b"Goodbye World!".as_slice()),
        Ok(Update { consumed: 0, outcome: Outcome::Parsed(None) })
    ));
}

#[test]
fn optional_pending_consumes_nothing() {
    let p = literal(b"Hello".as_slice()).optional();
    assert!(matches!(
        p.feed(b"Hell".as_slice()),
        Ok(Update { consumed: 0, outcome: Outcome::Next(_) })
    ));
}

#[test]
fn optional_late_failure_still_consumes_nothing() {
    let p = literal(b"Hello".as_slice()).optional();
    let p = match p.feed(b"Hel".as_slice()) {
        Ok(Update { consumed: 0, outcome: Outcome::Next(next) }) => next,
        _ => panic!("expected progress"),
    };
    // The driver retains everything the attempt has seen and re-offers it.
    assert!(matches!(
        p.feed(b"Help".as_slice()),
        Ok(Update { consumed: 0, outcome: Outcome::Parsed(None) })
    ));
}

#[test]
fn then_runs_both_halves_in_sequence() {
    let p = literal(b"ab".as_slice()).then(literal(b"cd".as_slice()));
    let p = match p.feed(b"abcd".as_slice()) {
        Ok(Update { consumed: 2, outcome: Outcome::Next(next) }) => next,
        _ => panic!("expected the first half to complete"),
    };
    match p.feed(b"cd".as_slice()) {
        Ok(Update { consumed, outcome: Outcome::Parsed((x, y)) }) => {
            assert_eq!(consumed, 2);
            assert_eq!(x, b"ab");
            assert_eq!(y, b"cd");
        },
        _ => panic!("expected the pair"),
    }
}

#[test]
fn then_propagates_first_half_error() {
    let p = literal(b"ab".as_slice()).then(literal(b"cd".as_slice()));
    assert!(matches!(p.feed(b"xx".as_slice()), Err(ParseError::UnexpectedInput)));
}

#[test]
fn or_prefers_the_first_alternative() {
    let p = literal(b"ab".as_slice()).or(literal(b"abX".as_slice()));
    match p.feed(b"abXY".as_slice()) {
        Ok(Update { consumed, outcome: Outcome::Parsed(Either::Left(x)) }) => {
            assert_eq!(consumed, 2);
            assert_eq!(x, b"ab");
        },
        _ => panic!("expected the left alternative"),
    }
}

#[test]
fn or_falls_back_to_the_second_alternative() {
    let p = literal(b"ab".as_slice()).or(literal(b"cd".as_slice()));
    match p.feed(b"cdXY".as_slice()) {
        Ok(Update { consumed, outcome: Outcome::Parsed(Either::Right(y)) }) => {
            assert_eq!(consumed, 2);
            assert_eq!(y, b"cd");
        },
        _ => panic!("expected the right alternative"),
    }
}

#[test]
fn or_replays_everything_the_first_alternative_saw() {
    // The first alternative only fails at the second chunk; the fallback
    // must still see the first chunk.
    let p = literal(b"ab".as_slice()).or(literal(b"ax".as_slice()));
    let p = match p.feed(b"a".as_slice()) {
        Ok(Update { consumed: 0, outcome: Outcome::Next(next) }) => next,
        _ => panic!("expected progress"),
    };
    match p.feed(b"ax".as_slice()) {
        Ok(Update { consumed, outcome: Outcome::Parsed(Either::Right(y)) }) => {
            assert_eq!(consumed, 2);
            assert_eq!(y, b"ax");
        },
        _ => panic!("expected the replayed fallback to succeed"),
    }
}

#[test]
fn or_resolves_pending_fallback_at_end_of_input() {
    // The first alternative can never match; at the end of input the
    // accumulated bytes are replayed into the second.
    let p = literal(b"ab".as_slice()).or(literal(b"a".as_slice()).optional());
    let p = match p.feed(b"a".as_slice()) {
        Ok(Update { outcome: Outcome::Next(next), .. }) => next,
        _ => panic!("expected progress"),
    };
    match p.pending_at_end() {
        Some(Either::Right(Some(x))) => assert_eq!(x, b"a"),
        _ => panic!("expected the fallback's pending value"),
    }
}

#[test]
fn then_finalizes_on_the_remainder() {
    let p = literal(b"ab".as_slice()).then(literal(b"cd".as_slice()));
    let p = match p.feed(b"abcd".as_slice()) {
        Ok(Update { consumed: 2, outcome: Outcome::Next(next) }) => next,
        _ => panic!("expected the first half to complete"),
    };
    match p.finalize(b"cd".as_slice()) {
        Ok(Some((x, y))) => {
            assert_eq!(x, b"ab");
            assert_eq!(y, b"cd");
        },
        _ => panic!("expected the pair at the end of input"),
    }
}

#[test]
fn then_cannot_finalize_half_done() {
    let p = literal(b"ab".as_slice()).then(literal(b"cd".as_slice()));
    let p = match p.feed(b"ab".as_slice()) {
        Ok(Update { consumed: 2, outcome: Outcome::Next(next) }) => next,
        _ => panic!("expected the first half to complete"),
    };
    assert!(matches!(p.finalize(b"".as_slice()), Ok(None)));
}

#[test]
fn map_output_converts_the_parsed_value() {
    let p = literal(b"Hello".as_slice()).map_output(|x: &[u8]| x.len());
    match p.feed(b"Hello World!".as_slice()) {
        Ok(Update { consumed, outcome: Outcome::Parsed(n) }) => {
            assert_eq!(consumed, 5);
            assert_eq!(n, 5);
        },
        _ => panic!("expected a converted output"),
    }
}

#[test]
fn map_output_passes_errors_through() {
    let p = literal(b"Hello".as_slice()).map_output(|x: &[u8]| x.len());
    assert!(matches!(p.feed(b"nope".as_slice()), Err(ParseError::UnexpectedInput)));
}
