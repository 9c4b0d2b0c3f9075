use pushparse::error::ParseError;
use pushparse::parser::{Outcome, ParserBase, ParserCore, Update};
use pushparse::primitive::literal;

#[test]
fn literal_bytes_full_match_with_leftover() {
    let lit = literal(b"Hello".as_slice());
    match lit.feed(b"Hello World!".as_slice()) {
        Ok(Update { consumed, outcome: Outcome::Parsed(x) }) => {
            assert_eq!(consumed, 5);
            assert_eq!(x, b"Hello");
        },
        _ => panic!("expected a parsed literal"),
    }
}

#[test]
fn literal_bytes_mismatch_is_unexpected_input() {
    let lit = literal(b"Hello".as_slice());
    assert!(matches!(
        lit.feed(b"Goodbye World!".as_slice()),
        Err(ParseError::UnexpectedInput)
    ));
}

#[test]
fn literal_bytes_partial_match_consumes_all() {
    let lit = literal(b"Hello".as_slice());
    match lit.feed(b"Hell".as_slice()) {
        Ok(Update { consumed, outcome: Outcome::Next(_) }) => {
            assert_eq!(consumed, 4);
        },
        _ => panic!("expected a pending literal"),
    }
}

#[test]
fn literal_chars_full_match() {
    let value: Vec<char> = "Hello".chars().collect();
    let input: Vec<char> = "Hello World!".chars().collect();
    let lit = literal(value.as_slice());
    match lit.feed(input.as_slice()) {
        Ok(Update { consumed, outcome: Outcome::Parsed(x) }) => {
            assert_eq!(consumed, 5);
            assert_eq!(x, value.as_slice());
        },
        _ => panic!("expected a parsed literal"),
    }
}

#[test]
fn literal_match_across_chunks() {
    let lit = literal(b"Hello".as_slice());
    let step1 = match lit.feed(b"Hel".as_slice()) {
        Ok(Update { consumed: 3, outcome: Outcome::Next(next) }) => next,
        _ => panic!("expected progress"),
    };
    match step1.feed(b"lo rest".as_slice()) {
        Ok(Update { consumed, outcome: Outcome::Parsed(x) }) => {
            assert_eq!(consumed, 2);
            assert_eq!(x, b"Hello");
        },
        _ => panic!("expected completion"),
    }
}

#[test]
fn literal_empty_buffer_is_progress() {
    let lit = literal(b"Hi".as_slice());
    assert!(matches!(
        lit.feed(b"".as_slice()),
        Ok(Update { consumed: 0, outcome: Outcome::Next(_) })
    ));
}

#[test]
fn literal_pending_at_end_is_none() {
    let lit = literal(b"Hi".as_slice());
    assert!(lit.pending_at_end().is_none());
}

#[test]
fn literal_finalize_short_input_expects_more() {
    let lit = literal(b"Hello".as_slice());
    let r: Result<Option<&[u8]>, _> = lit.finalize(b"Hel".as_slice());
    assert!(matches!(r, Ok(None)));
}

#[test]
fn literal_finalize_full_input_parses() {
    let lit = literal(b"Hello".as_slice());
    match lit.finalize(b"Hello".as_slice()) {
        Ok(Some(x)) => assert_eq!(x, b"Hello"),
        _ => panic!("expected the value"),
    }
}
