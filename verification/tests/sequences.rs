use pushparse::parser::{Outcome, ParserCore, PushParser, Update};
use pushparse::primitive::literal;
use pushparse::sequence::SequenceParser;

#[test]
fn collect_gathers_three_matches_and_stops() {
    let p = literal(b"Hello".as_slice()).repeated().collect();
    match p.feed(b"HelloHelloHello World!".as_slice()) {
        Ok(Update { consumed, outcome: Outcome::Parsed(items) }) => {
            assert_eq!(consumed, 15);
            assert_eq!(items, vec![b"Hello".as_slice(), b"Hello".as_slice(), b"Hello".as_slice()]);
        },
        _ => panic!("expected three items"),
    }
}

#[test]
fn collect_of_no_match_is_empty_not_an_error() {
    let p = literal(b"Hello".as_slice()).repeated().collect();
    match p.feed(b"Goodbye World!".as_slice()) {
        Ok(Update { consumed, outcome: Outcome::Parsed(items) }) => {
            assert_eq!(consumed, 0);
            let empty: Vec<&[u8]> = vec![];
            assert_eq!(items, empty);
        },
        _ => panic!("expected an empty collection"),
    }
}

#[test]
fn collect_partial_match_stays_pending() {
    let p = literal(b"Hello".as_slice()).repeated().collect();
    assert!(matches!(
        p.feed(b"Hell".as_slice()),
        Ok(Update { consumed: 0, outcome: Outcome::Next(_) })
    ));
}

#[test]
fn collect_takes_items_then_finalizes_on_remainder() {
    let p = literal(b"Hello".as_slice()).repeated().collect();
    let p = match p.feed(b"HelloHel".as_slice()) {
        Ok(Update { consumed: 5, outcome: Outcome::Next(next) }) => next,
        _ => panic!("expected one item and a pending attempt"),
    };
    // The driver retains the unconsumed remainder and hands it to finalize.
    match p.finalize(b"Hel".as_slice()) {
        Ok(Some(items)) => assert_eq!(items, vec![b"Hello".as_slice()]),
        _ => panic!("expected the collection"),
    }
}

#[test]
fn collect_across_chunk_boundaries() {
    let p = literal(b"ab".as_slice()).repeated().collect();
    let p = match p.feed(b"aba".as_slice()) {
        Ok(Update { consumed: 2, outcome: Outcome::Next(next) }) => next,
        _ => panic!("expected one item"),
    };
    match p.feed(b"abc".as_slice()) {
        Ok(Update { consumed, outcome: Outcome::Parsed(items) }) => {
            assert_eq!(consumed, 2);
            assert_eq!(items, vec![b"ab".as_slice(), b"ab".as_slice()]);
        },
        _ => panic!("expected two items"),
    }
}

#[test]
fn collect_of_converted_items() {
    let p = literal(b"Hello".as_slice()).map_output(|x: &[u8]| x.len()).repeated().collect();
    match p.feed(b"HelloHello rest".as_slice()) {
        Ok(Update { consumed, outcome: Outcome::Parsed(items) }) => {
            assert_eq!(consumed, 10);
            assert_eq!(items, vec![5, 5]);
        },
        _ => panic!("expected converted items"),
    }
}

#[test]
fn foldl_reduces_items_as_they_arrive() {
    let p = literal(b"Hello".as_slice()).repeated().foldl(0usize, |acc: usize, x: &[u8]| {
        acc + x.len()
    });
    match p.feed(b"HelloHelloHello World!".as_slice()) {
        Ok(Update { consumed, outcome: Outcome::Parsed(total) }) => {
            assert_eq!(consumed, 15);
            assert_eq!(total, 15);
        },
        _ => panic!("expected the folded total"),
    }
}

#[test]
fn foldl_of_no_match_keeps_the_seed() {
    let p = literal(b"Hello".as_slice()).repeated().foldl(7usize, |acc: usize, x: &[u8]| {
        acc + x.len()
    });
    match p.feed(b"Goodbye".as_slice()) {
        Ok(Update { consumed: 0, outcome: Outcome::Parsed(total) }) => assert_eq!(total, 7),
        _ => panic!("expected the seed"),
    }
}

#[test]
fn repeated_yields_one_item_and_a_continuation() {
    let p = literal(b"Hello".as_slice()).repeated();
    match p.feed(b"HelloHello".as_slice()) {
        Ok(Update { consumed, outcome: Outcome::Parsed(Some((_, item))) }) => {
            assert_eq!(consumed, 5);
            assert_eq!(item, b"Hello");
        },
        _ => panic!("expected an item"),
    }
}

#[test]
fn repeated_signals_end_of_sequence_with_none() {
    let p = literal(b"Hello".as_slice()).repeated();
    assert!(matches!(
        p.feed(b"Goodbye".as_slice()),
        Ok(Update { consumed: 0, outcome: Outcome::Parsed(None) })
    ));
}
