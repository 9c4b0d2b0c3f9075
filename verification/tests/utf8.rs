use pushparse::either::Either;
use pushparse::error::ParseError;
use pushparse::parser::{from_utf8_partial, Outcome, ParserCore, PushParser, TextParser, Update};
use pushparse::sequence::SequenceParser;
use pushparse::primitive::literal;

const TEXT: &str = "Hello \u{1F30F}! Nice to meet you.";

#[test]
fn decode_ascii_completely() {
    let (chars, used) = from_utf8_partial(b"Hello".as_slice()).unwrap();
    assert_eq!(used, 5);
    let expected: Vec<char> = "Hello".chars().collect();
    assert_eq!(chars, expected);
}

#[test]
fn decode_keeps_cut_off_character_for_later() {
    let bytes = TEXT.as_bytes();
    // Cut inside the four-byte emoji, which starts at byte 6.
    for cut in 7..10 {
        let (chars, used) = from_utf8_partial(&bytes[..cut]).unwrap();
        assert_eq!(used, 6);
        let expected: Vec<char> = "Hello ".chars().collect();
        assert_eq!(chars, expected);
    }
}

#[test]
fn decode_rejects_stray_continuation_byte() {
    let r = from_utf8_partial(&[b'a', 0x80]);
    assert!(matches!(r, Err(e) if e.valid_up_to == 1));
}

#[test]
fn decode_rejects_overlong_encoding() {
    let r = from_utf8_partial(&[0xc0, 0x80]);
    assert!(matches!(r, Err(e) if e.valid_up_to == 0));
}

#[test]
fn decode_rejects_surrogate_encoding() {
    let r = from_utf8_partial(&[0xed, 0xa0, 0x80]);
    assert!(matches!(r, Err(e) if e.valid_up_to == 0));
}

#[test]
fn decode_rejects_out_of_range_leading_byte() {
    let r = from_utf8_partial(&[0xff]);
    assert!(matches!(r, Err(e) if e.valid_up_to == 0));
}

#[test]
fn utf8_literal_chunk_size_independence() {
    let expected: Vec<char> = TEXT.chars().collect();
    let bytes = TEXT.as_bytes();
    let mut sizes: Vec<usize> = (1..=16).collect();
    sizes.push(65536);
    for chunk in sizes {
        let mut parser = literal(expected.as_slice()).into_utf8_parser();
        let mut retained: Vec<u8> = Vec::new();
        let mut offered = 0;
        let mut total_consumed = 0;
        let mut output: Option<Vec<char>> = None;
        while offered < bytes.len() {
            let take = chunk.min(bytes.len() - offered);
            retained.extend_from_slice(&bytes[offered..offered + take]);
            offered += take;
            match parser.feed(retained.as_slice()) {
                Ok(Update { consumed, outcome }) => {
                    total_consumed += consumed;
                    retained.drain(..consumed);
                    match outcome {
                        Outcome::Next(next) => parser = next,
                        Outcome::Parsed(x) => {
                            output = Some(x.to_vec());
                            break;
                        },
                    }
                },
                Err(_) => panic!("unexpected parse error at chunk size {chunk}"),
            }
        }
        assert_eq!(output.expect("the literal must complete"), expected);
        assert_eq!(total_consumed, bytes.len());
        assert!(retained.is_empty());
    }
}

#[test]
fn utf8_adapter_rejects_dangling_partial_character_at_end_of_input() {
    // A repetition resolves at end of input, but a lone leading byte of an
    // unfinished character must not be dropped silently.
    let value: Vec<char> = "a".chars().collect();
    let p = literal(value.as_slice()).repeated().collect().into_utf8_parser();
    assert!(matches!(
        p.finalize(&[b'a', 0xf0]),
        Err(ParseError::ExpectedMoreInput)
    ));
}

#[test]
fn utf8_adapter_finalizes_a_clean_remainder() {
    let value: Vec<char> = "ab".chars().collect();
    let p = literal(value.as_slice()).into_utf8_parser();
    match p.finalize(b"ab".as_slice()) {
        Ok(Some(x)) => assert_eq!(x, value.as_slice()),
        _ => panic!("expected the value at the end of input"),
    }
}

#[test]
fn utf8_adapter_reports_invalid_bytes_as_its_own_error() {
    let expected: Vec<char> = "ab".chars().collect();
    let parser = literal(expected.as_slice()).into_utf8_parser();
    match parser.feed(&[b'a', 0xc0, 0x80]) {
        Err(ParseError::Custom(Either::Right(e))) => assert_eq!(e.valid_up_to, 1),
        _ => panic!("expected an encoding error"),
    }
}

#[test]
fn utf8_adapter_waits_for_a_split_character() {
    let expected: Vec<char> = "\u{00e9}x".chars().collect();
    let bytes = "\u{00e9}x".as_bytes();
    let parser = literal(expected.as_slice()).into_utf8_parser();
    // Only the first byte of the two-byte character arrives.
    let parser = match parser.feed(&bytes[..1]) {
        Ok(Update { consumed: 0, outcome: Outcome::Next(next) }) => next,
        _ => panic!("expected the adapter to wait"),
    };
    match parser.feed(bytes) {
        Ok(Update { consumed, outcome: Outcome::Parsed(x) }) => {
            assert_eq!(consumed, bytes.len());
            assert_eq!(x, expected.as_slice());
        },
        _ => panic!("expected completion"),
    }
}
