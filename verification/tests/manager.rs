use pushparse::buffer::BufferManager;
use pushparse::error::ParseError;
use pushparse::parser::{Outcome, PushParser};
use pushparse::primitive::{end, literal};

fn fill(region: &mut [u8], data: &[u8]) -> usize {
    let n = data.len().min(region.len());
    region[..n].copy_from_slice(&data[..n]);
    n
}

#[test]
fn manager_drives_a_literal_over_small_chunks() {
    let mut mgr = BufferManager::new(vec![0u8; 4]);
    let mut parser = literal(b"HelloWorld".as_slice());
    let mut input: &[u8] = b"HelloWorld";
    loop {
        let region = mgr.get_write_slice();
        let n = fill(region, input);
        input = &input[n..];
        let step = match mgr.process_write(parser, n) {
            Ok(oc) => oc,
            Err(_) => panic!("no parse error expected"),
        };
        match step {
            Outcome::Next(next) => parser = next,
            Outcome::Parsed(x) => {
                assert_eq!(x, b"HelloWorld");
                break;
            },
        }
    }
}

#[test]
fn manager_grows_a_full_store() {
    // A backtracking parser consumes nothing until it completes, so the
    // store must grow past its initial two bytes.
    let mut mgr = BufferManager::new(vec![0u8; 2]);
    let mut parser = literal(b"abcd".as_slice()).or(literal(b"abcx".as_slice()));
    let mut input: &[u8] = b"abcx";
    loop {
        let region = mgr.get_write_slice();
        assert!(!region.is_empty());
        let n = fill(region, input);
        input = &input[n..];
        let step = match mgr.process_write(parser, n) {
            Ok(oc) => oc,
            Err(_) => panic!("no parse error expected"),
        };
        match step {
            Outcome::Next(next) => parser = next,
            Outcome::Parsed(x) => {
                assert!(matches!(x, pushparse::either::Either::Right(y) if y == b"abcx"));
                break;
            },
        }
    }
}

#[test]
fn manager_zero_read_finalizes() {
    let mut mgr = BufferManager::new(vec![0u8; 8]);
    match mgr.process_write(end(), 0) {
        Ok(Outcome::Parsed(_)) => {},
        _ => panic!("end of input should complete the end parser"),
    }
}

#[test]
fn manager_zero_read_on_pending_literal_expects_more() {
    let mut mgr = BufferManager::new(vec![0u8; 8]);
    let parser = literal(b"Hello".as_slice());
    let region = mgr.get_write_slice();
    region[..3].copy_from_slice(b"Hel");
    let parser = match mgr.process_write(parser, 3) {
        Ok(Outcome::Next(next)) => next,
        _ => panic!("expected progress"),
    };
    assert!(matches!(mgr.process_write(parser, 0), Err(ParseError::ExpectedMoreInput)));
}
