use rcombinators::{ParseState, Parser, StringParser};

#[test]
fn test_basic() {
    let mut s = ParseState::new("Hello");
    assert_eq!(Some('H'), s.next());
    let mut rest = String::new();
    while let Some(c) = s.next() {
        rest.push(c);
    }
    assert_eq!("ello", rest);

    let mut s = ParseState::new("Hello");
    let hold = s.hold();
    s.next();
    s.next();
    s.next();
    assert_eq!(Some('l'), s.peek());
    assert_eq!(Some('l'), s.next());
    s.reset(hold);
    let mut rest = String::new();
    while let Some(c) = s.next() {
        rest.push(c);
    }
    assert_eq!("Hello", rest);
}

#[test]
fn test_utf8_stream() {
    let s = "Hüðslþ".to_owned();
    let mut ps = ParseState::from_reader(s.as_bytes());
    assert_eq!(Some('H'), ps.next());
    assert_eq!(
        Ok("üð".to_string()),
        StringParser::new("üð").parse(&mut ps)
    );
}

#[test]
fn test_reset_restores_observations() {
    let mut s = ParseState::new("abcdef");
    s.next();
    let before_index = s.index();
    let before_peek = s.peek();
    let hold = s.hold();
    s.next();
    s.next();
    s.next();
    assert_eq!(4, s.index());
    s.reset(hold);
    assert_eq!(before_index, s.index());
    assert_eq!(before_peek, s.peek());
    assert_eq!(Some('b'), s.next());
}

#[test]
fn test_end_of_input() {
    let mut s = ParseState::new("x");
    assert!(!s.finished());
    assert_eq!(Some('x'), s.next());
    assert_eq!(None, s.peek());
    assert_eq!(None, s.next());
    assert!(s.finished());
    assert_eq!(1, s.index());
}

#[test]
fn test_undo_next() {
    let mut s = ParseState::new("ab");
    let hold = s.hold();
    assert_eq!(Some('a'), s.next());
    s.undo_next();
    assert_eq!(0, s.index());
    assert_eq!(Some('a'), s.next());
    s.release(hold);
}

#[test]
fn test_from_reader_skips_malformed() {
    // 0xff never starts a UTF-8 sequence and is skipped; the rest decodes.
    let bytes: Vec<u8> = vec![b'a', 0xff, b'b'];
    let mut s = ParseState::from_reader(&bytes);
    assert_eq!(Some('a'), s.next());
    assert_eq!(Some('b'), s.next());
    assert_eq!(None, s.next());
}

#[test]
fn test_empty_input() {
    let mut s = ParseState::new("");
    assert_eq!(None, s.peek());
    assert_eq!(None, s.next());
    assert!(s.finished());
    assert_eq!(0, s.index());
}
