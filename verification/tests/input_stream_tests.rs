use html_formatter::input_stream::{InputStream, StreamError};

#[test]
fn new_stream_stands_at_line_one_column_zero() {
    let stream = InputStream::new("ab");
    assert_eq!(stream.line(), 1);
    assert_eq!(stream.col(), 0);
    assert_eq!(stream.input(), "ab");
    assert!(!stream.eof());
}

#[test]
fn peek_does_not_move() {
    let stream = InputStream::new("ab");
    assert_eq!(stream.peek(), Ok('a'));
    assert_eq!(stream.peek(), Ok('a'));
    assert_eq!(stream.col(), 0);
}

#[test]
fn next_moves_one_column() {
    let mut stream = InputStream::new("ab");
    assert_eq!(stream.next(), Ok('a'));
    assert_eq!((stream.line(), stream.col()), (1, 1));
    assert_eq!(stream.next(), Ok('b'));
    assert_eq!((stream.line(), stream.col()), (1, 2));
    assert!(stream.eof());
}

#[test]
fn newline_starts_a_line_at_column_zero() {
    let mut stream = InputStream::new("a\n\nb");
    stream.next().unwrap();
    assert_eq!(stream.next(), Ok('\n'));
    assert_eq!((stream.line(), stream.col()), (2, 0));
    assert_eq!(stream.next(), Ok('\n'));
    assert_eq!((stream.line(), stream.col()), (3, 0));
    assert_eq!(stream.next(), Ok('b'));
    assert_eq!((stream.line(), stream.col()), (3, 1));
}

#[test]
fn reading_past_the_end_fails() {
    let mut stream = InputStream::new("a");
    stream.next().unwrap();
    assert!(stream.eof());
    assert_eq!(stream.peek(), Err(StreamError::EndOfInput));
    assert_eq!(stream.next(), Err(StreamError::EndOfInput));
    assert_eq!((stream.line(), stream.col()), (1, 1));
}

#[test]
fn empty_input_is_at_its_end() {
    let mut stream = InputStream::new("");
    assert!(stream.eof());
    assert_eq!(stream.peek(), Err(StreamError::EndOfInput));
    assert_eq!(stream.next(), Err(StreamError::EndOfInput));
}

#[test]
fn characters_are_counted_not_bytes() {
    let mut stream = InputStream::new("é越");
    assert_eq!(stream.next(), Ok('é'));
    assert_eq!(stream.col(), 1);
    assert!(!stream.eof());
    assert_eq!(stream.next(), Ok('越'));
    assert_eq!(stream.col(), 2);
    assert!(stream.eof());
}

#[test]
fn try_new_accepts_ordinary_input() {
    let stream = InputStream::try_new("abc");
    assert!(stream.is_some());
    assert_eq!(stream.unwrap().peek(), Ok('a'));
}

#[test]
fn croak_names_the_place() {
    let mut stream = InputStream::new("a\nbc");
    assert_eq!(stream.croak("unexpected"), "unexpected (1:0)");
    stream.next().unwrap();
    stream.next().unwrap();
    stream.next().unwrap();
    assert_eq!(stream.croak("bad char"), "bad char (2:1)");
}

#[test]
fn croak_writes_numbers_in_decimal() {
    let text = "x".repeat(1203);
    let mut stream = InputStream::new(&text);
    for _ in 0..1203 {
        stream.next().unwrap();
    }
    assert_eq!(stream.croak("end"), "end (1:1203)");
}
