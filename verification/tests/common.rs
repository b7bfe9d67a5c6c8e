use moonjuice::common::error::Error;
use moonjuice::common::Position;
use moonjuice::peekable_stream::PeekableStream;

#[test]
fn an_error_shows_its_line_and_marks_its_span() {
    let error = Error {
        message: "Expected 'end'".to_string(),
        start: Position { line: 12, column: 3 },
        end: Position { line: 12, column: 6 },
        path: "main.mj".to_string(),
        line_contents: "  foo(".to_string(),
    };
    assert_eq!(
        error.render(),
        "main.mj:12:3\n   |\n12 |   foo(\n   |   ^^^\nSyntax Error: Expected 'end'"
    );
}

#[test]
fn an_error_ending_before_it_starts_gets_one_caret() {
    let error = Error {
        message: "m".to_string(),
        start: Position { line: 1, column: 4 },
        end: Position { line: 2, column: 2 },
        path: "p".to_string(),
        line_contents: "abcd".to_string(),
    };
    assert_eq!(error.render(), "p:1:4\n  |\n1 | abcd\n  |    ^\nSyntax Error: m");
}

#[test]
fn an_error_at_column_zero_gets_no_indent() {
    let error = Error {
        message: "m".to_string(),
        start: Position { line: 100, column: 0 },
        end: Position { line: 100, column: 0 },
        path: "p".to_string(),
        line_contents: "x".to_string(),
    };
    assert_eq!(error.render(), "p:100:0\n    |\n100 | x\n    | \nSyntax Error: m");
}

#[test]
fn a_stream_looks_ahead_and_behind() {
    let mut stream = PeekableStream::new(vec!['a', 'b', 'c']);
    assert_eq!(stream.peek_next(), Some(&'a'));
    assert_eq!(stream.peek(2), Some(&'c'));
    assert_eq!(stream.peek(3), None);
    assert_eq!(stream.peek_back(1), None);
    assert_eq!(stream.consume(), Some(&'a'));
    assert_eq!(stream.get_index(), 1);
    assert_eq!(stream.peek_back(1), Some(&'a'));
    assert!(stream.is_match(&['b', 'c']));
    assert!(!stream.is_match(&['b', 'c', 'd']));
    assert!(stream.has_remaining(2));
    assert!(!stream.has_remaining(3));
    stream.advance_by(5);
    assert!(!stream.has_next());
    assert_eq!(stream.consume(), None);
    assert_eq!(stream.unwrap(), &vec!['a', 'b', 'c']);
}

#[test]
fn consume_if_takes_the_next_item_only_when_it_matches() {
    let mut stream = PeekableStream::new(vec![1, 2]);
    assert_eq!(stream.consume_if(|x: &i32| *x == 2), None);
    assert_eq!(stream.get_index(), 0);
    assert_eq!(stream.consume_if(|x: &i32| *x == 1), Some(&1));
    assert_eq!(stream.get_index(), 1);
}

#[test]
fn calls_on_a_stream_never_change_its_items() {
    let items = vec![1, 2, 3, 4];
    let mut stream = PeekableStream::new(items.clone());
    assert_eq!(stream.consume(), Some(&1));
    stream.advance_by(2);
    assert_eq!(stream.consume_if(|x| *x == 4), Some(&4));
    assert_eq!(stream.consume(), None);
    assert_eq!(stream.peek_back(1), Some(&4));
    assert_eq!(stream.get_index(), 4);
    assert_eq!(stream.unwrap(), &items);
}

#[test]
fn is_match_compares_items_of_any_type() {
    let mut stream = PeekableStream::new(vec![1u32, 2, 3]);
    stream.consume();
    assert!(stream.is_match(&[2, 3]));
    assert!(!stream.is_match(&[2, 4]));
    assert!(!stream.is_match(&[2, 3, 4]));
    assert!(stream.is_match(&[]));
}
