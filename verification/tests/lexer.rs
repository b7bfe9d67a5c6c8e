use moonjuice::common::{Keyword, Operator, Position, SpecialCharacter};
use moonjuice::lexer::{Lexer, Token, TokenValue};

fn lex(source: &str) -> Vec<Token> {
    Lexer::tokenise(source.chars().collect())
}

fn token(value: TokenValue, lexeme: &str, start: (usize, usize), end: (usize, usize)) -> Token {
    Token {
        value,
        lexeme: lexeme.to_string(),
        start: Position { line: start.0, column: start.1 },
        end: Position { line: end.0, column: end.1 },
    }
}

/// The one token of a source text on one line.
fn single(value: TokenValue, lexeme: &str) -> Vec<Token> {
    vec![token(value, lexeme, (1, 1), (1, lexeme.len() + 1))]
}

#[test]
fn should_parse_single_line_comment() {
    let tokens = lex("-- this is a comment");
    assert_eq!(
        tokens,
        vec![token(
            TokenValue::Comment(" this is a comment".to_string()),
            "-- this is a comment",
            (1, 1),
            (1, 21),
        )]
    );
}

#[test]
fn should_parse_multiline_comment() {
    let tokens = lex("--[[\n  This is a multi-line\n  comment.\n--]]\n");
    assert_eq!(
        tokens,
        vec![token(
            TokenValue::Comment("\n  This is a multi-line\n  comment.\n".to_string()),
            "--[[\n  This is a multi-line\n  comment.\n--]]",
            (1, 1),
            (4, 5),
        )]
    );
}

#[test]
fn should_parse_multiline_comment_when_overrunning() {
    let tokens = lex("--[[\n  This is a multi-line\n  comment.\n");
    assert_eq!(
        tokens,
        vec![token(
            TokenValue::Comment("\n  This is a multi-line\n  comment.\n".to_string()),
            "--[[\n  This is a multi-line\n  comment.\n",
            (1, 1),
            (4, 1),
        )]
    );
}

#[test]
fn should_handle_malformed_numbers_when_multiple_decimal_points() {
    let tokens = lex("1.2.3.4");
    assert_eq!(
        tokens,
        vec![token(
            TokenValue::MalformedNumber(
                "Numbers must contain no more than one decimal point".to_string()
            ),
            "1.2.3.4",
            (1, 1),
            (1, 8),
        )]
    );
}

#[test]
fn should_parse_nil() {
    assert_eq!(lex("nil"), vec![token(TokenValue::Nil, "nil", (1, 1), (1, 4))]);
}

#[test]
fn integer_numerals_take_their_radix_and_skip_underscores() {
    let cases: [(&str, i64); 4] = [("123", 123), ("0xA4", 0xA4), ("0b1101", 0b1101), ("1_234", 1234)];
    for (lexeme, value) in cases {
        assert_eq!(lex(lexeme), single(TokenValue::Int(value), lexeme), "{}", lexeme);
    }
}

#[test]
fn decimal_numerals_keep_their_digits_without_underscores() {
    let cases = [("1.23", "1.23", 1.23f64), ("1_234.567_89", "1234.56789", 1234.56789f64)];
    for (lexeme, text, value) in cases {
        assert_eq!(lex(lexeme), single(TokenValue::Double(text.to_string()), lexeme), "{}", lexeme);
        assert_eq!(text.parse::<f64>().unwrap(), value);
    }
}

#[test]
fn a_digit_must_follow_a_prefix_a_point_or_an_underscore() {
    let cases = [("0x", "0x"), ("0b", "0b"), ("1.", "."), ("1_", "_")];
    for (lexeme, after) in cases {
        let message = format!("A digit must follow '{}'", after);
        assert_eq!(lex(lexeme), single(TokenValue::MalformedNumber(message), lexeme), "{}", lexeme);
    }
}

#[test]
fn hex_and_binary_numerals_have_no_decimal_point() {
    for lexeme in ["0x1.1", "0b1.1"] {
        let message = "Hex and binary number literals do not support floating point".to_string();
        assert_eq!(lex(lexeme), single(TokenValue::MalformedNumber(message), lexeme), "{}", lexeme);
    }
}

#[test]
fn numerals_with_digits_beyond_their_radix_are_malformed() {
    let cases = [
        ("12FAB", "Number contains hexadecimal digits, did you mean 0x12FAB?"),
        ("0b0123", "Number contains decimal digits, did you mean 0123?"),
        ("0b12AB", "Number contains hexadecimal digits, did you mean 0x12AB?"),
        ("1G", "Number '1G' contains invalid characters"),
        ("0b1G", "Number '0b1G' contains invalid characters"),
        ("0x1G", "Number '0x1G' contains invalid characters"),
    ];
    for (lexeme, message) in cases {
        assert_eq!(
            lex(lexeme),
            single(TokenValue::MalformedNumber(message.to_string()), lexeme),
            "{}",
            lexeme
        );
    }
}

#[test]
fn numerals_too_large_for_an_integer_are_malformed() {
    let lexeme = "99999999999999999999";
    assert_eq!(
        lex(lexeme),
        single(
            TokenValue::MalformedNumber("number too large to fit in target type".to_string()),
            lexeme
        )
    );
}

#[test]
fn should_not_consume_concat_operator() {
    // The numeral stops before `..`, which is read as the concatenation
    // operator.
    assert_eq!(
        lex("1..2"),
        vec![
            token(TokenValue::Int(1), "1", (1, 1), (1, 2)),
            token(TokenValue::Operator(Operator::Concat), "..", (1, 2), (1, 4)),
            token(TokenValue::Int(2), "2", (1, 4), (1, 5)),
        ]
    );
}

#[test]
fn keywords_are_read_as_keywords() {
    let cases = [
        ("break", Keyword::Break),
        ("continue", Keyword::Continue),
        ("return", Keyword::Return),
        ("do", Keyword::Do),
        ("end", Keyword::End),
        ("fn", Keyword::Function),
        ("if", Keyword::If),
        ("then", Keyword::Then),
        ("else", Keyword::Else),
        ("elseif", Keyword::ElseIf),
        ("for", Keyword::For),
        ("in", Keyword::In),
        ("def", Keyword::Constant),
        ("mut", Keyword::Mutable),
        ("export", Keyword::Export),
    ];
    for (lexeme, keyword) in cases {
        assert_eq!(lex(lexeme), single(TokenValue::Keyword(keyword), lexeme), "{}", lexeme);
    }
}

#[test]
fn booleans_and_word_operators_are_read() {
    assert_eq!(lex("true"), single(TokenValue::Bool(true), "true"));
    assert_eq!(lex("false"), single(TokenValue::Bool(false), "false"));
    let cases = [("not", Operator::Not), ("and", Operator::And), ("or", Operator::Or)];
    for (lexeme, operator) in cases {
        assert_eq!(lex(lexeme), single(TokenValue::Operator(operator), lexeme), "{}", lexeme);
    }
}

#[test]
fn other_words_are_symbols() {
    assert_eq!(lex("nilly"), single(TokenValue::Symbol("nilly".to_string()), "nilly"));
    assert_eq!(lex("_a1"), single(TokenValue::Symbol("_a1".to_string()), "_a1"));
}

#[test]
fn operators_are_read_longest_first() {
    let cases = [
        ("+", Operator::Add),
        ("-", Operator::Subtract),
        ("*", Operator::Multiply),
        ("/", Operator::Divide),
        ("%", Operator::Modulo),
        ("..", Operator::Concat),
        ("#", Operator::Length),
        ("??", Operator::OptionalCoalesce),
        ("==", Operator::Equals),
        ("~=", Operator::NotEquals),
        ("<", Operator::LessThan),
        (">", Operator::GreaterThan),
        ("<=", Operator::LessThanOrEqual),
        (">=", Operator::GreaterThanOrEqual),
        ("|>", Operator::Pipe),
        (".", Operator::Index),
        ("?.", Operator::OptionalIndex),
        ("=", Operator::Assignment),
        ("~", Operator::BitwiseNot),
        ("&", Operator::BitwiseAnd),
        ("|", Operator::BitwiseOr),
        ("^", Operator::BitwiseXor),
        ("<<", Operator::LeftShift),
        (">>", Operator::RightShift),
    ];
    for (lexeme, operator) in cases {
        assert_eq!(lex(lexeme), single(TokenValue::Operator(operator), lexeme), "{}", lexeme);
    }
}

#[test]
fn special_characters_are_read() {
    let cases = [
        ("(", SpecialCharacter::OpenBracket),
        (")", SpecialCharacter::CloseBracket),
        ("[", SpecialCharacter::OpenSquareBracket),
        ("]", SpecialCharacter::CloseSquareBracket),
        ("{", SpecialCharacter::OpenCurlyBracket),
        ("}", SpecialCharacter::CloseCurlyBracket),
        (",", SpecialCharacter::Comma),
        (":", SpecialCharacter::Colon),
    ];
    for (lexeme, value) in cases {
        assert_eq!(lex(lexeme), single(TokenValue::SpecialCharacter(value), lexeme), "{}", lexeme);
    }
}

#[test]
fn strings_are_read_between_matching_delimiters() {
    for delimiter in ["'", "\"", "''", "\"\""] {
        let lexeme = format!("{}some string{}", delimiter, delimiter);
        assert_eq!(
            lex(&lexeme),
            single(TokenValue::String("some string".to_string()), &lexeme),
            "{}",
            lexeme
        );
    }
}

#[test]
fn a_string_may_span_lines() {
    let tokens = lex("'a\nb'");
    assert_eq!(tokens, vec![token(TokenValue::String("a\nb".to_string()), "'a\nb'", (1, 1), (2, 3))]);
}

#[test]
fn a_string_without_its_closing_delimiter_is_malformed() {
    let cases = [("'a", "'"), ("\"b", "\""), ("''mismatched'", "''")];
    for (lexeme, delimiter) in cases {
        let message = format!("Missing closing {}", delimiter);
        assert_eq!(lex(lexeme), single(TokenValue::MalformedString(message), lexeme), "{}", lexeme);
    }
}

#[test]
fn an_unexpected_character_is_a_token_of_its_own() {
    assert_eq!(lex("$"), single(TokenValue::UnexpectedCharacter('$'), "$"));
    assert_eq!(lex("?"), single(TokenValue::UnexpectedCharacter('?'), "?"));
}

#[test]
fn whitespace_separates_tokens_and_moves_positions() {
    let tokens = lex("  a\n\tb = 1");
    assert_eq!(
        tokens,
        vec![
            token(TokenValue::Symbol("a".to_string()), "a", (1, 3), (1, 4)),
            token(TokenValue::Symbol("b".to_string()), "b", (2, 2), (2, 3)),
            token(TokenValue::Operator(Operator::Assignment), "=", (2, 4), (2, 5)),
            token(TokenValue::Int(1), "1", (2, 6), (2, 7)),
        ]
    );
}

#[test]
fn an_empty_or_blank_text_has_no_tokens() {
    assert_eq!(lex(""), vec![]);
    assert_eq!(lex(" \n\t "), vec![]);
}

#[test]
fn a_comment_runs_to_the_end_of_its_line() {
    assert_eq!(
        lex("-- c\nx"),
        vec![
            token(TokenValue::Comment(" c".to_string()), "-- c", (1, 1), (1, 5)),
            token(TokenValue::Symbol("x".to_string()), "x", (2, 1), (2, 2)),
        ]
    );
}

#[test]
fn tokens_lie_in_order_and_are_no_more_than_the_characters() {
    let source = "a = { 1, 'x' } -- c\nif a then\n  b(a.c, 2.5)\nend";
    let tokens = lex(source);
    assert!(tokens.len() <= source.chars().count());
    for pair in tokens.windows(2) {
        let (a, b) = (&pair[0], &pair[1]);
        assert!((a.end.line, a.end.column) <= (b.start.line, b.start.column));
        assert!((a.start.line, a.start.column) <= (a.end.line, a.end.column));
    }
    assert!(tokens.iter().all(|t| t.start.line >= 1 && t.start.column >= 1 && t.end.column >= 1));
}

#[test]
fn should_parse_format_string() {
    // A segment ends just before the `{` of the hole after it, and the next
    // one starts just after the `}` that closes the hole.
    let tokens = lex("'start{}middle{}end'");
    assert_eq!(
        tokens,
        vec![
            token(TokenValue::FormatStringStart("start".to_string()), "'start", (1, 1), (1, 7)),
            token(TokenValue::FormatStringMiddle("middle".to_string()), "middle", (1, 9), (1, 15)),
            token(TokenValue::FormatStringEnd("end".to_string()), "end'", (1, 17), (1, 21)),
        ]
    );
}

#[test]
fn should_parse_minimal_format_string() {
    // Both segments are empty: each value is the text between its delimiter
    // and its brace.
    let tokens = lex("'{}'");
    assert_eq!(
        tokens,
        vec![
            token(TokenValue::FormatStringStart("".to_string()), "'", (1, 1), (1, 2)),
            token(TokenValue::FormatStringEnd("".to_string()), "'", (1, 4), (1, 5)),
        ]
    );
}

#[test]
fn what_stands_in_a_hole_is_read_as_tokens() {
    let tokens = lex("\"a{ f({1}) }b\"");
    let values: Vec<TokenValue> = tokens.into_iter().map(|t| t.value).collect();
    assert_eq!(
        values,
        vec![
            TokenValue::FormatStringStart("a".to_string()),
            TokenValue::Symbol("f".to_string()),
            TokenValue::SpecialCharacter(SpecialCharacter::OpenBracket),
            TokenValue::SpecialCharacter(SpecialCharacter::OpenCurlyBracket),
            TokenValue::Int(1),
            TokenValue::SpecialCharacter(SpecialCharacter::CloseCurlyBracket),
            TokenValue::SpecialCharacter(SpecialCharacter::CloseBracket),
            TokenValue::FormatStringEnd("b".to_string()),
        ]
    );
}

#[test]
fn a_format_string_in_a_hole_opens_its_own_holes() {
    let tokens = lex("'a{'b{1}c'}d'");
    let values: Vec<TokenValue> = tokens.into_iter().map(|t| t.value).collect();
    assert_eq!(
        values,
        vec![
            TokenValue::FormatStringStart("a".to_string()),
            TokenValue::FormatStringStart("b".to_string()),
            TokenValue::Int(1),
            TokenValue::FormatStringEnd("c".to_string()),
            TokenValue::FormatStringEnd("d".to_string()),
        ]
    );
}

#[test]
fn an_unterminated_format_string_is_malformed() {
    let tokens = lex("'a{1}b");
    let values: Vec<TokenValue> = tokens.into_iter().map(|t| t.value).collect();
    assert_eq!(
        values,
        vec![
            TokenValue::FormatStringStart("a".to_string()),
            TokenValue::Int(1),
            TokenValue::MalformedString("Missing closing '".to_string()),
        ]
    );
}

#[test]
fn should_parse_escape_sequences() {
    let cases = [
        ("\\\"", "\""),
        ("\\'", "'"),
        ("\\n", "\n"),
        ("\\r", "\r"),
        ("\\t", "\t"),
        ("\\\\", "\\"),
        ("\\0", "\0"),
        ("\\x41", "\x41"),
        ("\\u{263A}", "☺"),
        ("\\{}", "{}"),
    ];
    for (sequence, value) in cases {
        let lexeme = format!("'{}'", sequence);
        assert_eq!(
            lex(&lexeme),
            vec![token(TokenValue::String(value.to_string()), &lexeme, (1, 1), (1, lexeme.chars().count() + 1))],
            "{}",
            lexeme
        );
    }
}

#[test]
fn other_backslashes_stand_for_themselves() {
    let cases = [("'\\q'", "\\q"), ("'\\x4'", "\\x4"), ("'\\u263A'", "\\u263A"), ("'\\xFF'", "\\xFF")];
    for (lexeme, value) in cases {
        assert_eq!(lex(lexeme), single(TokenValue::String(value.to_string()), lexeme), "{}", lexeme);
    }
}

#[test]
fn should_parse_multiline_string() {
    // The token ends after the whole closing delimiter.
    for delimiter in ["'", "\"", "''", "\"\""] {
        let lexeme = format!("{}\nmulti-line string\nunindented\n{}", delimiter, delimiter);
        assert_eq!(
            lex(&lexeme),
            vec![token(
                TokenValue::String("multi-line string\nunindented".to_string()),
                &lexeme,
                (1, 1),
                (4, 1 + delimiter.len()),
            )],
            "{}",
            lexeme
        );
    }
}

#[test]
fn should_parse_multiline_string_with_unindent() {
    // The token ends with the closing quote, before the line feed that
    // follows it; what stays of the indentation is what each line has beyond
    // the common indentation.
    for indentation in [" ", "  ", "    ", "\t"] {
        let source = format!("'\n{}unindented\n{}{}indented\n'\n", indentation, indentation, indentation);
        let lexeme = source.trim_end();
        let value = format!("unindented\n{}indented", indentation);
        assert_eq!(
            lex(&source),
            vec![token(TokenValue::String(value), lexeme, (1, 1), (4, 2))],
            "{:?}",
            indentation
        );
    }
    assert_eq!(
        lex("'\n  unindented\n    indented\n'\n"),
        vec![token(
            TokenValue::String("unindented\n  indented".to_string()),
            "'\n  unindented\n    indented\n'",
            (1, 1),
            (4, 2),
        )]
    );
}

#[test]
fn blank_lines_do_not_count_towards_the_common_indentation() {
    let lexeme = "'\n    a\n\n      b\n  '";
    assert_eq!(lex(lexeme), single_multiline(TokenValue::String("a\n\n  b".to_string()), lexeme, (5, 4)));
}

#[test]
fn a_string_on_one_line_keeps_its_spaces() {
    assert_eq!(lex("'  a  '"), single(TokenValue::String("  a  ".to_string()), "'  a  '"));
}

fn single_multiline(value: TokenValue, lexeme: &str, end: (usize, usize)) -> Vec<Token> {
    vec![token(value, lexeme, (1, 1), end)]
}

/// The index of the character at `p` in `source`.
fn index_of(source: &[char], p: Position) -> usize {
    let mut line = 1;
    let mut column = 1;
    let mut i = 0;
    while (line, column) != (p.line, p.column) {
        if source[i] == '\n' {
            line += 1;
            column = 1;
        } else {
            column += 1;
        }
        i += 1;
    }
    i
}

#[test]
fn every_token_is_the_text_between_its_start_and_its_end() {
    let source: Vec<char> = "a = 'x{b + 1}y' -- note\n  c(\"\\u{263A}\")\n'''\n  long\n  text\n  ''' 0x1F"
        .chars()
        .collect();
    let tokens = Lexer::tokenise(source.clone());
    assert_eq!(tokens.len(), 14);
    for t in tokens {
        let a = index_of(&source, t.start);
        let b = index_of(&source, t.end);
        let text: String = source[a..b].iter().collect();
        assert_eq!(text, t.lexeme);
    }
}
