use moonjuice::common::{Keyword, Operator, Position, SpecialCharacter};
use moonjuice::lexer::{Lexer, Token, TokenValue};
use moonjuice::lsp::diagnostics::{DiagnosticSeverity, DiagnosticsBuilder};
use moonjuice::lsp::document::{ContentChange, Document};
use moonjuice::lsp::semantic_highlighting::{
    convert_to_lsp_tokens, get_legend, get_token_type, SemanticToken, TokenModifier, TokenType,
};
use moonjuice::lsp::{LspPosition, LspRange};
use moonjuice::parser::tokenise_and_parse;

fn lex(source: &str) -> Vec<Token> {
    Lexer::tokenise(source.chars().collect())
}

fn st(delta_line: u32, delta_start: u32, length: u32, token_type: TokenType) -> SemanticToken {
    SemanticToken {
        delta_line,
        delta_start,
        length,
        token_type: token_type.number(),
        token_modifiers_bitset: 0,
    }
}

fn range(start: (u32, u32), end: (u32, u32)) -> LspRange {
    LspRange {
        start: LspPosition { line: start.0, character: start.1 },
        end: LspPosition { line: end.0, character: end.1 },
    }
}

fn value_type(value: TokenValue) -> Option<TokenType> {
    get_token_type(&Token {
        value,
        lexeme: String::new(),
        start: Position { line: 1, column: 1 },
        end: Position { line: 1, column: 1 },
    })
}

#[test]
fn the_legend_lists_each_type_at_its_number() {
    let legend = get_legend();
    assert_eq!(legend.token_types.len(), 9);
    for (i, t) in legend.token_types.iter().enumerate() {
        assert_eq!(t.number() as usize, i);
    }
    assert_eq!(legend.token_types[0], TokenType::Parameter);
    assert_eq!(legend.token_types[8], TokenType::Operator);
    assert_eq!(legend.token_modifiers, vec![TokenModifier::Readonly]);
}

#[test]
fn tokens_are_coloured_by_kind() {
    assert_eq!(value_type(TokenValue::Nil), Some(TokenType::Keyword));
    assert_eq!(value_type(TokenValue::Bool(true)), Some(TokenType::Keyword));
    assert_eq!(value_type(TokenValue::Int(1)), Some(TokenType::Number));
    assert_eq!(value_type(TokenValue::Double("1.5".to_string())), Some(TokenType::Number));
    assert_eq!(value_type(TokenValue::String("s".to_string())), Some(TokenType::String));
    assert_eq!(value_type(TokenValue::Symbol("a".to_string())), Some(TokenType::Variable));
    assert_eq!(value_type(TokenValue::Keyword(Keyword::If)), Some(TokenType::Keyword));
    assert_eq!(value_type(TokenValue::Operator(Operator::Add)), Some(TokenType::Operator));
    assert_eq!(value_type(TokenValue::Operator(Operator::And)), Some(TokenType::Keyword));
    assert_eq!(value_type(TokenValue::Operator(Operator::Not)), Some(TokenType::Keyword));
    assert_eq!(value_type(TokenValue::SpecialCharacter(SpecialCharacter::Comma)), None);
    assert_eq!(value_type(TokenValue::Comment("c".to_string())), Some(TokenType::Comment));
    assert_eq!(value_type(TokenValue::UnexpectedCharacter('$')), None);
    assert_eq!(value_type(TokenValue::MalformedNumber("m".to_string())), Some(TokenType::Number));
    assert_eq!(value_type(TokenValue::MalformedString("m".to_string())), Some(TokenType::String));
}

#[test]
fn semantic_tokens_are_relative_to_the_token_before() {
    let tokens = lex("a = 1\n  b(c)");
    assert_eq!(
        convert_to_lsp_tokens(&tokens),
        vec![
            st(0, 0, 1, TokenType::Variable),
            st(0, 2, 1, TokenType::Operator),
            st(0, 2, 1, TokenType::Number),
            st(1, 2, 1, TokenType::Variable),
            st(0, 2, 1, TokenType::Variable),
        ]
    );
}

#[test]
fn a_token_over_several_lines_gives_one_semantic_token_per_line() {
    let tokens = lex("x --[[ab\r\ncd\n--]] y");
    assert_eq!(
        convert_to_lsp_tokens(&tokens),
        vec![
            st(0, 0, 1, TokenType::Variable),
            st(0, 2, 6, TokenType::Comment),
            st(1, 0, 2, TokenType::Comment),
            st(1, 0, 4, TokenType::Comment),
            st(0, 5, 1, TokenType::Variable),
        ]
    );
}

#[test]
fn semantic_token_lengths_count_utf8_bytes() {
    let tokens = lex("'é☺'");
    assert_eq!(convert_to_lsp_tokens(&tokens), vec![st(0, 0, 7, TokenType::String)]);
}

#[test]
fn diagnostics_report_each_syntax_error_from_zero() {
    let ast = tokenise_and_parse("1 = 2\ndo".chars().collect());
    let diagnostics = DiagnosticsBuilder::new().build(&ast);
    assert_eq!(diagnostics.len(), 2);
    assert_eq!(diagnostics[0].range, range((0, 0), (0, 1)));
    assert_eq!(
        diagnostics[0].message,
        "Expected symbol or index expression (without optional chaining) on left side of assignment operator"
    );
    assert_eq!(diagnostics[0].source, "moonjuice");
    assert_eq!(diagnostics[0].severity, Some(DiagnosticSeverity::Error));
    assert_eq!(diagnostics[1].severity, Some(DiagnosticSeverity::Error));
    assert_eq!(diagnostics[1].range, range((1, 0), (1, 2)));
    assert_eq!(diagnostics[1].message, "Expected 'end' to close 'do' block");
}

#[test]
fn a_tree_without_errors_has_no_diagnostics() {
    let ast = tokenise_and_parse("a = fn(x) return x end".chars().collect());
    assert!(DiagnosticsBuilder::new().build(&ast).is_empty());
}

#[test]
fn a_document_holds_the_tokens_and_diagnostics_of_its_text() {
    let document = Document::new("a = $".to_string());
    assert_eq!(document.diagnostics().len(), 1);
    assert_eq!(document.diagnostics()[0].message, "Unexpected character '$'");
    assert_eq!(
        document.get_tokens_full(),
        vec![st(0, 0, 1, TokenType::Variable), st(0, 2, 1, TokenType::Operator)]
    );
}

#[test]
fn a_change_of_the_whole_text_replaces_the_document() {
    let mut document = Document::new("a = $".to_string());
    document.apply_change(vec![ContentChange { range: None, text: "1".to_string() }]);
    assert!(document.diagnostics().is_empty());
    assert_eq!(document.get_tokens_full(), vec![st(0, 0, 1, TokenType::Number)]);
    let reopened = Document::new("1".to_string());
    assert_eq!(document.get_tokens_full(), reopened.get_tokens_full());
}

#[test]
fn a_change_with_a_range_or_several_changes_leave_the_document_as_it_is() {
    let mut document = Document::new("a".to_string());
    document.apply_change(vec![ContentChange { range: Some(range((0, 0), (0, 1))), text: "1".to_string() }]);
    assert_eq!(document.get_tokens_full(), vec![st(0, 0, 1, TokenType::Variable)]);
    document.apply_change(vec![
        ContentChange { range: None, text: "1".to_string() },
        ContentChange { range: None, text: "2".to_string() },
    ]);
    assert_eq!(document.get_tokens_full(), vec![st(0, 0, 1, TokenType::Variable)]);
    document.apply_change(vec![]);
    assert_eq!(document.get_tokens_full(), vec![st(0, 0, 1, TokenType::Variable)]);
}

#[test]
fn tokens_of_a_range_are_those_that_overlap_it() {
    let document = Document::new("a\nb c\nd".to_string());
    assert_eq!(
        document.get_tokens_range(range((1, 0), (1, 1))),
        vec![st(1, 0, 1, TokenType::Variable)]
    );
    assert_eq!(
        document.get_tokens_range(range((1, 2), (2, 0))),
        vec![st(1, 2, 1, TokenType::Variable), st(1, 0, 1, TokenType::Variable)]
    );
}

#[test]
fn decoding_the_semantic_tokens_gives_back_each_coloured_token_start() {
    let tokens = lex("fn f(x)\n  return x .. 'a{x}b' -- note\nend\n\n  f(1.5)");
    let encoded = convert_to_lsp_tokens(&tokens);
    let mut line = 0u32;
    let mut column = 0u32;
    let mut decoded = Vec::new();
    for s in &encoded {
        if s.delta_line > 0 {
            column = 0;
        }
        line += s.delta_line;
        column += s.delta_start;
        decoded.push((line, column));
    }
    let expected: Vec<(u32, u32)> = tokens
        .iter()
        .filter(|t| get_token_type(t).is_some())
        .map(|t| ((t.start.line - 1) as u32, (t.start.column - 1) as u32))
        .collect();
    assert!(expected.len() > 8);
    assert_eq!(decoded, expected);
}

#[test]
fn overlapping_tokens_ordered_by_start_decode_to_their_starts() {
    let token = |lexeme: &str, line: usize, column: usize| Token {
        value: TokenValue::Symbol(lexeme.to_string()),
        lexeme: lexeme.to_string(),
        start: Position { line, column },
        end: Position { line, column: column + lexeme.len() },
    };
    let tokens = vec![token("hello", 1, 1), token("ll", 1, 3), token("x", 3, 7), token("y", 3, 7)];
    assert_eq!(
        convert_to_lsp_tokens(&tokens),
        vec![
            st(0, 0, 5, TokenType::Variable),
            st(0, 2, 2, TokenType::Variable),
            st(2, 6, 1, TokenType::Variable),
            st(0, 0, 1, TokenType::Variable),
        ]
    );
}
