use moonjuice::common::{Operator, Position};
use moonjuice::lexer::Lexer;
use moonjuice::parser::nodes::{
    Expression, ExpressionNode, LValue, Statement, StatementNode, StringSegment,
    TableDefinitionElement, TableUnpackElement,
};
use moonjuice::parser::operators::{get_operator_metadata, UNARY_PRECEDENCE};
use moonjuice::parser::{tokenise_and_parse, Parser};

fn parse(source: &str) -> Vec<StatementNode> {
    tokenise_and_parse(source.chars().collect())
}

/// The expression of the one statement of `source`.
fn expression(source: &str) -> Expression {
    let mut statements = parse(source);
    assert_eq!(statements.len(), 1, "{}", source);
    match *statements.remove(0).value {
        Statement::Expression(e) => e,
        other => panic!("not an expression statement: {:?}", other),
    }
}

fn is_symbol(node: &ExpressionNode, name: &str) -> bool {
    matches!(&*node.value, Expression::Symbol(s) if s == name)
}

fn is_int(node: &ExpressionNode, value: i64) -> bool {
    matches!(&*node.value, Expression::Int(v) if *v == value)
}

fn is_name_key(node: &ExpressionNode, name: &str) -> bool {
    match &*node.value {
        Expression::String { segments, arguments } => {
            segments.len() == 1
                && arguments.is_empty()
                && matches!(&*segments[0].value, StringSegment::Valid(s) if s == name)
        },
        _ => false,
    }
}

fn syntax_error(e: &Expression) -> Option<&str> {
    match e {
        Expression::SyntaxError(m) => Some(m.as_str()),
        _ => None,
    }
}

#[test]
fn parses_a_call() {
    match expression("a(1, 2)") {
        Expression::Call { is_optional, lhs, arguments } => {
            assert!(!is_optional);
            assert!(is_symbol(&lhs, "a"));
            assert_eq!(arguments.len(), 2);
            assert!(is_int(&arguments[0], 1));
            assert!(is_int(&arguments[1], 2));
        },
        other => panic!("{:?}", other),
    }
}

#[test]
fn parses_an_optional_call() {
    match expression("a?.()") {
        Expression::Call { is_optional, lhs, arguments } => {
            assert!(is_optional);
            assert!(is_symbol(&lhs, "a"));
            assert!(arguments.is_empty());
        },
        other => panic!("{:?}", other),
    }
}

#[test]
fn an_index_by_name_takes_the_name_as_a_string_key() {
    match expression("a.b") {
        Expression::BinaryOperator { op, lhs, rhs } => {
            assert_eq!(op, Operator::Index);
            assert!(is_symbol(&lhs, "a"));
            assert!(is_name_key(&rhs, "b"));
        },
        other => panic!("{:?}", other),
    }
}

#[test]
fn chained_indexes_apply_from_the_left() {
    match expression("a.b.c") {
        Expression::BinaryOperator { op: Operator::Index, lhs, rhs } => {
            assert!(is_name_key(&rhs, "c"));
            assert!(matches!(&*lhs.value, Expression::BinaryOperator { op: Operator::Index, .. }));
        },
        other => panic!("{:?}", other),
    }
}

#[test]
fn an_optional_index_expression_is_read() {
    match expression("a?.[1]") {
        Expression::BinaryOperator { op, lhs, rhs } => {
            assert_eq!(op, Operator::OptionalIndex);
            assert!(is_symbol(&lhs, "a"));
            assert!(is_int(&rhs, 1));
        },
        other => panic!("{:?}", other),
    }
}

#[test]
fn multiplication_binds_tighter_than_addition() {
    match expression("1 + 2 * 3") {
        Expression::BinaryOperator { op: Operator::Add, lhs, rhs } => {
            assert!(is_int(&lhs, 1));
            match &*rhs.value {
                Expression::BinaryOperator { op: Operator::Multiply, lhs, rhs } => {
                    assert!(is_int(lhs, 2));
                    assert!(is_int(rhs, 3));
                },
                other => panic!("{:?}", other),
            }
        },
        other => panic!("{:?}", other),
    }
}

#[test]
fn subtraction_applies_from_the_left() {
    match expression("1 - 2 - 3") {
        Expression::BinaryOperator { op: Operator::Subtract, lhs, rhs } => {
            assert!(is_int(&rhs, 3));
            assert!(matches!(&*lhs.value, Expression::BinaryOperator { op: Operator::Subtract, .. }));
        },
        other => panic!("{:?}", other),
    }
}

#[test]
fn unary_minus_binds_tighter_than_binary_operators() {
    assert!(UNARY_PRECEDENCE > get_operator_metadata(Operator::Multiply).precedence);
    match expression("-1 * 2") {
        Expression::BinaryOperator { op: Operator::Multiply, lhs, rhs } => {
            assert!(is_int(&rhs, 2));
            assert!(matches!(&*lhs.value, Expression::UnaryOperator { op: Operator::Subtract, .. }));
        },
        other => panic!("{:?}", other),
    }
}

#[test]
fn assignment_to_a_symbol_is_read() {
    match expression("a = 1") {
        Expression::BinaryOperator { op: Operator::Assignment, lhs, rhs } => {
            assert!(is_symbol(&lhs, "a"));
            assert!(is_int(&rhs, 1));
        },
        other => panic!("{:?}", other),
    }
}

#[test]
fn assignment_to_a_literal_is_a_syntax_error_over_the_target() {
    let mut statements = parse("1 = 2");
    assert_eq!(statements.len(), 1);
    let statement = statements.remove(0);
    assert_eq!(statement.start, Position { line: 1, column: 1 });
    assert_eq!(statement.end, Position { line: 1, column: 2 });
    match *statement.value {
        Statement::Expression(e) => assert_eq!(
            syntax_error(&e),
            Some(
                "Expected symbol or index expression (without optional chaining) on left side of assignment operator"
            )
        ),
        other => panic!("{:?}", other),
    }
}

#[test]
fn parses_a_block() {
    match expression("do 1 end") {
        Expression::Block(body) => {
            assert_eq!(body.len(), 1);
            assert!(matches!(&*body[0].value, Statement::Expression(Expression::Int(1))));
        },
        other => panic!("{:?}", other),
    }
    assert!(matches!(expression("do end"), Expression::Block(b) if b.is_empty()));
}

#[test]
fn an_unclosed_block_is_a_syntax_error() {
    assert_eq!(syntax_error(&expression("do 1")), Some("Expected 'end' to close 'do' block"));
}

#[test]
fn parses_a_function_definition_with_parameters() {
    match expression("fn(a, b) 1 end") {
        Expression::Function { parameters, body } => {
            assert_eq!(parameters.len(), 2);
            assert!(matches!(&*parameters[0].value, LValue::Symbol(s) if s == "a"));
            assert!(matches!(&*parameters[1].value, LValue::Symbol(s) if s == "b"));
            assert_eq!(body.len(), 1);
        },
        other => panic!("{:?}", other),
    }
}

#[test]
fn a_table_unpack_parameter_takes_name_keys() {
    match expression("fn({ .a, .b }) end") {
        Expression::Function { parameters, body } => {
            assert!(body.is_empty());
            assert_eq!(parameters.len(), 1);
            match &*parameters[0].value {
                LValue::TableUnpack { elements } => {
                    assert_eq!(elements.len(), 2);
                    for (element, name) in elements.iter().zip(["a", "b"]) {
                        match &*element.value {
                            TableUnpackElement::Valid { key, variable } => {
                                assert!(is_name_key(key, name));
                                assert!(matches!(&*variable.value, LValue::Symbol(s) if s == name));
                            },
                            other => panic!("{:?}", other),
                        }
                    }
                },
                other => panic!("{:?}", other),
            }
        },
        other => panic!("{:?}", other),
    }
}

#[test]
fn parses_a_for_loop() {
    match expression("for k, v in a do 1 end") {
        Expression::For { lhs, enumerable, body } => {
            assert_eq!(lhs.len(), 2);
            assert!(is_symbol(&enumerable, "a"));
            assert_eq!(body.len(), 1);
        },
        other => panic!("{:?}", other),
    }
}

#[test]
fn parses_an_if_chain() {
    match expression("if 1 then elseif 2 then elseif 3 then else 4 end") {
        Expression::If { if_branches, else_branch } => {
            assert_eq!(if_branches.len(), 3);
            for (branch, value) in if_branches.iter().zip([1, 2, 3]) {
                assert!(is_int(&branch.condition, value));
                assert!(branch.body.is_empty());
            }
            assert_eq!(else_branch.map(|b| b.len()), Some(1));
        },
        other => panic!("{:?}", other),
    }
    match expression("if true then end") {
        Expression::If { if_branches, else_branch } => {
            assert_eq!(if_branches.len(), 1);
            assert!(else_branch.is_none());
        },
        other => panic!("{:?}", other),
    }
}

#[test]
fn table_definition_elements_without_keys_take_numeric_keys() {
    match expression("{ 10, .x = 1, [2] = 3, 20 }") {
        Expression::TableDefinition { elements } => {
            assert_eq!(elements.len(), 4);
            let keys: Vec<&ExpressionNode> = elements
                .iter()
                .map(|e| match &*e.value {
                    TableDefinitionElement::Valid { key, .. } => key,
                    other => panic!("{:?}", other),
                })
                .collect();
            assert!(is_int(keys[0], 1));
            assert!(is_name_key(keys[1], "x"));
            assert!(is_int(keys[2], 2));
            assert!(is_int(keys[3], 2));
        },
        other => panic!("{:?}", other),
    }
}

#[test]
fn parses_definitions() {
    let mut statements = parse("def a, b = 1, 2 mut c = 3 export d = 4");
    assert_eq!(statements.len(), 3);
    let flags: Vec<(bool, bool, usize, usize)> = statements
        .drain(..)
        .map(|s| match *s.value {
            Statement::Definition { is_constant, is_export, lhs, rhs } => {
                (is_constant, is_export, lhs.len(), rhs.len())
            },
            other => panic!("{:?}", other),
        })
        .collect();
    assert_eq!(flags, vec![(true, false, 2, 2), (false, false, 1, 1), (true, true, 1, 1)]);
}

#[test]
fn a_definition_without_a_value_is_a_syntax_error() {
    let statements = parse("def a");
    assert_eq!(statements.len(), 1);
    assert!(matches!(&*statements[0].value, Statement::SyntaxError(m) if m == "Expected '=' following definition"));
}

#[test]
fn parses_return_and_break() {
    let statements = parse("return 1 break");
    assert_eq!(statements.len(), 2);
    assert!(matches!(&*statements[0].value, Statement::Return(e) if is_int(e, 1)));
    assert!(matches!(&*statements[1].value, Statement::Break));
}

#[test]
fn parses_a_whole_string() {
    match expression("'contents'") {
        Expression::String { segments, arguments } => {
            assert!(arguments.is_empty());
            assert_eq!(segments.len(), 1);
            assert!(matches!(&*segments[0].value, StringSegment::Valid(s) if s == "contents"));
        },
        other => panic!("{:?}", other),
    }
}

#[test]
fn unexpected_characters_and_malformed_numbers_become_syntax_errors() {
    assert_eq!(syntax_error(&expression("$")), Some("Unexpected character '$'"));
    assert_eq!(
        syntax_error(&expression("1.2.3")),
        Some("Malformed number: Numbers must contain no more than one decimal point")
    );
}

#[test]
fn comments_are_left_out_of_the_tree() {
    let statements = parse("-- a comment\n1 --[[ another --]] + 2");
    assert_eq!(statements.len(), 1);
    assert!(matches!(
        &*statements[0].value,
        Statement::Expression(Expression::BinaryOperator { op: Operator::Add, .. })
    ));
}

#[test]
fn parse_takes_tokens_from_the_lexer() {
    let tokens = Lexer::tokenise("a b".chars().collect());
    let statements = Parser::parse(tokens);
    assert_eq!(statements.len(), 2);
    assert_eq!(statements[1].start, Position { line: 1, column: 3 });
}

#[test]
fn an_empty_program_has_no_statements() {
    assert!(parse("").is_empty());
    assert!(parse("-- only a comment").is_empty());
}

/// The messages of the syntax errors of `source`, in the order of a walk of its tree.
fn error_messages(source: &str) -> Vec<String> {
    let ast = parse(source);
    moonjuice::lsp::diagnostics::DiagnosticsBuilder::new()
        .build(&ast)
        .into_iter()
        .map(|d| d.message)
        .collect()
}

#[test]
fn each_syntax_error_has_its_message() {
    let cases = [
        ("def a", "Expected '=' following definition"),
        ("a.1", "Expected symbol on right-hand side of index operator"),
        ("(1", "Expected ')' to close inner expression"),
        (",", "Unexpected special character in expression"),
        ("then", "Unexpected keyword in expression"),
        ("a +", "Expression ran off the end of the program"),
        ("if 1 2", "Expected 'then' after condition"),
        ("if 1 then", "Expected 'end', 'else', or 'elseif' after if expression body"),
        ("if 1 then else", "Expected 'end' to close if expression"),
        ("for a do", "Expected 'in' keyword to follow for loop variable declarations"),
        ("for a in b end", "Expected 'do' keyword to follow for loop enumerable"),
        ("for a in b do", "Expected 'end' keyword to close for loop body"),
        ("fn", "Expected '(' to open function parameter list"),
        ("fn(a", "Expected ')' to close function parameter list"),
        ("fn()", "Expected 'end' keyword to close function body"),
        ("a(1", "Expected ')' to close function argument list"),
        ("a[1", "Expected ']' to close table index"),
        ("{1", "Expected '}' to close table definition"),
        ("{[1]}", "Expected '=' after table definition index expression"),
        ("{[1}", "Expected ']' to close table definition index expression"),
        ("{.}", "Expected key name after '.' in table definition"),
        ("def {1} = 1", "Expected variable name or table unpack"),
        ("def {.} = x", "Expected key name after '.' in table unpack"),
        ("def {[1]} = y", "Expected '=' after table unpack index expression"),
        ("def {a = 1", "Expected '}' to close table unpack"),
        ("'a", "Missing closing '"),
        ("12x", "Malformed number: Number '12x' contains invalid characters"),
        ("1x", "Malformed number: Number '1x' contains invalid characters"),
    ];
    let mut wrong: Vec<String> = Vec::new();
    for (source, message) in cases {
        let messages = error_messages(source);
        if messages.first().map(|m| m.as_str()) != Some(message) {
            wrong.push(format!("{} gave {:?}", source, messages));
        }
    }
    assert!(wrong.is_empty(), "{:?}", wrong);
}

fn segment_texts(segments: &[moonjuice::parser::nodes::StringSegmentNode]) -> Vec<String> {
    segments
        .iter()
        .map(|s| match &*s.value {
            StringSegment::Valid(t) => t.clone(),
            StringSegment::Malformed(m) => panic!("malformed segment {}", m),
        })
        .collect()
}

#[test]
fn parses_a_format_string() {
    match expression("'{1}'") {
        Expression::String { segments, arguments } => {
            assert_eq!(segment_texts(&segments), vec!["".to_string(), "".to_string()]);
            assert_eq!(arguments.len(), 1);
            assert!(is_int(&arguments[0], 1));
        },
        other => panic!("{:?}", other),
    }
}

#[test]
fn parses_a_format_string_with_multiple_parts() {
    match expression("'first{1}second{2}third{3}last'") {
        Expression::String { segments, arguments } => {
            assert_eq!(segment_texts(&segments), vec!["first", "second", "third", "last"]);
            assert_eq!(arguments.len(), 3);
            for (argument, value) in arguments.iter().zip([1, 2, 3]) {
                assert!(is_int(argument, value));
            }
        },
        other => panic!("{:?}", other),
    }
}

#[test]
fn an_empty_format_string_hole_is_a_syntax_error() {
    assert_eq!(error_messages("'a{}b'"), vec!["Format string holes must not be empty".to_string()]);
}

fn grouping(e: &Expression) -> String {
    match e {
        Expression::Int(v) => v.to_string(),
        Expression::Symbol(name) => name.clone(),
        Expression::BinaryOperator { op, lhs, rhs } => {
            format!("({} {:?} {})", grouping(&lhs.value), op, grouping(&rhs.value))
        },
        other => panic!("{:?}", other),
    }
}

#[test]
fn a_run_of_binary_operators_groups_by_precedence_and_associativity() {
    assert_eq!(
        grouping(&expression("1 ?? 2 ?? 3 * 4 - 5 == 6 | 7")),
        "(1 OptionalCoalesce (2 OptionalCoalesce ((((3 Multiply 4) Subtract 5) Equals 6) BitwiseOr 7)))"
    );
}

#[test]
fn a_format_string_that_runs_off_the_end_ends_in_a_malformed_segment() {
    match expression("'a{b}c") {
        Expression::String { segments, arguments } => {
            assert_eq!(segments.len(), 2);
            assert!(matches!(&*segments[0].value, StringSegment::Valid(t) if t == "a"));
            assert!(
                matches!(&*segments[1].value, StringSegment::Malformed(m) if m == "Missing closing '")
            );
            assert_eq!(segments[1].start, Position { line: 1, column: 1 });
            assert_eq!(segments[1].end, Position { line: 1, column: 7 });
            assert_eq!(arguments.len(), 1);
            assert!(is_symbol(&arguments[0], "b"));
        },
        other => panic!("{:?}", other),
    }
}

#[test]
fn an_empty_hole_before_a_malformed_segment_is_a_syntax_error() {
    match expression("'a{}") {
        Expression::String { segments, arguments } => {
            assert_eq!(segments.len(), 2);
            assert!(matches!(&*segments[1].value, StringSegment::Malformed(_)));
            assert_eq!(arguments.len(), 1);
            assert_eq!(syntax_error(&arguments[0].value), Some("Format string holes must not be empty"));
        },
        other => panic!("{:?}", other),
    }
}

#[test]
fn symbols_and_integers_group_alike() {
    assert_eq!(
        grouping(&expression("a .. b * 2 << c < d and e or f ?? g")),
        "((((((a Concat (b Multiply 2)) LeftShift c) LessThan d) And e) Or f) OptionalCoalesce g)"
    );
}
