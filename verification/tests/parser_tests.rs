use ryha::ast::Statement;
use ryha::lexer::Lexer;
use ryha::parser::Parser;

#[test]
fn test_let_statement() {
    let input = "let x = 5;";
    let lexer = Lexer::new(input);
    let mut parser = Parser::new(lexer);
    let program = parser.parse_program();

    assert_eq!(program.statements.len(), 1);

    let stmt = &program.statements[0];
    if let Statement::Let(name, _) = stmt {
        assert_eq!(name, "x");
    } else {
        panic!("Expected Let statement");
    }
}

fn parse(input: &str) -> (ryha::ast::Program, Vec<String>) {
    let mut parser = Parser::new(Lexer::new(input));
    let program = parser.parse_program();
    let errors = parser.errors().to_vec();
    (program, errors)
}

#[test]
fn parses_operator_precedence() {
    let (program, errors) = parse("1 + 2 * 3;");
    assert!(errors.is_empty());
    assert_eq!(
        format!("{:?}", program.statements),
        "[Expression(Infix(Plus, IntLiteral(1), Infix(Asterisk, IntLiteral(2), IntLiteral(3))))]"
    );
}

#[test]
fn parses_left_associative_sums() {
    let (program, _) = parse("a - b - c");
    assert_eq!(
        format!("{:?}", program.statements),
        "[Expression(Infix(Minus, Infix(Minus, Ident(\"a\"), Ident(\"b\")), Ident(\"c\")))]"
    );
}

#[test]
fn parses_prefix_and_grouping() {
    let (program, errors) = parse("-(1 + 2) == !true;");
    assert!(errors.is_empty());
    assert_eq!(
        format!("{:?}", program.statements),
        "[Expression(Infix(Eq, Prefix(Minus, Infix(Plus, IntLiteral(1), IntLiteral(2))), Prefix(Bang, BoolLiteral(true))))]"
    );
}

#[test]
fn parses_return_and_strings() {
    let (program, errors) = parse("return \"hi\"; let y = x;");
    assert!(errors.is_empty());
    assert_eq!(
        format!("{:?}", program.statements),
        "[Return(StringLiteral(\"hi\")), Let(\"y\", Ident(\"x\"))]"
    );
}

#[test]
fn parses_if_else() {
    let (program, errors) = parse("if (x < y) { x } else { y }");
    assert!(errors.is_empty());
    assert_eq!(
        format!("{:?}", program.statements),
        "[Expression(If { condition: Infix(Lt, Ident(\"x\"), Ident(\"y\")), consequence: [Expression(Ident(\"x\"))], alternative: Some([Expression(Ident(\"y\"))]) })]"
    );
}

#[test]
fn parses_function_literal() {
    let (program, errors) = parse("fn(a, b) { return a + b; }");
    assert!(errors.is_empty());
    assert_eq!(
        format!("{:?}", program.statements),
        "[Expression(Function { params: [\"a\", \"b\"], body: [Return(Infix(Plus, Ident(\"a\"), Ident(\"b\")))] })]"
    );
}

#[test]
fn parses_empty_parameter_list() {
    let (program, errors) = parse("fn() { 1 }");
    assert!(errors.is_empty());
    assert_eq!(
        format!("{:?}", program.statements),
        "[Expression(Function { params: [], body: [Expression(IntLiteral(1))] })]"
    );
}

#[test]
fn reports_missing_identifier() {
    let (program, errors) = parse("let = 5;");
    assert_eq!(errors, vec!["expected next token to be Ident(\"\"), got Assign instead".to_string()]);
    assert_eq!(format!("{:?}", program.statements), "[Expression(IntLiteral(5))]");
}

#[test]
fn reports_missing_closing_paren() {
    let (_, errors) = parse("(1 + 2");
    assert_eq!(errors, vec!["expected next token to be RParen, got Eof instead".to_string()]);
}

#[test]
fn reports_missing_assign_with_int_token() {
    let (_, errors) = parse("let x 7;");
    assert_eq!(errors, vec!["expected next token to be Assign, got Int(7) instead".to_string()]);
}

#[test]
fn errors_only_accumulate() {
    let (_, errors) = parse("let = 1; let y 2;");
    assert_eq!(errors.len(), 2);
    assert_eq!(errors[0], "expected next token to be Ident(\"\"), got Assign instead");
    assert_eq!(errors[1], "expected next token to be Assign, got Int(2) instead");
}

#[test]
fn call_syntax_is_an_infix_with_lparen() {
    let (program, errors) = parse("f(1)");
    assert!(errors.is_empty());
    assert_eq!(
        format!("{:?}", program.statements),
        "[Expression(Infix(LParen, Ident(\"f\"), IntLiteral(1)))]"
    );
}

#[test]
fn empty_input_has_no_statements() {
    let (program, errors) = parse("   \n\t ");
    assert!(errors.is_empty());
    assert!(program.statements.is_empty());
}

#[test]
fn unparseable_tokens_are_skipped_without_a_message() {
    let (program, errors) = parse("@ ; ) let x = 1;");
    assert!(errors.is_empty());
    assert_eq!(format!("{:?}", program.statements), "[Let(\"x\", IntLiteral(1))]");
}
