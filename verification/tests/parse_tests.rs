use mylang::lexer::{Lexer, TokenKind};
use mylang::location::Location;
use mylang::parser::{BinaryOp, Expr, Parser, Stmt, UnaryOp};

fn parse(source: &str) -> Result<Vec<Stmt>, String> {
    let mut lexer = Lexer::new(source.to_string());
    let tokens = lexer.tokenize().map_err(|e| e.to_display_string())?;
    let mut parser = Parser::new(tokens);
    parser.parse().map_err(|e| e.to_display_string())
}

fn num(n: &str) -> Expr {
    Expr::Number(n.to_string())
}

fn var(n: &str) -> Expr {
    Expr::Variable(n.to_string())
}

fn bin(left: Expr, operator: BinaryOp, right: Expr) -> Expr {
    Expr::Binary { left: Box::new(left), operator, right: Box::new(right) }
}

#[test]
fn parse_precedence_of_product_over_sum() {
    let stmts = parse("let x = 1 + 2 * 3;").unwrap();
    assert_eq!(
        stmts,
        vec![Stmt::VarDecl {
            name: "x".to_string(),
            initializer: Some(bin(num("1"), BinaryOp::Add, bin(num("2"), BinaryOp::Multiply, num("3")))),
        }]
    );
}

#[test]
fn parse_subtraction_is_left_associative() {
    let stmts = parse("a - b - c;").unwrap();
    assert_eq!(
        stmts,
        vec![Stmt::Expression(bin(bin(var("a"), BinaryOp::Subtract, var("b")), BinaryOp::Subtract, var("c")))]
    );
}

#[test]
fn parse_compound_assignment_expands() {
    let stmts = parse("x += 2;").unwrap();
    assert_eq!(
        stmts,
        vec![Stmt::Expression(Expr::Assign {
            name: "x".to_string(),
            value: Box::new(bin(var("x"), BinaryOp::Add, num("2"))),
        })]
    );
}

#[test]
fn parse_unary_and_grouping() {
    let stmts = parse("print -(1), !true;").unwrap();
    assert_eq!(
        stmts,
        vec![Stmt::Print(vec![
            Expr::Unary { operator: UnaryOp::Negate, operand: Box::new(num("1")) },
            Expr::Unary { operator: UnaryOp::Not, operand: Box::new(Expr::Boolean(true)) },
        ])]
    );
}

#[test]
fn parse_call_and_index() {
    let stmts = parse("f(1, a[0]);").unwrap();
    assert_eq!(
        stmts,
        vec![Stmt::Expression(Expr::Call {
            callee: Box::new(var("f")),
            arguments: vec![num("1"), Expr::Index { array: Box::new(var("a")), index: Box::new(num("0")) }],
        })]
    );
}

#[test]
fn parse_function_declaration() {
    let stmts = parse("fn add(a, b) { return a + b; }").unwrap();
    assert_eq!(
        stmts,
        vec![Stmt::FuncDecl {
            name: "add".to_string(),
            params: vec!["a".to_string(), "b".to_string()],
            body: vec![Stmt::Return { value: Some(bin(var("a"), BinaryOp::Add, var("b"))) }],
        }]
    );
}

#[test]
fn parse_if_else_while() {
    let stmts = parse("if x { print 1; } else { print 2; } while false { break; }").unwrap();
    assert_eq!(
        stmts,
        vec![
            Stmt::If {
                condition: var("x"),
                then_branch: Box::new(Stmt::Block(vec![Stmt::Print(vec![num("1")])])),
                else_branch: Some(Box::new(Stmt::Block(vec![Stmt::Print(vec![num("2")])]))),
            },
            Stmt::While { condition: Expr::Boolean(false), body: Box::new(Stmt::Block(vec![Stmt::Break])) },
        ]
    );
}

#[test]
fn parse_missing_identifier_is_syntax_error() {
    assert_eq!(parse("let = 1;"), Err("1:5: Syntax Error: expected identifier".to_string()));
}

#[test]
fn parse_missing_semicolon() {
    assert_eq!(parse("print 1"), Err("1:8: Syntax Error: expected ';'".to_string()));
}

#[test]
fn parse_invalid_assignment_target() {
    assert_eq!(parse("1 = 2;"), Err("1:3: Syntax Error: invalid assignment target".to_string()));
}

#[test]
fn parse_located_statements_carry_their_start() {
    let mut lexer = Lexer::new("print 1;\n  print 2;".to_string());
    let tokens = lexer.tokenize().unwrap();
    let mut parser = Parser::new(tokens);
    let stmts = parser.parse_located().unwrap();
    assert_eq!(stmts.len(), 2);
    assert_eq!(stmts[1].location(), Location { line: 2, column: 3, offset: 11 });
    assert_eq!(*stmts[1].as_inner(), Stmt::Print(vec![num("2")]));
}

#[test]
fn operator_from_token_and_its_error() {
    use_operator_tokens();
}

fn use_operator_tokens() {
    assert_eq!(BinaryOp::try_from_token(&TokenKind::Star).unwrap(), BinaryOp::Multiply);
    assert_eq!(UnaryOp::try_from_token(&TokenKind::Bang).unwrap(), UnaryOp::Not);
    let e = BinaryOp::try_from_token(&TokenKind::Comma).unwrap_err();
    assert_eq!(e.message, "invalid token type for binary operator: Comma");
    let e = UnaryOp::try_from_token(&TokenKind::Identifier("x".to_string())).unwrap_err();
    assert_eq!(e.message, "invalid token type for unary operator: Identifier(\"x\")");
    assert_eq!(BinaryOp::LessEqual.symbol(), "<=");
}

#[test]
fn token_debug_text_escapes_like_debug() {
    let text = "a\"\u{1}\0é\u{200b}\t";
    let kind = TokenKind::String(text.to_string());
    assert_eq!(kind.debug_string(), format!("String({:?})", text));
    assert_eq!(kind.debug_string(), "String(\"a\\\"\\u{1}\\0é\\u{200b}\\t\")");
}

#[test]
fn parser_resumes_where_an_error_left_it() {
    let mut lexer = Lexer::new("1 = 2; print 3;".to_string());
    let mut parser = Parser::new(lexer.tokenize().unwrap());
    assert!(parser.parse().is_err());
    // The invalid target was read past the `=`; parsing goes on from `2`.
    assert_eq!(
        parser.parse().unwrap(),
        vec![Stmt::Expression(num("2")), Stmt::Print(vec![num("3")])]
    );
}

#[test]
fn parser_reads_past_a_token_no_expression_starts_with() {
    let mut lexer = Lexer::new(") 4;".to_string());
    let mut parser = Parser::new(lexer.tokenize().unwrap());
    assert!(parser.parse().is_err());
    assert_eq!(parser.parse().unwrap(), vec![Stmt::Expression(num("4"))]);
}
