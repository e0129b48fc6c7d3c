use exprfront::ast::Ast;
use exprfront::ast::BinaryOp;
use exprfront::ast::Expr;
use exprfront::ast::Stmt;
use exprfront::lexer::Lexer;
use exprfront::parser::ParseError;
use exprfront::parser::Parser;
use exprfront::token::Location;
use exprfront::token::Token;
use exprfront::token::TokenKind;
use exprfront::utils::parse;

fn parse_text(input: &str) -> Result<Ast, ParseError> {
    let mut lexer = Lexer::new(input.to_string());
    let tokens = lexer.read_all();
    let mut parser = Parser::new(tokens);
    parser.parse()
}

fn expr_of(r: Result<Ast, ParseError>) -> Expr {
    match r.unwrap() {
        Ast::Stmt(Stmt::Expr(e)) => e,
        Ast::Stmt(_) => panic!("grammar never yields another statement"),
    }
}

fn lit_int(v: i64) -> Expr {
    Expr::Integer(v)
}

fn bin(l: Expr, op: BinaryOp, r: Expr) -> Expr {
    Expr::BinaryOp(Box::new(l), op, Box::new(r))
}

fn token(kind: TokenKind, lit: &str) -> Token {
    Token { kind, lit: lit.to_string(), loc: Location { line: 1, column: 1 } }
}

#[test]
fn precedence_tiers_nest_multiplication() {
    let e = expr_of(parse_text("1 + 2 * 3"));
    assert_eq!(e, bin(lit_int(1), BinaryOp::Add, bin(lit_int(2), BinaryOp::Mul, lit_int(3))));
}

#[test]
fn parentheses_strip_to_inner_expression() {
    let e = expr_of(parse_text("(1 + 2) * 3"));
    assert_eq!(e, bin(bin(lit_int(1), BinaryOp::Add, lit_int(2)), BinaryOp::Mul, lit_int(3)));
}

#[test]
fn both_tiers_are_right_associative() {
    let e = expr_of(parse_text("1 - 2 - 3"));
    assert_eq!(e, bin(lit_int(1), BinaryOp::Sub, bin(lit_int(2), BinaryOp::Sub, lit_int(3))));
    let e = expr_of(parse_text("8 / 4 / 2"));
    assert_eq!(e, bin(lit_int(8), BinaryOp::Div, bin(lit_int(4), BinaryOp::Div, lit_int(2))));
}

#[test]
fn missing_close_paren_is_fatal() {
    let r = parse_text("(1 + 2");
    match r {
        // the token stream ends with its end-of-input marker, which is what
        // the parser finds in place of the closing parenthesis
        Err(ParseError::MissingCloseParen(Some(t))) => assert_eq!(t.kind, TokenKind::Eof),
        other => panic!("expected a missing close paren failure, got {:?}", other),
    }
}

#[test]
fn missing_close_paren_names_found_token() {
    let r = parse_text("(1 + 2 ;");
    match r {
        Err(ParseError::MissingCloseParen(Some(t))) => {
            assert_eq!(t.kind, TokenKind::Symbol);
            assert_eq!(t.lit, ";");
        },
        other => panic!("expected a missing close paren failure, got {:?}", other),
    }
}

#[test]
fn empty_input_is_fatal() {
    let r = parse_text("");
    match r {
        Err(ParseError::UnexpectedToken(Some(t))) => assert_eq!(t.kind, TokenKind::Eof),
        other => panic!("expected an unexpected token failure, got {:?}", other),
    }
}

#[test]
fn operator_without_operand_is_fatal() {
    let r = parse_text("1 +");
    assert!(matches!(r, Err(ParseError::UnexpectedToken(Some(_)))));
}

#[test]
fn float_literal_keeps_its_text() {
    let e = expr_of(parse_text("123.45"));
    assert_eq!(e, Expr::Float("123.45".to_string()));
}

#[test]
fn string_literal_is_verbatim() {
    let e = expr_of(parse_text("\"a b\" "));
    assert_eq!(e, Expr::String("a b".to_string()));
}

#[test]
fn trailing_tokens_are_ignored() {
    let e = expr_of(parse_text("1 2"));
    assert_eq!(e, lit_int(1));
}

#[test]
fn integer_too_large_is_fatal() {
    let r = parse_text("99999999999999999999");
    match r {
        Err(ParseError::InvalidIntegerLiteral(t)) => {
            assert_eq!(t.lit, "99999999999999999999");
        },
        other => panic!("expected an invalid integer failure, got {:?}", other),
    }
}

#[test]
fn integer_extremes_from_token_sequence() {
    let mut parser = Parser::new(vec![token(TokenKind::Integer, "-9223372036854775808")]);
    assert_eq!(expr_of(parser.parse()), lit_int(i64::MIN));
    let mut parser = Parser::new(vec![token(TokenKind::Integer, "9223372036854775807")]);
    assert_eq!(expr_of(parser.parse()), lit_int(i64::MAX));
    let mut parser = Parser::new(vec![token(TokenKind::Integer, "+17")]);
    assert_eq!(expr_of(parser.parse()), lit_int(17));
    let mut parser = Parser::new(vec![token(TokenKind::Integer, "9223372036854775808")]);
    assert!(matches!(parser.parse(), Err(ParseError::InvalidIntegerLiteral(_))));
    let mut parser = Parser::new(vec![token(TokenKind::Integer, "twelve")]);
    assert!(matches!(parser.parse(), Err(ParseError::InvalidIntegerLiteral(_))));
}

#[test]
fn nested_parentheses() {
    let e = expr_of(parse_text("((4))"));
    assert_eq!(e, lit_int(4));
}

#[test]
fn mixed_expression_whole_front_end() {
    let r = parse(" (1 + 2) * 3 - \"s\" ");
    let e = match r.unwrap() {
        Ast::Stmt(Stmt::Expr(e)) => e,
        Ast::Stmt(_) => panic!("grammar never yields another statement"),
    };
    assert_eq!(
        e,
        bin(
            bin(bin(lit_int(1), BinaryOp::Add, lit_int(2)), BinaryOp::Mul, lit_int(3)),
            BinaryOp::Sub,
            Expr::String("s".to_string()),
        )
    );
}

#[test]
fn comment_before_expression_parses() {
    let e = expr_of(parse_text("// c\n42"));
    assert_eq!(e, lit_int(42));
}
