use exprfront::lexer::Lexer;
use exprfront::token::Token;
use exprfront::token::TokenKind;

fn lex(input: &str) -> Vec<Token> {
    let mut lexer = Lexer::new(input.to_string());
    lexer.read_all()
}

fn kinds_and_lits(tokens: &[Token]) -> Vec<(TokenKind, String)> {
    tokens.iter().map(|t| (t.kind, t.lit.clone())).collect()
}

#[test]
fn keyword_and_identifier() {
    let tokens = lex("let x");
    assert_eq!(
        kinds_and_lits(&tokens),
        vec![
            (TokenKind::Keyword, "let".to_string()),
            (TokenKind::Ident, "x".to_string()),
            (TokenKind::Eof, "".to_string()),
        ]
    );
}

#[test]
fn keyword_prefix_is_identifier() {
    let tokens = lex("lets let");
    assert_eq!(tokens[0].kind, TokenKind::Ident);
    assert_eq!(tokens[0].lit, "lets");
    assert_eq!(tokens[1].kind, TokenKind::Keyword);
}

#[test]
fn float_is_one_token() {
    let tokens = lex("123.45");
    assert_eq!(tokens.len(), 2);
    assert_eq!(tokens[0].kind, TokenKind::Float);
    assert_eq!(tokens[0].lit, "123.45");
    assert_eq!(tokens[1].kind, TokenKind::Eof);
}

#[test]
fn float_with_empty_fraction() {
    let tokens = lex("123.");
    assert_eq!(tokens[0].kind, TokenKind::Float);
    assert_eq!(tokens[0].lit, "123.");
}

#[test]
fn integer_then_dot_needs_digit_start() {
    let tokens = lex("12 7");
    assert_eq!(tokens[0].kind, TokenKind::Integer);
    assert_eq!(tokens[0].lit, "12");
    assert_eq!(tokens[1].kind, TokenKind::Integer);
    assert_eq!(tokens[1].lit, "7");
}

#[test]
fn comment_produces_no_token() {
    let tokens = lex("// comment\n42");
    assert_eq!(
        kinds_and_lits(&tokens),
        vec![
            (TokenKind::Integer, "42".to_string()),
            (TokenKind::Eof, "".to_string()),
        ]
    );
}

#[test]
fn comment_to_end_of_input() {
    let tokens = lex("1 // trailing");
    assert_eq!(
        kinds_and_lits(&tokens),
        vec![
            (TokenKind::Integer, "1".to_string()),
            (TokenKind::Eof, "".to_string()),
        ]
    );
}

#[test]
fn compound_operator_is_one_token() {
    let tokens = lex("+=");
    assert_eq!(tokens.len(), 2);
    assert_eq!(tokens[0].kind, TokenKind::Operator);
    assert_eq!(tokens[0].lit, "+=");
    assert_eq!(tokens[1].kind, TokenKind::Eof);
}

#[test]
fn compound_operator_leaves_next_token() {
    let tokens = lex("+=3");
    assert_eq!(
        kinds_and_lits(&tokens),
        vec![
            (TokenKind::Operator, "+=".to_string()),
            (TokenKind::Integer, "3".to_string()),
            (TokenKind::Eof, "".to_string()),
        ]
    );
}

#[test]
fn operators_single_and_double() {
    let tokens = lex("+ - * / = ! < > & | == != <= >= &= |=");
    let expected = [
        "+", "-", "*", "/", "=", "!", "<", ">", "&", "|", "==", "!=", "<=", ">=", "&=", "|=",
    ];
    assert_eq!(tokens.len(), expected.len() + 1);
    for (t, e) in tokens.iter().zip(expected.iter()) {
        assert_eq!(t.kind, TokenKind::Operator);
        assert_eq!(&t.lit, e);
    }
}

#[test]
fn arrow_lexes_as_two_operators() {
    // '-' is an operator character, so the arrow branch is never reached:
    // "->" comes out as two one-character operator tokens.
    let tokens = lex("->");
    assert_eq!(
        kinds_and_lits(&tokens),
        vec![
            (TokenKind::Operator, "-".to_string()),
            (TokenKind::Operator, ">".to_string()),
            (TokenKind::Eof, "".to_string()),
        ]
    );
}

#[test]
fn symbols() {
    let tokens = lex("( ) { } , ; : . [ ] @ $ ?");
    let expected = ["(", ")", "{", "}", ",", ";", ":", ".", "[", "]", "@", "$", "?"];
    assert_eq!(tokens.len(), expected.len() + 1);
    for (t, e) in tokens.iter().zip(expected.iter()) {
        assert_eq!(t.kind, TokenKind::Symbol);
        assert_eq!(&t.lit, e);
    }
}

#[test]
fn string_literals_both_quotes() {
    let tokens = lex("\"hi\" 'x'");
    assert_eq!(tokens[0].kind, TokenKind::String);
    assert_eq!(tokens[0].lit, "hi");
    assert_eq!(tokens[1].kind, TokenKind::String);
    assert_eq!(tokens[1].lit, "x");
}

#[test]
fn string_with_other_quote_inside() {
    let tokens = lex("\"a'b\"");
    assert_eq!(tokens[0].kind, TokenKind::String);
    assert_eq!(tokens[0].lit, "a'b");
}

#[test]
fn unterminated_string_runs_to_end() {
    let tokens = lex("\"abc");
    assert_eq!(tokens[0].kind, TokenKind::String);
    assert_eq!(tokens[0].lit, "abc");
    assert_eq!(tokens[1].kind, TokenKind::Eof);
}

#[test]
fn unknown_character_is_terminal() {
    let tokens = lex("# 42");
    assert_eq!(tokens.len(), 1);
    assert_eq!(tokens[0].kind, TokenKind::Unknown);
    assert_eq!(tokens[0].lit, "#");
}

#[test]
fn empty_input_is_one_eof() {
    let tokens = lex("");
    assert_eq!(tokens.len(), 1);
    assert_eq!(tokens[0].kind, TokenKind::Eof);
    assert_eq!(tokens[0].lit, "");
}

#[test]
fn whitespace_only_input() {
    let tokens = lex(" \t\r\n ");
    assert_eq!(tokens.len(), 1);
    assert_eq!(tokens[0].kind, TokenKind::Eof);
}

#[test]
fn last_token_is_always_terminal() {
    for input in ["let x = 1 + 2", "", "  ", "a # b", "1.2.3", "\"s\"", "// only"] {
        let tokens = lex(input);
        let last = tokens.last().unwrap();
        assert!(last.kind == TokenKind::Eof || last.kind == TokenKind::Unknown);
        for t in &tokens[..tokens.len() - 1] {
            assert!(t.kind != TokenKind::Eof && t.kind != TokenKind::Unknown);
        }
    }
}

#[test]
fn location_tracks_lines_and_columns() {
    let tokens = lex("a\nb");
    assert_eq!(tokens[0].kind, TokenKind::Ident);
    assert_eq!((tokens[0].loc.line, tokens[0].loc.column), (1, 2));
    assert_eq!(tokens[1].kind, TokenKind::Ident);
    assert_eq!((tokens[1].loc.line, tokens[1].loc.column), (2, 2));
    assert_eq!(tokens[2].kind, TokenKind::Eof);
    assert_eq!((tokens[2].loc.line, tokens[2].loc.column), (2, 2));
}

#[test]
fn unicode_identifiers_and_whitespace() {
    // a no-break space separates the two identifiers
    let tokens = lex("h\u{00E9}llo\u{00A0}w\u{00F6}rld");
    assert_eq!(
        kinds_and_lits(&tokens),
        vec![
            (TokenKind::Ident, "h\u{00E9}llo".to_string()),
            (TokenKind::Ident, "w\u{00F6}rld".to_string()),
            (TokenKind::Eof, "".to_string()),
        ]
    );
}

#[test]
fn relex_reproduces_token_kind_and_literal() {
    let tokens = lex("let foo 12 3.5 + <= ; ( _x9 //c\n4 #");
    for t in &tokens {
        if t.kind == TokenKind::String || t.kind == TokenKind::Eof {
            continue;
        }
        let again = lex(&t.lit);
        assert_eq!(again[0].kind, t.kind);
        assert_eq!(again[0].lit, t.lit);
    }
}

#[test]
fn next_token_steps_through_input() {
    let mut lexer = Lexer::new("let x".to_string());
    let t1 = lexer.next_token();
    assert_eq!(t1.kind, TokenKind::Keyword);
    let t2 = lexer.next_token();
    assert_eq!(t2.kind, TokenKind::Ident);
    let t3 = lexer.next_token();
    assert_eq!(t3.kind, TokenKind::Eof);
    let t4 = lexer.next_token();
    assert_eq!(t4.kind, TokenKind::Eof);
}

#[test]
fn peek_and_next_agree() {
    let mut lexer = Lexer::new("ab".to_string());
    assert_eq!(lexer.peek(), Some('a'));
    assert_eq!(lexer.peek_next(), Some('b'));
    assert_eq!(lexer.next(), Some('a'));
    assert_eq!(lexer.peek(), Some('b'));
    assert_eq!(lexer.next(), Some('b'));
    assert_eq!(lexer.peek(), None);
    assert_eq!(lexer.next(), None);
}

#[test]
fn skip_whitespace_stops_at_content() {
    let mut lexer = Lexer::new("   x".to_string());
    lexer.skip_whitespace();
    assert_eq!(lexer.peek(), Some('x'));
}
