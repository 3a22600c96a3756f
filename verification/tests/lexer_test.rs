// Integration tests for the Jabr lexer.
//
// These verify that the tokenizer produces the correct token
// stream for various inputs, including edge cases like comments,
// string escapes, and multi-character operators.
//
// A number token carries the text of its literal; `num` checks that the
// text reads as the expected value.

use jabr::lexer::Lexer;
use jabr::token::{Token, TokenKind};

fn lex(src: &str) -> Vec<TokenKind> {
    let mut lx = Lexer::new(src);
    lx.tokenize().unwrap().into_iter().map(|t| t.kind).collect()
}

fn num(value: f64, text: &str) -> TokenKind {
    assert_eq!(text.parse::<f64>().unwrap(), value);
    TokenKind::Number(text.to_string())
}

#[test]
fn basic_arithmetic() {
    let tokens = lex("1 + 2 * 3");
    assert_eq!(
        tokens,
        vec![
            num(1.0, "1"),
            TokenKind::Plus,
            num(2.0, "2"),
            TokenKind::Star,
            num(3.0, "3"),
            TokenKind::Eof,
        ]
    );
}

#[test]
fn decimal_numbers() {
    let tokens = lex("3.14 + 0.5");
    assert_eq!(
        tokens,
        vec![num(3.14, "3.14"), TokenKind::Plus, num(0.5, "0.5"), TokenKind::Eof,]
    );
}

#[test]
fn lexer_test_string_literal() {
    let tokens = lex("\"hello world\"");
    assert_eq!(
        tokens,
        vec![TokenKind::String("hello world".into()), TokenKind::Eof,]
    );
}

#[test]
fn string_escapes() {
    let tokens = lex("\"line1\\nline2\\t\\\"quoted\\\"\"");
    assert_eq!(
        tokens,
        vec![
            TokenKind::String("line1\nline2\t\"quoted\"".into()),
            TokenKind::Eof,
        ]
    );
}

#[test]
fn keywords() {
    let tokens = lex("let fn print return true false if else while and or");
    assert_eq!(
        tokens,
        vec![
            TokenKind::Let,
            TokenKind::Fn,
            TokenKind::Print,
            TokenKind::Return,
            TokenKind::True,
            TokenKind::False,
            TokenKind::If,
            TokenKind::Else,
            TokenKind::While,
            TokenKind::And,
            TokenKind::Or,
            TokenKind::Eof,
        ]
    );
}

#[test]
fn identifiers() {
    let tokens = lex("foo _bar baz123");
    assert_eq!(
        tokens,
        vec![
            TokenKind::Ident("foo".into()),
            TokenKind::Ident("_bar".into()),
            TokenKind::Ident("baz123".into()),
            TokenKind::Eof,
        ]
    );
}

#[test]
fn multi_char_operators() {
    let tokens = lex("a == b != c <= d >= e");
    assert_eq!(
        tokens,
        vec![
            TokenKind::Ident("a".into()),
            TokenKind::EqEq,
            TokenKind::Ident("b".into()),
            TokenKind::BangEq,
            TokenKind::Ident("c".into()),
            TokenKind::LtEq,
            TokenKind::Ident("d".into()),
            TokenKind::GtEq,
            TokenKind::Ident("e".into()),
            TokenKind::Eof,
        ]
    );
}

#[test]
fn single_char_operators() {
    let tokens = lex("a + b - c * d / e % f");
    assert_eq!(
        tokens,
        vec![
            TokenKind::Ident("a".into()),
            TokenKind::Plus,
            TokenKind::Ident("b".into()),
            TokenKind::Minus,
            TokenKind::Ident("c".into()),
            TokenKind::Star,
            TokenKind::Ident("d".into()),
            TokenKind::Slash,
            TokenKind::Ident("e".into()),
            TokenKind::Percent,
            TokenKind::Ident("f".into()),
            TokenKind::Eof,
        ]
    );
}

#[test]
fn delimiters() {
    let tokens = lex("fn add(a, b) { return a + b; }");
    assert!(tokens.contains(&TokenKind::LParen));
    assert!(tokens.contains(&TokenKind::RParen));
    assert!(tokens.contains(&TokenKind::LBrace));
    assert!(tokens.contains(&TokenKind::RBrace));
    assert!(tokens.contains(&TokenKind::Comma));
    assert!(tokens.contains(&TokenKind::Semicolon));
}

#[test]
fn line_comments_are_skipped() {
    let tokens = lex("1 // this is a comment\n+ 2");
    assert_eq!(
        tokens,
        vec![num(1.0, "1"), TokenKind::Plus, num(2.0, "2"), TokenKind::Eof,]
    );
}

#[test]
fn unterminated_string_errors() {
    let mut lx = Lexer::new("\"unterminated");
    assert!(lx.tokenize().is_err());
}

#[test]
fn unexpected_char_errors() {
    let mut lx = Lexer::new("1 @ 2");
    assert!(lx.tokenize().is_err());
}

#[test]
fn empty_input() {
    let tokens = lex("");
    assert_eq!(tokens, vec![TokenKind::Eof]);
}

#[test]
fn only_whitespace() {
    let tokens = lex("   \n\t  \n");
    assert_eq!(tokens, vec![TokenKind::Eof]);
}

#[test]
fn line_and_col_tracking() {
    let mut lx = Lexer::new("1\n+ 2");
    let tokens = lx.tokenize().unwrap();
    assert_eq!(tokens[0].line, 1);
    assert_eq!(tokens[0].col, 1);
    assert_eq!(tokens[1].line, 2);
    assert_eq!(tokens[1].col, 1);
    assert_eq!(tokens[2].line, 2);
    assert_eq!(tokens[2].col, 3);
}

// ── Further cases ────────────────────────────────────────────────

#[test]
fn error_messages_name_the_problem() {
    let mut lx = Lexer::new("1 @ 2");
    assert_eq!(lx.tokenize().unwrap_err(), "Unexpected character '@' at 1:3");
    let mut lx = Lexer::new("\n\n  x $");
    assert_eq!(lx.tokenize().unwrap_err(), "Unexpected character '$' at 3:5");
    let mut lx = Lexer::new("\"abc");
    assert_eq!(lx.tokenize().unwrap_err(), "Unterminated string literal");
    let mut lx = Lexer::new("\"abc\\");
    assert_eq!(lx.tokenize().unwrap_err(), "Unterminated string escape");
}

#[test]
fn number_takes_one_dot_before_a_digit() {
    // A dot belongs to a number only once, and only when a digit follows it.
    assert_eq!(
        lex("12.5x"),
        vec![num(12.5, "12.5"), TokenKind::Ident("x".into()), TokenKind::Eof]
    );
    let mut lx = Lexer::new("1.2.3");
    assert_eq!(lx.tokenize().unwrap_err(), "Unexpected character '.' at 1:4");
    let mut lx = Lexer::new("7.");
    assert_eq!(lx.tokenize().unwrap_err(), "Unexpected character '.' at 1:2");
}

#[test]
fn two_char_operators_and_their_single_forms() {
    assert_eq!(
        lex("= == ! != < <= > >= :"),
        vec![
            TokenKind::Assign,
            TokenKind::EqEq,
            TokenKind::Bang,
            TokenKind::BangEq,
            TokenKind::Lt,
            TokenKind::LtEq,
            TokenKind::Gt,
            TokenKind::GtEq,
            TokenKind::Colon,
            TokenKind::Eof,
        ]
    );
}

#[test]
fn keyword_prefixes_are_identifiers() {
    assert_eq!(
        lex("lets iff order _"),
        vec![
            TokenKind::Ident("lets".into()),
            TokenKind::Ident("iff".into()),
            TokenKind::Ident("order".into()),
            TokenKind::Ident("_".into()),
            TokenKind::Eof,
        ]
    );
}

#[test]
fn unknown_escape_keeps_the_character() {
    assert_eq!(
        lex("\"a\\qb\\\\\""),
        vec![TokenKind::String("aqb\\".into()), TokenKind::Eof]
    );
}

#[test]
fn comment_at_end_of_input() {
    let mut lx = Lexer::new("x // trailing");
    let tokens = lx.tokenize().unwrap();
    assert_eq!(tokens.len(), 2);
    assert_eq!(tokens[1], Token::new(TokenKind::Eof, 1, 14));
}

#[test]
fn eof_is_last_and_only_once() {
    let tokens = lex("let a = 1; // c\nprint a;");
    assert_eq!(tokens.last(), Some(&TokenKind::Eof));
    assert_eq!(tokens.iter().filter(|k| **k == TokenKind::Eof).count(), 1);
}

#[test]
fn non_ascii_identifier() {
    assert_eq!(
        lex("jabr_é1"),
        vec![TokenKind::Ident("jabr_é1".into()), TokenKind::Eof]
    );
}

#[test]
fn tokens_come_in_source_order() {
    let mut lx = Lexer::new("fn f(a) {\n  return a * 2; // twice\n}\nprint f(3);\n");
    let tokens = lx.tokenize().unwrap();
    for pair in tokens.windows(2) {
        let a = (pair[0].line, pair[0].col);
        let b = (pair[1].line, pair[1].col);
        assert!(a < b, "{:?} then {:?}", a, b);
    }
    assert_eq!(tokens.last().unwrap(), &Token::new(TokenKind::Eof, 5, 1));
}

#[test]
fn newline_in_front_moves_tokens_one_line_down() {
    for src in ["let x = 1;\nprint x + 2; // c", "\"a\nb\" 3.5", "", "fn f(a) { return a; }"] {
        let mut a = Lexer::new(src);
        let shifted = format!("\n{}", src);
        let mut b = Lexer::new(&shifted);
        let ta = a.tokenize().unwrap();
        let tb = b.tokenize().unwrap();
        assert_eq!(ta.len(), tb.len());
        for (x, y) in ta.iter().zip(tb.iter()) {
            assert_eq!(x.kind, y.kind);
            assert_eq!(x.line + 1, y.line);
            assert_eq!(x.col, y.col);
        }
    }
    assert!(Lexer::new("\n1 @").tokenize().is_err());
}

#[test]
fn plain_string_literal_reads_as_its_characters() {
    let mut lx = Lexer::new("\"ab\ncd\" x");
    let tokens = lx.tokenize().unwrap();
    assert_eq!(tokens[0], Token::new(TokenKind::String("ab\ncd".into()), 1, 1));
    assert_eq!(tokens[1], Token::new(TokenKind::Ident("x".into()), 2, 5));
}

#[test]
fn number_lexeme_and_the_column_after_it() {
    let mut lx = Lexer::new("3.25+10");
    let tokens = lx.tokenize().unwrap();
    assert_eq!(tokens[0], Token::new(num(3.25, "3.25"), 1, 1));
    assert_eq!(tokens[1], Token::new(TokenKind::Plus, 1, 5));
    assert_eq!(tokens[2], Token::new(num(10.0, "10"), 1, 6));
}

#[test]
fn whitespace_and_comments_are_passed_over() {
    let mut lx = Lexer::new("  // one\n\t// two\r\n   x/y");
    let tokens = lx.tokenize().unwrap();
    assert_eq!(tokens[0], Token::new(TokenKind::Ident("x".into()), 3, 4));
    assert_eq!(tokens[1], Token::new(TokenKind::Slash, 3, 5));
    assert_eq!(tokens[2], Token::new(TokenKind::Ident("y".into()), 3, 6));
}
