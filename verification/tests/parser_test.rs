// Integration tests for the Jabr parser.
//
// These verify that the parser produces the correct AST for
// expressions and statements, and that precedence is handled
// correctly (e.g. `1 + 2 * 3` parses as `1 + (2 * 3)`).
//
// A number literal carries its text; `num` checks that the text reads
// as the expected value.

use jabr::ast::{binop_from_token, BinOpKind, Expr, Stmt, UnaryOpKind};
use jabr::token::TokenKind;
use jabr::lexer::Lexer;
use jabr::parser::Parser;

fn parse_expr(src: &str) -> Expr {
    let mut lx = Lexer::new(src);
    let tokens = lx.tokenize().unwrap();
    let mut parser = Parser::new(tokens);
    // Wrap in a print statement to parse a single expression
    let program = parser.parse_program().unwrap();
    match &program[0] {
        Stmt::Print(e) => e.clone(),
        Stmt::Expr(e) => e.clone(),
        _ => panic!("Expected expression statement, got {:?}", program[0]),
    }
}

fn parse_stmts(src: &str) -> Vec<Stmt> {
    let mut lx = Lexer::new(src);
    let tokens = lx.tokenize().unwrap();
    let mut parser = Parser::new(tokens);
    parser.parse_program().unwrap()
}

fn parse_err(src: &str) -> String {
    let mut lx = Lexer::new(src);
    let tokens = lx.tokenize().unwrap();
    let mut parser = Parser::new(tokens);
    parser.parse_program().unwrap_err()
}

fn num(value: f64, text: &str) -> Expr {
    assert_eq!(text.parse::<f64>().unwrap(), value);
    Expr::Number(text.to_string())
}

#[test]
fn number_literal() {
    assert_eq!(parse_expr("print 42;"), num(42.0, "42"));
}

#[test]
fn parser_test_string_literal() {
    assert_eq!(parse_expr("print \"hello\";"), Expr::String("hello".into()));
}

#[test]
fn bool_literals() {
    assert_eq!(parse_expr("print true;"), Expr::Bool(true));
    assert_eq!(parse_expr("print false;"), Expr::Bool(false));
}

#[test]
fn variable_reference() {
    assert_eq!(parse_expr("print x;"), Expr::Ident("x".into()));
}

#[test]
fn precedence_add_mul() {
    // 1 + 2 * 3  →  1 + (2 * 3)
    let ast = parse_expr("print 1 + 2 * 3;");
    match ast {
        Expr::BinOp(left, BinOpKind::Add, right) => {
            assert_eq!(*left, num(1.0, "1"));
            match *right {
                Expr::BinOp(l2, BinOpKind::Mul, r2) => {
                    assert_eq!(*l2, num(2.0, "2"));
                    assert_eq!(*r2, num(3.0, "3"));
                }
                _ => panic!("Expected BinOp(Mul) on right side"),
            }
        }
        _ => panic!("Expected BinOp(Add) at root"),
    }
}

#[test]
fn precedence_paren_override() {
    // (1 + 2) * 3  →  (1 + 2) * 3
    let ast = parse_expr("print (1 + 2) * 3;");
    match ast {
        Expr::BinOp(left, BinOpKind::Mul, right) => {
            assert_eq!(*right, num(3.0, "3"));
            match *left {
                Expr::BinOp(l2, BinOpKind::Add, r2) => {
                    assert_eq!(*l2, num(1.0, "1"));
                    assert_eq!(*r2, num(2.0, "2"));
                }
                _ => panic!("Expected BinOp(Add) in left"),
            }
        }
        _ => panic!("Expected BinOp(Mul) at root"),
    }
}

#[test]
fn left_associative_subtraction() {
    // 1 - 2 - 3  →  (1 - 2) - 3
    let ast = parse_expr("print 1 - 2 - 3;");
    match ast {
        Expr::BinOp(left, BinOpKind::Sub, right) => {
            assert_eq!(*right, num(3.0, "3"));
            match *left {
                Expr::BinOp(l2, BinOpKind::Sub, r2) => {
                    assert_eq!(*l2, num(1.0, "1"));
                    assert_eq!(*r2, num(2.0, "2"));
                }
                _ => panic!("Expected nested BinOp(Sub)"),
            }
        }
        _ => panic!("Expected BinOp(Sub) at root"),
    }
}

#[test]
fn parser_test_unary_negation() {
    let ast = parse_expr("print -5;");
    assert_eq!(ast, Expr::UnaryOp(UnaryOpKind::Neg, Box::new(num(5.0, "5"))));
}

#[test]
fn parser_test_unary_not() {
    let ast = parse_expr("print !true;");
    assert_eq!(ast, Expr::UnaryOp(UnaryOpKind::Not, Box::new(Expr::Bool(true))));
}

#[test]
fn let_statement() {
    let stmts = parse_stmts("let x = 10;");
    assert_eq!(stmts, vec![Stmt::Let("x".into(), num(10.0, "10"))]);
}

#[test]
fn print_statement() {
    let stmts = parse_stmts("print 42;");
    assert_eq!(stmts, vec![Stmt::Print(num(42.0, "42"))]);
}

#[test]
fn if_statement() {
    let stmts = parse_stmts("if true { print 1; } else { print 2; }");
    assert!(matches!(&stmts[0], Stmt::If(_, _, _)));
}

#[test]
fn while_statement() {
    let stmts = parse_stmts("while true { print 1; }");
    assert!(matches!(&stmts[0], Stmt::While(_, _)));
}

#[test]
fn function_definition() {
    let stmts = parse_stmts("fn add(a, b) { return a + b; }");
    match &stmts[0] {
        Stmt::FnDef(name, params, body) => {
            assert_eq!(name, "add");
            assert_eq!(params, &vec!["a".to_string(), "b".to_string()]);
            assert!(!body.is_empty());
        }
        _ => panic!("Expected FnDef"),
    }
}

#[test]
fn parser_test_function_call() {
    let ast = parse_expr("print add(1, 2);");
    match ast {
        Expr::Call(name, args) => {
            assert_eq!(name, "add");
            assert_eq!(args.len(), 2);
        }
        _ => panic!("Expected Call"),
    }
}

#[test]
fn comparison_operators() {
    let ast = parse_expr("print 1 < 2;");
    assert_eq!(
        ast,
        Expr::BinOp(Box::new(num(1.0, "1")), BinOpKind::Lt, Box::new(num(2.0, "2")),)
    );
}

#[test]
fn equality_operators() {
    let ast = parse_expr("print 1 == 1;");
    assert_eq!(
        ast,
        Expr::BinOp(Box::new(num(1.0, "1")), BinOpKind::Eq, Box::new(num(1.0, "1")),)
    );
}

#[test]
fn logical_operators() {
    let ast = parse_expr("print true and false or true;");
    // or is lowest precedence: (true and false) or true
    match ast {
        Expr::BinOp(left, BinOpKind::Or, right) => {
            assert_eq!(*right, Expr::Bool(true));
            match *left {
                Expr::BinOp(l2, BinOpKind::And, r2) => {
                    assert_eq!(*l2, Expr::Bool(true));
                    assert_eq!(*r2, Expr::Bool(false));
                }
                _ => panic!("Expected And inside"),
            }
        }
        _ => panic!("Expected Or at root"),
    }
}

#[test]
fn parse_error_on_unexpected_token() {
    let mut lx = Lexer::new("let = 5;");
    let tokens = lx.tokenize().unwrap();
    let mut parser = Parser::new(tokens);
    assert!(parser.parse_program().is_err());
}

// ── Further cases ────────────────────────────────────────────────

#[test]
fn assignment_rebinds_like_let() {
    let stmts = parse_stmts("i = i + 1;");
    assert_eq!(
        stmts,
        vec![Stmt::Let(
            "i".into(),
            Expr::BinOp(
                Box::new(Expr::Ident("i".into())),
                BinOpKind::Add,
                Box::new(num(1.0, "1"))
            )
        )]
    );
}

#[test]
fn else_if_nests_and_empty_else_is_none() {
    let stmts = parse_stmts("if a { } else if b { print 1; }");
    match &stmts[0] {
        Stmt::If(Expr::Ident(a), then_body, Some(else_body)) => {
            assert_eq!(a, "a");
            assert!(then_body.is_empty());
            assert_eq!(else_body.len(), 1);
            assert!(matches!(&else_body[0], Stmt::If(_, _, None)));
        }
        other => panic!("Expected If with else, got {:?}", other),
    }
    let stmts = parse_stmts("if a { print 1; } else { }");
    assert!(matches!(&stmts[0], Stmt::If(_, _, None)));
}

#[test]
fn bare_return_and_return_value() {
    let stmts = parse_stmts("fn f() { return; } fn g() { return }");
    assert_eq!(
        stmts,
        vec![
            Stmt::FnDef("f".into(), vec![], vec![Stmt::Return(None)]),
            Stmt::FnDef("g".into(), vec![], vec![Stmt::Return(None)]),
        ]
    );
    let stmts = parse_stmts("return x");
    assert_eq!(stmts, vec![Stmt::Return(Some(Expr::Ident("x".into())))]);
}

#[test]
fn call_without_arguments_and_nested_calls() {
    assert_eq!(parse_expr("f();"), Expr::Call("f".into(), vec![]));
    assert_eq!(
        parse_expr("g(h(1), -x)"),
        Expr::Call(
            "g".into(),
            vec![
                Expr::Call("h".into(), vec![num(1.0, "1")]),
                Expr::UnaryOp(UnaryOpKind::Neg, Box::new(Expr::Ident("x".into()))),
            ]
        )
    );
}

#[test]
fn block_statement_stands_for_following_expression() {
    assert_eq!(parse_stmts("{ }"), vec![Stmt::Expr(num(0.0, "0"))]);
    assert_eq!(
        parse_stmts("{ print 1; } 7"),
        vec![Stmt::Expr(num(7.0, "7"))]
    );
}

#[test]
fn parse_error_messages() {
    assert_eq!(
        parse_err("let = 5;"),
        "Expected identifier after 'let' — found Assign at line 1"
    );
    assert_eq!(
        parse_err("let x 5;"),
        "Expected '=' after let name — found Number(5) at line 1"
    );
    assert_eq!(
        parse_err("print (1 + 2;"),
        "Expected ')' after expression — found Semicolon at line 1"
    );
    assert_eq!(
        parse_err("print f(1;"),
        "Expected ')' after arguments — found Semicolon at line 1"
    );
    assert_eq!(
        parse_err("\n\nprint ;"),
        "Unexpected token Semicolon at line 3 while parsing expression"
    );
    assert_eq!(
        parse_err("fn (a) { }"),
        "Expected function name — found LParen at line 1"
    );
    assert_eq!(
        parse_err("fn f a { }"),
        "Expected '(' after function name — found Ident(\"a\") at line 1"
    );
    assert_eq!(
        parse_err("fn f(a, 1) { }"),
        "Expected parameter name — found Number(1) at line 1"
    );
    assert_eq!(
        parse_err("while x print 1;"),
        "Expected '{' to start block — found Print at line 1"
    );
    assert_eq!(
        parse_err("while x { print 1;"),
        "Expected '}' to end block — found Eof at line 1"
    );
}

#[test]
fn let_name_missing_at_end_reports_previous_line() {
    // At the end of input the reader stays put, so the line reported is that
    // of the token before.
    assert_eq!(
        parse_err("let\n"),
        "Expected identifier after 'let' — found Eof at line 1"
    );
}

#[test]
fn parse_source_lexes_then_parses() {
    assert_eq!(
        jabr::parse_source("let x = 1; x = x * 2;").unwrap(),
        vec![
            Stmt::Let("x".into(), num(1.0, "1")),
            Stmt::Let(
                "x".into(),
                Expr::BinOp(
                    Box::new(Expr::Ident("x".into())),
                    BinOpKind::Mul,
                    Box::new(num(2.0, "2"))
                )
            ),
        ]
    );
    assert_eq!(
        jabr::parse_source("print 1 # 2;").unwrap_err(),
        "Unexpected character '#' at 1:9"
    );
}

#[test]
fn binop_from_token_maps_operators_only() {
    assert_eq!(binop_from_token(&TokenKind::Plus), Some(BinOpKind::Add));
    assert_eq!(binop_from_token(&TokenKind::Percent), Some(BinOpKind::Mod));
    assert_eq!(binop_from_token(&TokenKind::BangEq), Some(BinOpKind::Neq));
    assert_eq!(binop_from_token(&TokenKind::GtEq), Some(BinOpKind::GtEq));
    assert_eq!(binop_from_token(&TokenKind::And), Some(BinOpKind::And));
    assert_eq!(binop_from_token(&TokenKind::Or), Some(BinOpKind::Or));
    assert_eq!(binop_from_token(&TokenKind::Assign), None);
    assert_eq!(binop_from_token(&TokenKind::Bang), None);
    assert_eq!(binop_from_token(&TokenKind::Ident("x".into())), None);
}

#[test]
fn interpreter_suite_programs_parse() {
    let programs = [
        "print 42;",
        "print \"hello\";",
        "print 1 + 2 * 3;",
        "print (1 + 2) * 3;",
        "print 10 % 3;",
        "print -5;",
        "print !false;",
        "let x = 10; print x;",
        "print \"foo\" + \"bar\";",
        "print 42 != 42;",
        "print true or false;",
        "if false { print 1; } else { print 2; }",
        "if false { print 1; }",
        "let i = 0; while i < 3 { print i; i = i + 1; }",
        "fn add(a, b) { return a + b; } print add(3, 4);",
        "fn check(n) { if n > 0 { return true; } return false; } print check(5);",
        "fn greet() { print \"hi\"; } greet();",
        "fn double(n) { return n * 2; } print double(double(5));",
        "print 1 / 0;",
        "print x;",
        "print nope(1);",
        "// this is a comment\nprint 42;",
        "fn fib(n) {\n if n < 2 {\n return n;\n }\n return fib(n - 1) + fib(n - 2);\n }\n print fib(10);",
        "fn classify(n) { if n > 0 { return 1; } if n < 0 { return -1; } return 0; } print classify(5); print classify(-3); print classify(0);",
    ];
    for src in programs.iter() {
        assert!(jabr::parse_source(src).is_ok(), "{}", src);
    }
    let stmts = jabr::parse_source("let i = 0; while i < 3 { print i; i = i + 1; }").unwrap();
    match &stmts[1] {
        Stmt::While(_, body) => {
            assert_eq!(body.len(), 2);
            assert!(matches!(&body[1], Stmt::Let(name, _) if name == "i"));
        }
        other => panic!("Expected While, got {:?}", other),
    }
}

#[test]
fn fully_bracketed_expression_reads_back() {
    // (1 + (2 * -x)) == f((a or b), !c)
    let ast = parse_expr("((1 + (2 * -x)) == f((a or b), !c));");
    let one_plus = Expr::BinOp(
        Box::new(num(1.0, "1")),
        BinOpKind::Add,
        Box::new(Expr::BinOp(
            Box::new(num(2.0, "2")),
            BinOpKind::Mul,
            Box::new(Expr::UnaryOp(UnaryOpKind::Neg, Box::new(Expr::Ident("x".into())))),
        )),
    );
    let call = Expr::Call(
        "f".into(),
        vec![
            Expr::BinOp(
                Box::new(Expr::Ident("a".into())),
                BinOpKind::Or,
                Box::new(Expr::Ident("b".into())),
            ),
            Expr::UnaryOp(UnaryOpKind::Not, Box::new(Expr::Ident("c".into()))),
        ],
    );
    assert_eq!(
        ast,
        Expr::BinOp(Box::new(one_plus), BinOpKind::Eq, Box::new(call))
    );
}

#[test]
fn higher_level_binds_first_and_equals_group_left() {
    // a or b and c  →  a or (b and c)
    assert_eq!(
        parse_expr("a or b and c;"),
        Expr::BinOp(
            Box::new(Expr::Ident("a".into())),
            BinOpKind::Or,
            Box::new(Expr::BinOp(
                Box::new(Expr::Ident("b".into())),
                BinOpKind::And,
                Box::new(Expr::Ident("c".into()))
            ))
        )
    );
    // a < b == c  →  (a < b) == c
    assert_eq!(
        parse_expr("a < b == c;"),
        Expr::BinOp(
            Box::new(Expr::BinOp(
                Box::new(Expr::Ident("a".into())),
                BinOpKind::Lt,
                Box::new(Expr::Ident("b".into()))
            )),
            BinOpKind::Eq,
            Box::new(Expr::Ident("c".into()))
        )
    );
    // 8 / 4 % 3  →  (8 / 4) % 3
    assert_eq!(
        parse_expr("8 / 4 % 3;"),
        Expr::BinOp(
            Box::new(Expr::BinOp(
                Box::new(num(8.0, "8")),
                BinOpKind::Div,
                Box::new(num(4.0, "4"))
            )),
            BinOpKind::Mod,
            Box::new(num(3.0, "3"))
        )
    );
}

#[test]
fn printed_program_reads_back() {
    let src = "let x = (1 + 2); if x { print x; } else { return; } \
               fn f(a, b) { return (a * b); } while x { let x = (x - 1); } f(x, \"s\");";
    let x = || Expr::Ident("x".into());
    let expected = vec![
        Stmt::Let(
            "x".into(),
            Expr::BinOp(Box::new(num(1.0, "1")), BinOpKind::Add, Box::new(num(2.0, "2"))),
        ),
        Stmt::If(x(), vec![Stmt::Print(x())], Some(vec![Stmt::Return(None)])),
        Stmt::FnDef(
            "f".into(),
            vec!["a".into(), "b".into()],
            vec![Stmt::Return(Some(Expr::BinOp(
                Box::new(Expr::Ident("a".into())),
                BinOpKind::Mul,
                Box::new(Expr::Ident("b".into())),
            )))],
        ),
        Stmt::While(
            x(),
            vec![Stmt::Let(
                "x".into(),
                Expr::BinOp(Box::new(x()), BinOpKind::Sub, Box::new(num(1.0, "1"))),
            )],
        ),
        Stmt::Expr(Expr::Call("f".into(), vec![x(), Expr::String("s".into())])),
    ];
    assert_eq!(parse_stmts(src), expected);
}

#[test]
fn error_messages_show_payloads_as_debug_does() {
    assert_eq!(
        parse_err("let x \"q\\n\\\"\";"),
        format!("Expected '=' after let name — found String({:?}) at line 1", "q\n\"")
    );
    assert_eq!(
        parse_err("let x \"q\\n\\\"\";"),
        "Expected '=' after let name — found String(\"q\\n\\\"\") at line 1"
    );
}
