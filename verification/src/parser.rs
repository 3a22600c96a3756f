//! Parser: converts a flat token stream into a syntax tree.
//!
//! A hand-written recursive descent parser. Grammar precedence is encoded
//! in the call chain:
//!
//!   expression  -> or
//!   or          -> and ( "or" and )*
//!   and         -> equality ( "and" equality )*
//!   equality    -> comparison ( (==|!=) comparison )*
//!   comparison  -> term ( (<|>|<=|>=) term )*
//!   term        -> factor ( (+|-) factor )*
//!   factor      -> unary ( (*|/|%) unary )*
//!   unary       -> (-|!) unary | primary
//!   primary     -> number | string | bool | ident | call | "(" expression ")"
//!
//! The six binary levels are numbered 0 (or) to 5 (factor). What each
//! parsing function produces, from a given token index, is stated by the
//! spec function of the same grammar rule below; each returns the value and
//! the index just after it, or the error message.
use vstd::prelude::*;
use vstd::string::StringExecFns;
use crate::ast::{
    binop_of, BinOpKind, Expr, SpecExpr, SpecStmt, Stmt, UnaryOpKind, exprs_view, lemma_exprs_view_push,
    lemma_stmts_view_push, names_view, stmts_view,
};
use crate::text::{decimal, decimal_text};
use crate::token::{SpecToken, SpecTokenKind, Token, TokenKind, tokens_view};

verus! {

/// A parse outcome: the value and the index after it, or an error message.
pub type Parsed<X> = Result<(X, int), Seq<char>>;

// ── Tokens as the parser reads them ─────────────────────────────────

/// The position of a token kind in the declaration of `TokenKind`; two
/// kinds are of the same variant when these agree.
pub open spec fn variant_index(k: SpecTokenKind) -> int {
    match k {
        SpecTokenKind::Number(_) => 0,
        SpecTokenKind::String(_) => 1,
        SpecTokenKind::Ident(_) => 2,
        SpecTokenKind::Let => 3,
        SpecTokenKind::Fn => 4,
        SpecTokenKind::Print => 5,
        SpecTokenKind::Return => 6,
        SpecTokenKind::True => 7,
        SpecTokenKind::False => 8,
        SpecTokenKind::If => 9,
        SpecTokenKind::Else => 10,
        SpecTokenKind::While => 11,
        SpecTokenKind::And => 12,
        SpecTokenKind::Or => 13,
        SpecTokenKind::Plus => 14,
        SpecTokenKind::Minus => 15,
        SpecTokenKind::Star => 16,
        SpecTokenKind::Slash => 17,
        SpecTokenKind::Percent => 18,
        SpecTokenKind::EqEq => 19,
        SpecTokenKind::BangEq => 20,
        SpecTokenKind::Lt => 21,
        SpecTokenKind::Gt => 22,
        SpecTokenKind::LtEq => 23,
        SpecTokenKind::GtEq => 24,
        SpecTokenKind::Assign => 25,
        SpecTokenKind::Bang => 26,
        SpecTokenKind::LParen => 27,
        SpecTokenKind::RParen => 28,
        SpecTokenKind::LBrace => 29,
        SpecTokenKind::RBrace => 30,
        SpecTokenKind::Comma => 31,
        SpecTokenKind::Semicolon => 32,
        SpecTokenKind::Colon => 33,
        SpecTokenKind::Eof => 34,
    }
}

pub open spec fn same_variant(a: SpecTokenKind, b: SpecTokenKind) -> bool {
    variant_index(a) == variant_index(b)
}

/// What `{:?}` shows of a string: std's `Debug` for `str`, the characters in
/// double quotes with quotes, backslashes and control characters escaped.
pub uninterp spec fn debug_text(s: Seq<char>) -> Seq<char>;

/// Trusted: formats `s` with `{:?}`, which calls std's `Debug` for `str`; the
/// result is named `debug_text`, since the escaping rules rest on Unicode
/// tables (which characters are printable, which extend a grapheme).
#[verifier::external_body]
fn debug_string(s: &String) -> (res: String)
    ensures
        res@ == debug_text(s@),
{
    format!("{:?}", s)
}

/// How a token kind is shown in error messages, as `{:?}` shows it: the
/// variant's name, with its payload in brackets where it has one. A number
/// shows the text of its literal.
pub open spec fn kind_text(k: SpecTokenKind) -> Seq<char> {
    match k {
        SpecTokenKind::Number(s) => "Number("@ + s + ")"@,
        SpecTokenKind::String(s) => "String("@ + debug_text(s) + ")"@,
        SpecTokenKind::Ident(s) => "Ident("@ + debug_text(s) + ")"@,
        SpecTokenKind::Let => "Let"@,
        SpecTokenKind::Fn => "Fn"@,
        SpecTokenKind::Print => "Print"@,
        SpecTokenKind::Return => "Return"@,
        SpecTokenKind::True => "True"@,
        SpecTokenKind::False => "False"@,
        SpecTokenKind::If => "If"@,
        SpecTokenKind::Else => "Else"@,
        SpecTokenKind::While => "While"@,
        SpecTokenKind::And => "And"@,
        SpecTokenKind::Or => "Or"@,
        SpecTokenKind::Plus => "Plus"@,
        SpecTokenKind::Minus => "Minus"@,
        SpecTokenKind::Star => "Star"@,
        SpecTokenKind::Slash => "Slash"@,
        SpecTokenKind::Percent => "Percent"@,
        SpecTokenKind::EqEq => "EqEq"@,
        SpecTokenKind::BangEq => "BangEq"@,
        SpecTokenKind::Lt => "Lt"@,
        SpecTokenKind::Gt => "Gt"@,
        SpecTokenKind::LtEq => "LtEq"@,
        SpecTokenKind::GtEq => "GtEq"@,
        SpecTokenKind::Assign => "Assign"@,
        SpecTokenKind::Bang => "Bang"@,
        SpecTokenKind::LParen => "LParen"@,
        SpecTokenKind::RParen => "RParen"@,
        SpecTokenKind::LBrace => "LBrace"@,
        SpecTokenKind::RBrace => "RBrace"@,
        SpecTokenKind::Comma => "Comma"@,
        SpecTokenKind::Semicolon => "Semicolon"@,
        SpecTokenKind::Colon => "Colon"@,
        SpecTokenKind::Eof => "Eof"@,
    }
}

/// The message of a failed expectation: what was expected, and what was found where.
pub open spec fn found_message(msg: Seq<char>, k: SpecTokenKind, line: int) -> Seq<char> {
    msg + " — found "@ + kind_text(k) + " at line "@ + decimal(line as nat)
}

/// The message for a token that starts no expression.
pub open spec fn unexpected_token_message(k: SpecTokenKind, line: int) -> Seq<char> {
    "Unexpected token "@ + kind_text(k) + " at line "@ + decimal(line as nat)
        + " while parsing expression"@
}

/// Some token at index `p` or later is the end of input.
pub open spec fn has_eof_from(t: Seq<SpecToken>, p: int) -> bool {
    exists|i: int| p <= i < t.len() && (#[trigger] t[i]).kind is Eof
}

/// The index after reading the token at `p`: reading never moves past the end of input.
pub open spec fn adv(t: Seq<SpecToken>, p: int) -> int {
    if t[p].kind is Eof {
        p
    } else {
        p + 1
    }
}

/// The index after an optional semicolon at `p`.
pub open spec fn skip_semi(t: Seq<SpecToken>, p: int) -> int {
    if same_variant(t[p].kind, SpecTokenKind::Semicolon) {
        p + 1
    } else {
        p
    }
}

/// The operator that a token kind stands for at binary level `level`
/// (0: or, 1: and, 2: equality, 3: comparison, 4: term, 5: factor).
pub open spec fn level_op(level: int, k: SpecTokenKind) -> Option<BinOpKind> {
    if level == 0 {
        match k {
            SpecTokenKind::Or => Some(BinOpKind::Or),
            _ => None,
        }
    } else if level == 1 {
        match k {
            SpecTokenKind::And => Some(BinOpKind::And),
            _ => None,
        }
    } else if level == 2 {
        match k {
            SpecTokenKind::EqEq => Some(BinOpKind::Eq),
            SpecTokenKind::BangEq => Some(BinOpKind::Neq),
            _ => None,
        }
    } else if level == 3 {
        match k {
            SpecTokenKind::Lt => Some(BinOpKind::Lt),
            SpecTokenKind::Gt => Some(BinOpKind::Gt),
            SpecTokenKind::LtEq => Some(BinOpKind::LtEq),
            SpecTokenKind::GtEq => Some(BinOpKind::GtEq),
            _ => None,
        }
    } else if level == 4 {
        match k {
            SpecTokenKind::Plus => Some(BinOpKind::Add),
            SpecTokenKind::Minus => Some(BinOpKind::Sub),
            _ => None,
        }
    } else {
        match k {
            SpecTokenKind::Star => Some(BinOpKind::Mul),
            SpecTokenKind::Slash => Some(BinOpKind::Div),
            SpecTokenKind::Percent => Some(BinOpKind::Mod),
            _ => None,
        }
    }
}

/// Every operator that the parser reads at some binary level is the operator
/// that `binop_from_token` gives for the same token, and every token that
/// `binop_from_token` maps to an operator is read at exactly one level.
pub proof fn lemma_level_op_agrees_with_binop(k: SpecTokenKind)
    ensures
        forall|l: int| 0 <= l <= 5 && (#[trigger] level_op(l, k)) is Some ==> level_op(l, k) == binop_of(k),
        binop_of(k) is Some ==> exists|l: int| 0 <= l <= 5 && #[trigger] level_op(l, k) == binop_of(k),
        forall|l1: int, l2: int| 0 <= l1 <= 5 && 0 <= l2 <= 5 && (#[trigger] level_op(l1, k)) is Some
            && (#[trigger] level_op(l2, k)) is Some ==> l1 == l2,
{
    if binop_of(k) is Some {
        if level_op(0, k) is Some {
            assert(level_op(0, k) == binop_of(k));
        } else if level_op(1, k) is Some {
            assert(level_op(1, k) == binop_of(k));
        } else if level_op(2, k) is Some {
            assert(level_op(2, k) == binop_of(k));
        } else if level_op(3, k) is Some {
            assert(level_op(3, k) == binop_of(k));
        } else if level_op(4, k) is Some {
            assert(level_op(4, k) == binop_of(k));
        } else {
            assert(level_op(5, k) == binop_of(k));
        }
    }
}

// ── Expressions ──────────────────────────────────────────────────────
//
// Each rule checks that the indices it recurses on lie further on (or at a
// lower rule at the same index), which makes the rules well founded; such a
// check that fails gives an empty message. The parsing functions below each
// move forward when they succeed (their contracts say so), so on the indices
// they reach these checks hold.

/// expression -> or
pub open spec fn expr_at(t: Seq<SpecToken>, p: int) -> Parsed<SpecExpr>
    decreases t.len() - p, 15int,
{
    if 0 <= p < t.len() {
        binary_at(t, 0, p)
    } else {
        Err(Seq::empty())
    }
}

/// Binary level `level`: an operand, then operators of this level with operands.
pub open spec fn binary_at(t: Seq<SpecToken>, level: int, p: int) -> Parsed<SpecExpr>
    decreases t.len() - p, 13 - 2 * level,
{
    if 0 <= p < t.len() && 0 <= level <= 5 {
        let first = if level == 5 {
            unary_at(t, p)
        } else {
            binary_at(t, level + 1, p)
        };
        match first {
            Err(m) => Err(m),
            Ok((left, q)) => if p < q < t.len() {
                binary_tail(t, level, left, q)
            } else {
                Err(Seq::empty())
            },
        }
    } else {
        Err(Seq::empty())
    }
}

/// The rest of binary level `level` after the operand `left`, from index `p`.
pub open spec fn binary_tail(t: Seq<SpecToken>, level: int, left: SpecExpr, p: int) -> Parsed<
    SpecExpr,
>
    decreases t.len() - p, 12 - 2 * level,
{
    if 0 <= p < t.len() && 0 <= level <= 5 {
        match level_op(level, t[p].kind) {
            None => Ok((left, p)),
            Some(op) => if p + 1 < t.len() {
                let rhs = if level == 5 {
                    unary_at(t, p + 1)
                } else {
                    binary_at(t, level + 1, p + 1)
                };
                match rhs {
                    Err(m) => Err(m),
                    Ok((right, q)) => if p + 1 < q < t.len() {
                        binary_tail(t, level, SpecExpr::BinOp(Box::new(left), op, Box::new(right)), q)
                    } else {
                        Err(Seq::empty())
                    },
                }
            } else {
                Err(Seq::empty())
            },
        }
    } else {
        Err(Seq::empty())
    }
}

/// unary -> (-|!) unary | primary
pub open spec fn unary_at(t: Seq<SpecToken>, p: int) -> Parsed<SpecExpr>
    decreases t.len() - p, 1int,
{
    if 0 <= p < t.len() {
        match t[p].kind {
            SpecTokenKind::Minus => if p + 1 < t.len() {
                match unary_at(t, p + 1) {
                    Ok((e, q)) => Ok((SpecExpr::UnaryOp(UnaryOpKind::Neg, Box::new(e)), q)),
                    Err(m) => Err(m),
                }
            } else {
                Err(Seq::empty())
            },
            SpecTokenKind::Bang => if p + 1 < t.len() {
                match unary_at(t, p + 1) {
                    Ok((e, q)) => Ok((SpecExpr::UnaryOp(UnaryOpKind::Not, Box::new(e)), q)),
                    Err(m) => Err(m),
                }
            } else {
                Err(Seq::empty())
            },
            _ => primary_at(t, p),
        }
    } else {
        Err(Seq::empty())
    }
}

/// primary -> number | string | bool | ident | call | "(" expression ")"
pub open spec fn primary_at(t: Seq<SpecToken>, p: int) -> Parsed<SpecExpr>
    decreases t.len() - p, 0int,
{
    if 0 <= p < t.len() {
        let q = adv(t, p);
        match t[p].kind {
            SpecTokenKind::Number(n) => Ok((SpecExpr::Number(n), q)),
            SpecTokenKind::String(s) => Ok((SpecExpr::String(s), q)),
            SpecTokenKind::True => Ok((SpecExpr::Bool(true), q)),
            SpecTokenKind::False => Ok((SpecExpr::Bool(false), q)),
            SpecTokenKind::Ident(name) => if q < t.len() && same_variant(
                t[q].kind,
                SpecTokenKind::LParen,
            ) {
                let a = q + 1;
                if a < t.len() && same_variant(t[a].kind, SpecTokenKind::RParen) {
                    Ok((SpecExpr::Call(name, Seq::empty()), a + 1))
                } else if a < t.len() {
                    match args_at(t, a) {
                        Err(m) => Err(m),
                        Ok((xs, b)) => if a < b < t.len() {
                            if same_variant(t[b].kind, SpecTokenKind::RParen) {
                                Ok((SpecExpr::Call(name, xs), b + 1))
                            } else {
                                Err(
                                    found_message(
                                        "Expected ')' after arguments"@,
                                        t[b].kind,
                                        t[b].line,
                                    ),
                                )
                            }
                        } else {
                            Err(Seq::empty())
                        },
                    }
                } else {
                    Err(Seq::empty())
                }
            } else {
                Ok((SpecExpr::Ident(name), q))
            },
            SpecTokenKind::LParen => if p < q {
                match expr_at(t, q) {
                    Err(m) => Err(m),
                    Ok((e, b)) => if 0 <= b < t.len() {
                        if same_variant(t[b].kind, SpecTokenKind::RParen) {
                            Ok((e, b + 1))
                        } else {
                            Err(
                                found_message(
                                    "Expected ')' after expression"@,
                                    t[b].kind,
                                    t[b].line,
                                ),
                            )
                        }
                    } else {
                        Err(Seq::empty())
                    },
                }
            } else {
                Err(Seq::empty())
            },
            _ => Err(unexpected_token_message(t[p].kind, t[p].line)),
        }
    } else {
        Err(Seq::empty())
    }
}

/// The arguments of a call, from index `p` up to the closing bracket:
/// expressions separated by commas.
pub open spec fn args_at(t: Seq<SpecToken>, p: int) -> Parsed<Seq<SpecExpr>>
    decreases t.len() - p, 16int,
{
    if 0 <= p < t.len() {
        match expr_at(t, p) {
            Err(m) => Err(m),
            Ok((e, b)) => if p < b < t.len() {
                if same_variant(t[b].kind, SpecTokenKind::Comma) {
                    if b + 1 < t.len() {
                        match args_at(t, b + 1) {
                            Ok((rest, c)) => Ok((seq![e] + rest, c)),
                            Err(m) => Err(m),
                        }
                    } else {
                        Err(Seq::empty())
                    }
                } else {
                    Ok((seq![e], b))
                }
            } else {
                Err(Seq::empty())
            },
        }
    } else {
        Err(Seq::empty())
    }
}

// ── Statements ───────────────────────────────────────────────────────

/// A statement, chosen by its first token. `name = expr` rebinds `name`
/// exactly as `let name = expr` does.
pub open spec fn stmt_at(t: Seq<SpecToken>, p: int) -> Parsed<SpecStmt>
    decreases t.len() - p, 30int,
{
    if 0 <= p < t.len() {
        match t[p].kind {
            SpecTokenKind::Let => let_at(t, p),
            SpecTokenKind::Print => print_at(t, p),
            SpecTokenKind::If => if_at(t, p),
            SpecTokenKind::While => while_at(t, p),
            SpecTokenKind::Fn => fn_at(t, p),
            SpecTokenKind::Return => return_at(t, p),
            SpecTokenKind::LBrace => block_stmt_at(t, p),
            SpecTokenKind::Ident(_) => if p + 1 < t.len() && same_variant(
                t[p + 1].kind,
                SpecTokenKind::Assign,
            ) {
                assign_at(t, p)
            } else {
                expr_stmt_at(t, p)
            },
            _ => expr_stmt_at(t, p),
        }
    } else {
        Err(Seq::empty())
    }
}

/// `let name = expr ;?`
pub open spec fn let_at(t: Seq<SpecToken>, p: int) -> Parsed<SpecStmt> {
    let q = p + 1;
    if 0 <= p && q < t.len() {
        let r = adv(t, q);
        match t[q].kind {
            SpecTokenKind::Ident(name) => if r < t.len() && same_variant(
                t[r].kind,
                SpecTokenKind::Assign,
            ) {
                match expr_at(t, r + 1) {
                    Ok((e, b)) => Ok((SpecStmt::Let(name, e), skip_semi(t, b))),
                    Err(m) => Err(m),
                }
            } else {
                Err(found_message("Expected '=' after let name"@, t[r].kind, t[r].line))
            },
            _ => Err(
                found_message("Expected identifier after 'let'"@, t[q].kind, t[r - 1].line),
            ),
        }
    } else {
        Err(Seq::empty())
    }
}

/// `name = expr ;?`, read as `let name = expr`.
pub open spec fn assign_at(t: Seq<SpecToken>, p: int) -> Parsed<SpecStmt> {
    match t[p].kind {
        SpecTokenKind::Ident(name) => match expr_at(t, p + 2) {
            Ok((e, b)) => Ok((SpecStmt::Let(name, e), skip_semi(t, b))),
            Err(m) => Err(m),
        },
        _ => Err(Seq::empty()),
    }
}

/// `print expr ;?`
pub open spec fn print_at(t: Seq<SpecToken>, p: int) -> Parsed<SpecStmt> {
    match expr_at(t, p + 1) {
        Ok((e, b)) => Ok((SpecStmt::Print(e), skip_semi(t, b))),
        Err(m) => Err(m),
    }
}

/// `expr ;?`
pub open spec fn expr_stmt_at(t: Seq<SpecToken>, p: int) -> Parsed<SpecStmt> {
    match expr_at(t, p) {
        Ok((e, b)) => Ok((SpecStmt::Expr(e), skip_semi(t, b))),
        Err(m) => Err(m),
    }
}

/// `return ;` or `return` before `}`, or `return expr ;?`
pub open spec fn return_at(t: Seq<SpecToken>, p: int) -> Parsed<SpecStmt> {
    let q = p + 1;
    if 0 <= q < t.len() && (same_variant(t[q].kind, SpecTokenKind::Semicolon) || same_variant(
        t[q].kind,
        SpecTokenKind::RBrace,
    )) {
        Ok((SpecStmt::Return(None), skip_semi(t, q)))
    } else {
        match expr_at(t, q) {
            Ok((e, b)) => Ok((SpecStmt::Return(Some(e)), skip_semi(t, b))),
            Err(m) => Err(m),
        }
    }
}

/// `if expr block`, then optionally `else block` or `else if ...`; an empty
/// else block is no else branch.
pub open spec fn if_at(t: Seq<SpecToken>, p: int) -> Parsed<SpecStmt>
    decreases t.len() - p, 25int,
{
    if 0 <= p < t.len() {
        match expr_at(t, p + 1) {
            Err(m) => Err(m),
            Ok((c, q1)) => if p < q1 < t.len() {
                match block_at(t, q1) {
                    Err(m) => Err(m),
                    Ok((tb, q2)) => if p < q2 < t.len() {
                        if same_variant(t[q2].kind, SpecTokenKind::Else) {
                            let q3 = q2 + 1;
                            if q3 < t.len() && same_variant(t[q3].kind, SpecTokenKind::If) {
                                match if_at(t, q3) {
                                    Ok((s, q4)) => Ok((SpecStmt::If(c, tb, Some(seq![s])), q4)),
                                    Err(m) => Err(m),
                                }
                            } else if q3 < t.len() {
                                match block_at(t, q3) {
                                    Ok((eb, q4)) => Ok(
                                        (
                                            SpecStmt::If(
                                                c,
                                                tb,
                                                if eb.len() == 0 {
                                                    None
                                                } else {
                                                    Some(eb)
                                                },
                                            ),
                                            q4,
                                        ),
                                    ),
                                    Err(m) => Err(m),
                                }
                            } else {
                                Err(Seq::empty())
                            }
                        } else {
                            Ok((SpecStmt::If(c, tb, None), q2))
                        }
                    } else {
                        Err(Seq::empty())
                    },
                }
            } else {
                Err(Seq::empty())
            },
        }
    } else {
        Err(Seq::empty())
    }
}

/// `while expr block`
pub open spec fn while_at(t: Seq<SpecToken>, p: int) -> Parsed<SpecStmt>
    decreases t.len() - p, 25int,
{
    if 0 <= p < t.len() {
        match expr_at(t, p + 1) {
            Err(m) => Err(m),
            Ok((c, q1)) => if p < q1 < t.len() {
                match block_at(t, q1) {
                    Ok((b, q2)) => Ok((SpecStmt::While(c, b), q2)),
                    Err(m) => Err(m),
                }
            } else {
                Err(Seq::empty())
            },
        }
    } else {
        Err(Seq::empty())
    }
}

/// The parameter names of a function, from index `p`: identifiers separated by commas.
pub open spec fn params_at(t: Seq<SpecToken>, p: int) -> Parsed<Seq<Seq<char>>>
    decreases t.len() - p,
{
    if 0 <= p < t.len() {
        let q = adv(t, p);
        match t[p].kind {
            SpecTokenKind::Ident(s) => if q + 1 < t.len() && same_variant(
                t[q].kind,
                SpecTokenKind::Comma,
            ) {
                match params_at(t, q + 1) {
                    Ok((rest, b)) => Ok((seq![s] + rest, b)),
                    Err(m) => Err(m),
                }
            } else if q < t.len() && !same_variant(t[q].kind, SpecTokenKind::Comma) {
                Ok((seq![s], q))
            } else {
                Err(Seq::empty())
            },
            _ => Err(found_message("Expected parameter name"@, t[p].kind, t[q - 1].line)),
        }
    } else {
        Err(Seq::empty())
    }
}

/// `fn name ( params ) block`
pub open spec fn fn_at(t: Seq<SpecToken>, p: int) -> Parsed<SpecStmt>
    decreases t.len() - p, 25int,
{
    let q = p + 1;
    if 0 <= p && q < t.len() {
        let r = adv(t, q);
        match t[q].kind {
            SpecTokenKind::Ident(name) => if r + 1 < t.len() && same_variant(
                t[r].kind,
                SpecTokenKind::LParen,
            ) {
                let a = r + 1;
                let ps: Parsed<Seq<Seq<char>>> = if same_variant(
                    t[a].kind,
                    SpecTokenKind::RParen,
                ) {
                    Ok((Seq::empty(), a))
                } else {
                    params_at(t, a)
                };
                match ps {
                    Err(m) => Err(m),
                    Ok((names, b)) => if p < b < t.len() {
                        if same_variant(t[b].kind, SpecTokenKind::RParen) {
                            match block_at(t, b + 1) {
                                Ok((body, c)) => Ok((SpecStmt::FnDef(name, names, body), c)),
                                Err(m) => Err(m),
                            }
                        } else {
                            Err(
                                found_message(
                                    "Expected ')' after parameters"@,
                                    t[b].kind,
                                    t[b].line,
                                ),
                            )
                        }
                    } else {
                        Err(Seq::empty())
                    },
                }
            } else if r < t.len() && !same_variant(t[r].kind, SpecTokenKind::LParen) {
                Err(
                    found_message("Expected '(' after function name"@, t[r].kind, t[r].line),
                )
            } else {
                Err(Seq::empty())
            },
            _ => Err(found_message("Expected function name"@, t[q].kind, t[r - 1].line)),
        }
    } else {
        Err(Seq::empty())
    }
}

/// A statement that starts with `{`: the block is read and set aside; an
/// empty block stands for the number 0, and after a non-empty one an
/// expression is read that stands for the whole statement.
pub open spec fn block_stmt_at(t: Seq<SpecToken>, p: int) -> Parsed<SpecStmt>
    decreases t.len() - p, 25int,
{
    if 0 <= p < t.len() {
        match block_at(t, p) {
            Err(m) => Err(m),
            Ok((b, q)) => if b.len() == 0 {
                Ok((SpecStmt::Expr(SpecExpr::Number("0"@)), q))
            } else if p < q < t.len() {
                match expr_at(t, q) {
                    Ok((e, r)) => Ok((SpecStmt::Expr(e), r)),
                    Err(m) => Err(m),
                }
            } else {
                Err(Seq::empty())
            },
        }
    } else {
        Err(Seq::empty())
    }
}

/// `{ statements }`
pub open spec fn block_at(t: Seq<SpecToken>, p: int) -> Parsed<Seq<SpecStmt>>
    decreases t.len() - p, 20int,
{
    if 0 <= p < t.len() {
        if same_variant(t[p].kind, SpecTokenKind::LBrace) {
            if p + 1 < t.len() {
                match block_items_at(t, p + 1) {
                    Err(m) => Err(m),
                    Ok((ss, q)) => if 0 <= q < t.len() {
                        if same_variant(t[q].kind, SpecTokenKind::RBrace) {
                            Ok((ss, q + 1))
                        } else {
                            Err(found_message("Expected '}' to end block"@, t[q].kind, t[q].line))
                        }
                    } else {
                        Err(Seq::empty())
                    },
                }
            } else {
                Err(Seq::empty())
            }
        } else {
            Err(found_message("Expected '{' to start block"@, t[p].kind, t[p].line))
        }
    } else {
        Err(Seq::empty())
    }
}

/// The statements of a block, from index `p` up to a `}` or the end of input.
pub open spec fn block_items_at(t: Seq<SpecToken>, p: int) -> Parsed<Seq<SpecStmt>>
    decreases t.len() - p, 35int,
{
    if 0 <= p < t.len() {
        if same_variant(t[p].kind, SpecTokenKind::RBrace) || t[p].kind is Eof {
            Ok((Seq::empty(), p))
        } else {
            match stmt_at(t, p) {
                Err(m) => Err(m),
                Ok((s, q)) => if p < q < t.len() {
                    match block_items_at(t, q) {
                        Ok((rest, r)) => Ok((seq![s] + rest, r)),
                        Err(m) => Err(m),
                    }
                } else {
                    Err(Seq::empty())
                },
            }
        }
    } else {
        Err(Seq::empty())
    }
}

/// A program: statements from index `p` up to the end of input.
pub open spec fn program_at(t: Seq<SpecToken>, p: int) -> Result<Seq<SpecStmt>, Seq<char>>
    decreases t.len() - p,
{
    if 0 <= p < t.len() {
        if t[p].kind is Eof {
            Ok(Seq::empty())
        } else {
            match stmt_at(t, p) {
                Err(m) => Err(m),
                Ok((s, q)) => if p < q < t.len() {
                    match program_at(t, q) {
                        Ok(rest) => Ok(seq![s] + rest),
                        Err(m) => Err(m),
                    }
                } else {
                    Err(Seq::empty())
                },
            }
        }
    } else {
        Err(Seq::empty())
    }
}

// ── Outcomes of the executable parsing functions ────────────────────

pub open spec fn expr_outcome(r: Result<Expr, String>, q: int) -> Parsed<SpecExpr> {
    match r {
        Ok(e) => Ok((e@, q)),
        Err(m) => Err(m@),
    }
}

pub open spec fn stmt_outcome(r: Result<Stmt, String>, q: int) -> Parsed<SpecStmt> {
    match r {
        Ok(s) => Ok((s@, q)),
        Err(m) => Err(m@),
    }
}

pub open spec fn stmts_outcome(r: Result<Vec<Stmt>, String>, q: int) -> Parsed<Seq<SpecStmt>> {
    match r {
        Ok(v) => Ok((stmts_view(v@), q)),
        Err(m) => Err(m@),
    }
}

/// `prefix` put in front of the list of a program outcome; errors pass through.
pub open spec fn seq_prefixed<X>(prefix: Seq<X>, r: Result<Seq<X>, Seq<char>>) -> Result<
    Seq<X>,
    Seq<char>,
> {
    match r {
        Ok(rest) => Ok(prefix + rest),
        Err(m) => Err(m),
    }
}

/// `prefix` put in front of the list of a parse outcome; errors pass through.
pub open spec fn list_prefixed<X>(prefix: Seq<X>, r: Parsed<Seq<X>>) -> Parsed<Seq<X>> {
    match r {
        Ok((rest, q)) => Ok((prefix + rest, q)),
        Err(m) => Err(m),
    }
}

fn variant_of(k: &TokenKind) -> (res: u8)
    ensures
        res as int == variant_index(k@),
{
    match k {
        TokenKind::Number(_) => 0,
        TokenKind::String(_) => 1,
        TokenKind::Ident(_) => 2,
        TokenKind::Let => 3,
        TokenKind::Fn => 4,
        TokenKind::Print => 5,
        TokenKind::Return => 6,
        TokenKind::True => 7,
        TokenKind::False => 8,
        TokenKind::If => 9,
        TokenKind::Else => 10,
        TokenKind::While => 11,
        TokenKind::And => 12,
        TokenKind::Or => 13,
        TokenKind::Plus => 14,
        TokenKind::Minus => 15,
        TokenKind::Star => 16,
        TokenKind::Slash => 17,
        TokenKind::Percent => 18,
        TokenKind::EqEq => 19,
        TokenKind::BangEq => 20,
        TokenKind::Lt => 21,
        TokenKind::Gt => 22,
        TokenKind::LtEq => 23,
        TokenKind::GtEq => 24,
        TokenKind::Assign => 25,
        TokenKind::Bang => 26,
        TokenKind::LParen => 27,
        TokenKind::RParen => 28,
        TokenKind::LBrace => 29,
        TokenKind::RBrace => 30,
        TokenKind::Comma => 31,
        TokenKind::Semicolon => 32,
        TokenKind::Colon => 33,
        TokenKind::Eof => 34,
    }
}

/// How a token kind is shown in error messages.
pub fn describe(k: &TokenKind) -> (res: String)
    ensures
        res@ == kind_text(k@),
{
    match k {
        TokenKind::Number(s) => {
            let mut r = String::from_str("Number(");
            r.append(s.as_str());
            r.append(")");
            r
        },
        TokenKind::String(s) => {
            let mut r = String::from_str("String(");
            let d = debug_string(s);
            r.append(d.as_str());
            r.append(")");
            r
        },
        TokenKind::Ident(s) => {
            let mut r = String::from_str("Ident(");
            let d = debug_string(s);
            r.append(d.as_str());
            r.append(")");
            r
        },
        TokenKind::Let => String::from_str("Let"),
        TokenKind::Fn => String::from_str("Fn"),
        TokenKind::Print => String::from_str("Print"),
        TokenKind::Return => String::from_str("Return"),
        TokenKind::True => String::from_str("True"),
        TokenKind::False => String::from_str("False"),
        TokenKind::If => String::from_str("If"),
        TokenKind::Else => String::from_str("Else"),
        TokenKind::While => String::from_str("While"),
        TokenKind::And => String::from_str("And"),
        TokenKind::Or => String::from_str("Or"),
        TokenKind::Plus => String::from_str("Plus"),
        TokenKind::Minus => String::from_str("Minus"),
        TokenKind::Star => String::from_str("Star"),
        TokenKind::Slash => String::from_str("Slash"),
        TokenKind::Percent => String::from_str("Percent"),
        TokenKind::EqEq => String::from_str("EqEq"),
        TokenKind::BangEq => String::from_str("BangEq"),
        TokenKind::Lt => String::from_str("Lt"),
        TokenKind::Gt => String::from_str("Gt"),
        TokenKind::LtEq => String::from_str("LtEq"),
        TokenKind::GtEq => String::from_str("GtEq"),
        TokenKind::Assign => String::from_str("Assign"),
        TokenKind::Bang => String::from_str("Bang"),
        TokenKind::LParen => String::from_str("LParen"),
        TokenKind::RParen => String::from_str("RParen"),
        TokenKind::LBrace => String::from_str("LBrace"),
        TokenKind::RBrace => String::from_str("RBrace"),
        TokenKind::Comma => String::from_str("Comma"),
        TokenKind::Semicolon => String::from_str("Semicolon"),
        TokenKind::Colon => String::from_str("Colon"),
        TokenKind::Eof => String::from_str("Eof"),
    }
}

/// The message of a failed expectation.
fn found(msg: &str, k: &TokenKind, line: usize) -> (res: String)
    ensures
        res@ == found_message(msg@, k@, line as int),
{
    let mut r = String::from_str(msg);
    r.append(" — found ");
    let d = describe(k);
    r.append(d.as_str());
    r.append(" at line ");
    let l = decimal_text(line);
    r.append(l.as_str());
    proof {
        assert(r@ =~= found_message(msg@, k@, line as int));
    }
    r
}

/// The message for a token that starts no expression.
fn unexpected_token(k: &TokenKind, line: usize) -> (res: String)
    ensures
        res@ == unexpected_token_message(k@, line as int),
{
    let mut r = String::from_str("Unexpected token ");
    let d = describe(k);
    r.append(d.as_str());
    r.append(" at line ");
    let l = decimal_text(line);
    r.append(l.as_str());
    r.append(" while parsing expression");
    proof {
        assert(r@ =~= unexpected_token_message(k@, line as int));
    }
    r
}

/// A recursive descent parser over a token stream that has an end of input.
pub struct Parser {
    tokens: Vec<Token>,
    pos: usize,
}

impl Parser {
    /// The tokens being parsed.
    pub closed spec fn toks(&self) -> Seq<SpecToken> {
        tokens_view(self.tokens@)
    }

    /// The index of the next token to read.
    pub closed spec fn cursor(&self) -> int {
        self.pos as int
    }

    /// The index lies within the tokens, with an end of input at or after it.
    pub closed spec fn wf(&self) -> bool {
        &&& self.pos < self.tokens@.len()
        &&& has_eof_from(self.toks(), self.pos as int)
    }

    /// A parser at the first of `tokens`, of which one must be the end of input.
    pub fn new(tokens: Vec<Token>) -> (ps: Parser)
        requires
            has_eof_from(tokens_view(tokens@), 0),
        ensures
            ps.wf(),
            ps.toks() == tokens_view(tokens@),
            ps.cursor() == 0,
    {
        Parser { tokens, pos: 0 }
    }

    fn peek(&self) -> (res: &TokenKind)
        requires
            self.wf(),
        ensures
            res@ == self.toks()[self.pos as int].kind,
    {
        &self.tokens[self.pos].kind
    }

    fn advance(&mut self)
        requires
            old(self).wf(),
        ensures
            final(self).wf(),
            final(self).tokens == old(self).tokens,
            final(self).pos == adv(old(self).toks(), old(self).pos as int),
    {
        let ghost t = self.toks();
        let ghost p = self.pos as int;
        match self.tokens[self.pos].kind {
            TokenKind::Eof => {},
            _ => {
                proof {
                    let i = choose|i: int| p <= i < t.len() && (#[trigger] t[i]).kind is Eof;
                    assert(t.len() == self.tokens@.len());
                    assert(t[p] == self.tokens@[p]@);
                    assert(i != p);
                    assert(has_eof_from(t, p + 1));
                }
                let n = self.tokens.len();
                assert(self.pos + 1 < n);
                self.pos = self.pos + 1;
            },
        }
    }

    fn check(&self, kind: &TokenKind) -> (res: bool)
        requires
            self.wf(),
        ensures
            res == same_variant(self.toks()[self.pos as int].kind, kind@),
    {
        variant_of(&self.tokens[self.pos].kind) == variant_of(kind)
    }

    fn match_tok(&mut self, kind: &TokenKind) -> (res: bool)
        requires
            old(self).wf(),
        ensures
            final(self).wf(),
            final(self).tokens == old(self).tokens,
            res == same_variant(old(self).toks()[old(self).pos as int].kind, kind@),
            final(self).pos == if res {
                adv(old(self).toks(), old(self).pos as int)
            } else {
                old(self).pos as int
            },
    {
        if self.check(kind) {
            self.advance();
            true
        } else {
            false
        }
    }

    fn expect(&mut self, kind: &TokenKind, msg: &str) -> (res: Result<(), String>)
        requires
            old(self).wf(),
        ensures
            final(self).wf(),
            final(self).tokens == old(self).tokens,
            ({
                let t = old(self).toks();
                let p = old(self).pos as int;
                if same_variant(t[p].kind, kind@) {
                    res is Ok && final(self).pos == adv(t, p)
                } else {
                    res == Err::<(), String>(res->Err_0) && res->Err_0@ == found_message(
                        msg@,
                        t[p].kind,
                        t[p].line,
                    ) && final(self).pos == p
                }
            }),
    {
        if self.check(kind) {
            self.advance();
            Ok(())
        } else {
            let line = self.tokens[self.pos].line;
            Err(found(msg, &self.tokens[self.pos].kind, line))
        }
    }

    /// expression -> or
    fn parse_expr(&mut self) -> (res: Result<Expr, String>)
        requires
            old(self).wf(),
        ensures
            final(self).wf(),
            final(self).tokens == old(self).tokens,
            expr_outcome(res, final(self).pos as int) == expr_at(old(self).toks(), old(self).pos as int),
            res is Ok ==> old(self).pos < final(self).pos,
        decreases old(self).tokens@.len() - old(self).pos, 15int,
    {
        self.parse_or()
    }

    /// Binary level 0 of the grammar.
    fn parse_or(&mut self) -> (res: Result<Expr, String>)
        requires
            old(self).wf(),
        ensures
            final(self).wf(),
            final(self).tokens == old(self).tokens,
            expr_outcome(res, final(self).pos as int) == binary_at(old(self).toks(), 0, old(self).pos as int),
            res is Ok ==> old(self).pos < final(self).pos,
        decreases old(self).tokens@.len() - old(self).pos, 13int,
    {
        let ghost t = self.toks();
        let ghost p0 = self.pos as int;
        let mut left = match self.parse_and() {
            Ok(e) => e,
            Err(m) => return Err(m),
        };
        loop
            invariant
                self.wf(),
                self.tokens == old(self).tokens,
                t == self.toks(),
                p0 == old(self).pos,
                p0 < self.pos,
                binary_at(t, 0, p0) == binary_tail(t, 0, left@, self.pos as int),
            ensures
                self.wf(),
                self.tokens == old(self).tokens,
                p0 < self.pos,
                binary_at(t, 0, p0) == Ok::<(SpecExpr, int), Seq<char>>((left@, self.pos as int)),
            decreases self.tokens@.len() - self.pos,
        {
            let op = BinOpKind::Or;
            if !self.match_tok(&TokenKind::Or) {
                break;
            }
            let right = match self.parse_and() {
                Ok(e) => e,
                Err(m) => return Err(m),
            };
            left = Expr::BinOp(Box::new(left), op, Box::new(right));
        }
        Ok(left)
    }

    /// Binary level 1 of the grammar.
    fn parse_and(&mut self) -> (res: Result<Expr, String>)
        requires
            old(self).wf(),
        ensures
            final(self).wf(),
            final(self).tokens == old(self).tokens,
            expr_outcome(res, final(self).pos as int) == binary_at(old(self).toks(), 1, old(self).pos as int),
            res is Ok ==> old(self).pos < final(self).pos,
        decreases old(self).tokens@.len() - old(self).pos, 11int,
    {
        let ghost t = self.toks();
        let ghost p0 = self.pos as int;
        let mut left = match self.parse_equality() {
            Ok(e) => e,
            Err(m) => return Err(m),
        };
        loop
            invariant
                self.wf(),
                self.tokens == old(self).tokens,
                t == self.toks(),
                p0 == old(self).pos,
                p0 < self.pos,
                binary_at(t, 1, p0) == binary_tail(t, 1, left@, self.pos as int),
            ensures
                self.wf(),
                self.tokens == old(self).tokens,
                p0 < self.pos,
                binary_at(t, 1, p0) == Ok::<(SpecExpr, int), Seq<char>>((left@, self.pos as int)),
            decreases self.tokens@.len() - self.pos,
        {
            let op = BinOpKind::And;
            if !self.match_tok(&TokenKind::And) {
                break;
            }
            let right = match self.parse_equality() {
                Ok(e) => e,
                Err(m) => return Err(m),
            };
            left = Expr::BinOp(Box::new(left), op, Box::new(right));
        }
        Ok(left)
    }

    /// Binary level 2 of the grammar.
    fn parse_equality(&mut self) -> (res: Result<Expr, String>)
        requires
            old(self).wf(),
        ensures
            final(self).wf(),
            final(self).tokens == old(self).tokens,
            expr_outcome(res, final(self).pos as int) == binary_at(old(self).toks(), 2, old(self).pos as int),
            res is Ok ==> old(self).pos < final(self).pos,
        decreases old(self).tokens@.len() - old(self).pos, 9int,
    {
        let ghost t = self.toks();
        let ghost p0 = self.pos as int;
        let mut left = match self.parse_comparison() {
            Ok(e) => e,
            Err(m) => return Err(m),
        };
        loop
            invariant
                self.wf(),
                self.tokens == old(self).tokens,
                t == self.toks(),
                p0 == old(self).pos,
                p0 < self.pos,
                binary_at(t, 2, p0) == binary_tail(t, 2, left@, self.pos as int),
            ensures
                self.wf(),
                self.tokens == old(self).tokens,
                p0 < self.pos,
                binary_at(t, 2, p0) == Ok::<(SpecExpr, int), Seq<char>>((left@, self.pos as int)),
            decreases self.tokens@.len() - self.pos,
        {
            let op = match self.peek() {
                TokenKind::EqEq => BinOpKind::Eq,
                TokenKind::BangEq => BinOpKind::Neq,
                _ => break,
            };
            self.advance();
            let right = match self.parse_comparison() {
                Ok(e) => e,
                Err(m) => return Err(m),
            };
            left = Expr::BinOp(Box::new(left), op, Box::new(right));
        }
        Ok(left)
    }

    /// Binary level 3 of the grammar.
    fn parse_comparison(&mut self) -> (res: Result<Expr, String>)
        requires
            old(self).wf(),
        ensures
            final(self).wf(),
            final(self).tokens == old(self).tokens,
            expr_outcome(res, final(self).pos as int) == binary_at(old(self).toks(), 3, old(self).pos as int),
            res is Ok ==> old(self).pos < final(self).pos,
        decreases old(self).tokens@.len() - old(self).pos, 7int,
    {
        let ghost t = self.toks();
        let ghost p0 = self.pos as int;
        let mut left = match self.parse_term() {
            Ok(e) => e,
            Err(m) => return Err(m),
        };
        loop
            invariant
                self.wf(),
                self.tokens == old(self).tokens,
                t == self.toks(),
                p0 == old(self).pos,
                p0 < self.pos,
                binary_at(t, 3, p0) == binary_tail(t, 3, left@, self.pos as int),
            ensures
                self.wf(),
                self.tokens == old(self).tokens,
                p0 < self.pos,
                binary_at(t, 3, p0) == Ok::<(SpecExpr, int), Seq<char>>((left@, self.pos as int)),
            decreases self.tokens@.len() - self.pos,
        {
            let op = match self.peek() {
                TokenKind::Lt => BinOpKind::Lt,
                TokenKind::Gt => BinOpKind::Gt,
                TokenKind::LtEq => BinOpKind::LtEq,
                TokenKind::GtEq => BinOpKind::GtEq,
                _ => break,
            };
            self.advance();
            let right = match self.parse_term() {
                Ok(e) => e,
                Err(m) => return Err(m),
            };
            left = Expr::BinOp(Box::new(left), op, Box::new(right));
        }
        Ok(left)
    }

    /// Binary level 4 of the grammar.
    fn parse_term(&mut self) -> (res: Result<Expr, String>)
        requires
            old(self).wf(),
        ensures
            final(self).wf(),
            final(self).tokens == old(self).tokens,
            expr_outcome(res, final(self).pos as int) == binary_at(old(self).toks(), 4, old(self).pos as int),
            res is Ok ==> old(self).pos < final(self).pos,
        decreases old(self).tokens@.len() - old(self).pos, 5int,
    {
        let ghost t = self.toks();
        let ghost p0 = self.pos as int;
        let mut left = match self.parse_factor() {
            Ok(e) => e,
            Err(m) => return Err(m),
        };
        loop
            invariant
                self.wf(),
                self.tokens == old(self).tokens,
                t == self.toks(),
                p0 == old(self).pos,
                p0 < self.pos,
                binary_at(t, 4, p0) == binary_tail(t, 4, left@, self.pos as int),
            ensures
                self.wf(),
                self.tokens == old(self).tokens,
                p0 < self.pos,
                binary_at(t, 4, p0) == Ok::<(SpecExpr, int), Seq<char>>((left@, self.pos as int)),
            decreases self.tokens@.len() - self.pos,
        {
            let op = match self.peek() {
                TokenKind::Plus => BinOpKind::Add,
                TokenKind::Minus => BinOpKind::Sub,
                _ => break,
            };
            self.advance();
            let right = match self.parse_factor() {
                Ok(e) => e,
                Err(m) => return Err(m),
            };
            left = Expr::BinOp(Box::new(left), op, Box::new(right));
        }
        Ok(left)
    }

    /// Binary level 5 of the grammar.
    fn parse_factor(&mut self) -> (res: Result<Expr, String>)
        requires
            old(self).wf(),
        ensures
            final(self).wf(),
            final(self).tokens == old(self).tokens,
            expr_outcome(res, final(self).pos as int) == binary_at(old(self).toks(), 5, old(self).pos as int),
            res is Ok ==> old(self).pos < final(self).pos,
        decreases old(self).tokens@.len() - old(self).pos, 3int,
    {
        let ghost t = self.toks();
        let ghost p0 = self.pos as int;
        let mut left = match self.parse_unary() {
            Ok(e) => e,
            Err(m) => return Err(m),
        };
        loop
            invariant
                self.wf(),
                self.tokens == old(self).tokens,
                t == self.toks(),
                p0 == old(self).pos,
                p0 < self.pos,
                binary_at(t, 5, p0) == binary_tail(t, 5, left@, self.pos as int),
            ensures
                self.wf(),
                self.tokens == old(self).tokens,
                p0 < self.pos,
                binary_at(t, 5, p0) == Ok::<(SpecExpr, int), Seq<char>>((left@, self.pos as int)),
            decreases self.tokens@.len() - self.pos,
        {
            let op = match self.peek() {
                TokenKind::Star => BinOpKind::Mul,
                TokenKind::Slash => BinOpKind::Div,
                TokenKind::Percent => BinOpKind::Mod,
                _ => break,
            };
            self.advance();
            let right = match self.parse_unary() {
                Ok(e) => e,
                Err(m) => return Err(m),
            };
            left = Expr::BinOp(Box::new(left), op, Box::new(right));
        }
        Ok(left)
    }

    /// unary -> (-|!) unary | primary
    fn parse_unary(&mut self) -> (res: Result<Expr, String>)
        requires
            old(self).wf(),
        ensures
            final(self).wf(),
            final(self).tokens == old(self).tokens,
            expr_outcome(res, final(self).pos as int) == unary_at(old(self).toks(), old(self).pos as int),
            res is Ok ==> old(self).pos < final(self).pos,
        decreases old(self).tokens@.len() - old(self).pos, 1int,
    {
        match self.peek() {
            TokenKind::Minus => {
                self.advance();
                match self.parse_unary() {
                    Ok(e) => Ok(Expr::UnaryOp(UnaryOpKind::Neg, Box::new(e))),
                    Err(m) => Err(m),
                }
            },
            TokenKind::Bang => {
                self.advance();
                match self.parse_unary() {
                    Ok(e) => Ok(Expr::UnaryOp(UnaryOpKind::Not, Box::new(e))),
                    Err(m) => Err(m),
                }
            },
            _ => self.parse_primary(),
        }
    }

    /// primary -> number | string | bool | ident | call | "(" expression ")"
    fn parse_primary(&mut self) -> (res: Result<Expr, String>)
        requires
            old(self).wf(),
        ensures
            final(self).wf(),
            final(self).tokens == old(self).tokens,
            expr_outcome(res, final(self).pos as int) == primary_at(old(self).toks(), old(self).pos as int),
            res is Ok ==> old(self).pos < final(self).pos,
        decreases old(self).tokens@.len() - old(self).pos, 0int,
    {
        let ghost t = self.toks();
        let ghost p0 = self.pos as int;
        let line = self.tokens[self.pos].line;
        match &self.tokens[self.pos].kind {
            TokenKind::Number(n) => {
                let v = n.clone();
                self.advance();
                Ok(Expr::Number(v))
            },
            TokenKind::String(s) => {
                let v = s.clone();
                self.advance();
                Ok(Expr::String(v))
            },
            TokenKind::True => {
                self.advance();
                Ok(Expr::Bool(true))
            },
            TokenKind::False => {
                self.advance();
                Ok(Expr::Bool(false))
            },
            TokenKind::Ident(name) => {
                let name = name.clone();
                self.advance();
                if self.check(&TokenKind::LParen) {
                    self.advance();
                    let ghost a = self.pos as int;
                    let mut args: Vec<Expr> = Vec::new();
                    if !self.check(&TokenKind::RParen) {
                        proof {
                            assert(exprs_view(args@) + Seq::<SpecExpr>::empty() =~= Seq::<SpecExpr>::empty());
                            assert(Seq::<SpecExpr>::empty() + exprs_view(args@) =~= Seq::<SpecExpr>::empty());
                        }
                        loop
                            invariant_except_break
                                args_at(t, a) == list_prefixed(exprs_view(args@), args_at(t, self.pos as int)),
                            invariant
                                self.wf(),
                                self.tokens == old(self).tokens,
                                t == self.toks(),
                                p0 == old(self).pos,
                                p0 < a <= self.pos,
                                a == p0 + 2,
                                t[p0].kind is Ident,
                                same_variant(t[p0 + 1].kind, SpecTokenKind::LParen),
                                !same_variant(t[a].kind, SpecTokenKind::RParen),
                            ensures
                                self.wf(),
                                self.tokens == old(self).tokens,
                                p0 < a < self.pos,
                                args_at(t, a) == Ok::<(Seq<SpecExpr>, int), Seq<char>>((exprs_view(args@), self.pos as int)),
                            decreases self.tokens@.len() - self.pos,
                        {
                            let ghost q = self.pos as int;
                            let ghost before = exprs_view(args@);
                            let e = match self.parse_expr() {
                                Ok(e) => e,
                                Err(m) => return Err(m),
                            };
                            proof {
                                lemma_exprs_view_push(args@, e);
                            }
                            args.push(e);
                            if !self.match_tok(&TokenKind::Comma) {
                                proof {
                                    assert(before + seq![e@] =~= exprs_view(args@));
                                }
                                break;
                            }
                            proof {
                                match args_at(t, self.pos as int) {
                                    Ok((rest, c)) => {
                                        assert(before + (seq![e@] + rest) =~= exprs_view(args@) + rest);
                                    },
                                    Err(m) => {},
                                }
                            }
                        }
                    }
                    match self.expect(&TokenKind::RParen, "Expected ')' after arguments") {
                        Ok(()) => {},
                        Err(m) => return Err(m),
                    }
                    Ok(Expr::Call(name, args))
                } else {
                    Ok(Expr::Ident(name))
                }
            },
            TokenKind::LParen => {
                self.advance();
                let e = match self.parse_expr() {
                    Ok(e) => e,
                    Err(m) => return Err(m),
                };
                match self.expect(&TokenKind::RParen, "Expected ')' after expression") {
                    Ok(()) => {},
                    Err(m) => return Err(m),
                }
                Ok(e)
            },
            k => {
                let m = unexpected_token(k, line);
                self.advance();
                Err(m)
            },
        }
    }

    fn peek_at(&self, offset: usize) -> (res: &TokenKind)
        requires
            self.wf(),
            self.pos + offset < self.tokens@.len(),
        ensures
            res@ == self.toks()[self.pos + offset].kind,
    {
        let n = self.tokens.len();
        assert(self.pos + offset < n);
        &self.tokens[self.pos + offset].kind
    }

    // ── Top-level program: a sequence of statements ──────────────

    /// Parses statements up to the end of input.
    pub fn parse_program(&mut self) -> (res: Result<Vec<Stmt>, String>)
        requires
            old(self).wf(),
        ensures
            final(self).wf(),
            final(self).toks() == old(self).toks(),
            res is Ok ==> final(self).toks()[final(self).cursor()].kind is Eof,
            match res {
                Ok(v) => program_at(old(self).toks(), old(self).cursor()) == Ok::<
                    Seq<SpecStmt>,
                    Seq<char>,
                >(stmts_view(v@)),
                Err(m) => program_at(old(self).toks(), old(self).cursor()) == Err::<
                    Seq<SpecStmt>,
                    Seq<char>,
                >(m@),
            },
    {
        let ghost t = self.toks();
        let ghost p0 = self.pos as int;
        let mut stmts: Vec<Stmt> = Vec::new();
        proof {
            assert(stmts_view(stmts@) =~= Seq::<SpecStmt>::empty());
            match program_at(t, p0) {
                Ok(rest) => {
                    assert(Seq::<SpecStmt>::empty() + rest =~= rest);
                },
                Err(m) => {},
            }
        }
        loop
            invariant
                self.wf(),
                self.tokens == old(self).tokens,
                t == self.toks(),
                p0 == old(self).pos,
                p0 <= self.pos,
                program_at(t, p0) == seq_prefixed(stmts_view(stmts@), program_at(t, self.pos as int)),
            decreases self.tokens@.len() - self.pos,
        {
            if self.check(&TokenKind::Eof) {
                proof {
                    assert(stmts_view(stmts@) + Seq::<SpecStmt>::empty() =~= stmts_view(stmts@));
                }
                return Ok(stmts);
            }
            let ghost q = self.pos as int;
            let ghost before = stmts_view(stmts@);
            let st = match self.parse_stmt() {
                Ok(st) => st,
                Err(m) => return Err(m),
            };
            proof {
                lemma_stmts_view_push(stmts@, st);
            }
            stmts.push(st);
            proof {
                match program_at(t, self.pos as int) {
                    Ok(rest) => {
                        assert(before + (seq![st@] + rest) =~= stmts_view(stmts@) + rest);
                    },
                    Err(m) => {},
                }
            }
        }
    }

    // ── Statements ───────────────────────────────────────────────

    /// A statement, chosen by its first token; `name = expr` rebinds `name` as `let` does.
    fn parse_stmt(&mut self) -> (res: Result<Stmt, String>)
        requires
            old(self).wf(),
        ensures
            final(self).wf(),
            final(self).tokens == old(self).tokens,
            stmt_outcome(res, final(self).pos as int) == stmt_at(old(self).toks(), old(self).pos as int),
            res is Ok ==> old(self).pos < final(self).pos,
        decreases old(self).tokens@.len() - old(self).pos, 30int,
    {
        match self.peek() {
            TokenKind::Let => self.parse_let(),
            TokenKind::Print => self.parse_print(),
            TokenKind::If => self.parse_if(),
            TokenKind::While => self.parse_while(),
            TokenKind::Fn => self.parse_fn(),
            TokenKind::Return => self.parse_return(),
            TokenKind::LBrace => self.parse_block_stmt(),
            TokenKind::Ident(_) => {
                proof {
                    let t = self.toks();
                    let p = self.pos as int;
                    let i = choose|i: int| p <= i < t.len() && (#[trigger] t[i]).kind is Eof;
                    assert(t[p] == self.tokens@[p]@);
                    assert(i != p);
                }
                if variant_of(self.peek_at(1)) == variant_of(&TokenKind::Assign) {
                    self.parse_assign()
                } else {
                    self.parse_expr_stmt()
                }
            },
            _ => self.parse_expr_stmt(),
        }
    }

    fn parse_let(&mut self) -> (res: Result<Stmt, String>)
        requires
            old(self).wf(),
            old(self).toks()[old(self).pos as int].kind is Let,
        ensures
            final(self).wf(),
            final(self).tokens == old(self).tokens,
            stmt_outcome(res, final(self).pos as int) == let_at(old(self).toks(), old(self).pos as int),
            res is Ok ==> old(self).pos < final(self).pos,
    {
        self.advance(); // 'let'
        let q = self.pos;
        let name = match &self.tokens[q].kind {
            TokenKind::Ident(s) => {
                let n = s.clone();
                self.advance();
                n
            },
            _ => {
                self.advance();
                let line = self.tokens[self.pos - 1].line;
                return Err(found("Expected identifier after 'let'", &self.tokens[q].kind, line));
            },
        };
        match self.expect(&TokenKind::Assign, "Expected '=' after let name") {
            Ok(()) => {},
            Err(m) => return Err(m),
        }
        let expr = match self.parse_expr() {
            Ok(e) => e,
            Err(m) => return Err(m),
        };
        self.match_tok(&TokenKind::Semicolon);
        Ok(Stmt::Let(name, expr))
    }

    /// `name = expr`, read as `let name = expr`.
    fn parse_assign(&mut self) -> (res: Result<Stmt, String>)
        requires
            old(self).wf(),
            old(self).toks()[old(self).pos as int].kind is Ident,
            old(self).pos + 1 < old(self).toks().len(),
            same_variant(old(self).toks()[old(self).pos + 1].kind, SpecTokenKind::Assign),
        ensures
            final(self).wf(),
            final(self).tokens == old(self).tokens,
            stmt_outcome(res, final(self).pos as int) == assign_at(old(self).toks(), old(self).pos as int),
            res is Ok ==> old(self).pos < final(self).pos,
    {
        let name = match &self.tokens[self.pos].kind {
            TokenKind::Ident(s) => s.clone(),
            _ => return Err(String::new()),
        };
        self.advance(); // name
        self.advance(); // '='
        let expr = match self.parse_expr() {
            Ok(e) => e,
            Err(m) => return Err(m),
        };
        self.match_tok(&TokenKind::Semicolon);
        Ok(Stmt::Let(name, expr))
    }

    fn parse_print(&mut self) -> (res: Result<Stmt, String>)
        requires
            old(self).wf(),
            old(self).toks()[old(self).pos as int].kind is Print,
        ensures
            final(self).wf(),
            final(self).tokens == old(self).tokens,
            stmt_outcome(res, final(self).pos as int) == print_at(old(self).toks(), old(self).pos as int),
            res is Ok ==> old(self).pos < final(self).pos,
    {
        self.advance(); // 'print'
        let expr = match self.parse_expr() {
            Ok(e) => e,
            Err(m) => return Err(m),
        };
        self.match_tok(&TokenKind::Semicolon);
        Ok(Stmt::Print(expr))
    }

    fn parse_if(&mut self) -> (res: Result<Stmt, String>)
        requires
            old(self).wf(),
            old(self).toks()[old(self).pos as int].kind is If,
        ensures
            final(self).wf(),
            final(self).tokens == old(self).tokens,
            stmt_outcome(res, final(self).pos as int) == if_at(old(self).toks(), old(self).pos as int),
            res is Ok ==> old(self).pos < final(self).pos,
        decreases old(self).tokens@.len() - old(self).pos, 25int,
    {
        self.advance(); // 'if'
        let cond = match self.parse_expr() {
            Ok(e) => e,
            Err(m) => return Err(m),
        };
        let then_body = match self.parse_block() {
            Ok(b) => b,
            Err(m) => return Err(m),
        };
        let else_body = if self.match_tok(&TokenKind::Else) {
            if self.check(&TokenKind::If) {
                // else if → desugar to nested if
                let nested = match self.parse_if() {
                    Ok(s) => s,
                    Err(m) => return Err(m),
                };
                let mut v: Vec<Stmt> = Vec::new();
                proof {
                    lemma_stmts_view_push(v@, nested);
                    assert(stmts_view(v@) =~= Seq::<SpecStmt>::empty());
                }
                v.push(nested);
                proof {
                    assert(stmts_view(v@) =~= seq![nested@]);
                }
                v
            } else {
                match self.parse_block() {
                    Ok(b) => b,
                    Err(m) => return Err(m),
                }
            }
        } else {
            Vec::new()
        };
        proof {
            crate::ast::lemma_stmts_view(else_body@);
        }
        Ok(Stmt::If(cond, then_body, if else_body.len() == 0 { None } else { Some(else_body) }))
    }

    fn parse_while(&mut self) -> (res: Result<Stmt, String>)
        requires
            old(self).wf(),
            old(self).toks()[old(self).pos as int].kind is While,
        ensures
            final(self).wf(),
            final(self).tokens == old(self).tokens,
            stmt_outcome(res, final(self).pos as int) == while_at(old(self).toks(), old(self).pos as int),
            res is Ok ==> old(self).pos < final(self).pos,
        decreases old(self).tokens@.len() - old(self).pos, 25int,
    {
        self.advance(); // 'while'
        let cond = match self.parse_expr() {
            Ok(e) => e,
            Err(m) => return Err(m),
        };
        let body = match self.parse_block() {
            Ok(b) => b,
            Err(m) => return Err(m),
        };
        Ok(Stmt::While(cond, body))
    }

    fn parse_fn(&mut self) -> (res: Result<Stmt, String>)
        requires
            old(self).wf(),
            old(self).toks()[old(self).pos as int].kind is Fn,
        ensures
            final(self).wf(),
            final(self).tokens == old(self).tokens,
            stmt_outcome(res, final(self).pos as int) == fn_at(old(self).toks(), old(self).pos as int),
            res is Ok ==> old(self).pos < final(self).pos,
        decreases old(self).tokens@.len() - old(self).pos, 25int,
    {
        let ghost t = self.toks();
        let ghost p0 = self.pos as int;
        self.advance(); // 'fn'
        let q = self.pos;
        let name = match &self.tokens[q].kind {
            TokenKind::Ident(s) => {
                let n = s.clone();
                self.advance();
                n
            },
            _ => {
                self.advance();
                let line = self.tokens[self.pos - 1].line;
                return Err(found("Expected function name", &self.tokens[q].kind, line));
            },
        };
        match self.expect(&TokenKind::LParen, "Expected '(' after function name") {
            Ok(()) => {},
            Err(m) => return Err(m),
        }
        let ghost a = self.pos as int;
        let mut params: Vec<String> = Vec::new();
        if !self.check(&TokenKind::RParen) {
            proof {
                match params_at(t, a) {
                    Ok((rest, c)) => {
                        assert(names_view(params@) + rest =~= rest);
                    },
                    Err(m) => {},
                }
            }
            loop
                invariant_except_break
                    params_at(t, a) == list_prefixed(names_view(params@), params_at(t, self.pos as int)),
                invariant
                    self.wf(),
                    self.tokens == old(self).tokens,
                    t == self.toks(),
                    p0 == old(self).pos,
                    p0 < a <= self.pos,
                    !same_variant(t[a].kind, SpecTokenKind::RParen),
                    fn_at(t, p0) == (match params_at(t, a) {
                        Err(m) => Err(m),
                        Ok((names, b)) => if p0 < b < t.len() {
                            if same_variant(t[b].kind, SpecTokenKind::RParen) {
                                match block_at(t, b + 1) {
                                    Ok((body, c)) => Ok((SpecStmt::FnDef(name@, names, body), c)),
                                    Err(m) => Err(m),
                                }
                            } else {
                                Err(found_message("Expected ')' after parameters"@, t[b].kind, t[b].line))
                            }
                        } else {
                            Err(Seq::empty())
                        },
                    }),
                ensures
                    self.wf(),
                    self.tokens == old(self).tokens,
                    a < self.pos,
                    params_at(t, a) == Ok::<(Seq<Seq<char>>, int), Seq<char>>((names_view(params@), self.pos as int)),
                decreases self.tokens@.len() - self.pos,
            {
                let pq = self.pos;
                let ghost before = names_view(params@);
                match &self.tokens[pq].kind {
                    TokenKind::Ident(s) => {
                        let n = s.clone();
                        params.push(n);
                        self.advance();
                    },
                    _ => {
                        self.advance();
                        let line = self.tokens[self.pos - 1].line;
                        return Err(found("Expected parameter name", &self.tokens[pq].kind, line));
                    },
                }
                proof {
                    assert(names_view(params@) =~= before.push(params@.last()@));
                }
                if !self.match_tok(&TokenKind::Comma) {
                    proof {
                        assert(before + seq![params@.last()@] =~= names_view(params@));
                    }
                    break;
                }
                proof {
                    match params_at(t, self.pos as int) {
                        Ok((rest, c)) => {
                            assert(before + (seq![params@.last()@] + rest) =~= names_view(params@) + rest);
                        },
                        Err(m) => {},
                    }
                }
            }
        } else {
            proof {
                assert(names_view(params@) =~= Seq::<Seq<char>>::empty());
            }
        }
        match self.expect(&TokenKind::RParen, "Expected ')' after parameters") {
            Ok(()) => {},
            Err(m) => return Err(m),
        }
        let body = match self.parse_block() {
            Ok(b) => b,
            Err(m) => return Err(m),
        };
        Ok(Stmt::FnDef(name, params, body))
    }

    fn parse_return(&mut self) -> (res: Result<Stmt, String>)
        requires
            old(self).wf(),
            old(self).toks()[old(self).pos as int].kind is Return,
        ensures
            final(self).wf(),
            final(self).tokens == old(self).tokens,
            stmt_outcome(res, final(self).pos as int) == return_at(old(self).toks(), old(self).pos as int),
            res is Ok ==> old(self).pos < final(self).pos,
    {
        self.advance(); // 'return'
        // bare `return;` with no expression
        if self.check(&TokenKind::Semicolon) || self.check(&TokenKind::RBrace) {
            self.match_tok(&TokenKind::Semicolon);
            return Ok(Stmt::Return(None));
        }
        let expr = match self.parse_expr() {
            Ok(e) => e,
            Err(m) => return Err(m),
        };
        self.match_tok(&TokenKind::Semicolon);
        Ok(Stmt::Return(Some(expr)))
    }

    /// A statement that starts with `{`: the block is read and set aside; an empty
    /// block stands for the number 0, and after a non-empty one an expression is
    /// read that stands for the whole statement.
    fn parse_block_stmt(&mut self) -> (res: Result<Stmt, String>)
        requires
            old(self).wf(),
            old(self).toks()[old(self).pos as int].kind is LBrace,
        ensures
            final(self).wf(),
            final(self).tokens == old(self).tokens,
            stmt_outcome(res, final(self).pos as int) == block_stmt_at(old(self).toks(), old(self).pos as int),
            res is Ok ==> old(self).pos < final(self).pos,
        decreases old(self).tokens@.len() - old(self).pos, 25int,
    {
        let block = match self.parse_block() {
            Ok(b) => b,
            Err(m) => return Err(m),
        };
        proof {
            crate::ast::lemma_stmts_view(block@);
        }
        if block.len() == 0 {
            Ok(Stmt::Expr(Expr::Number(String::from_str("0"))))
        } else {
            match self.parse_expr() {
                Ok(e) => Ok(Stmt::Expr(e)),
                Err(m) => Err(m),
            }
        }
    }

    fn parse_block(&mut self) -> (res: Result<Vec<Stmt>, String>)
        requires
            old(self).wf(),
        ensures
            final(self).wf(),
            final(self).tokens == old(self).tokens,
            stmts_outcome(res, final(self).pos as int) == block_at(old(self).toks(), old(self).pos as int),
            res is Ok ==> old(self).pos < final(self).pos,
        decreases old(self).tokens@.len() - old(self).pos, 20int,
    {
        let ghost t = self.toks();
        let ghost p0 = self.pos as int;
        match self.expect(&TokenKind::LBrace, "Expected '{' to start block") {
            Ok(()) => {},
            Err(m) => return Err(m),
        }
        let ghost a = self.pos as int;
        let mut stmts: Vec<Stmt> = Vec::new();
        proof {
            assert(stmts_view(stmts@) =~= Seq::<SpecStmt>::empty());
            match block_items_at(t, a) {
                Ok((rest, c)) => {
                    assert(Seq::<SpecStmt>::empty() + rest =~= rest);
                },
                Err(m) => {},
            }
        }
        loop
            invariant_except_break
                block_items_at(t, a) == list_prefixed(stmts_view(stmts@), block_items_at(t, self.pos as int)),
            invariant
                self.wf(),
                self.tokens == old(self).tokens,
                t == self.toks(),
                p0 == old(self).pos,
                p0 < a <= self.pos,
                a == p0 + 1,
                same_variant(t[p0].kind, SpecTokenKind::LBrace),
            ensures
                self.wf(),
                self.tokens == old(self).tokens,
                a <= self.pos,
                block_items_at(t, a) == Ok::<(Seq<SpecStmt>, int), Seq<char>>((stmts_view(stmts@), self.pos as int)),
            decreases self.tokens@.len() - self.pos,
        {
            if self.check(&TokenKind::RBrace) || self.check(&TokenKind::Eof) {
                proof {
                    assert(stmts_view(stmts@) + Seq::<SpecStmt>::empty() =~= stmts_view(stmts@));
                }
                break;
            }
            let ghost before = stmts_view(stmts@);
            let st = match self.parse_stmt() {
                Ok(st) => st,
                Err(m) => return Err(m),
            };
            proof {
                lemma_stmts_view_push(stmts@, st);
            }
            stmts.push(st);
            proof {
                match block_items_at(t, self.pos as int) {
                    Ok((rest, c)) => {
                        assert(before + (seq![st@] + rest) =~= stmts_view(stmts@) + rest);
                    },
                    Err(m) => {},
                }
            }
        }
        match self.expect(&TokenKind::RBrace, "Expected '}' to end block") {
            Ok(()) => {},
            Err(m) => return Err(m),
        }
        Ok(stmts)
    }

    fn parse_expr_stmt(&mut self) -> (res: Result<Stmt, String>)
        requires
            old(self).wf(),
        ensures
            final(self).wf(),
            final(self).tokens == old(self).tokens,
            stmt_outcome(res, final(self).pos as int) == expr_stmt_at(old(self).toks(), old(self).pos as int),
            res is Ok ==> old(self).pos < final(self).pos,
    {
        let expr = match self.parse_expr() {
            Ok(e) => e,
            Err(m) => return Err(m),
        };
        self.match_tok(&TokenKind::Semicolon);
        Ok(Stmt::Expr(expr))
    }
}

} // verus!
