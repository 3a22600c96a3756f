//! The syntax tree that the parser builds and an evaluator walks.
//!
//! Every node is a literal, a variable reference, a binary or unary
//! operation, a call, or one of the statements: print, let, expression,
//! if/else, while, function definition and return.
use vstd::prelude::*;
use crate::token::{SpecTokenKind, TokenKind};

verus! {

/// An expression. A number literal keeps the text of its lexeme.
#[derive(Debug, PartialEq)]
pub enum Expr {
    Number(String),
    String(String),
    Bool(bool),
    Ident(String),
    BinOp(Box<Expr>, BinOpKind, Box<Expr>),
    UnaryOp(UnaryOpKind, Box<Expr>),
    Call(String, Vec<Expr>),
}

#[derive(Debug, Clone, Copy, PartialEq, Eq, Structural)]
pub enum BinOpKind {
    Add,
    Sub,
    Mul,
    Div,
    Mod,
    Eq,
    Neq,
    Lt,
    Gt,
    LtEq,
    GtEq,
    And,
    Or,
}

#[derive(Debug, Clone, Copy, PartialEq, Eq, Structural)]
pub enum UnaryOpKind {
    Neg,
    Not,
}

/// A statement.
#[derive(Debug, PartialEq)]
pub enum Stmt {
    Let(String, Expr),
    Print(Expr),
    Expr(Expr),
    If(Expr, Vec<Stmt>, Option<Vec<Stmt>>),
    While(Expr, Vec<Stmt>),
    FnDef(String, Vec<String>, Vec<Stmt>),
    Return(Option<Expr>),
}

/// The mathematical value of an expression.
pub enum SpecExpr {
    Number(Seq<char>),
    String(Seq<char>),
    Bool(bool),
    Ident(Seq<char>),
    BinOp(Box<SpecExpr>, BinOpKind, Box<SpecExpr>),
    UnaryOp(UnaryOpKind, Box<SpecExpr>),
    Call(Seq<char>, Seq<SpecExpr>),
}

/// The mathematical value of a statement.
pub enum SpecStmt {
    Let(Seq<char>, SpecExpr),
    Print(SpecExpr),
    Expr(SpecExpr),
    If(SpecExpr, Seq<SpecStmt>, Option<Seq<SpecStmt>>),
    While(SpecExpr, Seq<SpecStmt>),
    FnDef(Seq<char>, Seq<Seq<char>>, Seq<SpecStmt>),
    Return(Option<SpecExpr>),
}

pub open spec fn expr_view(e: Expr) -> SpecExpr
    decreases e,
{
    match e {
        Expr::Number(s) => SpecExpr::Number(s@),
        Expr::String(s) => SpecExpr::String(s@),
        Expr::Bool(b) => SpecExpr::Bool(b),
        Expr::Ident(s) => SpecExpr::Ident(s@),
        Expr::BinOp(l, op, r) => SpecExpr::BinOp(
            Box::new(expr_view(*l)),
            op,
            Box::new(expr_view(*r)),
        ),
        Expr::UnaryOp(op, inner) => SpecExpr::UnaryOp(op, Box::new(expr_view(*inner))),
        Expr::Call(name, args) => SpecExpr::Call(name@, exprs_view(args@)),
    }
}

pub open spec fn exprs_view(es: Seq<Expr>) -> Seq<SpecExpr>
    decreases es,
{
    if es.len() == 0 {
        Seq::empty()
    } else {
        exprs_view(es.subrange(0, es.len() - 1)).push(expr_view(es[es.len() - 1]))
    }
}

pub open spec fn names_view(names: Seq<String>) -> Seq<Seq<char>> {
    names.map_values(|s: String| s@)
}

pub open spec fn stmt_view(s: Stmt) -> SpecStmt
    decreases s,
{
    match s {
        Stmt::Let(name, e) => SpecStmt::Let(name@, expr_view(e)),
        Stmt::Print(e) => SpecStmt::Print(expr_view(e)),
        Stmt::Expr(e) => SpecStmt::Expr(expr_view(e)),
        Stmt::If(c, t, el) => SpecStmt::If(
            expr_view(c),
            stmts_view(t@),
            match el {
                Some(v) => Some(stmts_view(v@)),
                None => None,
            },
        ),
        Stmt::While(c, b) => SpecStmt::While(expr_view(c), stmts_view(b@)),
        Stmt::FnDef(name, params, body) => SpecStmt::FnDef(
            name@,
            names_view(params@),
            stmts_view(body@),
        ),
        Stmt::Return(e) => SpecStmt::Return(
            match e {
                Some(x) => Some(expr_view(x)),
                None => None,
            },
        ),
    }
}

pub open spec fn stmts_view(ss: Seq<Stmt>) -> Seq<SpecStmt>
    decreases ss,
{
    if ss.len() == 0 {
        Seq::empty()
    } else {
        stmts_view(ss.subrange(0, ss.len() - 1)).push(stmt_view(ss[ss.len() - 1]))
    }
}

/// `exprs_view` maps each expression to its view, position by position.
pub proof fn lemma_exprs_view(es: Seq<Expr>)
    ensures
        exprs_view(es).len() == es.len(),
        forall|j: int| 0 <= j < es.len() ==> #[trigger] exprs_view(es)[j] == expr_view(es[j]),
    decreases es.len(),
{
    if es.len() > 0 {
        lemma_exprs_view(es.subrange(0, es.len() - 1));
    }
}

/// `stmts_view` maps each statement to its view, position by position.
pub proof fn lemma_stmts_view(ss: Seq<Stmt>)
    ensures
        stmts_view(ss).len() == ss.len(),
        forall|j: int| 0 <= j < ss.len() ==> #[trigger] stmts_view(ss)[j] == stmt_view(ss[j]),
    decreases ss.len(),
{
    if ss.len() > 0 {
        lemma_stmts_view(ss.subrange(0, ss.len() - 1));
    }
}

pub proof fn lemma_exprs_view_push(es: Seq<Expr>, e: Expr)
    ensures
        exprs_view(es.push(e)) == exprs_view(es).push(expr_view(e)),
{
    assert(es.push(e).subrange(0, es.len() as int) =~= es);
}

pub proof fn lemma_stmts_view_push(ss: Seq<Stmt>, s: Stmt)
    ensures
        stmts_view(ss.push(s)) == stmts_view(ss).push(stmt_view(s)),
{
    assert(ss.push(s).subrange(0, ss.len() as int) =~= ss);
}

impl View for Expr {
    type V = SpecExpr;

    open spec fn view(&self) -> SpecExpr {
        expr_view(*self)
    }
}

impl View for Stmt {
    type V = SpecStmt;

    open spec fn view(&self) -> SpecStmt {
        stmt_view(*self)
    }
}

impl Clone for Expr {
    fn clone(&self) -> (res: Expr)
        ensures
            res@ == self@,
        decreases self,
    {
        match self {
            Expr::Number(s) => Expr::Number(s.clone()),
            Expr::String(s) => Expr::String(s.clone()),
            Expr::Bool(b) => Expr::Bool(*b),
            Expr::Ident(s) => Expr::Ident(s.clone()),
            Expr::BinOp(l, op, r) => {
                let l2 = (**l).clone();
                let r2 = (**r).clone();
                Expr::BinOp(Box::new(l2), *op, Box::new(r2))
            },
            Expr::UnaryOp(op, e) => {
                let e2 = (**e).clone();
                Expr::UnaryOp(*op, Box::new(e2))
            },
            Expr::Call(name, args) => {
                let mut out: Vec<Expr> = Vec::new();
                let mut i: usize = 0;
                while i < args.len()
                    invariant
                        i <= args.len(),
                        *self == Expr::Call(*name, *args),
                        out@.len() == i,
                        forall|j: int| 0 <= j < i ==> expr_view(#[trigger] out@[j]) == expr_view(args@[j]),
                    decreases args.len() - i,
                {
                    proof {
                        assert(decreases_to!(*self => (*self)->Call_1));
                        assert(decreases_to!((*self)->Call_1 => (*self)->Call_1@));
                    }
                    let c = args[i].clone();
                    out.push(c);
                    i = i + 1;
                }
                proof {
                    lemma_exprs_view(out@);
                    lemma_exprs_view(args@);
                    assert(exprs_view(out@) =~= exprs_view(args@));
                }
                Expr::Call(name.clone(), out)
            },
        }
    }
}

/// A copy of a list of names.
fn clone_names(names: &Vec<String>) -> (res: Vec<String>)
    ensures
        res@ == names@,
{
    let mut out: Vec<String> = Vec::new();
    let mut i: usize = 0;
    while i < names.len()
        invariant
            i <= names.len(),
            out@ == names@.subrange(0, i as int),
        decreases names.len() - i,
    {
        out.push(names[i].clone());
        i = i + 1;
    }
    out
}

/// A copy of a list of statements.
fn clone_stmts(ss: &Vec<Stmt>) -> (res: Vec<Stmt>)
    ensures
        stmts_view(res@) == stmts_view(ss@),
    decreases ss,
{
    let mut out: Vec<Stmt> = Vec::new();
    let mut i: usize = 0;
    while i < ss.len()
        invariant
            i <= ss.len(),
            out@.len() == i,
            forall|j: int| 0 <= j < i ==> stmt_view(#[trigger] out@[j]) == stmt_view(ss@[j]),
        decreases ss.len() - i,
    {
        proof {
            assert(decreases_to!(*ss => ss@));
        }
        let c = ss[i].clone();
        out.push(c);
        i = i + 1;
    }
    proof {
        lemma_stmts_view(out@);
        lemma_stmts_view(ss@);
        assert(stmts_view(out@) =~= stmts_view(ss@));
    }
    out
}

impl Clone for Stmt {
    fn clone(&self) -> (res: Stmt)
        ensures
            res@ == self@,
        decreases self,
    {
        match self {
            Stmt::Let(name, e) => Stmt::Let(name.clone(), e.clone()),
            Stmt::Print(e) => Stmt::Print(e.clone()),
            Stmt::Expr(e) => Stmt::Expr(e.clone()),
            Stmt::If(c, t, el) => {
                proof {
                    assert(decreases_to!(*self => (*self)->If_1));
                    assert(decreases_to!(*self => (*self)->If_2));
                }
                let c2 = c.clone();
                let t2 = clone_stmts(t);
                let el2 = match el {
                    Some(v) => {
                        proof {
                            assert(decreases_to!((*self)->If_2 => (*self)->If_2->0));
                        }
                        Some(clone_stmts(v))
                    },
                    None => None,
                };
                Stmt::If(c2, t2, el2)
            },
            Stmt::While(c, b) => {
                proof {
                    assert(decreases_to!(*self => (*self)->While_1));
                }
                let c2 = c.clone();
                let b2 = clone_stmts(b);
                Stmt::While(c2, b2)
            },
            Stmt::FnDef(name, params, body) => {
                proof {
                    assert(decreases_to!(*self => (*self)->FnDef_2));
                }
                let b2 = clone_stmts(body);
                Stmt::FnDef(name.clone(), clone_names(params), b2)
            },
            Stmt::Return(e) => match e {
                Some(x) => Stmt::Return(Some(x.clone())),
                None => Stmt::Return(None),
            },
        }
    }
}

/// The binary operator that a token kind stands for, if any.
pub open spec fn binop_of(k: SpecTokenKind) -> Option<BinOpKind> {
    match k {
        SpecTokenKind::Plus => Some(BinOpKind::Add),
        SpecTokenKind::Minus => Some(BinOpKind::Sub),
        SpecTokenKind::Star => Some(BinOpKind::Mul),
        SpecTokenKind::Slash => Some(BinOpKind::Div),
        SpecTokenKind::Percent => Some(BinOpKind::Mod),
        SpecTokenKind::EqEq => Some(BinOpKind::Eq),
        SpecTokenKind::BangEq => Some(BinOpKind::Neq),
        SpecTokenKind::Lt => Some(BinOpKind::Lt),
        SpecTokenKind::Gt => Some(BinOpKind::Gt),
        SpecTokenKind::LtEq => Some(BinOpKind::LtEq),
        SpecTokenKind::GtEq => Some(BinOpKind::GtEq),
        SpecTokenKind::And => Some(BinOpKind::And),
        SpecTokenKind::Or => Some(BinOpKind::Or),
        _ => None,
    }
}

/// Convert a token kind into the matching binary operator.
/// Returns None for tokens that are not binary operators.
pub fn binop_from_token(tok: &TokenKind) -> (res: Option<BinOpKind>)
    ensures
        res == binop_of(tok@),
        res matches Some(op) ==> tok@ == crate::printing::op_token(op),
{
    match tok {
        TokenKind::Plus => Some(BinOpKind::Add),
        TokenKind::Minus => Some(BinOpKind::Sub),
        TokenKind::Star => Some(BinOpKind::Mul),
        TokenKind::Slash => Some(BinOpKind::Div),
        TokenKind::Percent => Some(BinOpKind::Mod),
        TokenKind::EqEq => Some(BinOpKind::Eq),
        TokenKind::BangEq => Some(BinOpKind::Neq),
        TokenKind::Lt => Some(BinOpKind::Lt),
        TokenKind::Gt => Some(BinOpKind::Gt),
        TokenKind::LtEq => Some(BinOpKind::LtEq),
        TokenKind::GtEq => Some(BinOpKind::GtEq),
        TokenKind::And => Some(BinOpKind::And),
        TokenKind::Or => Some(BinOpKind::Or),
        _ => None,
    }
}

} // verus!
