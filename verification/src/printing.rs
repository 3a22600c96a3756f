//! Printing expressions back into tokens, and what the parser makes of
//! printed expressions: it gives back the expression that was printed, and
//! it groups operators by precedence, the left one first among equals.
use vstd::prelude::*;
use crate::ast::{binop_of, BinOpKind, SpecExpr, SpecStmt, UnaryOpKind};
use crate::parser::{
    adv, args_at, binary_at, binary_tail, block_at, block_items_at, expr_at, expr_stmt_at, fn_at,
    if_at, let_at, level_op, params_at, primary_at, print_at, program_at, return_at, same_variant, seq_prefixed,
    skip_semi, stmt_at, unary_at, while_at,
};
use crate::token::{SpecToken, SpecTokenKind};

verus! {

/// The token of a binary operator.
pub open spec fn op_token(op: BinOpKind) -> SpecTokenKind {
    match op {
        BinOpKind::Add => SpecTokenKind::Plus,
        BinOpKind::Sub => SpecTokenKind::Minus,
        BinOpKind::Mul => SpecTokenKind::Star,
        BinOpKind::Div => SpecTokenKind::Slash,
        BinOpKind::Mod => SpecTokenKind::Percent,
        BinOpKind::Eq => SpecTokenKind::EqEq,
        BinOpKind::Neq => SpecTokenKind::BangEq,
        BinOpKind::Lt => SpecTokenKind::Lt,
        BinOpKind::Gt => SpecTokenKind::Gt,
        BinOpKind::LtEq => SpecTokenKind::LtEq,
        BinOpKind::GtEq => SpecTokenKind::GtEq,
        BinOpKind::And => SpecTokenKind::And,
        BinOpKind::Or => SpecTokenKind::Or,
    }
}

/// The precedence level of a binary operator: 0 binds loosest (or), 5
/// tightest (multiplication, division, remainder).
pub open spec fn op_level(op: BinOpKind) -> int {
    match op {
        BinOpKind::Or => 0,
        BinOpKind::And => 1,
        BinOpKind::Eq | BinOpKind::Neq => 2,
        BinOpKind::Lt | BinOpKind::Gt | BinOpKind::LtEq | BinOpKind::GtEq => 3,
        BinOpKind::Add | BinOpKind::Sub => 4,
        BinOpKind::Mul | BinOpKind::Div | BinOpKind::Mod => 5,
    }
}

/// The tokens of an expression, with every binary operation in brackets.
pub open spec fn print_expr(e: SpecExpr) -> Seq<SpecTokenKind>
    decreases e,
{
    match e {
        SpecExpr::Number(n) => seq![SpecTokenKind::Number(n)],
        SpecExpr::String(s) => seq![SpecTokenKind::String(s)],
        SpecExpr::Bool(b) => seq![
            if b {
                SpecTokenKind::True
            } else {
                SpecTokenKind::False
            },
        ],
        SpecExpr::Ident(x) => seq![SpecTokenKind::Ident(x)],
        SpecExpr::BinOp(l, op, r) => seq![SpecTokenKind::LParen] + print_expr(*l) + seq![
            op_token(op),
        ] + print_expr(*r) + seq![SpecTokenKind::RParen],
        SpecExpr::UnaryOp(op, x) => seq![
            match op {
                UnaryOpKind::Neg => SpecTokenKind::Minus,
                UnaryOpKind::Not => SpecTokenKind::Bang,
            },
        ] + print_expr(*x),
        SpecExpr::Call(name, args) => seq![SpecTokenKind::Ident(name), SpecTokenKind::LParen]
            + print_args(args) + seq![SpecTokenKind::RParen],
    }
}

/// The tokens of call arguments: the printed expressions, separated by commas.
pub open spec fn print_args(args: Seq<SpecExpr>) -> Seq<SpecTokenKind>
    decreases args,
{
    if args.len() == 0 {
        Seq::empty()
    } else if args.len() == 1 {
        print_expr(args[0])
    } else {
        print_expr(args[0]) + seq![SpecTokenKind::Comma] + print_args(args.subrange(1, args.len() as int))
    }
}

/// The tokens of `t` from index `p` on have the kinds `ks`.
pub open spec fn kinds_at(t: Seq<SpecToken>, p: int, ks: Seq<SpecTokenKind>) -> bool {
    &&& 0 <= p
    &&& p + ks.len() <= t.len()
    &&& forall|i: int| 0 <= i < ks.len() ==> #[trigger] t[p + i].kind == ks[i]
}

/// A token that ends an operand at binary level `level` and above: no
/// operator of those levels, and no opening bracket.
pub open spec fn ends_operand(k: SpecTokenKind, level: int) -> bool {
    &&& !(k is LParen)
    &&& forall|l: int| level <= l <= 5 ==> (#[trigger] level_op(l, k)) is None
}

// ── Facts about operators and printed expressions ───────────────────

pub proof fn lemma_op_token_level(op: BinOpKind)
    ensures
        0 <= op_level(op) <= 5,
        level_op(op_level(op), op_token(op)) == Some(op),
        forall|l: int| 0 <= l <= 5 && l != op_level(op) ==> (#[trigger] level_op(l, op_token(op))) is None,
        !(op_token(op) is LParen),
        !(op_token(op) is Eof),
{
}

/// The tokens that no printed expression starts with, and that a printed
/// expression is never empty.
pub proof fn lemma_print_expr_start(e: SpecExpr)
    ensures
        print_expr(e).len() >= 1,
        !(print_expr(e)[0] is RParen),
        !(print_expr(e)[0] is Eof),
{
    match e {
        SpecExpr::BinOp(l, op, r) => {
            assert((seq![SpecTokenKind::LParen] + print_expr(*l) + seq![op_token(op)] + print_expr(
                *r,
            ) + seq![SpecTokenKind::RParen])[0] == SpecTokenKind::LParen);
        },
        SpecExpr::UnaryOp(op, x) => {
            let k = match op {
                UnaryOpKind::Neg => SpecTokenKind::Minus,
                UnaryOpKind::Not => SpecTokenKind::Bang,
            };
            assert((seq![k] + print_expr(*x))[0] == k);
        },
        SpecExpr::Call(name, args) => {
            assert((seq![SpecTokenKind::Ident(name), SpecTokenKind::LParen] + print_args(args)
                + seq![SpecTokenKind::RParen])[0] == SpecTokenKind::Ident(name));
        },
        _ => {},
    }
}

/// A piece of a token match: the tokens from `p` have the kinds `a + b` exactly
/// when those from `p` have the kinds `a` and those after them the kinds `b`.
pub proof fn lemma_kinds_at_split(t: Seq<SpecToken>, p: int, a: Seq<SpecTokenKind>, b: Seq<SpecTokenKind>)
    requires
        kinds_at(t, p, a + b),
    ensures
        kinds_at(t, p, a),
        kinds_at(t, p + a.len(), b),
{
    assert forall|i: int| 0 <= i < a.len() implies #[trigger] t[p + i].kind == a[i] by {
        assert((a + b)[i] == a[i]);
    }
    assert forall|i: int| 0 <= i < b.len() implies #[trigger] t[p + a.len() + i].kind == b[i] by {
        assert((a + b)[a.len() + i] == b[i]);
        assert(t[p + (a.len() + i)].kind == (a + b)[a.len() + i]);
    }
}

/// A closing bracket or a comma ends operands at every level.
proof fn lemma_closers_end_operands(k: SpecTokenKind)
    requires
        k is RParen || k is Comma,
    ensures
        ends_operand(k, 0),
        !same_variant(k, SpecTokenKind::LParen),
{
    assert forall|l: int| 0 <= l <= 5 implies (#[trigger] level_op(l, k)) is None by {}
}

// ── Stepping through the binary levels ──────────────────────────────

/// An operand of level `level`: a unary expression at level 5, the next
/// level otherwise.
pub open spec fn operand_at(t: Seq<SpecToken>, level: int, p: int) -> Result<(SpecExpr, int), Seq<char>> {
    if level == 5 {
        unary_at(t, p)
    } else {
        binary_at(t, level + 1, p)
    }
}

proof fn lemma_binary_unfold(t: Seq<SpecToken>, level: int, p: int, x: SpecExpr, q: int)
    requires
        0 <= level <= 5,
        0 <= p < q < t.len(),
        operand_at(t, level, p) == Ok::<(SpecExpr, int), Seq<char>>((x, q)),
    ensures
        binary_at(t, level, p) == binary_tail(t, level, x, q),
{
}

proof fn lemma_tail_stop(t: Seq<SpecToken>, level: int, x: SpecExpr, q: int)
    requires
        0 <= level <= 5,
        0 <= q < t.len(),
        level_op(level, t[q].kind) is None,
    ensures
        binary_tail(t, level, x, q) == Ok::<(SpecExpr, int), Seq<char>>((x, q)),
{
}

proof fn lemma_tail_step(
    t: Seq<SpecToken>,
    level: int,
    x: SpecExpr,
    q: int,
    op: BinOpKind,
    r: SpecExpr,
    q2: int,
)
    requires
        0 <= level <= 5,
        0 <= q,
        q + 1 < q2 < t.len(),
        level_op(level, t[q].kind) == Some(op),
        operand_at(t, level, q + 1) == Ok::<(SpecExpr, int), Seq<char>>((r, q2)),
    ensures
        binary_tail(t, level, x, q) == binary_tail(
            t,
            level,
            SpecExpr::BinOp(Box::new(x), op, Box::new(r)),
            q2,
        ),
{
}

/// A value that level `from` reads is read by every level down to `to`, when
/// the token after it is an operator of none of those levels.
proof fn lemma_lift(t: Seq<SpecToken>, from: int, to: int, p: int, x: SpecExpr, q: int)
    requires
        0 <= to <= from <= 5,
        0 <= p < q < t.len(),
        binary_at(t, from, p) == Ok::<(SpecExpr, int), Seq<char>>((x, q)),
        forall|l: int| to <= l < from ==> (#[trigger] level_op(l, t[q].kind)) is None,
    ensures
        binary_at(t, to, p) == Ok::<(SpecExpr, int), Seq<char>>((x, q)),
    decreases from - to,
{
    if to < from {
        lemma_lift(t, from, to + 1, p, x, q);
        lemma_binary_unfold(t, to, p, x, q);
        lemma_tail_stop(t, to, x, q);
    }
}

// ── Parsing printed expressions ─────────────────────────────────────

/// A printed expression followed by anything but an opening bracket is read
/// back by the unary rule.
#[verifier::rlimit(60)]
#[verifier::spinoff_prover]
proof fn lemma_unary_printed(t: Seq<SpecToken>, p: int, e: SpecExpr)
    requires
        kinds_at(t, p, print_expr(e)),
        p + print_expr(e).len() < t.len(),
        !(t[p + print_expr(e).len()].kind is LParen),
    ensures
        unary_at(t, p) == Ok::<(SpecExpr, int), Seq<char>>((e, p + print_expr(e).len())),
    decreases e, 1int,
{
    let n = print_expr(e).len();
    assert(t[p + 0].kind == print_expr(e)[0]);
    match e {
        SpecExpr::Number(v) => {},
        SpecExpr::String(v) => {},
        SpecExpr::Bool(b) => {},
        SpecExpr::Ident(x) => {},
        SpecExpr::UnaryOp(op, x) => {
            let k = match op {
                UnaryOpKind::Neg => SpecTokenKind::Minus,
                UnaryOpKind::Not => SpecTokenKind::Bang,
            };
            lemma_kinds_at_split(t, p, seq![k], print_expr(*x));
            lemma_unary_printed(t, p + 1, *x);
        },
        SpecExpr::BinOp(l, op, r) => {
            let inner = print_expr(*l) + seq![op_token(op)] + print_expr(*r);
            assert(print_expr(e) =~= seq![SpecTokenKind::LParen] + inner + seq![SpecTokenKind::RParen]);
            lemma_kinds_at_split(t, p, seq![SpecTokenKind::LParen] + inner, seq![SpecTokenKind::RParen]);
            lemma_kinds_at_split(t, p, seq![SpecTokenKind::LParen], inner);
            lemma_expr_printed_binop(t, p + 1, *l, op, *r);
            assert(t[p + 1 + inner.len() + 0].kind == SpecTokenKind::RParen);
            assert(primary_at(t, p) == Ok::<(SpecExpr, int), Seq<char>>((e, p + n)));
        },
        SpecExpr::Call(name, args) => {
            lemma_call_printed(t, p, name, args);
        },
    }
}

/// A printed call followed by anything is read back by the primary rule.
#[verifier::rlimit(60)]
#[verifier::spinoff_prover]
proof fn lemma_call_printed(t: Seq<SpecToken>, p: int, name: Seq<char>, args: Seq<SpecExpr>)
    requires
        kinds_at(t, p, print_expr(SpecExpr::Call(name, args))),
        p + print_expr(SpecExpr::Call(name, args)).len() < t.len(),
    ensures
        unary_at(t, p) == Ok::<(SpecExpr, int), Seq<char>>(
            (SpecExpr::Call(name, args), p + print_expr(SpecExpr::Call(name, args)).len()),
        ),
    decreases SpecExpr::Call(name, args), 0int,
{
    let e = SpecExpr::Call(name, args);
    assert(decreases_to!(e => e->Call_1));
    let a = print_args(args);
    let n = print_expr(e).len();
    assert(print_expr(e) =~= seq![SpecTokenKind::Ident(name), SpecTokenKind::LParen] + a
        + seq![SpecTokenKind::RParen]);
    lemma_kinds_at_split(
        t,
        p,
        seq![SpecTokenKind::Ident(name), SpecTokenKind::LParen] + a,
        seq![SpecTokenKind::RParen],
    );
    lemma_kinds_at_split(t, p, seq![SpecTokenKind::Ident(name), SpecTokenKind::LParen], a);
    assert(t[p + 0].kind == SpecTokenKind::Ident(name));
    assert(t[p + 1].kind == SpecTokenKind::LParen);
    let b = p + 2 + a.len();
    assert(t[b + 0].kind == SpecTokenKind::RParen);
    assert(n == a.len() + 3);
    if args.len() == 0 {
        assert(a.len() == 0);
        assert(same_variant(t[p + 2].kind, SpecTokenKind::RParen));
        assert(args =~= Seq::<SpecExpr>::empty());
        assert(primary_at(t, p) == Ok::<(SpecExpr, int), Seq<char>>((e, p + n)));
    } else {
        lemma_args_printed(t, p + 2, args);
        lemma_print_args_start(args);
        assert(t[p + 2 + 0].kind == a[0]);
        assert(!same_variant(t[p + 2].kind, SpecTokenKind::RParen));
        assert(args_at(t, p + 2) == Ok::<(Seq<SpecExpr>, int), Seq<char>>((args, b)));
        assert(same_variant(t[b].kind, SpecTokenKind::RParen));
        assert(primary_at(t, p) == Ok::<(SpecExpr, int), Seq<char>>((e, p + n)));
    }
}

/// A printed expression followed by a token that ends operands of level
/// `level` is read back by that level.
proof fn lemma_binary_printed(t: Seq<SpecToken>, level: int, p: int, e: SpecExpr)
    requires
        0 <= level <= 5,
        kinds_at(t, p, print_expr(e)),
        p + print_expr(e).len() < t.len(),
        ends_operand(t[p + print_expr(e).len()].kind, level),
    ensures
        binary_at(t, level, p) == Ok::<(SpecExpr, int), Seq<char>>((e, p + print_expr(e).len())),
    decreases e, 2int,
{
    let q = p + print_expr(e).len();
    lemma_print_expr_start(e);
    lemma_unary_printed(t, p, e);
    lemma_tail_stop(t, 5, e, q);
    lemma_binary_unfold(t, 5, p, e, q);
    lemma_lift(t, 5, level, p, e, q);
}

/// The operand of level `level` reads a printed expression followed by a token
/// that ends operands of the levels above.
proof fn lemma_operand_printed(t: Seq<SpecToken>, level: int, p: int, e: SpecExpr)
    requires
        0 <= level <= 5,
        kinds_at(t, p, print_expr(e)),
        p + print_expr(e).len() < t.len(),
        ends_operand(t[p + print_expr(e).len()].kind, level + 1),
    ensures
        operand_at(t, level, p) == Ok::<(SpecExpr, int), Seq<char>>((e, p + print_expr(e).len())),
    decreases e, 3int,
{
    if level == 5 {
        lemma_unary_printed(t, p, e);
    } else {
        lemma_binary_printed(t, level + 1, p, e);
    }
}

/// The inside of a printed binary operation, `l op r` followed by `)`, is read
/// back as that operation.
#[verifier::rlimit(60)]
#[verifier::spinoff_prover]
proof fn lemma_expr_printed_binop(t: Seq<SpecToken>, p: int, l: SpecExpr, op: BinOpKind, r: SpecExpr)
    requires
        kinds_at(t, p, print_expr(l) + seq![op_token(op)] + print_expr(r) + seq![SpecTokenKind::RParen]),
    ensures
        expr_at(t, p) == Ok::<(SpecExpr, int), Seq<char>>(
            (
                SpecExpr::BinOp(Box::new(l), op, Box::new(r)),
                p + print_expr(l).len() + 1 + print_expr(r).len(),
            ),
        ),
    decreases SpecExpr::BinOp(Box::new(l), op, Box::new(r)), 0int,
{
    let e = SpecExpr::BinOp(Box::new(l), op, Box::new(r));
    assert(decreases_to!(e => e->BinOp_0));
    assert(decreases_to!(e => e->BinOp_2));
    let nl = print_expr(l).len();
    let nr = print_expr(r).len();
    let lo = op_level(op);
    lemma_op_token_level(op);
    lemma_print_expr_start(l);
    lemma_print_expr_start(r);
    let ks = print_expr(l) + seq![op_token(op)] + print_expr(r) + seq![SpecTokenKind::RParen];
    lemma_kinds_at_split(t, p, print_expr(l) + seq![op_token(op)] + print_expr(r), seq![SpecTokenKind::RParen]);
    lemma_kinds_at_split(t, p, print_expr(l) + seq![op_token(op)], print_expr(r));
    lemma_kinds_at_split(t, p, print_expr(l), seq![op_token(op)]);
    let qo = p + nl;
    let qe = qo + 1 + nr;
    assert(t[qo + 0].kind == op_token(op));
    assert(t[qe + 0].kind == SpecTokenKind::RParen);
    assert(ends_operand(t[qo].kind, lo + 1));
    assert(ends_operand(t[qe].kind, 0));
    lemma_operand_printed(t, lo, p, l);
    lemma_operand_printed(t, lo, qo + 1, r);
    lemma_binary_unfold(t, lo, p, l, qo);
    lemma_tail_step(t, lo, l, qo, op, r, qe);
    lemma_tail_stop(t, lo, e, qe);
    lemma_lift(t, lo, 0, p, e, qe);
}

proof fn lemma_print_args_start(args: Seq<SpecExpr>)
    requires
        args.len() > 0,
    ensures
        print_args(args).len() >= 1,
        !(print_args(args)[0] is RParen),
{
    lemma_print_expr_start(args[0]);
    if args.len() > 1 {
        let rest = print_args(args.subrange(1, args.len() as int));
        assert((print_expr(args[0]) + seq![SpecTokenKind::Comma] + rest)[0] == print_expr(args[0])[0]);
    }
}

/// Printed arguments followed by `)` are read back as those arguments.
proof fn lemma_args_printed(t: Seq<SpecToken>, p: int, args: Seq<SpecExpr>)
    requires
        args.len() > 0,
        kinds_at(t, p, print_args(args) + seq![SpecTokenKind::RParen]),
    ensures
        args_at(t, p) == Ok::<(Seq<SpecExpr>, int), Seq<char>>((args, p + print_args(args).len())),
    decreases args, 0int,
{
    let e = args[0];
    assert(decreases_to!(args => args[0]));
    let n0 = print_expr(e).len();
    lemma_print_expr_start(e);
    if args.len() == 1 {
        assert(print_args(args) == print_expr(e));
        lemma_kinds_at_split(t, p, print_expr(e), seq![SpecTokenKind::RParen]);
        assert(t[p + n0 + 0].kind == SpecTokenKind::RParen);
        lemma_closers_end_operands(t[p + n0].kind);
        lemma_binary_printed(t, 0, p, e);
        assert(expr_at(t, p) == Ok::<(SpecExpr, int), Seq<char>>((e, p + n0)));
        assert(!same_variant(t[p + n0].kind, SpecTokenKind::Comma));
        assert(args =~= seq![e]);
        assert(args_at(t, p) == Ok::<(Seq<SpecExpr>, int), Seq<char>>((seq![e], p + n0)));
    } else {
        let rest = args.subrange(1, args.len() as int);
        assert(decreases_to!(args => rest));
        let pr = print_args(rest);
        assert(print_args(args) + seq![SpecTokenKind::RParen] =~= print_expr(e) + seq![SpecTokenKind::Comma] + (pr
            + seq![SpecTokenKind::RParen]));
        lemma_kinds_at_split(t, p, print_expr(e) + seq![SpecTokenKind::Comma], pr + seq![SpecTokenKind::RParen]);
        lemma_kinds_at_split(t, p, print_expr(e), seq![SpecTokenKind::Comma]);
        assert(t[p + n0 + 0].kind == SpecTokenKind::Comma);
        lemma_closers_end_operands(t[p + n0].kind);
        lemma_binary_printed(t, 0, p, e);
        lemma_args_printed(t, p + n0 + 1, rest);
        lemma_print_args_start(rest);
        assert(seq![e] + rest =~= args);
    }
}

// ── The laws ─────────────────────────────────────────────────────────

/// Parsing gives back a printed expression: the tokens of `print_expr(e)`,
/// followed by a token that is no binary operator and no `(` (such as `;`,
/// `)`, `,` or the end of input), are read as `e`, and reading stops just
/// after them.
pub proof fn lemma_parse_printed_expr(t: Seq<SpecToken>, p: int, e: SpecExpr)
    requires
        kinds_at(t, p, print_expr(e)),
        p + print_expr(e).len() < t.len(),
        ends_operand(t[p + print_expr(e).len()].kind, 0),
    ensures
        expr_at(t, p) == Ok::<(SpecExpr, int), Seq<char>>((e, p + print_expr(e).len())),
{
    lemma_binary_printed(t, 0, p, e);
}

/// Precedence and associativity: in `a o1 b o2 c`, with `a`, `b`, `c` printed
/// expressions and the tokens after them no binary operator and no `(`, the
/// operator of the higher level binds first, and of two operators of one
/// level the left one does.
pub proof fn lemma_precedence(
    t: Seq<SpecToken>,
    p: int,
    a: SpecExpr,
    o1: BinOpKind,
    b: SpecExpr,
    o2: BinOpKind,
    c: SpecExpr,
)
    requires
        kinds_at(
            t,
            p,
            print_expr(a) + seq![op_token(o1)] + print_expr(b) + seq![op_token(o2)] + print_expr(c),
        ),
        p + print_expr(a).len() + print_expr(b).len() + print_expr(c).len() + 2 < t.len(),
        ends_operand(
            t[p + print_expr(a).len() + print_expr(b).len() + print_expr(c).len() + 2].kind,
            0,
        ),
    ensures
        expr_at(t, p) == Ok::<(SpecExpr, int), Seq<char>>(
            (
                if op_level(o1) >= op_level(o2) {
                    SpecExpr::BinOp(
                        Box::new(SpecExpr::BinOp(Box::new(a), o1, Box::new(b))),
                        o2,
                        Box::new(c),
                    )
                } else {
                    SpecExpr::BinOp(
                        Box::new(a),
                        o1,
                        Box::new(SpecExpr::BinOp(Box::new(b), o2, Box::new(c))),
                    )
                },
                p + print_expr(a).len() + print_expr(b).len() + print_expr(c).len() + 2,
            ),
        ),
{
    let na = print_expr(a).len();
    let nb = print_expr(b).len();
    let nc = print_expr(c).len();
    let q1 = p + na;
    let q2 = q1 + 1 + nb;
    let qe = q2 + 1 + nc;
    let l1 = op_level(o1);
    let l2 = op_level(o2);
    lemma_op_token_level(o1);
    lemma_op_token_level(o2);
    lemma_print_expr_start(a);
    lemma_print_expr_start(b);
    lemma_print_expr_start(c);
    lemma_kinds_at_split(
        t,
        p,
        print_expr(a) + seq![op_token(o1)] + print_expr(b) + seq![op_token(o2)],
        print_expr(c),
    );
    lemma_kinds_at_split(t, p, print_expr(a) + seq![op_token(o1)] + print_expr(b), seq![op_token(o2)]);
    lemma_kinds_at_split(t, p, print_expr(a) + seq![op_token(o1)], print_expr(b));
    lemma_kinds_at_split(t, p, print_expr(a), seq![op_token(o1)]);
    assert(t[q1 + 0].kind == op_token(o1));
    assert(t[q2 + 0].kind == op_token(o2));
    let ab = SpecExpr::BinOp(Box::new(a), o1, Box::new(b));
    if l1 >= l2 {
        assert(ends_operand(t[q1].kind, l1 + 1));
        assert(ends_operand(t[q2].kind, l1 + 1));
        lemma_operand_printed(t, l1, p, a);
        lemma_operand_printed(t, l1, q1 + 1, b);
        lemma_binary_unfold(t, l1, p, a, q1);
        lemma_tail_step(t, l1, a, q1, o1, b, q2);
        let abc = SpecExpr::BinOp(Box::new(ab), o2, Box::new(c));
        assert(ends_operand(t[qe].kind, l2 + 1));
        lemma_operand_printed(t, l2, q2 + 1, c);
        lemma_tail_stop(t, l2, abc, qe);
        if l1 == l2 {
            lemma_tail_step(t, l1, ab, q2, o2, c, qe);
        } else {
            lemma_tail_stop(t, l1, ab, q2);
            lemma_lift(t, l1, l2 + 1, p, ab, q2);
            assert(operand_at(t, l2, p) == Ok::<(SpecExpr, int), Seq<char>>((ab, q2)));
            lemma_binary_unfold(t, l2, p, ab, q2);
            lemma_tail_step(t, l2, ab, q2, o2, c, qe);
        }
        lemma_lift(t, l2, 0, p, abc, qe);
    } else {
        let bc = SpecExpr::BinOp(Box::new(b), o2, Box::new(c));
        let abc = SpecExpr::BinOp(Box::new(a), o1, Box::new(bc));
        assert(ends_operand(t[q1].kind, l1 + 1));
        assert(ends_operand(t[q2].kind, l2 + 1));
        assert(ends_operand(t[qe].kind, 0));
        lemma_operand_printed(t, l1, p, a);
        lemma_operand_printed(t, l2, q1 + 1, b);
        lemma_operand_printed(t, l2, q2 + 1, c);
        lemma_binary_unfold(t, l2, q1 + 1, b, q2);
        lemma_tail_step(t, l2, b, q2, o2, c, qe);
        lemma_tail_stop(t, l2, bc, qe);
        lemma_lift(t, l2, l1 + 1, q1 + 1, bc, qe);
        assert(operand_at(t, l1, q1 + 1) == Ok::<(SpecExpr, int), Seq<char>>((bc, qe)));
        lemma_binary_unfold(t, l1, p, a, q1);
        lemma_tail_step(t, l1, a, q1, o1, bc, qe);
        lemma_tail_stop(t, l1, abc, qe);
        lemma_lift(t, l1, 0, p, abc, qe);
    }
}

/// Operators and their tokens match one for one: a token stands for an
/// operator (for `binop_from_token`, or at some level of the parser) only if
/// it is that operator's own token, and every operator's token stands for it,
/// at the operator's level.
pub proof fn lemma_operator_tokens(k: SpecTokenKind, op: BinOpKind)
    ensures
        binop_of(k) is Some ==> k == op_token(binop_of(k)->0),
        forall|l: int| #[trigger] level_op(l, k) is Some ==> k == op_token(level_op(l, k)->0),
        binop_of(op_token(op)) == Some(op),
        level_op(op_level(op), op_token(op)) == Some(op),
{
    assert forall|l: int| #[trigger] level_op(l, k) is Some implies k == op_token(level_op(l, k)->0) by {
        if l == 0 {
        } else if l == 1 {
        } else if l == 2 {
        } else if l == 3 {
        } else if l == 4 {
        } else {
        }
    }
}

/// Brackets around any expression read back as that expression: the tokens
/// `(`, then those of `print_expr(e)`, then `)`, followed by a token that is
/// no binary operator and no `(`, are read as `e`, and reading stops just
/// after the `)`.
pub proof fn lemma_parse_bracketed_expr(t: Seq<SpecToken>, p: int, e: SpecExpr)
    requires
        kinds_at(t, p, seq![SpecTokenKind::LParen] + print_expr(e) + seq![SpecTokenKind::RParen]),
        p + print_expr(e).len() + 2 < t.len(),
        ends_operand(t[p + print_expr(e).len() + 2].kind, 0),
    ensures
        expr_at(t, p) == Ok::<(SpecExpr, int), Seq<char>>((e, p + print_expr(e).len() + 2)),
{
    let n = print_expr(e).len();
    let q = p + n + 2;
    lemma_kinds_at_split(t, p, seq![SpecTokenKind::LParen] + print_expr(e), seq![SpecTokenKind::RParen]);
    lemma_kinds_at_split(t, p, seq![SpecTokenKind::LParen], print_expr(e));
    assert(t[p + 0].kind == SpecTokenKind::LParen);
    assert(t[p + 1 + n + 0].kind == SpecTokenKind::RParen);
    lemma_closers_end_operands(t[p + 1 + n].kind);
    lemma_parse_printed_expr(t, p + 1, e);
    assert(primary_at(t, p) == Ok::<(SpecExpr, int), Seq<char>>((e, q)));
    assert(unary_at(t, p) == Ok::<(SpecExpr, int), Seq<char>>((e, q)));
    lemma_binary_unfold(t, 5, p, e, q);
    lemma_tail_stop(t, 5, e, q);
    lemma_lift(t, 5, 0, p, e, q);
}

// ── Statements ───────────────────────────────────────────────────────

/// The tokens of a statement: `let` and `print` statements, expression
/// statements and returns end with `;`, blocks are in braces.
pub open spec fn print_stmt(s: SpecStmt) -> Seq<SpecTokenKind>
    decreases s,
{
    match s {
        SpecStmt::Let(name, e) => seq![
            SpecTokenKind::Let,
            SpecTokenKind::Ident(name),
            SpecTokenKind::Assign,
        ] + print_expr(e) + seq![SpecTokenKind::Semicolon],
        SpecStmt::Print(e) => seq![SpecTokenKind::Print] + print_expr(e) + seq![
            SpecTokenKind::Semicolon,
        ],
        SpecStmt::Expr(e) => print_expr(e) + seq![SpecTokenKind::Semicolon],
        SpecStmt::If(c, tb, eb) => seq![SpecTokenKind::If] + print_expr(c) + seq![
            SpecTokenKind::LBrace,
        ] + print_stmts(tb) + seq![SpecTokenKind::RBrace] + match eb {
            None => Seq::empty(),
            Some(b) => seq![SpecTokenKind::Else, SpecTokenKind::LBrace] + print_stmts(b) + seq![
                SpecTokenKind::RBrace,
            ],
        },
        SpecStmt::While(c, b) => seq![SpecTokenKind::While] + print_expr(c) + seq![
            SpecTokenKind::LBrace,
        ] + print_stmts(b) + seq![SpecTokenKind::RBrace],
        SpecStmt::FnDef(name, ps, b) => seq![
            SpecTokenKind::Fn,
            SpecTokenKind::Ident(name),
            SpecTokenKind::LParen,
        ] + print_params(ps) + seq![SpecTokenKind::RParen, SpecTokenKind::LBrace] + print_stmts(b)
            + seq![SpecTokenKind::RBrace],
        SpecStmt::Return(None) => seq![SpecTokenKind::Return, SpecTokenKind::Semicolon],
        SpecStmt::Return(Some(e)) => seq![SpecTokenKind::Return] + print_expr(e) + seq![
            SpecTokenKind::Semicolon,
        ],
    }
}

/// The tokens of a list of statements, one after another.
pub open spec fn print_stmts(ss: Seq<SpecStmt>) -> Seq<SpecTokenKind>
    decreases ss,
{
    if ss.len() == 0 {
        Seq::empty()
    } else {
        print_stmt(ss[0]) + print_stmts(ss.subrange(1, ss.len() as int))
    }
}

/// The tokens of parameter names, separated by commas.
pub open spec fn print_params(ps: Seq<Seq<char>>) -> Seq<SpecTokenKind>
    decreases ps.len(),
{
    if ps.len() == 0 {
        Seq::empty()
    } else if ps.len() == 1 {
        seq![SpecTokenKind::Ident(ps[0])]
    } else {
        seq![SpecTokenKind::Ident(ps[0]), SpecTokenKind::Comma] + print_params(
            ps.subrange(1, ps.len() as int),
        )
    }
}

/// A statement that printing and parsing keep as it is: every else branch,
/// where there is one, holds a statement (the parser reads an empty else
/// block as no else branch).
pub open spec fn stmt_printable(s: SpecStmt) -> bool
    decreases s,
{
    match s {
        SpecStmt::If(c, tb, eb) => stmts_printable(tb) && match eb {
            None => true,
            Some(b) => b.len() > 0 && stmts_printable(b),
        },
        SpecStmt::While(c, b) => stmts_printable(b),
        SpecStmt::FnDef(name, ps, b) => stmts_printable(b),
        _ => true,
    }
}

pub open spec fn stmts_printable(ss: Seq<SpecStmt>) -> bool
    decreases ss,
{
    ss.len() == 0 || (stmt_printable(ss[0]) && stmts_printable(ss.subrange(1, ss.len() as int)))
}

/// The token kinds that a printed expression can start with.
pub open spec fn expr_start(k: SpecTokenKind) -> bool {
    k is Number || k is String || k is True || k is False || k is Ident || k is LParen
        || k is Minus || k is Bang
}

proof fn lemma_print_expr_first(e: SpecExpr)
    ensures
        print_expr(e).len() >= 1,
        expr_start(print_expr(e)[0]),
        print_expr(e)[0] is Ident ==> print_expr(e).len() == 1 || print_expr(e)[1] is LParen,
{
    lemma_print_expr_start(e);
    match e {
        SpecExpr::BinOp(l, op, r) => {
            assert((seq![SpecTokenKind::LParen] + print_expr(*l) + seq![op_token(op)] + print_expr(
                *r,
            ) + seq![SpecTokenKind::RParen])[0] == SpecTokenKind::LParen);
        },
        SpecExpr::UnaryOp(op, x) => {
            let k = match op {
                UnaryOpKind::Neg => SpecTokenKind::Minus,
                UnaryOpKind::Not => SpecTokenKind::Bang,
            };
            assert((seq![k] + print_expr(*x))[0] == k);
        },
        SpecExpr::Call(name, args) => {
            let ks = seq![SpecTokenKind::Ident(name), SpecTokenKind::LParen] + print_args(args)
                + seq![SpecTokenKind::RParen];
            assert(ks[0] == SpecTokenKind::Ident(name));
            assert(ks[1] == SpecTokenKind::LParen);
        },
        _ => {},
    }
}

/// A printed statement is never empty, and starts with none of `}`, `else`
/// and the end of input.
proof fn lemma_print_stmt_first(s: SpecStmt)
    ensures
        print_stmt(s).len() >= 1,
        !(print_stmt(s)[0] is RBrace),
        !(print_stmt(s)[0] is Else),
        !(print_stmt(s)[0] is Eof),
{
    match s {
        SpecStmt::Expr(e) => {
            lemma_print_expr_first(e);
            assert((print_expr(e) + seq![SpecTokenKind::Semicolon])[0] == print_expr(e)[0]);
        },
        _ => {
            assert(print_stmt(s)[0] == print_stmt(s)[0]);
        },
    }
}

proof fn lemma_closers_end_operands_all(k: SpecTokenKind)
    requires
        k is Semicolon || k is LBrace || k is RParen || k is Comma,
    ensures
        ends_operand(k, 0),
{
    assert forall|l: int| 0 <= l <= 5 implies (#[trigger] level_op(l, k)) is None by {}
}

/// Printed parameter names followed by `)` are read back.
proof fn lemma_params_printed(t: Seq<SpecToken>, p: int, ps: Seq<Seq<char>>)
    requires
        ps.len() > 0,
        kinds_at(t, p, print_params(ps) + seq![SpecTokenKind::RParen]),
    ensures
        params_at(t, p) == Ok::<(Seq<Seq<char>>, int), Seq<char>>((ps, p + print_params(ps).len())),
    decreases ps.len(),
{
    assert(t[p + 0].kind == (print_params(ps) + seq![SpecTokenKind::RParen])[0]);
    if ps.len() == 1 {
        assert(t[p + 1].kind == (print_params(ps) + seq![SpecTokenKind::RParen])[1]);
        assert(ps =~= seq![ps[0]]);
    } else {
        let rest = ps.subrange(1, ps.len() as int);
        let pr = print_params(rest);
        assert(print_params(ps) + seq![SpecTokenKind::RParen] =~= seq![
            SpecTokenKind::Ident(ps[0]),
            SpecTokenKind::Comma,
        ] + (pr + seq![SpecTokenKind::RParen]));
        lemma_kinds_at_split(
            t,
            p,
            seq![SpecTokenKind::Ident(ps[0]), SpecTokenKind::Comma],
            pr + seq![SpecTokenKind::RParen],
        );
        assert(t[p + 1].kind == SpecTokenKind::Comma);
        lemma_params_printed(t, p + 2, rest);
        assert(seq![ps[0]] + rest =~= ps);
    }
}

/// A printed statement, followed by anything but `else`, is read back.
#[verifier::rlimit(60)]
#[verifier::spinoff_prover]
proof fn lemma_stmt_printed(t: Seq<SpecToken>, p: int, s: SpecStmt)
    requires
        stmt_printable(s),
        kinds_at(t, p, print_stmt(s)),
        p + print_stmt(s).len() < t.len(),
        !(t[p + print_stmt(s).len()].kind is Else),
    ensures
        stmt_at(t, p) == Ok::<(SpecStmt, int), Seq<char>>((s, p + print_stmt(s).len())),
    decreases s, 2int,
{
    match s {
        SpecStmt::Let(name, e) => {
            lemma_let_printed(t, p, name, e);
        },
        SpecStmt::Print(e) => {
            lemma_print_printed(t, p, e);
        },
        SpecStmt::Expr(e) => {
            lemma_expr_stmt_printed(t, p, e);
        },
        SpecStmt::Return(r) => {
            lemma_return_printed(t, p, r);
        },
        SpecStmt::While(c, body) => {
            lemma_while_printed(t, p, c, body);
        },
        SpecStmt::If(c, tb, eb) => {
            lemma_if_printed(t, p, c, tb, eb);
        },
        SpecStmt::FnDef(name, ps, body) => {
            lemma_fn_printed(t, p, name, ps, body);
        },
    }
}

#[verifier::rlimit(60)]
#[verifier::spinoff_prover]
proof fn lemma_let_printed(t: Seq<SpecToken>, p: int, name: Seq<char>, e: SpecExpr)
    requires
        kinds_at(t, p, print_stmt(SpecStmt::Let(name, e))),
        p + print_stmt(SpecStmt::Let(name, e)).len() < t.len(),
    ensures
        t[p].kind is Let,
        let_at(t, p) == Ok::<(SpecStmt, int), Seq<char>>(
            (SpecStmt::Let(name, e), p + print_stmt(SpecStmt::Let(name, e)).len()),
        ),
{
    let head = seq![SpecTokenKind::Let, SpecTokenKind::Ident(name), SpecTokenKind::Assign];
    lemma_kinds_at_split(t, p, head + print_expr(e), seq![SpecTokenKind::Semicolon]);
    lemma_kinds_at_split(t, p, head, print_expr(e));
    assert(t[p + 0].kind == head[0]);
    assert(t[p + 1].kind == head[1]);
    assert(t[p + 2].kind == head[2]);
    let b = p + 3 + print_expr(e).len();
    assert(t[b + 0].kind == SpecTokenKind::Semicolon);
    lemma_closers_end_operands_all(t[b].kind);
    lemma_parse_printed_expr(t, p + 3, e);
    assert(let_at(t, p) == Ok::<(SpecStmt, int), Seq<char>>((SpecStmt::Let(name, e), b + 1)));
}

#[verifier::rlimit(60)]
#[verifier::spinoff_prover]
proof fn lemma_print_printed(t: Seq<SpecToken>, p: int, e: SpecExpr)
    requires
        kinds_at(t, p, print_stmt(SpecStmt::Print(e))),
        p + print_stmt(SpecStmt::Print(e)).len() < t.len(),
    ensures
        t[p].kind is Print,
        print_at(t, p) == Ok::<(SpecStmt, int), Seq<char>>(
            (SpecStmt::Print(e), p + print_stmt(SpecStmt::Print(e)).len()),
        ),
{
    let head = seq![SpecTokenKind::Print];
    lemma_kinds_at_split(t, p, head + print_expr(e), seq![SpecTokenKind::Semicolon]);
    lemma_kinds_at_split(t, p, head, print_expr(e));
    assert(t[p + 0].kind == head[0]);
    let b = p + 1 + print_expr(e).len();
    assert(t[b + 0].kind == SpecTokenKind::Semicolon);
    lemma_closers_end_operands_all(t[b].kind);
    lemma_parse_printed_expr(t, p + 1, e);
    assert(print_at(t, p) == Ok::<(SpecStmt, int), Seq<char>>((SpecStmt::Print(e), b + 1)));
}

#[verifier::rlimit(60)]
#[verifier::spinoff_prover]
proof fn lemma_expr_stmt_printed(t: Seq<SpecToken>, p: int, e: SpecExpr)
    requires
        kinds_at(t, p, print_stmt(SpecStmt::Expr(e))),
        p + print_stmt(SpecStmt::Expr(e)).len() < t.len(),
    ensures
        stmt_at(t, p) == Ok::<(SpecStmt, int), Seq<char>>(
            (SpecStmt::Expr(e), p + print_stmt(SpecStmt::Expr(e)).len()),
        ),
{
    lemma_kinds_at_split(t, p, print_expr(e), seq![SpecTokenKind::Semicolon]);
    lemma_print_expr_first(e);
    let b = p + print_expr(e).len();
    assert(t[b + 0].kind == SpecTokenKind::Semicolon);
    lemma_closers_end_operands_all(t[b].kind);
    lemma_parse_printed_expr(t, p, e);
    assert(t[p + 0].kind == print_expr(e)[0]);
    if print_expr(e).len() > 1 {
        assert(t[p + 1].kind == print_expr(e)[1]);
    }
    assert(expr_stmt_at(t, p) == Ok::<(SpecStmt, int), Seq<char>>((SpecStmt::Expr(e), b + 1)));
    assert(stmt_at(t, p) == expr_stmt_at(t, p));
}

#[verifier::rlimit(60)]
#[verifier::spinoff_prover]
proof fn lemma_return_printed(t: Seq<SpecToken>, p: int, r: Option<SpecExpr>)
    requires
        kinds_at(t, p, print_stmt(SpecStmt::Return(r))),
        p + print_stmt(SpecStmt::Return(r)).len() < t.len(),
    ensures
        t[p].kind is Return,
        return_at(t, p) == Ok::<(SpecStmt, int), Seq<char>>(
            (SpecStmt::Return(r), p + print_stmt(SpecStmt::Return(r)).len()),
        ),
{
    let ks = print_stmt(SpecStmt::Return(r));
    assert(t[p + 0].kind == ks[0]);
    match r {
        None => {
            assert(t[p + 1].kind == ks[1]);
            assert(return_at(t, p) == Ok::<(SpecStmt, int), Seq<char>>((SpecStmt::Return(r), p + 2)));
        },
        Some(e) => {
            let head = seq![SpecTokenKind::Return];
            lemma_kinds_at_split(t, p, head + print_expr(e), seq![SpecTokenKind::Semicolon]);
            lemma_kinds_at_split(t, p, head, print_expr(e));
            lemma_print_expr_first(e);
            assert(t[p + 1 + 0].kind == print_expr(e)[0]);
            let b = p + 1 + print_expr(e).len();
            assert(t[b + 0].kind == SpecTokenKind::Semicolon);
            lemma_closers_end_operands_all(t[b].kind);
            lemma_parse_printed_expr(t, p + 1, e);
            assert(return_at(t, p) == Ok::<(SpecStmt, int), Seq<char>>((SpecStmt::Return(r), b + 1)));
        },
    }
}

#[verifier::rlimit(60)]
#[verifier::spinoff_prover]
proof fn lemma_while_printed(t: Seq<SpecToken>, p: int, c: SpecExpr, body: Seq<SpecStmt>)
    requires
        stmt_printable(SpecStmt::While(c, body)),
        kinds_at(t, p, print_stmt(SpecStmt::While(c, body))),
        p + print_stmt(SpecStmt::While(c, body)).len() < t.len(),
    ensures
        t[p].kind is While,
        while_at(t, p) == Ok::<(SpecStmt, int), Seq<char>>(
            (SpecStmt::While(c, body), p + print_stmt(SpecStmt::While(c, body)).len()),
        ),
    decreases SpecStmt::While(c, body), 1int,
{
    let s = SpecStmt::While(c, body);
    assert(decreases_to!(s => s->While_1));
    let blk = seq![SpecTokenKind::LBrace] + print_stmts(body) + seq![SpecTokenKind::RBrace];
    assert(print_stmt(s) =~= seq![SpecTokenKind::While] + print_expr(c) + blk);
    lemma_kinds_at_split(t, p, seq![SpecTokenKind::While] + print_expr(c), blk);
    lemma_kinds_at_split(t, p, seq![SpecTokenKind::While], print_expr(c));
    assert(t[p + 0].kind == SpecTokenKind::While);
    let q1 = p + 1 + print_expr(c).len();
    assert(t[q1 + 0].kind == blk[0]);
    lemma_closers_end_operands_all(t[q1].kind);
    lemma_parse_printed_expr(t, p + 1, c);
    lemma_block_printed(t, q1, body);
}

#[verifier::rlimit(80)]
#[verifier::spinoff_prover]
proof fn lemma_if_printed(
    t: Seq<SpecToken>,
    p: int,
    c: SpecExpr,
    tb: Seq<SpecStmt>,
    eb: Option<Seq<SpecStmt>>,
)
    requires
        stmt_printable(SpecStmt::If(c, tb, eb)),
        kinds_at(t, p, print_stmt(SpecStmt::If(c, tb, eb))),
        p + print_stmt(SpecStmt::If(c, tb, eb)).len() < t.len(),
        !(t[p + print_stmt(SpecStmt::If(c, tb, eb)).len()].kind is Else),
    ensures
        t[p].kind is If,
        if_at(t, p) == Ok::<(SpecStmt, int), Seq<char>>(
            (SpecStmt::If(c, tb, eb), p + print_stmt(SpecStmt::If(c, tb, eb)).len()),
        ),
    decreases SpecStmt::If(c, tb, eb), 1int,
{
    let s = SpecStmt::If(c, tb, eb);
    assert(decreases_to!(s => s->If_1));
    let blk = seq![SpecTokenKind::LBrace] + print_stmts(tb) + seq![SpecTokenKind::RBrace];
    let tail: Seq<SpecTokenKind> = match eb {
        None => Seq::empty(),
        Some(b) => seq![SpecTokenKind::Else, SpecTokenKind::LBrace] + print_stmts(b) + seq![
            SpecTokenKind::RBrace,
        ],
    };
    assert(print_stmt(s) =~= seq![SpecTokenKind::If] + print_expr(c) + blk + tail);
    lemma_kinds_at_split(t, p, seq![SpecTokenKind::If] + print_expr(c) + blk, tail);
    lemma_kinds_at_split(t, p, seq![SpecTokenKind::If] + print_expr(c), blk);
    lemma_kinds_at_split(t, p, seq![SpecTokenKind::If], print_expr(c));
    assert(t[p + 0].kind == SpecTokenKind::If);
    let q1 = p + 1 + print_expr(c).len();
    let q2 = q1 + blk.len();
    assert(t[q1 + 0].kind == blk[0]);
    lemma_closers_end_operands_all(t[q1].kind);
    lemma_parse_printed_expr(t, p + 1, c);
    lemma_block_printed(t, q1, tb);
    match eb {
        None => {
            assert(tail.len() == 0);
            assert(if_at(t, p) == Ok::<(SpecStmt, int), Seq<char>>((s, q2)));
        },
        Some(b) => {
            assert(decreases_to!(s => s->If_2));
            assert(decreases_to!(s->If_2 => s->If_2->0));
            let eblk = seq![SpecTokenKind::LBrace] + print_stmts(b) + seq![SpecTokenKind::RBrace];
            assert(tail =~= seq![SpecTokenKind::Else] + eblk);
            lemma_kinds_at_split(t, q2, seq![SpecTokenKind::Else], eblk);
            assert(t[q2 + 0].kind == SpecTokenKind::Else);
            assert(t[q2 + 1 + 0].kind == SpecTokenKind::LBrace);
            lemma_block_printed(t, q2 + 1, b);
            assert(if_at(t, p) == Ok::<(SpecStmt, int), Seq<char>>((s, q2 + 1 + eblk.len())));
        },
    }
}

#[verifier::rlimit(60)]
#[verifier::spinoff_prover]
proof fn lemma_fn_printed(
    t: Seq<SpecToken>,
    p: int,
    name: Seq<char>,
    ps: Seq<Seq<char>>,
    body: Seq<SpecStmt>,
)
    requires
        stmt_printable(SpecStmt::FnDef(name, ps, body)),
        kinds_at(t, p, print_stmt(SpecStmt::FnDef(name, ps, body))),
        p + print_stmt(SpecStmt::FnDef(name, ps, body)).len() < t.len(),
    ensures
        t[p].kind is Fn,
        fn_at(t, p) == Ok::<(SpecStmt, int), Seq<char>>(
            (SpecStmt::FnDef(name, ps, body), p + print_stmt(SpecStmt::FnDef(name, ps, body)).len()),
        ),
    decreases SpecStmt::FnDef(name, ps, body), 1int,
{
    let s = SpecStmt::FnDef(name, ps, body);
    assert(decreases_to!(s => s->FnDef_2));
    let head = seq![SpecTokenKind::Fn, SpecTokenKind::Ident(name), SpecTokenKind::LParen];
    let pp = print_params(ps);
    let blk = seq![SpecTokenKind::LBrace] + print_stmts(body) + seq![SpecTokenKind::RBrace];
    assert(print_stmt(s) =~= head + (pp + seq![SpecTokenKind::RParen]) + blk);
    lemma_kinds_at_split(t, p, head + (pp + seq![SpecTokenKind::RParen]), blk);
    lemma_kinds_at_split(t, p, head, pp + seq![SpecTokenKind::RParen]);
    assert(t[p + 0].kind == head[0]);
    assert(t[p + 1].kind == head[1]);
    assert(t[p + 2].kind == head[2]);
    let a = p + 3;
    let b = a + pp.len();
    assert(t[a + pp.len()].kind == (pp + seq![SpecTokenKind::RParen])[pp.len() as int]);
    assert(t[b + 1 + 0].kind == blk[0]);
    lemma_block_printed(t, b + 1, body);
    if ps.len() == 0 {
        assert(pp.len() == 0);
        assert(ps =~= Seq::<Seq<char>>::empty());
    } else {
        assert(t[a + 0].kind == (pp + seq![SpecTokenKind::RParen])[0]);
        lemma_params_printed(t, a, ps);
    }
    assert(fn_at(t, p) == Ok::<(SpecStmt, int), Seq<char>>((s, b + 1 + blk.len())));
}

/// A printed block is read back.
#[verifier::rlimit(60)]
#[verifier::spinoff_prover]
proof fn lemma_block_printed(t: Seq<SpecToken>, p: int, ss: Seq<SpecStmt>)
    requires
        stmts_printable(ss),
        kinds_at(t, p, seq![SpecTokenKind::LBrace] + print_stmts(ss) + seq![SpecTokenKind::RBrace]),
        p + print_stmts(ss).len() + 2 <= t.len(),
    ensures
        block_at(t, p) == Ok::<(Seq<SpecStmt>, int), Seq<char>>((ss, p + print_stmts(ss).len() + 2)),
    decreases ss, 1int,
{
    let ks = seq![SpecTokenKind::LBrace] + print_stmts(ss) + seq![SpecTokenKind::RBrace];
    lemma_kinds_at_split(t, p, seq![SpecTokenKind::LBrace] + print_stmts(ss), seq![SpecTokenKind::RBrace]);
    lemma_kinds_at_split(t, p, seq![SpecTokenKind::LBrace], print_stmts(ss));
    assert(t[p + 0].kind == SpecTokenKind::LBrace);
    let q = p + 1 + print_stmts(ss).len();
    assert(t[q + 0].kind == SpecTokenKind::RBrace);
    lemma_items_printed(t, p + 1, ss);
}

/// Printed statements followed by `}` or the end of input are read back as
/// the statements of a block.
#[verifier::rlimit(60)]
#[verifier::spinoff_prover]
proof fn lemma_items_printed(t: Seq<SpecToken>, p: int, ss: Seq<SpecStmt>)
    requires
        stmts_printable(ss),
        kinds_at(t, p, print_stmts(ss)),
        p + print_stmts(ss).len() < t.len(),
        t[p + print_stmts(ss).len()].kind is RBrace || t[p + print_stmts(ss).len()].kind is Eof,
    ensures
        block_items_at(t, p) == Ok::<(Seq<SpecStmt>, int), Seq<char>>((ss, p + print_stmts(ss).len())),
        program_at(t, p) == (if t[p + print_stmts(ss).len()].kind is Eof {
            Ok::<Seq<SpecStmt>, Seq<char>>(ss)
        } else {
            seq_prefixed(ss, program_at(t, p + print_stmts(ss).len()))
        }),
    decreases ss, 0int,
{
    if ss.len() == 0 {
        assert(ss =~= Seq::<SpecStmt>::empty());
        if t[p].kind is RBrace {
            match program_at(t, p) {
                Ok(rest) => {
                    assert(ss + rest =~= rest);
                },
                Err(m) => {},
            }
        }
    } else {
        let s0 = ss[0];
        let rest = ss.subrange(1, ss.len() as int);
        assert(decreases_to!(ss => ss[0]));
        assert(decreases_to!(ss => rest));
        let n0 = print_stmt(s0).len();
        lemma_kinds_at_split(t, p, print_stmt(s0), print_stmts(rest));
        lemma_print_stmt_first(s0);
        assert(t[p + 0].kind == print_stmt(s0)[0]);
        if rest.len() > 0 {
            lemma_print_stmt_first(rest[0]);
            assert(print_stmts(rest)[0] == print_stmt(rest[0])[0]);
            assert(t[p + n0 + 0].kind == print_stmts(rest)[0]);
        }
        lemma_stmt_printed(t, p + 0, s0);
        lemma_items_printed(t, p + n0, rest);
        assert(seq![s0] + rest =~= ss);
        match program_at(t, p + print_stmts(ss).len()) {
            Ok(more) => {
                assert(seq![s0] + (rest + more) =~= ss + more);
            },
            Err(m) => {},
        }
    }
}

/// Parsing gives back a printed program: the tokens of `print_stmts(ss)`
/// followed by the end of input are read as `ss`, for every list of
/// statements whose else branches are not empty.
pub proof fn lemma_parse_printed_program(t: Seq<SpecToken>, ss: Seq<SpecStmt>)
    requires
        stmts_printable(ss),
        kinds_at(t, 0, print_stmts(ss)),
        print_stmts(ss).len() < t.len(),
        t[print_stmts(ss).len() as int].kind is Eof,
    ensures
        program_at(t, 0) == Ok::<Seq<SpecStmt>, Seq<char>>(ss),
{
    lemma_items_printed(t, 0, ss);
}

} // verus!
