//! The grammar of statements and expressions, as functions on tokens.
//!
//! Each rule reads the token sequence `t` from position `p` and gives a value
//! and the number of tokens it took (`Parsed`), or fails: `Back` lets the caller
//! try something else, `Cut` (with the position where it happened) ends the
//! whole parse with an error.
use vstd::prelude::*;

use super::ops::{binop_of_text, unary_of_text};
use super::types::{BinOp, SpecExpr, SpecStmt, SpecStringPart, SpecValue, UnaryOp};
use crate::lexer::types::SpecToken;

verus! {

/// The outcome of a grammar rule.
pub enum PRes<T> {
    Parsed(T, nat),
    Back,
    Cut(nat),
}

/// `r` with `k` more tokens taken.
pub open spec fn shift<T>(r: PRes<T>, k: nat) -> PRes<T> {
    match r {
        PRes::Parsed(x, n) => PRes::Parsed(x, n + k),
        PRes::Back => PRes::Back,
        PRes::Cut(c) => PRes::Cut(c),
    }
}

/// `a`, or `b` where `a` backtracks.
pub open spec fn alt<T>(a: PRes<T>, b: PRes<T>) -> PRes<T> {
    match a {
        PRes::Back => b,
        _ => a,
    }
}

/// The token at `p` is `x`.
pub open spec fn at(t: Seq<SpecToken>, p: int, x: SpecToken) -> bool {
    0 <= p < t.len() && t[p] == x
}

/// The number of newlines in a row from `p`.
pub open spec fn nl_run(t: Seq<SpecToken>, p: int) -> nat
    decreases t.len() - p,
{
    if 0 <= p < t.len() && t[p] == SpecToken::NewLine {
        1 + nl_run(t, p + 1)
    } else {
        0
    }
}

/// The position after the newlines from `p`.
pub open spec fn ws0(t: Seq<SpecToken>, p: int) -> int {
    p + nl_run(t, p)
}

/// How much is left to read from `p`, as a measure that shrinks as `p`
/// advances: one more than the tokens left, and nothing past the end.
pub open spec fn left(t: Seq<SpecToken>, p: int) -> int {
    if p > t.len() {
        0
    } else {
        t.len() + 1 - p
    }
}

/// The binary operator a token writes.
pub open spec fn binop_of_token(x: SpecToken) -> Option<BinOp> {
    match x {
        SpecToken::Operation(op) => binop_of_text(op),
        _ => None,
    }
}

/// The unary operator a token writes.
pub open spec fn unop_of_token(x: SpecToken) -> Option<UnaryOp> {
    match x {
        SpecToken::Operation(op) => unary_of_text(op),
        _ => None,
    }
}

/// The binding power of a prefix operator.
pub open spec fn prefix_power(op: UnaryOp) -> int {
    match op {
        UnaryOp::Plus | UnaryOp::Minus => 15,
        UnaryOp::Not => 7,
        UnaryOp::Write | UnaryOp::Print => 2,
    }
}

/// The left and right binding powers of an infix operator, and whether it
/// does not associate.
pub open spec fn infix_info(op: BinOp) -> Option<(int, int, bool)> {
    match op {
        BinOp::DotAccess => Some((21, 20, false)),
        BinOp::Pow => Some((17, 16, false)),
        BinOp::IntDiv | BinOp::Mod | BinOp::Mult | BinOp::Div => Some((13, 14, false)),
        BinOp::Plus | BinOp::Minus => Some((11, 12, false)),
        BinOp::Equal | BinOp::NotEqual | BinOp::Greater | BinOp::GreaterOrEqual | BinOp::Less
        | BinOp::LessOrEqual => Some((9, 10, true)),
        BinOp::And => Some((5, 6, false)),
        BinOp::Or => Some((3, 4, false)),
        BinOp::VarAssignment | BinOp::ConstAssignment => Some((0, 1, false)),
        BinOp::Index | BinOp::Call => None,
    }
}

/// A keyword token.
pub open spec fn kw(s: Seq<char>) -> SpecToken {
    SpecToken::Keyword(s)
}

/// The keyword `senao`, also written `senão`, at `p`.
pub open spec fn else_at(t: Seq<SpecToken>, p: int) -> bool {
    at(t, p, kw("senao"@)) || at(t, p, kw("senão"@))
}

/// The keyword `senaose`, also written `senãose`, at `p`.
pub open spec fn elseif_at(t: Seq<SpecToken>, p: int) -> bool {
    at(t, p, kw("senaose"@)) || at(t, p, kw("senãose"@))
}

/// An identifier token, read as an identifier expression.
pub open spec fn identifier_at(t: Seq<SpecToken>, p: int) -> PRes<SpecExpr> {
    if 0 <= p < t.len() && t[p] is Identifier {
        PRes::Parsed(SpecExpr::Identifier(t[p]->Identifier_0), 1)
    } else {
        PRes::Back
    }
}

/// A type token, read as an identifier expression.
pub open spec fn ptype_at(t: Seq<SpecToken>, p: int) -> PRes<SpecExpr> {
    if 0 <= p < t.len() && t[p] is Type {
        PRes::Parsed(SpecExpr::Identifier(t[p]->Type_0), 1)
    } else {
        PRes::Back
    }
}

/// A literal token.
pub open spec fn literal_at(t: Seq<SpecToken>, p: int) -> PRes<SpecExpr> {
    if 0 <= p < t.len() {
        match t[p] {
            SpecToken::Boolean(b) => PRes::Parsed(SpecExpr::Literal(SpecValue::Boolean(b)), 1),
            SpecToken::Integer(n) => PRes::Parsed(SpecExpr::Literal(SpecValue::Integer(n)), 1),
            SpecToken::Float(f) => PRes::Parsed(SpecExpr::Literal(SpecValue::Float(f)), 1),
            SpecToken::Character(c) => PRes::Parsed(SpecExpr::Literal(SpecValue::Character(c)), 1),
            _ => PRes::Back,
        }
    } else {
        PRes::Back
    }
}

/// `e` is a binary expression with the operator `op`.
pub open spec fn is_binop(e: SpecExpr, op: BinOp) -> bool {
    e matches SpecExpr::Binary { op: o, .. } && o == op
}

/// The `senaose` branches folded into the `senao` branch, innermost last.
pub open spec fn desugar_elseifs(
    eifs: Seq<(SpecExpr, Seq<SpecStmt>)>,
    else_block: Seq<SpecStmt>,
) -> Seq<SpecStmt>
    decreases eifs.len(),
{
    if eifs.len() == 0 {
        else_block
    } else {
        seq![
            SpecStmt::ExprStmt(
                SpecExpr::Ternary {
                    cond: Box::new(eifs[0].0),
                    if_true: eifs[0].1,
                    if_false: desugar_elseifs(eifs.drop_first(), else_block),
                },
            ),
        ]
    }
}

/// One clause of a ranged `para`: control, start, end and optional step.
pub type ForClause = (SpecExpr, SpecExpr, SpecExpr, Option<SpecExpr>);

/// An expression that binds no weaker than `min`.
pub open spec fn expr_prec(t: Seq<SpecToken>, p: int, min: int) -> PRes<SpecExpr>
    decreases left(t, p), 8int,
{
    if p < 0 || p > t.len() {
        PRes::Back
    } else {
        match operand(t, p) {
            PRes::Parsed(e, n) => shift(expr_loop(t, p + n, e, min, None), n),
            PRes::Cut(c) => PRes::Cut(c),
            PRes::Back => {
                let p1 = ws0(t, p);
                if p1 < t.len() && unop_of_token(t[p1]) is Some {
                    let op = unop_of_token(t[p1])->0;
                    let p2 = ws0(t, p1 + 1);
                    match expr_prec(t, p2, prefix_power(op)) {
                        PRes::Parsed(e, n) => shift(
                            expr_loop(
                                t,
                                p2 + n,
                                SpecExpr::Unary { op, expr: Box::new(e) },
                                min,
                                None,
                            ),
                            (p2 - p + n) as nat,
                        ),
                        PRes::Cut(c) => PRes::Cut(c),
                        PRes::Back => PRes::Back,
                    }
                } else {
                    PRes::Back
                }
            },
        }
    }
}

/// The postfix and infix operators that follow `lhs`, read from `q`.
pub open spec fn expr_loop(
    t: Seq<SpecToken>,
    q: int,
    lhs: SpecExpr,
    min: int,
    prev_neither: Option<int>,
) -> PRes<SpecExpr>
    decreases left(t, q), 7int,
{
    if q < 0 || q >= t.len() {
        PRes::Parsed(lhs, 0)
    } else {
        let q1 = ws0(t, q);
        if q1 < t.len() && binop_of_token(t[q1]) == Some(BinOp::Index) {
            if 19 < min {
                PRes::Parsed(lhs, 0)
            } else {
                let q2 = ws0(t, q1 + 1);
                match expr_prec(t, q2, 0) {
                    PRes::Parsed(idx, n) => {
                        let q3 = ws0(t, q2 + n);
                        if at(t, q3, SpecToken::BlockDelimeter(']', true)) {
                            let q4 = ws0(t, q3 + 1);
                            shift(
                                expr_loop(
                                    t,
                                    q4,
                                    SpecExpr::Binary {
                                        lhs: Box::new(lhs),
                                        op: BinOp::Index,
                                        rhs: Box::new(idx),
                                    },
                                    min,
                                    prev_neither,
                                ),
                                (q4 - q) as nat,
                            )
                        } else {
                            PRes::Cut(q3 as nat)
                        }
                    },
                    PRes::Cut(c) => PRes::Cut(c),
                    PRes::Back => PRes::Back,
                }
            }
        } else if binop_of_token(t[q]) is Some && infix_info(binop_of_token(t[q])->0) is Some {
            let op = binop_of_token(t[q])->0;
            let (lp, rp, neither) = infix_info(op)->0;
            if lp < min || prev_neither == Some(lp) {
                PRes::Parsed(lhs, 0)
            } else {
                match expr_prec(t, q + 1, rp) {
                    PRes::Parsed(rhs, n) => shift(
                        expr_loop(
                            t,
                            q + 1 + n,
                            SpecExpr::Binary { lhs: Box::new(lhs), op, rhs: Box::new(rhs) },
                            min,
                            if neither {
                                Some(lp)
                            } else {
                                None
                            },
                        ),
                        1 + n,
                    ),
                    PRes::Cut(c) => PRes::Cut(c),
                    PRes::Back => PRes::Back,
                }
            }
        } else {
            PRes::Parsed(lhs, 0)
        }
    }
}

/// An operand: after newlines, a parenthesised expression or tuple, an
/// identifier, a literal, a string, `se`, `enquanto`, `para` or a list.
pub open spec fn operand(t: Seq<SpecToken>, p: int) -> PRes<SpecExpr>
    decreases left(t, p), 6int,
{
    let p1 = ws0(t, p);
    if p < 0 || p1 >= t.len() {
        PRes::Back
    } else if t[p1] == SpecToken::BlockDelimeter('(', false) {
        let k = (p1 - p) as nat;
        match tuple(t, p1) {
            PRes::Back => match expr_prec(t, p1 + 1, 0) {
                PRes::Parsed(e, n) => if at(t, p1 + 1 + n, SpecToken::BlockDelimeter(')', true)) {
                    PRes::Parsed(e, k + n + 2)
                } else {
                    PRes::Cut((p1 + 1 + n) as nat)
                },
                PRes::Cut(c) => PRes::Cut(c),
                PRes::Back => PRes::Back,
            },
            r => shift(r, k),
        }
    } else {
        shift(
            alt(
                identifier_at(t, p1),
                alt(
                    literal_at(t, p1),
                    alt(
                        string(t, p1),
                        alt(
                            if_expr(t, p1),
                            alt(while_expr(t, p1), alt(for_expr(t, p1), list(t, p1))),
                        ),
                    ),
                ),
            ),
            (p1 - p) as nat,
        )
    }
}

/// A string: its parts between `StringStart` and `StringEnd`.
pub open spec fn string(t: Seq<SpecToken>, p: int) -> PRes<SpecExpr>
    decreases left(t, p), 3int,
{
    if p >= 0 && at(t, p, SpecToken::StringStart) {
        match string_parts(t, p + 1) {
            PRes::Parsed(ps, n) => if at(t, p + 1 + n, SpecToken::StringEnd) {
                PRes::Parsed(SpecExpr::String(ps), n + 2)
            } else {
                PRes::Back
            },
            PRes::Cut(c) => PRes::Cut(c),
            PRes::Back => PRes::Back,
        }
    } else {
        PRes::Back
    }
}

/// The parts of a string from `q`, as long as one can be read.
pub open spec fn string_parts(t: Seq<SpecToken>, q: int) -> PRes<Seq<SpecStringPart>>
    decreases left(t, q), 2int,
{
    if q < 0 || q > t.len() {
        PRes::Back
    } else {
        match string_part(t, q) {
            PRes::Parsed(x, n) => if n == 0 {
                PRes::Cut(q as nat)
            } else {
                match string_parts(t, q + n) {
                    PRes::Parsed(xs, m) => PRes::Parsed(seq![x] + xs, n + m),
                    r => r,
                }
            },
            PRes::Back => PRes::Parsed(Seq::empty(), 0),
            PRes::Cut(c) => PRes::Cut(c),
        }
    }
}

/// A fragment of text, or an expression between `ExprStart` and `ExprEnd`.
pub open spec fn string_part(t: Seq<SpecToken>, q: int) -> PRes<SpecStringPart>
    decreases left(t, q), 1int,
{
    if 0 <= q < t.len() && t[q] is StringFragment {
        PRes::Parsed(SpecStringPart::Fragment(t[q]->StringFragment_0), 1)
    } else if q >= 0 && at(t, q, SpecToken::ExprStart) {
        match expr_prec(t, q + 1, 0) {
            PRes::Parsed(e, n) => if at(t, q + 1 + n, SpecToken::ExprEnd) {
                PRes::Parsed(SpecStringPart::Expr(e), n + 2)
            } else {
                PRes::Back
            },
            PRes::Cut(c) => PRes::Cut(c),
            PRes::Back => PRes::Back,
        }
    } else {
        PRes::Back
    }
}

/// `se c entao .. [senaose c entao ..]* [senao ..] fim`; `senão` and
/// `senãose` may stand for `senao` and `senaose`.
pub open spec fn if_expr(t: Seq<SpecToken>, p: int) -> PRes<SpecExpr>
    decreases left(t, p), 3int,
{
    if p >= 0 && at(t, p, kw("se"@)) {
        match expr_prec(t, p + 1, 0) {
            PRes::Parsed(cond, n1) => {
                let q1 = p + 1 + n1;
                if at(t, q1, kw("entao"@)) {
                    match parse_stmts(t, q1 + 1) {
                        PRes::Parsed(then_block, n2) => {
                            let q2 = q1 + 1 + n2;
                            match elseifs(t, q2) {
                                PRes::Parsed(eifs, n3) => {
                                    let q3 = q2 + n3;
                                    if else_at(t, q3) {
                                        match parse_stmts(t, q3 + 1) {
                                            PRes::Parsed(eb, n4) => {
                                                let q4 = q3 + 1 + n4;
                                                if at(t, q4, kw("fim"@)) {
                                                    PRes::Parsed(
                                                        SpecExpr::Ternary {
                                                            cond: Box::new(cond),
                                                            if_true: then_block,
                                                            if_false: desugar_elseifs(eifs, eb),
                                                        },
                                                        (q4 + 1 - p) as nat,
                                                    )
                                                } else {
                                                    PRes::Back
                                                }
                                            },
                                            PRes::Cut(c) => PRes::Cut(c),
                                            PRes::Back => PRes::Back,
                                        }
                                    } else if at(t, q3, kw("fim"@)) {
                                        PRes::Parsed(
                                            SpecExpr::Ternary {
                                                cond: Box::new(cond),
                                                if_true: then_block,
                                                if_false: desugar_elseifs(eifs, Seq::empty()),
                                            },
                                            (q3 + 1 - p) as nat,
                                        )
                                    } else {
                                        PRes::Back
                                    }
                                },
                                PRes::Cut(c) => PRes::Cut(c),
                                PRes::Back => PRes::Back,
                            }
                        },
                        PRes::Cut(c) => PRes::Cut(c),
                        PRes::Back => PRes::Back,
                    }
                } else {
                    PRes::Back
                }
            },
            PRes::Cut(c) => PRes::Cut(c),
            PRes::Back => PRes::Back,
        }
    } else {
        PRes::Back
    }
}

/// `senaose c entao ..` branches, as long as one can be read.
pub open spec fn elseifs(t: Seq<SpecToken>, q: int) -> PRes<Seq<(SpecExpr, Seq<SpecStmt>)>>
    decreases left(t, q), 2int,
{
    if q >= 0 && elseif_at(t, q) {
        match expr_prec(t, q + 1, 0) {
            PRes::Parsed(c, n1) => {
                let r1 = q + 1 + n1;
                if at(t, r1, kw("entao"@)) {
                    match parse_stmts(t, r1 + 1) {
                        PRes::Parsed(b, n2) => {
                            let r2 = r1 + 1 + n2;
                            match elseifs(t, r2) {
                                PRes::Parsed(rest, m) => PRes::Parsed(seq![(c, b)] + rest, (r2 - q + m) as nat),
                                r => r,
                            }
                        },
                        PRes::Cut(cc) => PRes::Cut(cc),
                        PRes::Back => PRes::Parsed(Seq::empty(), 0),
                    }
                } else {
                    PRes::Parsed(Seq::empty(), 0)
                }
            },
            PRes::Cut(cc) => PRes::Cut(cc),
            PRes::Back => PRes::Parsed(Seq::empty(), 0),
        }
    } else {
        PRes::Parsed(Seq::empty(), 0)
    }
}

/// `enquanto c faça .. fim`.
pub open spec fn while_expr(t: Seq<SpecToken>, p: int) -> PRes<SpecExpr>
    decreases left(t, p), 3int,
{
    if p >= 0 && at(t, p, kw("enquanto"@)) {
        match expr_prec(t, p + 1, 0) {
            PRes::Parsed(cond, n1) => {
                let q1 = p + 1 + n1;
                if at(t, q1, kw("faça"@)) {
                    match parse_stmts(t, q1 + 1) {
                        PRes::Parsed(body, n2) => {
                            let q2 = q1 + 1 + n2;
                            if at(t, q2, kw("fim"@)) {
                                PRes::Parsed(
                                    SpecExpr::While { cond: Box::new(cond), stmts: body },
                                    (q2 + 1 - p) as nat,
                                )
                            } else {
                                PRes::Back
                            }
                        },
                        PRes::Cut(c) => PRes::Cut(c),
                        PRes::Back => PRes::Back,
                    }
                } else {
                    PRes::Back
                }
            },
            PRes::Cut(c) => PRes::Cut(c),
            PRes::Back => PRes::Back,
        }
    } else {
        PRes::Back
    }
}

/// A ranged `para`, or else one over a collection.
pub open spec fn for_expr(t: Seq<SpecToken>, p: int) -> PRes<SpecExpr>
    decreases left(t, p), 5int,
{
    alt(range_for(t, p), iter_for(t, p))
}

/// `para x de a até b [passo s], .. faça .. fim`. The value is the first clause
/// with the body: later clauses are read and dropped.
pub open spec fn range_for(t: Seq<SpecToken>, p: int) -> PRes<SpecExpr>
    decreases left(t, p), 4int,
{
    if p >= 0 && at(t, p, kw("para"@)) {
        match for_clause(t, p + 1) {
            PRes::Parsed(first, n1) => match for_clauses(t, p + 1 + n1) {
                PRes::Parsed(_, n2) => {
                    let q2 = p + 1 + n1 + n2;
                    if at(t, q2, kw("faça"@)) {
                        match parse_stmts(t, q2 + 1) {
                            PRes::Parsed(body, n3) => {
                                let q3 = q2 + 1 + n3;
                                if at(t, q3, kw("fim"@)) {
                                    PRes::Parsed(
                                        SpecExpr::RangeFor {
                                            control: Box::new(first.0),
                                            start: Box::new(first.1),
                                            end: Box::new(first.2),
                                            step: match first.3 {
                                                Some(s) => Some(Box::new(s)),
                                                None => None,
                                            },
                                            stmts: body,
                                        },
                                        (q3 + 1 - p) as nat,
                                    )
                                } else {
                                    PRes::Back
                                }
                            },
                            PRes::Cut(c) => PRes::Cut(c),
                            PRes::Back => PRes::Back,
                        }
                    } else {
                        PRes::Back
                    }
                },
                PRes::Cut(c) => PRes::Cut(c),
                PRes::Back => PRes::Back,
            },
            PRes::Cut(c) => PRes::Cut(c),
            PRes::Back => PRes::Back,
        }
    } else {
        PRes::Back
    }
}

/// `x de a até b [passo s]`.
pub open spec fn for_clause(t: Seq<SpecToken>, q: int) -> PRes<ForClause>
    decreases left(t, q), 1int,
{
    match identifier_at(t, q) {
        PRes::Parsed(control, _) => if at(t, q + 1, kw("de"@)) {
            match expr_prec(t, q + 2, 0) {
                PRes::Parsed(start, n1) => {
                    let q1 = q + 2 + n1;
                    if at(t, q1, kw("até"@)) {
                        match expr_prec(t, q1 + 1, 0) {
                            PRes::Parsed(end, n2) => {
                                let q2 = q1 + 1 + n2;
                                if at(t, q2, kw("passo"@)) {
                                    match expr_prec(t, q2 + 1, 0) {
                                        PRes::Parsed(step, n3) => PRes::Parsed(
                                            (control, start, end, Some(step)),
                                            (q2 + 1 + n3 - q) as nat,
                                        ),
                                        PRes::Cut(c) => PRes::Cut(c),
                                        PRes::Back => PRes::Parsed(
                                            (control, start, end, None),
                                            (q2 - q) as nat,
                                        ),
                                    }
                                } else {
                                    PRes::Parsed((control, start, end, None), (q2 - q) as nat)
                                }
                            },
                            PRes::Cut(c) => PRes::Cut(c),
                            PRes::Back => PRes::Back,
                        }
                    } else {
                        PRes::Back
                    }
                },
                PRes::Cut(c) => PRes::Cut(c),
                PRes::Back => PRes::Back,
            }
        } else {
            PRes::Back
        },
        _ => PRes::Back,
    }
}

/// `, clause` repeated, as long as one can be read.
pub open spec fn for_clauses(t: Seq<SpecToken>, r: int) -> PRes<Seq<ForClause>>
    decreases left(t, r), 2int,
{
    if r >= 0 && at(t, r, SpecToken::Comma) {
        match for_clause(t, r + 1) {
            PRes::Parsed(cl, n) => match for_clauses(t, r + 1 + n) {
                PRes::Parsed(rest, m) => PRes::Parsed(seq![cl] + rest, 1 + n + m),
                x => x,
            },
            PRes::Cut(c) => PRes::Cut(c),
            PRes::Back => PRes::Parsed(Seq::empty(), 0),
        }
    } else {
        PRes::Parsed(Seq::empty(), 0)
    }
}

/// `para x em e faça .. fim`.
pub open spec fn iter_for(t: Seq<SpecToken>, p: int) -> PRes<SpecExpr>
    decreases left(t, p), 4int,
{
    if p >= 0 && at(t, p, kw("para"@)) {
        match identifier_at(t, p + 1) {
            PRes::Parsed(control, _) => if at(t, p + 2, kw("em"@)) {
                match expr_prec(t, p + 3, 0) {
                    PRes::Parsed(iterator, n1) => {
                        let q1 = p + 3 + n1;
                        if at(t, q1, kw("faça"@)) {
                            match parse_stmts(t, q1 + 1) {
                                PRes::Parsed(body, n2) => {
                                    let q2 = q1 + 1 + n2;
                                    if at(t, q2, kw("fim"@)) {
                                        PRes::Parsed(
                                            SpecExpr::IterFor {
                                                control: Box::new(control),
                                                iterator: Box::new(iterator),
                                                stmts: body,
                                            },
                                            (q2 + 1 - p) as nat,
                                        )
                                    } else {
                                        PRes::Back
                                    }
                                },
                                PRes::Cut(c) => PRes::Cut(c),
                                PRes::Back => PRes::Back,
                            }
                        } else {
                            PRes::Back
                        }
                    },
                    PRes::Cut(c) => PRes::Cut(c),
                    PRes::Back => PRes::Back,
                }
            } else {
                PRes::Back
            },
            _ => PRes::Back,
        }
    } else {
        PRes::Back
    }
}

/// Expressions after a first one, each after a comma (newlines allowed around
/// it), as long as one can be read.
pub open spec fn comma_exprs(t: Seq<SpecToken>, r: int) -> PRes<Seq<SpecExpr>>
    decreases left(t, r), 2int,
{
    let r1 = ws0(t, r);
    if r >= 0 && at(t, r1, SpecToken::Comma) {
        let r2 = ws0(t, r1 + 1);
        match expr_prec(t, r2, 0) {
            PRes::Parsed(e, n) => match comma_exprs(t, r2 + n) {
                PRes::Parsed(rest, m) => PRes::Parsed(seq![e] + rest, (r2 + n - r + m) as nat),
                x => x,
            },
            PRes::Cut(c) => PRes::Cut(c),
            PRes::Back => PRes::Parsed(Seq::empty(), 0),
        }
    } else {
        PRes::Parsed(Seq::empty(), 0)
    }
}

/// `( e , [e, ..] )`: at least one comma.
pub open spec fn tuple(t: Seq<SpecToken>, p: int) -> PRes<SpecExpr>
    decreases left(t, p), 3int,
{
    if p >= 0 && at(t, p, SpecToken::BlockDelimeter('(', false)) {
        match expr_prec(t, p + 1, 0) {
            PRes::Parsed(first, n1) => {
                let q1 = ws0(t, p + 1 + n1);
                if at(t, q1, SpecToken::Comma) {
                    let q2 = ws0(t, q1 + 1);
                    let rest: PRes<Seq<SpecExpr>> = match expr_prec(t, q2, 0) {
                        PRes::Parsed(e, n) => match comma_exprs(t, q2 + n) {
                            PRes::Parsed(es, m) => PRes::Parsed(seq![e] + es, n + m),
                            x => x,
                        },
                        PRes::Cut(c) => PRes::Cut(c),
                        PRes::Back => PRes::Parsed(Seq::empty(), 0),
                    };
                    match rest {
                        PRes::Parsed(items, m) => {
                            let q3 = ws0(t, q2 + m);
                            if at(t, q3, SpecToken::BlockDelimeter(')', true)) {
                                PRes::Parsed(SpecExpr::Tuple(seq![first] + items), (q3 + 1 - p) as nat)
                            } else {
                                PRes::Cut(q3 as nat)
                            }
                        },
                        PRes::Cut(c) => PRes::Cut(c),
                        PRes::Back => PRes::Back,
                    }
                } else {
                    PRes::Back
                }
            },
            PRes::Cut(c) => PRes::Cut(c),
            PRes::Back => PRes::Back,
        }
    } else {
        PRes::Back
    }
}

/// `[ e, .. ]`.
pub open spec fn list(t: Seq<SpecToken>, p: int) -> PRes<SpecExpr>
    decreases left(t, p), 3int,
{
    if p >= 0 && at(t, p, SpecToken::BlockDelimeter('[', false)) {
        let items: PRes<Seq<SpecExpr>> = match expr_prec(t, p + 1, 0) {
            PRes::Parsed(e, n) => match comma_exprs(t, p + 1 + n) {
                PRes::Parsed(es, m) => PRes::Parsed(seq![e] + es, n + m),
                x => x,
            },
            PRes::Cut(c) => PRes::Cut(c),
            PRes::Back => PRes::Parsed(Seq::empty(), 0),
        };
        match items {
            PRes::Parsed(es, m) => {
                let q = ws0(t, p + 1 + m);
                if at(t, q, SpecToken::BlockDelimeter(']', true)) {
                    PRes::Parsed(SpecExpr::List(es), (q + 1 - p) as nat)
                } else {
                    PRes::Cut(q as nat)
                }
            },
            PRes::Cut(c) => PRes::Cut(c),
            PRes::Back => PRes::Back,
        }
    } else {
        PRes::Back
    }
}

/// A statement: `var` assignment, constant assignment, function declaration or
/// expression, tried in that order.
pub open spec fn stmt(t: Seq<SpecToken>, p: int) -> PRes<SpecStmt>
    decreases left(t, p), 11int,
{
    let as_var: PRes<SpecStmt> = if p >= 0 && at(t, p, kw("var"@)) {
        match expr_prec(t, p + 1, 0) {
            PRes::Parsed(e, n) => if is_binop(e, BinOp::VarAssignment) {
                PRes::Parsed(SpecStmt::VarAssignment(e), n + 1)
            } else {
                PRes::Back
            },
            PRes::Cut(c) => PRes::Cut(c),
            PRes::Back => PRes::Back,
        }
    } else {
        PRes::Back
    };
    alt(
        as_var,
        match expr_prec(t, p, 0) {
            PRes::Parsed(e, n) => if is_binop(e, BinOp::ConstAssignment) {
                PRes::Parsed(SpecStmt::ConstAssignment(e), n)
            } else {
                alt(function(t, p), PRes::Parsed(SpecStmt::ExprStmt(e), n))
            },
            PRes::Cut(c) => PRes::Cut(c),
            PRes::Back => function(t, p),
        },
    )
}

/// A parameter type or return type: an identifier or a type name.
pub open spec fn type_name_at(t: Seq<SpecToken>, p: int) -> PRes<SpecExpr> {
    alt(identifier_at(t, p), ptype_at(t, p))
}

/// `name: type` parameters, as long as one can be read.
pub open spec fn params(t: Seq<SpecToken>, q: int) -> Seq<(SpecExpr, SpecExpr)>
    decreases t.len() - q,
{
    if q >= 0 && identifier_at(t, q) is Parsed && at(t, q + 1, SpecToken::Colon) && type_name_at(
        t,
        q + 2,
    ) is Parsed {
        seq![(identifier_at(t, q)->Parsed_0, type_name_at(t, q + 2)->Parsed_0)] + params(t, q + 3)
    } else {
        Seq::empty()
    }
}

/// `name(params) [: type] = e` or `name(params) [: type] .. fim`. The name is
/// read and dropped.
pub open spec fn function(t: Seq<SpecToken>, p: int) -> PRes<SpecStmt>
    decreases left(t, p), 10int,
{
    if p >= 0 && identifier_at(t, p) is Parsed && at(t, p + 1, SpecToken::BlockDelimeter('(', false)) {
        let ps = params(t, p + 2);
        let q = p + 2 + 3 * ps.len();
        if !at(t, q, SpecToken::BlockDelimeter(')', true)) {
            PRes::Cut(q as nat)
        } else {
            let q1 = q + 1;
            let (ret, q2): (Option<SpecExpr>, int) = if at(t, q1, SpecToken::Colon)
                && type_name_at(t, q1 + 1) is Parsed {
                (Some(type_name_at(t, q1 + 1)->Parsed_0), q1 + 2)
            } else {
                (None, q1)
            };
            let inline: PRes<Seq<SpecStmt>> = if at(t, q2, SpecToken::Operation("="@)) {
                match expr_prec(t, q2 + 1, 0) {
                    PRes::Parsed(e, n) => PRes::Parsed(seq![SpecStmt::ExprStmt(e)], n + 1),
                    PRes::Cut(c) => PRes::Cut(c),
                    PRes::Back => PRes::Back,
                }
            } else {
                PRes::Back
            };
            let body = alt(inline, function_body(t, q2));
            match body {
                PRes::Parsed(b, n) => PRes::Parsed(
                    SpecStmt::FunctionDeclaration { variables: ps, return_type: ret, body: b },
                    (q2 + n - p) as nat,
                ),
                PRes::Cut(c) => PRes::Cut(c),
                PRes::Back => PRes::Back,
            }
        }
    } else {
        PRes::Back
    }
}

/// Statements ended by `fim` (newlines allowed before both).
pub open spec fn function_body(t: Seq<SpecToken>, q: int) -> PRes<Seq<SpecStmt>>
    decreases left(t, q), 13int,
{
    let q1 = ws0(t, q);
    match parse_stmts(t, q1) {
        PRes::Parsed(b, n) => {
            let q2 = ws0(t, q1 + n);
            if at(t, q2, kw("fim"@)) {
                PRes::Parsed(b, (q2 + 1 - q) as nat)
            } else {
                PRes::Cut(q2 as nat)
            }
        },
        PRes::Cut(c) => PRes::Cut(c),
        PRes::Back => PRes::Back,
    }
}

/// Statements, each with newlines around it, as long as one can be read.
pub open spec fn parse_stmts(t: Seq<SpecToken>, q: int) -> PRes<Seq<SpecStmt>>
    decreases left(t, q), 12int,
{
    if q < 0 || q > t.len() {
        PRes::Back
    } else {
        let q1 = ws0(t, q);
        match stmt(t, q1) {
            PRes::Parsed(s, n) => {
                let q2 = ws0(t, q1 + n);
                if q2 == q {
                    PRes::Cut(q as nat)
                } else {
                    match parse_stmts(t, q2) {
                        PRes::Parsed(ss, m) => PRes::Parsed(seq![s] + ss, (q2 - q + m) as nat),
                        r => r,
                    }
                }
            },
            PRes::Back => PRes::Parsed(Seq::empty(), 0),
            PRes::Cut(c) => PRes::Cut(c),
        }
    }
}

/// Reading statements stops only where no statement can be read: after the
/// statements that `parse_stmts` gives, and the newlines after them, `stmt`
/// backtracks.
#[verifier::rlimit(50)]
pub proof fn lemma_parse_stmts_maximal(t: Seq<SpecToken>, q: int)
    requires
        parse_stmts(t, q) is Parsed,
    ensures
        stmt(t, ws0(t, q + parse_stmts(t, q)->Parsed_1)) is Back,
    decreases left(t, q),
{
    let q1 = ws0(t, q);
    match stmt(t, q1) {
        PRes::Parsed(_, n) => {
            let q2 = ws0(t, q1 + n);
            lemma_parse_stmts_maximal(t, q2);
        },
        _ => {},
    }
}

} // verus!
