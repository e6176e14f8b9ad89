//! Laws of the grammar: how infix and prefix operators group, what
//! assignments, conditionals with `senaose`, loops, list and tuple literals,
//! function declarations and lines of statements are read as.
//!
//! Each law is stated for every choice of its simple operands (identifiers and
//! integers), over `parse_stmts`, the grammar that `parse` follows.
use vstd::prelude::*;

use super::ops::{binop_of_text, unary_of_text};
use super::spec::{
    comma_exprs, desugar_elseifs, else_at, elseif_at, elseifs, expr_loop, expr_prec, for_clause,
    for_clauses, for_expr, function, params, if_expr, iter_for, kw, list, nl_run, operand, parse_stmts, range_for,
    prefix_power, stmt, string, infix_info, while_expr, ws0, PRes,
};
use super::types::{BinOp, SpecExpr, SpecStmt, SpecValue, UnaryOp};
use crate::lexer::types::SpecToken;

verus! {

/// An identifier or an integer: a token that is an expression by itself.
pub open spec fn is_atom(x: SpecToken) -> bool {
    x is Identifier || x is Integer
}

/// The expression that an identifier or integer token is read as.
pub open spec fn atom_expr(x: SpecToken) -> SpecExpr {
    match x {
        SpecToken::Integer(i) => SpecExpr::Literal(SpecValue::Integer(i)),
        SpecToken::Identifier(n) => SpecExpr::Identifier(n),
        _ => SpecExpr::Identifier(x->Identifier_0),
    }
}

/// A keyword that starts no statement (any but `var`, `se`, `enquanto` and
/// `para`), such as the `entao`, `senaose`, `de`, `até`, `faça` or `fim` that
/// close an expression.
pub open spec fn closing_kw(x: SpecToken) -> bool {
    &&& x is Keyword
    &&& x->Keyword_0 != "var"@
    &&& x->Keyword_0 != "se"@
    &&& x->Keyword_0 != "enquanto"@
    &&& x->Keyword_0 != "para"@
}

/// Nothing at `q` continues an expression read before it: the tokens end, or
/// the token there is no operator, no newline and no opening parenthesis.
pub open spec fn ends_expr(t: Seq<SpecToken>, q: int) -> bool {
    q >= t.len() || (!(t[q] is Operation) && t[q] != SpecToken::NewLine && t[q]
        != SpecToken::BlockDelimeter('(', false))
}

proof fn lemma_ws0_stays(t: Seq<SpecToken>, p: int)
    requires
        0 <= p,
        p >= t.len() || t[p] != SpecToken::NewLine,
    ensures
        ws0(t, p) == p,
{
    assert(nl_run(t, p) == 0);
}

proof fn lemma_atom_operand(t: Seq<SpecToken>, p: int)
    requires
        0 <= p < t.len(),
        is_atom(t[p]),
    ensures
        operand(t, p) == PRes::Parsed(atom_expr(t[p]), 1),
{
    lemma_ws0_stays(t, p);
}

proof fn lemma_loop_ends(t: Seq<SpecToken>, q: int, lhs: SpecExpr, min: int, pn: Option<int>)
    requires
        0 <= q,
        ends_expr(t, q),
    ensures
        expr_loop(t, q, lhs, min, pn) == PRes::Parsed(lhs, 0),
{
    if q < t.len() {
        lemma_ws0_stays(t, q);
    }
}

proof fn lemma_atom_expr(t: Seq<SpecToken>, p: int, min: int)
    requires
        0 <= p < t.len(),
        is_atom(t[p]),
        ends_expr(t, p + 1),
    ensures
        expr_prec(t, p, min) == PRes::Parsed(atom_expr(t[p]), 1),
{
    lemma_atom_operand(t, p);
    lemma_loop_ends(t, p + 1, atom_expr(t[p]), min, None);
}

#[verifier::rlimit(100)]
proof fn lemma_kw_operand_back(t: Seq<SpecToken>, p: int)
    requires
        0 <= p < t.len(),
        closing_kw(t[p]),
    ensures
        operand(t, p) is Back,
{
    lemma_ws0_stays(t, p);
    assert(!(t[p] == kw("se"@)));
    assert(!(t[p] == kw("enquanto"@)));
    assert(!(t[p] == kw("para"@)));
    assert(if_expr(t, p) is Back);
    assert(while_expr(t, p) is Back);
    assert(range_for(t, p) is Back);
    assert(iter_for(t, p) is Back);
    assert(string(t, p) is Back);
    assert(list(t, p) is Back);
}

#[verifier::rlimit(100)]
proof fn lemma_stmt_back(t: Seq<SpecToken>, p: int)
    requires
        0 <= p <= t.len(),
        p == t.len() || closing_kw(t[p]),
    ensures
        stmt(t, p) is Back,
{
    lemma_ws0_stays(t, p);
    if p < t.len() {
        lemma_kw_operand_back(t, p);
        assert(!(t[p] == kw("var"@)));
    }
    assert(expr_prec(t, p, 0) is Back);
    assert(function(t, p) is Back);
}

#[verifier::rlimit(100)]
proof fn lemma_stmts_none(t: Seq<SpecToken>, p: int)
    requires
        0 <= p <= t.len(),
        p == t.len() || closing_kw(t[p]),
    ensures
        parse_stmts(t, p) == PRes::<Seq<SpecStmt>>::Parsed(Seq::empty(), 0),
{
    lemma_ws0_stays(t, p);
    lemma_stmt_back(t, p);
}

#[verifier::rlimit(100)]
proof fn lemma_stmt_atom(t: Seq<SpecToken>, p: int)
    requires
        0 <= p < t.len(),
        is_atom(t[p]),
        ends_expr(t, p + 1),
    ensures
        stmt(t, p) == PRes::Parsed(SpecStmt::ExprStmt(atom_expr(t[p])), 1),
{
    lemma_atom_expr(t, p, 0);
    assert(function(t, p) is Back);
}

/// A statement that reads to the end is the only one read.
#[verifier::rlimit(100)]
proof fn lemma_stmts_one(t: Seq<SpecToken>, p: int, s: SpecStmt)
    requires
        0 <= p < t.len(),
        t[p] != SpecToken::NewLine,
        stmt(t, p) == PRes::Parsed(s, (t.len() - p) as nat),
    ensures
        parse_stmts(t, p) == PRes::Parsed(seq![s], (t.len() - p) as nat),
{
    lemma_ws0_stays(t, p);
    lemma_ws0_stays(t, t.len() as int);
    lemma_stmts_none(t, t.len() as int);
    assert(seq![s] + Seq::<SpecStmt>::empty() =~= seq![s]);
}

/// A block of one identifier or integer before a closing keyword.
#[verifier::rlimit(100)]
proof fn lemma_block_atom(t: Seq<SpecToken>, q: int)
    requires
        0 <= q,
        q + 1 < t.len(),
        is_atom(t[q]),
        closing_kw(t[q + 1]),
    ensures
        parse_stmts(t, q) == PRes::Parsed(seq![SpecStmt::ExprStmt(atom_expr(t[q]))], 1),
{
    lemma_ws0_stays(t, q);
    lemma_ws0_stays(t, q + 1);
    lemma_stmt_atom(t, q);
    lemma_stmts_none(t, q + 1);
    assert(seq![SpecStmt::ExprStmt(atom_expr(t[q]))] + Seq::<SpecStmt>::empty() =~= seq![
        SpecStmt::ExprStmt(atom_expr(t[q])),
    ]);
}

/// `+` and `-` bind weaker than `*`, `/`, `div` and `mod`: for any operands
/// `a`, `b`, `c`, the text `a + b / c` (or `a - b * c`, ...) is read as `a`
/// added to (or less) the product or quotient of `b` and `c`, whichever
/// operator stands second.
#[verifier::rlimit(100)]
pub proof fn lemma_multiplicative_binds_tighter(t: Seq<SpecToken>, o1: Seq<char>, o2: Seq<char>)
    requires
        t.len() == 5,
        is_atom(t[0]),
        is_atom(t[2]),
        is_atom(t[4]),
        t[1] == SpecToken::Operation(o1),
        t[3] == SpecToken::Operation(o2),
        binop_of_text(o1) == Some(BinOp::Plus) || binop_of_text(o1) == Some(BinOp::Minus),
        binop_of_text(o2) == Some(BinOp::Mult) || binop_of_text(o2) == Some(BinOp::Div)
            || binop_of_text(o2) == Some(BinOp::IntDiv) || binop_of_text(o2) == Some(BinOp::Mod),
    ensures
        parse_stmts(t, 0) == PRes::Parsed(
            seq![
                SpecStmt::ExprStmt(
                    SpecExpr::Binary {
                        lhs: Box::new(atom_expr(t[0])),
                        op: binop_of_text(o1)->0,
                        rhs: Box::new(
                            SpecExpr::Binary {
                                lhs: Box::new(atom_expr(t[2])),
                                op: binop_of_text(o2)->0,
                                rhs: Box::new(atom_expr(t[4])),
                            },
                        ),
                    },
                ),
            ],
            5,
        ),
{
    let a = atom_expr(t[0]);
    let b = atom_expr(t[2]);
    let c = atom_expr(t[4]);
    let op1 = binop_of_text(o1)->0;
    let op2 = binop_of_text(o2)->0;
    let bc = SpecExpr::Binary { lhs: Box::new(b), op: op2, rhs: Box::new(c) };
    let abc = SpecExpr::Binary { lhs: Box::new(a), op: op1, rhs: Box::new(bc) };
    lemma_ws0_stays(t, 1);
    lemma_ws0_stays(t, 3);
    lemma_atom_expr(t, 4, 14);
    lemma_loop_ends(t, 5, bc, 12, None);
    lemma_atom_operand(t, 2);
    assert(expr_loop(t, 3, b, 12, None) == PRes::Parsed(bc, 2));
    assert(expr_prec(t, 2, 12) == PRes::Parsed(bc, 3));
    lemma_loop_ends(t, 5, abc, 0, None);
    lemma_atom_operand(t, 0);
    assert(expr_loop(t, 1, a, 0, None) == PRes::Parsed(abc, 4));
    assert(expr_prec(t, 0, 0) == PRes::Parsed(abc, 5));
    assert(function(t, 0) is Back);
    assert(stmt(t, 0) == PRes::Parsed(SpecStmt::ExprStmt(abc), 5));
    lemma_stmts_one(t, 0, SpecStmt::ExprStmt(abc));
}

/// The keywords that close the parts of a conditional or a loop start no
/// statement, and differ from the keywords that could stand in their place.
proof fn lemma_closing_keywords()
    ensures
        closing_kw(kw("entao"@)),
        closing_kw(kw("senaose"@)),
        closing_kw(kw("senãose"@)),
        closing_kw(kw("senao"@)),
        closing_kw(kw("senão"@)),
        closing_kw(kw("fim"@)),
        closing_kw(kw("até"@)),
        closing_kw(kw("faça"@)),
        closing_kw(kw("passo"@)),
        "fim"@ != "senaose"@,
        "fim"@ != "senãose"@,
        "fim"@ != "senao"@,
        "fim"@ != "senão"@,
        "faça"@ != "passo"@,
        "senao"@ != "senaose"@,
        "senao"@ != "senãose"@,
        "senão"@ != "senaose"@,
        "senão"@ != "senãose"@,
{
    reveal_strlit("var");
    reveal_strlit("se");
    reveal_strlit("enquanto");
    reveal_strlit("para");
    reveal_strlit("entao");
    reveal_strlit("senaose");
    reveal_strlit("senãose");
    reveal_strlit("senao");
    reveal_strlit("senão");
    reveal_strlit("fim");
    reveal_strlit("até");
    reveal_strlit("faça");
    reveal_strlit("passo");
    assert("var"@.len() == 3 && "se"@.len() == 2 && "enquanto"@.len() == 8 && "para"@.len() == 4);
    assert("entao"@.len() == 5 && "senaose"@.len() == 7 && "senãose"@.len() == 7);
    assert("senao"@.len() == 5 && "senão"@.len() == 5 && "passo"@.len() == 5);
    assert("var"@[0] == 'v');
    assert("fim"@[0] == 'f');
    assert("até"@[0] == 'a');
    assert("faça"@[0] == 'f');
    assert("para"@[0] == 'p');
    assert("passo"@[0] == 'p');
}

/// A `senaose` branch is kept when no `senao` follows: for any operands,
/// `se a entao b senaose c entao d fim` is read as the conditional on `a` with
/// `b` when true and, when false, the conditional on `c` with `d` when true
/// and nothing when false.
#[verifier::rlimit(100)]
pub proof fn lemma_elseif_without_else_kept(t: Seq<SpecToken>)
    requires
        t.len() == 9,
        t[0] == kw("se"@),
        is_atom(t[1]),
        t[2] == kw("entao"@),
        is_atom(t[3]),
        t[4] == kw("senaose"@) || t[4] == kw("senãose"@),
        is_atom(t[5]),
        t[6] == kw("entao"@),
        is_atom(t[7]),
        t[8] == kw("fim"@),
    ensures
        parse_stmts(t, 0) == PRes::Parsed(
            seq![
                SpecStmt::ExprStmt(
                    SpecExpr::Ternary {
                        cond: Box::new(atom_expr(t[1])),
                        if_true: seq![SpecStmt::ExprStmt(atom_expr(t[3]))],
                        if_false: seq![
                            SpecStmt::ExprStmt(
                                SpecExpr::Ternary {
                                    cond: Box::new(atom_expr(t[5])),
                                    if_true: seq![SpecStmt::ExprStmt(atom_expr(t[7]))],
                                    if_false: Seq::empty(),
                                },
                            ),
                        ],
                    },
                ),
            ],
            9,
        ),
{
    lemma_closing_keywords();
    let a = atom_expr(t[1]);
    let b = seq![SpecStmt::ExprStmt(atom_expr(t[3]))];
    let c = atom_expr(t[5]);
    let d = seq![SpecStmt::ExprStmt(atom_expr(t[7]))];
    let eifs = seq![(c, d)];
    let inner = SpecExpr::Ternary { cond: Box::new(c), if_true: d, if_false: Seq::empty() };
    let e = SpecExpr::Ternary { cond: Box::new(a), if_true: b, if_false: seq![SpecStmt::ExprStmt(inner)] };
    lemma_atom_expr(t, 1, 0);
    lemma_block_atom(t, 3);
    lemma_atom_expr(t, 5, 0);
    lemma_block_atom(t, 7);
    assert(!elseif_at(t, 8));
    assert(!else_at(t, 8));
    assert(elseifs(t, 8) == PRes::<Seq<(SpecExpr, Seq<SpecStmt>)>>::Parsed(Seq::empty(), 0));
    assert(eifs + Seq::<(SpecExpr, Seq<SpecStmt>)>::empty() =~= eifs);
    assert(elseifs(t, 4) == PRes::Parsed(eifs, 4));
    assert(eifs.drop_first() =~= Seq::<(SpecExpr, Seq<SpecStmt>)>::empty());
    assert(desugar_elseifs(eifs.drop_first(), Seq::empty()) == Seq::<SpecStmt>::empty());
    assert(desugar_elseifs(eifs, Seq::empty()) == seq![SpecStmt::ExprStmt(inner)]);
    assert(if_expr(t, 0) == PRes::Parsed(e, 9));
    lemma_ws0_stays(t, 0);
    assert(operand(t, 0) == PRes::Parsed(e, 9));
    lemma_loop_ends(t, 9, e, 0, None);
    assert(expr_prec(t, 0, 0) == PRes::Parsed(e, 9));
    assert(function(t, 0) is Back);
    assert(stmt(t, 0) == PRes::Parsed(SpecStmt::ExprStmt(e), 9));
    lemma_stmts_one(t, 0, SpecStmt::ExprStmt(e));
}

/// A ranged `para` counts from the expression after `de` to the one after
/// `até`: for any operands, `para x de a até b faça c fim` is read as a loop of
/// `x` with start `a`, end `b`, no step and the body `c`.
#[verifier::rlimit(100)]
pub proof fn lemma_range_for_bounds(t: Seq<SpecToken>)
    requires
        t.len() == 9,
        t[0] == kw("para"@),
        t[1] is Identifier,
        t[2] == kw("de"@),
        is_atom(t[3]),
        t[4] == kw("até"@),
        is_atom(t[5]),
        t[6] == kw("faça"@),
        is_atom(t[7]),
        t[8] == kw("fim"@),
    ensures
        parse_stmts(t, 0) == PRes::Parsed(
            seq![
                SpecStmt::ExprStmt(
                    SpecExpr::RangeFor {
                        control: Box::new(atom_expr(t[1])),
                        start: Box::new(atom_expr(t[3])),
                        end: Box::new(atom_expr(t[5])),
                        step: None,
                        stmts: seq![SpecStmt::ExprStmt(atom_expr(t[7]))],
                    },
                ),
            ],
            9,
        ),
{
    lemma_closing_keywords();
    let x = atom_expr(t[1]);
    let a = atom_expr(t[3]);
    let b = atom_expr(t[5]);
    let body = seq![SpecStmt::ExprStmt(atom_expr(t[7]))];
    let e = SpecExpr::RangeFor {
        control: Box::new(x),
        start: Box::new(a),
        end: Box::new(b),
        step: None,
        stmts: body,
    };
    lemma_atom_expr(t, 3, 0);
    lemma_atom_expr(t, 5, 0);
    assert(t[6] != kw("passo"@));
    assert(for_clause(t, 1) == PRes::Parsed((x, a, b, None::<SpecExpr>), 5));
    assert(for_clauses(t, 6) == PRes::<Seq<(SpecExpr, SpecExpr, SpecExpr, Option<SpecExpr>)>>::Parsed(Seq::empty(), 0));
    lemma_block_atom(t, 7);
    assert(range_for(t, 0) == PRes::Parsed(e, 9));
    lemma_for_statement(t, e);
}

/// The same with a step: `para x de a até b passo s faça c fim` is read as a
/// loop of `x` with start `a`, end `b`, step `s` and the body `c`.
#[verifier::rlimit(100)]
pub proof fn lemma_range_for_step_bounds(t: Seq<SpecToken>)
    requires
        t.len() == 11,
        t[0] == kw("para"@),
        t[1] is Identifier,
        t[2] == kw("de"@),
        is_atom(t[3]),
        t[4] == kw("até"@),
        is_atom(t[5]),
        t[6] == kw("passo"@),
        is_atom(t[7]),
        t[8] == kw("faça"@),
        is_atom(t[9]),
        t[10] == kw("fim"@),
    ensures
        parse_stmts(t, 0) == PRes::Parsed(
            seq![
                SpecStmt::ExprStmt(
                    SpecExpr::RangeFor {
                        control: Box::new(atom_expr(t[1])),
                        start: Box::new(atom_expr(t[3])),
                        end: Box::new(atom_expr(t[5])),
                        step: Some(Box::new(atom_expr(t[7]))),
                        stmts: seq![SpecStmt::ExprStmt(atom_expr(t[9]))],
                    },
                ),
            ],
            11,
        ),
{
    lemma_closing_keywords();
    let x = atom_expr(t[1]);
    let a = atom_expr(t[3]);
    let b = atom_expr(t[5]);
    let st = atom_expr(t[7]);
    let body = seq![SpecStmt::ExprStmt(atom_expr(t[9]))];
    let e = SpecExpr::RangeFor {
        control: Box::new(x),
        start: Box::new(a),
        end: Box::new(b),
        step: Some(Box::new(st)),
        stmts: body,
    };
    lemma_atom_expr(t, 3, 0);
    lemma_atom_expr(t, 5, 0);
    lemma_atom_expr(t, 7, 0);
    assert(for_clause(t, 1) == PRes::Parsed((x, a, b, Some(st)), 7));
    assert(for_clauses(t, 8) == PRes::<Seq<(SpecExpr, SpecExpr, SpecExpr, Option<SpecExpr>)>>::Parsed(Seq::empty(), 0));
    lemma_block_atom(t, 9);
    assert(range_for(t, 0) == PRes::Parsed(e, 11));
    lemma_for_statement(t, e);
}

/// An expression, neither a name nor a binary one, that reads all the tokens
/// is the one statement read.
#[verifier::rlimit(100)]
proof fn lemma_operand_statement(t: Seq<SpecToken>, e: SpecExpr)
    requires
        t.len() > 0,
        !(t[0] is Identifier),
        t[0] != kw("var"@),
        t[0] != SpecToken::NewLine,
        !(e is Binary),
        operand(t, 0) == PRes::Parsed(e, t.len()),
    ensures
        parse_stmts(t, 0) == PRes::Parsed(seq![SpecStmt::ExprStmt(e)], t.len()),
{
    lemma_loop_ends(t, t.len() as int, e, 0, None);
    assert(expr_prec(t, 0, 0) == PRes::Parsed(e, t.len()));
    assert(function(t, 0) is Back);
    assert(stmt(t, 0) == PRes::Parsed(SpecStmt::ExprStmt(e), t.len()));
    lemma_stmts_one(t, 0, SpecStmt::ExprStmt(e));
}

/// A `para` loop that reads all the tokens is the one statement read.
#[verifier::rlimit(100)]
proof fn lemma_for_statement(t: Seq<SpecToken>, e: SpecExpr)
    requires
        t.len() > 0,
        t[0] == kw("para"@),
        !(e is Binary),
        for_expr(t, 0) == PRes::Parsed(e, t.len()),
    ensures
        parse_stmts(t, 0) == PRes::Parsed(seq![SpecStmt::ExprStmt(e)], t.len()),
{
    reveal_strlit("var");
    reveal_strlit("para");
    reveal_strlit("se");
    reveal_strlit("enquanto");
    assert("var"@.len() == 3 && "para"@.len() == 4 && "se"@.len() == 2 && "enquanto"@.len() == 8);
    assert(t[0] != kw("var"@));
    assert(t[0] != kw("se"@));
    assert(t[0] != kw("enquanto"@));
    lemma_ws0_stays(t, 0);
    assert(if_expr(t, 0) is Back);
    assert(while_expr(t, 0) is Back);
    assert(string(t, 0) is Back);
    assert(operand(t, 0) == PRes::Parsed(e, t.len()));
    lemma_operand_statement(t, e);
}

/// The `i`-th item of a list literal written without newlines.
pub open spec fn item_at(t: Seq<SpecToken>, i: int) -> SpecToken {
    t[2 * i + 1]
}

/// The separator before the `i`-th item of a list literal written without
/// newlines.
pub open spec fn sep_at(t: Seq<SpecToken>, i: int) -> SpecToken {
    t[2 * i]
}

/// `t` writes the identifiers and integers `xs`, one or more, between the
/// delimiters `open` and `close` and separated by commas, with no newlines:
/// `[x0, x1, ..]` or `(x0, x1, ..)`.
pub open spec fn items_tokens(t: Seq<SpecToken>, xs: Seq<SpecToken>, open: char, close: char) -> bool {
    let k = xs.len() as int;
    &&& k >= 1
    &&& t.len() == 2 * k + 1
    &&& t[0] == SpecToken::BlockDelimeter(open, false)
    &&& forall|i: int| 0 <= i < k ==> is_atom(xs[i]) && #[trigger] item_at(t, i) == xs[i]
    &&& forall|i: int| 1 <= i < k ==> #[trigger] sep_at(t, i) == SpecToken::Comma
    &&& t[2 * k] == SpecToken::BlockDelimeter(close, true)
}

/// The expressions that a sequence of identifier and integer tokens are read as.
pub open spec fn atom_exprs(xs: Seq<SpecToken>) -> Seq<SpecExpr> {
    xs.map_values(|x: SpecToken| atom_expr(x))
}

/// Each item of a list literal is read alone: what follows it ends it.
proof fn lemma_list_item(t: Seq<SpecToken>, xs: Seq<SpecToken>, i: int, close: char)
    requires
        items_tokens(t, xs, '[', close) || items_tokens(t, xs, '(', close),
        0 <= i < xs.len(),
    ensures
        expr_prec(t, 2 * i + 1, 0) == PRes::Parsed(atom_expr(xs[i]), 1),
{
    let k = xs.len() as int;
    assert(item_at(t, i) == xs[i]);
    if i + 1 < k {
        assert(sep_at(t, i + 1) == SpecToken::Comma);
    }
    assert(ends_expr(t, 2 * i + 2));
    lemma_atom_expr(t, 2 * i + 1, 0);
}

/// The items from the `i`-th on, each after its comma.
#[verifier::rlimit(100)]
proof fn lemma_comma_items(t: Seq<SpecToken>, xs: Seq<SpecToken>, i: int, close: char)
    requires
        items_tokens(t, xs, '[', close) || items_tokens(t, xs, '(', close),
        1 <= i <= xs.len(),
    ensures
        comma_exprs(t, 2 * i) == PRes::Parsed(
            atom_exprs(xs.subrange(i, xs.len() as int)),
            (2 * (xs.len() - i)) as nat,
        ),
    decreases xs.len() - i,
{
    let k = xs.len() as int;
    lemma_ws0_stays(t, 2 * i);
    if i == k {
        assert(atom_exprs(xs.subrange(i, k)) =~= Seq::<SpecExpr>::empty());
    } else {
        assert(sep_at(t, i) == SpecToken::Comma);
        assert(item_at(t, i) == xs[i]);
        lemma_ws0_stays(t, 2 * i + 1);
        lemma_list_item(t, xs, i, close);
        lemma_comma_items(t, xs, i + 1, close);
        assert(2 * i + 2 == 2 * (i + 1));
        assert(seq![atom_expr(xs[i])] + atom_exprs(xs.subrange(i + 1, k)) =~= atom_exprs(
            xs.subrange(i, k),
        ));
    }
}

/// The list rule reads the whole literal.
#[verifier::rlimit(100)]
proof fn lemma_list_read(t: Seq<SpecToken>, xs: Seq<SpecToken>)
    requires
        items_tokens(t, xs, '[', ']'),
    ensures
        list(t, 0) == PRes::Parsed(SpecExpr::List(atom_exprs(xs)), t.len()),
{
    let k = xs.len() as int;
    lemma_list_item(t, xs, 0, ']');
    lemma_comma_items(t, xs, 1, ']');
    assert(seq![atom_expr(xs[0])] + atom_exprs(xs.subrange(1, k)) =~= atom_exprs(xs));
    lemma_ws0_stays(t, 2 * k);
}

/// A list literal keeps all its items, in order: for any identifiers and
/// integers `x0, .., xk`, `[x0, .., xk]` is read as the list of exactly those
/// expressions, one per item between the commas.
#[verifier::rlimit(100)]
pub proof fn lemma_list_keeps_items(t: Seq<SpecToken>, xs: Seq<SpecToken>)
    requires
        items_tokens(t, xs, '[', ']'),
    ensures
        parse_stmts(t, 0) == PRes::Parsed(
            seq![SpecStmt::ExprStmt(SpecExpr::List(atom_exprs(xs)))],
            t.len(),
        ),
{
    let e = SpecExpr::List(atom_exprs(xs));
    lemma_list_read(t, xs);
    lemma_ws0_stays(t, 0);
    assert(if_expr(t, 0) is Back);
    assert(while_expr(t, 0) is Back);
    assert(range_for(t, 0) is Back);
    assert(iter_for(t, 0) is Back);
    assert(for_expr(t, 0) is Back);
    assert(string(t, 0) is Back);
    assert(operand(t, 0) == PRes::Parsed(e, t.len()));
    lemma_operand_statement(t, e);
}

/// A tuple literal keeps all its items, in order: for any identifiers and
/// integers `x0, .., xk`, two or more, `(x0, .., xk)` is read as the tuple of
/// exactly those expressions.
#[verifier::rlimit(100)]
pub proof fn lemma_tuple_keeps_items(t: Seq<SpecToken>, xs: Seq<SpecToken>)
    requires
        items_tokens(t, xs, '(', ')'),
        xs.len() >= 2,
    ensures
        parse_stmts(t, 0) == PRes::Parsed(
            seq![SpecStmt::ExprStmt(SpecExpr::Tuple(atom_exprs(xs)))],
            t.len(),
        ),
{
    let k = xs.len() as int;
    let e = SpecExpr::Tuple(atom_exprs(xs));
    lemma_list_item(t, xs, 0, ')');
    lemma_list_item(t, xs, 1, ')');
    assert(sep_at(t, 1) == SpecToken::Comma);
    assert(item_at(t, 1) == xs[1]);
    lemma_ws0_stays(t, 2);
    lemma_ws0_stays(t, 3);
    lemma_comma_items(t, xs, 2, ')');
    lemma_ws0_stays(t, 2 * k);
    assert(seq![atom_expr(xs[0])] + (seq![atom_expr(xs[1])] + atom_exprs(xs.subrange(2, k)))
        =~= atom_exprs(xs));
    assert(super::spec::tuple(t, 0) == PRes::Parsed(e, t.len()));
    lemma_ws0_stays(t, 0);
    assert(operand(t, 0) == PRes::Parsed(e, t.len()));
    lemma_operand_statement(t, e);
}

/// `enquanto a faça b fim`, for any operands, is read as the loop on the
/// condition `a` with the body `b`.
#[verifier::rlimit(100)]
pub proof fn lemma_while_parts(t: Seq<SpecToken>)
    requires
        t.len() == 5,
        t[0] == kw("enquanto"@),
        is_atom(t[1]),
        t[2] == kw("faça"@),
        is_atom(t[3]),
        t[4] == kw("fim"@),
    ensures
        parse_stmts(t, 0) == PRes::Parsed(
            seq![
                SpecStmt::ExprStmt(
                    SpecExpr::While {
                        cond: Box::new(atom_expr(t[1])),
                        stmts: seq![SpecStmt::ExprStmt(atom_expr(t[3]))],
                    },
                ),
            ],
            5,
        ),
{
    lemma_closing_keywords();
    reveal_strlit("var");
    reveal_strlit("se");
    reveal_strlit("enquanto");
    assert("var"@.len() == 3 && "se"@.len() == 2 && "enquanto"@.len() == 8);
    let e = SpecExpr::While {
        cond: Box::new(atom_expr(t[1])),
        stmts: seq![SpecStmt::ExprStmt(atom_expr(t[3]))],
    };
    lemma_atom_expr(t, 1, 0);
    lemma_block_atom(t, 3);
    assert(while_expr(t, 0) == PRes::Parsed(e, 5));
    lemma_ws0_stays(t, 0);
    assert(t[0] != kw("se"@));
    assert(if_expr(t, 0) is Back);
    assert(string(t, 0) is Back);
    assert(operand(t, 0) == PRes::Parsed(e, 5));
    assert(t[0] != kw("var"@));
    lemma_operand_statement(t, e);
}

/// `para x em a faça b fim`, for any operands, is read as the loop of `x`
/// over `a` with the body `b`.
#[verifier::rlimit(100)]
pub proof fn lemma_iter_for_parts(t: Seq<SpecToken>)
    requires
        t.len() == 7,
        t[0] == kw("para"@),
        t[1] is Identifier,
        t[2] == kw("em"@),
        is_atom(t[3]),
        t[4] == kw("faça"@),
        is_atom(t[5]),
        t[6] == kw("fim"@),
    ensures
        parse_stmts(t, 0) == PRes::Parsed(
            seq![
                SpecStmt::ExprStmt(
                    SpecExpr::IterFor {
                        control: Box::new(atom_expr(t[1])),
                        iterator: Box::new(atom_expr(t[3])),
                        stmts: seq![SpecStmt::ExprStmt(atom_expr(t[5]))],
                    },
                ),
            ],
            7,
        ),
{
    lemma_closing_keywords();
    reveal_strlit("em");
    reveal_strlit("de");
    assert("em"@[0] == 'e' && "de"@[0] == 'd');
    let e = SpecExpr::IterFor {
        control: Box::new(atom_expr(t[1])),
        iterator: Box::new(atom_expr(t[3])),
        stmts: seq![SpecStmt::ExprStmt(atom_expr(t[5]))],
    };
    assert(t[2] != kw("de"@));
    assert(for_clause(t, 1) is Back);
    assert(range_for(t, 0) is Back);
    lemma_atom_expr(t, 3, 0);
    lemma_block_atom(t, 5);
    assert(iter_for(t, 0) == PRes::Parsed(e, 7));
    lemma_for_statement(t, e);
}

/// How strongly an infix operator binds: `ou` least, then `e`, then the
/// comparisons, then `+` and `-`, then `*`, `/`, `div` and `mod`, then `^`;
/// 0 for the assignments, `.`, indexing and calls.
pub open spec fn binding_rank(op: BinOp) -> int {
    match op {
        BinOp::Or => 1,
        BinOp::And => 2,
        BinOp::Equal | BinOp::NotEqual | BinOp::Greater | BinOp::GreaterOrEqual | BinOp::Less
        | BinOp::LessOrEqual => 3,
        BinOp::Plus | BinOp::Minus => 4,
        BinOp::Mult | BinOp::Div | BinOp::IntDiv | BinOp::Mod => 5,
        BinOp::Pow => 6,
        _ => 0,
    }
}

/// `a o1 b o2 c` groups as `a o1 (b o2 c)`: where `o2` binds more strongly
/// than `o1`, or both are `^`, which groups to the right.
pub open spec fn groups_right(o1: BinOp, o2: BinOp) -> bool {
    binding_rank(o2) > binding_rank(o1) || (o1 == BinOp::Pow && o2 == BinOp::Pow)
}

/// Two infix operators in a row group by how strongly they bind: for any
/// operands `a`, `b`, `c`, `a o1 b o2 c` is read as `a o1 (b o2 c)` where
/// `o2` binds more strongly than `o1` or both are `^`, and as `(a o1 b) o2 c`
/// otherwise: operators that bind alike group to the left, but for `^`. (Two
/// comparisons in a row do not group at all.)
#[verifier::rlimit(100)]
pub proof fn lemma_infix_grouping(t: Seq<SpecToken>, o1: Seq<char>, o2: Seq<char>)
    requires
        t.len() == 5,
        is_atom(t[0]),
        is_atom(t[2]),
        is_atom(t[4]),
        t[1] == SpecToken::Operation(o1),
        t[3] == SpecToken::Operation(o2),
        binop_of_text(o1) is Some,
        binop_of_text(o2) is Some,
        binding_rank(binop_of_text(o1)->0) > 0,
        binding_rank(binop_of_text(o2)->0) > 0,
        !(binding_rank(binop_of_text(o1)->0) == 3 && binding_rank(binop_of_text(o2)->0) == 3),
    ensures
        ({
            let (a, b, c) = (atom_expr(t[0]), atom_expr(t[2]), atom_expr(t[4]));
            let (op1, op2) = (binop_of_text(o1)->0, binop_of_text(o2)->0);
            let e = if groups_right(op1, op2) {
                SpecExpr::Binary {
                    lhs: Box::new(a),
                    op: op1,
                    rhs: Box::new(SpecExpr::Binary { lhs: Box::new(b), op: op2, rhs: Box::new(c) }),
                }
            } else {
                SpecExpr::Binary {
                    lhs: Box::new(SpecExpr::Binary { lhs: Box::new(a), op: op1, rhs: Box::new(b) }),
                    op: op2,
                    rhs: Box::new(c),
                }
            };
            parse_stmts(t, 0) == PRes::Parsed(seq![SpecStmt::ExprStmt(e)], 5)
        }),
{
    let a = atom_expr(t[0]);
    let b = atom_expr(t[2]);
    let c = atom_expr(t[4]);
    let op1 = binop_of_text(o1)->0;
    let op2 = binop_of_text(o2)->0;
    let (lp1, rp1, n1) = infix_info(op1)->0;
    let (lp2, rp2, n2) = infix_info(op2)->0;
    let pn1: Option<int> = if n1 { Some(lp1) } else { None };
    let pn2: Option<int> = if n2 { Some(lp2) } else { None };
    assert(infix_info(op1) == Some((lp1, rp1, n1)));
    assert(infix_info(op2) == Some((lp2, rp2, n2)));
    assert(op1 != BinOp::Index && op2 != BinOp::Index);
    lemma_ws0_stays(t, 1);
    lemma_ws0_stays(t, 3);
    lemma_atom_operand(t, 0);
    lemma_atom_operand(t, 2);
    lemma_atom_expr(t, 4, rp2);
    if groups_right(op1, op2) {
        assert(lp2 >= rp1);
        let bc = SpecExpr::Binary { lhs: Box::new(b), op: op2, rhs: Box::new(c) };
        let e = SpecExpr::Binary { lhs: Box::new(a), op: op1, rhs: Box::new(bc) };
        lemma_loop_ends(t, 5, bc, rp1, pn2);
        assert(expr_loop(t, 3, b, rp1, None) == PRes::Parsed(bc, 2));
        assert(expr_prec(t, 2, rp1) == PRes::Parsed(bc, 3));
        lemma_loop_ends(t, 5, e, 0, pn1);
        assert(expr_loop(t, 1, a, 0, None) == PRes::Parsed(e, 4));
        assert(expr_prec(t, 0, 0) == PRes::Parsed(e, 5));
        assert(function(t, 0) is Back);
        assert(stmt(t, 0) == PRes::Parsed(SpecStmt::ExprStmt(e), 5));
        lemma_stmts_one(t, 0, SpecStmt::ExprStmt(e));
    } else {
        assert(lp2 < rp1);
        assert(pn1 != Some(lp2));
        let ab = SpecExpr::Binary { lhs: Box::new(a), op: op1, rhs: Box::new(b) };
        let e = SpecExpr::Binary { lhs: Box::new(ab), op: op2, rhs: Box::new(c) };
        assert(expr_loop(t, 3, b, rp1, None) == PRes::Parsed(b, 0));
        assert(expr_prec(t, 2, rp1) == PRes::Parsed(b, 1));
        lemma_loop_ends(t, 5, e, 0, pn2);
        assert(expr_loop(t, 3, ab, 0, pn1) == PRes::Parsed(e, 2));
        assert(expr_loop(t, 1, a, 0, None) == PRes::Parsed(e, 4));
        assert(expr_prec(t, 0, 0) == PRes::Parsed(e, 5));
        assert(function(t, 0) is Back);
        assert(stmt(t, 0) == PRes::Parsed(SpecStmt::ExprStmt(e), 5));
        lemma_stmts_one(t, 0, SpecStmt::ExprStmt(e));
    }
}

/// The `senaose` keyword before the condition of the `i`-th `senaose` branch
/// of a conditional written without newlines.
pub open spec fn branch_kw(t: Seq<SpecToken>, i: int) -> SpecToken {
    t[4 * i + 4]
}

/// The condition of the `i`-th `senaose` branch.
pub open spec fn branch_cond(t: Seq<SpecToken>, i: int) -> SpecToken {
    t[4 * i + 5]
}

/// The `entao` after the condition of the `i`-th `senaose` branch.
pub open spec fn branch_then(t: Seq<SpecToken>, i: int) -> SpecToken {
    t[4 * i + 6]
}

/// The body of the `i`-th `senaose` branch.
pub open spec fn branch_body(t: Seq<SpecToken>, i: int) -> SpecToken {
    t[4 * i + 7]
}

/// `t` writes `se a entao b`, then `k` branches `senaose c entao d`, then,
/// where `has_else`, `senao e`, and last `fim`, with identifiers and integers
/// for `a`, `b`, each `c` and `d`, and `e`, and no newlines.
pub open spec fn if_tokens(t: Seq<SpecToken>, k: nat, has_else: bool) -> bool {
    let m = 4 * k as int + 4;
    &&& t.len() == if has_else {
        m + 3
    } else {
        m + 1
    }
    &&& t[0] == kw("se"@)
    &&& is_atom(t[1])
    &&& t[2] == kw("entao"@)
    &&& is_atom(t[3])
    &&& forall|i: int|
        0 <= i < k ==> #[trigger] branch_kw(t, i) == kw("senaose"@) || branch_kw(t, i) == kw(
            "senãose"@,
        )
    &&& forall|i: int| 0 <= i < k ==> is_atom(#[trigger] branch_cond(t, i))
    &&& forall|i: int| 0 <= i < k ==> #[trigger] branch_then(t, i) == kw("entao"@)
    &&& forall|i: int| 0 <= i < k ==> is_atom(#[trigger] branch_body(t, i))
    &&& if has_else {
        &&& t[m] == kw("senao"@) || t[m] == kw("senão"@)
        &&& is_atom(t[m + 1])
        &&& t[m + 2] == kw("fim"@)
    } else {
        t[m] == kw("fim"@)
    }
}

/// The `senaose` branches from the `i`-th to the `k`-th, each as its
/// condition and its body.
pub open spec fn branches(t: Seq<SpecToken>, i: int, k: int) -> Seq<(SpecExpr, Seq<SpecStmt>)>
    decreases k - i,
{
    if i >= k {
        Seq::empty()
    } else {
        seq![(atom_expr(branch_cond(t, i)), seq![SpecStmt::ExprStmt(atom_expr(branch_body(t, i)))])]
            + branches(t, i + 1, k)
    }
}

/// What runs when the condition and the conditions of the branches before the
/// `i`-th are false: the `i`-th branch, as a conditional on its condition
/// with its body when true and the rest when false; `last` after the `k`-th.
pub open spec fn else_chain(t: Seq<SpecToken>, i: int, k: int, last: Seq<SpecStmt>) -> Seq<
    SpecStmt,
>
    decreases k - i,
{
    if i >= k {
        last
    } else {
        seq![
            SpecStmt::ExprStmt(
                SpecExpr::Ternary {
                    cond: Box::new(atom_expr(branch_cond(t, i))),
                    if_true: seq![SpecStmt::ExprStmt(atom_expr(branch_body(t, i)))],
                    if_false: else_chain(t, i + 1, k, last),
                },
            ),
        ]
    }
}

/// The token after the `i`-th branch (or after the `entao` block, for `i`
/// at 0) closes a block.
proof fn lemma_branch_closed(t: Seq<SpecToken>, k: nat, has_else: bool, i: int)
    requires
        if_tokens(t, k, has_else),
        0 <= i <= k,
    ensures
        closing_kw(t[4 * i + 4]),
        i < k ==> elseif_at(t, 4 * i + 4),
        i == k ==> !elseif_at(t, 4 * i + 4),
{
    lemma_closing_keywords();
    if i < k {
        assert(branch_kw(t, i) == t[4 * i + 4]);
    }
}

/// The branches from the `i`-th on are all read.
#[verifier::rlimit(100)]
proof fn lemma_elseifs_read(t: Seq<SpecToken>, k: nat, has_else: bool, i: int)
    requires
        if_tokens(t, k, has_else),
        0 <= i <= k,
    ensures
        elseifs(t, 4 * i + 4) == PRes::Parsed(branches(t, i, k as int), (4 * (k - i)) as nat),
    decreases k - i,
{
    lemma_branch_closed(t, k, has_else, i);
    if i < k {
        assert(is_atom(branch_cond(t, i)));
        assert(branch_then(t, i) == kw("entao"@));
        assert(is_atom(branch_body(t, i)));
        lemma_closing_keywords();
        lemma_atom_expr(t, 4 * i + 5, 0);
        lemma_branch_closed(t, k, has_else, i + 1);
        lemma_block_atom(t, 4 * i + 7);
        lemma_elseifs_read(t, k, has_else, i + 1);
        assert(4 * (i + 1) + 4 == 4 * i + 8);
    }
}

/// Folding the branches read gives the chain of conditionals.
proof fn lemma_fold_branches(t: Seq<SpecToken>, i: int, k: int, last: Seq<SpecStmt>)
    requires
        i <= k,
    ensures
        desugar_elseifs(branches(t, i, k), last) == else_chain(t, i, k, last),
    decreases k - i,
{
    if i < k {
        assert(branches(t, i, k).drop_first() =~= branches(t, i + 1, k));
        lemma_fold_branches(t, i + 1, k, last);
    }
}

/// Every `senaose` branch is kept, in order, with or without `senao`: for any
/// operands, `se a entao b senaose c1 entao d1 .. senaose ck entao dk [senao e]
/// fim` is read as the conditional on `a` with `b` when true and, when false,
/// the conditional on `c1` with `d1` when true, and so on to the conditional
/// on `ck`, whose false branch is `e`, or nothing without `senao`.
#[verifier::rlimit(100)]
pub proof fn lemma_elseif_chain(t: Seq<SpecToken>, k: nat, has_else: bool)
    requires
        if_tokens(t, k, has_else),
    ensures
        ({
            let m = 4 * k as int + 4;
            let last = if has_else {
                seq![SpecStmt::ExprStmt(atom_expr(t[m + 1]))]
            } else {
                Seq::<SpecStmt>::empty()
            };
            parse_stmts(t, 0) == PRes::Parsed(
                seq![
                    SpecStmt::ExprStmt(
                        SpecExpr::Ternary {
                            cond: Box::new(atom_expr(t[1])),
                            if_true: seq![SpecStmt::ExprStmt(atom_expr(t[3]))],
                            if_false: else_chain(t, 0, k as int, last),
                        },
                    ),
                ],
                t.len(),
            )
        }),
{
    let m = 4 * k as int + 4;
    let last = if has_else {
        seq![SpecStmt::ExprStmt(atom_expr(t[m + 1]))]
    } else {
        Seq::<SpecStmt>::empty()
    };
    let e = SpecExpr::Ternary {
        cond: Box::new(atom_expr(t[1])),
        if_true: seq![SpecStmt::ExprStmt(atom_expr(t[3]))],
        if_false: else_chain(t, 0, k as int, last),
    };
    lemma_closing_keywords();
    lemma_atom_expr(t, 1, 0);
    lemma_branch_closed(t, k, has_else, 0);
    lemma_block_atom(t, 3);
    lemma_elseifs_read(t, k, has_else, 0);
    lemma_fold_branches(t, 0, k as int, last);
    if has_else {
        assert(else_at(t, m));
        lemma_block_atom(t, m + 1);
    } else {
        assert(!else_at(t, m));
    }
    assert(if_expr(t, 0) == PRes::Parsed(e, t.len()));
    lemma_ws0_stays(t, 0);
    assert(string(t, 0) is Back);
    assert(operand(t, 0) == PRes::Parsed(e, t.len()));
    reveal_strlit("var");
    reveal_strlit("se");
    assert("var"@.len() == 3 && "se"@.len() == 2);
    lemma_operand_statement(t, e);
}

/// A prefix `+` or `-` takes only the operand after it, but for `^`, which
/// binds more strongly; `imprima` and `escreva` take the whole expression
/// after them: for any operands `a` and `b` and infix operator `o` of
/// `binding_rank`, `u a o b` is read as `u (a o b)` where `u` is `imprima` or
/// `escreva` or `o` is `^`, and as `(u a) o b` otherwise.
#[verifier::rlimit(100)]
pub proof fn lemma_prefix_grouping(t: Seq<SpecToken>, u: Seq<char>, o: Seq<char>)
    requires
        t.len() == 4,
        t[0] == SpecToken::Operation(u),
        is_atom(t[1]),
        t[2] == SpecToken::Operation(o),
        is_atom(t[3]),
        unary_of_text(u) is Some,
        unary_of_text(u)->0 != UnaryOp::Not,
        binop_of_text(o) is Some,
        binding_rank(binop_of_text(o)->0) > 0,
    ensures
        ({
            let (a, b) = (atom_expr(t[1]), atom_expr(t[3]));
            let (uop, op) = (unary_of_text(u)->0, binop_of_text(o)->0);
            let e = if uop == UnaryOp::Write || uop == UnaryOp::Print || op == BinOp::Pow {
                SpecExpr::Unary {
                    op: uop,
                    expr: Box::new(SpecExpr::Binary { lhs: Box::new(a), op, rhs: Box::new(b) }),
                }
            } else {
                SpecExpr::Binary {
                    lhs: Box::new(SpecExpr::Unary { op: uop, expr: Box::new(a) }),
                    op,
                    rhs: Box::new(b),
                }
            };
            parse_stmts(t, 0) == PRes::Parsed(seq![SpecStmt::ExprStmt(e)], 4)
        }),
{
    let a = atom_expr(t[1]);
    let b = atom_expr(t[3]);
    let uop = unary_of_text(u)->0;
    let op = binop_of_text(o)->0;
    let pp = prefix_power(uop);
    let (lp, rp, n) = infix_info(op)->0;
    let pn: Option<int> = if n { Some(lp) } else { None };
    assert(infix_info(op) == Some((lp, rp, n)));
    assert(op != BinOp::Index);
    lemma_ws0_stays(t, 0);
    lemma_ws0_stays(t, 1);
    lemma_ws0_stays(t, 2);
    assert(if_expr(t, 0) is Back);
    assert(while_expr(t, 0) is Back);
    assert(range_for(t, 0) is Back);
    assert(iter_for(t, 0) is Back);
    assert(string(t, 0) is Back);
    assert(list(t, 0) is Back);
    assert(operand(t, 0) is Back);
    lemma_atom_operand(t, 1);
    lemma_atom_expr(t, 3, rp);
    if uop == UnaryOp::Write || uop == UnaryOp::Print || op == BinOp::Pow {
        assert(lp >= pp);
        let ab = SpecExpr::Binary { lhs: Box::new(a), op, rhs: Box::new(b) };
        let e = SpecExpr::Unary { op: uop, expr: Box::new(ab) };
        lemma_loop_ends(t, 4, ab, pp, pn);
        assert(expr_loop(t, 2, a, pp, None) == PRes::Parsed(ab, 2));
        assert(expr_prec(t, 1, pp) == PRes::Parsed(ab, 3));
        lemma_loop_ends(t, 4, e, 0, None);
        assert(expr_prec(t, 0, 0) == PRes::Parsed(e, 4));
        assert(function(t, 0) is Back);
        assert(stmt(t, 0) == PRes::Parsed(SpecStmt::ExprStmt(e), 4));
        lemma_stmts_one(t, 0, SpecStmt::ExprStmt(e));
    } else {
        assert(lp < pp);
        let ua = SpecExpr::Unary { op: uop, expr: Box::new(a) };
        let e = SpecExpr::Binary { lhs: Box::new(ua), op, rhs: Box::new(b) };
        assert(expr_loop(t, 2, a, pp, None) == PRes::Parsed(a, 0));
        assert(expr_prec(t, 1, pp) == PRes::Parsed(a, 1));
        lemma_loop_ends(t, 4, e, 0, pn);
        assert(expr_loop(t, 2, ua, 0, None) == PRes::Parsed(e, 2));
        assert(expr_prec(t, 0, 0) == PRes::Parsed(e, 4));
        assert(function(t, 0) is Back);
        assert(stmt(t, 0) == PRes::Parsed(SpecStmt::ExprStmt(e), 4));
        lemma_stmts_one(t, 0, SpecStmt::ExprStmt(e));
    }
}

/// `a = b` declares a constant and `var a := b` a variable: for any operands,
/// the first is read as the constant assignment of `b` to `a` and the second
/// as the variable assignment of `b` to `a`.
#[verifier::rlimit(100)]
pub proof fn lemma_assignment_kinds(t: Seq<SpecToken>, o: Seq<char>)
    requires
        t.len() == 3 || (t.len() == 4 && t[0] == kw("var"@)),
        is_atom(t[t.len() - 3]),
        t[t.len() - 2] == SpecToken::Operation(o),
        is_atom(t[t.len() - 1]),
        t.len() == 3 ==> binop_of_text(o) == Some(BinOp::ConstAssignment),
        t.len() == 4 ==> binop_of_text(o) == Some(BinOp::VarAssignment),
    ensures
        ({
            let k = t.len() - 3;
            let e = SpecExpr::Binary {
                lhs: Box::new(atom_expr(t[k])),
                op: binop_of_text(o)->0,
                rhs: Box::new(atom_expr(t[k + 2])),
            };
            parse_stmts(t, 0) == PRes::Parsed(
                seq![
                    if k == 0 {
                        SpecStmt::ConstAssignment(e)
                    } else {
                        SpecStmt::VarAssignment(e)
                    },
                ],
                t.len(),
            )
        }),
{
    let k = t.len() - 3;
    let a = atom_expr(t[k]);
    let b = atom_expr(t[k + 2]);
    let op = binop_of_text(o)->0;
    let e = SpecExpr::Binary { lhs: Box::new(a), op, rhs: Box::new(b) };
    lemma_ws0_stays(t, k + 1);
    lemma_atom_operand(t, k);
    lemma_atom_expr(t, k + 2, 1);
    lemma_loop_ends(t, k + 3, e, 0, None);
    assert(expr_loop(t, k + 1, a, 0, None) == PRes::Parsed(e, 2));
    assert(expr_prec(t, k, 0) == PRes::Parsed(e, 3));
    if k == 0 {
        assert(function(t, 0) is Back);
        assert(stmt(t, 0) == PRes::Parsed(SpecStmt::ConstAssignment(e), 3));
        lemma_stmts_one(t, 0, SpecStmt::ConstAssignment(e));
    } else {
        assert(stmt(t, 0) == PRes::Parsed(SpecStmt::VarAssignment(e), 4));
        lemma_stmts_one(t, 0, SpecStmt::VarAssignment(e));
    }
}

/// The `i`-th line of statements written one per line.
pub open spec fn line_at(t: Seq<SpecToken>, i: int) -> SpecToken {
    t[2 * i]
}

/// The newline after the `i`-th line.
pub open spec fn line_end(t: Seq<SpecToken>, i: int) -> SpecToken {
    t[2 * i + 1]
}

/// `t` writes the identifiers and integers `xs`, one or more, one per line.
pub open spec fn lines_tokens(t: Seq<SpecToken>, xs: Seq<SpecToken>) -> bool {
    let k = xs.len() as int;
    &&& k >= 1
    &&& t.len() == 2 * k - 1
    &&& forall|i: int| 0 <= i < k ==> is_atom(xs[i]) && #[trigger] line_at(t, i) == xs[i]
    &&& forall|i: int| 0 <= i < k - 1 ==> #[trigger] line_end(t, i) == SpecToken::NewLine
}

/// The statements that identifier and integer tokens are read as.
pub open spec fn atom_stmts(xs: Seq<SpecToken>) -> Seq<SpecStmt> {
    xs.map_values(|x: SpecToken| SpecStmt::ExprStmt(atom_expr(x)))
}

/// A line that another follows is one statement, and the next starts after
/// its newline.
#[verifier::rlimit(100)]
proof fn lemma_line_stmt(t: Seq<SpecToken>, xs: Seq<SpecToken>, i: int)
    requires
        lines_tokens(t, xs),
        0 <= i < xs.len() - 1,
    ensures
        stmt(t, 2 * i) == PRes::Parsed(SpecStmt::ExprStmt(atom_expr(xs[i])), 1),
        ws0(t, 2 * i + 1) == 2 * i + 2,
{
    let x = atom_expr(xs[i]);
    assert(line_at(t, i) == xs[i]);
    assert(line_end(t, i) == SpecToken::NewLine);
    assert(line_at(t, i + 1) == xs[i + 1]);
    assert(2 * (i + 1) == 2 * i + 2);
    assert(nl_run(t, 2 * i + 2) == 0);
    assert(nl_run(t, 2 * i + 1) == 1);
    lemma_atom_operand(t, 2 * i);
    assert(expr_loop(t, 2 * i + 1, x, 0, None) == PRes::Parsed(x, 0));
    assert(expr_prec(t, 2 * i, 0) == PRes::Parsed(x, 1));
    assert(function(t, 2 * i) is Back);
}

/// Reading statements at `q`, where a statement stands, gives it and then
/// the statements after it and the newlines that follow it.
#[verifier::rlimit(100)]
proof fn lemma_stmts_step(t: Seq<SpecToken>, q: int, st: SpecStmt, n: nat)
    requires
        0 <= q < t.len(),
        t[q] != SpecToken::NewLine,
        stmt(t, q) == PRes::Parsed(st, n),
        n > 0,
    ensures
        parse_stmts(t, q) == match parse_stmts(t, ws0(t, q + n)) {
            PRes::Parsed(ss, m) => PRes::Parsed(seq![st] + ss, (ws0(t, q + n) - q + m) as nat),
            r => r,
        },
{
    lemma_ws0_stays(t, q);
}

/// The lines from the `i`-th on are all read.
#[verifier::rlimit(100)]
proof fn lemma_lines_read(t: Seq<SpecToken>, xs: Seq<SpecToken>, i: int)
    requires
        lines_tokens(t, xs),
        0 <= i < xs.len(),
    ensures
        parse_stmts(t, 2 * i) == PRes::Parsed(
            atom_stmts(xs.subrange(i, xs.len() as int)),
            (2 * (xs.len() - i) - 1) as nat,
        ),
    decreases xs.len() - i,
{
    let k = xs.len() as int;
    let x = atom_expr(xs[i]);
    assert(line_at(t, i) == xs[i]);
    if i + 1 == k {
        assert(ends_expr(t, 2 * i + 1));
        lemma_stmt_atom(t, 2 * i);
        lemma_ws0_stays(t, 2 * i + 1);
        lemma_stmts_none(t, 2 * i + 1);
        lemma_stmts_step(t, 2 * i, SpecStmt::ExprStmt(x), 1);
        assert(seq![SpecStmt::ExprStmt(x)] + Seq::<SpecStmt>::empty() =~= atom_stmts(
            xs.subrange(i, k),
        ));
    } else {
        lemma_line_stmt(t, xs, i);
        lemma_lines_read(t, xs, i + 1);
        assert(2 * (i + 1) == 2 * i + 2);
        lemma_stmts_step(t, 2 * i, SpecStmt::ExprStmt(x), 1);
        assert(seq![SpecStmt::ExprStmt(x)] + atom_stmts(xs.subrange(i + 1, k)) =~= atom_stmts(
            xs.subrange(i, k),
        ));
    }
}

/// Statements one per line are all read, in order: for any identifiers and
/// integers `x0, .., xk`, written one per line, the statements read are
/// exactly those expressions.
#[verifier::rlimit(100)]
pub proof fn lemma_lines_all_read(t: Seq<SpecToken>, xs: Seq<SpecToken>)
    requires
        lines_tokens(t, xs),
    ensures
        parse_stmts(t, 0) == PRes::Parsed(atom_stmts(xs), t.len()),
{
    lemma_lines_read(t, xs, 0);
    assert(xs.subrange(0, xs.len() as int) =~= xs);
}

/// The name that an identifier or type token writes.
pub open spec fn name_of(x: SpecToken) -> Seq<char> {
    match x {
        SpecToken::Type(n) => n,
        _ => x->Identifier_0,
    }
}

/// An identifier or a type name: what may name a parameter's type.
pub open spec fn is_type_name(x: SpecToken) -> bool {
    x is Identifier || x is Type
}

/// The name of the `i`-th parameter of a function declared without newlines.
pub open spec fn param_name(t: Seq<SpecToken>, i: int) -> SpecToken {
    t[3 * i + 2]
}

/// The colon after the name of the `i`-th parameter.
pub open spec fn param_colon(t: Seq<SpecToken>, i: int) -> SpecToken {
    t[3 * i + 3]
}

/// The type of the `i`-th parameter.
pub open spec fn param_type(t: Seq<SpecToken>, i: int) -> SpecToken {
    t[3 * i + 4]
}

/// Where the `=` of a declaration with `k` parameters stands.
pub open spec fn eq_pos(k: nat, has_ret: bool) -> int {
    if has_ret {
        3 * k as int + 5
    } else {
        3 * k as int + 3
    }
}

/// `t` declares `f(x1: T1, .., xk: Tk) = b`, or `f(x1: T1, ..): R = b` where
/// `has_ret`, with an identifier or integer for `b` and no newlines. (The
/// parameters are written one after another: no comma is read between them.)
pub open spec fn function_tokens(t: Seq<SpecToken>, k: nat, has_ret: bool) -> bool {
    let c = 3 * k as int + 2;
    let q = eq_pos(k, has_ret);
    &&& t.len() == q + 2
    &&& t[0] is Identifier
    &&& t[1] == SpecToken::BlockDelimeter('(', false)
    &&& forall|i: int| 0 <= i < k ==> (#[trigger] param_name(t, i)) is Identifier
    &&& forall|i: int| 0 <= i < k ==> #[trigger] param_colon(t, i) == SpecToken::Colon
    &&& forall|i: int| 0 <= i < k ==> is_type_name(#[trigger] param_type(t, i))
    &&& t[c] == SpecToken::BlockDelimeter(')', true)
    &&& has_ret ==> t[c + 1] == SpecToken::Colon && is_type_name(t[c + 2])
    &&& t[q] == SpecToken::Operation("="@)
    &&& is_atom(t[q + 1])
}

/// The parameters from the `i`-th to the `k`-th, each as its name and type.
pub open spec fn declared_params(t: Seq<SpecToken>, i: int, k: int) -> Seq<(SpecExpr, SpecExpr)>
    decreases k - i,
{
    if i >= k {
        Seq::empty()
    } else {
        seq![
            (
                SpecExpr::Identifier(name_of(param_name(t, i))),
                SpecExpr::Identifier(name_of(param_type(t, i))),
            ),
        ] + declared_params(t, i + 1, k)
    }
}

/// The parameters from the `i`-th on are all read.
proof fn lemma_params_read(t: Seq<SpecToken>, k: nat, has_ret: bool, i: int)
    requires
        function_tokens(t, k, has_ret),
        0 <= i <= k,
    ensures
        params(t, 3 * i + 2) == declared_params(t, i, k as int),
        declared_params(t, i, k as int).len() == k - i,
    decreases k - i,
{
    if i < k {
        assert(param_name(t, i) is Identifier);
        assert(param_colon(t, i) == SpecToken::Colon);
        assert(is_type_name(param_type(t, i)));
        lemma_params_read(t, k, has_ret, i + 1);
        assert(3 * (i + 1) + 2 == 3 * i + 5);
    }
}

/// A function declared with `=` is read with its parameters, in order, each
/// as its name and type, its return type where one is written, and the
/// expression after `=` as its body.
#[verifier::rlimit(100)]
pub proof fn lemma_function_declaration(t: Seq<SpecToken>, k: nat, has_ret: bool)
    requires
        function_tokens(t, k, has_ret),
    ensures
        ({
            let c = 3 * k as int + 2;
            parse_stmts(t, 0) == PRes::Parsed(
                seq![
                    SpecStmt::FunctionDeclaration {
                        variables: declared_params(t, 0, k as int),
                        return_type: if has_ret {
                            Some(SpecExpr::Identifier(name_of(t[c + 2])))
                        } else {
                            None
                        },
                        body: seq![SpecStmt::ExprStmt(atom_expr(t[eq_pos(k, has_ret) + 1]))],
                    },
                ],
                t.len(),
            )
        }),
{
    let c = 3 * k as int + 2;
    let q = eq_pos(k, has_ret);
    let ret = if has_ret {
        Some(SpecExpr::Identifier(name_of(t[c + 2])))
    } else {
        None
    };
    let body = seq![SpecStmt::ExprStmt(atom_expr(t[q + 1]))];
    let d = SpecStmt::FunctionDeclaration {
        variables: declared_params(t, 0, k as int),
        return_type: ret,
        body,
    };
    lemma_params_read(t, k, has_ret, 0);
    lemma_atom_expr(t, q + 1, 0);
    assert(function(t, 0) == PRes::Parsed(d, t.len()));
    lemma_ws0_stays(t, 1);
    lemma_atom_operand(t, 0);
    assert(expr_loop(t, 1, atom_expr(t[0]), 0, None) == PRes::Parsed(atom_expr(t[0]), 0));
    assert(expr_prec(t, 0, 0) == PRes::Parsed(atom_expr(t[0]), 1));
    assert(stmt(t, 0) == PRes::Parsed(d, t.len()));
    lemma_stmts_one(t, 0, d);
}

/// `a o b` alone, at `p`, is read as one binary expression, also where the
/// expression must bind at least as strongly as an assignment's right side.
#[verifier::rlimit(100)]
proof fn lemma_binary_at(t: Seq<SpecToken>, p: int, o: Seq<char>, min: int)
    requires
        0 <= min <= 1,
        0 <= p,
        p + 2 < t.len(),
        is_atom(t[p]),
        t[p + 1] == SpecToken::Operation(o),
        is_atom(t[p + 2]),
        binop_of_text(o) is Some,
        binding_rank(binop_of_text(o)->0) > 0,
        ends_expr(t, p + 3),
    ensures
        expr_prec(t, p, min) == PRes::Parsed(
            SpecExpr::Binary {
                lhs: Box::new(atom_expr(t[p])),
                op: binop_of_text(o)->0,
                rhs: Box::new(atom_expr(t[p + 2])),
            },
            3,
        ),
{
    let op = binop_of_text(o)->0;
    let (lp, rp, n) = infix_info(op)->0;
    let pn: Option<int> = if n { Some(lp) } else { None };
    assert(infix_info(op) == Some((lp, rp, n)));
    let e = SpecExpr::Binary {
        lhs: Box::new(atom_expr(t[p])),
        op,
        rhs: Box::new(atom_expr(t[p + 2])),
    };
    lemma_ws0_stays(t, p + 1);
    lemma_atom_operand(t, p);
    lemma_atom_expr(t, p + 2, rp);
    lemma_loop_ends(t, p + 3, e, min, pn);
    assert(expr_loop(t, p + 1, atom_expr(t[p]), min, None) == PRes::Parsed(e, 2));
}

/// Parentheses group first, whatever the operators: for any operands and
/// infix operators of `binding_rank`, `(a o1 b) o2 c` is read as `a o1 b`
/// combined with `c` by `o2`.
#[verifier::rlimit(100)]
pub proof fn lemma_parentheses_group(t: Seq<SpecToken>, o1: Seq<char>, o2: Seq<char>)
    requires
        t.len() == 7,
        t[0] == SpecToken::BlockDelimeter('(', false),
        is_atom(t[1]),
        t[2] == SpecToken::Operation(o1),
        is_atom(t[3]),
        t[4] == SpecToken::BlockDelimeter(')', true),
        t[5] == SpecToken::Operation(o2),
        is_atom(t[6]),
        binop_of_text(o1) is Some,
        binop_of_text(o2) is Some,
        binding_rank(binop_of_text(o1)->0) > 0,
        binding_rank(binop_of_text(o2)->0) > 0,
    ensures
        parse_stmts(t, 0) == PRes::Parsed(
            seq![
                SpecStmt::ExprStmt(
                    SpecExpr::Binary {
                        lhs: Box::new(
                            SpecExpr::Binary {
                                lhs: Box::new(atom_expr(t[1])),
                                op: binop_of_text(o1)->0,
                                rhs: Box::new(atom_expr(t[3])),
                            },
                        ),
                        op: binop_of_text(o2)->0,
                        rhs: Box::new(atom_expr(t[6])),
                    },
                ),
            ],
            7,
        ),
{
    let op1 = binop_of_text(o1)->0;
    let op2 = binop_of_text(o2)->0;
    let ab = SpecExpr::Binary {
        lhs: Box::new(atom_expr(t[1])),
        op: op1,
        rhs: Box::new(atom_expr(t[3])),
    };
    let e = SpecExpr::Binary { lhs: Box::new(ab), op: op2, rhs: Box::new(atom_expr(t[6])) };
    let (lp, rp, n) = infix_info(op2)->0;
    let pn: Option<int> = if n { Some(lp) } else { None };
    assert(infix_info(op2) == Some((lp, rp, n)));
    lemma_binary_at(t, 1, o1, 0);
    lemma_ws0_stays(t, 0);
    lemma_ws0_stays(t, 4);
    lemma_ws0_stays(t, 5);
    assert(super::spec::tuple(t, 0) is Back);
    assert(operand(t, 0) == PRes::Parsed(ab, 5));
    lemma_atom_expr(t, 6, rp);
    lemma_loop_ends(t, 7, e, 0, pn);
    assert(op2 != BinOp::Index);
    assert(expr_loop(t, 5, ab, 0, None) == PRes::Parsed(e, 2));
    assert(expr_prec(t, 0, 0) == PRes::Parsed(e, 7));
    assert(function(t, 0) is Back);
    assert(stmt(t, 0) == PRes::Parsed(SpecStmt::ExprStmt(e), 7));
    lemma_stmts_one(t, 0, SpecStmt::ExprStmt(e));
}

/// An assignment takes the whole expression on its right: for any operands
/// and infix operator `o` of `binding_rank`, `a = b o c` is read as the
/// constant assignment of `b o c` to `a`, and `var a := b o c` as the
/// variable assignment of `b o c` to `a`.
#[verifier::rlimit(100)]
pub proof fn lemma_assignment_takes_expression(t: Seq<SpecToken>, o0: Seq<char>, o: Seq<char>)
    requires
        t.len() == 5 || (t.len() == 6 && t[0] == kw("var"@)),
        is_atom(t[t.len() - 5]),
        t[t.len() - 4] == SpecToken::Operation(o0),
        is_atom(t[t.len() - 3]),
        t[t.len() - 2] == SpecToken::Operation(o),
        is_atom(t[t.len() - 1]),
        t.len() == 5 ==> binop_of_text(o0) == Some(BinOp::ConstAssignment),
        t.len() == 6 ==> binop_of_text(o0) == Some(BinOp::VarAssignment),
        binop_of_text(o) is Some,
        binding_rank(binop_of_text(o)->0) > 0,
    ensures
        ({
            let k = t.len() - 5;
            let e = SpecExpr::Binary {
                lhs: Box::new(atom_expr(t[k])),
                op: binop_of_text(o0)->0,
                rhs: Box::new(
                    SpecExpr::Binary {
                        lhs: Box::new(atom_expr(t[k + 2])),
                        op: binop_of_text(o)->0,
                        rhs: Box::new(atom_expr(t[k + 4])),
                    },
                ),
            };
            parse_stmts(t, 0) == PRes::Parsed(
                seq![
                    if k == 0 {
                        SpecStmt::ConstAssignment(e)
                    } else {
                        SpecStmt::VarAssignment(e)
                    },
                ],
                t.len(),
            )
        }),
{
    let k = t.len() - 5;
    let a = atom_expr(t[k]);
    let op0 = binop_of_text(o0)->0;
    let bc = SpecExpr::Binary {
        lhs: Box::new(atom_expr(t[k + 2])),
        op: binop_of_text(o)->0,
        rhs: Box::new(atom_expr(t[k + 4])),
    };
    let e = SpecExpr::Binary { lhs: Box::new(a), op: op0, rhs: Box::new(bc) };
    lemma_ws0_stays(t, k + 1);
    lemma_atom_operand(t, k);
    lemma_binary_at(t, k + 2, o, 1);
    lemma_loop_ends(t, k + 5, e, 0, None);
    assert(expr_loop(t, k + 1, a, 0, None) == PRes::Parsed(e, 4));
    assert(expr_prec(t, k, 0) == PRes::Parsed(e, 5));
    if k == 0 {
        assert(function(t, 0) is Back);
        assert(stmt(t, 0) == PRes::Parsed(SpecStmt::ConstAssignment(e), 5));
        lemma_stmts_one(t, 0, SpecStmt::ConstAssignment(e));
    } else {
        assert(stmt(t, 0) == PRes::Parsed(SpecStmt::VarAssignment(e), 6));
        lemma_stmts_one(t, 0, SpecStmt::VarAssignment(e));
    }
}

} // verus!
