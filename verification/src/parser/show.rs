//! Expressions written out as S-expressions, for debugging.
use vstd::prelude::*;

use super::ops::{binop_text, unary_text};
use super::types::{
    expr_view, lemma_pairs_view_index, lemma_parts_view_index, lemma_stmts_view_index,
    pairs_view, part_view, parts_view, stmt_view, stmts_view, value_view, Expr, SpecExpr,
    SpecStmt, SpecStringPart, SpecValue, Stmt, StringPart, Value,
};
use crate::text::{str_chars, string_from_chars};

verus! {

/// What `{:?}` writes for a string: the text quoted, with escapes.
pub uninterp spec fn str_debug(s: Seq<char>) -> Seq<char>;

/// `str`'s `Debug`: the text quoted, with escapes; the result is named, not
/// stated.
#[verifier::external_body]
fn debug_str(s: &str) -> (r: String)
    ensures
        r@ == str_debug(s@),
{
    format!("{:?}", s)
}

/// The decimal digits of `n`.
pub open spec fn digits(n: nat) -> Seq<char>
    decreases n,
{
    if n < 10 {
        seq![('0' as int + n) as char]
    } else {
        digits(n / 10).push(('0' as int + n % 10) as char)
    }
}

/// `n` written in decimal, with a `-` when negative.
pub open spec fn decimal(n: int) -> Seq<char> {
    if n < 0 {
        seq!['-'] + digits((-n) as nat)
    } else {
        digits(n as nat)
    }
}

/// Appends the decimal digits of `m`.
fn push_digits(m: u64, out: &mut Vec<char>)
    ensures
        final(out)@ == old(out)@ + digits(m as nat),
    decreases m,
{
    if m >= 10 {
        push_digits(m / 10, out);
    }
    let d = (m % 10) as u8;
    let c = (48u8 + d) as char;
    assert(c == ('0' as int + (m as nat) % 10) as char);
    let ghost before = out@;
    out.push(c);
    proof {
        if m >= 10 {
            assert(out@ =~= old(out)@ + digits((m / 10) as nat).push(c));
        } else {
            assert(out@ =~= before + seq![c]);
        }
    }
}

/// `n` written in decimal, with a `-` when negative.
fn int_text(n: i64) -> (r: String)
    ensures
        r@ == decimal(n as int),
{
    let mut out: Vec<char> = Vec::new();
    if n < 0 {
        out.push('-');
        let m: u64 = (-(n as i128)) as u64;
        push_digits(m, &mut out);
        assert(out@ =~= seq!['-'] + digits((-n) as nat));
    } else {
        push_digits(n as u64, &mut out);
        assert(out@ =~= digits(n as nat));
    }
    let len = out.len();
    proof {
        assert(out@.subrange(0, len as int) =~= out@);
    }
    string_from_chars(&out, 0, len)
}

/// How a literal is written: a float as the text it was written with.
pub open spec fn value_text(v: SpecValue) -> Seq<char> {
    match v {
        SpecValue::Integer(n) => decimal(n as int),
        SpecValue::Float(t) => t,
        SpecValue::Boolean(b) => if b {
            "true"@
        } else {
            "false"@
        },
        SpecValue::Character(c) => seq![c],
    }
}

/// `x` between square brackets.
pub open spec fn bracketed(x: Seq<char>) -> Seq<char> {
    "["@ + x + "]"@
}

/// An expression can be written out: no call, lambda, list or tuple occurs in
/// it.
pub open spec fn printable(e: SpecExpr) -> bool
    decreases e,
{
    match e {
        SpecExpr::Literal(_) => true,
        SpecExpr::String(ps) => printable_parts(ps),
        SpecExpr::Identifier(_) => true,
        SpecExpr::Binary { lhs, rhs, .. } => printable(*lhs) && printable(*rhs),
        SpecExpr::Unary { expr, .. } => printable(*expr),
        SpecExpr::Ternary { cond, if_true, if_false } => printable(*cond) && printable_stmts(
            if_true,
        ) && printable_stmts(if_false),
        SpecExpr::While { cond, stmts } => printable(*cond) && printable_stmts(stmts),
        SpecExpr::RangeFor { control, start, end, step, stmts } => printable(*control)
            && printable(*start) && printable(*end) && match step {
            Some(st) => printable(*st),
            None => true,
        } && printable_stmts(stmts),
        SpecExpr::IterFor { control, iterator, stmts } => printable(*control) && printable(
            *iterator,
        ) && printable_stmts(stmts),
        SpecExpr::Call(..) => false,
        SpecExpr::Lambda(..) => false,
        SpecExpr::List(_) => false,
        SpecExpr::Tuple(_) => false,
    }
}

/// Every statement can be written out.
pub open spec fn printable_stmts(ss: Seq<SpecStmt>) -> bool
    decreases ss,
{
    if ss.len() == 0 {
        true
    } else {
        printable_stmts(ss.drop_last()) && printable_stmt(ss.last())
    }
}

/// A statement can be written out.
pub open spec fn printable_stmt(s: SpecStmt) -> bool
    decreases s,
{
    match s {
        SpecStmt::ConstAssignment(e) => printable(e),
        SpecStmt::VarAssignment(e) => printable(e),
        SpecStmt::ExprStmt(e) => printable(e),
        SpecStmt::FunctionDeclaration { variables, return_type, body } => printable_pairs(
            variables,
        ) && match return_type {
            Some(t) => printable(t),
            None => true,
        } && printable_stmts(body),
    }
}

/// Every part of a string can be written out.
pub open spec fn printable_parts(ps: Seq<SpecStringPart>) -> bool
    decreases ps,
{
    if ps.len() == 0 {
        true
    } else {
        printable_parts(ps.drop_last()) && match ps.last() {
            SpecStringPart::Fragment(_) => true,
            SpecStringPart::Expr(e) => printable(e),
        }
    }
}

/// Every pair of expressions can be written out.
pub open spec fn printable_pairs(ps: Seq<(SpecExpr, SpecExpr)>) -> bool
    decreases ps,
{
    if ps.len() == 0 {
        true
    } else {
        printable_pairs(ps.drop_last()) && printable(ps.last().0) && printable(ps.last().1)
    }
}

/// An expression as an S-expression: an operation as `(op lhs rhs)`, a
/// conditional or a loop as its parts separated by spaces, blocks and string
/// parts as their debug form.
pub open spec fn sexpr(e: SpecExpr) -> Seq<char>
    decreases e,
{
    match e {
        SpecExpr::Literal(v) => value_text(v),
        SpecExpr::String(ps) => bracketed(parts_list(ps)),
        SpecExpr::Identifier(name) => name,
        SpecExpr::Binary { lhs, op, rhs } => "("@ + binop_text(op) + " "@ + sexpr(*lhs) + " "@
            + sexpr(*rhs) + ")"@,
        SpecExpr::Unary { op, expr } => "("@ + unary_text(op) + " "@ + sexpr(*expr) + ")"@,
        SpecExpr::Ternary { cond, if_true, if_false } => sexpr(*cond) + " "@ + bracketed(
            stmt_list(if_true),
        ) + " "@ + bracketed(stmt_list(if_false)),
        SpecExpr::While { cond, stmts } => sexpr(*cond) + " "@ + bracketed(stmt_list(stmts)),
        SpecExpr::RangeFor { control, start, end, step, stmts } => sexpr(*control) + " "@
            + sexpr(*start) + " "@ + sexpr(*end) + " "@ + match step {
            Some(st) => "Some("@ + sexpr(*st) + ")"@,
            None => "None"@,
        } + " "@ + bracketed(stmt_list(stmts)),
        SpecExpr::IterFor { control, iterator, stmts } => sexpr(*control) + " "@ + sexpr(
            *iterator,
        ) + " "@ + bracketed(stmt_list(stmts)),
        _ => Seq::empty(),
    }
}

/// Statements written out, separated by `, `.
pub open spec fn stmt_list(ss: Seq<SpecStmt>) -> Seq<char>
    decreases ss,
{
    if ss.len() == 0 {
        Seq::empty()
    } else if ss.len() == 1 {
        stmt_text(ss[0])
    } else {
        stmt_list(ss.drop_last()) + ", "@ + stmt_text(ss.last())
    }
}

/// A statement written out as its debug form, the expressions in it as
/// S-expressions.
pub open spec fn stmt_text(s: SpecStmt) -> Seq<char>
    decreases s,
{
    match s {
        SpecStmt::ConstAssignment(e) => "ConstAssignment("@ + sexpr(e) + ")"@,
        SpecStmt::VarAssignment(e) => "VarAssignment("@ + sexpr(e) + ")"@,
        SpecStmt::ExprStmt(e) => "ExprStmt("@ + sexpr(e) + ")"@,
        SpecStmt::FunctionDeclaration { variables, return_type, body } => "FunctionDeclaration { variables: "@
            + bracketed(pair_list(variables)) + ", return_type: "@ + match return_type {
            Some(t) => "Some("@ + sexpr(t) + ")"@,
            None => "None"@,
        } + ", body: "@ + bracketed(stmt_list(body)) + " }"@,
    }
}

/// String parts written out, separated by `, `.
pub open spec fn parts_list(ps: Seq<SpecStringPart>) -> Seq<char>
    decreases ps,
{
    if ps.len() == 0 {
        Seq::empty()
    } else if ps.len() == 1 {
        part_text(ps[0])
    } else {
        parts_list(ps.drop_last()) + ", "@ + part_text(ps.last())
    }
}

/// A string part written out: text in its debug form, an expression as an
/// S-expression.
pub open spec fn part_text(p: SpecStringPart) -> Seq<char>
    decreases p,
{
    match p {
        SpecStringPart::Fragment(f) => "Fragment("@ + str_debug(f) + ")"@,
        SpecStringPart::Expr(e) => "Expr("@ + sexpr(e) + ")"@,
    }
}

/// Pairs of expressions written out as `(a, b)`, separated by `, `.
pub open spec fn pair_list(ps: Seq<(SpecExpr, SpecExpr)>) -> Seq<char>
    decreases ps,
{
    if ps.len() == 0 {
        Seq::empty()
    } else if ps.len() == 1 {
        "("@ + sexpr(ps[0].0) + ", "@ + sexpr(ps[0].1) + ")"@
    } else {
        pair_list(ps.drop_last()) + ", "@ + "("@ + sexpr(ps.last().0) + ", "@ + sexpr(ps.last().1)
            + ")"@
    }
}

/// Each statement of a block that can be written out can be.
proof fn lemma_printable_stmts_each(ss: Seq<SpecStmt>)
    requires
        printable_stmts(ss),
    ensures
        forall|i: int| 0 <= i < ss.len() ==> printable_stmt(#[trigger] ss[i]),
    decreases ss.len(),
{
    if ss.len() > 0 {
        lemma_printable_stmts_each(ss.drop_last());
        assert forall|i: int| 0 <= i < ss.len() implies printable_stmt(#[trigger] ss[i]) by {
            if i < ss.len() - 1 {
                assert(ss.drop_last()[i] == ss[i]);
            }
        }
    }
}

/// Each part of a string that can be written out can be.
proof fn lemma_printable_parts_each(ps: Seq<SpecStringPart>)
    requires
        printable_parts(ps),
    ensures
        forall|i: int|
            0 <= i < ps.len() ==> (#[trigger] ps[i] matches SpecStringPart::Expr(e) ==> printable(e)),
    decreases ps.len(),
{
    if ps.len() > 0 {
        lemma_printable_parts_each(ps.drop_last());
        assert forall|i: int| 0 <= i < ps.len() implies (#[trigger] ps[i] matches SpecStringPart::Expr(
            e,
        ) ==> printable(e)) by {
            if i < ps.len() - 1 {
                assert(ps.drop_last()[i] == ps[i]);
            }
        }
    }
}

/// Each pair of a sequence that can be written out can be.
proof fn lemma_printable_pairs_each(ps: Seq<(SpecExpr, SpecExpr)>)
    requires
        printable_pairs(ps),
    ensures
        forall|i: int| 0 <= i < ps.len() ==> printable(#[trigger] ps[i].0) && printable(ps[i].1),
    decreases ps.len(),
{
    if ps.len() > 0 {
        lemma_printable_pairs_each(ps.drop_last());
        assert forall|i: int| 0 <= i < ps.len() implies printable(#[trigger] ps[i].0) && printable(
            ps[i].1,
        ) by {
            if i < ps.len() - 1 {
                assert(ps.drop_last()[i] == ps[i]);
            }
        }
    }
}

/// Writing one more statement.
proof fn lemma_stmt_list_push(xs: Seq<SpecStmt>, y: SpecStmt)
    ensures
        stmt_list(xs.push(y)) == if xs.len() == 0 {
            stmt_text(y)
        } else {
            stmt_list(xs) + ", "@ + stmt_text(y)
        },
{
    assert(xs.push(y).drop_last() =~= xs);
    assert(xs.push(y).last() == y);
    if xs.len() == 0 {
        assert(xs.push(y)[0] == y);
    }
}

/// Writing one more string part.
proof fn lemma_parts_list_push(xs: Seq<SpecStringPart>, y: SpecStringPart)
    ensures
        parts_list(xs.push(y)) == if xs.len() == 0 {
            part_text(y)
        } else {
            parts_list(xs) + ", "@ + part_text(y)
        },
{
    assert(xs.push(y).drop_last() =~= xs);
    assert(xs.push(y).last() == y);
    if xs.len() == 0 {
        assert(xs.push(y)[0] == y);
    }
}

/// Writing one more pair.
proof fn lemma_pair_list_push(xs: Seq<(SpecExpr, SpecExpr)>, y: (SpecExpr, SpecExpr))
    ensures
        pair_list(xs.push(y)) == if xs.len() == 0 {
            "("@ + sexpr(y.0) + ", "@ + sexpr(y.1) + ")"@
        } else {
            pair_list(xs) + ", "@ + "("@ + sexpr(y.0) + ", "@ + sexpr(y.1) + ")"@
        },
{
    assert(xs.push(y).drop_last() =~= xs);
    assert(xs.push(y).last() == y);
    if xs.len() == 0 {
        assert(xs.push(y)[0] == y);
    }
}

/// Appends the characters of `s`.
fn push_str(out: &mut Vec<char>, s: &str)
    ensures
        final(out)@ == old(out)@ + s@,
{
    let mut cs = str_chars(s);
    out.append(&mut cs);
}

/// Appends a literal.
fn write_value(v: &Value, out: &mut Vec<char>)
    ensures
        final(out)@ == old(out)@ + value_text(value_view(*v)),
{
    match v {
        Value::Integer(n) => {
            let t = int_text(*n);
            push_str(out, t.as_str());
        },
        Value::Float(t) => push_str(out, t.as_str()),
        Value::Boolean(b) => if *b {
            push_str(out, "true");
        } else {
            push_str(out, "false");
        },
        Value::Character(c) => {
            let ghost before = out@;
            out.push(*c);
            assert(out@ =~= before + seq![*c]);
        },
    }
}

/// Appends an expression as an S-expression.
#[verifier::rlimit(60)]
fn write_expr(e: &Expr, out: &mut Vec<char>)
    requires
        printable(expr_view(*e)),
    ensures
        final(out)@ == old(out)@ + sexpr(expr_view(*e)),
    decreases e, 0nat,
{
    let ghost start = out@;
    match e {
        Expr::Literal(v) => {
            write_value(v, out);
            assert(out@ =~= start + sexpr(expr_view(*e)));
        },
        Expr::String(ps) => {
            push_str(out, "[");
            write_parts(ps, out);
            push_str(out, "]");
            assert(out@ =~= start + sexpr(expr_view(*e)));
        },
        Expr::Identifier(name) => {
            push_str(out, name.as_str());
            assert(out@ =~= start + sexpr(expr_view(*e)));
        },
        Expr::Binary { lhs, op, rhs } => {
            push_str(out, "(");
            let t = op.to_string();
            push_str(out, t.as_str());
            push_str(out, " ");
            write_expr(lhs, out);
            push_str(out, " ");
            write_expr(rhs, out);
            push_str(out, ")");
            assert(out@ =~= start + sexpr(expr_view(*e)));
        },
        Expr::Unary { op, expr } => {
            push_str(out, "(");
            let t = op.to_string();
            push_str(out, t.as_str());
            push_str(out, " ");
            write_expr(expr, out);
            push_str(out, ")");
            assert(out@ =~= start + sexpr(expr_view(*e)));
        },
        Expr::Ternary { cond, if_true, if_false } => {
            write_expr(cond, out);
            push_str(out, " ");
            push_str(out, "[");
            write_stmt_list(if_true, out);
            push_str(out, "]");
            push_str(out, " ");
            push_str(out, "[");
            write_stmt_list(if_false, out);
            push_str(out, "]");
            assert(out@ =~= start + sexpr(expr_view(*e)));
        },
        Expr::While { cond, stmts } => {
            write_expr(cond, out);
            push_str(out, " ");
            push_str(out, "[");
            write_stmt_list(stmts, out);
            push_str(out, "]");
            assert(out@ =~= start + sexpr(expr_view(*e)));
        },
        Expr::RangeFor { control, start: first, end, step, stmts } => {
            write_expr(control, out);
            push_str(out, " ");
            write_expr(first, out);
            push_str(out, " ");
            write_expr(end, out);
            push_str(out, " ");
            match step {
                Some(st) => {
                    push_str(out, "Some(");
                    write_expr(st, out);
                    push_str(out, ")");
                },
                None => push_str(out, "None"),
            }
            push_str(out, " ");
            push_str(out, "[");
            write_stmt_list(stmts, out);
            push_str(out, "]");
            assert(out@ =~= start + sexpr(expr_view(*e)));
        },
        Expr::IterFor { control, iterator, stmts } => {
            write_expr(control, out);
            push_str(out, " ");
            write_expr(iterator, out);
            push_str(out, " ");
            push_str(out, "[");
            write_stmt_list(stmts, out);
            push_str(out, "]");
            assert(out@ =~= start + sexpr(expr_view(*e)));
        },
        _ => {},
    }
}

/// Appends a block's statements, separated by `, `.
fn write_stmt_list(ss: &Vec<Stmt>, out: &mut Vec<char>)
    requires
        printable_stmts(stmts_view(ss@)),
    ensures
        final(out)@ == old(out)@ + stmt_list(stmts_view(ss@)),
    decreases ss, 1nat,
{
    let ghost start = out@;
    proof {
        lemma_stmts_view_index(ss@);
        lemma_printable_stmts_each(stmts_view(ss@));
        assert forall|j: int| 0 <= j < ss@.len() implies printable_stmt(
            #[trigger] stmt_view(ss@[j]),
        ) by {
            assert(stmts_view(ss@)[j] == stmt_view(ss@[j]));
        }
        assert(ss@.take(0) =~= Seq::<Stmt>::empty());
        assert(out@ =~= start + stmt_list(stmts_view(ss@.take(0))));
    }
    let mut i: usize = 0;
    while i < ss.len()
        invariant
            i <= ss@.len(),
            out@ == start + stmt_list(stmts_view(ss@.take(i as int))),
            forall|j: int| 0 <= j < ss@.len() ==> printable_stmt(#[trigger] stmt_view(ss@[j])),
        decreases ss@.len() - i,
    {
        assert(decreases_to!(ss => ss@[i as int]));
        let ghost prev = stmts_view(ss@.take(i as int));
        proof {
            lemma_stmts_view_index(ss@.take(i as int));
            assert(ss@.take(i + 1).drop_last() =~= ss@.take(i as int));
            assert(ss@.take(i + 1).last() == ss@[i as int]);
            assert(stmts_view(ss@.take(i + 1)) == prev.push(stmt_view(ss@[i as int])));
            lemma_stmt_list_push(prev, stmt_view(ss@[i as int]));
        }
        if i > 0 {
            push_str(out, ", ");
        }
        write_stmt(&ss[i], out);
        i = i + 1;
        assert(out@ =~= start + stmt_list(stmts_view(ss@.take(i as int))));
    }
    assert(ss@.take(i as int) =~= ss@);
}

/// Appends a statement in its debug form.
#[verifier::rlimit(60)]
fn write_stmt(s: &Stmt, out: &mut Vec<char>)
    requires
        printable_stmt(stmt_view(*s)),
    ensures
        final(out)@ == old(out)@ + stmt_text(stmt_view(*s)),
    decreases s, 0nat,
{
    let ghost start = out@;
    match s {
        Stmt::ConstAssignment(e) => {
            push_str(out, "ConstAssignment(");
            write_expr(e, out);
            push_str(out, ")");
            assert(out@ =~= start + stmt_text(stmt_view(*s)));
        },
        Stmt::VarAssignment(e) => {
            push_str(out, "VarAssignment(");
            write_expr(e, out);
            push_str(out, ")");
            assert(out@ =~= start + stmt_text(stmt_view(*s)));
        },
        Stmt::ExprStmt(e) => {
            push_str(out, "ExprStmt(");
            write_expr(e, out);
            push_str(out, ")");
            assert(out@ =~= start + stmt_text(stmt_view(*s)));
        },
        Stmt::FunctionDeclaration { variables, return_type, body } => {
            push_str(out, "FunctionDeclaration { variables: ");
            push_str(out, "[");
            write_pair_list(variables, out);
            push_str(out, "]");
            push_str(out, ", return_type: ");
            match return_type {
                Some(t) => {
                    push_str(out, "Some(");
                    write_expr(t, out);
                    push_str(out, ")");
                },
                None => push_str(out, "None"),
            }
            push_str(out, ", body: ");
            push_str(out, "[");
            write_stmt_list(body, out);
            push_str(out, "]");
            push_str(out, " }");
            assert(out@ =~= start + stmt_text(stmt_view(*s)));
        },
    }
}

/// Appends the parts of a string, separated by `, `.
fn write_parts(ps: &Vec<StringPart>, out: &mut Vec<char>)
    requires
        printable_parts(parts_view(ps@)),
    ensures
        final(out)@ == old(out)@ + parts_list(parts_view(ps@)),
    decreases ps, 1nat,
{
    let ghost start = out@;
    proof {
        lemma_parts_view_index(ps@);
        lemma_printable_parts_each(parts_view(ps@));
        assert forall|j: int| 0 <= j < ps@.len() implies (#[trigger] part_view(
            ps@[j],
        ) matches SpecStringPart::Expr(e) ==> printable(e)) by {
            assert(parts_view(ps@)[j] == part_view(ps@[j]));
        }
        assert(ps@.take(0) =~= Seq::<StringPart>::empty());
        assert(out@ =~= start + parts_list(parts_view(ps@.take(0))));
    }
    let mut i: usize = 0;
    while i < ps.len()
        invariant
            i <= ps@.len(),
            out@ == start + parts_list(parts_view(ps@.take(i as int))),
            forall|j: int|
                0 <= j < ps@.len() ==> (#[trigger] part_view(ps@[j]) matches SpecStringPart::Expr(e)
                    ==> printable(e)),
        decreases ps@.len() - i,
    {
        assert(decreases_to!(ps => ps@[i as int]));
        let ghost prev = parts_view(ps@.take(i as int));
        proof {
            lemma_parts_view_index(ps@.take(i as int));
            assert(ps@.take(i + 1).drop_last() =~= ps@.take(i as int));
            assert(ps@.take(i + 1).last() == ps@[i as int]);
            assert(parts_view(ps@.take(i + 1)) == prev.push(part_view(ps@[i as int])));
            lemma_parts_list_push(prev, part_view(ps@[i as int]));
        }
        if i > 0 {
            push_str(out, ", ");
        }
        let ghost mid = out@;
        match &ps[i] {
            StringPart::Fragment(f) => {
                push_str(out, "Fragment(");
                let d = debug_str(f.as_str());
                push_str(out, d.as_str());
                push_str(out, ")");
            },
            StringPart::Expr(x) => {
                push_str(out, "Expr(");
                write_expr(x, out);
                push_str(out, ")");
            },
        }
        assert(out@ =~= mid + part_text(part_view(ps@[i as int])));
        i = i + 1;
        assert(out@ =~= start + parts_list(parts_view(ps@.take(i as int))));
    }
    assert(ps@.take(i as int) =~= ps@);
}

/// Appends pairs of expressions as `(a, b)`, separated by `, `.
fn write_pair_list(ps: &Vec<(Expr, Expr)>, out: &mut Vec<char>)
    requires
        printable_pairs(pairs_view(ps@)),
    ensures
        final(out)@ == old(out)@ + pair_list(pairs_view(ps@)),
    decreases ps, 1nat,
{
    let ghost start = out@;
    proof {
        lemma_pairs_view_index(ps@);
        lemma_printable_pairs_each(pairs_view(ps@));
        assert forall|j: int| 0 <= j < ps@.len() implies printable(
            expr_view(#[trigger] ps@[j].0),
        ) && printable(expr_view(ps@[j].1)) by {
            assert(pairs_view(ps@)[j] == (expr_view(ps@[j].0), expr_view(ps@[j].1)));
            assert(printable(pairs_view(ps@)[j].0));
        }
        assert(ps@.take(0) =~= Seq::<(Expr, Expr)>::empty());
        assert(out@ =~= start + pair_list(pairs_view(ps@.take(0))));
    }
    let mut i: usize = 0;
    while i < ps.len()
        invariant
            i <= ps@.len(),
            out@ == start + pair_list(pairs_view(ps@.take(i as int))),
            forall|j: int|
                0 <= j < ps@.len() ==> printable(expr_view(#[trigger] ps@[j].0)) && printable(
                    expr_view(ps@[j].1),
                ),
        decreases ps@.len() - i,
    {
        assert(decreases_to!(ps => ps@[i as int]));
        assert(decreases_to!(ps@[i as int] => ps@[i as int].0));
        assert(decreases_to!(ps@[i as int] => ps@[i as int].1));
        let ghost prev = pairs_view(ps@.take(i as int));
        let ghost y = (expr_view(ps@[i as int].0), expr_view(ps@[i as int].1));
        proof {
            lemma_pairs_view_index(ps@.take(i as int));
            assert(ps@.take(i + 1).drop_last() =~= ps@.take(i as int));
            assert(ps@.take(i + 1).last() == ps@[i as int]);
            assert(pairs_view(ps@.take(i + 1)) == prev.push(y));
            lemma_pair_list_push(prev, y);
        }
        if i > 0 {
            push_str(out, ", ");
        }
        let ghost mid = out@;
        push_str(out, "(");
        write_expr(&ps[i].0, out);
        push_str(out, ", ");
        write_expr(&ps[i].1, out);
        push_str(out, ")");
        assert(out@ =~= mid + ("("@ + sexpr(y.0) + ", "@ + sexpr(y.1) + ")"@));
        i = i + 1;
        assert(out@ =~= start + pair_list(pairs_view(ps@.take(i as int))));
    }
    assert(ps@.take(i as int) =~= ps@);
}

impl Value {
    /// The literal written out: an integer in decimal, a boolean as `true`
    /// or `false`, a character as itself, and a float as the text it was
    /// written with.
    pub fn to_string(&self) -> (r: String)
        ensures
            r@ == value_text(value_view(*self)),
    {
        let mut out: Vec<char> = Vec::new();
        write_value(self, &mut out);
        let n = out.len();
        proof {
            assert(out@.subrange(0, n as int) =~= out@);
            assert(out@ =~= Seq::<char>::empty() + value_text(value_view(*self)));
        }
        string_from_chars(&out, 0, n)
    }
}

impl Expr {
    /// The expression written out as an S-expression (see `sexpr`). Calls,
    /// lambdas, lists and tuples have no written form.
    pub fn to_sexpr(&self) -> (r: String)
        requires
            printable(expr_view(*self)),
        ensures
            r@ == sexpr(expr_view(*self)),
    {
        let mut out: Vec<char> = Vec::new();
        write_expr(self, &mut out);
        let n = out.len();
        proof {
            assert(out@.subrange(0, n as int) =~= out@);
        }
        string_from_chars(&out, 0, n)
    }
}

} // verus!
