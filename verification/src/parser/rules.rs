//! The grammar rules as executable functions. Each one reads the tokens from
//! a position and returns what the rule of the same name in `spec` gives.
use vstd::prelude::*;

use super::spec::{self, ForClause, PRes};
use super::types::{
    expr_view, exprs_view, lemma_exprs_view_add, lemma_exprs_view_one, lemma_parts_view_add,
    lemma_pairs_view_len, lemma_parts_view_one, lemma_stmts_view_one, pairs_view, part_view,
    parts_view, stmt_view, stmts_view, BinOp, Expr, SpecExpr, SpecStmt, SpecStringPart, Stmt,
    StringPart, UnaryOp, Value,
};
use crate::lexer::types::{tokens_view, SpecToken, Token};

verus! {

/// Why a rule did not give a value: it does not apply here (`Backtrack`),
/// or the input is malformed at the given position (`Cut`).
#[derive(Debug)]
pub enum ParseError {
    Backtrack,
    Cut(usize),
}

/// What a rule gives: a value and the number of tokens it took.
pub type Res<A> = Result<(A, usize), ParseError>;

/// `r` is the outcome `s`, the value taken through `v`.
pub open spec fn agrees<A, B>(r: Res<A>, s: PRes<B>, v: spec_fn(A) -> B) -> bool {
    match r {
        Ok((x, n)) => s matches PRes::Parsed(y, m) && v(x) == y && n == m,
        Err(ParseError::Backtrack) => s is Back,
        Err(ParseError::Cut(c)) => s matches PRes::Cut(d) && c == d,
    }
}

/// A value read from `p` ends within the `len` tokens.
pub open spec fn fits<A>(r: Res<A>, p: int, len: int) -> bool {
    r matches Ok((_, n)) ==> p + n <= len
}

/// Whether the token is a newline.
fn is_newline(tok: &Token) -> (r: bool)
    ensures
        r == (tok@ == SpecToken::NewLine),
{
    match tok {
        Token::NewLine => true,
        _ => false,
    }
}

/// The position after the newlines from `p`.
pub fn ws0(t: &Vec<Token>, p: usize) -> (r: usize)
    requires
        p <= t.len(),
    ensures
        r as int == spec::ws0(tokens_view(t@), p as int),
        p <= r <= t.len(),
{
    let ghost s = tokens_view(t@);
    let mut q = p;
    while q < t.len() && is_newline(&t[q])
        invariant
            s == tokens_view(t@),
            p <= q <= t@.len(),
            spec::ws0(s, p as int) == spec::ws0(s, q as int),
        decreases t@.len() - q,
    {
        assert(s[q as int] == t@[q as int]@);
        q = q + 1;
    }
    if q < t.len() {
        assert(s[q as int] == t@[q as int]@);
    }
    q
}

/// Whether the token at `p` is the keyword `word`.
pub fn keyword_at(t: &Vec<Token>, p: usize, word: &str) -> (r: bool)
    ensures
        r ==> p < t.len(),
        r == spec::at(tokens_view(t@), p as int, spec::kw(word@)),
{
    if p < t.len() {
        assert(tokens_view(t@)[p as int] == t@[p as int]@);
        match &t[p] {
            Token::Keyword(k) => super::ops::str_is(k.as_str(), word),
            _ => false,
        }
    } else {
        false
    }
}

/// Whether the token at `p` is the operation `op`.
pub fn operation_at(t: &Vec<Token>, p: usize, op: &str) -> (r: bool)
    ensures
        r ==> p < t.len(),
        r == spec::at(tokens_view(t@), p as int, SpecToken::Operation(op@)),
{
    if p < t.len() {
        assert(tokens_view(t@)[p as int] == t@[p as int]@);
        match &t[p] {
            Token::Operation(o) => super::ops::str_is(o.as_str(), op),
            _ => false,
        }
    } else {
        false
    }
}

/// Whether the token at `p` is the delimiter `c` (closing if `closing`).
pub fn delim_at(t: &Vec<Token>, p: usize, c: char, closing: bool) -> (r: bool)
    ensures
        r ==> p < t.len(),
        r == spec::at(tokens_view(t@), p as int, SpecToken::BlockDelimeter(c, closing)),
{
    if p < t.len() {
        assert(tokens_view(t@)[p as int] == t@[p as int]@);
        match &t[p] {
            Token::BlockDelimeter(d, b) => *d == c && *b == closing,
            _ => false,
        }
    } else {
        false
    }
}

/// The punctuation and string markers that carry no value.
pub enum Mark {
    Comma,
    Colon,
    StringStart,
    StringEnd,
    ExprStart,
    ExprEnd,
}

/// The token a mark stands for.
pub open spec fn mark_token(m: Mark) -> SpecToken {
    match m {
        Mark::Comma => SpecToken::Comma,
        Mark::Colon => SpecToken::Colon,
        Mark::StringStart => SpecToken::StringStart,
        Mark::StringEnd => SpecToken::StringEnd,
        Mark::ExprStart => SpecToken::ExprStart,
        Mark::ExprEnd => SpecToken::ExprEnd,
    }
}

/// Whether the token at `p` is the mark `m`.
pub fn mark_at(t: &Vec<Token>, p: usize, m: Mark) -> (r: bool)
    ensures
        r ==> p < t.len(),
        r == spec::at(tokens_view(t@), p as int, mark_token(m)),
{
    if p < t.len() {
        assert(tokens_view(t@)[p as int] == t@[p as int]@);
        match (&t[p], m) {
            (Token::Comma, Mark::Comma) => true,
            (Token::Colon, Mark::Colon) => true,
            (Token::StringStart, Mark::StringStart) => true,
            (Token::StringEnd, Mark::StringEnd) => true,
            (Token::ExprStart, Mark::ExprStart) => true,
            (Token::ExprEnd, Mark::ExprEnd) => true,
            _ => false,
        }
    } else {
        false
    }
}

/// The binary operator a token writes.
pub fn binary_operator(tok: &Token) -> (r: Option<BinOp>)
    ensures
        r == spec::binop_of_token(tok@),
{
    match tok {
        Token::Operation(op) => match BinOp::try_from(op.as_str()) {
            Ok(b) => Some(b),
            Err(_) => None,
        },
        _ => None,
    }
}

/// The unary operator a token writes.
pub fn unary_operator(tok: &Token) -> (r: Option<UnaryOp>)
    ensures
        r == spec::unop_of_token(tok@),
{
    match tok {
        Token::Operation(op) => match UnaryOp::try_from(op.as_str()) {
            Ok(u) => Some(u),
            Err(_) => None,
        },
        _ => None,
    }
}

/// The binding power of a prefix operator.
pub fn prefix_power_of(op: UnaryOp) -> (r: u8)
    ensures
        r as int == spec::prefix_power(op),
{
    match op {
        UnaryOp::Plus | UnaryOp::Minus => 15,
        UnaryOp::Not => 7,
        UnaryOp::Write | UnaryOp::Print => 2,
    }
}

/// The binding powers of an infix operator, and whether it does not associate.
pub fn infix_info_of(op: BinOp) -> (r: Option<(u8, u8, bool)>)
    ensures
        match r {
            Some((l, rp, n)) => spec::infix_info(op) == Some((l as int, rp as int, n)),
            None => spec::infix_info(op) is None,
        },
{
    match op {
        BinOp::DotAccess => Some((21, 20, false)),
        BinOp::Pow => Some((17, 16, false)),
        BinOp::IntDiv | BinOp::Mod | BinOp::Mult | BinOp::Div => Some((13, 14, false)),
        BinOp::Plus | BinOp::Minus => Some((11, 12, false)),
        BinOp::Equal | BinOp::NotEqual | BinOp::Greater | BinOp::GreaterOrEqual | BinOp::Less
        | BinOp::LessOrEqual => Some((9, 10, true)),
        BinOp::And => Some((5, 6, false)),
        BinOp::Or => Some((3, 4, false)),
        BinOp::VarAssignment | BinOp::ConstAssignment => Some((0, 1, false)),
        BinOp::Index | BinOp::Call => None,
    }
}


/// The view of an expression, as a function.
pub open spec fn view_expr() -> spec_fn(Expr) -> SpecExpr {
    |e: Expr| expr_view(e)
}

/// The view of a sequence of expressions, as a function.
pub open spec fn view_exprs() -> spec_fn(Vec<Expr>) -> Seq<SpecExpr> {
    |v: Vec<Expr>| exprs_view(v@)
}

/// The view of a statement, as a function.
pub open spec fn view_stmt() -> spec_fn(Stmt) -> SpecStmt {
    |x: Stmt| stmt_view(x)
}

/// The view of a block of statements, as a function.
pub open spec fn view_stmts() -> spec_fn(Vec<Stmt>) -> Seq<SpecStmt> {
    |v: Vec<Stmt>| stmts_view(v@)
}

/// The view of a string part, as a function.
pub open spec fn view_part() -> spec_fn(StringPart) -> SpecStringPart {
    |x: StringPart| part_view(x)
}

/// The view of the parts of a string, as a function.
pub open spec fn view_parts() -> spec_fn(Vec<StringPart>) -> Seq<SpecStringPart> {
    |v: Vec<StringPart>| parts_view(v@)
}

/// An optional expression's view.
pub open spec fn opt_expr_view(o: Option<Expr>) -> Option<SpecExpr> {
    match o {
        Some(e) => Some(expr_view(e)),
        None => None,
    }
}

/// A clause of a ranged `para`, as an executable value.
pub type Clause = (Expr, Expr, Expr, Option<Expr>);

/// The view of a clause, as a function.
pub open spec fn view_clause() -> spec_fn(Clause) -> ForClause {
    |c: Clause| (expr_view(c.0), expr_view(c.1), expr_view(c.2), opt_expr_view(c.3))
}

/// The view of `senaose` branches.
pub open spec fn eifs_view(s: Seq<(Expr, Vec<Stmt>)>) -> Seq<(SpecExpr, Seq<SpecStmt>)> {
    s.map_values(|x: (Expr, Vec<Stmt>)| (expr_view(x.0), stmts_view(x.1@)))
}

/// The view of `senaose` branches, as a function.
pub open spec fn view_eifs() -> spec_fn(Vec<(Expr, Vec<Stmt>)>) -> Seq<(SpecExpr, Seq<SpecStmt>)> {
    |v: Vec<(Expr, Vec<Stmt>)>| eifs_view(v@)
}

/// The view of nothing, as a function.
pub open spec fn view_unit() -> spec_fn(()) -> () {
    |u: ()| ()
}

/// An outcome with its value dropped.
pub open spec fn forget<T>(r: PRes<T>) -> PRes<()> {
    match r {
        PRes::Parsed(_, n) => PRes::Parsed((), n),
        PRes::Back => PRes::Back,
        PRes::Cut(c) => PRes::Cut(c),
    }
}

/// An optional binding power as an integer.
pub open spec fn opt_int(o: Option<u8>) -> Option<int> {
    match o {
        Some(x) => Some(x as int),
        None => None,
    }
}

/// Whether the outcome is a backtrack.
fn is_back<A>(r: &Res<A>) -> (b: bool)
    ensures
        b == (*r matches Err(ParseError::Backtrack)),
{
    match r {
        Err(ParseError::Backtrack) => true,
        _ => false,
    }
}

/// `x` followed by `xs`.
fn prepend_expr(x: Expr, xs: Vec<Expr>) -> (v: Vec<Expr>)
    ensures
        exprs_view(v@) == seq![expr_view(x)] + exprs_view(xs@),
{
    let mut xs = xs;
    let mut v = Vec::new();
    v.push(x);
    let ghost a = v@;
    let ghost b = xs@;
    v.append(&mut xs);
    proof {
        assert(a =~= seq![x]);
        lemma_exprs_view_add(a, b);
        lemma_exprs_view_one(x);
    }
    v
}

/// `x` followed by `xs`.
fn prepend_part(x: StringPart, xs: Vec<StringPart>) -> (v: Vec<StringPart>)
    ensures
        parts_view(v@) == seq![part_view(x)] + parts_view(xs@),
{
    let mut xs = xs;
    let mut v = Vec::new();
    v.push(x);
    let ghost a = v@;
    let ghost b = xs@;
    v.append(&mut xs);
    proof {
        assert(a =~= seq![x]);
        lemma_parts_view_add(a, b);
        lemma_parts_view_one(x);
    }
    v
}

/// `x` followed by `xs`.
fn prepend_eif(x: (Expr, Vec<Stmt>), xs: Vec<(Expr, Vec<Stmt>)>) -> (v: Vec<(Expr, Vec<Stmt>)>)
    ensures
        eifs_view(v@) == seq![(expr_view(x.0), stmts_view(x.1@))] + eifs_view(xs@),
{
    let ghost xv = (expr_view(x.0), stmts_view(x.1@));
    let ghost b = xs@;
    let mut xs = xs;
    let mut v = Vec::new();
    v.push(x);
    v.append(&mut xs);
    assert(eifs_view(v@) =~= seq![xv] + eifs_view(b));
    v
}

/// The one-statement block `[x]`.
fn one_stmt(x: Stmt) -> (v: Vec<Stmt>)
    ensures
        stmts_view(v@) == seq![stmt_view(x)],
{
    let mut v = Vec::new();
    v.push(x);
    proof {
        assert(v@ =~= seq![x]);
        lemma_stmts_view_one(x);
    }
    v
}

/// Folding the last `senaose` branch into the `senao` block first gives the
/// same block.
proof fn lemma_desugar_last(eifs: Seq<(SpecExpr, Seq<SpecStmt>)>, eb: Seq<SpecStmt>)
    requires
        eifs.len() > 0,
    ensures
        spec::desugar_elseifs(eifs, eb) == spec::desugar_elseifs(
            eifs.drop_last(),
            seq![
                SpecStmt::ExprStmt(
                    SpecExpr::Ternary {
                        cond: Box::new(eifs.last().0),
                        if_true: eifs.last().1,
                        if_false: eb,
                    },
                ),
            ],
        ),
    decreases eifs.len(),
{
    let x = seq![
        SpecStmt::ExprStmt(
            SpecExpr::Ternary {
                cond: Box::new(eifs.last().0),
                if_true: eifs.last().1,
                if_false: eb,
            },
        ),
    ];
    if eifs.len() > 1 {
        let df = eifs.drop_first();
        let dl = eifs.drop_last();
        lemma_desugar_last(df, eb);
        assert(df.drop_last() =~= dl.drop_first());
        assert(df.last() == eifs.last());
        assert(dl[0] == eifs[0]);
        assert(spec::desugar_elseifs(df, eb) == spec::desugar_elseifs(dl.drop_first(), x));
        assert(spec::desugar_elseifs(dl, x) == seq![
            SpecStmt::ExprStmt(
                SpecExpr::Ternary {
                    cond: Box::new(eifs[0].0),
                    if_true: eifs[0].1,
                    if_false: spec::desugar_elseifs(dl.drop_first(), x),
                },
            ),
        ]);
    } else {
        assert(eifs.last() == eifs[0]);
        assert(spec::desugar_elseifs(eifs.drop_first(), eb) == eb);
        assert(spec::desugar_elseifs(eifs.drop_last(), x) == x);
        assert(eifs.drop_first() =~= Seq::<(SpecExpr, Seq<SpecStmt>)>::empty());
        assert(eifs.drop_last() =~= Seq::<(SpecExpr, Seq<SpecStmt>)>::empty());
    }
}

/// The `senao` block with the `senaose` branches folded in.
fn desugar_elseifs(eifs: Vec<(Expr, Vec<Stmt>)>, else_block: Vec<Stmt>) -> (r: Vec<Stmt>)
    ensures
        stmts_view(r@) == spec::desugar_elseifs(eifs_view(eifs@), stmts_view(else_block@)),
{
    let ghost total = spec::desugar_elseifs(eifs_view(eifs@), stmts_view(else_block@));
    let mut eifs = eifs;
    let mut block = else_block;
    while eifs.len() > 0
        invariant
            total == spec::desugar_elseifs(eifs_view(eifs@), stmts_view(block@)),
        decreases eifs@.len(),
    {
        let ghost before = eifs@;
        let (cond, then_block) = eifs.pop().unwrap();
        proof {
            lemma_desugar_last(eifs_view(before), stmts_view(block@));
            assert(eifs_view(before).drop_last() =~= eifs_view(eifs@));
            assert(eifs_view(before).last() == (expr_view(cond), stmts_view(then_block@)));
        }
        block = one_stmt(
            Stmt::ExprStmt(
                Expr::Ternary { cond: Box::new(cond), if_true: then_block, if_false: block },
            ),
        );
    }
    assert(eifs_view(eifs@) =~= Seq::<(SpecExpr, Seq<SpecStmt>)>::empty());
    block
}

/// Whether the expression is a binary one with the operator `op`.
fn is_binop(e: &Expr, op: BinOp) -> (r: bool)
    ensures
        r == spec::is_binop(expr_view(*e), op),
{
    match e {
        Expr::Binary { op: o, .. } => *o == op,
        _ => false,
    }
}

/// Whether the token writes the index operator.
fn is_index(tok: &Token) -> (r: bool)
    ensures
        r == (spec::binop_of_token(tok@) == Some(BinOp::Index)),
{
    match binary_operator(tok) {
        Some(BinOp::Index) => true,
        _ => false,
    }
}

/// An identifier token, read as an identifier expression.
fn identifier(t: &Vec<Token>, p: usize) -> (r: Res<Expr>)
    ensures
        agrees(r, spec::identifier_at(tokens_view(t@), p as int), view_expr()),
        fits(r, p as int, t.len() as int),
{
    if p < t.len() {
        assert(tokens_view(t@)[p as int] == t@[p as int]@);
        match &t[p] {
            Token::Identifier(name) => Ok((Expr::Identifier(name.clone()), 1)),
            _ => Err(ParseError::Backtrack),
        }
    } else {
        Err(ParseError::Backtrack)
    }
}

/// A type token, read as an identifier expression.
fn ptype(t: &Vec<Token>, p: usize) -> (r: Res<Expr>)
    ensures
        agrees(r, spec::ptype_at(tokens_view(t@), p as int), view_expr()),
        fits(r, p as int, t.len() as int),
{
    if p < t.len() {
        assert(tokens_view(t@)[p as int] == t@[p as int]@);
        match &t[p] {
            Token::Type(name) => Ok((Expr::Identifier(name.clone()), 1)),
            _ => Err(ParseError::Backtrack),
        }
    } else {
        Err(ParseError::Backtrack)
    }
}

/// A parameter or return type.
fn type_name_of(t: &Vec<Token>, p: usize) -> (r: Res<Expr>)
    ensures
        agrees(r, spec::type_name_at(tokens_view(t@), p as int), view_expr()),
        fits(r, p as int, t.len() as int),
{
    let r = identifier(t, p);
    if is_back(&r) {
        ptype(t, p)
    } else {
        r
    }
}

/// A literal token.
fn literal(t: &Vec<Token>, p: usize) -> (r: Res<Expr>)
    ensures
        agrees(r, spec::literal_at(tokens_view(t@), p as int), view_expr()),
        fits(r, p as int, t.len() as int),
{
    if p < t.len() {
        assert(tokens_view(t@)[p as int] == t@[p as int]@);
        match &t[p] {
            Token::Boolean(b) => Ok((Expr::Literal(Value::Boolean(*b)), 1)),
            Token::Integer(n) => Ok((Expr::Literal(Value::Integer(*n)), 1)),
            Token::Float(f) => Ok((Expr::Literal(Value::Float(f.clone())), 1)),
            Token::Character(c) => Ok((Expr::Literal(Value::Character(*c)), 1)),
            _ => Err(ParseError::Backtrack),
        }
    } else {
        Err(ParseError::Backtrack)
    }
}

/// `name: type` parameters from `q0`, as long as one can be read, and the
/// number of tokens they take.
fn params(t: &Vec<Token>, q0: usize) -> (r: (Vec<(Expr, Expr)>, usize))
    requires
        q0 <= t.len(),
    ensures
        pairs_view(r.0@) == spec::params(tokens_view(t@), q0 as int),
        r.1 == 3 * spec::params(tokens_view(t@), q0 as int).len(),
        q0 + r.1 <= t.len(),
{
    let ghost s = tokens_view(t@);
    let mut acc: Vec<(Expr, Expr)> = Vec::new();
    let mut q = q0;
    loop
        invariant
            s == tokens_view(t@),
            q0 <= q <= t@.len(),
            q == q0 + 3 * acc@.len(),
            pairs_view(acc@) + spec::params(s, q as int) == spec::params(s, q0 as int),
        ensures
            q0 <= q <= t@.len(),
            q == q0 + 3 * acc@.len(),
            pairs_view(acc@) == spec::params(s, q0 as int),
        decreases t@.len() - q,
    {
        let name = match identifier(t, q) {
            Ok((e, _)) => e,
            Err(_) => {
                assert(pairs_view(acc@) + spec::params(s, q as int) =~= pairs_view(acc@));
                break ;
            },
        };
        if !mark_at(t, q + 1, Mark::Colon) {
            assert(pairs_view(acc@) + spec::params(s, q as int) =~= pairs_view(acc@));
            break ;
        }
        let ty = match type_name_of(t, q + 2) {
            Ok((e, _)) => e,
            Err(_) => {
                assert(pairs_view(acc@) + spec::params(s, q as int) =~= pairs_view(acc@));
                break ;
            },
        };
        let ghost before = acc@;
        let ghost item = (expr_view(name), expr_view(ty));
        acc.push((name, ty));
        proof {
            assert(acc@.drop_last() =~= before);
            assert(spec::params(s, q as int) == seq![item] + spec::params(s, q + 3));
            assert(pairs_view(acc@) + spec::params(s, q + 3) =~= pairs_view(before) + spec::params(
                s,
                q as int,
            ));
        }
        q = q + 3;
    }
    proof {
        lemma_pairs_view_len(acc@);
    }
    (acc, q - q0)
}

/// An expression that binds no weaker than `min`.
pub fn expr_prec(t: &Vec<Token>, p: usize, min: u8) -> (r: Res<Expr>)
    requires
        p <= t.len(),
    ensures
        agrees(r, spec::expr_prec(tokens_view(t@), p as int, min as int), view_expr()),
        fits(r, p as int, t.len() as int),
    decreases t@.len() - p, 8int,
{
    match operand(t, p) {
        Ok((e, n)) => match expr_loop(t, p + n, e, min, None) {
            Ok((e2, m)) => Ok((e2, n + m)),
            Err(x) => Err(x),
        },
        Err(ParseError::Cut(c)) => Err(ParseError::Cut(c)),
        Err(ParseError::Backtrack) => {
            let p1 = ws0(t, p);
            if p1 < t.len() {
                assert(tokens_view(t@)[p1 as int] == t@[p1 as int]@);
                match unary_operator(&t[p1]) {
                    Some(op) => {
                        let p2 = ws0(t, p1 + 1);
                        match expr_prec(t, p2, prefix_power_of(op)) {
                            Ok((e, n)) => {
                                let u = Expr::Unary { op, expr: Box::new(e) };
                                match expr_loop(t, p2 + n, u, min, None) {
                                    Ok((e2, m)) => Ok((e2, p2 - p + n + m)),
                                    Err(x) => Err(x),
                                }
                            },
                            Err(x) => Err(x),
                        }
                    },
                    None => Err(ParseError::Backtrack),
                }
            } else {
                Err(ParseError::Backtrack)
            }
        },
    }
}

/// The postfix and infix operators that follow `lhs`, read from `q`.
pub fn expr_loop(t: &Vec<Token>, q: usize, lhs: Expr, min: u8, prev_neither: Option<u8>) -> (r:
    Res<Expr>)
    requires
        q <= t.len(),
    ensures
        agrees(
            r,
            spec::expr_loop(
                tokens_view(t@),
                q as int,
                expr_view(lhs),
                min as int,
                opt_int(prev_neither),
            ),
            view_expr(),
        ),
        fits(r, q as int, t.len() as int),
    decreases t@.len() - q, 7int,
{
    if q >= t.len() {
        return Ok((lhs, 0));
    }
    let q1 = ws0(t, q);
    if q1 < t.len() && is_index(&t[q1]) {
        assert(tokens_view(t@)[q1 as int] == t@[q1 as int]@);
        if min > 19 {
            return Ok((lhs, 0));
        }
        let q2 = ws0(t, q1 + 1);
        match expr_prec(t, q2, 0) {
            Ok((idx, n)) => {
                let q3 = ws0(t, q2 + n);
                if delim_at(t, q3, ']', true) {
                    let q4 = ws0(t, q3 + 1);
                    let e = Expr::Binary { lhs: Box::new(lhs), op: BinOp::Index, rhs: Box::new(idx) };
                    match expr_loop(t, q4, e, min, prev_neither) {
                        Ok((e2, m)) => Ok((e2, q4 - q + m)),
                        Err(x) => Err(x),
                    }
                } else {
                    Err(ParseError::Cut(q3))
                }
            },
            Err(x) => Err(x),
        }
    } else {
        assert(q1 < t.len() ==> tokens_view(t@)[q1 as int] == t@[q1 as int]@);
        assert(tokens_view(t@)[q as int] == t@[q as int]@);
        match binary_operator(&t[q]) {
            Some(op) => match infix_info_of(op) {
                Some((lp, rp, neither)) => {
                    let blocked = match prev_neither {
                        Some(pn) => pn == lp,
                        None => false,
                    };
                    if lp < min || blocked {
                        Ok((lhs, 0))
                    } else {
                        match expr_prec(t, q + 1, rp) {
                            Ok((rhs, n)) => {
                                let e = Expr::Binary { lhs: Box::new(lhs), op, rhs: Box::new(rhs) };
                                let next = if neither {
                                    Some(lp)
                                } else {
                                    None
                                };
                                match expr_loop(t, q + 1 + n, e, min, next) {
                                    Ok((e2, m)) => Ok((e2, 1 + n + m)),
                                    Err(x) => Err(x),
                                }
                            },
                            Err(x) => Err(x),
                        }
                    }
                },
                None => Ok((lhs, 0)),
            },
            None => Ok((lhs, 0)),
        }
    }
}

/// An operand: a parenthesised expression or tuple, an identifier, a literal,
/// a string, `se`, `enquanto`, `para` or a list.
pub fn operand(t: &Vec<Token>, p: usize) -> (r: Res<Expr>)
    requires
        p <= t.len(),
    ensures
        agrees(r, spec::operand(tokens_view(t@), p as int), view_expr()),
        fits(r, p as int, t.len() as int),
    decreases t@.len() - p, 6int,
{
    let p1 = ws0(t, p);
    if p1 >= t.len() {
        return Err(ParseError::Backtrack);
    }
    if delim_at(t, p1, '(', false) {
        match tuple(t, p1) {
            Err(ParseError::Backtrack) => match expr_prec(t, p1 + 1, 0) {
                Ok((e, n)) => if delim_at(t, p1 + 1 + n, ')', true) {
                    Ok((e, p1 - p + n + 2))
                } else {
                    Err(ParseError::Cut(p1 + 1 + n))
                },
                Err(x) => Err(x),
            },
            Ok((e, n)) => Ok((e, p1 - p + n)),
            Err(ParseError::Cut(c)) => Err(ParseError::Cut(c)),
        }
    } else {
        let mut r = identifier(t, p1);
        if is_back(&r) {
            r = literal(t, p1);
        }
        if is_back(&r) {
            r = string(t, p1);
        }
        if is_back(&r) {
            r = if_expr(t, p1);
        }
        if is_back(&r) {
            r = while_expr(t, p1);
        }
        if is_back(&r) {
            r = for_expr(t, p1);
        }
        if is_back(&r) {
            r = list(t, p1);
        }
        match r {
            Ok((e, n)) => Ok((e, p1 - p + n)),
            Err(x) => Err(x),
        }
    }
}

/// A string: its parts between `StringStart` and `StringEnd`.
pub fn string(t: &Vec<Token>, p: usize) -> (r: Res<Expr>)
    requires
        p <= t.len(),
    ensures
        agrees(r, spec::string(tokens_view(t@), p as int), view_expr()),
        fits(r, p as int, t.len() as int),
    decreases t@.len() - p, 3int,
{
    if mark_at(t, p, Mark::StringStart) {
        match string_parts(t, p + 1) {
            Ok((ps, n)) => if mark_at(t, p + 1 + n, Mark::StringEnd) {
                Ok((Expr::String(ps), n + 2))
            } else {
                Err(ParseError::Backtrack)
            },
            Err(x) => Err(x),
        }
    } else {
        Err(ParseError::Backtrack)
    }
}

/// The parts of a string from `q`, as long as one can be read.
pub fn string_parts(t: &Vec<Token>, q: usize) -> (r: Res<Vec<StringPart>>)
    requires
        q <= t.len(),
    ensures
        agrees(r, spec::string_parts(tokens_view(t@), q as int), view_parts()),
        fits(r, q as int, t.len() as int),
    decreases t@.len() - q, 2int,
{
    match string_part(t, q) {
        Ok((x, n)) => if n == 0 {
            Err(ParseError::Cut(q))
        } else {
            match string_parts(t, q + n) {
                Ok((xs, m)) => Ok((prepend_part(x, xs), n + m)),
                Err(e) => Err(e),
            }
        },
        Err(ParseError::Backtrack) => {
            let v: Vec<StringPart> = Vec::new();
            assert(parts_view(v@) =~= Seq::<SpecStringPart>::empty());
            Ok((v, 0))
        },
        Err(ParseError::Cut(c)) => Err(ParseError::Cut(c)),
    }
}

/// A fragment of text, or an expression between `ExprStart` and `ExprEnd`.
pub fn string_part(t: &Vec<Token>, q: usize) -> (r: Res<StringPart>)
    requires
        q <= t.len(),
    ensures
        agrees(r, spec::string_part(tokens_view(t@), q as int), view_part()),
        fits(r, q as int, t.len() as int),
    decreases t@.len() - q, 1int,
{
    if q < t.len() {
        assert(tokens_view(t@)[q as int] == t@[q as int]@);
        match &t[q] {
            Token::StringFragment(f) => {
                return Ok((StringPart::Fragment(f.clone()), 1));
            },
            _ => {},
        }
    }
    if mark_at(t, q, Mark::ExprStart) {
        match expr_prec(t, q + 1, 0) {
            Ok((e, n)) => if mark_at(t, q + 1 + n, Mark::ExprEnd) {
                Ok((StringPart::Expr(e), n + 2))
            } else {
                Err(ParseError::Backtrack)
            },
            Err(x) => Err(x),
        }
    } else {
        Err(ParseError::Backtrack)
    }
}

/// `se c entao .. [senaose c entao ..]* [senao ..] fim`; `senão` and
/// `senãose` may stand for `senao` and `senaose`.
pub fn if_expr(t: &Vec<Token>, p: usize) -> (r: Res<Expr>)
    requires
        p <= t.len(),
    ensures
        agrees(r, spec::if_expr(tokens_view(t@), p as int), view_expr()),
        fits(r, p as int, t.len() as int),
    decreases t@.len() - p, 3int,
{
    if !keyword_at(t, p, "se") {
        return Err(ParseError::Backtrack);
    }
    let (cond, n1) = match expr_prec(t, p + 1, 0) {
        Ok(v) => v,
        Err(x) => {
            return Err(x);
        },
    };
    let q1 = p + 1 + n1;
    if !keyword_at(t, q1, "entao") {
        return Err(ParseError::Backtrack);
    }
    let (then_block, n2) = match parse_stmts(t, q1 + 1) {
        Ok(v) => v,
        Err(x) => {
            return Err(x);
        },
    };
    let q2 = q1 + 1 + n2;
    let (eifs, n3) = match elseifs(t, q2) {
        Ok(v) => v,
        Err(x) => {
            return Err(x);
        },
    };
    let q3 = q2 + n3;
    if keyword_at(t, q3, "senao") || keyword_at(t, q3, "senão") {
        let (eb, n4) = match parse_stmts(t, q3 + 1) {
            Ok(v) => v,
            Err(x) => {
                return Err(x);
            },
        };
        let q4 = q3 + 1 + n4;
        if keyword_at(t, q4, "fim") {
            let if_false = desugar_elseifs(eifs, eb);
            Ok((Expr::Ternary { cond: Box::new(cond), if_true: then_block, if_false }, q4 + 1 - p))
        } else {
            Err(ParseError::Backtrack)
        }
    } else if keyword_at(t, q3, "fim") {
        let empty: Vec<Stmt> = Vec::new();
        assert(stmts_view(empty@) =~= Seq::<SpecStmt>::empty());
        let if_false = desugar_elseifs(eifs, empty);
        Ok((Expr::Ternary { cond: Box::new(cond), if_true: then_block, if_false }, q3 + 1 - p))
    } else {
        Err(ParseError::Backtrack)
    }
}

/// `senaose c entao ..` branches, as long as one can be read.
pub fn elseifs(t: &Vec<Token>, q: usize) -> (r: Res<Vec<(Expr, Vec<Stmt>)>>)
    requires
        q <= t.len(),
    ensures
        agrees(r, spec::elseifs(tokens_view(t@), q as int), view_eifs()),
        fits(r, q as int, t.len() as int),
    decreases t@.len() - q, 2int,
{
    let none: Vec<(Expr, Vec<Stmt>)> = Vec::new();
    assert(eifs_view(none@) =~= Seq::<(SpecExpr, Seq<SpecStmt>)>::empty());
    if !(keyword_at(t, q, "senaose") || keyword_at(t, q, "senãose")) {
        return Ok((none, 0));
    }
    match expr_prec(t, q + 1, 0) {
        Ok((c, n1)) => {
            let r1 = q + 1 + n1;
            if keyword_at(t, r1, "entao") {
                match parse_stmts(t, r1 + 1) {
                    Ok((b, n2)) => {
                        let r2 = r1 + 1 + n2;
                        match elseifs(t, r2) {
                            Ok((rest, m)) => Ok((prepend_eif((c, b), rest), r2 - q + m)),
                            Err(x) => Err(x),
                        }
                    },
                    Err(ParseError::Cut(cc)) => Err(ParseError::Cut(cc)),
                    Err(ParseError::Backtrack) => Ok((none, 0)),
                }
            } else {
                Ok((none, 0))
            }
        },
        Err(ParseError::Cut(cc)) => Err(ParseError::Cut(cc)),
        Err(ParseError::Backtrack) => Ok((none, 0)),
    }
}

/// `enquanto c faça .. fim`.
pub fn while_expr(t: &Vec<Token>, p: usize) -> (r: Res<Expr>)
    requires
        p <= t.len(),
    ensures
        agrees(r, spec::while_expr(tokens_view(t@), p as int), view_expr()),
        fits(r, p as int, t.len() as int),
    decreases t@.len() - p, 3int,
{
    if !keyword_at(t, p, "enquanto") {
        return Err(ParseError::Backtrack);
    }
    let (cond, n1) = match expr_prec(t, p + 1, 0) {
        Ok(v) => v,
        Err(x) => {
            return Err(x);
        },
    };
    let q1 = p + 1 + n1;
    if !keyword_at(t, q1, "faça") {
        return Err(ParseError::Backtrack);
    }
    let (body, n2) = match parse_stmts(t, q1 + 1) {
        Ok(v) => v,
        Err(x) => {
            return Err(x);
        },
    };
    let q2 = q1 + 1 + n2;
    if keyword_at(t, q2, "fim") {
        Ok((Expr::While { cond: Box::new(cond), stmts: body }, q2 + 1 - p))
    } else {
        Err(ParseError::Backtrack)
    }
}

/// A ranged `para`, or else one over a collection.
pub fn for_expr(t: &Vec<Token>, p: usize) -> (r: Res<Expr>)
    requires
        p <= t.len(),
    ensures
        agrees(r, spec::for_expr(tokens_view(t@), p as int), view_expr()),
        fits(r, p as int, t.len() as int),
    decreases t@.len() - p, 5int,
{
    let r = range_for(t, p);
    if is_back(&r) {
        iter_for(t, p)
    } else {
        r
    }
}

/// `para x de a até b [passo s], .. faça .. fim`, with the first clause and
/// the body.
#[verifier::rlimit(50)]
pub fn range_for(t: &Vec<Token>, p: usize) -> (r: Res<Expr>)
    requires
        p <= t.len(),
    ensures
        agrees(r, spec::range_for(tokens_view(t@), p as int), view_expr()),
        fits(r, p as int, t.len() as int),
    decreases t@.len() - p, 4int,
{
    if !keyword_at(t, p, "para") {
        return Err(ParseError::Backtrack);
    }
    let (first, n1) = match for_clause(t, p + 1) {
        Ok(v) => v,
        Err(x) => {
            return Err(x);
        },
    };
    let n2 = match for_clauses(t, p + 1 + n1) {
        Ok((_, n)) => n,
        Err(x) => {
            return Err(x);
        },
    };
    let q2 = p + 1 + n1 + n2;
    if !keyword_at(t, q2, "faça") {
        return Err(ParseError::Backtrack);
    }
    let (body, n3) = match parse_stmts(t, q2 + 1) {
        Ok(v) => v,
        Err(x) => {
            return Err(x);
        },
    };
    let q3 = q2 + 1 + n3;
    if !keyword_at(t, q3, "fim") {
        return Err(ParseError::Backtrack);
    }
    let (control, start, end, step) = first;
    let step = match step {
        Some(x) => Some(Box::new(x)),
        None => None,
    };
    Ok(
        (
            Expr::RangeFor {
                control: Box::new(control),
                start: Box::new(start),
                end: Box::new(end),
                step,
                stmts: body,
            },
            q3 + 1 - p,
        ),
    )
}

/// `x de a até b [passo s]`.
pub fn for_clause(t: &Vec<Token>, q: usize) -> (r: Res<Clause>)
    requires
        q <= t.len(),
    ensures
        agrees(r, spec::for_clause(tokens_view(t@), q as int), view_clause()),
        fits(r, q as int, t.len() as int),
    decreases t@.len() - q, 1int,
{
    let control = match identifier(t, q) {
        Ok((c, _)) => c,
        Err(_) => {
            return Err(ParseError::Backtrack);
        },
    };
    if !keyword_at(t, q + 1, "de") {
        return Err(ParseError::Backtrack);
    }
    let (start, n1) = match expr_prec(t, q + 2, 0) {
        Ok(v) => v,
        Err(x) => {
            return Err(x);
        },
    };
    let q1 = q + 2 + n1;
    if !keyword_at(t, q1, "até") {
        return Err(ParseError::Backtrack);
    }
    let (end, n2) = match expr_prec(t, q1 + 1, 0) {
        Ok(v) => v,
        Err(x) => {
            return Err(x);
        },
    };
    let q2 = q1 + 1 + n2;
    if keyword_at(t, q2, "passo") {
        match expr_prec(t, q2 + 1, 0) {
            Ok((step, n3)) => Ok(((control, start, end, Some(step)), q2 + 1 + n3 - q)),
            Err(ParseError::Cut(c)) => Err(ParseError::Cut(c)),
            Err(ParseError::Backtrack) => Ok(((control, start, end, None), q2 - q)),
        }
    } else {
        Ok(((control, start, end, None), q2 - q))
    }
}

/// `, clause` repeated, as long as one can be read; only the number of
/// tokens is kept.
pub fn for_clauses(t: &Vec<Token>, r: usize) -> (res: Res<()>)
    requires
        r <= t.len(),
    ensures
        agrees(res, forget(spec::for_clauses(tokens_view(t@), r as int)), view_unit()),
        fits(res, r as int, t.len() as int),
    decreases t@.len() - r, 2int,
{
    if !mark_at(t, r, Mark::Comma) {
        return Ok(((), 0));
    }
    match for_clause(t, r + 1) {
        Ok((_, n)) => match for_clauses(t, r + 1 + n) {
            Ok((_, m)) => Ok(((), 1 + n + m)),
            Err(x) => Err(x),
        },
        Err(ParseError::Cut(c)) => Err(ParseError::Cut(c)),
        Err(ParseError::Backtrack) => Ok(((), 0)),
    }
}

/// `para x em e faça .. fim`.
pub fn iter_for(t: &Vec<Token>, p: usize) -> (r: Res<Expr>)
    requires
        p <= t.len(),
    ensures
        agrees(r, spec::iter_for(tokens_view(t@), p as int), view_expr()),
        fits(r, p as int, t.len() as int),
    decreases t@.len() - p, 4int,
{
    if !keyword_at(t, p, "para") {
        return Err(ParseError::Backtrack);
    }
    let control = match identifier(t, p + 1) {
        Ok((c, _)) => c,
        Err(_) => {
            return Err(ParseError::Backtrack);
        },
    };
    if !keyword_at(t, p + 2, "em") {
        return Err(ParseError::Backtrack);
    }
    let (iterator, n1) = match expr_prec(t, p + 3, 0) {
        Ok(v) => v,
        Err(x) => {
            return Err(x);
        },
    };
    let q1 = p + 3 + n1;
    if !keyword_at(t, q1, "faça") {
        return Err(ParseError::Backtrack);
    }
    let (body, n2) = match parse_stmts(t, q1 + 1) {
        Ok(v) => v,
        Err(x) => {
            return Err(x);
        },
    };
    let q2 = q1 + 1 + n2;
    if keyword_at(t, q2, "fim") {
        Ok(
            (
                Expr::IterFor {
                    control: Box::new(control),
                    iterator: Box::new(iterator),
                    stmts: body,
                },
                q2 + 1 - p,
            ),
        )
    } else {
        Err(ParseError::Backtrack)
    }
}

/// Expressions after a first one, each after a comma, as long as one can be
/// read.
pub fn comma_exprs(t: &Vec<Token>, r: usize) -> (res: Res<Vec<Expr>>)
    requires
        r <= t.len(),
    ensures
        agrees(res, spec::comma_exprs(tokens_view(t@), r as int), view_exprs()),
        fits(res, r as int, t.len() as int),
    decreases t@.len() - r, 2int,
{
    let none: Vec<Expr> = Vec::new();
    assert(exprs_view(none@) =~= Seq::<SpecExpr>::empty());
    let r1 = ws0(t, r);
    if !mark_at(t, r1, Mark::Comma) {
        return Ok((none, 0));
    }
    let r2 = ws0(t, r1 + 1);
    match expr_prec(t, r2, 0) {
        Ok((e, n)) => match comma_exprs(t, r2 + n) {
            Ok((rest, m)) => Ok((prepend_expr(e, rest), r2 + n - r + m)),
            Err(x) => Err(x),
        },
        Err(ParseError::Cut(c)) => Err(ParseError::Cut(c)),
        Err(ParseError::Backtrack) => Ok((none, 0)),
    }
}

/// `( e , [e, ..] )`: at least one comma.
pub fn tuple(t: &Vec<Token>, p: usize) -> (r: Res<Expr>)
    requires
        p <= t.len(),
    ensures
        agrees(r, spec::tuple(tokens_view(t@), p as int), view_expr()),
        fits(r, p as int, t.len() as int),
    decreases t@.len() - p, 3int,
{
    if !delim_at(t, p, '(', false) {
        return Err(ParseError::Backtrack);
    }
    let (first, n1) = match expr_prec(t, p + 1, 0) {
        Ok(v) => v,
        Err(x) => {
            return Err(x);
        },
    };
    let q1 = ws0(t, p + 1 + n1);
    if !mark_at(t, q1, Mark::Comma) {
        return Err(ParseError::Backtrack);
    }
    let q2 = ws0(t, q1 + 1);
    let (items, m): (Vec<Expr>, usize) = match expr_prec(t, q2, 0) {
        Ok((e, n)) => match comma_exprs(t, q2 + n) {
            Ok((es, k)) => (prepend_expr(e, es), n + k),
            Err(x) => {
                return Err(x);
            },
        },
        Err(ParseError::Cut(c)) => {
            return Err(ParseError::Cut(c));
        },
        Err(ParseError::Backtrack) => {
            let v: Vec<Expr> = Vec::new();
            assert(exprs_view(v@) =~= Seq::<SpecExpr>::empty());
            (v, 0)
        },
    };
    let q3 = ws0(t, q2 + m);
    if delim_at(t, q3, ')', true) {
        Ok((Expr::Tuple(prepend_expr(first, items)), q3 + 1 - p))
    } else {
        Err(ParseError::Cut(q3))
    }
}

/// `[ e, .. ]`.
pub fn list(t: &Vec<Token>, p: usize) -> (r: Res<Expr>)
    requires
        p <= t.len(),
    ensures
        agrees(r, spec::list(tokens_view(t@), p as int), view_expr()),
        fits(r, p as int, t.len() as int),
    decreases t@.len() - p, 3int,
{
    if !delim_at(t, p, '[', false) {
        return Err(ParseError::Backtrack);
    }
    let (items, m): (Vec<Expr>, usize) = match expr_prec(t, p + 1, 0) {
        Ok((e, n)) => match comma_exprs(t, p + 1 + n) {
            Ok((es, k)) => (prepend_expr(e, es), n + k),
            Err(x) => {
                return Err(x);
            },
        },
        Err(ParseError::Cut(c)) => {
            return Err(ParseError::Cut(c));
        },
        Err(ParseError::Backtrack) => {
            let v: Vec<Expr> = Vec::new();
            assert(exprs_view(v@) =~= Seq::<SpecExpr>::empty());
            (v, 0)
        },
    };
    let q = ws0(t, p + 1 + m);
    if delim_at(t, q, ']', true) {
        Ok((Expr::List(items), q + 1 - p))
    } else {
        Err(ParseError::Cut(q))
    }
}

/// A statement: `var` assignment, constant assignment, function declaration
/// or expression, tried in that order.
pub fn stmt(t: &Vec<Token>, p: usize) -> (r: Res<Stmt>)
    requires
        p <= t.len(),
    ensures
        agrees(r, spec::stmt(tokens_view(t@), p as int), view_stmt()),
        fits(r, p as int, t.len() as int),
    decreases t@.len() - p, 11int,
{
    let as_var: Res<Stmt> = if keyword_at(t, p, "var") {
        match expr_prec(t, p + 1, 0) {
            Ok((e, n)) => if is_binop(&e, BinOp::VarAssignment) {
                Ok((Stmt::VarAssignment(e), n + 1))
            } else {
                Err(ParseError::Backtrack)
            },
            Err(x) => Err(x),
        }
    } else {
        Err(ParseError::Backtrack)
    };
    if !is_back(&as_var) {
        return as_var;
    }
    match expr_prec(t, p, 0) {
        Ok((e, n)) => if is_binop(&e, BinOp::ConstAssignment) {
            Ok((Stmt::ConstAssignment(e), n))
        } else {
            let f = function(t, p);
            if is_back(&f) {
                Ok((Stmt::ExprStmt(e), n))
            } else {
                f
            }
        },
        Err(ParseError::Cut(c)) => Err(ParseError::Cut(c)),
        Err(ParseError::Backtrack) => function(t, p),
    }
}

/// `name(params) [: type] = e` or `name(params) [: type] .. fim`.
#[verifier::rlimit(100)]
pub fn function(t: &Vec<Token>, p: usize) -> (r: Res<Stmt>)
    requires
        p <= t.len(),
    ensures
        agrees(r, spec::function(tokens_view(t@), p as int), view_stmt()),
        fits(r, p as int, t.len() as int),
    decreases t@.len() - p, 10int,
{
    let named = match identifier(t, p) {
        Ok(_) => true,
        Err(_) => false,
    };
    if !named || !delim_at(t, p + 1, '(', false) {
        return Err(ParseError::Backtrack);
    }
    let (ps, k) = params(t, p + 2);
    let q = p + 2 + k;
    if !delim_at(t, q, ')', true) {
        return Err(ParseError::Cut(q));
    }
    let q1 = q + 1;
    let mut ret: Option<Expr> = None;
    let mut q2 = q1;
    if mark_at(t, q1, Mark::Colon) {
        match type_name_of(t, q1 + 1) {
            Ok((e, _)) => {
                ret = Some(e);
                q2 = q1 + 2;
            },
            Err(_) => {},
        }
    }
    let inline: Res<Vec<Stmt>> = if operation_at(t, q2, "=") {
        match expr_prec(t, q2 + 1, 0) {
            Ok((e, n)) => Ok((one_stmt(Stmt::ExprStmt(e)), n + 1)),
            Err(x) => Err(x),
        }
    } else {
        Err(ParseError::Backtrack)
    };
    let body = if is_back(&inline) {
        function_body(t, q2)
    } else {
        inline
    };
    match body {
        Ok((b, n)) => Ok(
            (
                Stmt::FunctionDeclaration { variables: ps, return_type: ret, body: b },
                q2 + n - p,
            ),
        ),
        Err(x) => Err(x),
    }
}

/// Statements ended by `fim`, newlines allowed before both.
pub fn function_body(t: &Vec<Token>, q: usize) -> (r: Res<Vec<Stmt>>)
    requires
        q <= t.len(),
    ensures
        agrees(r, spec::function_body(tokens_view(t@), q as int), view_stmts()),
        fits(r, q as int, t.len() as int),
    decreases t@.len() - q, 13int,
{
    let q1 = ws0(t, q);
    match parse_stmts(t, q1) {
        Ok((b, n)) => {
            let q2 = ws0(t, q1 + n);
            if keyword_at(t, q2, "fim") {
                Ok((b, q2 + 1 - q))
            } else {
                Err(ParseError::Cut(q2))
            }
        },
        Err(x) => Err(x),
    }
}

/// The outcome `total` of reading a sequence, once `done` has been read in
/// `k` tokens and `rest` is what reading on gives.
pub open spec fn read_on<A>(total: PRes<Seq<A>>, done: Seq<A>, k: nat, rest: PRes<Seq<A>>) -> bool {
    match rest {
        PRes::Parsed(xs, m) => total == PRes::Parsed(done + xs, k + m),
        PRes::Cut(c) => total == PRes::<Seq<A>>::Cut(c),
        PRes::Back => total == PRes::<Seq<A>>::Back,
    }
}

/// One more statement read keeps `read_on`.
proof fn lemma_read_on_step(
    total: PRes<Seq<SpecStmt>>,
    done: Seq<SpecStmt>,
    k: nat,
    s: Seq<SpecToken>,
    q: int,
    sv: SpecStmt,
    n: nat,
)
    requires
        0 <= q <= s.len(),
        read_on(total, done, k, spec::parse_stmts(s, q)),
        spec::stmt(s, spec::ws0(s, q)) == PRes::Parsed(sv, n),
        spec::ws0(s, spec::ws0(s, q) + n) != q,
        spec::ws0(s, spec::ws0(s, q) + n) >= q,
    ensures
        read_on(
            total,
            done.push(sv),
            (k + spec::ws0(s, spec::ws0(s, q) + n) - q) as nat,
            spec::parse_stmts(s, spec::ws0(s, spec::ws0(s, q) + n)),
        ),
{
    let q2 = spec::ws0(s, spec::ws0(s, q) + n);
    match spec::parse_stmts(s, q2) {
        PRes::Parsed(ss, m) => {
            assert(done + (seq![sv] + ss) =~= done.push(sv) + ss);
        },
        _ => {},
    }
}

/// Statements, each with newlines around it, as long as one can be read.
pub fn parse_stmts(t: &Vec<Token>, q0: usize) -> (r: Res<Vec<Stmt>>)
    requires
        q0 <= t.len(),
    ensures
        agrees(r, spec::parse_stmts(tokens_view(t@), q0 as int), view_stmts()),
        fits(r, q0 as int, t.len() as int),
        r matches Err(e) ==> e is Cut,
    decreases t@.len() - q0, 12int,
{
    let ghost s = tokens_view(t@);
    let ghost total = spec::parse_stmts(s, q0 as int);
    let mut acc: Vec<Stmt> = Vec::new();
    let mut q = q0;
    assert(Seq::<SpecStmt>::empty() + stmts_view(acc@) =~= stmts_view(acc@));
    proof {
        match total {
            PRes::Parsed(xs, m) => {
                assert(stmts_view(acc@) + xs =~= xs);
            },
            _ => {},
        }
    }
    loop
        invariant
            s == tokens_view(t@),
            total == spec::parse_stmts(s, q0 as int),
            q0 <= q <= t@.len(),
            read_on(total, stmts_view(acc@), (q - q0) as nat, spec::parse_stmts(s, q as int)),
        decreases t@.len() - q,
    {
        let q1 = ws0(t, q);
        match stmt(t, q1) {
            Ok((st, n)) => {
                let q2 = ws0(t, q1 + n);
                if q2 == q {
                    return Err(ParseError::Cut(q));
                }
                let ghost before = acc@;
                let ghost sv = stmt_view(st);
                acc.push(st);
                proof {
                    assert(acc@.drop_last() =~= before);
                    lemma_read_on_step(total, stmts_view(before), (q - q0) as nat, s, q as int, sv, n as nat);
                }
                q = q2;
            },
            Err(ParseError::Backtrack) => {
                assert(stmts_view(acc@) + Seq::<SpecStmt>::empty() =~= stmts_view(acc@));
                return Ok((acc, q - q0));
            },
            Err(ParseError::Cut(c)) => {
                return Err(ParseError::Cut(c));
            },
        }
    }
}

} // verus!
