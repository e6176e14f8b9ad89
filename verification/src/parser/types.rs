use vstd::prelude::*;

verus! {

/// A literal value. A float keeps the text it was written with.
#[derive(Clone, Debug)]
pub enum Value {
    Integer(i64),
    Float(String),
    Boolean(bool),
    Character(char),
}

/// An expression of the syntax tree.
#[derive(Debug)]
pub enum Expr {
    Literal(Value),
    String(Vec<StringPart>),
    Identifier(String),
    Binary { lhs: Box<Expr>, op: BinOp, rhs: Box<Expr> },
    Unary { op: UnaryOp, expr: Box<Expr> },
    Ternary { cond: Box<Expr>, if_true: Vec<Stmt>, if_false: Vec<Stmt> },
    While { cond: Box<Expr>, stmts: Vec<Stmt> },
    RangeFor {
        control: Box<Expr>,
        start: Box<Expr>,
        end: Box<Expr>,
        step: Option<Box<Expr>>,
        stmts: Vec<Stmt>,
    },
    IterFor { control: Box<Expr>, iterator: Box<Expr>, stmts: Vec<Stmt> },
    Call(String, Vec<Expr>),
    Lambda(Vec<String>, Box<Expr>),  // argument names, expression
    List(Vec<Expr>),
    Tuple(Vec<Expr>),
}

/// A statement.
#[derive(Debug)]
pub enum Stmt {
    ConstAssignment(Expr),
    VarAssignment(Expr),
    ExprStmt(Expr),
    FunctionDeclaration { variables: Vec<(Expr, Expr)>, return_type: Option<Expr>, body: Vec<Stmt> },
}

/// A binary operator.
#[derive(Clone, Copy, Debug, PartialEq, Eq, Structural)]
pub enum BinOp {
    ConstAssignment,
    VarAssignment,
    Plus,
    Minus,
    Mult,
    Div,
    IntDiv,
    Mod,
    Pow,
    And,
    Or,
    DotAccess,
    Equal,
    NotEqual,
    Greater,
    GreaterOrEqual,
    Less,
    LessOrEqual,
    Index,
    Call,
}

/// A unary operator.
#[derive(Clone, Copy, Debug, PartialEq, Eq, Structural)]
pub enum UnaryOp {
    Plus,
    Minus,
    Not,
    Write,
    Print,
}

/// A part of a string literal: text, or an interpolated expression.
#[derive(Debug)]
pub enum StringPart {
    Fragment(String),
    Expr(Expr),
}

/// The mathematical value of a [`Value`].
pub enum SpecValue {
    Integer(i64),
    Float(Seq<char>),
    Boolean(bool),
    Character(char),
}

/// The mathematical value of an [`Expr`].
pub enum SpecExpr {
    Literal(SpecValue),
    String(Seq<SpecStringPart>),
    Identifier(Seq<char>),
    Binary { lhs: Box<SpecExpr>, op: BinOp, rhs: Box<SpecExpr> },
    Unary { op: UnaryOp, expr: Box<SpecExpr> },
    Ternary { cond: Box<SpecExpr>, if_true: Seq<SpecStmt>, if_false: Seq<SpecStmt> },
    While { cond: Box<SpecExpr>, stmts: Seq<SpecStmt> },
    RangeFor {
        control: Box<SpecExpr>,
        start: Box<SpecExpr>,
        end: Box<SpecExpr>,
        step: Option<Box<SpecExpr>>,
        stmts: Seq<SpecStmt>,
    },
    IterFor { control: Box<SpecExpr>, iterator: Box<SpecExpr>, stmts: Seq<SpecStmt> },
    Call(Seq<char>, Seq<SpecExpr>),
    Lambda(Seq<Seq<char>>, Box<SpecExpr>),
    List(Seq<SpecExpr>),
    Tuple(Seq<SpecExpr>),
}

/// The mathematical value of a [`Stmt`].
pub enum SpecStmt {
    ConstAssignment(SpecExpr),
    VarAssignment(SpecExpr),
    ExprStmt(SpecExpr),
    FunctionDeclaration {
        variables: Seq<(SpecExpr, SpecExpr)>,
        return_type: Option<SpecExpr>,
        body: Seq<SpecStmt>,
    },
}

/// The mathematical value of a [`StringPart`].
pub enum SpecStringPart {
    Fragment(Seq<char>),
    Expr(SpecExpr),
}

/// The value of a literal.
pub open spec fn value_view(v: Value) -> SpecValue {
    match v {
        Value::Integer(n) => SpecValue::Integer(n),
        Value::Float(s) => SpecValue::Float(s@),
        Value::Boolean(b) => SpecValue::Boolean(b),
        Value::Character(c) => SpecValue::Character(c),
    }
}

/// The value of an expression.
pub open spec fn expr_view(e: Expr) -> SpecExpr
    decreases e,
{
    match e {
        Expr::Literal(v) => SpecExpr::Literal(value_view(v)),
        Expr::String(parts) => SpecExpr::String(parts_view(parts@)),
        Expr::Identifier(s) => SpecExpr::Identifier(s@),
        Expr::Binary { lhs, op, rhs } => SpecExpr::Binary {
            lhs: Box::new(expr_view(*lhs)),
            op,
            rhs: Box::new(expr_view(*rhs)),
        },
        Expr::Unary { op, expr } => SpecExpr::Unary { op, expr: Box::new(expr_view(*expr)) },
        Expr::Ternary { cond, if_true, if_false } => SpecExpr::Ternary {
            cond: Box::new(expr_view(*cond)),
            if_true: stmts_view(if_true@),
            if_false: stmts_view(if_false@),
        },
        Expr::While { cond, stmts } => SpecExpr::While {
            cond: Box::new(expr_view(*cond)),
            stmts: stmts_view(stmts@),
        },
        Expr::RangeFor { control, start, end, step, stmts } => SpecExpr::RangeFor {
            control: Box::new(expr_view(*control)),
            start: Box::new(expr_view(*start)),
            end: Box::new(expr_view(*end)),
            step: match step {
                Some(st) => Some(Box::new(expr_view(*st))),
                None => None,
            },
            stmts: stmts_view(stmts@),
        },
        Expr::IterFor { control, iterator, stmts } => SpecExpr::IterFor {
            control: Box::new(expr_view(*control)),
            iterator: Box::new(expr_view(*iterator)),
            stmts: stmts_view(stmts@),
        },
        Expr::Call(name, args) => SpecExpr::Call(name@, exprs_view(args@)),
        Expr::Lambda(names, body) => SpecExpr::Lambda(
            names@.map_values(|n: String| n@),
            Box::new(expr_view(*body)),
        ),
        Expr::List(items) => SpecExpr::List(exprs_view(items@)),
        Expr::Tuple(items) => SpecExpr::Tuple(exprs_view(items@)),
    }
}

/// The values of a sequence of expressions.
pub open spec fn exprs_view(es: Seq<Expr>) -> Seq<SpecExpr>
    decreases es,
{
    if es.len() == 0 {
        Seq::empty()
    } else {
        exprs_view(es.drop_last()).push(expr_view(es.last()))
    }
}

/// The value of a statement.
pub open spec fn stmt_view(s: Stmt) -> SpecStmt
    decreases s,
{
    match s {
        Stmt::ConstAssignment(e) => SpecStmt::ConstAssignment(expr_view(e)),
        Stmt::VarAssignment(e) => SpecStmt::VarAssignment(expr_view(e)),
        Stmt::ExprStmt(e) => SpecStmt::ExprStmt(expr_view(e)),
        Stmt::FunctionDeclaration { variables, return_type, body } => SpecStmt::FunctionDeclaration {
            variables: pairs_view(variables@),
            return_type: match return_type {
                Some(r) => Some(expr_view(r)),
                None => None,
            },
            body: stmts_view(body@),
        },
    }
}

/// The values of a sequence of statements.
pub open spec fn stmts_view(ss: Seq<Stmt>) -> Seq<SpecStmt>
    decreases ss,
{
    if ss.len() == 0 {
        Seq::empty()
    } else {
        stmts_view(ss.drop_last()).push(stmt_view(ss.last()))
    }
}

/// The values of a sequence of pairs of expressions.
pub open spec fn pairs_view(ps: Seq<(Expr, Expr)>) -> Seq<(SpecExpr, SpecExpr)>
    decreases ps,
{
    if ps.len() == 0 {
        Seq::empty()
    } else {
        pairs_view(ps.drop_last()).push((expr_view(ps.last().0), expr_view(ps.last().1)))
    }
}

/// The value of a string part.
pub open spec fn part_view(p: StringPart) -> SpecStringPart
    decreases p,
{
    match p {
        StringPart::Fragment(s) => SpecStringPart::Fragment(s@),
        StringPart::Expr(e) => SpecStringPart::Expr(expr_view(e)),
    }
}

/// The values of a sequence of string parts.
pub open spec fn parts_view(ps: Seq<StringPart>) -> Seq<SpecStringPart>
    decreases ps,
{
    if ps.len() == 0 {
        Seq::empty()
    } else {
        parts_view(ps.drop_last()).push(part_view(ps.last()))
    }
}

/// The view of a concatenation is the concatenation of the views.
pub proof fn lemma_exprs_view_add(a: Seq<Expr>, b: Seq<Expr>)
    ensures
        exprs_view(a + b) == exprs_view(a) + exprs_view(b),
    decreases b.len(),
{
    if b.len() == 0 {
        assert(a + b =~= a);
        assert(exprs_view(a) + exprs_view(b) =~= exprs_view(a));
    } else {
        lemma_exprs_view_add(a, b.drop_last());
        assert((a + b).drop_last() =~= a + b.drop_last());
        assert(exprs_view(a) + exprs_view(b) =~= (exprs_view(a) + exprs_view(b.drop_last())).push(
            expr_view(b.last()),
        ));
    }
}

/// The view of one expression.
pub proof fn lemma_exprs_view_one(x: Expr)
    ensures
        exprs_view(seq![x]) == seq![expr_view(x)],
{
    assert(seq![x].drop_last() =~= Seq::<Expr>::empty());
    reveal_with_fuel(exprs_view, 2);
    assert(Seq::<SpecExpr>::empty().push(expr_view(x)) =~= seq![expr_view(x)]);
}

/// The view of one statement.
pub proof fn lemma_stmts_view_one(x: Stmt)
    ensures
        stmts_view(seq![x]) == seq![stmt_view(x)],
{
    assert(seq![x].drop_last() =~= Seq::<Stmt>::empty());
    reveal_with_fuel(stmts_view, 2);
    assert(Seq::<SpecStmt>::empty().push(stmt_view(x)) =~= seq![stmt_view(x)]);
}

/// The view of a concatenation is the concatenation of the views.
pub proof fn lemma_parts_view_add(a: Seq<StringPart>, b: Seq<StringPart>)
    ensures
        parts_view(a + b) == parts_view(a) + parts_view(b),
    decreases b.len(),
{
    if b.len() == 0 {
        assert(a + b =~= a);
        assert(parts_view(a) + parts_view(b) =~= parts_view(a));
    } else {
        lemma_parts_view_add(a, b.drop_last());
        assert((a + b).drop_last() =~= a + b.drop_last());
        assert(parts_view(a) + parts_view(b) =~= (parts_view(a) + parts_view(b.drop_last())).push(
            part_view(b.last()),
        ));
    }
}

/// The view of one string part.
pub proof fn lemma_parts_view_one(x: StringPart)
    ensures
        parts_view(seq![x]) == seq![part_view(x)],
{
    assert(seq![x].drop_last() =~= Seq::<StringPart>::empty());
    reveal_with_fuel(parts_view, 2);
    assert(Seq::<SpecStringPart>::empty().push(part_view(x)) =~= seq![part_view(x)]);
}

/// The view keeps the number of pairs.
pub proof fn lemma_pairs_view_len(s: Seq<(Expr, Expr)>)
    ensures
        pairs_view(s).len() == s.len(),
    decreases s.len(),
{
    if s.len() > 0 {
        lemma_pairs_view_len(s.drop_last());
    }
}

/// A copy of a literal.
pub fn copy_value(v: &Value) -> (r: Value)
    ensures
        value_view(r) == value_view(*v),
{
    match v {
        Value::Integer(n) => Value::Integer(*n),
        Value::Float(s) => Value::Float(s.clone()),
        Value::Boolean(b) => Value::Boolean(*b),
        Value::Character(c) => Value::Character(*c),
    }
}

/// A copy of the names.
fn copy_names(names: &Vec<String>) -> (r: Vec<String>)
    ensures
        r@.map_values(|n: String| n@) == names@.map_values(|n: String| n@),
{
    let mut r: Vec<String> = Vec::new();
    let mut i: usize = 0;
    while i < names.len()
        invariant
            i <= names@.len(),
            r@.len() == i,
            forall|j: int| 0 <= j < i ==> (#[trigger] r@[j])@ == names@[j]@,
        decreases names@.len() - i,
    {
        r.push(names[i].clone());
        i = i + 1;
    }
    assert(r@.map_values(|n: String| n@) =~= names@.map_values(|n: String| n@));
    r
}

/// A copy of an expression.
pub fn copy_expr(e: &Expr) -> (r: Expr)
    ensures
        expr_view(r) == expr_view(*e),
    decreases e, 0nat,
{
    match e {
        Expr::Literal(v) => Expr::Literal(copy_value(v)),
        Expr::String(parts) => Expr::String(copy_parts(parts)),
        Expr::Identifier(s) => Expr::Identifier(s.clone()),
        Expr::Binary { lhs, op, rhs } => Expr::Binary {
            lhs: Box::new(copy_expr(lhs)),
            op: *op,
            rhs: Box::new(copy_expr(rhs)),
        },
        Expr::Unary { op, expr } => Expr::Unary { op: *op, expr: Box::new(copy_expr(expr)) },
        Expr::Ternary { cond, if_true, if_false } => Expr::Ternary {
            cond: Box::new(copy_expr(cond)),
            if_true: copy_stmts(if_true),
            if_false: copy_stmts(if_false),
        },
        Expr::While { cond, stmts } => Expr::While {
            cond: Box::new(copy_expr(cond)),
            stmts: copy_stmts(stmts),
        },
        Expr::RangeFor { control, start, end, step, stmts } => Expr::RangeFor {
            control: Box::new(copy_expr(control)),
            start: Box::new(copy_expr(start)),
            end: Box::new(copy_expr(end)),
            step: match step {
                Some(st) => Some(Box::new(copy_expr(st))),
                None => None,
            },
            stmts: copy_stmts(stmts),
        },
        Expr::IterFor { control, iterator, stmts } => Expr::IterFor {
            control: Box::new(copy_expr(control)),
            iterator: Box::new(copy_expr(iterator)),
            stmts: copy_stmts(stmts),
        },
        Expr::Call(name, args) => Expr::Call(name.clone(), copy_exprs(args)),
        Expr::Lambda(names, body) => Expr::Lambda(copy_names(names), Box::new(copy_expr(body))),
        Expr::List(items) => Expr::List(copy_exprs(items)),
        Expr::Tuple(items) => Expr::Tuple(copy_exprs(items)),
    }
}

/// A copy of a sequence of expressions.
pub fn copy_exprs(es: &Vec<Expr>) -> (r: Vec<Expr>)
    ensures
        exprs_view(r@) == exprs_view(es@),
    decreases es, 1nat,
{
    let mut r: Vec<Expr> = Vec::new();
    let mut i: usize = 0;
    while i < es.len()
        invariant
            i <= es@.len(),
            exprs_view(r@) == exprs_view(es@.take(i as int)),
        decreases es@.len() - i,
    {
        assert(decreases_to!(es => es@[i as int]));
        let x = copy_expr(&es[i]);
        let ghost before = r@;
        r.push(x);
        proof {
            assert(r@.drop_last() =~= before);
            assert(es@.take(i + 1).drop_last() =~= es@.take(i as int));
        }
        i = i + 1;
    }
    assert(es@.take(i as int) =~= es@);
    r
}

/// A copy of a block of statements.
pub fn copy_stmts(ss: &Vec<Stmt>) -> (r: Vec<Stmt>)
    ensures
        stmts_view(r@) == stmts_view(ss@),
    decreases ss, 1nat,
{
    let mut r: Vec<Stmt> = Vec::new();
    let mut i: usize = 0;
    while i < ss.len()
        invariant
            i <= ss@.len(),
            stmts_view(r@) == stmts_view(ss@.take(i as int)),
        decreases ss@.len() - i,
    {
        assert(decreases_to!(ss => ss@[i as int]));
        let x = copy_stmt(&ss[i]);
        let ghost before = r@;
        r.push(x);
        proof {
            assert(r@.drop_last() =~= before);
            assert(ss@.take(i + 1).drop_last() =~= ss@.take(i as int));
        }
        i = i + 1;
    }
    assert(ss@.take(i as int) =~= ss@);
    r
}

/// A copy of the parts of a string.
pub fn copy_parts(ps: &Vec<StringPart>) -> (r: Vec<StringPart>)
    ensures
        parts_view(r@) == parts_view(ps@),
    decreases ps, 1nat,
{
    let mut r: Vec<StringPart> = Vec::new();
    let mut i: usize = 0;
    while i < ps.len()
        invariant
            i <= ps@.len(),
            parts_view(r@) == parts_view(ps@.take(i as int)),
        decreases ps@.len() - i,
    {
        assert(decreases_to!(ps => ps@[i as int]));
        let x = match &ps[i] {
            StringPart::Fragment(f) => StringPart::Fragment(f.clone()),
            StringPart::Expr(e) => StringPart::Expr(copy_expr(e)),
        };
        assert(part_view(x) == part_view(ps@[i as int]));
        let ghost before = r@;
        r.push(x);
        proof {
            assert(r@.drop_last() =~= before);
            assert(ps@.take(i + 1).drop_last() =~= ps@.take(i as int));
        }
        i = i + 1;
    }
    assert(ps@.take(i as int) =~= ps@);
    r
}

/// A copy of a sequence of pairs of expressions.
pub fn copy_pairs(ps: &Vec<(Expr, Expr)>) -> (r: Vec<(Expr, Expr)>)
    ensures
        pairs_view(r@) == pairs_view(ps@),
    decreases ps, 1nat,
{
    let mut r: Vec<(Expr, Expr)> = Vec::new();
    let mut i: usize = 0;
    while i < ps.len()
        invariant
            i <= ps@.len(),
            pairs_view(r@) == pairs_view(ps@.take(i as int)),
        decreases ps@.len() - i,
    {
        assert(decreases_to!(ps => ps@[i as int]));
        assert(decreases_to!(ps@[i as int] => ps@[i as int].0));
        assert(decreases_to!(ps@[i as int] => ps@[i as int].1));
        let a = copy_expr(&ps[i].0);
        let b = copy_expr(&ps[i].1);
        let ghost before = r@;
        r.push((a, b));
        proof {
            assert(r@.drop_last() =~= before);
            assert(ps@.take(i + 1).drop_last() =~= ps@.take(i as int));
        }
        i = i + 1;
    }
    assert(ps@.take(i as int) =~= ps@);
    r
}

/// A copy of a statement.
pub fn copy_stmt(s: &Stmt) -> (r: Stmt)
    ensures
        stmt_view(r) == stmt_view(*s),
    decreases s, 0nat,
{
    match s {
        Stmt::ConstAssignment(e) => Stmt::ConstAssignment(copy_expr(e)),
        Stmt::VarAssignment(e) => Stmt::VarAssignment(copy_expr(e)),
        Stmt::ExprStmt(e) => Stmt::ExprStmt(copy_expr(e)),
        Stmt::FunctionDeclaration { variables, return_type, body } => {
            let ret = match return_type {
                Some(t) => Some(copy_expr(t)),
                None => None,
            };
            Stmt::FunctionDeclaration {
                variables: copy_pairs(variables),
                return_type: ret,
                body: copy_stmts(body),
            }
        },
    }
}

impl Clone for Expr {
    fn clone(&self) -> (r: Self)
        ensures
            expr_view(r) == expr_view(*self),
    {
        copy_expr(self)
    }
}

impl Clone for Stmt {
    fn clone(&self) -> (r: Self)
        ensures
            stmt_view(r) == stmt_view(*self),
    {
        copy_stmt(self)
    }
}

impl Clone for StringPart {
    fn clone(&self) -> (r: Self)
        ensures
            part_view(r) == part_view(*self),
    {
        match self {
            StringPart::Fragment(f) => StringPart::Fragment(f.clone()),
            StringPart::Expr(e) => StringPart::Expr(copy_expr(e)),
        }
    }
}

/// The view of a sequence of expressions has one element per expression.
pub proof fn lemma_exprs_view_index(es: Seq<Expr>)
    ensures
        exprs_view(es).len() == es.len(),
        forall|i: int| 0 <= i < es.len() ==> #[trigger] exprs_view(es)[i] == expr_view(es[i]),
    decreases es.len(),
{
    if es.len() > 0 {
        lemma_exprs_view_index(es.drop_last());
    }
}

/// The view of a block has one element per statement.
pub proof fn lemma_stmts_view_index(ss: Seq<Stmt>)
    ensures
        stmts_view(ss).len() == ss.len(),
        forall|i: int| 0 <= i < ss.len() ==> #[trigger] stmts_view(ss)[i] == stmt_view(ss[i]),
    decreases ss.len(),
{
    if ss.len() > 0 {
        lemma_stmts_view_index(ss.drop_last());
    }
}

/// The view of the parts of a string has one element per part.
pub proof fn lemma_parts_view_index(ps: Seq<StringPart>)
    ensures
        parts_view(ps).len() == ps.len(),
        forall|i: int| 0 <= i < ps.len() ==> #[trigger] parts_view(ps)[i] == part_view(ps[i]),
    decreases ps.len(),
{
    if ps.len() > 0 {
        lemma_parts_view_index(ps.drop_last());
    }
}

/// The view of a sequence of pairs has one element per pair.
pub proof fn lemma_pairs_view_index(ps: Seq<(Expr, Expr)>)
    ensures
        pairs_view(ps).len() == ps.len(),
        forall|i: int|
            0 <= i < ps.len() ==> #[trigger] pairs_view(ps)[i] == (
                expr_view(ps[i].0),
                expr_view(ps[i].1),
            ),
    decreases ps.len(),
{
    if ps.len() > 0 {
        lemma_pairs_view_index(ps.drop_last());
    }
}

/// Whether two literals are the same; a float is compared by its text.
pub fn value_eq(a: &Value, b: &Value) -> (r: bool)
    ensures
        r == (value_view(*a) == value_view(*b)),
{
    match (a, b) {
        (Value::Integer(x), Value::Integer(y)) => *x == *y,
        (Value::Float(x), Value::Float(y)) => *x == *y,
        (Value::Boolean(x), Value::Boolean(y)) => *x == *y,
        (Value::Character(x), Value::Character(y)) => *x == *y,
        _ => false,
    }
}

/// Whether two lists of names are the same.
fn names_eq(a: &Vec<String>, b: &Vec<String>) -> (r: bool)
    ensures
        r == (a@.map_values(|n: String| n@) == b@.map_values(|n: String| n@)),
{
    let ghost va = a@.map_values(|n: String| n@);
    let ghost vb = b@.map_values(|n: String| n@);
    if a.len() != b.len() {
        assert(va.len() != vb.len());
        return false;
    }
    let mut i: usize = 0;
    while i < a.len()
        invariant
            a@.len() == b@.len(),
            i <= a@.len(),
            va == a@.map_values(|n: String| n@),
            vb == b@.map_values(|n: String| n@),
            forall|j: int| 0 <= j < i ==> va[j] == vb[j],
        decreases a@.len() - i,
    {
        if a[i] != b[i] {
            assert(va[i as int] != vb[i as int]);
            return false;
        }
        i = i + 1;
    }
    assert(va =~= vb);
    true
}

/// Whether two expressions are the same.
pub fn expr_eq(a: &Expr, b: &Expr) -> (r: bool)
    ensures
        r == (expr_view(*a) == expr_view(*b)),
    decreases a, 0nat,
{
    match (a, b) {
        (Expr::Literal(x), Expr::Literal(y)) => value_eq(x, y),
        (Expr::String(x), Expr::String(y)) => parts_eq(x, y),
        (Expr::Identifier(x), Expr::Identifier(y)) => *x == *y,
        (Expr::Binary { lhs: l1, op: o1, rhs: r1 }, Expr::Binary { lhs: l2, op: o2, rhs: r2 }) => {
            *o1 == *o2 && expr_eq(l1, l2) && expr_eq(r1, r2)
        },
        (Expr::Unary { op: o1, expr: e1 }, Expr::Unary { op: o2, expr: e2 }) => *o1 == *o2
            && expr_eq(e1, e2),
        (
            Expr::Ternary { cond: c1, if_true: t1, if_false: f1 },
            Expr::Ternary { cond: c2, if_true: t2, if_false: f2 },
        ) => expr_eq(c1, c2) && stmts_eq(t1, t2) && stmts_eq(f1, f2),
        (Expr::While { cond: c1, stmts: s1 }, Expr::While { cond: c2, stmts: s2 }) => expr_eq(
            c1,
            c2,
        ) && stmts_eq(s1, s2),
        (
            Expr::RangeFor { control: c1, start: a1, end: e1, step: p1, stmts: s1 },
            Expr::RangeFor { control: c2, start: a2, end: e2, step: p2, stmts: s2 },
        ) => {
            let steps = match (p1, p2) {
                (Some(x), Some(y)) => expr_eq(x, y),
                (None, None) => true,
                _ => false,
            };
            steps && expr_eq(c1, c2) && expr_eq(a1, a2) && expr_eq(e1, e2) && stmts_eq(s1, s2)
        },
        (
            Expr::IterFor { control: c1, iterator: i1, stmts: s1 },
            Expr::IterFor { control: c2, iterator: i2, stmts: s2 },
        ) => expr_eq(c1, c2) && expr_eq(i1, i2) && stmts_eq(s1, s2),
        (Expr::Call(n1, a1), Expr::Call(n2, a2)) => *n1 == *n2 && exprs_eq(a1, a2),
        (Expr::Lambda(n1, b1), Expr::Lambda(n2, b2)) => names_eq(n1, n2) && expr_eq(b1, b2),
        (Expr::List(x), Expr::List(y)) => exprs_eq(x, y),
        (Expr::Tuple(x), Expr::Tuple(y)) => exprs_eq(x, y),
        _ => false,
    }
}

/// Whether two sequences of expressions are the same.
pub fn exprs_eq(a: &Vec<Expr>, b: &Vec<Expr>) -> (r: bool)
    ensures
        r == (exprs_view(a@) == exprs_view(b@)),
    decreases a, 1nat,
{
    proof {
        lemma_exprs_view_index(a@);
        lemma_exprs_view_index(b@);
    }
    if a.len() != b.len() {
        return false;
    }
    let mut i: usize = 0;
    while i < a.len()
        invariant
            a@.len() == b@.len(),
            i <= a@.len(),
            exprs_view(a@).len() == a@.len(),
            exprs_view(b@).len() == b@.len(),
            forall|j: int| 0 <= j < a@.len() ==> #[trigger] exprs_view(a@)[j] == expr_view(a@[j]),
            forall|j: int| 0 <= j < b@.len() ==> #[trigger] exprs_view(b@)[j] == expr_view(b@[j]),
            forall|j: int| 0 <= j < i ==> exprs_view(a@)[j] == exprs_view(b@)[j],
        decreases a@.len() - i,
    {
        assert(decreases_to!(a => a@[i as int]));
        if !expr_eq(&a[i], &b[i]) {
            assert(exprs_view(a@)[i as int] != exprs_view(b@)[i as int]);
            return false;
        }
        i = i + 1;
    }
    assert(exprs_view(a@) =~= exprs_view(b@));
    true
}

/// Whether two blocks are the same.
pub fn stmts_eq(a: &Vec<Stmt>, b: &Vec<Stmt>) -> (r: bool)
    ensures
        r == (stmts_view(a@) == stmts_view(b@)),
    decreases a, 1nat,
{
    proof {
        lemma_stmts_view_index(a@);
        lemma_stmts_view_index(b@);
    }
    if a.len() != b.len() {
        return false;
    }
    let mut i: usize = 0;
    while i < a.len()
        invariant
            a@.len() == b@.len(),
            i <= a@.len(),
            stmts_view(a@).len() == a@.len(),
            stmts_view(b@).len() == b@.len(),
            forall|j: int| 0 <= j < a@.len() ==> #[trigger] stmts_view(a@)[j] == stmt_view(a@[j]),
            forall|j: int| 0 <= j < b@.len() ==> #[trigger] stmts_view(b@)[j] == stmt_view(b@[j]),
            forall|j: int| 0 <= j < i ==> stmts_view(a@)[j] == stmts_view(b@)[j],
        decreases a@.len() - i,
    {
        assert(decreases_to!(a => a@[i as int]));
        if !stmt_eq(&a[i], &b[i]) {
            assert(stmts_view(a@)[i as int] != stmts_view(b@)[i as int]);
            return false;
        }
        i = i + 1;
    }
    assert(stmts_view(a@) =~= stmts_view(b@));
    true
}

/// Whether the parts of two strings are the same.
pub fn parts_eq(a: &Vec<StringPart>, b: &Vec<StringPart>) -> (r: bool)
    ensures
        r == (parts_view(a@) == parts_view(b@)),
    decreases a, 1nat,
{
    proof {
        lemma_parts_view_index(a@);
        lemma_parts_view_index(b@);
    }
    if a.len() != b.len() {
        return false;
    }
    let mut i: usize = 0;
    while i < a.len()
        invariant
            a@.len() == b@.len(),
            i <= a@.len(),
            parts_view(a@).len() == a@.len(),
            parts_view(b@).len() == b@.len(),
            forall|j: int| 0 <= j < a@.len() ==> #[trigger] parts_view(a@)[j] == part_view(a@[j]),
            forall|j: int| 0 <= j < b@.len() ==> #[trigger] parts_view(b@)[j] == part_view(b@[j]),
            forall|j: int| 0 <= j < i ==> parts_view(a@)[j] == parts_view(b@)[j],
        decreases a@.len() - i,
    {
        assert(decreases_to!(a => a@[i as int]));
        let same = match (&a[i], &b[i]) {
            (StringPart::Fragment(x), StringPart::Fragment(y)) => *x == *y,
            (StringPart::Expr(x), StringPart::Expr(y)) => expr_eq(x, y),
            _ => false,
        };
        if !same {
            assert(parts_view(a@)[i as int] != parts_view(b@)[i as int]);
            return false;
        }
        i = i + 1;
    }
    assert(parts_view(a@) =~= parts_view(b@));
    true
}

/// Whether two sequences of pairs of expressions are the same.
pub fn pairs_eq(a: &Vec<(Expr, Expr)>, b: &Vec<(Expr, Expr)>) -> (r: bool)
    ensures
        r == (pairs_view(a@) == pairs_view(b@)),
    decreases a, 1nat,
{
    proof {
        lemma_pairs_view_index(a@);
        lemma_pairs_view_index(b@);
    }
    if a.len() != b.len() {
        return false;
    }
    let mut i: usize = 0;
    while i < a.len()
        invariant
            a@.len() == b@.len(),
            i <= a@.len(),
            pairs_view(a@).len() == a@.len(),
            pairs_view(b@).len() == b@.len(),
            forall|j: int|
                0 <= j < a@.len() ==> #[trigger] pairs_view(a@)[j] == (
                    expr_view(a@[j].0),
                    expr_view(a@[j].1),
                ),
            forall|j: int|
                0 <= j < b@.len() ==> #[trigger] pairs_view(b@)[j] == (
                    expr_view(b@[j].0),
                    expr_view(b@[j].1),
                ),
            forall|j: int| 0 <= j < i ==> pairs_view(a@)[j] == pairs_view(b@)[j],
        decreases a@.len() - i,
    {
        assert(decreases_to!(a => a@[i as int]));
        assert(decreases_to!(a@[i as int] => a@[i as int].0));
        assert(decreases_to!(a@[i as int] => a@[i as int].1));
        if !(expr_eq(&a[i].0, &b[i].0) && expr_eq(&a[i].1, &b[i].1)) {
            assert(pairs_view(a@)[i as int] != pairs_view(b@)[i as int]);
            return false;
        }
        i = i + 1;
    }
    assert(pairs_view(a@) =~= pairs_view(b@));
    true
}

/// Whether two statements are the same.
pub fn stmt_eq(a: &Stmt, b: &Stmt) -> (r: bool)
    ensures
        r == (stmt_view(*a) == stmt_view(*b)),
    decreases a, 0nat,
{
    match (a, b) {
        (Stmt::ConstAssignment(x), Stmt::ConstAssignment(y)) => expr_eq(x, y),
        (Stmt::VarAssignment(x), Stmt::VarAssignment(y)) => expr_eq(x, y),
        (Stmt::ExprStmt(x), Stmt::ExprStmt(y)) => expr_eq(x, y),
        (
            Stmt::FunctionDeclaration { variables: v1, return_type: t1, body: b1 },
            Stmt::FunctionDeclaration { variables: v2, return_type: t2, body: b2 },
        ) => {
            let types = match (t1, t2) {
                (Some(x), Some(y)) => expr_eq(x, y),
                (None, None) => true,
                _ => false,
            };
            types && pairs_eq(v1, v2) && stmts_eq(b1, b2)
        },
        _ => false,
    }
}

impl PartialEq for Value {
    fn eq(&self, other: &Self) -> (r: bool) {
        value_eq(self, other)
    }
}

impl vstd::std_specs::cmp::PartialEqSpecImpl for Value {
    open spec fn obeys_eq_spec() -> bool {
        true
    }

    open spec fn eq_spec(&self, other: &Self) -> bool {
        value_view(*self) == value_view(*other)
    }
}

impl PartialEq for Expr {
    fn eq(&self, other: &Self) -> (r: bool) {
        expr_eq(self, other)
    }
}

impl vstd::std_specs::cmp::PartialEqSpecImpl for Expr {
    open spec fn obeys_eq_spec() -> bool {
        true
    }

    open spec fn eq_spec(&self, other: &Self) -> bool {
        expr_view(*self) == expr_view(*other)
    }
}

impl PartialEq for Stmt {
    fn eq(&self, other: &Self) -> (r: bool) {
        stmt_eq(self, other)
    }
}

impl vstd::std_specs::cmp::PartialEqSpecImpl for Stmt {
    open spec fn obeys_eq_spec() -> bool {
        true
    }

    open spec fn eq_spec(&self, other: &Self) -> bool {
        stmt_view(*self) == stmt_view(*other)
    }
}

impl PartialEq for StringPart {
    fn eq(&self, other: &Self) -> (r: bool) {
        match (self, other) {
            (StringPart::Fragment(x), StringPart::Fragment(y)) => *x == *y,
            (StringPart::Expr(x), StringPart::Expr(y)) => expr_eq(x, y),
            _ => false,
        }
    }
}

impl vstd::std_specs::cmp::PartialEqSpecImpl for StringPart {
    open spec fn obeys_eq_spec() -> bool {
        true
    }

    open spec fn eq_spec(&self, other: &Self) -> bool {
        part_view(*self) == part_view(*other)
    }
}

} // verus!
