use potigol_interpreter::lexer::{self, tokenize, Token};
use potigol_interpreter::parser::rules::{stmt, ParseError};
use potigol_interpreter::parser::{new_stream, parse, BinOp, Expr, Stmt, StringPart, UnaryOp, Value};

fn lex(text: &str) -> Vec<Token> {
    let mut st = lexer::new_stream(text);
    tokenize(&mut st).unwrap()
}

fn stmts(text: &str) -> Vec<Stmt> {
    let ts = lex(text);
    parse(&mut new_stream(&ts)).unwrap()
}

fn ident(s: &str) -> Box<Expr> {
    Box::new(Expr::Identifier(s.to_string()))
}

fn num(n: i64) -> Box<Expr> {
    Box::new(Expr::Literal(Value::Integer(n)))
}

#[test]
fn parsed_tree_equals_the_tree_built_by_hand() {
    let expected = vec![Stmt::ConstAssignment(Expr::Binary {
        lhs: ident("x"),
        op: BinOp::ConstAssignment,
        rhs: Box::new(Expr::Binary { lhs: num(1), op: BinOp::Plus, rhs: num(2) }),
    })];
    assert_eq!(stmts("x = 1 + 2"), expected);
    assert_ne!(stmts("x = 1 + 3"), expected);
    assert_ne!(stmts("x = 1 - 2"), expected);
}

#[test]
fn prefix_minus_binds_tighter_than_plus() {
    let expected = vec![Stmt::ExprStmt(Expr::Binary {
        lhs: Box::new(Expr::Unary { op: UnaryOp::Minus, expr: ident("a") }),
        op: BinOp::Plus,
        rhs: ident("b"),
    })];
    assert_eq!(stmts("-a + b"), expected);
}

#[test]
fn print_takes_the_whole_sum() {
    let expected = vec![Stmt::ExprStmt(Expr::Unary {
        op: UnaryOp::Write,
        expr: Box::new(Expr::Binary { lhs: ident("a"), op: BinOp::Plus, rhs: ident("b") }),
    })];
    assert_eq!(stmts("imprima a + b"), expected);
}

#[test]
fn clones_are_equal() {
    let tree = stmts("se a entao\nimprima \"x{a}\"\nsenao\n[1, 2]\nfim\nf(x: Inteiro) = x");
    let copy = tree.clone();
    assert_eq!(tree, copy);
    assert_eq!(tree.len(), 2);
}

#[test]
fn string_parts_compare_by_content() {
    let a = StringPart::Fragment("x".to_string());
    let b = StringPart::Fragment("x".to_string());
    let c = StringPart::Expr(Expr::Identifier("x".to_string()));
    assert_eq!(a, b);
    assert_ne!(a, c);
    assert_eq!(Value::Float("1.5".to_string()), Value::Float("1.5".to_string()));
    assert_ne!(Value::Float("1.5".to_string()), Value::Float("1.50".to_string()));
}

#[test]
fn a_statement_rule_backtracks_on_fim() {
    let ts = lex("fim");
    assert!(matches!(stmt(&ts, 0), Err(ParseError::Backtrack)));
}

#[test]
fn var_without_assignment_is_not_a_var_statement() {
    let ts = lex("var x");
    assert!(matches!(stmt(&ts, 0), Err(ParseError::Backtrack)));
}

fn first_expr(text: &str) -> Expr {
    match stmts(text).remove(0) {
        Stmt::ConstAssignment(e) | Stmt::VarAssignment(e) | Stmt::ExprStmt(e) => e,
        other => panic!("not an expression statement: {other:?}"),
    }
}

#[test]
fn operations_are_written_as_s_expressions() {
    assert_eq!(first_expr("x = 1 + 2 * 3").to_sexpr(), "(= x (+ 1 (* 2 3)))");
    assert_eq!(first_expr("-a").to_sexpr(), "(- a)");
    assert_eq!(first_expr("verdadeiro").to_sexpr(), "true");
}

#[test]
fn blocks_and_strings_are_written_in_their_debug_form() {
    assert_eq!(first_expr("se a entao\n1\nfim").to_sexpr(), "a [ExprStmt(1)] []");
    assert_eq!(
        first_expr("imprima \"a\tb{x}\"").to_sexpr(),
        "(imprima [Fragment(\"a\\tb\"), Expr(x)])"
    );
    assert_eq!(
        first_expr("para i de 1 até 10 passo 2 faça\nvar y := i\nfim").to_sexpr(),
        "i 1 10 Some(2) [VarAssignment((:= y i))]"
    );
    assert_eq!(
        first_expr("para i em xs faça\ni\nfim").to_sexpr(),
        "i xs [ExprStmt(i)]"
    );
}

#[test]
fn literals_are_written_out() {
    assert_eq!(Value::Integer(-42).to_string(), "-42");
    assert_eq!(Value::Boolean(false).to_string(), "false");
    assert_eq!(Value::Character('c').to_string(), "c");
    assert_eq!(Value::Float("2.50".to_string()).to_string(), "2.50");
}

#[test]
fn integer_extremes_are_written_in_decimal() {
    assert_eq!(Value::Integer(i64::MIN).to_string(), "-9223372036854775808");
    assert_eq!(Value::Integer(i64::MAX).to_string(), "9223372036854775807");
    assert_eq!(Value::Integer(0).to_string(), "0");
    assert_eq!(Value::Integer(1090).to_string(), "1090");
}
