use potigol_interpreter::lexer::{self, tokenize, Token};
use potigol_interpreter::parser::{new_stream, parse, ParseError, Stmt};

fn lex(text: &str) -> Vec<Token> {
    let mut st = lexer::new_stream(text);
    tokenize(&mut st).unwrap()
}

fn parse_text(text: &str) -> (Result<Vec<Stmt>, ParseError>, usize, usize) {
    let ts = lex(text);
    let mut st = new_stream(&ts);
    let r = parse(&mut st);
    (r, st.pos, ts.len())
}

fn show(text: &str) -> String {
    let (r, pos, len) = parse_text(text);
    assert_eq!(pos, len, "not everything was read");
    format!("{:?}", r.unwrap())
}

#[test]
fn parses_constant_assignment_with_precedence() {
    assert_eq!(
        show("x = 1 + 2 * 3"),
        "[ConstAssignment(Binary { lhs: Identifier(\"x\"), op: ConstAssignment, rhs: Binary { \
         lhs: Literal(Integer(1)), op: Plus, rhs: Binary { lhs: Literal(Integer(2)), op: Mult, \
         rhs: Literal(Integer(3)) } } })]"
    );
}

#[test]
fn parses_var_assignment() {
    assert_eq!(
        show("var y := 5"),
        "[VarAssignment(Binary { lhs: Identifier(\"y\"), op: VarAssignment, rhs: Literal(Integer(5)) })]"
    );
}

#[test]
fn subtraction_associates_to_the_left() {
    assert_eq!(
        show("a - b - c"),
        "[ExprStmt(Binary { lhs: Binary { lhs: Identifier(\"a\"), op: Minus, rhs: Identifier(\"b\") }, \
         op: Minus, rhs: Identifier(\"c\") })]"
    );
}

#[test]
fn power_associates_to_the_right() {
    assert_eq!(
        show("a ^ b ^ c"),
        "[ExprStmt(Binary { lhs: Identifier(\"a\"), op: Pow, rhs: Binary { lhs: Identifier(\"b\"), \
         op: Pow, rhs: Identifier(\"c\") } })]"
    );
}

#[test]
fn comparison_does_not_chain() {
    let (r, pos, len) = parse_text("a == b == c");
    assert_eq!(len, 5);
    assert_eq!(pos, 3);
    assert_eq!(
        format!("{:?}", r.unwrap()),
        "[ExprStmt(Binary { lhs: Identifier(\"a\"), op: Equal, rhs: Identifier(\"b\") })]"
    );
}

#[test]
fn parses_if_with_elseif_and_else() {
    assert_eq!(
        show("se a entao\n1\nsenaose b entao\n2\nsenao\n3\nfim"),
        "[ExprStmt(Ternary { cond: Identifier(\"a\"), if_true: [ExprStmt(Literal(Integer(1)))], \
         if_false: [ExprStmt(Ternary { cond: Identifier(\"b\"), if_true: [ExprStmt(Literal(Integer(2)))], \
         if_false: [ExprStmt(Literal(Integer(3)))] })] })]"
    );
}

#[test]
fn parses_if_without_else() {
    assert_eq!(
        show("se a entao\n1\nfim"),
        "[ExprStmt(Ternary { cond: Identifier(\"a\"), if_true: [ExprStmt(Literal(Integer(1)))], \
         if_false: [] })]"
    );
}

#[test]
fn parses_while() {
    assert_eq!(
        show("enquanto x < 3 faça\nx\nfim"),
        "[ExprStmt(While { cond: Binary { lhs: Identifier(\"x\"), op: Less, rhs: Literal(Integer(3)) }, \
         stmts: [ExprStmt(Identifier(\"x\"))] })]"
    );
}

#[test]
fn parses_ranged_for_with_step() {
    assert_eq!(
        show("para i de 1 até 10 passo 2 faça\ni\nfim"),
        "[ExprStmt(RangeFor { control: Identifier(\"i\"), start: Literal(Integer(1)), end: \
         Literal(Integer(10)), step: Some(Literal(Integer(2))), stmts: [ExprStmt(Identifier(\"i\"))] })]"
    );
}

#[test]
fn parses_for_over_a_list() {
    assert_eq!(
        show("para i em [1, 2] faça\ni\nfim"),
        "[ExprStmt(IterFor { control: Identifier(\"i\"), iterator: List([Literal(Integer(1)), \
         Literal(Integer(2))]), stmts: [ExprStmt(Identifier(\"i\"))] })]"
    );
}

#[test]
fn parses_tuple_and_parenthesis() {
    assert_eq!(
        show("(1, 2)"),
        "[ExprStmt(Tuple([Literal(Integer(1)), Literal(Integer(2))]))]"
    );
    assert_eq!(
        show("(a + b) * c"),
        "[ExprStmt(Binary { lhs: Binary { lhs: Identifier(\"a\"), op: Plus, rhs: Identifier(\"b\") }, \
         op: Mult, rhs: Identifier(\"c\") })]"
    );
}

#[test]
fn parses_inline_function() {
    assert_eq!(
        show("f(x: Inteiro) = x"),
        "[FunctionDeclaration { variables: [(Identifier(\"x\"), Identifier(\"Inteiro\"))], \
         return_type: None, body: [ExprStmt(Identifier(\"x\"))] }]"
    );
}

#[test]
fn parses_block_function_with_return_type() {
    assert_eq!(
        show("dobro(x: Inteiro): Inteiro\nx * 2\nfim"),
        "[FunctionDeclaration { variables: [(Identifier(\"x\"), Identifier(\"Inteiro\"))], \
         return_type: Some(Identifier(\"Inteiro\")), body: [ExprStmt(Binary { lhs: Identifier(\"x\"), \
         op: Mult, rhs: Literal(Integer(2)) })] }]"
    );
}

#[test]
fn parses_print_of_interpolated_string() {
    assert_eq!(
        show("imprima \"a{x}\""),
        "[ExprStmt(Unary { op: Write, expr: String([Fragment(\"a\"), Expr(Identifier(\"x\"))]) })]"
    );
}

#[test]
fn unclosed_parenthesis_is_cut() {
    let (r, _, len) = parse_text("(a + b");
    assert_eq!(len, 4);
    assert_eq!(format!("{:?}", r), "Err(Cut(4))");
}

#[test]
fn unclosed_list_is_cut() {
    let (r, _, _) = parse_text("[a, b");
    assert_eq!(format!("{:?}", r), "Err(Cut(4))");
}

#[test]
fn missing_fim_in_function_is_cut() {
    let (r, _, len) = parse_text("f(x: Inteiro)\nx");
    assert_eq!(format!("{:?}", r), format!("Err(Cut({}))", len));
}

#[test]
fn empty_input_gives_no_statements() {
    assert_eq!(show(""), "[]");
    let (r, pos, len) = parse_text("\n\n");
    assert_eq!(format!("{:?}", r), "Ok([])");
    assert_eq!((pos, len), (0, 2));
}

#[test]
fn several_statements_on_lines() {
    assert_eq!(
        show("a = 1\nb = 2\n"),
        "[ConstAssignment(Binary { lhs: Identifier(\"a\"), op: ConstAssignment, rhs: Literal(Integer(1)) }), \
         ConstAssignment(Binary { lhs: Identifier(\"b\"), op: ConstAssignment, rhs: Literal(Integer(2)) })]"
    );
}

#[test]
fn parses_a_program_with_every_listed_feature() {
    let program = "var total := 0\n\
                   limite = 10\n\
                   para i de 1 até limite faça\n\
                   total := total + i\n\
                   fim\n\
                   enquanto total > 100 faça\n\
                   total := total - 1\n\
                   fim\n\
                   se total == 55 entao\n\
                   imprima \"soma {total}\"\n\
                   senaose total > 55 entao\n\
                   imprima \"grande\"\n\
                   senao\n\
                   escreva verdadeiro\n\
                   fim\n";
    let (r, pos, len) = parse_text(program);
    let stmts = r.unwrap();
    assert_eq!(stmts.len(), 5);
    assert_eq!(pos, len);
}

#[test]
fn tilde_spellings_are_keywords() {
    let ts = lex("senão senãose senao senaose");
    assert_eq!(
        format!("{:?}", ts),
        r#"[Keyword("senão"), Keyword("senãose"), Keyword("senao"), Keyword("senaose")]"#
    );
}

#[test]
fn parses_if_with_tilde_spellings() {
    assert_eq!(
        show("se a entao\n1\nsenãose b entao\n2\nsenão\n3\nfim"),
        show("se a entao\n1\nsenaose b entao\n2\nsenao\n3\nfim")
    );
}
