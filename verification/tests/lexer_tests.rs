use potigol_interpreter::lexer::{new_stream, tokenize, Token};

fn lex(text: &str) -> Vec<Token> {
    let mut st = new_stream(text);
    let ts = tokenize(&mut st).unwrap();
    assert!(st.is_empty());
    ts
}

fn show(ts: &[Token]) -> String {
    format!("{:?}", ts)
}

#[test]
fn lexes_assignment_with_integer() {
    let ts = lex("x = 10");
    assert_eq!(show(&ts), r#"[Identifier("x"), Operation("="), Integer(10)]"#);
}

#[test]
fn lexes_float_as_text() {
    let ts = lex("1.5e3");
    assert_eq!(show(&ts), r#"[Float("1.5e3")]"#);
}

#[test]
fn lexes_interpolated_string() {
    let ts = lex("\"a{x}b\"");
    assert_eq!(
        show(&ts),
        r#"[StringStart, StringFragment("a"), ExprStart, Identifier("x"), ExprEnd, StringFragment("b"), StringEnd]"#
    );
}

#[test]
fn keywords_end_where_a_letter_does_not_follow() {
    let ts = lex("entao elemento e se");
    assert_eq!(
        show(&ts),
        r#"[Keyword("entao"), Identifier("elemento"), Keyword("e"), Keyword("se")]"#
    );
}

#[test]
fn lexes_types_booleans_and_punctuation() {
    let ts = lex("x: Inteiro, verdadeiro.falso\n");
    assert_eq!(
        show(&ts),
        r#"[Identifier("x"), Colon, Type("Inteiro"), Comma, Boolean(true), Period, Boolean(false), NewLine]"#
    );
}

#[test]
fn minus_is_an_operator_before_a_number() {
    let ts = lex("-1");
    assert_eq!(show(&ts), r#"[Operation("-"), Integer(1)]"#);
}

#[test]
fn operators_longest_first_where_listed() {
    let ts = lex("a := b <= c <> d");
    assert_eq!(
        show(&ts),
        r#"[Identifier("a"), Operation(":="), Identifier("b"), Operation("<="), Identifier("c"), Operation("<>"), Identifier("d")]"#
    );
}

#[test]
fn identifiers_take_unicode_letters() {
    let ts = lex("ação_1");
    assert_eq!(show(&ts), r#"[Identifier("ação_1")]"#);
}

#[test]
fn unknown_characters_become_unknown_tokens() {
    let ts = lex("@ #");
    assert_eq!(show(&ts), r#"[Unknown('@'), Unknown('#')]"#);
}

#[test]
fn delimiters_say_whether_they_close() {
    let ts = lex("([{}])");
    assert_eq!(
        show(&ts),
        "[BlockDelimeter('(', false), BlockDelimeter('[', false), BlockDelimeter('{', false), \
         BlockDelimeter('}', true), BlockDelimeter(']', true), BlockDelimeter(')', true)]"
    );
}

#[test]
fn integers_and_floats() {
    let ts = lex("42 3.25 .5 7e2 1.");
    assert_eq!(
        show(&ts),
        r#"[Integer(42), Float("3.25"), Float(".5"), Float("7e2"), Float("1.")]"#
    );
}

#[test]
fn integer_too_large_for_i64_is_a_float() {
    let ts = lex("99999999999999999999");
    assert_eq!(show(&ts), r#"[Float("99999999999999999999")]"#);
}

#[test]
fn nested_interpolation() {
    let ts = lex("\"a{\"b{c}\"}\"");
    assert_eq!(
        show(&ts),
        "[StringStart, StringFragment(\"a\"), ExprStart, StringStart, StringFragment(\"b\"), \
         ExprStart, Identifier(\"c\"), ExprEnd, StringEnd, ExprEnd, StringEnd]"
    );
}

#[test]
fn unterminated_string_is_read_as_other_tokens() {
    let ts = lex("\"abc");
    assert_eq!(show(&ts), r#"[Unknown('"'), Identifier("abc")]"#);
}

#[test]
fn empty_text_gives_no_tokens() {
    assert!(lex("").is_empty());
    assert!(lex("  \t ").is_empty());
}
