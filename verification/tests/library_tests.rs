use potigol_interpreter::bytecode::Compiler;
use potigol_interpreter::interpreter::walker::types::Enviroment;
use potigol_interpreter::lexer::lexer::Trie;
use potigol_interpreter::lexer::{self, tokenize, State, Token};
use potigol_interpreter::parser::{self, new_stream, parse, BinOp, UnaryOp};

fn name(s: &str) -> String {
    s.to_string()
}

#[test]
fn new_trie_holds_only_the_empty_word() {
    let t = Trie::new();
    assert!(t.contains(""));
    assert!(!t.contains("a"));
}

#[test]
fn inserted_word_is_contained() {
    let mut t = Trie::new();
    t.insert("var");
    assert!(t.contains("var"));
    assert!(!t.contains("vax"));
    assert!(!t.contains("variavel"));
}

#[test]
fn trie_from_words_holds_each_word() {
    let t = Trie::from(vec!["ab", "ac", "b"]);
    assert!(t.contains("ab"));
    assert!(t.contains("ac"));
    assert!(t.contains("b"));
    assert!(!t.contains("ad"));
    assert!(!t.contains("c"));
}

#[test]
fn inserting_an_extension_drops_the_prefix_word() {
    let mut t = Trie::new();
    t.insert("ab");
    t.insert("abc");
    assert!(t.contains("abc"));
    assert!(!t.contains("abd"));
}

#[test]
fn keyword_trie_holds_the_keywords() {
    let t = Trie::keywords();
    for w in ["escreva", "imprima", "leia_texto", "leia_inteiro", "leia_numero", "var"] {
        assert!(t.contains(w), "{w}");
    }
    assert!(!t.contains("x"));
    assert!(!t.contains("varx"));
}

#[test]
fn lexer_state_counts_interpolations() {
    let mut s = State::default();
    assert!(!s.is_interpolating());
    s.increase_interp();
    assert!(s.is_interpolating());
    s.increase_interp();
    s.decrease_interp();
    assert!(s.is_interpolating());
    s.decrease_interp();
    assert!(!s.is_interpolating());
}

#[test]
fn binary_operators_are_read_from_text() {
    assert_eq!(BinOp::try_from("+"), Ok(BinOp::Plus));
    assert_eq!(BinOp::try_from(":="), Ok(BinOp::VarAssignment));
    assert_eq!(BinOp::try_from("div"), Ok(BinOp::IntDiv));
    assert_eq!(BinOp::try_from("<>"), Ok(BinOp::NotEqual));
    assert_eq!(BinOp::try_from("["), Ok(BinOp::Index));
    assert_eq!(BinOp::try_from("e"), Ok(BinOp::And));
    assert_eq!(BinOp::try_from("&"), Err(()));
    assert_eq!(BinOp::try_from(""), Err(()));
}

#[test]
fn unary_operators_are_read_from_text() {
    assert_eq!(UnaryOp::try_from("-"), Ok(UnaryOp::Minus));
    assert_eq!(UnaryOp::try_from("não"), Ok(UnaryOp::Not));
    assert_eq!(UnaryOp::try_from("imprima"), Ok(UnaryOp::Write));
    assert_eq!(UnaryOp::try_from("escreva"), Ok(UnaryOp::Print));
    assert_eq!(UnaryOp::try_from("!"), Err(()));
}

#[test]
fn operators_are_written_out() {
    assert_eq!(BinOp::Plus.to_string(), "+");
    assert_eq!(BinOp::IntDiv.to_string(), "div");
    assert_eq!(BinOp::And.to_string(), "&");
    assert_eq!(BinOp::Or.to_string(), "|");
    assert_eq!(BinOp::Call.to_string(), "(");
    assert_eq!(UnaryOp::Not.to_string(), "!");
    assert_eq!(UnaryOp::Print.to_string(), "escreva");
}

#[test]
fn written_operators_read_back() {
    let ops = [
        BinOp::ConstAssignment,
        BinOp::VarAssignment,
        BinOp::Plus,
        BinOp::Minus,
        BinOp::Mult,
        BinOp::Div,
        BinOp::IntDiv,
        BinOp::Mod,
        BinOp::Pow,
        BinOp::DotAccess,
        BinOp::Equal,
        BinOp::NotEqual,
        BinOp::Greater,
        BinOp::GreaterOrEqual,
        BinOp::Less,
        BinOp::LessOrEqual,
        BinOp::Index,
    ];
    for op in ops {
        assert_eq!(BinOp::try_from(op.to_string().as_str()), Ok(op));
    }
    for op in [BinOp::And, BinOp::Or, BinOp::Call] {
        assert_eq!(BinOp::try_from(op.to_string().as_str()), Err(()));
    }
    for op in [UnaryOp::Plus, UnaryOp::Minus, UnaryOp::Write, UnaryOp::Print] {
        assert_eq!(UnaryOp::try_from(op.to_string().as_str()), Ok(op));
    }
    assert_eq!(UnaryOp::try_from(UnaryOp::Not.to_string().as_str()), Err(()));
}

#[test]
fn tokens_compare_by_kind_and_text() {
    assert_eq!(Token::Identifier(name("a")), Token::Identifier(name("a")));
    assert_ne!(Token::Identifier(name("a")), Token::Identifier(name("b")));
    assert_ne!(Token::Identifier(name("a")), Token::Keyword(name("a")));
    assert!(Token::Comma.contains_token(&Token::Comma));
    assert!(!Token::BlockDelimeter('(', false).contains_token(&Token::BlockDelimeter('(', true)));
}

#[test]
fn new_stream_copies_the_tokens() {
    let ts = vec![Token::Integer(1), Token::NewLine, Token::Keyword(name("fim"))];
    let st = new_stream(&ts);
    assert_eq!(st.tokens, ts);
    assert_eq!(st.pos, 0);
    assert!(!st.is_empty());
    assert!(new_stream(&[]).is_empty());
}

#[test]
fn parse_moves_the_stream_past_what_it_read() {
    let mut ls = lexer::new_stream("x = 1\nfim");
    let ts = tokenize(&mut ls).unwrap();
    let mut st = new_stream(&ts);
    let stmts = parse(&mut st).unwrap();
    assert_eq!(stmts.len(), 1);
    assert_eq!(st.pos, 4);
    assert_eq!(st.tokens[st.pos], Token::Keyword(name("fim")));
    let _ = parser::State::default();
}

#[test]
fn empty_environment_resolves_nothing() {
    let e: Enviroment<i64> = Enviroment::empty();
    assert_eq!(e.resolve(&name("x")), None);
}

#[test]
fn set_variable_is_resolved() {
    let mut e: Enviroment<i64> = Enviroment::empty();
    e.set_var(&name("x"), 1);
    assert_eq!(e.resolve(&name("x")), Some(1));
    e.set_var(&name("x"), 2);
    assert_eq!(e.resolve(&name("x")), Some(2));
    assert_eq!(e.resolve(&name("y")), None);
}

#[test]
fn assigning_an_undeclared_variable_fails() {
    let mut e: Enviroment<i64> = Enviroment::empty();
    assert_eq!(e.assign_var(&name("y"), 3), Err(name("Undeclared variable y")));
    assert_eq!(e.resolve(&name("y")), None);
}

#[test]
fn assigning_a_declared_variable_replaces_it() {
    let mut e: Enviroment<i64> = Enviroment::empty();
    e.set_var(&name("x"), 1);
    assert_eq!(e.assign_var(&name("x"), 5), Ok(()));
    assert_eq!(e.resolve(&name("x")), Some(5));
}

#[test]
fn child_scope_sees_and_shadows_its_parent() {
    let mut e: Enviroment<i64> = Enviroment::empty();
    e.set_var(&name("x"), 1);
    let mut c = e.new_child();
    assert_eq!(c.resolve(&name("x")), Some(1));
    c.set_var(&name("x"), 2);
    assert_eq!(c.resolve(&name("x")), Some(2));
    assert_eq!(e.resolve(&name("x")), Some(1));
}

#[test]
fn child_scope_assigns_in_the_scope_that_declares() {
    let mut e: Enviroment<i64> = Enviroment::empty();
    e.set_var(&name("x"), 1);
    let mut c = e.new_child();
    assert_eq!(c.assign_var(&name("x"), 7), Ok(()));
    assert_eq!(c.resolve(&name("x")), Some(7));
    assert_eq!(c.assign_var(&name("z"), 7), Err(name("Undeclared variable z")));
    let mut g = c.new_child();
    assert_eq!(g.resolve(&name("x")), Some(7));
    g.set_var(&name("y"), 3);
    assert_eq!(g.assign_var(&name("x"), 8), Ok(()));
    assert_eq!(g.resolve(&name("x")), Some(8));
    assert_eq!(g.resolve(&name("y")), Some(3));
    assert_eq!(c.resolve(&name("y")), None);
}

#[test]
fn compiler_emits_nothing_for_statements() {
    let mut ls = lexer::new_stream("x = 1");
    let ts = tokenize(&mut ls).unwrap();
    let stmts = parse(&mut new_stream(&ts)).unwrap();
    let mut c: Compiler<u8> = Compiler::new(stmts);
    assert_eq!(c.compile(), Vec::<u8>::new());
    c.emit(3);
    c.emit(4);
    assert_eq!(c.compile(), vec![3, 4]);
}

#[test]
fn deep_interpolation_reads_back_to_level_zero() {
    let mut ls = lexer::new_stream("\"a{\"b{\"c{d}\"}\"}\"");
    let ts = tokenize(&mut ls).unwrap();
    assert!(ls.is_empty());
    assert!(!ls.state.is_interpolating());
    assert_eq!(ts.first(), Some(&Token::StringStart));
    assert_eq!(ts.iter().filter(|t| **t == Token::ExprStart).count(), 3);
    assert_eq!(ts.iter().filter(|t| **t == Token::ExprEnd).count(), 3);
}

#[test]
fn trie_built_word_by_word_holds_each_word() {
    let mut t = Trie::new();
    for w in ["casa", "carro", "bola"] {
        t.insert(w);
    }
    for w in ["casa", "carro", "bola"] {
        assert!(t.contains(w));
    }
    assert!(!t.contains("cama"));
    assert!(!t.contains("bolas"));
}
