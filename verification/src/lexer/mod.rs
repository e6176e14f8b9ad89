pub mod laws;
pub mod lexer;
pub mod scan;
pub mod spec;
pub mod types;

use vstd::prelude::*;

use crate::text::{str_chars, string_from_chars};
use scan::{
    char_is_alphabetic, char_is_alphanumeric, lemma_dec_int_bounds, lemma_float_bounds,
    lemma_run_bounds, winnow_dec_int, winnow_float,
};
use spec::{
    first_literal, ident_pred, keyword_lits, lex_bool, lex_delimiter, lex_float, lex_identifier,
    lex_integer, lex_keyword, lex_operator, lex_punct, lex_space, lex_string,
    lex_string_parts, lex_token, lex_tokens, lex_type, lex_unknown, operator_lits, space_pred,
    interpolation_depth, lex_interpolation, parts_depth, string_depth, token_depth, tokens_depth,
    starts_at, text_pred, type_lits,
};
pub use types::{tokens_view, SpecToken, Token};

verus! {

/// The lexer's state: how deep in string interpolations it is.
#[derive(Debug)]
pub struct State {
    interp_level: u32,
}

impl State {
    /// The interpolation depth.
    pub closed spec fn level(self) -> u32 {
        self.interp_level
    }

    /// Whether the lexer is inside an interpolation.
    pub fn is_interpolating(&self) -> (r: bool)
        ensures
            r == (self.level() > 0),
    {
        self.interp_level > 0
    }

    /// Enters one more interpolation.
    pub fn increase_interp(&mut self)
        requires
            old(self).level() < u32::MAX,
        ensures
            final(self).level() == old(self).level() + 1,
    {
        self.interp_level += 1;
    }

    /// Leaves an interpolation; there must be one to leave.
    pub fn decrease_interp(&mut self)
        requires
            old(self).level() > 0,
        ensures
            final(self).level() == old(self).level() - 1,
    {
        self.interp_level -= 1;
    }
}

/// The interpolation level after `steps` from `level`: `true` enters one more
/// interpolation, `false` leaves one.
pub open spec fn level_after(level: int, steps: Seq<bool>) -> int
    decreases steps.len(),
{
    if steps.len() == 0 {
        level
    } else if steps.last() {
        level_after(level, steps.drop_last()) + 1
    } else {
        level_after(level, steps.drop_last()) - 1
    }
}

/// The number of steps equal to `b`.
pub open spec fn count_steps(steps: Seq<bool>, b: bool) -> nat
    decreases steps.len(),
{
    if steps.len() == 0 {
        0
    } else {
        count_steps(steps.drop_last(), b) + if steps.last() == b {
            1nat
        } else {
            0nat
        }
    }
}

/// From a fresh state, the level after a sequence of `increase_interp` and
/// `decrease_interp` calls is the number of increases less the number of
/// decreases, so the lexer is interpolating exactly when it increased more
/// often than it decreased.
pub proof fn lemma_level_after_steps(steps: Seq<bool>)
    ensures
        level_after(0, steps) == count_steps(steps, true) - count_steps(steps, false),
        (level_after(0, steps) > 0) == (count_steps(steps, true) > count_steps(steps, false)),
    decreases steps.len(),
{
    if steps.len() > 0 {
        lemma_level_after_steps(steps.drop_last());
    }
}

/// A run of `increase_interp` (`true`) and `decrease_interp` (`false`)
/// calls from a fresh state in which no prefix has more decreases than
/// increases, nor more increases than decreases by over `u32::MAX`, meets the
/// precondition of every call, and ends at the number of increases less the
/// number of decreases.
pub proof fn lemma_steps_allowed(steps: Seq<bool>)
    requires
        forall|k: int|
            0 <= k <= steps.len() ==> count_steps(#[trigger] steps.take(k), false) <= count_steps(
                steps.take(k),
                true,
            ) && count_steps(steps.take(k), true) - count_steps(steps.take(k), false) <= u32::MAX,
    ensures
        forall|k: int|
            0 <= k < steps.len() ==> (if #[trigger] steps[k] {
                level_after(0, steps.take(k)) < u32::MAX
            } else {
                level_after(0, steps.take(k)) > 0
            }),
        level_after(0, steps) == count_steps(steps, true) - count_steps(steps, false),
{
    assert forall|k: int| 0 <= k < steps.len() implies (if #[trigger] steps[k] {
        level_after(0, steps.take(k)) < u32::MAX
    } else {
        level_after(0, steps.take(k)) > 0
    }) by {
        let t = steps.take(k);
        let t1 = steps.take(k + 1);
        assert(t1.drop_last() =~= t);
        assert(t1.last() == steps[k]);
        lemma_level_after_steps(t);
        lemma_level_after_steps(t1);
    }
    lemma_level_after_steps(steps);
}

impl Default for State {
    fn default() -> (s: Self)
        ensures
            s.level() == 0,
    {
        State { interp_level: 0 }
    }
}

/// Whether the characters of `lit` stand at position `p` of `s`.
fn lit_at(s: &Vec<char>, p: usize, lit: &str) -> (r: bool)
    requires
        p <= s@.len(),
    ensures
        r == starts_at(s@, p as int, lit@),
{
    let l = str_chars(lit);
    let n = s.len();
    if l.len() > n - p {
        return false;
    }
    let mut i: usize = 0;
    while i < l.len()
        invariant
            n == s@.len(),
            l@ == lit@,
            p + l@.len() <= s@.len(),
            i <= l@.len(),
            forall|j: int| 0 <= j < i ==> s@[p + j] == l@[j],
        decreases l@.len() - i,
    {
        if s[p + i] != l[i] {
            assert(s@.subrange(p as int, p + l@.len())[i as int] != l@[i as int]);
            return false;
        }
        i = i + 1;
    }
    assert(s@.subrange(p as int, p + l@.len()) =~= l@);
    true
}

/// The views of a table of literals.
pub open spec fn lits_view(lits: Seq<&str>) -> Seq<Seq<char>> {
    lits.map_values(|l: &str| l@)
}

/// The index of the first of `lits` that stands at `p`.
fn first_literal_index(s: &Vec<char>, p: usize, lits: &Vec<&str>) -> (r: Option<usize>)
    requires
        p <= s@.len(),
    ensures
        match r {
            Some(i) => i < lits@.len() && first_literal(s@, p as int, lits_view(lits@)) == Some(
                lits@[i as int]@,
            ),
            None => first_literal(s@, p as int, lits_view(lits@)) is None,
        },
{
    let ghost all = lits_view(lits@);
    let mut i: usize = 0;
    proof {
        assert(all.skip(0) =~= all);
    }
    while i < lits.len()
        invariant
            i <= lits@.len(),
            all == lits_view(lits@),
            p <= s@.len(),
            first_literal(s@, p as int, all) == first_literal(s@, p as int, all.skip(i as int)),
        decreases lits@.len() - i,
    {
        proof {
            assert(all.skip(i as int)[0] == all[i as int]);
            assert(all.skip(i as int).drop_first() =~= all.skip(i + 1));
        }
        if lit_at(s, p, lits[i]) {
            return Some(i);
        }
        i = i + 1;
    }
    proof {
        assert(all.skip(i as int).len() == 0);
    }
    None
}

/// The operators, in the order they are tried.
fn operator_table() -> (v: Vec<&'static str>)
    ensures
        lits_view(v@) == operator_lits(),
{
    let v = vec![
        "+", "-", "*", "/", "^", ">=", ">", "<=", "<>", "<", "==", "=>", "=", ":=", "::", "div",
        "mod", "imprima", "escreva",
    ];
    assert(lits_view(v@) =~= operator_lits());
    v
}

/// The keywords, in the order they are tried.
fn keyword_table() -> (v: Vec<&'static str>)
    ensures
        lits_view(v@) == keyword_lits(),
{
    let v = vec![
        "var", "em", "ou", "não", "entao", "senaose", "senao", "senãose", "senão", "se", "fim", "escolha", "caso",
        "para", "de", "até", "faça", "passo", "enquanto", "e", "retorne", "tipo", "gere",
    ];
    assert(lits_view(v@) =~= keyword_lits());
    v
}

/// The type names, in the order they are tried.
fn type_table() -> (v: Vec<&'static str>)
    ensures
        lits_view(v@) == type_lits(),
{
    let v = vec!["Inteiro", "Real", "Texto", "Lógico", "Caractere", "Lista"];
    assert(lits_view(v@) =~= type_lits());
    v
}

/// Every literal of the tables has at least one character.
proof fn lemma_tables_nonempty()
    ensures
        forall|i: int| 0 <= i < operator_lits().len() ==> #[trigger] operator_lits()[i].len() > 0,
        forall|i: int| 0 <= i < keyword_lits().len() ==> #[trigger] keyword_lits()[i].len() > 0,
        forall|i: int| 0 <= i < type_lits().len() ==> #[trigger] type_lits()[i].len() > 0,
{
    reveal_strlit("+");
    reveal_strlit("-");
    reveal_strlit("*");
    reveal_strlit("/");
    reveal_strlit("^");
    reveal_strlit(">=");
    reveal_strlit(">");
    reveal_strlit("<=");
    reveal_strlit("<>");
    reveal_strlit("<");
    reveal_strlit("==");
    reveal_strlit("=>");
    reveal_strlit("=");
    reveal_strlit(":=");
    reveal_strlit("::");
    reveal_strlit("div");
    reveal_strlit("mod");
    reveal_strlit("imprima");
    reveal_strlit("escreva");
    reveal_strlit("var");
    reveal_strlit("em");
    reveal_strlit("ou");
    reveal_strlit("não");
    reveal_strlit("entao");
    reveal_strlit("senaose");
    reveal_strlit("senao");
    reveal_strlit("senãose");
    reveal_strlit("senão");
    reveal_strlit("se");
    reveal_strlit("fim");
    reveal_strlit("escolha");
    reveal_strlit("caso");
    reveal_strlit("para");
    reveal_strlit("de");
    reveal_strlit("até");
    reveal_strlit("faça");
    reveal_strlit("passo");
    reveal_strlit("enquanto");
    reveal_strlit("e");
    reveal_strlit("retorne");
    reveal_strlit("tipo");
    reveal_strlit("gere");
    reveal_strlit("Inteiro");
    reveal_strlit("Real");
    reveal_strlit("Texto");
    reveal_strlit("Lógico");
    reveal_strlit("Caractere");
    reveal_strlit("Lista");
}

/// `r`, read at `p` in a text of length `len`, is what the recogniser `sp`
/// gives, and a match moves forward.
pub open spec fn lexed(
    r: Option<(Vec<Token>, usize)>,
    sp: Option<(Seq<SpecToken>, int)>,
    p: int,
    len: int,
) -> bool {
    match r {
        Some((ts, q)) => sp == Some((tokens_view(ts@), q as int)) && p < q <= len,
        None => sp is None,
    }
}

/// The character at position `p`.
fn char_at(s: &Vec<char>, p: usize) -> (c: char)
    requires
        p < s@.len(),
    ensures
        c == s@[p as int],
{
    s[p]
}

/// The vector of the single token `t`.
fn one(t: Token) -> (v: Vec<Token>)
    ensures
        tokens_view(v@) == seq![t@],
{
    let mut v = Vec::new();
    v.push(t);
    assert(tokens_view(v@) =~= seq![t@]);
    v
}

/// A literal of a table at `p`: its index and the position after it.
fn literal_from(s: &Vec<char>, p: usize, table: &Vec<&str>) -> (r: Option<(usize, usize)>)
    requires
        p <= s@.len(),
        forall|i: int| 0 <= i < table@.len() ==> (#[trigger] table@[i])@.len() > 0,
    ensures
        match r {
            Some((i, q)) => i < table@.len() && first_literal(s@, p as int, lits_view(table@))
                == Some(table@[i as int]@) && q == p + table@[i as int]@.len() && p < q <= s@.len(),
            None => first_literal(s@, p as int, lits_view(table@)) is None,
        },
{
    match first_literal_index(s, p, table) {
        Some(i) => {
            let l = str_chars(table[i]);
            let n = s.len();
            proof {
                lemma_first_literal_starts(s@, p as int, lits_view(table@));
                assert(starts_at(s@, p as int, l@));
            }
            Some((i, p + l.len()))
        },
        None => None,
    }
}

/// The literal that `first_literal` picks stands at the position.
proof fn lemma_first_literal_starts(s: Seq<char>, p: int, lits: Seq<Seq<char>>)
    ensures
        first_literal(s, p, lits) matches Some(l) ==> starts_at(s, p, l),
    decreases lits.len(),
{
    if lits.len() > 0 && !starts_at(s, p, lits[0]) {
        lemma_first_literal_starts(s, p, lits.drop_first());
    }
}

/// An operator at `p`.
fn lex_operator_exec(s: &Vec<char>, p: usize) -> (r: Option<(Vec<Token>, usize)>)
    requires
        p <= s@.len(),
    ensures
        lexed(r, lex_operator(s@, p as int), p as int, s@.len() as int),
{
    let table = operator_table();
    proof {
        lemma_tables_nonempty();
        assert forall|i: int| 0 <= i < table@.len() implies (#[trigger] table@[i])@.len() > 0 by {
            assert(table@[i]@ == operator_lits()[i]);
        }
    }
    match literal_from(s, p, &table) {
        Some((i, q)) => {
            let t = Token::Operation(table[i].to_owned());
            Some((one(t), q))
        },
        None => None,
    }
}

/// A keyword at `p`, not followed by an ASCII letter or digit.
fn lex_keyword_exec(s: &Vec<char>, p: usize) -> (r: Option<(Vec<Token>, usize)>)
    requires
        p <= s@.len(),
    ensures
        lexed(r, lex_keyword(s@, p as int), p as int, s@.len() as int),
{
    let table = keyword_table();
    proof {
        lemma_tables_nonempty();
        assert forall|i: int| 0 <= i < table@.len() implies (#[trigger] table@[i])@.len() > 0 by {
            assert(table@[i]@ == keyword_lits()[i]);
        }
    }
    match literal_from(s, p, &table) {
        Some((i, q)) => {
            if q < s.len() && is_ascii_alnum_exec(s[q]) {
                return None;
            }
            let t = Token::Keyword(table[i].to_owned());
            Some((one(t), q))
        },
        None => None,
    }
}

/// A type name at `p`.
fn lex_type_exec(s: &Vec<char>, p: usize) -> (r: Option<(Vec<Token>, usize)>)
    requires
        p <= s@.len(),
    ensures
        lexed(r, lex_type(s@, p as int), p as int, s@.len() as int),
{
    let table = type_table();
    proof {
        lemma_tables_nonempty();
        assert forall|i: int| 0 <= i < table@.len() implies (#[trigger] table@[i])@.len() > 0 by {
            assert(table@[i]@ == type_lits()[i]);
        }
    }
    match literal_from(s, p, &table) {
        Some((i, q)) => {
            let t = Token::Type(table[i].to_owned());
            Some((one(t), q))
        },
        None => None,
    }
}

/// Whether `c` is an ASCII letter or digit.
fn is_ascii_alnum_exec(c: char) -> (r: bool)
    ensures
        r == scan::is_ascii_alnum(c),
{
    ('a' <= c && c <= 'z') || ('A' <= c && c <= 'Z') || ('0' <= c && c <= '9')
}

/// An integer at `p`.
fn lex_integer_exec(s: &Vec<char>, p: usize) -> (r: Option<(Vec<Token>, usize)>)
    requires
        p <= s@.len(),
    ensures
        lexed(r, lex_integer(s@, p as int), p as int, s@.len() as int),
{
    match winnow_dec_int(s, p) {
        Some((text, v)) => {
            let n = str_chars(text.as_str()).len();
            let len = s.len();
            proof {
                lemma_dec_int_bounds(s@.skip(p as int));
            }
            let q = p + n;
            if q < len && (s[q] == '.' || s[q] == 'e' || s[q] == 'E') {
                None
            } else {
                Some((one(Token::Integer(v)), q))
            }
        },
        None => None,
    }
}

/// A float at `p`, kept as its text.
fn lex_float_exec(s: &Vec<char>, p: usize) -> (r: Option<(Vec<Token>, usize)>)
    requires
        p <= s@.len(),
    ensures
        lexed(r, lex_float(s@, p as int), p as int, s@.len() as int),
{
    match winnow_float(s, p) {
        Some(text) => {
            let n = str_chars(text.as_str()).len();
            let len = s.len();
            proof {
                lemma_float_bounds(s@.skip(p as int));
                assert(text@ =~= s@.subrange(p as int, p + n));
            }
            Some((one(Token::Float(text)), p + n))
        },
        None => None,
    }
}

/// `verdadeiro` or `falso` at `p`.
fn lex_bool_exec(s: &Vec<char>, p: usize) -> (r: Option<(Vec<Token>, usize)>)
    requires
        p <= s@.len(),
    ensures
        lexed(r, lex_bool(s@, p as int), p as int, s@.len() as int),
{
    proof {
        reveal_strlit("verdadeiro");
        reveal_strlit("falso");
    }
    let n = s.len();
    if lit_at(s, p, "verdadeiro") {
        Some((one(Token::Boolean(true)), p + 10))
    } else if lit_at(s, p, "falso") {
        Some((one(Token::Boolean(false)), p + 5))
    } else {
        None
    }
}

/// A newline, colon, comma or period at `p`.
fn lex_punct_exec(s: &Vec<char>, p: usize) -> (r: Option<(Vec<Token>, usize)>)
    requires
        p <= s@.len(),
    ensures
        lexed(r, lex_punct(s@, p as int), p as int, s@.len() as int),
{
    if p < s.len() {
        let c = s[p];
        if c == '\n' {
            Some((one(Token::NewLine), p + 1))
        } else if c == ':' {
            Some((one(Token::Colon), p + 1))
        } else if c == ',' {
            Some((one(Token::Comma), p + 1))
        } else if c == '.' {
            Some((one(Token::Period), p + 1))
        } else {
            None
        }
    } else {
        None
    }
}

/// A block delimiter at `p`.
fn lex_delimiter_exec(s: &Vec<char>, p: usize) -> (r: Option<(Vec<Token>, usize)>)
    requires
        p <= s@.len(),
    ensures
        lexed(r, lex_delimiter(s@, p as int), p as int, s@.len() as int),
{
    if p < s.len() {
        let c = s[p];
        if c == '(' || c == '[' || c == '{' {
            Some((one(Token::BlockDelimeter(c, false)), p + 1))
        } else if c == ')' || c == ']' || c == '}' {
            Some((one(Token::BlockDelimeter(c, true)), p + 1))
        } else {
            None
        }
    } else {
        None
    }
}

/// Any character at `p`.
fn lex_unknown_exec(s: &Vec<char>, p: usize) -> (r: Option<(Vec<Token>, usize)>)
    requires
        p <= s@.len(),
    ensures
        lexed(r, lex_unknown(s@, p as int), p as int, s@.len() as int),
{
    if p < s.len() {
        Some((one(Token::Unknown(char_at(s, p))), p + 1))
    } else {
        None
    }
}

/// The end of the run of characters that continue an identifier from `k`.
fn ident_run_end(s: &Vec<char>, k: usize) -> (e: usize)
    requires
        k <= s@.len(),
    ensures
        e == k + scan::run(s@, k as int, ident_pred()),
        k <= e <= s@.len(),
{
    let mut i = k;
    proof {
        lemma_run_bounds(s@, k as int, ident_pred());
    }
    while i < s.len() && (char_is_alphanumeric(s[i]) || s[i] == '_')
        invariant
            k <= i <= s@.len(),
            scan::run(s@, k as int, ident_pred()) == (i - k) + scan::run(s@, i as int, ident_pred()),
        decreases s@.len() - i,
    {
        i = i + 1;
    }
    i
}

/// The end of the run of white space from `k`.
fn space_run_end(s: &Vec<char>, k: usize) -> (e: usize)
    requires
        k <= s@.len(),
    ensures
        e == k + scan::run(s@, k as int, space_pred()),
        e <= s@.len(),
{
    let mut i = k;
    proof {
        lemma_run_bounds(s@, k as int, space_pred());
    }
    while i < s.len() && (s[i] == ' ' || s[i] == '\t' || s[i] == '\r' || s[i] == '\n')
        invariant
            k <= i <= s@.len(),
            scan::run(s@, k as int, space_pred()) == (i - k) + scan::run(s@, i as int, space_pred()),
        decreases s@.len() - i,
    {
        i = i + 1;
    }
    i
}

/// The end of the run of string text from `k`.
fn text_run_end(s: &Vec<char>, k: usize) -> (e: usize)
    requires
        k <= s@.len(),
    ensures
        e == k + scan::run(s@, k as int, text_pred()),
        e <= s@.len(),
{
    let mut i = k;
    proof {
        lemma_run_bounds(s@, k as int, text_pred());
    }
    while i < s.len() && s[i] != '{' && s[i] != '"'
        invariant
            k <= i <= s@.len(),
            scan::run(s@, k as int, text_pred()) == (i - k) + scan::run(s@, i as int, text_pred()),
        decreases s@.len() - i,
    {
        i = i + 1;
    }
    i
}

/// An identifier at `p`.
fn lex_identifier_exec(s: &Vec<char>, p: usize) -> (r: Option<(Vec<Token>, usize)>)
    requires
        p <= s@.len(),
    ensures
        lexed(r, lex_identifier(s@, p as int), p as int, s@.len() as int),
{
    if p < s.len() && (char_is_alphabetic(s[p]) || s[p] == '_') {
        let q = ident_run_end(s, p + 1);
        Some((one(Token::Identifier(string_from_chars(s, p, q))), q))
    } else {
        None
    }
}

/// White space at `p`.
fn lex_space_exec(s: &Vec<char>, p: usize) -> (r: Option<(Vec<Token>, usize)>)
    requires
        p <= s@.len(),
    ensures
        lexed(r, lex_space(s@, p as int), p as int, s@.len() as int),
{
    let q = space_run_end(s, p);
    if q > p {
        let v: Vec<Token> = Vec::new();
        assert(tokens_view(v@) =~= Seq::<SpecToken>::empty());
        Some((v, q))
    } else {
        None
    }
}

/// The values of two token vectors, one after the other.
proof fn lemma_view_concat(a: Seq<Token>, b: Seq<Token>)
    ensures
        tokens_view(a + b) == tokens_view(a) + tokens_view(b),
{
    assert(tokens_view(a + b) =~= tokens_view(a) + tokens_view(b));
}

/// Appends `b` to `a`.
fn append_tokens(a: &mut Vec<Token>, b: Vec<Token>)
    ensures
        tokens_view(final(a)@) == tokens_view(old(a)@) + tokens_view(b@),
{
    let mut b = b;
    let ghost old_b = b@;
    a.append(&mut b);
    proof {
        lemma_view_concat(old(a)@, old_b);
    }
}

/// An interpolation at `q`: the tokens between `{` and `}`, with `ExprStart`
/// before them and `ExprEnd` after. The lexer's state is one level deeper
/// while the tokens inside are read, and as it was afterwards.
pub fn lex_interpolation_exec(s: &Vec<char>, q: usize, state: &mut State) -> (r: Option<(Vec<Token>, usize)>)
    requires
        q <= s@.len(),
        old(state).level() + interpolation_depth(s@, q as int) <= u32::MAX,
    ensures
        final(state).level() == old(state).level(),
        lexed(r, lex_interpolation(s@, q as int), q as int, s@.len() as int),
        r matches Some((ts, _)) ==> tokens_view(ts@).len() >= 2 && tokens_view(ts@)[0]
            == SpecToken::ExprStart && tokens_view(ts@).last() == SpecToken::ExprEnd,
    decreases s@.len() - q, 0int,
{
    let len = s.len();
    state.increase_interp();
    let mut res: Option<(Vec<Token>, usize)> = None;
    if q < len && s[q] == '{' {
        let (inner, q2) = lex_tokens_exec(s, q + 1, state);
        if q2 < len && s[q2] == '}' {
            let ghost iv = tokens_view(inner@);
            let mut acc = one(Token::ExprStart);
            append_tokens(&mut acc, inner);
            append_tokens(&mut acc, one(Token::ExprEnd));
            proof {
                assert(tokens_view(acc@) =~= seq![SpecToken::ExprStart] + iv + seq![SpecToken::ExprEnd]);
            }
            res = Some((acc, q2 + 1));
        }
    }
    state.decrease_interp();
    res
}

/// The parts of a string from `q0` on.
fn lex_string_parts_exec(s: &Vec<char>, q0: usize, state: &mut State) -> (r: (Vec<Token>, usize))
    requires
        q0 <= s@.len(),
        old(state).level() + parts_depth(s@, q0 as int) <= u32::MAX,
    ensures
        final(state).level() == old(state).level(),
        (tokens_view(r.0@), r.1 as int) == lex_string_parts(s@, q0 as int),
        q0 <= r.1 <= s@.len(),
    decreases s@.len() - q0, 1int,
{
    let len = s.len();
    let mut acc: Vec<Token> = Vec::new();
    let mut q = q0;
    proof {
        assert(tokens_view(acc@) + lex_string_parts(s@, q as int).0 =~= lex_string_parts(s@, q as int).0);
    }
    loop
        invariant
            len == s@.len(),
            q0 <= q <= len,
            state.level() == old(state).level(),
            old(state).level() + parts_depth(s@, q as int) <= u32::MAX,
            lex_string_parts(s@, q0 as int) == (
                tokens_view(acc@) + lex_string_parts(s@, q as int).0,
                lex_string_parts(s@, q as int).1,
            ),
        ensures
            lex_string_parts(s@, q as int).0 == Seq::<SpecToken>::empty(),
            lex_string_parts(s@, q as int).1 == q,
        decreases len - q,
    {
        let e = text_run_end(s, q);
        if e > q {
            let ghost before = tokens_view(acc@);
            let t = Token::StringFragment(string_from_chars(s, q, e));
            append_tokens(&mut acc, one(t));
            proof {
                assert(tokens_view(acc@) + lex_string_parts(s@, e as int).0 =~= before
                    + lex_string_parts(s@, q as int).0);
            }
            q = e;
        } else {
            match lex_interpolation_exec(s, q, state) {
                Some((ts, q2)) => {
                    let ghost before = tokens_view(acc@);
                    append_tokens(&mut acc, ts);
                    proof {
                        assert(tokens_view(acc@) + lex_string_parts(s@, q2 as int).0 =~= before
                            + lex_string_parts(s@, q as int).0);
                    }
                    q = q2;
                },
                None => {
                    break ;
                },
            }
        }
    }
    proof {
        assert(tokens_view(acc@) + lex_string_parts(s@, q as int).0 =~= tokens_view(acc@));
    }
    (acc, q)
}

/// A string literal at `p`.
fn lex_string_exec(s: &Vec<char>, p: usize, state: &mut State) -> (r: Option<(Vec<Token>, usize)>)
    requires
        p <= s@.len(),
        old(state).level() + string_depth(s@, p as int) <= u32::MAX,
    ensures
        final(state).level() == old(state).level(),
        lexed(r, lex_string(s@, p as int), p as int, s@.len() as int),
    decreases s@.len() - p, 2int,
{
    let len = s.len();
    if p < len && s[p] == '"' {
        let (parts, q) = lex_string_parts_exec(s, p + 1, state);
        if q < len && s[q] == '"' {
            let mut acc = one(Token::StringStart);
            append_tokens(&mut acc, parts);
            append_tokens(&mut acc, one(Token::StringEnd));
            Some((acc, q + 1))
        } else {
            None
        }
    } else {
        None
    }
}

/// One token (or white space) at `p`.
fn lex_token_exec(s: &Vec<char>, p: usize, state: &mut State) -> (r: Option<(Vec<Token>, usize)>)
    requires
        p <= s@.len(),
        old(state).level() + token_depth(s@, p as int, old(state).level() > 0) <= u32::MAX,
    ensures
        final(state).level() == old(state).level(),
        lexed(r, lex_token(s@, p as int, old(state).level() > 0), p as int, s@.len() as int),
    decreases s@.len() - p, 3int,
{
    if state.is_interpolating() && p < s.len() && s[p] == '}' {
        return None;
    }
    let r = lex_operator_exec(s, p);
    if r.is_some() {
        return r;
    }
    let r = lex_integer_exec(s, p);
    if r.is_some() {
        return r;
    }
    let r = lex_float_exec(s, p);
    if r.is_some() {
        return r;
    }
    let r = lex_bool_exec(s, p);
    if r.is_some() {
        return r;
    }
    let r = lex_punct_exec(s, p);
    if r.is_some() {
        return r;
    }
    let r = lex_keyword_exec(s, p);
    if r.is_some() {
        return r;
    }
    let r = lex_type_exec(s, p);
    if r.is_some() {
        return r;
    }
    let r = lex_identifier_exec(s, p);
    if r.is_some() {
        return r;
    }
    let r = lex_string_exec(s, p, state);
    if r.is_some() {
        return r;
    }
    let r = lex_delimiter_exec(s, p);
    if r.is_some() {
        return r;
    }
    let r = lex_space_exec(s, p);
    if r.is_some() {
        return r;
    }
    lex_unknown_exec(s, p)
}

/// Tokens from `p` on, as long as one can be read.
fn lex_tokens_exec(s: &Vec<char>, p: usize, state: &mut State) -> (r: (Vec<Token>, usize))
    requires
        p <= s@.len(),
        old(state).level() + tokens_depth(s@, p as int, old(state).level() > 0) <= u32::MAX,
    ensures
        final(state).level() == old(state).level(),
        (tokens_view(r.0@), r.1 as int) == lex_tokens(s@, p as int, old(state).level() > 0),
        p <= r.1 <= s@.len(),
        old(state).level() == 0 ==> r.1 == s@.len(),
    decreases s@.len() - p, 4int,
{
    let ghost interp = state.level() > 0;
    let len = s.len();
    let mut acc: Vec<Token> = Vec::new();
    let mut q = p;
    proof {
        assert(tokens_view(acc@) + lex_tokens(s@, q as int, interp).0 =~= lex_tokens(s@, q as int, interp).0);
    }
    loop
        invariant
            len == s@.len(),
            p <= q <= len,
            state.level() == old(state).level(),
            interp == (old(state).level() > 0),
            old(state).level() + tokens_depth(s@, q as int, interp) <= u32::MAX,
            lex_tokens(s@, p as int, interp) == (
                tokens_view(acc@) + lex_tokens(s@, q as int, interp).0,
                lex_tokens(s@, q as int, interp).1,
            ),
        decreases len - q,
    {
        match lex_token_exec(s, q, state) {
            Some((ts, q2)) => {
                let ghost before = tokens_view(acc@);
                append_tokens(&mut acc, ts);
                proof {
                    assert(tokens_view(acc@) + lex_tokens(s@, q2 as int, interp).0 =~= before
                        + lex_tokens(s@, q as int, interp).0);
                }
                q = q2;
            },
            None => {
                proof {
                    assert(tokens_view(acc@) + lex_tokens(s@, q as int, interp).0 =~= tokens_view(acc@));
                    if !interp && q < len {
                        lemma_token_total(s@, q as int);
                    }
                }
                return (acc, q);
            },
        }
    }
}

/// Outside an interpolation some token is read wherever a character is left.
proof fn lemma_token_total(s: Seq<char>, p: int)
    requires
        0 <= p < s.len(),
    ensures
        lex_token(s, p, false) is Some,
{
    assert(lex_unknown(s, p) is Some);
}

/// An error of the lexer. Reading tokens never fails: a character that starts
/// no other token is an `Unknown` one.
#[derive(Debug)]
pub struct LexError {}

/// Source text being read: its characters, the position reached and the state.
pub struct Stream {
    pub input: Vec<char>,
    pub pos: usize,
    pub state: State,
}

impl Stream {
    /// Whether nothing is left to read.
    pub fn is_empty(&self) -> (r: bool)
        ensures
            r == (self.pos >= self.input@.len()),
    {
        self.pos >= self.input.len()
    }
}

/// A stream at the start of `input`, outside any interpolation.
pub fn new_stream(input: &str) -> (st: Stream)
    ensures
        st.input@ == input@,
        st.pos == 0,
        st.state.level() == 0,
{
    Stream { input: str_chars(input), pos: 0, state: State::default() }
}

/// Reads all the tokens that can be read from the stream's position: the
/// tokens of `lex_tokens`, with the stream moved past them. Outside an
/// interpolation that is the whole text.
///
/// The interpolation level must not pass `u32::MAX` on the way: it rises by
/// `tokens_depth` at most, which is no more than one more than the characters
/// left (`lemma_depth_bounds`).
pub fn tokenize(input: &mut Stream) -> (r: Result<Vec<Token>, LexError>)
    requires
        old(input).pos <= old(input).input@.len(),
        old(input).state.level() + tokens_depth(
            old(input).input@,
            old(input).pos as int,
            old(input).state.level() > 0,
        ) <= u32::MAX,
    ensures
        final(input).input@ == old(input).input@,
        final(input).state.level() == old(input).state.level(),
        r matches Ok(ts) && (tokens_view(ts@), final(input).pos as int) == lex_tokens(
            old(input).input@,
            old(input).pos as int,
            old(input).state.level() > 0,
        ),
        old(input).state.level() == 0 ==> final(input).pos == final(input).input@.len(),
{
    let (ts, q) = lex_tokens_exec(&input.input, input.pos, &mut input.state);
    input.pos = q;
    Ok(ts)
}

} // verus!
