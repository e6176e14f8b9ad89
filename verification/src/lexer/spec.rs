//! The token grammar, as functions on characters.
//!
//! Each recogniser looks at position `p` of the text `s` and gives the tokens it
//! reads and the position after them, or nothing when it does not match. The
//! alternatives of a token are tried in order and the first that matches wins.
use vstd::prelude::*;

use super::scan::{lemma_run_bounds, float_len, is_ascii_alnum, run, spec_dec_int, alphabetic, alphanumeric};
use super::types::SpecToken;

verus! {

/// The characters `lit` stand at position `p` of `s`.
pub open spec fn starts_at(s: Seq<char>, p: int, lit: Seq<char>) -> bool {
    0 <= p && p + lit.len() <= s.len() && s.subrange(p, p + lit.len()) == lit
}

/// The first of `lits` that stands at position `p` of `s`.
pub open spec fn first_literal(s: Seq<char>, p: int, lits: Seq<Seq<char>>) -> Option<Seq<char>>
    decreases lits.len(),
{
    if lits.len() == 0 {
        None
    } else if starts_at(s, p, lits[0]) {
        Some(lits[0])
    } else {
        first_literal(s, p, lits.drop_first())
    }
}

/// The operators, in the order they are tried.
pub open spec fn operator_lits() -> Seq<Seq<char>> {
    seq![
        "+"@, "-"@, "*"@, "/"@, "^"@, ">="@, ">"@, "<="@, "<>"@, "<"@, "=="@, "=>"@, "="@, ":="@,
        "::"@, "div"@, "mod"@, "imprima"@, "escreva"@,
    ]
}

/// The keywords, in the order they are tried.
pub open spec fn keyword_lits() -> Seq<Seq<char>> {
    seq![
        "var"@, "em"@, "ou"@, "não"@, "entao"@, "senaose"@, "senao"@, "senãose"@, "senão"@, "se"@, "fim"@, "escolha"@,
        "caso"@, "para"@, "de"@, "até"@, "faça"@, "passo"@, "enquanto"@, "e"@, "retorne"@,
        "tipo"@, "gere"@,
    ]
}

/// The type names, in the order they are tried.
pub open spec fn type_lits() -> Seq<Seq<char>> {
    seq!["Inteiro"@, "Real"@, "Texto"@, "Lógico"@, "Caractere"@, "Lista"@]
}

/// A single token read from one of `lits`, made by `mk`.
pub open spec fn lex_literal_of(
    s: Seq<char>,
    p: int,
    lits: Seq<Seq<char>>,
    mk: spec_fn(Seq<char>) -> SpecToken,
) -> Option<(Seq<SpecToken>, int)> {
    match first_literal(s, p, lits) {
        Some(l) => Some((seq![mk(l)], p + l.len())),
        None => None,
    }
}

/// An operator.
pub open spec fn lex_operator(s: Seq<char>, p: int) -> Option<(Seq<SpecToken>, int)> {
    lex_literal_of(s, p, operator_lits(), |l: Seq<char>| SpecToken::Operation(l))
}

/// An integer: `dec_int` not followed by `.`, `e` or `E`.
pub open spec fn lex_integer(s: Seq<char>, p: int) -> Option<(Seq<SpecToken>, int)> {
    match spec_dec_int(s.skip(p)) {
        Some((n, v)) => {
            let q = p + n;
            if q < s.len() && (s[q] == '.' || s[q] == 'e' || s[q] == 'E') {
                None
            } else {
                Some((seq![SpecToken::Integer(v)], q))
            }
        },
        None => None,
    }
}

/// A float, kept as the text that was recognised.
pub open spec fn lex_float(s: Seq<char>, p: int) -> Option<(Seq<SpecToken>, int)> {
    match float_len(s.skip(p)) {
        Some(n) => Some((seq![SpecToken::Float(s.subrange(p, p + n))], p + n)),
        None => None,
    }
}

/// `verdadeiro` or `falso`.
pub open spec fn lex_bool(s: Seq<char>, p: int) -> Option<(Seq<SpecToken>, int)> {
    if starts_at(s, p, "verdadeiro"@) {
        Some((seq![SpecToken::Boolean(true)], p + "verdadeiro"@.len()))
    } else if starts_at(s, p, "falso"@) {
        Some((seq![SpecToken::Boolean(false)], p + "falso"@.len()))
    } else {
        None
    }
}

/// A newline, colon, comma or period.
pub open spec fn lex_punct(s: Seq<char>, p: int) -> Option<(Seq<SpecToken>, int)> {
    if 0 <= p < s.len() {
        let c = s[p];
        if c == '\n' {
            Some((seq![SpecToken::NewLine], p + 1))
        } else if c == ':' {
            Some((seq![SpecToken::Colon], p + 1))
        } else if c == ',' {
            Some((seq![SpecToken::Comma], p + 1))
        } else if c == '.' {
            Some((seq![SpecToken::Period], p + 1))
        } else {
            None
        }
    } else {
        None
    }
}

/// A keyword not followed by an ASCII letter or digit.
pub open spec fn lex_keyword(s: Seq<char>, p: int) -> Option<(Seq<SpecToken>, int)> {
    match first_literal(s, p, keyword_lits()) {
        Some(l) => {
            let q = p + l.len();
            if q < s.len() && is_ascii_alnum(s[q]) {
                None
            } else {
                Some((seq![SpecToken::Keyword(l)], q))
            }
        },
        None => None,
    }
}

/// A type name.
pub open spec fn lex_type(s: Seq<char>, p: int) -> Option<(Seq<SpecToken>, int)> {
    lex_literal_of(s, p, type_lits(), |l: Seq<char>| SpecToken::Type(l))
}

/// `c` may continue an identifier.
pub open spec fn ident_char(c: char) -> bool {
    alphanumeric(c) || c == '_'
}

/// The characters that continue an identifier, as a predicate.
pub open spec fn ident_pred() -> spec_fn(char) -> bool {
    |c: char| ident_char(c)
}

/// An identifier: a letter or `_`, then letters, digits and `_`.
pub open spec fn lex_identifier(s: Seq<char>, p: int) -> Option<(Seq<SpecToken>, int)> {
    if 0 <= p < s.len() && (alphabetic(s[p]) || s[p] == '_') {
        let q = p + 1 + run(s, p + 1, ident_pred());
        Some((seq![SpecToken::Identifier(s.subrange(p, q))], q))
    } else {
        None
    }
}

/// One of `()[]{}`, with whether it closes.
pub open spec fn lex_delimiter(s: Seq<char>, p: int) -> Option<(Seq<SpecToken>, int)> {
    if 0 <= p < s.len() {
        let c = s[p];
        if c == '(' || c == '[' || c == '{' {
            Some((seq![SpecToken::BlockDelimeter(c, false)], p + 1))
        } else if c == ')' || c == ']' || c == '}' {
            Some((seq![SpecToken::BlockDelimeter(c, true)], p + 1))
        } else {
            None
        }
    } else {
        None
    }
}

/// `c` is a space, tab, carriage return or newline.
pub open spec fn space_char(c: char) -> bool {
    c == ' ' || c == '\t' || c == '\r' || c == '\n'
}

/// White space, as a predicate.
pub open spec fn space_pred() -> spec_fn(char) -> bool {
    |c: char| space_char(c)
}

/// A run of white space, which gives no token.
pub open spec fn lex_space(s: Seq<char>, p: int) -> Option<(Seq<SpecToken>, int)> {
    let m = run(s, p, space_pred());
    if m >= 1 {
        Some((Seq::<SpecToken>::empty(), p + m))
    } else {
        None
    }
}

/// Any other character.
pub open spec fn lex_unknown(s: Seq<char>, p: int) -> Option<(Seq<SpecToken>, int)> {
    if 0 <= p < s.len() {
        Some((seq![SpecToken::Unknown(s[p])], p + 1))
    } else {
        None
    }
}

/// `a` if it matched, else `b`.
pub open spec fn or_else(
    a: Option<(Seq<SpecToken>, int)>,
    b: Option<(Seq<SpecToken>, int)>,
) -> Option<(Seq<SpecToken>, int)> {
    if a is Some {
        a
    } else {
        b
    }
}

/// `c` may stand in the text of a string.
pub open spec fn text_char(c: char) -> bool {
    c != '{' && c != '"'
}

/// The characters of string text, as a predicate.
pub open spec fn text_pred() -> spec_fn(char) -> bool {
    |c: char| text_char(c)
}

/// An interpolation at `q`: `{`, the tokens inside, `}`, read as the tokens
/// between `ExprStart` and `ExprEnd`.
pub open spec fn lex_interpolation(s: Seq<char>, q: int) -> Option<(Seq<SpecToken>, int)>
    decreases s.len() - q, 0int,
{
    if 0 <= q < s.len() && s[q] == '{' {
        let (inner, q2) = lex_tokens(s, q + 1, true);
        if q + 1 <= q2 < s.len() && s[q2] == '}' {
            Some((seq![SpecToken::ExprStart] + inner + seq![SpecToken::ExprEnd], q2 + 1))
        } else {
            None
        }
    } else {
        None
    }
}

/// The parts of a string from `q` on: runs of text and interpolations
/// `{ tokens }`, up to the first place where neither stands.
pub open spec fn lex_string_parts(s: Seq<char>, q: int) -> (Seq<SpecToken>, int)
    decreases s.len() - q, 1int,
{
    let m = run(s, q, text_pred());
    if 0 <= q <= s.len() && m >= 1 {
        proof {
            lemma_run_bounds(s, q, text_pred());
        }
        let (rest, r) = lex_string_parts(s, q + m);
        (seq![SpecToken::StringFragment(s.subrange(q, q + m))] + rest, r)
    } else {
        match lex_interpolation(s, q) {
            Some((ts, q2)) => if q < q2 <= s.len() {
                let (rest, r) = lex_string_parts(s, q2);
                (ts + rest, r)
            } else {
                (Seq::<SpecToken>::empty(), q)
            },
            None => (Seq::<SpecToken>::empty(), q),
        }
    }
}

/// A string literal: `"`, its parts, `"`.
pub open spec fn lex_string(s: Seq<char>, p: int) -> Option<(Seq<SpecToken>, int)>
    decreases s.len() - p, 2int,
{
    if 0 <= p < s.len() && s[p] == '"' {
        let (parts, q) = lex_string_parts(s, p + 1);
        if p + 1 <= q < s.len() && s[q] == '"' {
            Some((seq![SpecToken::StringStart] + parts + seq![SpecToken::StringEnd], q + 1))
        } else {
            None
        }
    } else {
        None
    }
}

/// One token (or white space) at `p`. Inside an interpolation a `}` ends the
/// tokens instead.
pub open spec fn lex_token(s: Seq<char>, p: int, interp: bool) -> Option<(Seq<SpecToken>, int)>
    decreases s.len() - p, 3int,
{
    if interp && 0 <= p < s.len() && s[p] == '}' {
        None
    } else {
        or_else(
            lex_operator(s, p),
            or_else(
                lex_integer(s, p),
                or_else(
                    lex_float(s, p),
                    or_else(
                        lex_bool(s, p),
                        or_else(
                            lex_punct(s, p),
                            or_else(
                                lex_keyword(s, p),
                                or_else(
                                    lex_type(s, p),
                                    or_else(
                                        lex_identifier(s, p),
                                        or_else(
                                            lex_string(s, p),
                                            or_else(
                                                lex_delimiter(s, p),
                                                or_else(lex_space(s, p), lex_unknown(s, p)),
                                            ),
                                        ),
                                    ),
                                ),
                            ),
                        ),
                    ),
                ),
            ),
        )
    }
}

/// Tokens from `p` on, as long as one can be read.
pub open spec fn lex_tokens(s: Seq<char>, p: int, interp: bool) -> (Seq<SpecToken>, int)
    decreases s.len() - p, 4int,
{
    match lex_token(s, p, interp) {
        Some((ts, q)) => if p < q <= s.len() {
            let (rest, r) = lex_tokens(s, q, interp);
            (ts + rest, r)
        } else {
            (Seq::<SpecToken>::empty(), p)
        },
        None => (Seq::<SpecToken>::empty(), p),
    }
}

/// The larger of two depths.
pub open spec fn deeper(a: nat, b: nat) -> nat {
    if a >= b {
        a
    } else {
        b
    }
}

/// How many interpolation levels reading an interpolation at `q` opens at
/// most: one for the attempt itself, and those of the tokens inside.
pub open spec fn interpolation_depth(s: Seq<char>, q: int) -> nat
    decreases s.len() - q, 0int,
{
    if 0 <= q < s.len() && s[q] == '{' {
        1 + tokens_depth(s, q + 1, true)
    } else {
        1
    }
}

/// How many interpolation levels reading the parts of a string from `q`
/// opens at most.
pub open spec fn parts_depth(s: Seq<char>, q: int) -> nat
    decreases s.len() - q, 1int,
{
    let m = run(s, q, text_pred());
    if 0 <= q <= s.len() && m >= 1 {
        proof {
            lemma_run_bounds(s, q, text_pred());
        }
        parts_depth(s, q + m)
    } else {
        let d = interpolation_depth(s, q);
        match lex_interpolation(s, q) {
            Some((_, q2)) => if q < q2 <= s.len() {
                deeper(d, parts_depth(s, q2))
            } else {
                d
            },
            None => d,
        }
    }
}

/// How many interpolation levels trying a string at `p` opens at most.
pub open spec fn string_depth(s: Seq<char>, p: int) -> nat
    decreases s.len() - p, 2int,
{
    if 0 <= p < s.len() && s[p] == '"' {
        parts_depth(s, p + 1)
    } else {
        0
    }
}

/// How many interpolation levels reading one token at `p` opens at most: a
/// string is only tried where no earlier kind of token matches.
pub open spec fn token_depth(s: Seq<char>, p: int, interp: bool) -> nat
    decreases s.len() - p, 3int,
{
    if interp && 0 <= p < s.len() && s[p] == '}' {
        0
    } else if lex_operator(s, p) is Some || lex_integer(s, p) is Some || lex_float(s, p) is Some
        || lex_bool(s, p) is Some || lex_punct(s, p) is Some || lex_keyword(s, p) is Some
        || lex_type(s, p) is Some || lex_identifier(s, p) is Some {
        0
    } else {
        string_depth(s, p)
    }
}

/// How many interpolation levels reading tokens from `p` opens at most: the
/// deepest nesting of interpolations the text holds, plus one for the
/// attempt that ends each string.
pub open spec fn tokens_depth(s: Seq<char>, p: int, interp: bool) -> nat
    decreases s.len() - p, 4int,
{
    let d = token_depth(s, p, interp);
    match lex_token(s, p, interp) {
        Some((_, q)) => if p < q <= s.len() {
            deeper(d, tokens_depth(s, q, interp))
        } else {
            d
        },
        None => d,
    }
}

/// No reading from `p` opens more interpolation levels than one more than
/// the characters left: each level but the last is entered at a `{`.
pub proof fn lemma_depth_bounds(s: Seq<char>, p: int)
    requires
        0 <= p <= s.len(),
    ensures
        interpolation_depth(s, p) <= s.len() - p + 1,
        parts_depth(s, p) <= s.len() - p + 1,
        string_depth(s, p) <= s.len() - p + 1,
        token_depth(s, p, true) <= s.len() - p + 1,
        token_depth(s, p, false) <= s.len() - p + 1,
        tokens_depth(s, p, true) <= s.len() - p + 1,
        tokens_depth(s, p, false) <= s.len() - p + 1,
    decreases s.len() - p,
{
    if p < s.len() {
        lemma_depth_bounds(s, p + 1);
    }
    assert(interpolation_depth(s, p) <= s.len() - p + 1);
    let m = run(s, p, text_pred());
    lemma_run_bounds(s, p, text_pred());
    if m >= 1 {
        lemma_depth_bounds(s, p + m);
        assert(parts_depth(s, p) == parts_depth(s, p + m));
    } else {
        match lex_interpolation(s, p) {
            Some((_, q2)) => if p < q2 <= s.len() {
                lemma_depth_bounds(s, q2);
            },
            None => {},
        }
    }
    assert(parts_depth(s, p) <= s.len() - p + 1);
    assert(string_depth(s, p) <= s.len() - p + 1);
    assert(token_depth(s, p, true) <= s.len() - p + 1);
    assert(token_depth(s, p, false) <= s.len() - p + 1);
    match lex_token(s, p, true) {
        Some((_, q)) => if p < q <= s.len() {
            lemma_depth_bounds(s, q);
        },
        None => {},
    }
    match lex_token(s, p, false) {
        Some((_, q)) => if p < q <= s.len() {
            lemma_depth_bounds(s, q);
        },
        None => {},
    }
}

/// An interpolation reads as `ExprStart`, the tokens inside, and `ExprEnd`.
pub proof fn lemma_interpolation_delimited(s: Seq<char>, q: int)
    requires
        lex_interpolation(s, q) is Some,
    ensures
        ({
            let r = lex_interpolation(s, q)->0;
            let ts = r.0;
            &&& ts.len() >= 2
            &&& ts[0] == SpecToken::ExprStart
            &&& ts.last() == SpecToken::ExprEnd
            &&& ts.subrange(1, ts.len() - 1) == lex_tokens(s, q + 1, true).0
        }),
{
    let inner = lex_tokens(s, q + 1, true).0;
    let ts = seq![SpecToken::ExprStart] + inner + seq![SpecToken::ExprEnd];
    assert(ts.subrange(1, ts.len() - 1) =~= inner);
}

} // verus!
