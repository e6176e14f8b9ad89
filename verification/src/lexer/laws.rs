//! Laws of the token grammar: operators and keywords are read whole, never
//! as a shorter one that begins them; type names, integers and plain strings
//! are read as what they write.
use vstd::prelude::*;

use super::scan::{
    caseless_at, dec_int_len, dec_int_value, digit_pred, digit_run, digits_value, float_len,
    is_ascii_alnum, is_digit, run, same_letter,
};
use super::spec::{
    first_literal, keyword_lits, lex_bool, lex_float, lex_identifier, lex_integer,
    lex_interpolation, lex_keyword, lex_operator, lex_punct, lex_string, lex_string_parts,
    lex_token, lex_tokens, lex_type, operator_lits, starts_at, text_char, text_pred, type_lits,
};
use super::types::SpecToken;

verus! {

/// The first of `lits` that stands at `p` is the `i`-th where none before it
/// does.
proof fn lemma_first_literal_at(s: Seq<char>, p: int, lits: Seq<Seq<char>>, i: int)
    requires
        0 <= i < lits.len(),
        starts_at(s, p, lits[i]),
        forall|j: int| 0 <= j < i ==> !starts_at(s, p, #[trigger] lits[j]),
    ensures
        first_literal(s, p, lits) == Some(lits[i]),
    decreases i,
{
    if i > 0 {
        assert(!starts_at(s, p, lits[0]));
        let rest = lits.drop_first();
        assert forall|j: int| 0 <= j < i - 1 implies !starts_at(s, p, #[trigger] rest[j]) by {
            assert(rest[j] == lits[j + 1]);
        }
        lemma_first_literal_at(s, p, rest, i - 1);
    }
}

/// A literal whose first or second character differs from the text at `p`
/// does not stand there.
proof fn lemma_differs(s: Seq<char>, p: int, lit: Seq<char>)
    requires
        0 <= p,
        p + 1 < s.len(),
        lit.len() >= 1,
    ensures
        lit[0] != s[p] || (lit.len() >= 2 && lit[1] != s[p + 1]) ==> !starts_at(s, p, lit),
{
    if starts_at(s, p, lit) {
        assert(s.subrange(p, p + lit.len())[0] == s[p]);
        if lit.len() >= 2 {
            assert(s.subrange(p, p + lit.len())[1] == s[p + 1]);
        }
    }
}

/// Each two-character operator that extends a shorter one is read whole:
/// where `>=`, `<=`, `<>`, `==` or `=>` stands at the start of a token, the
/// token read there is that operator, and the tokens after it are read from
/// the character after it; never `>`, `<` or `=` followed by a token of its
/// own.
pub proof fn lemma_operator_longest_match(s: Seq<char>, p: int, op: Seq<char>, interp: bool)
    requires
        op == ">="@ || op == "<="@ || op == "<>"@ || op == "=="@ || op == "=>"@,
        starts_at(s, p, op),
    ensures
        lex_token(s, p, interp) == Some((seq![SpecToken::Operation(op)], p + 2)),
        lex_tokens(s, p, interp) == (
            seq![SpecToken::Operation(op)] + lex_tokens(s, p + 2, interp).0,
            lex_tokens(s, p + 2, interp).1,
        ),
{
    let ops = operator_lits();
    reveal_strlit("+");
    reveal_strlit("-");
    reveal_strlit("*");
    reveal_strlit("/");
    reveal_strlit("^");
    reveal_strlit(">=");
    reveal_strlit(">");
    reveal_strlit("<=");
    reveal_strlit("<>");
    reveal_strlit("<");
    reveal_strlit("==");
    reveal_strlit("=>");
    assert("+"@.len() == 1 && "+"@[0] == '+');
    assert("-"@.len() == 1 && "-"@[0] == '-');
    assert("*"@.len() == 1 && "*"@[0] == '*');
    assert("/"@.len() == 1 && "/"@[0] == '/');
    assert("^"@.len() == 1 && "^"@[0] == '^');
    assert(">="@.len() == 2 && ">="@[0] == '>' && ">="@[1] == '=');
    assert(">"@.len() == 1 && ">"@[0] == '>');
    assert("<="@.len() == 2 && "<="@[0] == '<' && "<="@[1] == '=');
    assert("<>"@.len() == 2 && "<>"@[0] == '<' && "<>"@[1] == '>');
    assert("<"@.len() == 1 && "<"@[0] == '<');
    assert("=="@.len() == 2 && "=="@[0] == '=' && "=="@[1] == '=');
    assert("=>"@.len() == 2 && "=>"@[0] == '=' && "=>"@[1] == '>');
    assert(ops[0] == "+"@ && ops[1] == "-"@ && ops[2] == "*"@ && ops[3] == "/"@);
    assert(ops[4] == "^"@ && ops[5] == ">="@ && ops[6] == ">"@ && ops[7] == "<="@);
    assert(ops[8] == "<>"@ && ops[9] == "<"@ && ops[10] == "=="@ && ops[11] == "=>"@);
    assert(s.subrange(p, p + 2)[0] == s[p] && s.subrange(p, p + 2)[1] == s[p + 1]);
    let i: int = if op == ">="@ {
        5
    } else if op == "<="@ {
        7
    } else if op == "<>"@ {
        8
    } else if op == "=="@ {
        10
    } else {
        11
    };
    assert(ops[i] == op);
    assert forall|j: int| 0 <= j < i implies !starts_at(s, p, #[trigger] ops[j]) by {
        lemma_differs(s, p, ops[j]);
        assert(j == 0 || j == 1 || j == 2 || j == 3 || j == 4 || j == 5 || j == 6 || j == 7
            || j == 8 || j == 9 || j == 10);
    }
    lemma_first_literal_at(s, p, ops, i);
    assert(lex_operator(s, p) == Some((seq![SpecToken::Operation(op)], p + 2)));
    assert(lex_token(s, p, interp) == Some((seq![SpecToken::Operation(op)], p + 2)));
}

/// No ASCII letter or digit stands at `q`: the text ends there or a word does.
pub open spec fn ends_word(s: Seq<char>, q: int) -> bool {
    q >= s.len() || !is_ascii_alnum(s[q])
}

/// Where `lit` stands at `p`, each of its characters is the text's.
proof fn lemma_starts_chars(s: Seq<char>, p: int, lit: Seq<char>)
    requires
        starts_at(s, p, lit),
    ensures
        forall|i: int| 0 <= i < lit.len() ==> s[p + i] == #[trigger] lit[i],
{
    assert forall|i: int| 0 <= i < lit.len() implies s[p + i] == #[trigger] lit[i] by {
        assert(s.subrange(p, p + lit.len())[i] == s[p + i]);
    }
}

/// Where the word `w` stands at `p`, a literal `l` that differs from it in a
/// character, or goes on past it with a letter or digit, does not.
proof fn lemma_word_differs(s: Seq<char>, p: int, w: Seq<char>, l: Seq<char>)
    requires
        starts_at(s, p, w),
        ends_word(s, p + w.len()),
    ensures
        forall|i: int|
            0 <= i < w.len() && i < l.len() && #[trigger] l[i] != w[i] ==> !starts_at(s, p, l),
        l.len() > w.len() && is_ascii_alnum(l[w.len() as int]) ==> !starts_at(s, p, l),
{
    lemma_starts_chars(s, p, w);
    if starts_at(s, p, l) {
        lemma_starts_chars(s, p, l);
    }
}

/// None of `lits` stands at `p`.
proof fn lemma_first_literal_none(s: Seq<char>, p: int, lits: Seq<Seq<char>>)
    requires
        forall|j: int| 0 <= j < lits.len() ==> !starts_at(s, p, #[trigger] lits[j]),
    ensures
        first_literal(s, p, lits) is None,
    decreases lits.len(),
{
    if lits.len() > 0 {
        assert(!starts_at(s, p, lits[0]));
        let rest = lits.drop_first();
        assert forall|j: int| 0 <= j < rest.len() implies !starts_at(s, p, #[trigger] rest[j]) by {
            assert(rest[j] == lits[j + 1]);
        }
        lemma_first_literal_none(s, p, rest);
    }
}

/// At a lower-case letter other than `i`, and other than an `n` before `ã`,
/// no integer, float or punctuation starts.
proof fn lemma_letter_start(s: Seq<char>, p: int)
    requires
        0 <= p < s.len(),
        'a' <= s[p] <= 'z',
        s[p] != 'i',
        s[p] == 'n' ==> p + 1 < s.len() && s[p + 1] == 'ã',
    ensures
        lex_integer(s, p) is None,
        lex_float(s, p) is None,
        lex_punct(s, p) is None,
{
    let t = s.skip(p);
    assert(t[0] == s[p]);
    assert(dec_int_len(t) == 0);
    if s[p] == 'n' {
        assert(t[1] == s[p + 1]);
        assert(!same_letter(t[0int + 1int], seq!['n', 'a', 'n'][1]));
        assert(!caseless_at(t, 0, seq!['n', 'a', 'n']));
    } else {
        assert(digit_run(t, 0) == 0);
    }
}

/// Every keyword is read whole: where a keyword stands at the start of a
/// token and no ASCII letter or digit follows it, the token read there is
/// that keyword, and the tokens after it are read from the character after
/// it; a keyword that begins with another (`senaose` and `se`, `entao` and
/// `e`) is never read as the shorter one.
pub proof fn lemma_keyword_whole(s: Seq<char>, p: int, i: int, interp: bool)
    requires
        0 <= i < keyword_lits().len(),
        starts_at(s, p, keyword_lits()[i]),
        ends_word(s, p + keyword_lits()[i].len()),
    ensures
        ({
            let k = keyword_lits()[i];
            &&& lex_token(s, p, interp) == Some((seq![SpecToken::Keyword(k)], p + k.len()))
            &&& lex_tokens(s, p, interp) == (
                seq![SpecToken::Keyword(k)] + lex_tokens(s, p + k.len(), interp).0,
                lex_tokens(s, p + k.len(), interp).1,
            )
        }),
{
    let k = keyword_lits()[i];
    lemma_keyword_chars();
    lemma_operator_chars();
    lemma_keyword_first(s, p, i);
    lemma_keyword_not_operator(s, p, i);
    lemma_starts_chars(s, p, k);
    assert(k.len() >= 1);
    assert(s[p + 0] == k[0]);
    assert(i == 3 || i == 8 ==> s[p + 1] == k[1]);
    assert(i == 0 || i == 1 || i == 2 || i == 3 || i == 4 || i == 5 || i == 6 || i == 7 || i == 8
        || i == 9 || i == 10 || i == 11 || i == 12 || i == 13 || i == 14 || i == 15 || i == 16
        || i == 17 || i == 18 || i == 19 || i == 20 || i == 21 || i == 22);
    lemma_letter_start(s, p);
    lemma_word_differs(s, p, k, "verdadeiro"@);
    lemma_word_differs(s, p, k, "falso"@);
    assert(lex_bool(s, p) is None);
    assert(lex_operator(s, p) is None);
    assert(lex_keyword(s, p) == Some((seq![SpecToken::Keyword(k)], p + k.len())));
    assert(lex_token(s, p, interp) == Some((seq![SpecToken::Keyword(k)], p + k.len())));
}

/// The characters of each keyword.
proof fn lemma_keyword_chars()
    ensures
        keyword_lits()[0] == "var"@,
        keyword_lits()[1] == "em"@,
        keyword_lits()[2] == "ou"@,
        keyword_lits()[3] == "não"@,
        keyword_lits()[4] == "entao"@,
        keyword_lits()[5] == "senaose"@,
        keyword_lits()[6] == "senao"@,
        keyword_lits()[7] == "senãose"@,
        keyword_lits()[8] == "senão"@,
        keyword_lits()[9] == "se"@,
        keyword_lits()[10] == "fim"@,
        keyword_lits()[11] == "escolha"@,
        keyword_lits()[12] == "caso"@,
        keyword_lits()[13] == "para"@,
        keyword_lits()[14] == "de"@,
        keyword_lits()[15] == "até"@,
        keyword_lits()[16] == "faça"@,
        keyword_lits()[17] == "passo"@,
        keyword_lits()[18] == "enquanto"@,
        keyword_lits()[19] == "e"@,
        keyword_lits()[20] == "retorne"@,
        keyword_lits()[21] == "tipo"@,
        keyword_lits()[22] == "gere"@,
        "var"@.len() == 3 && "var"@[0] == 'v' && "var"@[1] == 'a' && "var"@[2] == 'r',
        "em"@.len() == 2 && "em"@[0] == 'e' && "em"@[1] == 'm',
        "ou"@.len() == 2 && "ou"@[0] == 'o' && "ou"@[1] == 'u',
        "não"@.len() == 3 && "não"@[0] == 'n' && "não"@[1] == 'ã' && "não"@[2] == 'o',
        "entao"@.len() == 5 && "entao"@[0] == 'e' && "entao"@[1] == 'n' && "entao"@[2] == 't' && "entao"@[3] == 'a' && "entao"@[4] == 'o',
        "senaose"@.len() == 7 && "senaose"@[0] == 's' && "senaose"@[1] == 'e' && "senaose"@[2] == 'n' && "senaose"@[3] == 'a' && "senaose"@[4] == 'o' && "senaose"@[5] == 's' && "senaose"@[6] == 'e',
        "senao"@.len() == 5 && "senao"@[0] == 's' && "senao"@[1] == 'e' && "senao"@[2] == 'n' && "senao"@[3] == 'a' && "senao"@[4] == 'o',
        "senãose"@.len() == 7 && "senãose"@[0] == 's' && "senãose"@[1] == 'e' && "senãose"@[2] == 'n' && "senãose"@[3] == 'ã' && "senãose"@[4] == 'o' && "senãose"@[5] == 's' && "senãose"@[6] == 'e',
        "senão"@.len() == 5 && "senão"@[0] == 's' && "senão"@[1] == 'e' && "senão"@[2] == 'n' && "senão"@[3] == 'ã' && "senão"@[4] == 'o',
        "se"@.len() == 2 && "se"@[0] == 's' && "se"@[1] == 'e',
        "fim"@.len() == 3 && "fim"@[0] == 'f' && "fim"@[1] == 'i' && "fim"@[2] == 'm',
        "escolha"@.len() == 7 && "escolha"@[0] == 'e' && "escolha"@[1] == 's' && "escolha"@[2] == 'c' && "escolha"@[3] == 'o' && "escolha"@[4] == 'l' && "escolha"@[5] == 'h' && "escolha"@[6] == 'a',
        "caso"@.len() == 4 && "caso"@[0] == 'c' && "caso"@[1] == 'a' && "caso"@[2] == 's' && "caso"@[3] == 'o',
        "para"@.len() == 4 && "para"@[0] == 'p' && "para"@[1] == 'a' && "para"@[2] == 'r' && "para"@[3] == 'a',
        "de"@.len() == 2 && "de"@[0] == 'd' && "de"@[1] == 'e',
        "até"@.len() == 3 && "até"@[0] == 'a' && "até"@[1] == 't' && "até"@[2] == 'é',
        "faça"@.len() == 4 && "faça"@[0] == 'f' && "faça"@[1] == 'a' && "faça"@[2] == 'ç' && "faça"@[3] == 'a',
        "passo"@.len() == 5 && "passo"@[0] == 'p' && "passo"@[1] == 'a' && "passo"@[2] == 's' && "passo"@[3] == 's' && "passo"@[4] == 'o',
        "enquanto"@.len() == 8 && "enquanto"@[0] == 'e' && "enquanto"@[1] == 'n' && "enquanto"@[2] == 'q' && "enquanto"@[3] == 'u' && "enquanto"@[4] == 'a' && "enquanto"@[5] == 'n' && "enquanto"@[6] == 't' && "enquanto"@[7] == 'o',
        "e"@.len() == 1 && "e"@[0] == 'e',
        "retorne"@.len() == 7 && "retorne"@[0] == 'r' && "retorne"@[1] == 'e' && "retorne"@[2] == 't' && "retorne"@[3] == 'o' && "retorne"@[4] == 'r' && "retorne"@[5] == 'n' && "retorne"@[6] == 'e',
        "tipo"@.len() == 4 && "tipo"@[0] == 't' && "tipo"@[1] == 'i' && "tipo"@[2] == 'p' && "tipo"@[3] == 'o',
        "gere"@.len() == 4 && "gere"@[0] == 'g' && "gere"@[1] == 'e' && "gere"@[2] == 'r' && "gere"@[3] == 'e',
{
    reveal_strlit("var");
    reveal_strlit("em");
    reveal_strlit("ou");
    reveal_strlit("não");
    reveal_strlit("entao");
    reveal_strlit("senaose");
    reveal_strlit("senao");
    reveal_strlit("senãose");
    reveal_strlit("senão");
    reveal_strlit("se");
    reveal_strlit("fim");
    reveal_strlit("escolha");
    reveal_strlit("caso");
    reveal_strlit("para");
    reveal_strlit("de");
    reveal_strlit("até");
    reveal_strlit("faça");
    reveal_strlit("passo");
    reveal_strlit("enquanto");
    reveal_strlit("e");
    reveal_strlit("retorne");
    reveal_strlit("tipo");
    reveal_strlit("gere");
    assert("var"@.len() == 3 && "var"@[0] == 'v' && "var"@[1] == 'a' && "var"@[2] == 'r');
    assert("em"@.len() == 2 && "em"@[0] == 'e' && "em"@[1] == 'm');
    assert("ou"@.len() == 2 && "ou"@[0] == 'o' && "ou"@[1] == 'u');
    assert("não"@.len() == 3 && "não"@[0] == 'n' && "não"@[1] == 'ã' && "não"@[2] == 'o');
    assert("entao"@.len() == 5 && "entao"@[0] == 'e' && "entao"@[1] == 'n' && "entao"@[2] == 't' && "entao"@[3] == 'a' && "entao"@[4] == 'o');
    assert("senaose"@.len() == 7 && "senaose"@[0] == 's' && "senaose"@[1] == 'e' && "senaose"@[2] == 'n' && "senaose"@[3] == 'a' && "senaose"@[4] == 'o' && "senaose"@[5] == 's' && "senaose"@[6] == 'e');
    assert("senao"@.len() == 5 && "senao"@[0] == 's' && "senao"@[1] == 'e' && "senao"@[2] == 'n' && "senao"@[3] == 'a' && "senao"@[4] == 'o');
    assert("senãose"@.len() == 7 && "senãose"@[0] == 's' && "senãose"@[1] == 'e' && "senãose"@[2] == 'n' && "senãose"@[3] == 'ã' && "senãose"@[4] == 'o' && "senãose"@[5] == 's' && "senãose"@[6] == 'e');
    assert("senão"@.len() == 5 && "senão"@[0] == 's' && "senão"@[1] == 'e' && "senão"@[2] == 'n' && "senão"@[3] == 'ã' && "senão"@[4] == 'o');
    assert("se"@.len() == 2 && "se"@[0] == 's' && "se"@[1] == 'e');
    assert("fim"@.len() == 3 && "fim"@[0] == 'f' && "fim"@[1] == 'i' && "fim"@[2] == 'm');
    assert("escolha"@.len() == 7 && "escolha"@[0] == 'e' && "escolha"@[1] == 's' && "escolha"@[2] == 'c' && "escolha"@[3] == 'o' && "escolha"@[4] == 'l' && "escolha"@[5] == 'h' && "escolha"@[6] == 'a');
    assert("caso"@.len() == 4 && "caso"@[0] == 'c' && "caso"@[1] == 'a' && "caso"@[2] == 's' && "caso"@[3] == 'o');
    assert("para"@.len() == 4 && "para"@[0] == 'p' && "para"@[1] == 'a' && "para"@[2] == 'r' && "para"@[3] == 'a');
    assert("de"@.len() == 2 && "de"@[0] == 'd' && "de"@[1] == 'e');
    assert("até"@.len() == 3 && "até"@[0] == 'a' && "até"@[1] == 't' && "até"@[2] == 'é');
    assert("faça"@.len() == 4 && "faça"@[0] == 'f' && "faça"@[1] == 'a' && "faça"@[2] == 'ç' && "faça"@[3] == 'a');
    assert("passo"@.len() == 5 && "passo"@[0] == 'p' && "passo"@[1] == 'a' && "passo"@[2] == 's' && "passo"@[3] == 's' && "passo"@[4] == 'o');
    assert("enquanto"@.len() == 8 && "enquanto"@[0] == 'e' && "enquanto"@[1] == 'n' && "enquanto"@[2] == 'q' && "enquanto"@[3] == 'u' && "enquanto"@[4] == 'a' && "enquanto"@[5] == 'n' && "enquanto"@[6] == 't' && "enquanto"@[7] == 'o');
    assert("e"@.len() == 1 && "e"@[0] == 'e');
    assert("retorne"@.len() == 7 && "retorne"@[0] == 'r' && "retorne"@[1] == 'e' && "retorne"@[2] == 't' && "retorne"@[3] == 'o' && "retorne"@[4] == 'r' && "retorne"@[5] == 'n' && "retorne"@[6] == 'e');
    assert("tipo"@.len() == 4 && "tipo"@[0] == 't' && "tipo"@[1] == 'i' && "tipo"@[2] == 'p' && "tipo"@[3] == 'o');
    assert("gere"@.len() == 4 && "gere"@[0] == 'g' && "gere"@[1] == 'e' && "gere"@[2] == 'r' && "gere"@[3] == 'e');
    let kws = keyword_lits();
    assert(kws[0] == "var"@ && kws[1] == "em"@ && kws[2] == "ou"@ && kws[3] == "não"@);
    assert(kws[4] == "entao"@ && kws[5] == "senaose"@ && kws[6] == "senao"@ && kws[7] == "senãose"@);
    assert(kws[8] == "senão"@ && kws[9] == "se"@ && kws[10] == "fim"@ && kws[11] == "escolha"@);
    assert(kws[12] == "caso"@ && kws[13] == "para"@ && kws[14] == "de"@ && kws[15] == "até"@);
    assert(kws[16] == "faça"@ && kws[17] == "passo"@ && kws[18] == "enquanto"@ && kws[19] == "e"@);
    assert(kws[20] == "retorne"@ && kws[21] == "tipo"@ && kws[22] == "gere"@);
}

/// The characters of each operator, and of the two truth values.
proof fn lemma_operator_chars()
    ensures
        operator_lits()[0] == "+"@,
        operator_lits()[1] == "-"@,
        operator_lits()[2] == "*"@,
        operator_lits()[3] == "/"@,
        operator_lits()[4] == "^"@,
        operator_lits()[5] == ">="@,
        operator_lits()[6] == ">"@,
        operator_lits()[7] == "<="@,
        operator_lits()[8] == "<>"@,
        operator_lits()[9] == "<"@,
        operator_lits()[10] == "=="@,
        operator_lits()[11] == "=>"@,
        operator_lits()[12] == "="@,
        operator_lits()[13] == ":="@,
        operator_lits()[14] == "::"@,
        operator_lits()[15] == "div"@,
        operator_lits()[16] == "mod"@,
        operator_lits()[17] == "imprima"@,
        operator_lits()[18] == "escreva"@,
        "+"@.len() == 1 && "+"@[0] == '+',
        "-"@.len() == 1 && "-"@[0] == '-',
        "*"@.len() == 1 && "*"@[0] == '*',
        "/"@.len() == 1 && "/"@[0] == '/',
        "^"@.len() == 1 && "^"@[0] == '^',
        ">="@.len() == 2 && ">="@[0] == '>' && ">="@[1] == '=',
        ">"@.len() == 1 && ">"@[0] == '>',
        "<="@.len() == 2 && "<="@[0] == '<' && "<="@[1] == '=',
        "<>"@.len() == 2 && "<>"@[0] == '<' && "<>"@[1] == '>',
        "<"@.len() == 1 && "<"@[0] == '<',
        "=="@.len() == 2 && "=="@[0] == '=' && "=="@[1] == '=',
        "=>"@.len() == 2 && "=>"@[0] == '=' && "=>"@[1] == '>',
        "="@.len() == 1 && "="@[0] == '=',
        ":="@.len() == 2 && ":="@[0] == ':' && ":="@[1] == '=',
        "::"@.len() == 2 && "::"@[0] == ':' && "::"@[1] == ':',
        "div"@.len() == 3 && "div"@[0] == 'd' && "div"@[1] == 'i' && "div"@[2] == 'v',
        "mod"@.len() == 3 && "mod"@[0] == 'm' && "mod"@[1] == 'o' && "mod"@[2] == 'd',
        "imprima"@.len() == 7 && "imprima"@[0] == 'i' && "imprima"@[1] == 'm' && "imprima"@[2] == 'p' && "imprima"@[3] == 'r' && "imprima"@[4] == 'i' && "imprima"@[5] == 'm' && "imprima"@[6] == 'a',
        "escreva"@.len() == 7 && "escreva"@[0] == 'e' && "escreva"@[1] == 's' && "escreva"@[2] == 'c' && "escreva"@[3] == 'r' && "escreva"@[4] == 'e' && "escreva"@[5] == 'v' && "escreva"@[6] == 'a',
        "verdadeiro"@.len() == 10 && "verdadeiro"@[0] == 'v' && "verdadeiro"@[1] == 'e' && "verdadeiro"@[2] == 'r' && "verdadeiro"@[3] == 'd' && "verdadeiro"@[4] == 'a' && "verdadeiro"@[5] == 'd' && "verdadeiro"@[6] == 'e' && "verdadeiro"@[7] == 'i' && "verdadeiro"@[8] == 'r' && "verdadeiro"@[9] == 'o',
        "falso"@.len() == 5 && "falso"@[0] == 'f' && "falso"@[1] == 'a' && "falso"@[2] == 'l' && "falso"@[3] == 's' && "falso"@[4] == 'o',
{
    reveal_strlit("+");
    reveal_strlit("-");
    reveal_strlit("*");
    reveal_strlit("/");
    reveal_strlit("^");
    reveal_strlit(">=");
    reveal_strlit(">");
    reveal_strlit("<=");
    reveal_strlit("<>");
    reveal_strlit("<");
    reveal_strlit("==");
    reveal_strlit("=>");
    reveal_strlit("=");
    reveal_strlit(":=");
    reveal_strlit("::");
    reveal_strlit("div");
    reveal_strlit("mod");
    reveal_strlit("imprima");
    reveal_strlit("escreva");
    reveal_strlit("verdadeiro");
    reveal_strlit("falso");
    assert("+"@.len() == 1 && "+"@[0] == '+');
    assert("-"@.len() == 1 && "-"@[0] == '-');
    assert("*"@.len() == 1 && "*"@[0] == '*');
    assert("/"@.len() == 1 && "/"@[0] == '/');
    assert("^"@.len() == 1 && "^"@[0] == '^');
    assert(">="@.len() == 2 && ">="@[0] == '>' && ">="@[1] == '=');
    assert(">"@.len() == 1 && ">"@[0] == '>');
    assert("<="@.len() == 2 && "<="@[0] == '<' && "<="@[1] == '=');
    assert("<>"@.len() == 2 && "<>"@[0] == '<' && "<>"@[1] == '>');
    assert("<"@.len() == 1 && "<"@[0] == '<');
    assert("=="@.len() == 2 && "=="@[0] == '=' && "=="@[1] == '=');
    assert("=>"@.len() == 2 && "=>"@[0] == '=' && "=>"@[1] == '>');
    assert("="@.len() == 1 && "="@[0] == '=');
    assert(":="@.len() == 2 && ":="@[0] == ':' && ":="@[1] == '=');
    assert("::"@.len() == 2 && "::"@[0] == ':' && "::"@[1] == ':');
    assert("div"@.len() == 3 && "div"@[0] == 'd' && "div"@[1] == 'i' && "div"@[2] == 'v');
    assert("mod"@.len() == 3 && "mod"@[0] == 'm' && "mod"@[1] == 'o' && "mod"@[2] == 'd');
    assert("imprima"@.len() == 7 && "imprima"@[0] == 'i' && "imprima"@[1] == 'm' && "imprima"@[2] == 'p' && "imprima"@[3] == 'r' && "imprima"@[4] == 'i' && "imprima"@[5] == 'm' && "imprima"@[6] == 'a');
    assert("escreva"@.len() == 7 && "escreva"@[0] == 'e' && "escreva"@[1] == 's' && "escreva"@[2] == 'c' && "escreva"@[3] == 'r' && "escreva"@[4] == 'e' && "escreva"@[5] == 'v' && "escreva"@[6] == 'a');
    assert("verdadeiro"@.len() == 10 && "verdadeiro"@[0] == 'v' && "verdadeiro"@[1] == 'e' && "verdadeiro"@[2] == 'r' && "verdadeiro"@[3] == 'd' && "verdadeiro"@[4] == 'a' && "verdadeiro"@[5] == 'd' && "verdadeiro"@[6] == 'e' && "verdadeiro"@[7] == 'i' && "verdadeiro"@[8] == 'r' && "verdadeiro"@[9] == 'o');
    assert("falso"@.len() == 5 && "falso"@[0] == 'f' && "falso"@[1] == 'a' && "falso"@[2] == 'l' && "falso"@[3] == 's' && "falso"@[4] == 'o');
    let ops = operator_lits();
    assert(ops[0] == "+"@ && ops[1] == "-"@ && ops[2] == "*"@ && ops[3] == "/"@);
    assert(ops[4] == "^"@ && ops[5] == ">="@ && ops[6] == ">"@ && ops[7] == "<="@);
    assert(ops[8] == "<>"@ && ops[9] == "<"@ && ops[10] == "=="@ && ops[11] == "=>"@);
    assert(ops[12] == "="@ && ops[13] == ":="@ && ops[14] == "::"@ && ops[15] == "div"@);
    assert(ops[16] == "mod"@ && ops[17] == "imprima"@ && ops[18] == "escreva"@);
}

/// The `i`-th keyword, standing at `p` and not followed by an ASCII letter or
/// digit, is the first keyword found there: no keyword before it in the
/// table stands there.
#[verifier::rlimit(100)]
proof fn lemma_keyword_first(s: Seq<char>, p: int, i: int)
    requires
        0 <= i < keyword_lits().len(),
        starts_at(s, p, keyword_lits()[i]),
        ends_word(s, p + keyword_lits()[i].len()),
    ensures
        first_literal(s, p, keyword_lits()) == Some(keyword_lits()[i]),
{
    let kws = keyword_lits();
    let k = kws[i];
    lemma_keyword_chars();
    lemma_starts_chars(s, p, k);
    if i == 1 {
        assert forall|j: int| 0 <= j < 1 implies !starts_at(s, p, #[trigger] kws[j]) by {
            lemma_word_differs(s, p, k, kws[j]);
            assert(j == 0);
        }
    } else if i == 2 {
        assert forall|j: int| 0 <= j < 2 implies !starts_at(s, p, #[trigger] kws[j]) by {
            lemma_word_differs(s, p, k, kws[j]);
            assert(j == 0 || j == 1);
        }
    } else if i == 3 {
        assert forall|j: int| 0 <= j < 3 implies !starts_at(s, p, #[trigger] kws[j]) by {
            lemma_word_differs(s, p, k, kws[j]);
            assert(j == 0 || j == 1 || j == 2);
        }
    } else if i == 4 {
        assert forall|j: int| 0 <= j < 4 implies !starts_at(s, p, #[trigger] kws[j]) by {
            lemma_word_differs(s, p, k, kws[j]);
            assert(j == 0 || j == 1 || j == 2 || j == 3);
        }
    } else if i == 5 {
        assert forall|j: int| 0 <= j < 5 implies !starts_at(s, p, #[trigger] kws[j]) by {
            lemma_word_differs(s, p, k, kws[j]);
            assert(j == 0 || j == 1 || j == 2 || j == 3 || j == 4);
        }
    } else if i == 6 {
        assert forall|j: int| 0 <= j < 6 implies !starts_at(s, p, #[trigger] kws[j]) by {
            lemma_word_differs(s, p, k, kws[j]);
            assert(j == 0 || j == 1 || j == 2 || j == 3 || j == 4 || j == 5);
        }
    } else if i == 7 {
        assert forall|j: int| 0 <= j < 7 implies !starts_at(s, p, #[trigger] kws[j]) by {
            lemma_word_differs(s, p, k, kws[j]);
            assert(j == 0 || j == 1 || j == 2 || j == 3 || j == 4 || j == 5 || j == 6);
        }
    } else if i == 8 {
        assert forall|j: int| 0 <= j < 8 implies !starts_at(s, p, #[trigger] kws[j]) by {
            lemma_word_differs(s, p, k, kws[j]);
            assert(j == 0 || j == 1 || j == 2 || j == 3 || j == 4 || j == 5 || j == 6 || j == 7);
        }
    } else if i == 9 {
        assert forall|j: int| 0 <= j < 9 implies !starts_at(s, p, #[trigger] kws[j]) by {
            lemma_word_differs(s, p, k, kws[j]);
            assert(j == 0 || j == 1 || j == 2 || j == 3 || j == 4 || j == 5 || j == 6 || j == 7 || j == 8);
        }
    } else if i == 10 {
        assert forall|j: int| 0 <= j < 10 implies !starts_at(s, p, #[trigger] kws[j]) by {
            lemma_word_differs(s, p, k, kws[j]);
            assert(j == 0 || j == 1 || j == 2 || j == 3 || j == 4 || j == 5 || j == 6 || j == 7 || j == 8 || j == 9);
        }
    } else if i == 11 {
        assert forall|j: int| 0 <= j < 11 implies !starts_at(s, p, #[trigger] kws[j]) by {
            lemma_word_differs(s, p, k, kws[j]);
            assert(j == 0 || j == 1 || j == 2 || j == 3 || j == 4 || j == 5 || j == 6 || j == 7 || j == 8 || j == 9 || j == 10);
        }
    } else if i == 12 {
        assert forall|j: int| 0 <= j < 12 implies !starts_at(s, p, #[trigger] kws[j]) by {
            lemma_word_differs(s, p, k, kws[j]);
            assert(j == 0 || j == 1 || j == 2 || j == 3 || j == 4 || j == 5 || j == 6 || j == 7 || j == 8 || j == 9 || j == 10 || j == 11);
        }
    } else if i == 13 {
        assert forall|j: int| 0 <= j < 13 implies !starts_at(s, p, #[trigger] kws[j]) by {
            lemma_word_differs(s, p, k, kws[j]);
            assert(j == 0 || j == 1 || j == 2 || j == 3 || j == 4 || j == 5 || j == 6 || j == 7 || j == 8 || j == 9 || j == 10 || j == 11 || j == 12);
        }
    } else if i == 14 {
        assert forall|j: int| 0 <= j < 14 implies !starts_at(s, p, #[trigger] kws[j]) by {
            lemma_word_differs(s, p, k, kws[j]);
            assert(j == 0 || j == 1 || j == 2 || j == 3 || j == 4 || j == 5 || j == 6 || j == 7 || j == 8 || j == 9 || j == 10 || j == 11 || j == 12 || j == 13);
        }
    } else if i == 15 {
        assert forall|j: int| 0 <= j < 15 implies !starts_at(s, p, #[trigger] kws[j]) by {
            lemma_word_differs(s, p, k, kws[j]);
            assert(j == 0 || j == 1 || j == 2 || j == 3 || j == 4 || j == 5 || j == 6 || j == 7 || j == 8 || j == 9 || j == 10 || j == 11 || j == 12 || j == 13 || j == 14);
        }
    } else if i == 16 {
        assert forall|j: int| 0 <= j < 16 implies !starts_at(s, p, #[trigger] kws[j]) by {
            lemma_word_differs(s, p, k, kws[j]);
            assert(j == 0 || j == 1 || j == 2 || j == 3 || j == 4 || j == 5 || j == 6 || j == 7 || j == 8 || j == 9 || j == 10 || j == 11 || j == 12 || j == 13 || j == 14 || j == 15);
        }
    } else if i == 17 {
        assert forall|j: int| 0 <= j < 17 implies !starts_at(s, p, #[trigger] kws[j]) by {
            lemma_word_differs(s, p, k, kws[j]);
            assert(j == 0 || j == 1 || j == 2 || j == 3 || j == 4 || j == 5 || j == 6 || j == 7 || j == 8 || j == 9 || j == 10 || j == 11 || j == 12 || j == 13 || j == 14 || j == 15 || j == 16);
        }
    } else if i == 18 {
        assert forall|j: int| 0 <= j < 18 implies !starts_at(s, p, #[trigger] kws[j]) by {
            lemma_word_differs(s, p, k, kws[j]);
            assert(j == 0 || j == 1 || j == 2 || j == 3 || j == 4 || j == 5 || j == 6 || j == 7 || j == 8 || j == 9 || j == 10 || j == 11 || j == 12 || j == 13 || j == 14 || j == 15 || j == 16 || j == 17);
        }
    } else if i == 19 {
        assert forall|j: int| 0 <= j < 19 implies !starts_at(s, p, #[trigger] kws[j]) by {
            lemma_word_differs(s, p, k, kws[j]);
            assert(j == 0 || j == 1 || j == 2 || j == 3 || j == 4 || j == 5 || j == 6 || j == 7 || j == 8 || j == 9 || j == 10 || j == 11 || j == 12 || j == 13 || j == 14 || j == 15 || j == 16 || j == 17 || j == 18);
        }
    } else if i == 20 {
        assert forall|j: int| 0 <= j < 20 implies !starts_at(s, p, #[trigger] kws[j]) by {
            lemma_word_differs(s, p, k, kws[j]);
            assert(j == 0 || j == 1 || j == 2 || j == 3 || j == 4 || j == 5 || j == 6 || j == 7 || j == 8 || j == 9 || j == 10 || j == 11 || j == 12 || j == 13 || j == 14 || j == 15 || j == 16 || j == 17 || j == 18 || j == 19);
        }
    } else if i == 21 {
        assert forall|j: int| 0 <= j < 21 implies !starts_at(s, p, #[trigger] kws[j]) by {
            lemma_word_differs(s, p, k, kws[j]);
            assert(j == 0 || j == 1 || j == 2 || j == 3 || j == 4 || j == 5 || j == 6 || j == 7 || j == 8 || j == 9 || j == 10 || j == 11 || j == 12 || j == 13 || j == 14 || j == 15 || j == 16 || j == 17 || j == 18 || j == 19 || j == 20);
        }
    } else if i == 22 {
        assert forall|j: int| 0 <= j < 22 implies !starts_at(s, p, #[trigger] kws[j]) by {
            lemma_word_differs(s, p, k, kws[j]);
            assert(j == 0 || j == 1 || j == 2 || j == 3 || j == 4 || j == 5 || j == 6 || j == 7 || j == 8 || j == 9 || j == 10 || j == 11 || j == 12 || j == 13 || j == 14 || j == 15 || j == 16 || j == 17 || j == 18 || j == 19 || j == 20 || j == 21);
        }
    }
    lemma_first_literal_at(s, p, kws, i);
}

/// No operator stands where a keyword stands and ends a word.
#[verifier::rlimit(100)]
proof fn lemma_keyword_not_operator(s: Seq<char>, p: int, i: int)
    requires
        0 <= i < keyword_lits().len(),
        starts_at(s, p, keyword_lits()[i]),
        ends_word(s, p + keyword_lits()[i].len()),
    ensures
        first_literal(s, p, operator_lits()) is None,
{
    let kws = keyword_lits();
    let ops = operator_lits();
    let k = kws[i];
    lemma_keyword_chars();
    lemma_operator_chars();
    lemma_starts_chars(s, p, k);
    if i == 0 {
        assert forall|j: int| 0 <= j < 19 implies !starts_at(s, p, #[trigger] ops[j]) by {
            lemma_word_differs(s, p, k, ops[j]);
            assert(j == 0 || j == 1 || j == 2 || j == 3 || j == 4 || j == 5 || j == 6 || j == 7 || j == 8 || j == 9 || j == 10 || j == 11 || j == 12 || j == 13 || j == 14 || j == 15 || j == 16 || j == 17 || j == 18);
        }
    } else if i == 1 {
        assert forall|j: int| 0 <= j < 19 implies !starts_at(s, p, #[trigger] ops[j]) by {
            lemma_word_differs(s, p, k, ops[j]);
            assert(j == 0 || j == 1 || j == 2 || j == 3 || j == 4 || j == 5 || j == 6 || j == 7 || j == 8 || j == 9 || j == 10 || j == 11 || j == 12 || j == 13 || j == 14 || j == 15 || j == 16 || j == 17 || j == 18);
        }
    } else if i == 2 {
        assert forall|j: int| 0 <= j < 19 implies !starts_at(s, p, #[trigger] ops[j]) by {
            lemma_word_differs(s, p, k, ops[j]);
            assert(j == 0 || j == 1 || j == 2 || j == 3 || j == 4 || j == 5 || j == 6 || j == 7 || j == 8 || j == 9 || j == 10 || j == 11 || j == 12 || j == 13 || j == 14 || j == 15 || j == 16 || j == 17 || j == 18);
        }
    } else if i == 3 {
        assert forall|j: int| 0 <= j < 19 implies !starts_at(s, p, #[trigger] ops[j]) by {
            lemma_word_differs(s, p, k, ops[j]);
            assert(j == 0 || j == 1 || j == 2 || j == 3 || j == 4 || j == 5 || j == 6 || j == 7 || j == 8 || j == 9 || j == 10 || j == 11 || j == 12 || j == 13 || j == 14 || j == 15 || j == 16 || j == 17 || j == 18);
        }
    } else if i == 4 {
        assert forall|j: int| 0 <= j < 19 implies !starts_at(s, p, #[trigger] ops[j]) by {
            lemma_word_differs(s, p, k, ops[j]);
            assert(j == 0 || j == 1 || j == 2 || j == 3 || j == 4 || j == 5 || j == 6 || j == 7 || j == 8 || j == 9 || j == 10 || j == 11 || j == 12 || j == 13 || j == 14 || j == 15 || j == 16 || j == 17 || j == 18);
        }
    } else if i == 5 {
        assert forall|j: int| 0 <= j < 19 implies !starts_at(s, p, #[trigger] ops[j]) by {
            lemma_word_differs(s, p, k, ops[j]);
            assert(j == 0 || j == 1 || j == 2 || j == 3 || j == 4 || j == 5 || j == 6 || j == 7 || j == 8 || j == 9 || j == 10 || j == 11 || j == 12 || j == 13 || j == 14 || j == 15 || j == 16 || j == 17 || j == 18);
        }
    } else if i == 6 {
        assert forall|j: int| 0 <= j < 19 implies !starts_at(s, p, #[trigger] ops[j]) by {
            lemma_word_differs(s, p, k, ops[j]);
            assert(j == 0 || j == 1 || j == 2 || j == 3 || j == 4 || j == 5 || j == 6 || j == 7 || j == 8 || j == 9 || j == 10 || j == 11 || j == 12 || j == 13 || j == 14 || j == 15 || j == 16 || j == 17 || j == 18);
        }
    } else if i == 7 {
        assert forall|j: int| 0 <= j < 19 implies !starts_at(s, p, #[trigger] ops[j]) by {
            lemma_word_differs(s, p, k, ops[j]);
            assert(j == 0 || j == 1 || j == 2 || j == 3 || j == 4 || j == 5 || j == 6 || j == 7 || j == 8 || j == 9 || j == 10 || j == 11 || j == 12 || j == 13 || j == 14 || j == 15 || j == 16 || j == 17 || j == 18);
        }
    } else if i == 8 {
        assert forall|j: int| 0 <= j < 19 implies !starts_at(s, p, #[trigger] ops[j]) by {
            lemma_word_differs(s, p, k, ops[j]);
            assert(j == 0 || j == 1 || j == 2 || j == 3 || j == 4 || j == 5 || j == 6 || j == 7 || j == 8 || j == 9 || j == 10 || j == 11 || j == 12 || j == 13 || j == 14 || j == 15 || j == 16 || j == 17 || j == 18);
        }
    } else if i == 9 {
        assert forall|j: int| 0 <= j < 19 implies !starts_at(s, p, #[trigger] ops[j]) by {
            lemma_word_differs(s, p, k, ops[j]);
            assert(j == 0 || j == 1 || j == 2 || j == 3 || j == 4 || j == 5 || j == 6 || j == 7 || j == 8 || j == 9 || j == 10 || j == 11 || j == 12 || j == 13 || j == 14 || j == 15 || j == 16 || j == 17 || j == 18);
        }
    } else if i == 10 {
        assert forall|j: int| 0 <= j < 19 implies !starts_at(s, p, #[trigger] ops[j]) by {
            lemma_word_differs(s, p, k, ops[j]);
            assert(j == 0 || j == 1 || j == 2 || j == 3 || j == 4 || j == 5 || j == 6 || j == 7 || j == 8 || j == 9 || j == 10 || j == 11 || j == 12 || j == 13 || j == 14 || j == 15 || j == 16 || j == 17 || j == 18);
        }
    } else if i == 11 {
        assert forall|j: int| 0 <= j < 19 implies !starts_at(s, p, #[trigger] ops[j]) by {
            lemma_word_differs(s, p, k, ops[j]);
            assert(j == 0 || j == 1 || j == 2 || j == 3 || j == 4 || j == 5 || j == 6 || j == 7 || j == 8 || j == 9 || j == 10 || j == 11 || j == 12 || j == 13 || j == 14 || j == 15 || j == 16 || j == 17 || j == 18);
        }
    } else if i == 12 {
        assert forall|j: int| 0 <= j < 19 implies !starts_at(s, p, #[trigger] ops[j]) by {
            lemma_word_differs(s, p, k, ops[j]);
            assert(j == 0 || j == 1 || j == 2 || j == 3 || j == 4 || j == 5 || j == 6 || j == 7 || j == 8 || j == 9 || j == 10 || j == 11 || j == 12 || j == 13 || j == 14 || j == 15 || j == 16 || j == 17 || j == 18);
        }
    } else if i == 13 {
        assert forall|j: int| 0 <= j < 19 implies !starts_at(s, p, #[trigger] ops[j]) by {
            lemma_word_differs(s, p, k, ops[j]);
            assert(j == 0 || j == 1 || j == 2 || j == 3 || j == 4 || j == 5 || j == 6 || j == 7 || j == 8 || j == 9 || j == 10 || j == 11 || j == 12 || j == 13 || j == 14 || j == 15 || j == 16 || j == 17 || j == 18);
        }
    } else if i == 14 {
        assert forall|j: int| 0 <= j < 19 implies !starts_at(s, p, #[trigger] ops[j]) by {
            lemma_word_differs(s, p, k, ops[j]);
            assert(j == 0 || j == 1 || j == 2 || j == 3 || j == 4 || j == 5 || j == 6 || j == 7 || j == 8 || j == 9 || j == 10 || j == 11 || j == 12 || j == 13 || j == 14 || j == 15 || j == 16 || j == 17 || j == 18);
        }
    } else if i == 15 {
        assert forall|j: int| 0 <= j < 19 implies !starts_at(s, p, #[trigger] ops[j]) by {
            lemma_word_differs(s, p, k, ops[j]);
            assert(j == 0 || j == 1 || j == 2 || j == 3 || j == 4 || j == 5 || j == 6 || j == 7 || j == 8 || j == 9 || j == 10 || j == 11 || j == 12 || j == 13 || j == 14 || j == 15 || j == 16 || j == 17 || j == 18);
        }
    } else if i == 16 {
        assert forall|j: int| 0 <= j < 19 implies !starts_at(s, p, #[trigger] ops[j]) by {
            lemma_word_differs(s, p, k, ops[j]);
            assert(j == 0 || j == 1 || j == 2 || j == 3 || j == 4 || j == 5 || j == 6 || j == 7 || j == 8 || j == 9 || j == 10 || j == 11 || j == 12 || j == 13 || j == 14 || j == 15 || j == 16 || j == 17 || j == 18);
        }
    } else if i == 17 {
        assert forall|j: int| 0 <= j < 19 implies !starts_at(s, p, #[trigger] ops[j]) by {
            lemma_word_differs(s, p, k, ops[j]);
            assert(j == 0 || j == 1 || j == 2 || j == 3 || j == 4 || j == 5 || j == 6 || j == 7 || j == 8 || j == 9 || j == 10 || j == 11 || j == 12 || j == 13 || j == 14 || j == 15 || j == 16 || j == 17 || j == 18);
        }
    } else if i == 18 {
        assert forall|j: int| 0 <= j < 19 implies !starts_at(s, p, #[trigger] ops[j]) by {
            lemma_word_differs(s, p, k, ops[j]);
            assert(j == 0 || j == 1 || j == 2 || j == 3 || j == 4 || j == 5 || j == 6 || j == 7 || j == 8 || j == 9 || j == 10 || j == 11 || j == 12 || j == 13 || j == 14 || j == 15 || j == 16 || j == 17 || j == 18);
        }
    } else if i == 19 {
        assert forall|j: int| 0 <= j < 19 implies !starts_at(s, p, #[trigger] ops[j]) by {
            lemma_word_differs(s, p, k, ops[j]);
            assert(j == 0 || j == 1 || j == 2 || j == 3 || j == 4 || j == 5 || j == 6 || j == 7 || j == 8 || j == 9 || j == 10 || j == 11 || j == 12 || j == 13 || j == 14 || j == 15 || j == 16 || j == 17 || j == 18);
        }
    } else if i == 20 {
        assert forall|j: int| 0 <= j < 19 implies !starts_at(s, p, #[trigger] ops[j]) by {
            lemma_word_differs(s, p, k, ops[j]);
            assert(j == 0 || j == 1 || j == 2 || j == 3 || j == 4 || j == 5 || j == 6 || j == 7 || j == 8 || j == 9 || j == 10 || j == 11 || j == 12 || j == 13 || j == 14 || j == 15 || j == 16 || j == 17 || j == 18);
        }
    } else if i == 21 {
        assert forall|j: int| 0 <= j < 19 implies !starts_at(s, p, #[trigger] ops[j]) by {
            lemma_word_differs(s, p, k, ops[j]);
            assert(j == 0 || j == 1 || j == 2 || j == 3 || j == 4 || j == 5 || j == 6 || j == 7 || j == 8 || j == 9 || j == 10 || j == 11 || j == 12 || j == 13 || j == 14 || j == 15 || j == 16 || j == 17 || j == 18);
        }
    } else if i == 22 {
        assert forall|j: int| 0 <= j < 19 implies !starts_at(s, p, #[trigger] ops[j]) by {
            lemma_word_differs(s, p, k, ops[j]);
            assert(j == 0 || j == 1 || j == 2 || j == 3 || j == 4 || j == 5 || j == 6 || j == 7 || j == 8 || j == 9 || j == 10 || j == 11 || j == 12 || j == 13 || j == 14 || j == 15 || j == 16 || j == 17 || j == 18);
        }
    }
    lemma_first_literal_none(s, p, ops);
}

/// Where a literal `w` stands at `p`, a literal that differs from it in a
/// character they both have does not.
proof fn lemma_lit_differs(s: Seq<char>, p: int, w: Seq<char>, l: Seq<char>)
    requires
        starts_at(s, p, w),
    ensures
        forall|i: int|
            0 <= i < w.len() && i < l.len() && #[trigger] l[i] != w[i] ==> !starts_at(s, p, l),
{
    lemma_starts_chars(s, p, w);
    if starts_at(s, p, l) {
        lemma_starts_chars(s, p, l);
    }
}

/// The `i`-th operator, standing at `p` where no longer operator stands, is
/// the first operator found there.
#[verifier::rlimit(100)]
proof fn lemma_operator_first(s: Seq<char>, p: int, i: int)
    requires
        0 <= i < operator_lits().len(),
        starts_at(s, p, operator_lits()[i]),
        forall|j: int|
            0 <= j < operator_lits().len() && operator_lits()[j].len() > operator_lits()[i].len()
                ==> !starts_at(s, p, #[trigger] operator_lits()[j]),
    ensures
        first_literal(s, p, operator_lits()) == Some(operator_lits()[i]),
{
    let ops = operator_lits();
    let k = ops[i];
    lemma_operator_chars();
    if i == 0 {
    } else if i == 1 {
        assert forall|j: int| 0 <= j < 1 implies !starts_at(s, p, #[trigger] ops[j]) by {
            lemma_lit_differs(s, p, k, ops[j]);
            assert(j == 0);
        }
    } else if i == 2 {
        assert forall|j: int| 0 <= j < 2 implies !starts_at(s, p, #[trigger] ops[j]) by {
            lemma_lit_differs(s, p, k, ops[j]);
            assert(j == 0 || j == 1);
        }
    } else if i == 3 {
        assert forall|j: int| 0 <= j < 3 implies !starts_at(s, p, #[trigger] ops[j]) by {
            lemma_lit_differs(s, p, k, ops[j]);
            assert(j == 0 || j == 1 || j == 2);
        }
    } else if i == 4 {
        assert forall|j: int| 0 <= j < 4 implies !starts_at(s, p, #[trigger] ops[j]) by {
            lemma_lit_differs(s, p, k, ops[j]);
            assert(j == 0 || j == 1 || j == 2 || j == 3);
        }
    } else if i == 5 {
        assert forall|j: int| 0 <= j < 5 implies !starts_at(s, p, #[trigger] ops[j]) by {
            lemma_lit_differs(s, p, k, ops[j]);
            assert(j == 0 || j == 1 || j == 2 || j == 3 || j == 4);
        }
    } else if i == 6 {
        assert forall|j: int| 0 <= j < 6 implies !starts_at(s, p, #[trigger] ops[j]) by {
            lemma_lit_differs(s, p, k, ops[j]);
            assert(j == 0 || j == 1 || j == 2 || j == 3 || j == 4 || j == 5);
        }
    } else if i == 7 {
        assert forall|j: int| 0 <= j < 7 implies !starts_at(s, p, #[trigger] ops[j]) by {
            lemma_lit_differs(s, p, k, ops[j]);
            assert(j == 0 || j == 1 || j == 2 || j == 3 || j == 4 || j == 5 || j == 6);
        }
    } else if i == 8 {
        assert forall|j: int| 0 <= j < 8 implies !starts_at(s, p, #[trigger] ops[j]) by {
            lemma_lit_differs(s, p, k, ops[j]);
            assert(j == 0 || j == 1 || j == 2 || j == 3 || j == 4 || j == 5 || j == 6 || j == 7);
        }
    } else if i == 9 {
        assert forall|j: int| 0 <= j < 9 implies !starts_at(s, p, #[trigger] ops[j]) by {
            lemma_lit_differs(s, p, k, ops[j]);
            assert(j == 0 || j == 1 || j == 2 || j == 3 || j == 4 || j == 5 || j == 6 || j == 7 || j == 8);
        }
    } else if i == 10 {
        assert forall|j: int| 0 <= j < 10 implies !starts_at(s, p, #[trigger] ops[j]) by {
            lemma_lit_differs(s, p, k, ops[j]);
            assert(j == 0 || j == 1 || j == 2 || j == 3 || j == 4 || j == 5 || j == 6 || j == 7 || j == 8 || j == 9);
        }
    } else if i == 11 {
        assert forall|j: int| 0 <= j < 11 implies !starts_at(s, p, #[trigger] ops[j]) by {
            lemma_lit_differs(s, p, k, ops[j]);
            assert(j == 0 || j == 1 || j == 2 || j == 3 || j == 4 || j == 5 || j == 6 || j == 7 || j == 8 || j == 9 || j == 10);
        }
    } else if i == 12 {
        assert forall|j: int| 0 <= j < 12 implies !starts_at(s, p, #[trigger] ops[j]) by {
            lemma_lit_differs(s, p, k, ops[j]);
            assert(j == 0 || j == 1 || j == 2 || j == 3 || j == 4 || j == 5 || j == 6 || j == 7 || j == 8 || j == 9 || j == 10 || j == 11);
        }
    } else if i == 13 {
        assert forall|j: int| 0 <= j < 13 implies !starts_at(s, p, #[trigger] ops[j]) by {
            lemma_lit_differs(s, p, k, ops[j]);
            assert(j == 0 || j == 1 || j == 2 || j == 3 || j == 4 || j == 5 || j == 6 || j == 7 || j == 8 || j == 9 || j == 10 || j == 11 || j == 12);
        }
    } else if i == 14 {
        assert forall|j: int| 0 <= j < 14 implies !starts_at(s, p, #[trigger] ops[j]) by {
            lemma_lit_differs(s, p, k, ops[j]);
            assert(j == 0 || j == 1 || j == 2 || j == 3 || j == 4 || j == 5 || j == 6 || j == 7 || j == 8 || j == 9 || j == 10 || j == 11 || j == 12 || j == 13);
        }
    } else if i == 15 {
        assert forall|j: int| 0 <= j < 15 implies !starts_at(s, p, #[trigger] ops[j]) by {
            lemma_lit_differs(s, p, k, ops[j]);
            assert(j == 0 || j == 1 || j == 2 || j == 3 || j == 4 || j == 5 || j == 6 || j == 7 || j == 8 || j == 9 || j == 10 || j == 11 || j == 12 || j == 13 || j == 14);
        }
    } else if i == 16 {
        assert forall|j: int| 0 <= j < 16 implies !starts_at(s, p, #[trigger] ops[j]) by {
            lemma_lit_differs(s, p, k, ops[j]);
            assert(j == 0 || j == 1 || j == 2 || j == 3 || j == 4 || j == 5 || j == 6 || j == 7 || j == 8 || j == 9 || j == 10 || j == 11 || j == 12 || j == 13 || j == 14 || j == 15);
        }
    } else if i == 17 {
        assert forall|j: int| 0 <= j < 17 implies !starts_at(s, p, #[trigger] ops[j]) by {
            lemma_lit_differs(s, p, k, ops[j]);
            assert(j == 0 || j == 1 || j == 2 || j == 3 || j == 4 || j == 5 || j == 6 || j == 7 || j == 8 || j == 9 || j == 10 || j == 11 || j == 12 || j == 13 || j == 14 || j == 15 || j == 16);
        }
    } else if i == 18 {
        assert forall|j: int| 0 <= j < 18 implies !starts_at(s, p, #[trigger] ops[j]) by {
            lemma_lit_differs(s, p, k, ops[j]);
            assert(j == 0 || j == 1 || j == 2 || j == 3 || j == 4 || j == 5 || j == 6 || j == 7 || j == 8 || j == 9 || j == 10 || j == 11 || j == 12 || j == 13 || j == 14 || j == 15 || j == 16 || j == 17);
        }
    }
    lemma_first_literal_at(s, p, ops, i);
}

/// Every operator is read by the longest match: where an operator stands at
/// the start of a token and no longer operator stands there, the token read
/// there is that operator, before any number, keyword or name (so `-1` is
/// the operator `-` and then `1`), and the tokens after it are read from the
/// character after it.
pub proof fn lemma_operator_read(s: Seq<char>, p: int, i: int, interp: bool)
    requires
        0 <= i < operator_lits().len(),
        starts_at(s, p, operator_lits()[i]),
        forall|j: int|
            0 <= j < operator_lits().len() && operator_lits()[j].len() > operator_lits()[i].len()
                ==> !starts_at(s, p, #[trigger] operator_lits()[j]),
    ensures
        ({
            let op = operator_lits()[i];
            &&& lex_token(s, p, interp) == Some((seq![SpecToken::Operation(op)], p + op.len()))
            &&& lex_tokens(s, p, interp) == (
                seq![SpecToken::Operation(op)] + lex_tokens(s, p + op.len(), interp).0,
                lex_tokens(s, p + op.len(), interp).1,
            )
        }),
{
    let op = operator_lits()[i];
    lemma_operator_chars();
    lemma_operator_first(s, p, i);
    lemma_starts_chars(s, p, op);
    assert(op.len() >= 1);
    assert(s[p + 0] == op[0]);
    assert(lex_operator(s, p) == Some((seq![SpecToken::Operation(op)], p + op.len())));
}

/// No literal of `lits` starts with the character at `p`: none stands there.
proof fn lemma_no_literal_at(s: Seq<char>, p: int, lits: Seq<Seq<char>>)
    requires
        0 <= p < s.len(),
        forall|j: int|
            0 <= j < lits.len() ==> (#[trigger] lits[j]).len() >= 1 && lits[j][0] != s[p],
    ensures
        first_literal(s, p, lits) is None,
{
    assert forall|j: int| 0 <= j < lits.len() implies !starts_at(s, p, #[trigger] lits[j]) by {
        if starts_at(s, p, lits[j]) {
            lemma_starts_chars(s, p, lits[j]);
            assert(s[p + 0] == lits[j][0]);
        }
    }
    lemma_first_literal_none(s, p, lits);
}

/// A run of characters that satisfy `f`, ended by one that does not or by
/// the end of the text, is as long as the run that `run` measures.
proof fn lemma_run_exact(s: Seq<char>, k: int, f: spec_fn(char) -> bool, m: int)
    requires
        0 <= k,
        0 <= m,
        k + m <= s.len(),
        forall|i: int| k <= i < k + m ==> f(#[trigger] s[i]),
        k + m == s.len() || !f(s[k + m]),
    ensures
        run(s, k, f) == m,
    decreases m,
{
    if m > 0 {
        assert(f(s[k]));
        lemma_run_exact(s, k + 1, f, m - 1);
    }
}

/// The first characters of the operators, keywords and type names: none is
/// a double quote.
proof fn lemma_no_literal_quoted()
    ensures
        forall|j: int|
            0 <= j < operator_lits().len() ==> (#[trigger] operator_lits()[j]).len() >= 1
                && operator_lits()[j][0] != '"',
        forall|j: int|
            0 <= j < keyword_lits().len() ==> (#[trigger] keyword_lits()[j]).len() >= 1
                && keyword_lits()[j][0] != '"',
        forall|j: int|
            0 <= j < type_lits().len() ==> (#[trigger] type_lits()[j]).len() >= 1
                && type_lits()[j][0] != '"',
{
    lemma_operator_chars();
    lemma_keyword_chars();
    lemma_type_chars();
    let tys = type_lits();
    let ops = operator_lits();
    let kws = keyword_lits();
    assert forall|j: int| 0 <= j < ops.len() implies (#[trigger] ops[j]).len() >= 1 && ops[j][0]
        != '"' by {
        assert(j == 0 || j == 1 || j == 2 || j == 3 || j == 4 || j == 5 || j == 6 || j == 7 || j
            == 8 || j == 9 || j == 10 || j == 11 || j == 12 || j == 13 || j == 14 || j == 15 || j
            == 16 || j == 17 || j == 18);
    }
    assert forall|j: int| 0 <= j < kws.len() implies (#[trigger] kws[j]).len() >= 1 && kws[j][0]
        != '"' by {
        assert(j == 0 || j == 1 || j == 2 || j == 3 || j == 4 || j == 5 || j == 6 || j == 7 || j
            == 8 || j == 9 || j == 10 || j == 11 || j == 12 || j == 13 || j == 14 || j == 15 || j
            == 16 || j == 17 || j == 18 || j == 19 || j == 20 || j == 21 || j == 22);
    }
    assert forall|j: int| 0 <= j < tys.len() implies (#[trigger] tys[j]).len() >= 1 && tys[j][0]
        != '"' by {
        assert(j == 0 || j == 1 || j == 2 || j == 3 || j == 4 || j == 5);
    }
}

/// A string without interpolation is read whole: where `"` starts a token,
/// and text without `{` or `"` follows up to the next `"`, the tokens read
/// there are the start of a string, that text as one fragment, and the end
/// of the string, and reading goes on after the closing `"`.
#[verifier::rlimit(50)]
pub proof fn lemma_plain_string(s: Seq<char>, p: int, m: int, interp: bool)
    requires
        0 <= p,
        1 <= m,
        p + m + 1 < s.len(),
        s[p] == '"',
        forall|i: int| p + 1 <= i < p + 1 + m ==> text_char(#[trigger] s[i]),
        s[p + 1 + m] == '"',
    ensures
        lex_token(s, p, interp) == Some(
            (
                seq![
                    SpecToken::StringStart,
                    SpecToken::StringFragment(s.subrange(p + 1, p + 1 + m)),
                    SpecToken::StringEnd,
                ],
                p + m + 2,
            ),
        ),
{
    let q = p + 1 + m;
    lemma_no_literal_quoted();
    lemma_no_literal_at(s, p, operator_lits());
    lemma_no_literal_at(s, p, keyword_lits());
    lemma_no_literal_at(s, p, type_lits());
    let t = s.skip(p);
    assert(t[0] == s[p]);
    assert(dec_int_len(t) == 0);
    assert(digit_run(t, 0) == 0);
    assert(float_len(t) is None);
    assert(lex_integer(s, p) is None);
    assert(lex_float(s, p) is None);
    reveal_strlit("verdadeiro");
    reveal_strlit("falso");
    assert("verdadeiro"@[0] == 'v' && "falso"@[0] == 'f');
    if starts_at(s, p, "verdadeiro"@) {
        assert(s.subrange(p, p + "verdadeiro"@.len())[0] == s[p]);
    }
    if starts_at(s, p, "falso"@) {
        assert(s.subrange(p, p + "falso"@.len())[0] == s[p]);
    }
    assert(lex_bool(s, p) is None);
    assert(lex_keyword(s, p) is None);
    assert(lex_identifier(s, p) is None);
    lemma_run_exact(s, p + 1, text_pred(), m);
    assert(run(s, q, text_pred()) == 0);
    assert(lex_interpolation(s, q) is None);
    assert(lex_string_parts(s, q) == (Seq::<SpecToken>::empty(), q));
    let frag = SpecToken::StringFragment(s.subrange(p + 1, q));
    assert(lex_string_parts(s, p + 1) == (seq![frag] + Seq::<SpecToken>::empty(), q));
    assert(seq![frag] + Seq::<SpecToken>::empty() =~= seq![frag]);
    assert(seq![SpecToken::StringStart] + seq![frag] + seq![SpecToken::StringEnd] =~= seq![
        SpecToken::StringStart,
        frag,
        SpecToken::StringEnd,
    ]);
    assert(lex_string(s, p) == Some(
        (seq![SpecToken::StringStart, frag, SpecToken::StringEnd], q + 1),
    ));
}

/// The characters of each type name.
proof fn lemma_type_chars()
    ensures
        type_lits()[0] == "Inteiro"@,
        type_lits()[1] == "Real"@,
        type_lits()[2] == "Texto"@,
        type_lits()[3] == "Lógico"@,
        type_lits()[4] == "Caractere"@,
        type_lits()[5] == "Lista"@,
        "Inteiro"@.len() == 7 && "Inteiro"@[0] == 'I' && "Inteiro"@[1] == 'n' && "Inteiro"@[2]
            == 't',
        "Real"@.len() == 4 && "Real"@[0] == 'R' && "Real"@[1] == 'e',
        "Texto"@.len() == 5 && "Texto"@[0] == 'T' && "Texto"@[1] == 'e',
        "Lógico"@.len() == 6 && "Lógico"@[0] == 'L' && "Lógico"@[1] == 'ó',
        "Caractere"@.len() == 9 && "Caractere"@[0] == 'C' && "Caractere"@[1] == 'a',
        "Lista"@.len() == 5 && "Lista"@[0] == 'L' && "Lista"@[1] == 'i',
{
    reveal_strlit("Inteiro");
    reveal_strlit("Real");
    reveal_strlit("Texto");
    reveal_strlit("Lógico");
    reveal_strlit("Caractere");
    reveal_strlit("Lista");
    assert("Inteiro"@.len() == 7 && "Inteiro"@[0] == 'I' && "Inteiro"@[1] == 'n' && "Inteiro"@[2]
        == 't');
    assert("Real"@.len() == 4 && "Real"@[0] == 'R' && "Real"@[1] == 'e');
    assert("Texto"@.len() == 5 && "Texto"@[0] == 'T' && "Texto"@[1] == 'e');
    assert("Lógico"@.len() == 6 && "Lógico"@[0] == 'L' && "Lógico"@[1] == 'ó');
    assert("Caractere"@.len() == 9 && "Caractere"@[0] == 'C' && "Caractere"@[1] == 'a');
    assert("Lista"@.len() == 5 && "Lista"@[0] == 'L' && "Lista"@[1] == 'i');
    let tys = type_lits();
    assert(tys[0] == "Inteiro"@ && tys[1] == "Real"@ && tys[2] == "Texto"@);
    assert(tys[3] == "Lógico"@ && tys[4] == "Caractere"@ && tys[5] == "Lista"@);
}

/// Every type name is read as a type: where one stands at the start of a
/// token, the token read there is that type name, and the tokens after it
/// are read from the character after it.
#[verifier::rlimit(100)]
pub proof fn lemma_type_read(s: Seq<char>, p: int, i: int, interp: bool)
    requires
        0 <= i < type_lits().len(),
        starts_at(s, p, type_lits()[i]),
    ensures
        ({
            let ty = type_lits()[i];
            &&& lex_token(s, p, interp) == Some((seq![SpecToken::Type(ty)], p + ty.len()))
            &&& lex_tokens(s, p, interp) == (
                seq![SpecToken::Type(ty)] + lex_tokens(s, p + ty.len(), interp).0,
                lex_tokens(s, p + ty.len(), interp).1,
            )
        }),
{
    let tys = type_lits();
    let ops = operator_lits();
    let kws = keyword_lits();
    let ty = tys[i];
    lemma_type_chars();
    lemma_operator_chars();
    lemma_keyword_chars();
    lemma_starts_chars(s, p, ty);
    assert(i == 0 || i == 1 || i == 2 || i == 3 || i == 4 || i == 5);
    assert(s[p + 0] == ty[0]);
    assert(s[p + 1] == ty[1]);
    assert('A' <= s[p] <= 'Z');
    assert forall|j: int| 0 <= j < ops.len() implies (#[trigger] ops[j]).len() >= 1 && ops[j][0]
        != s[p] by {
        assert(j == 0 || j == 1 || j == 2 || j == 3 || j == 4 || j == 5 || j == 6 || j == 7 || j
            == 8 || j == 9 || j == 10 || j == 11 || j == 12 || j == 13 || j == 14 || j == 15 || j
            == 16 || j == 17 || j == 18);
    }
    assert forall|j: int| 0 <= j < kws.len() implies (#[trigger] kws[j]).len() >= 1 && kws[j][0]
        != s[p] by {
        assert(j == 0 || j == 1 || j == 2 || j == 3 || j == 4 || j == 5 || j == 6 || j == 7 || j
            == 8 || j == 9 || j == 10 || j == 11 || j == 12 || j == 13 || j == 14 || j == 15 || j
            == 16 || j == 17 || j == 18 || j == 19 || j == 20 || j == 21 || j == 22);
    }
    lemma_no_literal_at(s, p, ops);
    lemma_no_literal_at(s, p, kws);
    assert forall|j: int| 0 <= j < i implies !starts_at(s, p, #[trigger] tys[j]) by {
        lemma_lit_differs(s, p, ty, tys[j]);
        assert(j == 0 || j == 1 || j == 2 || j == 3 || j == 4);
    }
    lemma_first_literal_at(s, p, tys, i);
    let t = s.skip(p);
    assert(t[0] == s[p]);
    assert(dec_int_len(t) == 0);
    if i == 0 {
        assert(t[2] == s[p + 2]);
        assert(s[p + 2] == ty[2]);
        assert(!same_letter(t[0int + 2int], seq!['i', 'n', 'f'][2]));
        assert(!caseless_at(t, 0, seq!['i', 'n', 'f']));
    } else {
        assert(digit_run(t, 0) == 0);
    }
    assert(float_len(t) is None);
    reveal_strlit("verdadeiro");
    reveal_strlit("falso");
    assert("verdadeiro"@[0] == 'v' && "falso"@[0] == 'f');
    lemma_lit_differs(s, p, ty, "verdadeiro"@);
    lemma_lit_differs(s, p, ty, "falso"@);
    assert(lex_bool(s, p) is None);
    assert(lex_keyword(s, p) is None);
    assert(lex_type(s, p) == Some((seq![SpecToken::Type(ty)], p + ty.len())));
}

/// Runs of the text from `p` on are runs of the text.
proof fn lemma_run_skip(s: Seq<char>, p: int, k: int, f: spec_fn(char) -> bool)
    requires
        0 <= p <= s.len(),
        0 <= k,
    ensures
        run(s.skip(p), k, f) == run(s, p + k, f),
    decreases s.len() - p - k,
{
    if k < s.len() - p {
        assert(s.skip(p)[k] == s[p + k]);
        lemma_run_skip(s, p, k + 1, f);
    }
}

/// Decimal digits write a number of zero or more.
proof fn lemma_digits_value_nonneg(d: Seq<char>)
    requires
        forall|i: int| 0 <= i < d.len() ==> is_digit(#[trigger] d[i]),
    ensures
        digits_value(d) >= 0,
    decreases d.len(),
{
    if d.len() > 0 {
        assert(is_digit(d[d.len() - 1]));
        lemma_digits_value_nonneg(d.drop_last());
    }
}

/// A decimal integer is read with its value: where digits without a leading
/// zero start a token and no digit, `.`, `e` or `E` follows them, the token
/// read there is the integer they write, if it fits in an `i64`.
#[verifier::rlimit(100)]
pub proof fn lemma_integer_read(s: Seq<char>, p: int, d: int, interp: bool)
    requires
        0 <= p,
        1 <= d,
        p + d <= s.len(),
        '1' <= s[p] <= '9',
        forall|i: int| p <= i < p + d ==> is_digit(#[trigger] s[i]),
        p + d == s.len() || (!is_digit(s[p + d]) && s[p + d] != '.' && s[p + d] != 'e' && s[p
            + d] != 'E'),
        digits_value(s.subrange(p, p + d)) <= i64::MAX,
    ensures
        lex_token(s, p, interp) == Some(
            (seq![SpecToken::Integer(digits_value(s.subrange(p, p + d)) as i64)], p + d),
        ),
{
    let ops = operator_lits();
    lemma_operator_chars();
    assert forall|j: int| 0 <= j < ops.len() implies (#[trigger] ops[j]).len() >= 1 && ops[j][0]
        != s[p] by {
        assert(j == 0 || j == 1 || j == 2 || j == 3 || j == 4 || j == 5 || j == 6 || j == 7 || j
            == 8 || j == 9 || j == 10 || j == 11 || j == 12 || j == 13 || j == 14 || j == 15 || j
            == 16 || j == 17 || j == 18);
    }
    lemma_no_literal_at(s, p, ops);
    let t = s.skip(p);
    assert(t[0] == s[p]);
    lemma_run_exact(s, p + 1, digit_pred(), d - 1);
    lemma_run_skip(s, p, 1, digit_pred());
    assert(dec_int_len(t) == d);
    let digits = s.subrange(p, p + d);
    assert(t.subrange(0, d) =~= digits);
    lemma_digits_value_nonneg(digits);
    assert(dec_int_value(t, d) == digits_value(digits));
    assert(lex_integer(s, p) == Some((seq![SpecToken::Integer(digits_value(digits) as i64)], p + d)));
}

} // verus!
