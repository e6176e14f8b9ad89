//! Operator names.
use vstd::prelude::*;

use super::types::{BinOp, UnaryOp};
use crate::text::str_chars;

verus! {

/// The binary operator written `s`, if any.
pub open spec fn binop_of_text(s: Seq<char>) -> Option<BinOp> {
    if s == "="@ {
        Some(BinOp::ConstAssignment)
    } else if s == ":="@ {
        Some(BinOp::VarAssignment)
    } else if s == "+"@ {
        Some(BinOp::Plus)
    } else if s == "-"@ {
        Some(BinOp::Minus)
    } else if s == "*"@ {
        Some(BinOp::Mult)
    } else if s == "/"@ {
        Some(BinOp::Div)
    } else if s == "^"@ {
        Some(BinOp::Pow)
    } else if s == "div"@ {
        Some(BinOp::IntDiv)
    } else if s == "mod"@ {
        Some(BinOp::Mod)
    } else if s == "e"@ {
        Some(BinOp::And)
    } else if s == "ou"@ {
        Some(BinOp::Or)
    } else if s == "."@ {
        Some(BinOp::DotAccess)
    } else if s == "=="@ {
        Some(BinOp::Equal)
    } else if s == "<>"@ {
        Some(BinOp::NotEqual)
    } else if s == ">"@ {
        Some(BinOp::Greater)
    } else if s == ">="@ {
        Some(BinOp::GreaterOrEqual)
    } else if s == "<"@ {
        Some(BinOp::Less)
    } else if s == "<="@ {
        Some(BinOp::LessOrEqual)
    } else if s == "["@ {
        Some(BinOp::Index)
    } else {
        None
    }
}

/// The unary operator written `s`, if any.
pub open spec fn unary_of_text(s: Seq<char>) -> Option<UnaryOp> {
    if s == "+"@ {
        Some(UnaryOp::Plus)
    } else if s == "-"@ {
        Some(UnaryOp::Minus)
    } else if s == "não"@ {
        Some(UnaryOp::Not)
    } else if s == "imprima"@ {
        Some(UnaryOp::Write)
    } else if s == "escreva"@ {
        Some(UnaryOp::Print)
    } else {
        None
    }
}

/// An `Option` as a `Result` with `()` for nothing.
pub open spec fn ok_or_unit<T>(o: Option<T>) -> Result<T, ()> {
    match o {
        Some(x) => Ok(x),
        None => Err(()),
    }
}

/// Whether `s` and `lit` hold the same characters.
pub fn str_is(s: &str, lit: &str) -> (r: bool)
    ensures
        r == (s@ == lit@),
{
    let a = str_chars(s);
    let b = str_chars(lit);
    if a.len() != b.len() {
        return false;
    }
    let mut i: usize = 0;
    while i < a.len()
        invariant
            a@ == s@,
            b@ == lit@,
            a@.len() == b@.len(),
            i <= a@.len(),
            forall|j: int| 0 <= j < i ==> a@[j] == b@[j],
        decreases a@.len() - i,
    {
        if a[i] != b[i] {
            return false;
        }
        i = i + 1;
    }
    assert(a@ =~= b@);
    true
}

impl<'a> TryFrom<&'a str> for BinOp {
    type Error = ();

    fn try_from(value: &'a str) -> (r: Result<Self, Self::Error>) {
        if str_is(value, "=") {
            Ok(Self::ConstAssignment)
        } else if str_is(value, ":=") {
            Ok(Self::VarAssignment)
        } else if str_is(value, "+") {
            Ok(Self::Plus)
        } else if str_is(value, "-") {
            Ok(Self::Minus)
        } else if str_is(value, "*") {
            Ok(Self::Mult)
        } else if str_is(value, "/") {
            Ok(Self::Div)
        } else if str_is(value, "^") {
            Ok(Self::Pow)
        } else if str_is(value, "div") {
            Ok(Self::IntDiv)
        } else if str_is(value, "mod") {
            Ok(Self::Mod)
        } else if str_is(value, "e") {
            Ok(Self::And)
        } else if str_is(value, "ou") {
            Ok(Self::Or)
        } else if str_is(value, ".") {
            Ok(Self::DotAccess)
        } else if str_is(value, "==") {
            Ok(Self::Equal)
        } else if str_is(value, "<>") {
            Ok(Self::NotEqual)
        } else if str_is(value, ">") {
            Ok(Self::Greater)
        } else if str_is(value, ">=") {
            Ok(Self::GreaterOrEqual)
        } else if str_is(value, "<") {
            Ok(Self::Less)
        } else if str_is(value, "<=") {
            Ok(Self::LessOrEqual)
        } else if str_is(value, "[") {
            Ok(Self::Index)
        } else {
            Err(())
        }
    }
}

impl<'a> vstd::std_specs::convert::TryFromSpecImpl<&'a str> for BinOp {
    open spec fn obeys_try_from_spec() -> bool {
        true
    }

    open spec fn try_from_spec(value: &'a str) -> Result<Self, ()> {
        ok_or_unit(binop_of_text(value@))
    }
}

impl<'a> TryFrom<&'a str> for UnaryOp {
    type Error = ();

    fn try_from(value: &'a str) -> (r: Result<Self, Self::Error>) {
        if str_is(value, "+") {
            Ok(Self::Plus)
        } else if str_is(value, "-") {
            Ok(Self::Minus)
        } else if str_is(value, "não") {
            Ok(Self::Not)
        } else if str_is(value, "imprima") {
            Ok(Self::Write)
        } else if str_is(value, "escreva") {
            Ok(Self::Print)
        } else {
            Err(())
        }
    }
}

impl<'a> vstd::std_specs::convert::TryFromSpecImpl<&'a str> for UnaryOp {
    open spec fn obeys_try_from_spec() -> bool {
        true
    }

    open spec fn try_from_spec(value: &'a str) -> Result<Self, ()> {
        ok_or_unit(unary_of_text(value@))
    }
}

/// How a binary operator is written out.
pub open spec fn binop_text(op: BinOp) -> Seq<char> {
    match op {
        BinOp::ConstAssignment => "="@,
        BinOp::VarAssignment => ":="@,
        BinOp::Plus => "+"@,
        BinOp::Minus => "-"@,
        BinOp::Mult => "*"@,
        BinOp::Div => "/"@,
        BinOp::IntDiv => "div"@,
        BinOp::Mod => "mod"@,
        BinOp::Pow => "^"@,
        BinOp::And => "&"@,
        BinOp::Or => "|"@,
        BinOp::DotAccess => "."@,
        BinOp::Equal => "=="@,
        BinOp::NotEqual => "<>"@,
        BinOp::Greater => ">"@,
        BinOp::GreaterOrEqual => ">="@,
        BinOp::Less => "<"@,
        BinOp::LessOrEqual => "<="@,
        BinOp::Index => "["@,
        BinOp::Call => "("@,
    }
}

/// How a unary operator is written out.
pub open spec fn unary_text(op: UnaryOp) -> Seq<char> {
    match op {
        UnaryOp::Plus => "+"@,
        UnaryOp::Minus => "-"@,
        UnaryOp::Not => "!"@,
        UnaryOp::Write => "imprima"@,
        UnaryOp::Print => "escreva"@,
    }
}

impl BinOp {
    /// The operator written out.
    pub fn to_string(&self) -> (s: String)
        ensures
            s@ == binop_text(*self),
    {
        let text = match self {
            BinOp::ConstAssignment => "=",
            BinOp::VarAssignment => ":=",
            BinOp::Plus => "+",
            BinOp::Minus => "-",
            BinOp::Mult => "*",
            BinOp::Div => "/",
            BinOp::IntDiv => "div",
            BinOp::Mod => "mod",
            BinOp::Pow => "^",
            BinOp::And => "&",
            BinOp::Or => "|",
            BinOp::DotAccess => ".",
            BinOp::Equal => "==",
            BinOp::NotEqual => "<>",
            BinOp::Greater => ">",
            BinOp::GreaterOrEqual => ">=",
            BinOp::Less => "<",
            BinOp::LessOrEqual => "<=",
            BinOp::Index => "[",
            BinOp::Call => "(",
        };
        text.to_owned()
    }
}

impl UnaryOp {
    /// The operator written out.
    pub fn to_string(&self) -> (s: String)
        ensures
            s@ == unary_text(*self),
    {
        let text = match self {
            UnaryOp::Plus => "+",
            UnaryOp::Minus => "-",
            UnaryOp::Not => "!",
            UnaryOp::Write => "imprima",
            UnaryOp::Print => "escreva",
        };
        text.to_owned()
    }
}

/// The lengths and first characters of the texts of the binary operators,
/// enough to tell any two of them apart.
proof fn lemma_binop_texts()
    ensures
        "="@.len() == 1 && "="@[0] == '=',
        ":="@.len() == 2 && ":="@[0] == ':' && ":="@[1] == '=',
        "+"@.len() == 1 && "+"@[0] == '+',
        "-"@.len() == 1 && "-"@[0] == '-',
        "*"@.len() == 1 && "*"@[0] == '*',
        "/"@.len() == 1 && "/"@[0] == '/',
        "^"@.len() == 1 && "^"@[0] == '^',
        "div"@.len() == 3 && "div"@[0] == 'd' && "div"@[1] == 'i',
        "mod"@.len() == 3 && "mod"@[0] == 'm' && "mod"@[1] == 'o',
        "e"@.len() == 1 && "e"@[0] == 'e',
        "ou"@.len() == 2 && "ou"@[0] == 'o' && "ou"@[1] == 'u',
        "."@.len() == 1 && "."@[0] == '.',
        "=="@.len() == 2 && "=="@[0] == '=' && "=="@[1] == '=',
        "<>"@.len() == 2 && "<>"@[0] == '<' && "<>"@[1] == '>',
        ">"@.len() == 1 && ">"@[0] == '>',
        ">="@.len() == 2 && ">="@[0] == '>' && ">="@[1] == '=',
        "<"@.len() == 1 && "<"@[0] == '<',
        "<="@.len() == 2 && "<="@[0] == '<' && "<="@[1] == '=',
        "["@.len() == 1 && "["@[0] == '[',
        "&"@.len() == 1 && "&"@[0] == '&',
        "|"@.len() == 1 && "|"@[0] == '|',
        "("@.len() == 1 && "("@[0] == '(',
{
    reveal_strlit("=");
    reveal_strlit(":=");
    reveal_strlit("+");
    reveal_strlit("-");
    reveal_strlit("*");
    reveal_strlit("/");
    reveal_strlit("^");
    reveal_strlit("div");
    reveal_strlit("mod");
    reveal_strlit("e");
    reveal_strlit("ou");
    reveal_strlit(".");
    reveal_strlit("==");
    reveal_strlit("<>");
    reveal_strlit(">");
    reveal_strlit(">=");
    reveal_strlit("<");
    reveal_strlit("<=");
    reveal_strlit("[");
    reveal_strlit("&");
    reveal_strlit("|");
    reveal_strlit("(");
}

/// Reading back what `to_string` writes gives the same binary operator, for
/// every operator but `And`, `Or` and `Call`: those are written `&`, `|` and
/// `(`, which no operator is read from.
pub proof fn lemma_binop_text_round_trip(op: BinOp)
    requires
        op != BinOp::And,
        op != BinOp::Or,
        op != BinOp::Call,
    ensures
        binop_of_text(binop_text(op)) == Some(op),
{
    lemma_binop_texts();
}

/// The texts `&`, `|` and `(` that `And`, `Or` and `Call` are written as are
/// read as no operator.
pub proof fn lemma_binop_text_unread(op: BinOp)
    requires
        op == BinOp::And || op == BinOp::Or || op == BinOp::Call,
    ensures
        binop_of_text(binop_text(op)) is None,
{
    lemma_binop_texts();
}

/// Reading back what `to_string` writes gives the same unary operator, for
/// every operator but `Not`, which is written `!` and read from `não`.
pub proof fn lemma_unary_text_round_trip(op: UnaryOp)
    requires
        op != UnaryOp::Not,
    ensures
        unary_of_text(unary_text(op)) == Some(op),
{
    reveal_strlit("+");
    reveal_strlit("-");
    reveal_strlit("não");
    reveal_strlit("imprima");
    reveal_strlit("escreva");
    reveal_strlit("!");
    assert("+"@.len() == 1 && "+"@[0] == '+');
    assert("-"@.len() == 1 && "-"@[0] == '-');
    assert("não"@.len() == 3 && "não"@[0] == 'n' && "não"@[1] == 'ã');
    assert("imprima"@.len() == 7 && "imprima"@[0] == 'i' && "imprima"@[1] == 'm');
    assert("escreva"@.len() == 7 && "escreva"@[0] == 'e' && "escreva"@[1] == 's');
    assert("!"@.len() == 1 && "!"@[0] == '!');
}

} // verus!
