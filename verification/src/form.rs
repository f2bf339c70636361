//! The identifiers that the evaluator keeps for itself: the special forms and
//! the primitive operations. Each primitive answers to its plain name and to
//! the same name behind an underscore.
use crate::text::same_text;
use vstd::prelude::*;

verus! {

/// What a type predicate asks of its operand.
#[derive(Clone, Copy, PartialEq, Eq, Debug, Structural)]
pub enum Kind {
    Nil,
    List,
    Lambda,
    Macro,
    Integer,
    Float,
    Ident,
    String,
    Quote,
    Unquote,
    Quasiquote,
}

/// A primitive of one operand.
#[derive(Clone, Copy, PartialEq, Eq, Debug, Structural)]
pub enum Unary {
    Car,
    Cdr,
    Print,
    PrintDebug,
    Is(Kind),
}

/// A primitive of two operands.
#[derive(Clone, Copy, PartialEq, Eq, Debug, Structural)]
pub enum Binary {
    Add,
    Sub,
    Mul,
    Div,
    Equal,
    Less,
    Greater,
    Str,
    Cons,
}

/// What a reserved head identifier stands for.
#[derive(Clone, Copy, PartialEq, Eq, Debug, Structural)]
pub enum Form {
    If,
    Def,
    Lambda,
    Defmacro,
    Eval,
    Unary(Unary),
    Binary(Binary),
}

/// The form that an identifier names, if it names one.
pub open spec fn form_of(s: Seq<char>) -> Option<Form> {
    if s == "if"@ {
        Some(Form::If)
    } else if s == "def"@ {
        Some(Form::Def)
    } else if s == "lambda"@ {
        Some(Form::Lambda)
    } else if s == "defmacro"@ {
        Some(Form::Defmacro)
    } else if s == "eval"@ {
        Some(Form::Eval)
    } else if s == "print-debug"@ {
        Some(Form::Unary(Unary::PrintDebug))
    } else if s == "car"@ || s == "_car"@ {
        Some(Form::Unary(Unary::Car))
    } else if s == "cdr"@ || s == "_cdr"@ {
        Some(Form::Unary(Unary::Cdr))
    } else if s == "print"@ || s == "_print"@ {
        Some(Form::Unary(Unary::Print))
    } else if s == "nil?"@ || s == "_nil?"@ {
        Some(Form::Unary(Unary::Is(Kind::Nil)))
    } else if s == "list?"@ || s == "_list?"@ {
        Some(Form::Unary(Unary::Is(Kind::List)))
    } else if s == "lambda?"@ || s == "_lambda?"@ {
        Some(Form::Unary(Unary::Is(Kind::Lambda)))
    } else if s == "macro?"@ || s == "_macro?"@ {
        Some(Form::Unary(Unary::Is(Kind::Macro)))
    } else if s == "integer?"@ || s == "_integer?"@ {
        Some(Form::Unary(Unary::Is(Kind::Integer)))
    } else if s == "float?"@ || s == "_float?"@ {
        Some(Form::Unary(Unary::Is(Kind::Float)))
    } else if s == "ident?"@ || s == "_ident?"@ {
        Some(Form::Unary(Unary::Is(Kind::Ident)))
    } else if s == "string?"@ || s == "_string?"@ {
        Some(Form::Unary(Unary::Is(Kind::String)))
    } else if s == "quote?"@ || s == "_quote?"@ {
        Some(Form::Unary(Unary::Is(Kind::Quote)))
    } else if s == "unquote?"@ || s == "_unquote?"@ {
        Some(Form::Unary(Unary::Is(Kind::Unquote)))
    } else if s == "quasiquote?"@ || s == "_quasiquote?"@ {
        Some(Form::Unary(Unary::Is(Kind::Quasiquote)))
    } else if s == "+"@ || s == "_+"@ {
        Some(Form::Binary(Binary::Add))
    } else if s == "-"@ || s == "_-"@ {
        Some(Form::Binary(Binary::Sub))
    } else if s == "*"@ || s == "_*"@ {
        Some(Form::Binary(Binary::Mul))
    } else if s == "/"@ || s == "_/"@ {
        Some(Form::Binary(Binary::Div))
    } else if s == "="@ || s == "_="@ {
        Some(Form::Binary(Binary::Equal))
    } else if s == "<"@ || s == "_<"@ {
        Some(Form::Binary(Binary::Less))
    } else if s == ">"@ || s == "_>"@ {
        Some(Form::Binary(Binary::Greater))
    } else if s == "str"@ || s == "_str"@ {
        Some(Form::Binary(Binary::Str))
    } else if s == "cons"@ || s == "_cons"@ {
        Some(Form::Binary(Binary::Cons))
    } else {
        None
    }
}

/// Whether an identifier may not be bound: it names a form, or it is `_&`.
pub open spec fn reserved(s: Seq<char>) -> bool {
    form_of(s) is Some || s == "_&"@
}

/// The form that an identifier names, if it names one.
pub fn classify(s: &str) -> (r: Option<Form>)
    ensures
        r == form_of(s@),
{
    if same_text(s, "if") {
        Some(Form::If)
    } else if same_text(s, "def") {
        Some(Form::Def)
    } else if same_text(s, "lambda") {
        Some(Form::Lambda)
    } else if same_text(s, "defmacro") {
        Some(Form::Defmacro)
    } else if same_text(s, "eval") {
        Some(Form::Eval)
    } else if same_text(s, "print-debug") {
        Some(Form::Unary(Unary::PrintDebug))
    } else if same_text(s, "car") || same_text(s, "_car") {
        Some(Form::Unary(Unary::Car))
    } else if same_text(s, "cdr") || same_text(s, "_cdr") {
        Some(Form::Unary(Unary::Cdr))
    } else if same_text(s, "print") || same_text(s, "_print") {
        Some(Form::Unary(Unary::Print))
    } else if same_text(s, "nil?") || same_text(s, "_nil?") {
        Some(Form::Unary(Unary::Is(Kind::Nil)))
    } else if same_text(s, "list?") || same_text(s, "_list?") {
        Some(Form::Unary(Unary::Is(Kind::List)))
    } else if same_text(s, "lambda?") || same_text(s, "_lambda?") {
        Some(Form::Unary(Unary::Is(Kind::Lambda)))
    } else if same_text(s, "macro?") || same_text(s, "_macro?") {
        Some(Form::Unary(Unary::Is(Kind::Macro)))
    } else if same_text(s, "integer?") || same_text(s, "_integer?") {
        Some(Form::Unary(Unary::Is(Kind::Integer)))
    } else if same_text(s, "float?") || same_text(s, "_float?") {
        Some(Form::Unary(Unary::Is(Kind::Float)))
    } else if same_text(s, "ident?") || same_text(s, "_ident?") {
        Some(Form::Unary(Unary::Is(Kind::Ident)))
    } else if same_text(s, "string?") || same_text(s, "_string?") {
        Some(Form::Unary(Unary::Is(Kind::String)))
    } else if same_text(s, "quote?") || same_text(s, "_quote?") {
        Some(Form::Unary(Unary::Is(Kind::Quote)))
    } else if same_text(s, "unquote?") || same_text(s, "_unquote?") {
        Some(Form::Unary(Unary::Is(Kind::Unquote)))
    } else if same_text(s, "quasiquote?") || same_text(s, "_quasiquote?") {
        Some(Form::Unary(Unary::Is(Kind::Quasiquote)))
    } else if same_text(s, "+") || same_text(s, "_+") {
        Some(Form::Binary(Binary::Add))
    } else if same_text(s, "-") || same_text(s, "_-") {
        Some(Form::Binary(Binary::Sub))
    } else if same_text(s, "*") || same_text(s, "_*") {
        Some(Form::Binary(Binary::Mul))
    } else if same_text(s, "/") || same_text(s, "_/") {
        Some(Form::Binary(Binary::Div))
    } else if same_text(s, "=") || same_text(s, "_=") {
        Some(Form::Binary(Binary::Equal))
    } else if same_text(s, "<") || same_text(s, "_<") {
        Some(Form::Binary(Binary::Less))
    } else if same_text(s, ">") || same_text(s, "_>") {
        Some(Form::Binary(Binary::Greater))
    } else if same_text(s, "str") || same_text(s, "_str") {
        Some(Form::Binary(Binary::Str))
    } else if same_text(s, "cons") || same_text(s, "_cons") {
        Some(Form::Binary(Binary::Cons))
    } else {
        None
    }
}

/// Whether an identifier may not be bound.
pub fn is_reserved_ident(s: &str) -> (r: bool)
    ensures
        r == reserved(s@),
{
    classify(s).is_some() || same_text(s, "_&")
}

/// The five special forms are selected by their names.
pub proof fn lemma_special_forms()
    ensures
        form_of("if"@) == Some(Form::If),
        form_of("def"@) == Some(Form::Def),
        form_of("lambda"@) == Some(Form::Lambda),
        form_of("defmacro"@) == Some(Form::Defmacro),
        form_of("eval"@) == Some(Form::Eval),
{
    reveal_strlit("if");
    reveal_strlit("def");
    reveal_strlit("lambda");
    reveal_strlit("defmacro");
    reveal_strlit("eval");
    assert("if"@.len() == 2);
    assert("def"@.len() == 3);
    assert("lambda"@.len() == 6);
    assert("defmacro"@.len() == 8);
    assert("eval"@.len() == 4);
}

/// The catch-all marker `&` is not reserved.
pub proof fn lemma_marker_not_reserved()
    ensures
        !reserved("&"@),
{
    reveal_strlit("&");
    reveal_strlit("*");
    reveal_strlit("+");
    reveal_strlit("-");
    reveal_strlit("/");
    reveal_strlit("<");
    reveal_strlit("=");
    reveal_strlit(">");
    reveal_strlit("_&");
    reveal_strlit("_*");
    reveal_strlit("_+");
    reveal_strlit("_-");
    reveal_strlit("_/");
    reveal_strlit("_<");
    reveal_strlit("_=");
    reveal_strlit("_>");
    reveal_strlit("_car");
    reveal_strlit("_cdr");
    reveal_strlit("_cons");
    reveal_strlit("_float?");
    reveal_strlit("_ident?");
    reveal_strlit("_integer?");
    reveal_strlit("_lambda?");
    reveal_strlit("_list?");
    reveal_strlit("_macro?");
    reveal_strlit("_nil?");
    reveal_strlit("_print");
    reveal_strlit("_quasiquote?");
    reveal_strlit("_quote?");
    reveal_strlit("_str");
    reveal_strlit("_string?");
    reveal_strlit("_unquote?");
    reveal_strlit("car");
    reveal_strlit("cdr");
    reveal_strlit("cons");
    reveal_strlit("def");
    reveal_strlit("defmacro");
    reveal_strlit("eval");
    reveal_strlit("float?");
    reveal_strlit("ident?");
    reveal_strlit("if");
    reveal_strlit("integer?");
    reveal_strlit("lambda");
    reveal_strlit("lambda?");
    reveal_strlit("list?");
    reveal_strlit("macro?");
    reveal_strlit("nil?");
    reveal_strlit("print");
    reveal_strlit("print-debug");
    reveal_strlit("quasiquote?");
    reveal_strlit("quote?");
    reveal_strlit("str");
    reveal_strlit("string?");
    reveal_strlit("unquote?");
    assert("&"@.len() == 1);
    assert("&"@[0] == '&');
}

} // verus!
