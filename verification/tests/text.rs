use rscheme::expr::{Env, Expr};
use rscheme::float::{bits_eq, bits_lt, bits_nan, FloatFacts, FloatOp, FloatQuery};
use rscheme::form::{classify, is_reserved_ident, Binary, Form, Kind, Unary};
use rscheme::number::render_int;
use rscheme::print::{plain_text, render_expr};
use rscheme::read::read_str;
use rscheme::equal::equal;
use rscheme::text::to_chars;
use std::rc::Rc;

fn num(i: i64) -> Rc<Expr> {
    Rc::new(Expr::Integer(i))
}

fn ident(s: &str) -> Rc<Expr> {
    Rc::new(Expr::Ident(s.to_string()))
}

fn list(items: Vec<Rc<Expr>>) -> Rc<Expr> {
    let mut l = Rc::new(Expr::Nil);
    for e in items.into_iter().rev() {
        l = Rc::new(Expr::Cons(e, l));
    }
    l
}

fn shown(e: &Expr) -> String {
    render_expr(e, &FloatFacts::new()).unwrap()
}

const SAMPLES: [f64; 16] = [
    0.0,
    -0.0,
    1.0,
    -1.0,
    1.5,
    -1.5,
    2.0,
    1e300,
    -1e300,
    5e-324,
    -5e-324,
    f64::INFINITY,
    f64::NEG_INFINITY,
    f64::NAN,
    f64::MAX,
    f64::MIN_POSITIVE,
];

#[test]
fn integers_are_displayed_in_decimal() {
    for i in [0i64, 1, 9, 10, 11, 99, 100, 12345, -1, -10, -987, i64::MAX, i64::MIN, i64::MIN + 1] {
        assert_eq!(render_int(i), i.to_string());
    }
    assert_eq!(render_int(-9223372036854775808), "-9223372036854775808");
    assert_eq!(render_int(1000), "1000");
}

#[test]
fn characters_of_a_text() {
    assert_eq!(to_chars("aé√c"), vec!['a', 'é', '√', 'c']);
    assert_eq!(to_chars(""), Vec::<char>::new());
}

#[test]
fn order_and_equality_of_doubles_by_their_bits() {
    for x in SAMPLES {
        assert_eq!(bits_nan(x.to_bits()), x.is_nan());
        for y in SAMPLES {
            assert_eq!(bits_lt(x.to_bits(), y.to_bits()), x < y, "{} {}", x, y);
            assert_eq!(bits_eq(x.to_bits(), y.to_bits()), x == y, "{} {}", x, y);
        }
    }
    assert!(!bits_eq(0x7ff8_0000_0000_0001, 0x7ff8_0000_0000_0001));
    assert!(bits_eq(0, 0x8000_0000_0000_0000));
}

#[test]
fn later_facts_override_earlier_ones() {
    let mut f = FloatFacts::new();
    let q = FloatQuery::Arith(FloatOp::Add, 1, 2);
    assert_eq!(f.number(q), None);
    f.learn_number(q, 3);
    f.learn_number(FloatQuery::Arith(FloatOp::Sub, 1, 2), 9);
    f.learn_number(FloatQuery::FromInt(1), 7);
    assert_eq!(f.number(q), Some(3));
    f.learn_number(q, 4);
    assert_eq!(f.number(q), Some(4));
    assert_eq!(f.number(FloatQuery::FromInt(1)), Some(7));
    assert_eq!(f.number(FloatQuery::FromInt(2)), None);
    assert_eq!(f.text(5), None);
    f.learn_text(5, "five".to_string());
    f.learn_text(5, "cinq".to_string());
    assert_eq!(f.text(5), Some("cinq".to_string()));
    assert_eq!(f.literal("1.0"), None);
    f.learn_literal("1.0".to_string(), None);
    assert_eq!(f.literal("1.0"), Some(None));
    f.learn_literal("1.0".to_string(), Some(8));
    assert_eq!(f.literal("1.0"), Some(Some(8)));
    let g = f.duplicate();
    assert_eq!(g.number(q), Some(4));
    assert_eq!(g.text(5), Some("cinq".to_string()));
    assert_eq!(g.literal("1.0"), Some(Some(8)));
}

#[test]
fn atoms_are_displayed_as_their_literal() {
    assert_eq!(shown(&Expr::Nil), "()");
    assert_eq!(shown(&Expr::Integer(-12)), "-12");
    assert_eq!(shown(&Expr::Ident("abc".to_string())), "abc");
    assert_eq!(shown(&Expr::String("a b".to_string())), "\"a b\"");
    assert_eq!(shown(&Expr::String("a\"b".to_string())), "\"a\\\"b\"");
    assert_eq!(shown(&Expr::String("a\\b".to_string())), "\"a\\\\b\"");
    assert_eq!(shown(&Expr::String("\"".to_string())), "\"\\\"\"");
    assert_eq!(shown(&Expr::Lambda(None, list(vec![]), num(1), None)), "#Lambda");
    assert_eq!(shown(&Expr::Macro(list(vec![]), num(1))), "#Macro");
}

#[test]
fn lists_are_displayed_between_parentheses() {
    assert_eq!(shown(&list(vec![num(1)])), "(1)");
    assert_eq!(shown(&list(vec![num(1), ident("a"), Rc::new(Expr::String("s".to_string()))])), "(1 a \"s\")");
    assert_eq!(shown(&list(vec![list(vec![num(1), list(vec![num(2)])]), Rc::new(Expr::Nil)])), "((1 (2)) ())");
    assert_eq!(shown(&Expr::Cons(num(1), num(2))), "(12");
}

#[test]
fn quote_marks_are_displayed_in_front() {
    assert_eq!(shown(&Expr::Quote(ident("a"))), "'a");
    assert_eq!(shown(&Expr::Unquote(ident("a"))), ",a");
    assert_eq!(shown(&Expr::Quasiquote(list(vec![ident("a"), Rc::new(Expr::Unquote(ident("b")))]))), "`(a ,b)");
}

#[test]
fn the_text_of_a_double_comes_from_the_facts() {
    let mut f = FloatFacts::new();
    let e = list(vec![num(1), Rc::new(Expr::Float(2.5f64.to_bits())), Rc::new(Expr::Float(1.0f64.to_bits()))]);
    assert_eq!(render_expr(&e, &f), Err(FloatQuery::Render(2.5f64.to_bits())));
    f.learn_text(2.5f64.to_bits(), "2.5".to_string());
    assert_eq!(render_expr(&e, &f), Err(FloatQuery::Render(1.0f64.to_bits())));
    f.learn_text(1.0f64.to_bits(), "1".to_string());
    assert_eq!(render_expr(&e, &f), Ok("(1 2.5 1)".to_string()));
}

#[test]
fn plain_text_shows_a_string_without_quotes() {
    let f = FloatFacts::new();
    assert_eq!(plain_text(&Expr::String("a b".to_string()), &f), Ok("a b".to_string()));
    assert_eq!(plain_text(&Expr::String("a\"\\b".to_string()), &f), Ok("a\"\\b".to_string()));
    assert_eq!(plain_text(&list(vec![Rc::new(Expr::String("a".to_string()))]), &f), Ok("(\"a\")".to_string()));
    assert_eq!(plain_text(&Expr::Integer(3), &f), Ok("3".to_string()));
}

#[test]
fn displayed_text_reads_back() {
    let f = FloatFacts::new();
    let samples = vec![
        Rc::new(Expr::Nil),
        num(0),
        num(42),
        num(i64::MAX),
        ident("abc"),
        ident("a-b?"),
        Rc::new(Expr::String("hello world (1)".to_string())),
        Rc::new(Expr::String(String::new())),
        Rc::new(Expr::String("a\"b".to_string())),
        Rc::new(Expr::String("\\".to_string())),
        Rc::new(Expr::String("\\\"\\\\ \"\" é\n".to_string())),
        list(vec![Rc::new(Expr::String("(\"".to_string())), ident("x")]),
        Rc::new(Expr::Quote(ident("a"))),
        Rc::new(Expr::Quasiquote(list(vec![ident("a"), Rc::new(Expr::Unquote(ident("b")))]))),
        list(vec![num(1), list(vec![num(2), list(vec![num(3), list(vec![ident("x")])])])]),
        list(vec![list(vec![list(vec![list(vec![])])]), Rc::new(Expr::String("s".to_string()))]),
        list(vec![ident("def"), ident("f"), list(vec![ident("lambda"), list(vec![ident("x")]), Rc::new(Expr::Quote(list(vec![ident("x"), num(1)])))])]),
    ];
    for e in samples {
        let text = render_expr(&e, &f).unwrap();
        let forms = read_str(&text, &f).unwrap();
        assert_eq!(forms.len(), 1, "{}", text);
        assert!(equal(&e, &forms[0]), "{}", text);
    }
}

#[test]
fn displayed_doubles_read_back_when_they_show_a_dot() {
    let mut f = FloatFacts::new();
    let bits = 2.5f64.to_bits();
    f.learn_text(bits, "2.5".to_string());
    f.learn_literal("2.5".to_string(), Some(bits));
    let e = list(vec![Rc::new(Expr::Float(bits)), num(1)]);
    let text = render_expr(&e, &f).unwrap();
    let forms = read_str(&text, &f).unwrap();
    assert!(equal(&e, &forms[0]));
}

#[test]
fn what_does_not_read_back() {
    let f = FloatFacts::new();
    let e = Expr::Integer(-5);
    let forms = read_str(&render_expr(&e, &f).unwrap(), &f).unwrap();
    assert!(equal(&forms[0], &Expr::Ident("-5".to_string())));
    let e = Expr::Lambda(None, list(vec![]), num(1), None);
    let forms = read_str(&render_expr(&e, &f).unwrap(), &f).unwrap();
    assert!(equal(&forms[0], &Expr::Ident("#Lambda".to_string())));
}

#[test]
fn reserved_identifiers() {
    for name in [
        "print-debug", "defmacro", "_cons", "lambda", "eval", "def", "if", "_+", "_-", "_*", "_/",
        "_=", "_<", "_>", "_car", "_cdr", "_&", "_nil?", "_lambda?", "_macro?", "_integer?",
        "_float?", "_ident?", "_string?", "_quote?", "_unquote?", "_quasiquote?", "_list?",
        "_str", "_print", "+", "-", "*", "/", "=", "<", ">", "car", "cdr", "cons", "str", "print",
        "nil?", "list?", "lambda?", "macro?", "integer?", "float?", "ident?", "string?", "quote?",
        "unquote?", "quasiquote?",
    ] {
        assert!(is_reserved_ident(name), "{}", name);
    }
    for name in ["&", "x", "", "t", "IF", "_if", "_def", "_lambda", "_eval", "define", "++", "_", "nil"] {
        assert!(!is_reserved_ident(name), "{}", name);
    }
}

#[test]
fn forms_by_name() {
    assert_eq!(classify("if"), Some(Form::If));
    assert_eq!(classify("def"), Some(Form::Def));
    assert_eq!(classify("lambda"), Some(Form::Lambda));
    assert_eq!(classify("defmacro"), Some(Form::Defmacro));
    assert_eq!(classify("eval"), Some(Form::Eval));
    assert_eq!(classify("print-debug"), Some(Form::Unary(Unary::PrintDebug)));
    assert_eq!(classify("_print"), Some(Form::Unary(Unary::Print)));
    assert_eq!(classify("car"), Some(Form::Unary(Unary::Car)));
    assert_eq!(classify("_cdr"), Some(Form::Unary(Unary::Cdr)));
    assert_eq!(classify("_+"), Some(Form::Binary(Binary::Add)));
    assert_eq!(classify("-"), Some(Form::Binary(Binary::Sub)));
    assert_eq!(classify("*"), Some(Form::Binary(Binary::Mul)));
    assert_eq!(classify("_/"), Some(Form::Binary(Binary::Div)));
    assert_eq!(classify("="), Some(Form::Binary(Binary::Equal)));
    assert_eq!(classify("<"), Some(Form::Binary(Binary::Less)));
    assert_eq!(classify("_>"), Some(Form::Binary(Binary::Greater)));
    assert_eq!(classify("str"), Some(Form::Binary(Binary::Str)));
    assert_eq!(classify("_cons"), Some(Form::Binary(Binary::Cons)));
    assert_eq!(classify("nil?"), Some(Form::Unary(Unary::Is(Kind::Nil))));
    assert_eq!(classify("_quasiquote?"), Some(Form::Unary(Unary::Is(Kind::Quasiquote))));
    assert_eq!(classify("_&"), None);
    assert_eq!(classify("x"), None);
}

#[test]
fn environments_keep_the_last_binding() {
    let mut e = Env::new();
    assert!(e.is_empty());
    assert!(e.get("a").is_none());
    e.insert("a".to_string(), num(1));
    e.insert("b".to_string(), num(2));
    e.insert("a".to_string(), num(3));
    assert!(!e.is_empty());
    assert!(equal(&e.get("a").unwrap(), &Expr::Integer(3)));
    assert!(equal(&e.get("b").unwrap(), &Expr::Integer(2)));
    assert!(e.contains("a") && !e.contains("c"));
    assert_eq!(e.position("a"), Some(0));
    assert_eq!(e.entries.len(), 2);
    e.entries.push(("a".to_string(), num(5)));
    assert_eq!(e.position("a"), Some(2));
    assert!(equal(&e.get("a").unwrap(), &Expr::Integer(5)));
    e.insert("a".to_string(), num(3));
    assert_eq!(e.entries.len(), 3);
    assert!(equal(&e.get("a").unwrap(), &Expr::Integer(3)));
    assert_eq!(e.position("c"), None);
    let d = e.duplicate();
    e.insert("c".to_string(), num(4));
    assert!(!d.contains("c"));
    assert!(equal(&d.get("a").unwrap(), &Expr::Integer(3)));
}
