use rscheme::capture::{collect_idents, eval_lambda, lambda_verify_args};
use rscheme::equal::equal;
use rscheme::eval::{eval_fn_args, eval_in};
use rscheme::expr::{merge_envs, Env, Expr};
use rscheme::fault::{ErrorKind, Fault};
use rscheme::float::{FloatFacts, FloatOp, FloatQuery};
use rscheme::lexer::ReadError;
use rscheme::prim::World;
use rscheme::read::read_str;
use rscheme::unit::{learn, tokens_with, Asker, FloatUnit, NoUnit};
use std::rc::Rc;

struct Fixed;

impl FloatUnit for Fixed {
    fn number(&self, _q: FloatQuery) -> u64 {
        7
    }

    fn text(&self, _bits: u64) -> String {
        "seven".to_string()
    }

    fn literal(&self, text: &str) -> Option<u64> {
        if text == "0.5" {
            Some(0.5f64.to_bits())
        } else {
            None
        }
    }
}

fn form(s: &str) -> Rc<Expr> {
    read_str(s, &FloatFacts::new()).unwrap()[0].clone()
}

fn world() -> World {
    World { globals: Env::new(), output: vec![] }
}

fn num(i: i64) -> Rc<Expr> {
    Rc::new(Expr::Integer(i))
}

fn sorted(mut v: Vec<String>) -> Vec<String> {
    v.sort();
    v.dedup();
    v
}

#[test]
fn merging_prefers_the_overlay() {
    let mut x = Env::new();
    x.insert("a".to_string(), num(1));
    x.insert("b".to_string(), num(2));
    let mut y = Env::new();
    y.insert("b".to_string(), num(20));
    y.insert("c".to_string(), num(30));
    merge_envs(&mut x, &Some(y));
    assert!(equal(&x.get("a").unwrap(), &Expr::Integer(1)));
    assert!(equal(&x.get("b").unwrap(), &Expr::Integer(20)));
    assert!(equal(&x.get("c").unwrap(), &Expr::Integer(30)));
    merge_envs(&mut x, &None);
    assert!(equal(&x.get("b").unwrap(), &Expr::Integer(20)));
    assert!(!x.contains("d"));
}

#[test]
fn parameter_lists_are_lists_of_identifiers() {
    let mut v = vec!["z".to_string()];
    assert!(lambda_verify_args(&form("(a b & c)"), &mut v));
    assert_eq!(sorted(v), vec!["&", "a", "b", "c", "z"]);
    let mut v = vec!["z".to_string()];
    assert!(lambda_verify_args(&form("()"), &mut v));
    assert_eq!(v, vec!["z"]);
    for bad in ["(a 1)", "(a (b))", "a", "1", "(a \"b\")"] {
        let mut v = vec!["z".to_string()];
        assert!(!lambda_verify_args(&form(bad), &mut v), "{}", bad);
        assert_eq!(v, vec!["z"]);
    }
    let improper = Expr::Cons(Rc::new(Expr::Ident("a".to_string())), Rc::new(Expr::Ident("b".to_string())));
    let mut v = vec![];
    assert!(!lambda_verify_args(&improper, &mut v));
    assert!(v.is_empty());
}

#[test]
fn free_identifiers_of_a_body() {
    let mut globals = Env::new();
    globals.insert("g".to_string(), num(1));
    let ignore = vec!["x".to_string()];
    let free = |s: &str, quote: bool| {
        let mut ids = vec![];
        collect_idents(&form(s), &mut ids, &ignore, &globals, quote);
        sorted(ids)
    };
    assert_eq!(free("(+ x (* y g))", false), vec!["y"]);
    assert_eq!(free("(f x (if a b c))", false), vec!["a", "b", "c", "f"]);
    assert_eq!(free("'(a b)", false), Vec::<String>::new());
    assert_eq!(free("`(a ,b (c ,(d e)))", false), vec!["b", "d", "e"]);
    assert_eq!(free("(a (lambda (q) (b q)))", false), vec!["a"]);
    assert_eq!(free("(def n (m n))", false), vec!["m", "n"]);
    assert_eq!(free("(defmacro n (p) (q p))", false), vec!["p", "q"]);
    assert_eq!(free("(def 1 a)", false), vec!["a"]);
    assert_eq!(free("(a b)", true), Vec::<String>::new());
    assert_eq!(free("(a ,b)", true), vec!["b"]);
    assert_eq!(free("(lambda (q) ,b)", true), vec!["b"]);
    assert_eq!(free("7", false), Vec::<String>::new());
    assert_eq!(free("\"y\"", false), Vec::<String>::new());
}

#[test]
fn a_lambda_form_makes_a_closure() {
    let mut env = Env::new();
    env.insert("y".to_string(), num(5));
    env.insert("z".to_string(), num(6));
    let globals = Env::new();
    let lambda = form("(lambda f (x) (+ x (f y)))");
    let args = match &*lambda {
        Expr::Cons(_, args) => args.clone(),
        _ => unreachable!(),
    };
    match &*eval_lambda(&args, &env, &globals).unwrap() {
        Expr::Lambda(Some(name), params, body, Some(captured)) => {
            assert_eq!(name, "f");
            assert!(equal(params, &form("(x)")));
            assert!(equal(body, &form("(+ x (f y))")));
            assert!(captured.contains("y"));
            assert!(!captured.contains("z") && !captured.contains("x") && !captured.contains("f"));
        }
        other => panic!("{:?}", other),
    }
    assert_eq!(
        eval_lambda(&num(1), &env, &globals).err(),
        Some(Fault::Error(ErrorKind::MalformedSpecialForm))
    );
}

#[test]
fn a_macro_binds_its_arguments_as_they_stand() {
    let mut w = world();
    let frame = eval_fn_args(
        &form("(a & rest)"),
        &form("((+ 1 2) (nope) 3)"),
        true,
        Env::new(),
        &Env::new(),
        &mut w,
        &mut Asker { facts: FloatFacts::new(), unit: &NoUnit, left: 0 },
        100,
    )
    .unwrap();
    assert!(equal(&frame.get("a").unwrap(), &form("(+ 1 2)")));
    assert!(equal(&frame.get("rest").unwrap(), &form("((nope) 3)")));
    assert!(!frame.contains("&"));
}

#[test]
fn a_closure_binds_the_values_of_its_arguments() {
    let mut w = world();
    let mut caller = Env::new();
    caller.insert("n".to_string(), num(10));
    let frame = eval_fn_args(
        &form("(a & rest)"),
        &form("((+ n 2) n (def seen 3))"),
        false,
        Env::new(),
        &caller,
        &mut w,
        &mut Asker { facts: FloatFacts::new(), unit: &NoUnit, left: 0 },
        100,
    )
    .unwrap();
    assert!(equal(&frame.get("a").unwrap(), &Expr::Integer(12)));
    assert!(equal(&frame.get("rest").unwrap(), &form("(10 3)")));
    assert!(!frame.contains("n"));
    assert!(w.globals.contains("seen"));
}

#[test]
fn evaluation_takes_the_bindings_it_is_given() {
    let mut w = world();
    w.globals.insert("x".to_string(), num(1));
    let mut env = Env::new();
    env.insert("x".to_string(), num(2));
    let mut k = Asker { facts: FloatFacts::new(), unit: &Fixed, left: 2 };
    let r = eval_in(&form("(cons x (print x))"), &env, &mut w, &mut k, 100).unwrap();
    assert!(equal(&r, &Expr::Cons(num(2), Rc::new(Expr::Nil))));
    assert_eq!(w.output, vec!["2"]);
    let r = eval_in(&form("x"), &Env::new(), &mut w, &mut k, 100).unwrap();
    assert!(equal(&r, &Expr::Integer(1)));
    assert_eq!(
        eval_in(&form("x"), &Env::new(), &mut w, &mut k, 0).err(),
        Some(Fault::Error(ErrorKind::DepthExceeded))
    );
    assert_eq!(k.left, 2);
}

#[test]
fn the_unit_is_asked_on_the_way() {
    let mut w = world();
    let mut k = Asker { facts: FloatFacts::new(), unit: &Fixed, left: 3 };
    let sum = Rc::new(Expr::Cons(
        Rc::new(Expr::Ident("+".to_string())),
        Rc::new(Expr::Cons(
            Rc::new(Expr::Float(1)),
            Rc::new(Expr::Cons(
                Rc::new(Expr::Cons(
                    Rc::new(Expr::Ident("print".to_string())),
                    Rc::new(Expr::Cons(Rc::new(Expr::Integer(4)), Rc::new(Expr::Nil))),
                )),
                Rc::new(Expr::Nil),
            )),
        )),
    ));
    let r = eval_in(&sum, &Env::new(), &mut w, &mut k, 100);
    assert_eq!(r.err(), Some(Fault::Error(ErrorKind::TypeMismatch)));
    assert_eq!(w.output, vec!["4"]);
    assert_eq!(k.left, 3);
    let two = Rc::new(Expr::Cons(
        Rc::new(Expr::Ident("*".to_string())),
        Rc::new(Expr::Cons(
            Rc::new(Expr::Float(1)),
            Rc::new(Expr::Cons(Rc::new(Expr::Integer(2)), Rc::new(Expr::Nil))),
        )),
    ));
    let r = eval_in(&two, &Env::new(), &mut w, &mut k, 100).unwrap();
    assert!(equal(&r, &Expr::Float(7)));
    assert_eq!(k.left, 1);
    assert_eq!(k.facts.number(FloatQuery::FromInt(2)), Some(7));
    assert_eq!(k.facts.number(FloatQuery::Arith(FloatOp::Mul, 1, 7)), Some(7));
    let r = eval_in(&two, &Env::new(), &mut w, &mut k, 100).unwrap();
    assert!(equal(&r, &Expr::Float(7)));
    assert_eq!(k.left, 1);
    let three = Rc::new(Expr::Cons(
        Rc::new(Expr::Ident("-".to_string())),
        Rc::new(Expr::Cons(
            Rc::new(Expr::Float(1)),
            Rc::new(Expr::Cons(Rc::new(Expr::Integer(3)), Rc::new(Expr::Nil))),
        )),
    ));
    let r = eval_in(&three, &Env::new(), &mut w, &mut k, 100);
    assert_eq!(r.err(), Some(Fault::Pending(FloatQuery::Arith(FloatOp::Sub, 1, 7))));
    assert_eq!(k.left, 0);
}

#[test]
fn learning_records_what_the_unit_says() {
    let mut facts = FloatFacts::new();
    let q = FloatQuery::Arith(FloatOp::Add, 1, 2);
    learn(&mut facts, &Fixed, q);
    assert_eq!(facts.number(q), Some(7));
    learn(&mut facts, &Fixed, FloatQuery::Render(9));
    assert_eq!(facts.text(9), Some("seven".to_string()));
    assert_eq!(facts.number(FloatQuery::Render(9)), None);
}

#[test]
fn tokens_are_read_with_the_unit_at_hand() {
    let mut facts = FloatFacts::new();
    let tokens = tokens_with("(a 0.5 0.5)", &mut facts, &Fixed, 5).unwrap();
    assert_eq!(tokens.len(), 5);
    assert_eq!(facts.literal("0.5"), Some(Some(0.5f64.to_bits())));
    let mut facts = FloatFacts::new();
    match tokens_with("(a 0.5)", &mut facts, &Fixed, 0) {
        Err(ReadError::Literal(t)) => assert_eq!(t, "0.5"),
        other => panic!("{:?}", other),
    }
    assert_eq!(facts.literal("0.5"), None);
    let mut facts = FloatFacts::new();
    assert!(matches!(tokens_with("(a 0.25)", &mut facts, &Fixed, 5), Err(ReadError::Parse)));
    assert_eq!(facts.literal("0.25"), Some(None));
}

#[test]
fn the_unit_that_knows_nothing() {
    assert_eq!(NoUnit.number(FloatQuery::Arith(FloatOp::Add, 1, 2)), 0);
    assert_eq!(NoUnit.number(FloatQuery::FromInt(7)), 0);
    assert_eq!(NoUnit.text(1.5f64.to_bits()), "");
    assert_eq!(NoUnit.literal("1.5"), None);
}
