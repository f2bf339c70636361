use rscheme::context::Context;
use rscheme::equal::equal;
use rscheme::expr::{Env, Expr};
use rscheme::fault::{ErrorKind, Fault};
use rscheme::float::{FloatOp, FloatQuery};
use rscheme::lexer::ReadError;
use rscheme::read::read_str;
use rscheme::unit::{read_str_with, render_with, FloatUnit};
use std::rc::Rc;

struct Fpu;

impl FloatUnit for Fpu {
    fn number(&self, q: FloatQuery) -> u64 {
        match q {
            FloatQuery::Arith(op, a, b) => {
                let x = f64::from_bits(a);
                let y = f64::from_bits(b);
                let r = match op {
                    FloatOp::Add => x + y,
                    FloatOp::Sub => x - y,
                    FloatOp::Mul => x * y,
                    FloatOp::Div => x / y,
                };
                r.to_bits()
            }
            FloatQuery::FromInt(i) => (i as f64).to_bits(),
            FloatQuery::Render(bits) => bits,
        }
    }

    fn text(&self, bits: u64) -> String {
        format!("{:?}", f64::from_bits(bits))
    }

    fn literal(&self, text: &str) -> Option<u64> {
        text.parse::<f64>().ok().map(f64::to_bits)
    }
}

const ROUNDS: usize = 1000;

fn read_all(c: &mut Context, s: &str) -> Vec<Rc<Expr>> {
    match read_str_with(s, &mut c.floats, &Fpu, ROUNDS) {
        Ok(forms) => forms,
        Err(e) => panic!("no sequence of forms: {}: {:?}", s, e),
    }
}

fn eval_top(c: &Context, e: Rc<Expr>) -> Context {
    c.eval_expr_with(e, &Fpu, ROUNDS)
}

fn run(c: &Context, s: &str) -> Context {
    let mut c = c.duplicate();
    let es = read_all(&mut c, s);
    for e in es {
        c = eval_top(&c, e.clone());
        if c.has_error() {
            break;
        }
    }
    c
}

fn eval_str(s: &str) -> Rc<Expr> {
    let mut c = Context::new();
    let es = read_all(&mut c, s);
    for e in es {
        c = eval_top(&c, e.clone());
    }
    c.expr.clone()
}

fn compare(expected: &Expr, got: &Expr) {
    if !equal(expected, got) {
        panic!("Expected: {:?}, got: {:?}", expected, got);
    }
}

fn num(i: i64) -> Rc<Expr> {
    Rc::new(Expr::Integer(i))
}

fn ident(s: &str) -> Rc<Expr> {
    Rc::new(Expr::Ident(s.to_string()))
}

fn list(items: Vec<Rc<Expr>>) -> Rc<Expr> {
    let mut l = Rc::new(Expr::Nil);
    for e in items.into_iter().rev() {
        l = Rc::new(Expr::Cons(e, l));
    }
    l
}

fn fails_with(s: &str, kind: ErrorKind) {
    let c = run(&Context::new(), s);
    assert_eq!(c.error, Some(Fault::Error(kind)), "{}", s);
    assert!(matches!(*c.expr, Expr::Nil));
}

fn gives(s: &str, expected: Rc<Expr>) {
    let c = run(&Context::new(), s);
    assert_eq!(c.error, None, "{}", s);
    compare(&expected, &c.expr);
}

#[test]
fn test_non_existing_file() {
    let c = Context::new();
    let forms: Vec<Rc<Expr>> = vec![];
    let c = c.eval_forms(&forms);
    match *c.expr {
        Expr::Nil => (),
        _ => panic!("Return should be nil"),
    }
}

#[test]
fn test_integer() {
    let s = "2";
    let exp: Expr = Expr::Integer(2);
    let e = eval_str(s);
    compare(&exp, &e)
}

#[test]
fn test_float() {
    let s = "3.0";
    let exp: Expr = Expr::Float(3.0f64.to_bits());
    let e = eval_str(s);
    compare(&exp, &e)
}

#[test]
fn test_nil() {
    let s = "()";
    let exp: Expr = Expr::Nil;
    let e = eval_str(s);
    compare(&exp, &e)
}

#[test]
fn test_list() {
    let s = "'(1 2)";
    let exp: Expr = Expr::Cons(
        Rc::new(Expr::Integer(1)),
        Rc::new(Expr::Cons(Rc::new(Expr::Integer(2)), Rc::new(Expr::Nil))),
    );

    let e = eval_str(s);
    compare(&exp, &e)
}

#[test]
fn test_def() {
    let s = "(def x \"Oi\")
             x";
    let exp: Expr = Expr::String("Oi".to_string());
    let e = eval_str(s);
    compare(&exp, &e)
}

#[test]
fn test_lambda() {
    let s = "(def f (lambda (x)
                            (_* 2 x)))
             (f 3)";
    let exp: Expr = Expr::Integer(6);
    let e = eval_str(s);
    compare(&exp, &e)
}

#[test]
fn test_macro() {
    let s = "(defmacro defn (name args body)
                            `(def ,name
                                  (lambda ,args
                                          ,body)))
             (defn f (x) (_+ x 3.0))
             (f 2)";
    let exp: Expr = Expr::Float(5.0f64.to_bits());
    let e = eval_str(s);
    compare(&exp, &e)
}

#[test]
fn test_env_1() {
    let s = "(defmacro defn (name args body)
                            `(def ,name
                                  (lambda ,args
                                          ,body)))
             (defn f (x) (_+ x 3.0))
             (def x 2)
             (f x)";
    let exp: Expr = Expr::Float(5.0f64.to_bits());
    let e = eval_str(s);
    compare(&exp, &e)
}

#[test]
fn test_env_2() {
    let s = "(defmacro defn (name args body)
                            `(def ,name
                                  (lambda ,args
                                          ,body)))
             (defn add (x) (lambda (y) (_+ x y)))
             (def f (add 3.0))
             (def x 2)
             (f 2)";
    let exp: Expr = Expr::Float(5.0f64.to_bits());
    let e = eval_str(s);
    compare(&exp, &e)
}

#[test]
fn self_evaluating_atoms() {
    gives("42", num(42));
    gives("\"a b\"", Rc::new(Expr::String("a b".to_string())));
    gives("()", Rc::new(Expr::Nil));
    gives("1.5", Rc::new(Expr::Float(1.5f64.to_bits())));
}

#[test]
fn quote_returns_its_content_unevaluated() {
    gives("'x", ident("x"));
    gives("'(+ 1 2)", list(vec![ident("+"), num(1), num(2)]));
    gives("\\x", ident("x"));
}

#[test]
fn unbound_identifier_fails() {
    fails_with("x", ErrorKind::UnboundIdentifier);
    fails_with("(x 1)", ErrorKind::UnboundIdentifier);
}

#[test]
fn integer_arithmetic_is_exact() {
    gives("(+ 2 3)", num(5));
    gives("(- 2 3)", num(-1));
    gives("(* 6 7)", num(42));
    gives("(/ 7 2)", num(3));
    gives("(/ (- 0 7) 2)", num(-3));
    gives("(_+ 2 3)", num(5));
    gives("(_/ 9 3)", num(3));
}

#[test]
fn integer_arithmetic_wraps_around() {
    gives("(+ 9223372036854775807 1)", num(i64::MIN));
    gives("(- (- 0 9223372036854775807) 2)", num(i64::MAX));
    gives("(* 9223372036854775807 2)", num(-2));
    gives("(/ (- (- 0 9223372036854775807) 1) (- 0 1))", num(i64::MIN));
}

#[test]
fn integer_division_by_zero_fails() {
    fails_with("(/ 1 0)", ErrorKind::DivisionByZero);
}

#[test]
fn mixed_arithmetic_promotes_to_float() {
    gives("(+ 1 2.5)", Rc::new(Expr::Float(3.5f64.to_bits())));
    gives("(+ 2.5 1)", Rc::new(Expr::Float(3.5f64.to_bits())));
    gives("(- 1.5 0.25)", Rc::new(Expr::Float(1.25f64.to_bits())));
    gives("(* 2 0.5)", Rc::new(Expr::Float(1.0f64.to_bits())));
    gives("(/ 1 4.0)", Rc::new(Expr::Float(0.25f64.to_bits())));
    gives("(/ 1.0 0)", Rc::new(Expr::Float(f64::INFINITY.to_bits())));
}

#[test]
fn arithmetic_on_other_types_is_a_type_error() {
    fails_with("(+ 1 \"a\")", ErrorKind::TypeMismatch);
    fails_with("(* '() 2)", ErrorKind::TypeMismatch);
    fails_with("(- 1.5 'x)", ErrorKind::TypeMismatch);
    fails_with("(< 1 \"a\")", ErrorKind::TypeMismatch);
}

#[test]
fn primitives_check_their_argument_count() {
    fails_with("(+ 1)", ErrorKind::ArityMismatch);
    fails_with("(+ 1 2 3)", ErrorKind::ArityMismatch);
    fails_with("(car)", ErrorKind::ArityMismatch);
    fails_with("(car '(1) '(2))", ErrorKind::ArityMismatch);
    fails_with("(eval)", ErrorKind::ArityMismatch);
}

#[test]
fn a_float_operation_waits_for_its_fact() {
    let mut c = Context::new();
    c.floats.learn_literal("1.5".to_string(), Some(1.5f64.to_bits()));
    let forms = read_str("(+ 1.5 1.5)", &c.floats).unwrap();
    let r = c.eval_expr(forms[0].clone());
    let q = FloatQuery::Arith(FloatOp::Add, 1.5f64.to_bits(), 1.5f64.to_bits());
    assert_eq!(r.error, Some(Fault::Pending(q)));
    assert_eq!(r.pending(), Some(q));
    c.floats.learn_number(q, 3.0f64.to_bits());
    let r = c.eval_expr(forms[0].clone());
    assert_eq!(r.error, None);
    compare(&Expr::Float(3.0f64.to_bits()), &r.expr);
}

#[test]
fn a_float_literal_waits_for_its_fact() {
    let c = Context::new();
    match read_str("(f 2.25)", &c.floats) {
        Err(ReadError::Literal(t)) => assert_eq!(t, "2.25"),
        other => panic!("{:?}", other),
    }
}

#[test]
fn comparisons() {
    gives("(< 1 2)", ident("t"));
    gives("(< 2 1)", Rc::new(Expr::Nil));
    gives("(> 2 1)", ident("t"));
    gives("(> 1 1)", Rc::new(Expr::Nil));
    gives("(< 1 1.5)", ident("t"));
    gives("(> 1.5 1)", ident("t"));
    gives("(< 2.5 2)", Rc::new(Expr::Nil));
}

#[test]
fn comparisons_take_numbers_only() {
    fails_with("(< \"abc\" \"abd\")", ErrorKind::TypeMismatch);
    fails_with("(> \"b\" \"abc\")", ErrorKind::TypeMismatch);
    fails_with("(< \"b\" \"b\")", ErrorKind::TypeMismatch);
    fails_with("(_< \"a\" \"b\")", ErrorKind::TypeMismatch);
    fails_with("(< 1 \"a\")", ErrorKind::TypeMismatch);
    fails_with("(> 'a 1.5)", ErrorKind::TypeMismatch);
    fails_with("(< () ())", ErrorKind::TypeMismatch);
}

#[test]
fn structural_equality_on_lists() {
    gives("(= '(1 2) '(1 2))", ident("t"));
    gives("(= '(1 2) '(1 3))", Rc::new(Expr::Nil));
    gives("(= '(1 (2 \"x\")) '(1 (2 \"x\")))", ident("t"));
    gives("(= '() '())", ident("t"));
    gives("(= 1 1.0)", Rc::new(Expr::Nil));
    gives("(= 'a 'a)", ident("t"));
    gives("(= 'a \"a\")", Rc::new(Expr::Nil));
    gives("(= 0.0 (- 0.0 0.0))", ident("t"));
}

#[test]
fn equality_is_reflexive_on_values() {
    let c = run(
        &Context::new(),
        "(def y 3) (def f (lambda g (x & r) (+ x y))) (defmacro m (a) a)",
    );
    for s in ["1", "'(a (b \"c\") 2.5)", "f", "m", "'`(a ,b)", "\"s\""] {
        let r = run(&c, s);
        assert_eq!(r.error, None);
        assert!(equal(&r.expr, &r.expr), "{}", s);
    }
}

#[test]
fn a_nan_is_not_equal_to_itself() {
    gives("(def n (/ 0.0 0.0)) (= n n)", Rc::new(Expr::Nil));
    gives("(def n (/ 0.0 0.0)) (< n 1.0)", Rc::new(Expr::Nil));
    gives("(def n (/ 0.0 0.0)) (> n 1.0)", Rc::new(Expr::Nil));
}

#[test]
fn if_evaluates_only_the_selected_branch() {
    let c = run(&Context::new(), "(if 1 (print \"then\") (print \"else\"))");
    assert_eq!(c.error, None);
    assert_eq!(c.output, vec!["then".to_string()]);
    let c = run(&Context::new(), "(if () (print \"then\") (print \"else\"))");
    assert_eq!(c.error, None);
    assert_eq!(c.output, vec!["else".to_string()]);
    let c = run(&Context::new(), "(if 0 (def a 1) (def b 2))");
    assert!(c.global_env.contains("a"));
    assert!(!c.global_env.contains("b"));
    gives("(if '(1) 1 2)", num(1));
    gives("(if (< 2 1) 1 2)", num(2));
}

#[test]
fn if_needs_exactly_three_sub_forms() {
    fails_with("(if)", ErrorKind::MalformedSpecialForm);
    fails_with("(if 1)", ErrorKind::MalformedSpecialForm);
    fails_with("(if 1 2)", ErrorKind::MalformedSpecialForm);
    fails_with("(if 1 2 3 4)", ErrorKind::MalformedSpecialForm);
}

#[test]
fn an_error_in_the_test_stops_the_if() {
    let c = run(&Context::new(), "(if nope (print \"then\") (print \"else\"))");
    assert_eq!(c.error, Some(Fault::Error(ErrorKind::UnboundIdentifier)));
    assert!(c.output.is_empty());
}

#[test]
fn def_returns_the_value_and_binds_globally() {
    gives("(def x (+ 1 2))", num(3));
    gives("(def x 1) (def x 2) x", num(2));
    fails_with("(def x)", ErrorKind::MalformedSpecialForm);
    fails_with("(def x 1 2)", ErrorKind::MalformedSpecialForm);
    fails_with("(def 1 2)", ErrorKind::MalformedSpecialForm);
    fails_with("(def x nope)", ErrorKind::UnboundIdentifier);
}

#[test]
fn def_inside_a_call_is_visible_at_top_level() {
    gives("(def f (lambda (v) (def x v))) (f 7) x", num(7));
    gives("(def x 0) (def f (lambda (v) (def x v))) (f 7) x", num(7));
    gives("(def f (lambda () (defmacro one () 1))) (f) (one)", num(1));
    gives(
        "(def f (lambda (v) (eval (cons 'def (cons 'fresh (cons v ()))))))
         (f 7)
         fresh",
        num(7),
    );
    fails_with("(lambda (v) (cons (def fresh v) fresh))", ErrorKind::UnboundIdentifier);
    fails_with("(lambda (v) (def 1 nope))", ErrorKind::UnboundIdentifier);
}

#[test]
fn reserved_identifiers_cannot_be_bound() {
    for name in [
        "if", "def", "lambda", "defmacro", "eval", "print-debug", "_+", "+", "_car", "car",
        "_nil?", "nil?", "_str", "str", "_&", "_print", "print", "cons", "quote?",
    ] {
        let c = run(&Context::new(), &format!("(def {} 1)", name));
        assert_eq!(c.error, Some(Fault::Error(ErrorKind::ReservedIdentifier)), "{}", name);
        assert!(c.global_env.is_empty());
        assert!(c.env.is_empty());
        let c = run(&Context::new(), &format!("(defmacro {} (x) x)", name));
        assert_eq!(c.error, Some(Fault::Error(ErrorKind::ReservedIdentifier)), "{}", name);
        assert!(c.global_env.is_empty());
        let c = run(&Context::new(), &format!("(lambda? (lambda (a {}) a))", name));
        assert_eq!(c.error, None, "{}", name);
        compare(&Expr::Ident("t".to_string()), &c.expr);
        let c = run(&Context::new(), &format!("((lambda (a {}) a) 1 (def y 2))", name));
        assert_eq!(c.error, Some(Fault::Error(ErrorKind::ReservedIdentifier)), "{}", name);
        assert!(c.global_env.is_empty());
        let c = run(&Context::new(), &format!("(def f (lambda {} (a) a))", name));
        assert_eq!(c.error, None, "{}", name);
        let c = run(&c, "(f (def y 2))");
        assert_eq!(c.error, Some(Fault::Error(ErrorKind::ReservedIdentifier)), "{}", name);
        assert!(!c.global_env.contains("y"));
    }
}

#[test]
fn def_of_a_reserved_name_does_not_evaluate_the_value() {
    let c = run(&Context::new(), "(def if (def y 1))");
    assert_eq!(c.error, Some(Fault::Error(ErrorKind::ReservedIdentifier)));
    assert!(c.global_env.is_empty());
}

#[test]
fn context_rejects_reserved_bindings() {
    let c = Context::new();
    let r = c.add_env("if".to_string(), num(1));
    assert_eq!(r.error, Some(Fault::Error(ErrorKind::ReservedIdentifier)));
    assert!(r.env.is_empty());
    let r = c.add_global("_car".to_string(), num(1));
    assert_eq!(r.error, Some(Fault::Error(ErrorKind::ReservedIdentifier)));
    assert!(r.global_env.is_empty());
    assert!(c.env.is_empty() && c.global_env.is_empty() && !c.has_error());
}

#[test]
fn context_extension_does_not_touch_the_parent() {
    let c = Context::new();
    let child = c.add_env("x".to_string(), num(1));
    assert!(!child.has_error());
    assert!(child.env.contains("x"));
    assert!(!c.env.contains("x"));
    let other = child.add_env("y".to_string(), num(2));
    assert!(other.env.contains("x") && other.env.contains("y"));
    assert!(!child.env.contains("y"));
    let g = c.add_global("z".to_string(), num(3));
    assert!(g.global_env.contains("z"));
    assert!(!c.global_env.contains("z"));
}

#[test]
fn context_lookup_prefers_the_local_binding() {
    let c = Context::new().add_global("x".to_string(), num(1));
    let r = c.lookup(&"x".to_string());
    assert!(!r.has_error());
    compare(&Expr::Integer(1), &r.expr);
    let c = c.add_env("x".to_string(), num(2));
    let r = c.lookup(&"x".to_string());
    compare(&Expr::Integer(2), &r.expr);
    let r = c.lookup(&"y".to_string());
    assert_eq!(r.error, Some(Fault::Error(ErrorKind::UnboundIdentifier)));
    assert!(matches!(*r.expr, Expr::Nil));
}

#[test]
fn context_set_expr_and_eval() {
    let c = Context::new().add_env("x".to_string(), num(5));
    let r = c.set_expr(Expr::Ident("x".to_string())).eval();
    assert!(!r.has_error());
    compare(&Expr::Integer(5), &r.expr);
    assert!(r.env.contains("x"));
    let r = c.set_rcexpr(list(vec![ident("+"), ident("x"), num(1)])).eval();
    compare(&Expr::Integer(6), &r.expr);
    let d = c.dup_env();
    assert!(d.env.contains("x"));
}

#[test]
fn a_context_with_an_error_is_not_evaluated_further() {
    let c = run(&Context::new(), "(def x 1) nope");
    assert!(c.has_error());
    let r = c.eval_expr(list(vec![ident("def"), ident("y"), num(2)]));
    assert!(r.has_error());
    assert!(!r.global_env.contains("y"));
    let r = c.recover().eval_expr(list(vec![ident("def"), ident("y"), num(2)]));
    assert!(!r.has_error());
    assert!(r.global_env.contains("y") && r.global_env.contains("x"));
}

#[test]
fn eval_forms_stops_at_the_first_error() {
    let mut c = Context::new();
    let forms = read_all(&mut c, "(def a 1) (car 1) (def b 2)");
    let r = c.eval_forms(&forms);
    assert_eq!(r.error, Some(Fault::Error(ErrorKind::TypeMismatch)));
    assert!(r.global_env.contains("a"));
    assert!(!r.global_env.contains("b"));
}

#[test]
fn closures_keep_what_they_captured() {
    gives(
        "(def make (lambda (y) (lambda (x) (+ x y))))
         (def f (make 10))
         (def y 1000)
         (f 5)",
        num(15),
    );
    gives(
        "(def make (lambda (y) (def f (lambda (x) (+ x y)))))
         (make 3)
         (f 4)",
        num(7),
    );
    let mut c = Context::new();
    let forms = read_all(&mut c, "(def f (lambda (x) (+ x y))) (f 4)");
    let scope = c.add_env("y".to_string(), num(3));
    let defined = scope.set_rcexpr(forms[0].clone()).eval();
    assert_eq!(defined.error, None);
    let after = defined.eval_expr(forms[1].clone());
    assert_eq!(after.error, None);
    assert!(!after.env.contains("y"));
    compare(&Expr::Integer(7), &after.expr);
}

#[test]
fn a_closure_without_free_variables_carries_no_snapshot() {
    let c = run(&Context::new(), "(lambda (x) (+ x 1))");
    match &*c.expr {
        Expr::Lambda(name, _, _, captured) => {
            assert!(name.is_none());
            assert!(captured.is_none());
        }
        other => panic!("{:?}", other),
    }
    let c = run(&Context::new(), "(def g 1) (lambda (x) (+ x g))");
    match &*c.expr {
        Expr::Lambda(_, _, _, captured) => assert!(captured.is_none()),
        other => panic!("{:?}", other),
    }
}

#[test]
fn a_closure_captures_exactly_its_free_variables() {
    let c = run(
        &Context::new(),
        "(def make (lambda (a b c) (lambda (x) (+ x (+ a 'b))))) (make 1 2 3)",
    );
    match &*c.expr {
        Expr::Lambda(_, _, _, Some(env)) => {
            assert!(env.contains("a"));
            assert!(!env.contains("b"));
            assert!(!env.contains("c"));
            assert!(!env.contains("x"));
            compare(&Expr::Integer(1), &env.get("a").unwrap());
        }
        other => panic!("{:?}", other),
    }
}

#[test]
fn capture_looks_inside_unquote_but_not_inside_quote_or_nested_lambda() {
    let c = run(
        &Context::new(),
        "(def make (lambda (a b c) (lambda (x) (cons `(b ,a) (lambda (y) c))))) (make 1 2 3)",
    );
    match &*c.expr {
        Expr::Lambda(_, _, _, Some(env)) => {
            assert!(env.contains("a"));
            assert!(!env.contains("b"));
            assert!(!env.contains("c"));
        }
        other => panic!("{:?}", other),
    }
}

#[test]
fn a_lambda_with_an_unbound_free_variable_is_not_made() {
    fails_with("(lambda (x) (+ x nope))", ErrorKind::UnboundIdentifier);
}

#[test]
fn lambda_forms() {
    fails_with("(lambda)", ErrorKind::MalformedSpecialForm);
    fails_with("(lambda (x))", ErrorKind::MalformedSpecialForm);
    fails_with("(lambda 1 (x) x)", ErrorKind::MalformedSpecialForm);
    fails_with("(lambda f (x) x x)", ErrorKind::MalformedSpecialForm);
    fails_with("(lambda (1) 1)", ErrorKind::MalformedParameterList);
    fails_with("(lambda ((a) b) 1)", ErrorKind::MalformedParameterList);
    fails_with("(lambda x x)", ErrorKind::MalformedParameterList);
    gives("((lambda () 7))", num(7));
    gives("(lambda? (lambda (x) x))", ident("t"));
}

#[test]
fn a_named_lambda_can_call_itself() {
    gives(
        "(def fact (lambda fact (n) (if (= n 0) 1 (* n (fact (- n 1))))))
         (fact 10)",
        num(3628800),
    );
    gives(
        "(def make (lambda (k) (lambda down (n) (if (= n 0) k (down (- n 1))))))
         ((make 9) 3)",
        num(9),
    );
}

#[test]
fn calls_check_the_number_of_arguments() {
    fails_with("((lambda (x) x))", ErrorKind::ArityMismatch);
    fails_with("((lambda (x) x) 1 2)", ErrorKind::ArityMismatch);
    fails_with("((lambda () 1) 2)", ErrorKind::ArityMismatch);
}

#[test]
fn arguments_are_evaluated_in_the_callers_environment() {
    gives(
        "(def f (lambda (x) (+ x 1)))
         (def g (lambda (x) (f (* x 2))))
         (g 5)",
        num(11),
    );
}

#[test]
fn a_call_does_not_see_the_callers_locals() {
    fails_with(
        "(def show (lambda () (eval 'hidden)))
         (def f (lambda (hidden) (show)))
         (f 1)",
        ErrorKind::UnboundIdentifier,
    );
}

#[test]
fn rest_arguments_are_collected_in_a_list() {
    gives("((lambda (a & rest) rest) 1 (+ 1 1) 3)", list(vec![num(2), num(3)]));
    gives("((lambda (a & rest) a) 1 2 3)", num(1));
    gives("((lambda (a & rest) rest) 1)", Rc::new(Expr::Nil));
    gives("((lambda (& all) all) 1 2)", list(vec![num(1), num(2)]));
    gives("(defmacro m (a & rest) (car rest)) (m 1 (+ 1 1) 3)", num(2));
    gives("(defmacro m (a & rest) (if (list? (car rest)) 1 2)) (m 1 (nope 1) 3)", num(1));
}

#[test]
fn the_catch_all_marker_must_come_last() {
    let params = list(vec![ident("&"), ident("r"), ident("x")]);
    let f = Rc::new(Expr::Lambda(None, params, num(1), None));
    let c = Context::new().set_rcexpr(list(vec![f, num(1), num(2)])).eval();
    assert_eq!(c.error, Some(Fault::Error(ErrorKind::MalformedParameterList)));
    let params = list(vec![ident("&"), num(3)]);
    let f = Rc::new(Expr::Lambda(None, params, num(1), None));
    let c = Context::new().set_rcexpr(list(vec![f, num(1), num(2)])).eval();
    assert_eq!(c.error, Some(Fault::Error(ErrorKind::MalformedParameterList)));
}

#[test]
fn a_reserved_parameter_fails_at_the_call() {
    let params = list(vec![ident("a"), ident("if")]);
    let f = Rc::new(Expr::Lambda(None, params, num(1), None));
    let call = list(vec![
        f,
        num(1),
        list(vec![ident("def"), ident("y"), num(2)]),
    ]);
    let c = Context::new().set_rcexpr(call).eval();
    assert_eq!(c.error, Some(Fault::Error(ErrorKind::ReservedIdentifier)));
    assert!(c.global_env.is_empty());
}

#[test]
fn macros_expand_and_then_evaluate_at_the_call_site() {
    gives(
        "(defmacro defn (name args body) `(def ,name (lambda ,args ,body)))
         (defn sq (x) (* x x))
         (sq 5)",
        num(25),
    );
    gives("(defmacro twice (e) `(+ ,e ,e)) (def n 4) (twice (* n 2))", num(16));
    gives("(macro? (defmacro m (x) x))", ident("t"));
}

#[test]
fn an_expansion_sees_the_call_site_but_the_macro_body_does_not() {
    gives("(defmacro peek () 'secret) (def f (lambda (secret) (peek))) (f 5)", num(5));
    fails_with(
        "(defmacro leak () secret) (def f (lambda (secret) (leak))) (f 5)",
        ErrorKind::UnboundIdentifier,
    );
    gives("(def g 3) (defmacro use-global () g) (use-global)", num(3));
}

#[test]
fn a_macro_gets_its_arguments_unevaluated() {
    gives("(defmacro first (a b) a) (first (+ 1 2) (nope 1))", num(3));
    gives("(defmacro shape (a) (if (list? a) 1 2)) (shape (nope 1))", num(1));
    fails_with("(defmacro shape (a) (list? a)) (shape (nope 1))", ErrorKind::UnboundIdentifier);
}

#[test]
fn defmacro_forms() {
    fails_with("(defmacro)", ErrorKind::MalformedSpecialForm);
    fails_with("(defmacro m (x))", ErrorKind::MalformedSpecialForm);
    fails_with("(defmacro 1 (x) x)", ErrorKind::MalformedSpecialForm);
    fails_with("(defmacro m (x) x x)", ErrorKind::MalformedSpecialForm);
}

#[test]
fn quasiquote_replaces_only_what_is_unquoted() {
    gives("(def a 1) `(a ,a (b ,(+ a 1)))", list(vec![
        ident("a"),
        num(1),
        list(vec![ident("b"), num(2)]),
    ]));
    gives("`x", ident("x"));
    gives("(def a 5) `,a", num(5));
    fails_with("`(a ,nope)", ErrorKind::UnboundIdentifier);
}

#[test]
fn eval_evaluates_twice() {
    gives("(eval '(+ 1 2))", num(3));
    gives("(def x 4) (eval 'x)", num(4));
    gives("(def code (cons '+ (cons 1 (cons 2 ())))) (eval code)", num(3));
}

#[test]
fn pair_operations() {
    gives("(car '(1 2))", num(1));
    gives("(cdr '(1 2))", list(vec![num(2)]));
    gives("(cons 1 '(2))", list(vec![num(1), num(2)]));
    gives("(cons 1 2)", Rc::new(Expr::Cons(num(1), num(2))));
    gives("(car (cons 1 2))", num(1));
    gives("(cdr (cons 1 2))", num(2));
    fails_with("(car 1)", ErrorKind::TypeMismatch);
    fails_with("(cdr ())", ErrorKind::TypeMismatch);
    fails_with("(car \"ab\")", ErrorKind::TypeMismatch);
}

#[test]
fn type_predicates() {
    gives("(nil? ())", ident("t"));
    gives("(nil? 1)", Rc::new(Expr::Nil));
    gives("(list? '(1))", ident("t"));
    gives("(list? ())", Rc::new(Expr::Nil));
    gives("(integer? 1)", ident("t"));
    gives("(integer? 1.5)", Rc::new(Expr::Nil));
    gives("(float? 1.5)", ident("t"));
    gives("(ident? 'a)", ident("t"));
    gives("(string? \"a\")", ident("t"));
    gives("(string? 'a)", Rc::new(Expr::Nil));
    gives("(quote? ''a)", ident("t"));
    gives("(quasiquote? '`a)", ident("t"));
    gives("(unquote? ',a)", ident("t"));
    gives("(lambda? 'car)", Rc::new(Expr::Nil));
    gives("(_nil? ())", ident("t"));
    gives("(_list? '(1))", ident("t"));
}

#[test]
fn str_concatenates_the_texts() {
    gives("(str \"a\" \"b\")", Rc::new(Expr::String("ab".to_string())));
    gives("(str 1 '(a \"b\" 2))", Rc::new(Expr::String("1(a \"b\" 2)".to_string())));
    gives("(str 'x 2.5)", Rc::new(Expr::String("x2.5".to_string())));
    gives("(str (- 0 12) ())", Rc::new(Expr::String("-12()".to_string())));
    gives("(_str (lambda (x) x) (defmacro m (x) x))", Rc::new(Expr::String("#Lambda#Macro".to_string())));
}

#[test]
fn print_adds_to_the_output_and_gives_nil() {
    let c = run(&Context::new(), "(print \"a\") (print '(1 \"b\")) (print-debug \"c\") (print 1.5)");
    assert_eq!(c.error, None);
    assert!(matches!(*c.expr, Expr::Nil));
    assert_eq!(
        c.output,
        vec!["a".to_string(), "(1 \"b\")".to_string(), "\"c\"\n".to_string(), "1.5".to_string()]
    );
}

#[test]
fn heads_that_cannot_be_called() {
    fails_with("(1 2)", ErrorKind::NotCallable);
    fails_with("(\"f\" 2)", ErrorKind::NotCallable);
    fails_with("(() 2)", ErrorKind::NotCallable);
    fails_with("(def x 1) (x 2)", ErrorKind::NotCallable);
}

#[test]
fn a_computed_head_is_evaluated_first() {
    gives("((if 1 'car 'cdr) '(1 2))", num(1));
    fails_with("((if 1 car cdr) '(1 2))", ErrorKind::UnboundIdentifier);
    gives("(def pick (lambda (b) (if b '+ '*))) ((pick ()) 3 4)", num(12));
    gives("(def plus '+) (plus 1 2)", num(3));
}

#[test]
fn evaluation_is_bounded_in_depth() {
    let c = Context::new().with_depth(200);
    let c = run(&c, "(def loop (lambda loop (n) (loop (+ n 1)))) (loop 0)");
    assert_eq!(c.error, Some(Fault::Error(ErrorKind::DepthExceeded)));
    let c = Context::new().with_depth(0);
    let c = run(&c, "1");
    assert_eq!(c.error, Some(Fault::Error(ErrorKind::DepthExceeded)));
    let c = Context::new().with_depth(1);
    let c = run(&c, "1");
    assert_eq!(c.error, None);
}

#[test]
fn side_effects_before_an_error_stay() {
    let c = run(&Context::new(), "(+ (def a 1) (car 2))");
    assert_eq!(c.error, Some(Fault::Error(ErrorKind::TypeMismatch)));
    assert!(c.global_env.contains("a"));
}

#[test]
fn closures_compare_by_their_parts() {
    let mut e1 = Env::new();
    e1.insert("a".to_string(), num(1));
    e1.insert("b".to_string(), num(2));
    let mut e2 = Env::new();
    e2.insert("b".to_string(), num(2));
    e2.entries.push(("a".to_string(), num(0)));
    e2.entries.push(("a".to_string(), num(1)));
    let f = Expr::Lambda(None, list(vec![ident("x")]), ident("a"), Some(e1));
    let g = Expr::Lambda(None, list(vec![ident("x")]), ident("a"), Some(e2));
    assert!(equal(&f, &g));
    let mut e3 = Env::new();
    e3.insert("a".to_string(), num(1));
    let h = Expr::Lambda(None, list(vec![ident("x")]), ident("a"), Some(e3));
    assert!(!equal(&f, &h));
    assert!(!equal(&h, &f));
    let k = Expr::Lambda(Some("k".to_string()), list(vec![ident("x")]), ident("a"), None);
    let l = Expr::Lambda(None, list(vec![ident("x")]), ident("a"), None);
    assert!(!equal(&k, &l));
    assert!(equal(&k, &k));
}

#[test]
fn the_unit_is_asked_only_as_often_as_allowed() {
    let mut c = Context::new();
    let forms = read_all(&mut c, "(+ (* 1.5 2.0) (/ 1 4.0))");
    let r = c.eval_expr_with(forms[0].clone(), &Fpu, 0);
    assert_eq!(
        r.pending(),
        Some(FloatQuery::Arith(FloatOp::Mul, 1.5f64.to_bits(), 2.0f64.to_bits()))
    );
    let r = c.eval_expr_with(forms[0].clone(), &Fpu, 1);
    assert_eq!(r.pending(), Some(FloatQuery::FromInt(1)));
    let r = c.eval_expr_with(forms[0].clone(), &Fpu, 3);
    assert_eq!(
        r.pending(),
        Some(FloatQuery::Arith(FloatOp::Add, 3.0f64.to_bits(), 0.25f64.to_bits()))
    );
    let r = c.eval_expr_with(forms[0].clone(), &Fpu, 4);
    assert_eq!(r.error, None);
    compare(&Expr::Float(3.25f64.to_bits()), &r.expr);
    let again = r.eval_expr_with(forms[0].clone(), &Fpu, 0);
    assert_eq!(again.error, None);
    compare(&Expr::Float(3.25f64.to_bits()), &again.expr);
}

#[test]
fn output_is_not_repeated_when_an_evaluation_is_done_again() {
    let c = run(&Context::new(), "(+ (car (cons 1 (print \"a\"))) (* 2.0 (+ 0.5 1)))");
    assert_eq!(c.error, None);
    assert_eq!(c.output, vec!["a".to_string()]);
    compare(&Expr::Float(4.0f64.to_bits()), &c.expr);
}

#[test]
fn text_is_displayed_with_what_the_unit_says() {
    let mut c = run(&Context::new(), "'(1 2.5 (3.0 \"x\"))");
    let text = render_with(&c.expr, &mut c.floats, &Fpu, ROUNDS);
    assert_eq!(text, Ok("(1 2.5 (3.0 \"x\"))".to_string()));
    let mut c = run(&Context::new(), "'(1 2.5 3.0)");
    let text = render_with(&c.expr, &mut c.floats, &Fpu, 1);
    assert_eq!(text, Err(FloatQuery::Render(3.0f64.to_bits())));
}

#[test]
fn a_batch_of_forms_is_evaluated_with_the_unit_at_hand() {
    let mut c = Context::new();
    let forms = read_all(&mut c, "(def a (* 1.5 2)) (def b (+ a 0.5)) (car b) (def c 1)");
    let r = c.eval_forms_with(&forms, &Fpu, ROUNDS);
    assert_eq!(r.error, Some(Fault::Error(ErrorKind::TypeMismatch)));
    compare(&Expr::Float(3.0f64.to_bits()), &r.global_env.get("a").unwrap());
    compare(&Expr::Float(3.5f64.to_bits()), &r.global_env.get("b").unwrap());
    assert!(!r.global_env.contains("c"));
    let r = c.eval_forms_with(&forms, &Fpu, 1);
    assert_eq!(
        r.pending(),
        Some(FloatQuery::Arith(FloatOp::Mul, 1.5f64.to_bits(), 2.0f64.to_bits()))
    );
    assert!(!r.global_env.contains("a"));
    let r = c.eval_forms(&forms);
    assert_eq!(r.pending(), Some(FloatQuery::FromInt(2)));
}

#[test]
fn a_double_that_is_whole_reads_back_as_a_double() {
    let mut c = run(&Context::new(), "'(1 3.0 (2.5))");
    let text = render_with(&c.expr, &mut c.floats, &Fpu, ROUNDS).unwrap();
    assert_eq!(text, "(1 3.0 (2.5))");
    let back = read_all(&mut c, &text);
    assert_eq!(back.len(), 1);
    compare(&c.expr, &back[0]);
    gives("(str 3.0 (+ 1 1.0))", Rc::new(Expr::String("3.02.0".to_string())));
}

#[test]
fn the_default_depth_lets_calls_nest_by_the_hundreds() {
    gives(
        "(def count (lambda count (n) (if (= n 0) 0 (+ 1 (count (- n 1))))))
         (count 700)",
        num(700),
    );
}

#[test]
fn a_closure_with_a_reserved_parameter_is_made_but_cannot_be_called() {
    let c = run(&Context::new(), "(def f (lambda (if) 1))");
    assert_eq!(c.error, None);
    assert!(c.global_env.contains("f"));
    let c = run(&c, "(lambda? f)");
    compare(&Expr::Ident("t".to_string()), &c.expr);
    let c = run(&c, "(f 1)");
    assert_eq!(c.error, Some(Fault::Error(ErrorKind::ReservedIdentifier)));
}
