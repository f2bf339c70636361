//! What evaluation means: a function from an expression, the bindings in
//! force, what is known about doubles and a depth budget to a value or a
//! fault and the new state.
//!
//! Every function that can re-enter evaluation takes the remaining depth and
//! hands on one less; with nothing left it ends in `DepthExceeded`. Where a
//! fact about doubles is needed that the table lacks, the evaluation ends
//! with the question.
use crate::capture::closure_of;
use crate::equal::same;
use crate::expr::Sexp;
use crate::fault::{ErrorKind, Fault};
use crate::float::{float_lt, FloatFactsView, FloatOp, FloatQuery};
use crate::form::{form_of, reserved, Binary, Form, Kind, Unary};
use crate::print::{plain, render};
use vstd::prelude::*;

verus! {

/// What identifiers are bound to.
pub type Bindings = Map<Seq<char>, Sexp>;

/// The state that outlives a call: the global bindings and what has been
/// printed, oldest first.
pub ghost struct Store {
    pub globals: Bindings,
    pub output: Seq<Seq<char>>,
}

/// How an evaluation ends: with a value or a fault, and with a state.
pub ghost struct Outcome {
    pub result: Result<Sexp, Fault>,
    pub store: Store,
}

/// How the binding of arguments ends: with the callee's frame or a fault,
/// and with a state.
pub ghost struct Bound {
    pub result: Result<Bindings, Fault>,
    pub store: Store,
}

/// The evaluation that ends with a value.
pub open spec fn done(value: Sexp, store: Store) -> Outcome {
    Outcome { result: Ok(value), store }
}

/// The evaluation that fails.
pub open spec fn fail(kind: ErrorKind, store: Store) -> Outcome {
    Outcome { result: Err(Fault::Error(kind)), store }
}

/// The binding of arguments that fails.
pub open spec fn unbound(kind: ErrorKind, store: Store) -> Bound {
    Bound { result: Err(Fault::Error(kind)), store }
}

/// The value of an identifier: the local binding, else the global one.
pub open spec fn lookup(name: Seq<char>, env: Bindings, globals: Bindings) -> Option<Sexp> {
    if env.dom().contains(name) {
        Some(env[name])
    } else if globals.dom().contains(name) {
        Some(globals[name])
    } else {
        None
    }
}

/// The frame with one more binding, unless the name is reserved.
pub open spec fn extend(frame: Bindings, name: Seq<char>, value: Sexp) -> Result<Bindings, Fault> {
    if reserved(name) {
        Err(Fault::Error(ErrorKind::ReservedIdentifier))
    } else {
        Ok(frame.insert(name, value))
    }
}

/// The truth values: the identifier `t`, and `Nil` for false.
pub open spec fn truth(b: bool) -> Sexp {
    if b {
        Sexp::Ident("t"@)
    } else {
        Sexp::Nil
    }
}

/// The only item of a list of one.
pub open spec fn one(args: Sexp) -> Option<Sexp> {
    match args {
        Sexp::Pair(a, rest) => if *rest is Nil {
            Some(*a)
        } else {
            None
        },
        _ => None,
    }
}

/// The items of a list of two.
pub open spec fn two(args: Sexp) -> Option<(Sexp, Sexp)> {
    match args {
        Sexp::Pair(a, rest) => match one(*rest) {
            Some(b) => Some((*a, b)),
            None => None,
        },
        _ => None,
    }
}

/// The items of a list of three.
pub open spec fn three(args: Sexp) -> Option<(Sexp, Sexp, Sexp)> {
    match args {
        Sexp::Pair(a, rest) => match two(*rest) {
            Some((b, c)) => Some((*a, b, c)),
            None => None,
        },
        _ => None,
    }
}

/// Integer arithmetic: sums, differences and products wrap around, a
/// quotient is rounded towards zero, the one quotient that does not fit
/// wraps around to the smallest integer, and a zero divisor is a fault.
pub open spec fn int_arith(op: FloatOp, x: i64, y: i64) -> Result<Sexp, Fault> {
    match op {
        FloatOp::Add => Ok(Sexp::Integer(x.wrapping_add(y))),
        FloatOp::Sub => Ok(Sexp::Integer(x.wrapping_sub(y))),
        FloatOp::Mul => Ok(Sexp::Integer(x.wrapping_mul(y))),
        FloatOp::Div => if y == 0 {
            Err(Fault::Error(ErrorKind::DivisionByZero))
        } else {
            match x.checked_div(y) {
                Some(q) => Ok(Sexp::Integer(q)),
                None => Ok(Sexp::Integer(i64::MIN)),
            }
        },
    }
}

/// Whether a value is an integer or a double.
pub open spec fn is_number(v: Sexp) -> bool {
    v is Integer || v is Float
}

/// The double that a number stands for in mixed arithmetic.
pub open spec fn promote(v: Sexp, facts: FloatFactsView) -> Result<u64, Fault> {
    match v {
        Sexp::Float(bits) => Ok(bits),
        Sexp::Integer(i) => match facts.number(FloatQuery::FromInt(i)) {
            Some(bits) => Ok(bits),
            None => Err(Fault::Pending(FloatQuery::FromInt(i))),
        },
        _ => Err(Fault::Error(ErrorKind::TypeMismatch)),
    }
}

/// `+ - * /`: on two integers an integer; on two numbers of which one is a
/// double, the double that the table gives for the promoted operands; on
/// anything else a type error.
pub open spec fn numeric(op: FloatOp, a: Sexp, b: Sexp, facts: FloatFactsView) -> Result<
    Sexp,
    Fault,
> {
    match (a, b) {
        (Sexp::Integer(x), Sexp::Integer(y)) => int_arith(op, x, y),
        _ => if is_number(a) && is_number(b) {
            match promote(a, facts) {
                Err(f) => Err(f),
                Ok(x) => match promote(b, facts) {
                    Err(f) => Err(f),
                    Ok(y) => match facts.number(FloatQuery::Arith(op, x, y)) {
                        Some(bits) => Ok(Sexp::Float(bits)),
                        None => Err(Fault::Pending(FloatQuery::Arith(op, x, y))),
                    },
                },
            }
        } else {
            Err(Fault::Error(ErrorKind::TypeMismatch))
        },
    }
}

/// `a < b` on two numbers: two integers are compared as integers; as soon
/// as one operand is a double, both are compared as doubles; an operand that
/// is no number is a type error.
pub open spec fn less(a: Sexp, b: Sexp, facts: FloatFactsView) -> Result<bool, Fault> {
    match (a, b) {
        (Sexp::Integer(x), Sexp::Integer(y)) => Ok(x < y),
        _ => if is_number(a) && is_number(b) {
            match promote(a, facts) {
                Err(f) => Err(f),
                Ok(x) => match promote(b, facts) {
                    Err(f) => Err(f),
                    Ok(y) => Ok(float_lt(x, y)),
                },
            }
        } else {
            Err(Fault::Error(ErrorKind::TypeMismatch))
        },
    }
}

/// The truth value for the outcome of a comparison.
pub open spec fn truth_of(r: Result<bool, Fault>) -> Result<Sexp, Fault> {
    match r {
        Ok(b) => Ok(truth(b)),
        Err(f) => Err(f),
    }
}

/// The text of two values one after the other.
pub open spec fn joined(a: Sexp, b: Sexp, facts: FloatFactsView) -> Result<Sexp, Fault> {
    match plain(a, facts) {
        Err(q) => Err(Fault::Pending(q)),
        Ok(s) => match plain(b, facts) {
            Err(q) => Err(Fault::Pending(q)),
            Ok(t) => Ok(Sexp::Text(s + t)),
        },
    }
}

/// What a primitive of two operands makes of their values.
pub open spec fn binary(op: Binary, a: Sexp, b: Sexp, facts: FloatFactsView) -> Result<
    Sexp,
    Fault,
> {
    match op {
        Binary::Add => numeric(FloatOp::Add, a, b, facts),
        Binary::Sub => numeric(FloatOp::Sub, a, b, facts),
        Binary::Mul => numeric(FloatOp::Mul, a, b, facts),
        Binary::Div => numeric(FloatOp::Div, a, b, facts),
        Binary::Equal => Ok(truth(same(a, b))),
        Binary::Less => truth_of(less(a, b, facts)),
        Binary::Greater => truth_of(less(b, a, facts)),
        Binary::Str => joined(a, b, facts),
        Binary::Cons => Ok(Sexp::Pair(Box::new(a), Box::new(b))),
    }
}

/// Whether a value is of the kind that a type predicate asks for.
pub open spec fn is_kind(kind: Kind, v: Sexp) -> bool {
    match kind {
        Kind::Nil => v is Nil,
        Kind::List => v is Pair,
        Kind::Lambda => v is Closure,
        Kind::Macro => v is Macro,
        Kind::Integer => v is Integer,
        Kind::Float => v is Float,
        Kind::Ident => v is Ident,
        Kind::String => v is Text,
        Kind::Quote => v is Quote,
        Kind::Unquote => v is Unquote,
        Kind::Quasiquote => v is Quasiquote,
    }
}

/// What a primitive of one operand makes of its value, and of the state:
/// the two printing primitives add one text to the output and give `Nil`.
pub open spec fn unary(op: Unary, v: Sexp, store: Store, facts: FloatFactsView) -> Outcome {
    match op {
        Unary::Car => match v {
            Sexp::Pair(head, _) => done(*head, store),
            _ => fail(ErrorKind::TypeMismatch, store),
        },
        Unary::Cdr => match v {
            Sexp::Pair(_, tail) => done(*tail, store),
            _ => fail(ErrorKind::TypeMismatch, store),
        },
        Unary::Print => match plain(v, facts) {
            Ok(t) => done(Sexp::Nil, Store { output: store.output.push(t), ..store }),
            Err(q) => Outcome { result: Err(Fault::Pending(q)), store },
        },
        Unary::PrintDebug => match render(v, facts) {
            Ok(t) => done(Sexp::Nil, Store { output: store.output.push(t.push('\n')), ..store }),
            Err(q) => Outcome { result: Err(Fault::Pending(q)), store },
        },
        Unary::Is(kind) => done(truth(is_kind(kind, v)), store),
    }
}

/// The value of an expression.
pub open spec fn eval(
    e: Sexp,
    env: Bindings,
    store: Store,
    facts: FloatFactsView,
    fuel: nat,
) -> Outcome
    decreases fuel,
{
    if fuel == 0 {
        fail(ErrorKind::DepthExceeded, store)
    } else {
        let f = (fuel - 1) as nat;
        match e {
            Sexp::Quote(x) => done(*x, store),
            Sexp::Quasiquote(x) => quasi(*x, env, store, facts, f),
            Sexp::Ident(name) => match lookup(name, env, store.globals) {
                Some(v) => done(v, store),
                None => fail(ErrorKind::UnboundIdentifier, store),
            },
            Sexp::Pair(head, args) => apply(*head, *args, env, store, facts, f),
            _ => done(e, store),
        }
    }
}

/// The copy of a quasiquoted structure in which every unquoted part is
/// replaced by its value. Pairs are rebuilt, everything else stays.
pub open spec fn quasi(
    e: Sexp,
    env: Bindings,
    store: Store,
    facts: FloatFactsView,
    fuel: nat,
) -> Outcome
    decreases fuel,
{
    if fuel == 0 {
        fail(ErrorKind::DepthExceeded, store)
    } else {
        let f = (fuel - 1) as nat;
        match e {
            Sexp::Unquote(x) => eval(*x, env, store, facts, f),
            Sexp::Pair(head, tail) => {
                let first = quasi(*head, env, store, facts, f);
                match first.result {
                    Err(_) => first,
                    Ok(h) => {
                        let second = quasi(*tail, env, first.store, facts, f);
                        match second.result {
                            Err(_) => second,
                            Ok(t) => done(Sexp::Pair(Box::new(h), Box::new(t)), second.store),
                        }
                    },
                }
            },
            _ => done(e, store),
        }
    }
}

/// The value of a list with head `head` and arguments `args`: a reserved
/// identifier selects its form; any other identifier stands for its value; a
/// closure is called, a macro expanded; a head that is itself a list is
/// evaluated first.
pub open spec fn apply(
    head: Sexp,
    args: Sexp,
    env: Bindings,
    store: Store,
    facts: FloatFactsView,
    fuel: nat,
) -> Outcome
    decreases fuel,
{
    if fuel == 0 {
        fail(ErrorKind::DepthExceeded, store)
    } else {
        let f = (fuel - 1) as nat;
        match head {
            Sexp::Ident(name) => match form_of(name) {
                Some(Form::If) => form_if(args, env, store, facts, f),
                Some(Form::Def) => form_def(args, env, store, facts, f),
                Some(Form::Lambda) => Outcome {
                    result: closure_of(args, env, store.globals),
                    store,
                },
                Some(Form::Defmacro) => form_defmacro(args, store),
                Some(Form::Eval) => form_eval(args, env, store, facts, f),
                Some(Form::Unary(op)) => form_unary(op, args, env, store, facts, f),
                Some(Form::Binary(op)) => form_binary(op, args, env, store, facts, f),
                None => match lookup(name, env, store.globals) {
                    Some(v) => apply(v, args, env, store, facts, f),
                    None => fail(ErrorKind::UnboundIdentifier, store),
                },
            },
            Sexp::Closure(name, params, body, captured) => call(
                name,
                *params,
                *body,
                captured,
                args,
                env,
                store,
                facts,
                f,
            ),
            Sexp::Macro(params, body) => expand(*params, *body, args, env, store, facts, f),
            Sexp::Pair(_, _) => {
                let first = eval(head, env, store, facts, f);
                match first.result {
                    Err(_) => first,
                    Ok(v) => apply(v, args, env, first.store, facts, f),
                }
            },
            _ => fail(ErrorKind::NotCallable, store),
        }
    }
}

/// `(if p a b)`: the value of `a` where `p` has a value other than `Nil`,
/// the value of `b` where it has the value `Nil`. The other branch is not
/// evaluated.
pub open spec fn form_if(
    args: Sexp,
    env: Bindings,
    store: Store,
    facts: FloatFactsView,
    fuel: nat,
) -> Outcome
    decreases fuel,
{
    if fuel == 0 {
        fail(ErrorKind::DepthExceeded, store)
    } else {
        let f = (fuel - 1) as nat;
        match three(args) {
            None => fail(ErrorKind::MalformedSpecialForm, store),
            Some((p, a, b)) => {
                let test = eval(p, env, store, facts, f);
                match test.result {
                    Err(_) => test,
                    Ok(v) => if v is Nil {
                        eval(b, env, test.store, facts, f)
                    } else {
                        eval(a, env, test.store, facts, f)
                    },
                }
            },
        }
    }
}

/// `(def name value)`: binds the value of `value` globally and gives it.
/// A name that is no identifier or is reserved fails before anything is
/// evaluated.
pub open spec fn form_def(
    args: Sexp,
    env: Bindings,
    store: Store,
    facts: FloatFactsView,
    fuel: nat,
) -> Outcome
    decreases fuel,
{
    if fuel == 0 {
        fail(ErrorKind::DepthExceeded, store)
    } else {
        let f = (fuel - 1) as nat;
        match two(args) {
            Some((Sexp::Ident(name), value)) => if reserved(name) {
                fail(ErrorKind::ReservedIdentifier, store)
            } else {
                let o = eval(value, env, store, facts, f);
                match o.result {
                    Err(_) => o,
                    Ok(v) => done(
                        v,
                        Store { globals: o.store.globals.insert(name, v), ..o.store },
                    ),
                }
            },
            _ => fail(ErrorKind::MalformedSpecialForm, store),
        }
    }
}

/// `(defmacro name params body)`: binds the macro globally and gives it.
pub open spec fn form_defmacro(args: Sexp, store: Store) -> Outcome {
    match three(args) {
        Some((Sexp::Ident(name), params, body)) => if reserved(name) {
            fail(ErrorKind::ReservedIdentifier, store)
        } else {
            let m = Sexp::Macro(Box::new(params), Box::new(body));
            done(m, Store { globals: store.globals.insert(name, m), ..store })
        },
        _ => fail(ErrorKind::MalformedSpecialForm, store),
    }
}

/// `(eval x)`: the value of the value of `x`.
pub open spec fn form_eval(
    args: Sexp,
    env: Bindings,
    store: Store,
    facts: FloatFactsView,
    fuel: nat,
) -> Outcome
    decreases fuel,
{
    if fuel == 0 {
        fail(ErrorKind::DepthExceeded, store)
    } else {
        let f = (fuel - 1) as nat;
        match one(args) {
            None => fail(ErrorKind::ArityMismatch, store),
            Some(x) => {
                let first = eval(x, env, store, facts, f);
                match first.result {
                    Err(_) => first,
                    Ok(v) => eval(v, env, first.store, facts, f),
                }
            },
        }
    }
}

/// A primitive of one operand, applied to the value of its only argument.
pub open spec fn form_unary(
    op: Unary,
    args: Sexp,
    env: Bindings,
    store: Store,
    facts: FloatFactsView,
    fuel: nat,
) -> Outcome
    decreases fuel,
{
    if fuel == 0 {
        fail(ErrorKind::DepthExceeded, store)
    } else {
        let f = (fuel - 1) as nat;
        match one(args) {
            None => fail(ErrorKind::ArityMismatch, store),
            Some(x) => {
                let o = eval(x, env, store, facts, f);
                match o.result {
                    Err(_) => o,
                    Ok(v) => unary(op, v, o.store, facts),
                }
            },
        }
    }
}

/// A primitive of two operands, applied to the values of its two arguments,
/// which are evaluated from left to right.
pub open spec fn form_binary(
    op: Binary,
    args: Sexp,
    env: Bindings,
    store: Store,
    facts: FloatFactsView,
    fuel: nat,
) -> Outcome
    decreases fuel,
{
    if fuel == 0 {
        fail(ErrorKind::DepthExceeded, store)
    } else {
        let f = (fuel - 1) as nat;
        match two(args) {
            None => fail(ErrorKind::ArityMismatch, store),
            Some((x, y)) => {
                let first = eval(x, env, store, facts, f);
                match first.result {
                    Err(_) => first,
                    Ok(a) => {
                        let second = eval(y, env, first.store, facts, f);
                        match second.result {
                            Err(_) => second,
                            Ok(b) => Outcome {
                                result: binary(op, a, b, facts),
                                store: second.store,
                            },
                        }
                    },
                }
            },
        }
    }
}

/// The frame that a call starts from: the captured bindings and, for a named
/// closure, its name bound to the closure itself.
pub open spec fn call_frame(
    name: Option<Seq<char>>,
    params: Sexp,
    body: Sexp,
    captured: Option<Bindings>,
) -> Result<Bindings, Fault> {
    let base = match captured {
        Some(m) => m,
        None => Map::empty(),
    };
    match name {
        None => Ok(base),
        Some(n) => extend(base, n, Sexp::Closure(name, Box::new(params), Box::new(body), captured)),
    }
}

/// The call of a closure: the arguments are evaluated in the caller's
/// environment and bound in a fresh frame, in which the body is evaluated.
pub open spec fn call(
    name: Option<Seq<char>>,
    params: Sexp,
    body: Sexp,
    captured: Option<Bindings>,
    args: Sexp,
    env: Bindings,
    store: Store,
    facts: FloatFactsView,
    fuel: nat,
) -> Outcome
    decreases fuel,
{
    if fuel == 0 {
        fail(ErrorKind::DepthExceeded, store)
    } else {
        let f = (fuel - 1) as nat;
        match call_frame(name, params, body, captured) {
            Err(fault) => Outcome { result: Err(fault), store },
            Ok(base) => {
                let bound = bind(params, args, false, base, env, store, facts, f);
                match bound.result {
                    Err(fault) => Outcome { result: Err(fault), store: bound.store },
                    Ok(frame) => eval(body, frame, bound.store, facts, f),
                }
            },
        }
    }
}

/// The expansion of a macro and its evaluation: the arguments are bound as
/// they stand in a fresh frame, the body is evaluated there, and its value,
/// the expansion, is evaluated in the caller's environment.
pub open spec fn expand(
    params: Sexp,
    body: Sexp,
    args: Sexp,
    env: Bindings,
    store: Store,
    facts: FloatFactsView,
    fuel: nat,
) -> Outcome
    decreases fuel,
{
    if fuel == 0 {
        fail(ErrorKind::DepthExceeded, store)
    } else {
        let f = (fuel - 1) as nat;
        let bound = bind(params, args, true, Map::empty(), env, store, facts, f);
        match bound.result {
            Err(fault) => Outcome { result: Err(fault), store: bound.store },
            Ok(frame) => {
                let expansion = eval(body, frame, bound.store, facts, f);
                match expansion.result {
                    Err(_) => expansion,
                    Ok(code) => eval(code, env, expansion.store, facts, f),
                }
            },
        }
    }
}

/// The parameter behind a catch-all marker: `params` is `(& x . tail)`.
pub open spec fn catch_all(params: Sexp) -> Option<(Sexp, Sexp)> {
    match params {
        Sexp::Pair(marker, more) => match (*marker, *more) {
            (Sexp::Ident(m), Sexp::Pair(x, tail)) => if m == "&"@ {
                Some((*x, *tail))
            } else {
                None
            },
            _ => None,
        },
        _ => None,
    }
}

/// Binds parameters to arguments, one after the other, on top of `frame`.
/// For a closure each argument is evaluated in the environment `caller`, for
/// a macro it is bound as it stands. A catch-all parameter takes the list of
/// all arguments that are left.
pub open spec fn bind(
    params: Sexp,
    args: Sexp,
    is_macro: bool,
    frame: Bindings,
    caller: Bindings,
    store: Store,
    facts: FloatFactsView,
    fuel: nat,
) -> Bound
    decreases fuel,
{
    if fuel == 0 {
        unbound(ErrorKind::DepthExceeded, store)
    } else {
        let f = (fuel - 1) as nat;
        match params {
            Sexp::Nil => if args is Nil {
                Bound { result: Ok(frame), store }
            } else {
                unbound(ErrorKind::ArityMismatch, store)
            },
            Sexp::Pair(param, more) => match catch_all(params) {
                Some((Sexp::Ident(rest), Sexp::Nil)) => if reserved(rest) {
                    unbound(ErrorKind::ReservedIdentifier, store)
                } else if is_macro {
                    Bound { result: Ok(frame.insert(rest, args)), store }
                } else {
                    let all = eval_all(args, caller, store, facts, f);
                    match all.result {
                        Err(fault) => Bound { result: Err(fault), store: all.store },
                        Ok(list) => Bound {
                            result: Ok(frame.insert(rest, list)),
                            store: all.store,
                        },
                    }
                },
                Some(_) => unbound(ErrorKind::MalformedParameterList, store),
                None => match (args, *param) {
                    (Sexp::Pair(arg, others), Sexp::Ident(name)) => if reserved(name) {
                        unbound(ErrorKind::ReservedIdentifier, store)
                    } else {
                        let o = if is_macro {
                            done(*arg, store)
                        } else {
                            eval(*arg, caller, store, facts, f)
                        };
                        match o.result {
                            Err(fault) => Bound { result: Err(fault), store: o.store },
                            Ok(v) => bind(
                                *more,
                                *others,
                                is_macro,
                                frame.insert(name, v),
                                caller,
                                o.store,
                                facts,
                                f,
                            ),
                        }
                    },
                    (Sexp::Pair(_, _), _) => unbound(ErrorKind::MalformedParameterList, store),
                    _ => unbound(ErrorKind::ArityMismatch, store),
                },
            },
            _ => unbound(ErrorKind::MalformedParameterList, store),
        }
    }
}

/// The list of the values of the items of a list, evaluated from left to
/// right.
pub open spec fn eval_all(
    list: Sexp,
    env: Bindings,
    store: Store,
    facts: FloatFactsView,
    fuel: nat,
) -> Outcome
    decreases fuel,
{
    if fuel == 0 {
        fail(ErrorKind::DepthExceeded, store)
    } else {
        let f = (fuel - 1) as nat;
        match list {
            Sexp::Nil => done(Sexp::Nil, store),
            Sexp::Pair(item, rest) => {
                let first = eval(*item, env, store, facts, f);
                match first.result {
                    Err(_) => first,
                    Ok(v) => {
                        let others = eval_all(*rest, env, first.store, facts, f);
                        match others.result {
                            Err(_) => others,
                            Ok(vs) => done(Sexp::Pair(Box::new(v), Box::new(vs)), others.store),
                        }
                    },
                }
            },
            _ => fail(ErrorKind::ArityMismatch, store),
        }
    }
}

} // verus!
