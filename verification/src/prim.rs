//! The primitive operations on values.
use crate::equal::equal;
use crate::expr::{Env, Expr, Sexp};
use crate::fault::{ErrorKind, Fault};
use crate::float::{bits_lt, FloatFacts, FloatOp, FloatQuery};
use crate::form::{Binary, Kind, Unary};
use crate::print::{plain_text, render_expr};
use crate::semantics::{
    binary, int_arith, is_kind, is_number, joined, less, numeric, promote, truth, unary,
    Store,
};
use crate::text::{push_char, share};
use std::rc::Rc;
use vstd::prelude::*;
use vstd::string::*;

verus! {

/// The state that outlives a call: the global bindings and what has been
/// printed, oldest first.
pub struct World {
    pub globals: Env,
    pub output: Vec<String>,
}

/// The texts of a list of strings.
pub open spec fn lines(v: Seq<String>) -> Seq<Seq<char>> {
    Seq::new(v.len(), |i: int| v[i]@)
}

impl View for World {
    type V = Store;

    open spec fn view(&self) -> Store {
        Store { globals: self.globals@, output: lines(self.output@) }
    }
}

/// The model of the result of an evaluation.
pub open spec fn result_view(r: Result<Rc<Expr>, Fault>) -> Result<Sexp, Fault> {
    match r {
        Ok(v) => Ok(v@),
        Err(f) => Err(f),
    }
}

/// The truth value for `b`.
pub fn truth_value(b: bool) -> (r: Rc<Expr>)
    ensures
        r@ == truth(b),
{
    if b {
        Rc::new(Expr::Ident("t".to_owned()))
    } else {
        Rc::new(Expr::Nil)
    }
}

/// Integer arithmetic.
pub fn int_arithmetic(op: FloatOp, x: i64, y: i64) -> (r: Result<Rc<Expr>, Fault>)
    ensures
        result_view(r) == int_arith(op, x, y),
{
    match op {
        FloatOp::Add => Ok(Rc::new(Expr::Integer(x.wrapping_add(y)))),
        FloatOp::Sub => Ok(Rc::new(Expr::Integer(x.wrapping_sub(y)))),
        FloatOp::Mul => Ok(Rc::new(Expr::Integer(x.wrapping_mul(y)))),
        FloatOp::Div => {
            if y == 0 {
                Err(Fault::Error(ErrorKind::DivisionByZero))
            } else {
                match x.checked_div(y) {
                    Some(q) => Ok(Rc::new(Expr::Integer(q))),
                    None => Ok(Rc::new(Expr::Integer(i64::MIN))),
                }
            }
        },
    }
}

/// The double that a number stands for in mixed arithmetic.
pub fn promote_value(v: &Expr, facts: &FloatFacts) -> (r: Result<u64, Fault>)
    ensures
        r == promote(v@, facts@),
{
    match v {
        Expr::Float(bits) => Ok(*bits),
        Expr::Integer(i) => match facts.number(FloatQuery::FromInt(*i)) {
            Some(bits) => Ok(bits),
            None => Err(Fault::Pending(FloatQuery::FromInt(*i))),
        },
        _ => Err(Fault::Error(ErrorKind::TypeMismatch)),
    }
}

/// Whether a value is an integer or a double.
pub fn value_is_number(v: &Expr) -> (r: bool)
    ensures
        r == is_number(v@),
{
    match v {
        Expr::Integer(_) => true,
        Expr::Float(_) => true,
        _ => false,
    }
}

/// `+ - * /` on two values.
pub fn eval_numeric(op: FloatOp, a: &Expr, b: &Expr, facts: &FloatFacts) -> (r: Result<
    Rc<Expr>,
    Fault,
>)
    ensures
        result_view(r) == numeric(op, a@, b@, facts@),
{
    match a {
        Expr::Integer(x) => match b {
            Expr::Integer(y) => {
                return int_arithmetic(op, *x, *y);
            },
            _ => {},
        },
        _ => {},
    }
    if value_is_number(a) && value_is_number(b) {
        let x = match promote_value(a, facts) {
            Ok(x) => x,
            Err(f) => {
                return Err(f);
            },
        };
        let y = match promote_value(b, facts) {
            Ok(y) => y,
            Err(f) => {
                return Err(f);
            },
        };
        match facts.number(FloatQuery::Arith(op, x, y)) {
            Some(bits) => Ok(Rc::new(Expr::Float(bits))),
            None => Err(Fault::Pending(FloatQuery::Arith(op, x, y))),
        }
    } else {
        Err(Fault::Error(ErrorKind::TypeMismatch))
    }
}

/// `a < b` on two values: on two numbers a truth value, else a type error.
pub fn eval_lt(a: &Expr, b: &Expr, facts: &FloatFacts) -> (r: Result<bool, Fault>)
    ensures
        r == less(a@, b@, facts@),
{
    match a {
        Expr::Integer(x) => match b {
            Expr::Integer(y) => {
                return Ok(*x < *y);
            },
            _ => {},
        },
        _ => {},
    }
    if value_is_number(a) && value_is_number(b) {
        let x = match promote_value(a, facts) {
            Ok(x) => x,
            Err(f) => {
                return Err(f);
            },
        };
        let y = match promote_value(b, facts) {
            Ok(y) => y,
            Err(f) => {
                return Err(f);
            },
        };
        Ok(bits_lt(x, y))
    } else {
        Err(Fault::Error(ErrorKind::TypeMismatch))
    }
}

/// `a > b` on two values: `b < a`.
pub fn eval_gt(a: &Expr, b: &Expr, facts: &FloatFacts) -> (r: Result<bool, Fault>)
    ensures
        r == less(b@, a@, facts@),
{
    eval_lt(b, a, facts)
}

/// The text of two values one after the other, as a string value.
pub fn eval_str(a: &Expr, b: &Expr, facts: &FloatFacts) -> (r: Result<Rc<Expr>, Fault>)
    ensures
        result_view(r) == joined(a@, b@, facts@),
{
    let mut s = match plain_text(a, facts) {
        Ok(s) => s,
        Err(q) => {
            return Err(Fault::Pending(q));
        },
    };
    let t = match plain_text(b, facts) {
        Ok(t) => t,
        Err(q) => {
            return Err(Fault::Pending(q));
        },
    };
    s.append(t.as_str());
    Ok(Rc::new(Expr::String(s)))
}

/// Applies a primitive of two operands to their values.
pub fn apply_binary(op: Binary, a: &Rc<Expr>, b: &Rc<Expr>, facts: &FloatFacts) -> (r: Result<
    Rc<Expr>,
    Fault,
>)
    ensures
        result_view(r) == binary(op, a@, b@, facts@),
{
    match op {
        Binary::Add => eval_numeric(FloatOp::Add, a, b, facts),
        Binary::Sub => eval_numeric(FloatOp::Sub, a, b, facts),
        Binary::Mul => eval_numeric(FloatOp::Mul, a, b, facts),
        Binary::Div => eval_numeric(FloatOp::Div, a, b, facts),
        Binary::Equal => Ok(truth_value(equal(a, b))),
        Binary::Less => match eval_lt(a, b, facts) {
            Ok(t) => Ok(truth_value(t)),
            Err(f) => Err(f),
        },
        Binary::Greater => match eval_gt(a, b, facts) {
            Ok(t) => Ok(truth_value(t)),
            Err(f) => Err(f),
        },
        Binary::Str => eval_str(a, b, facts),
        Binary::Cons => Ok(Rc::new(Expr::Cons(share(a), share(b)))),
    }
}

/// Whether a value is of the kind that a type predicate asks for.
pub fn eval_type_check(kind: Kind, v: &Expr) -> (r: bool)
    ensures
        r == is_kind(kind, v@),
{
    match kind {
        Kind::Nil => matches!(v, Expr::Nil),
        Kind::List => matches!(v, Expr::Cons(_, _)),
        Kind::Lambda => matches!(v, Expr::Lambda(_, _, _, _)),
        Kind::Macro => matches!(v, Expr::Macro(_, _)),
        Kind::Integer => matches!(v, Expr::Integer(_)),
        Kind::Float => matches!(v, Expr::Float(_)),
        Kind::Ident => matches!(v, Expr::Ident(_)),
        Kind::String => matches!(v, Expr::String(_)),
        Kind::Quote => matches!(v, Expr::Quote(_)),
        Kind::Unquote => matches!(v, Expr::Unquote(_)),
        Kind::Quasiquote => matches!(v, Expr::Quasiquote(_)),
    }
}

/// Adds one text to the output.
pub fn emit(world: &mut World, text: String)
    ensures
        final(world)@.globals == old(world)@.globals,
        final(world)@.output == old(world)@.output.push(text@),
{
    world.output.push(text);
    assert(lines(world.output@) =~= lines(old(world).output@).push(text@));
}

/// Applies a primitive of one operand to its value.
pub fn apply_unary(op: Unary, v: &Rc<Expr>, world: &mut World, facts: &FloatFacts) -> (r: Result<
    Rc<Expr>,
    Fault,
>)
    ensures
        ({
            let o = unary(op, v@, old(world)@, facts@);
            final(world)@ == o.store && result_view(r) == o.result
        }),
{
    match op {
        Unary::Car => match &**v {
            Expr::Cons(head, _) => Ok(share(head)),
            _ => Err(Fault::Error(ErrorKind::TypeMismatch)),
        },
        Unary::Cdr => match &**v {
            Expr::Cons(_, tail) => Ok(share(tail)),
            _ => Err(Fault::Error(ErrorKind::TypeMismatch)),
        },
        Unary::Print => match plain_text(v, facts) {
            Ok(t) => {
                emit(world, t);
                Ok(Rc::new(Expr::Nil))
            },
            Err(q) => Err(Fault::Pending(q)),
        },
        Unary::PrintDebug => match render_expr(v, facts) {
            Ok(t) => {
                let mut t = t;
                push_char(&mut t, '\n');
                emit(world, t);
                Ok(Rc::new(Expr::Nil))
            },
            Err(q) => Err(Fault::Pending(q)),
        },
        Unary::Is(kind) => Ok(truth_value(eval_type_check(kind, v))),
    }
}

} // verus!
