//! The evaluator.
use crate::capture::eval_lambda;
use crate::expr::{merge_envs, Env, Expr, Sexp};
use crate::fault::{ErrorKind, Fault};
use crate::form::{classify, is_reserved_ident, Binary, Form, Unary};
use crate::known::{law_eval_settled, lemma_bind_settled, lemma_quasi_settled};
use crate::prim::{result_view, World};
use crate::semantics::{
    apply, bind, call, catch_all, eval, eval_all, expand, form_binary, form_def, form_defmacro,
    form_eval, form_if, form_unary, lookup, one, quasi, three, two, Bindings, Outcome,
};
use crate::text::{same_text, share};
use crate::unit::{asked, lemma_asked_twice, spent, Asker, FloatUnit};
use std::rc::Rc;
use vstd::prelude::*;

verus! {

/// The model of how the binding of arguments ended.
pub open spec fn frame_view(r: Result<Env, Fault>) -> Result<Bindings, Fault> {
    match r {
        Ok(frame) => Ok(frame@),
        Err(f) => Err(f),
    }
}

/// Whether an evaluation ended as `o` says.
pub open spec fn ends_as(r: Result<Rc<Expr>, Fault>, after: World, o: Outcome) -> bool {
    after@ == o.store && result_view(r) == o.result
}

/// The only item of a list of one.
pub fn take_one(args: &Expr) -> (r: Option<Rc<Expr>>)
    ensures
        match r {
            Some(a) => one(args@) == Some(a@),
            None => one(args@) is None,
        },
{
    match args {
        Expr::Cons(a, rest) => match &**rest {
            Expr::Nil => Some(share(a)),
            _ => {
                assert(!(rest@ is Nil));
                None
            },
        },
        _ => None,
    }
}

/// The items of a list of two.
pub fn take_two(args: &Expr) -> (r: Option<(Rc<Expr>, Rc<Expr>)>)
    ensures
        match r {
            Some((a, b)) => two(args@) == Some((a@, b@)),
            None => two(args@) is None,
        },
{
    match args {
        Expr::Cons(a, rest) => match take_one(rest) {
            Some(b) => Some((share(a), b)),
            None => None,
        },
        _ => None,
    }
}

/// The items of a list of three.
pub fn take_three(args: &Expr) -> (r: Option<(Rc<Expr>, Rc<Expr>, Rc<Expr>)>)
    ensures
        match r {
            Some((a, b, c)) => three(args@) == Some((a@, b@, c@)),
            None => three(args@) is None,
        },
{
    match args {
        Expr::Cons(a, rest) => match take_two(rest) {
            Some((b, c)) => Some((share(a), b, c)),
            None => None,
        },
        _ => None,
    }
}

/// The value of an identifier: the local binding, else the global one.
pub fn lookup_value(name: &str, env: &Env, globals: &Env) -> (r: Option<Rc<Expr>>)
    ensures
        match r {
            Some(v) => lookup(name@, env@, globals@) == Some(v@),
            None => lookup(name@, env@, globals@) is None,
        },
{
    match env.get(name) {
        Some(v) => Some(v),
        None => globals.get(name),
    }
}

/// The parameter behind a catch-all marker and what follows it.
pub fn catch_all_of(params: &Expr) -> (r: Option<(Rc<Expr>, Rc<Expr>)>)
    ensures
        match r {
            Some((x, tail)) => catch_all(params@) == Some((x@, tail@)),
            None => catch_all(params@) is None,
        },
{
    match params {
        Expr::Cons(marker, more) => match &**marker {
            Expr::Ident(m) => match &**more {
                Expr::Cons(x, tail) => {
                    assert(marker@ == Sexp::Ident(m@));
                    assert(more@ == Sexp::Pair(Box::new(x@), Box::new(tail@)));
                    if same_text(m.as_str(), "&") {
                        Some((share(x), share(tail)))
                    } else {
                        None
                    }
                },
                _ => {
                    assert(!(more@ is Pair));
                    None
                },
            },
            _ => {
                assert(!(marker@ is Ident));
                None
            },
        },
        _ => None,
    }
}

/// Evaluates the only argument of a form.
pub fn pre_eval_1<U: FloatUnit>(
    args: &Rc<Expr>,
    env: &Env,
    world: &mut World,
    k: &mut Asker<U>,
    fuel: usize,
) -> (r: Result<Rc<Expr>, Fault>)
    ensures
        asked(*old(k), *final(k)),
        spent(r, *final(k)),
        match one(args@) {
            None => r == Err::<Rc<Expr>, Fault>(Fault::Error(ErrorKind::ArityMismatch))
                && final(world)@ == old(world)@,
            Some(x) => ends_as(
                r,
                *final(world),
                eval(x, env@, old(world)@, final(k).facts@, fuel as nat),
            ),
        },
    decreases fuel, 2nat,
{
    match take_one(args) {
        Some(x) => eval_in(&x, env, world, k, fuel),
        None => Err(Fault::Error(ErrorKind::ArityMismatch)),
    }
}

/// Evaluates the two arguments of a form, the first one first.
pub fn pre_eval_2<U: FloatUnit>(
    args: &Rc<Expr>,
    env: &Env,
    world: &mut World,
    k: &mut Asker<U>,
    fuel: usize,
) -> (r: Result<(Rc<Expr>, Rc<Expr>), Fault>)
    ensures
        asked(*old(k), *final(k)),
        spent(r, *final(k)),
        match two(args@) {
            None => r == Err::<(Rc<Expr>, Rc<Expr>), Fault>(
                Fault::Error(ErrorKind::ArityMismatch),
            ) && final(world)@ == old(world)@,
            Some((x, y)) => {
                let first = eval(x, env@, old(world)@, final(k).facts@, fuel as nat);
                match first.result {
                    Err(f) => r == Err::<(Rc<Expr>, Rc<Expr>), Fault>(f) && final(world)@
                        == first.store,
                    Ok(a) => {
                        let second = eval(y, env@, first.store, final(k).facts@, fuel as nat);
                        &&& final(world)@ == second.store
                        &&& match second.result {
                            Err(f) => r == Err::<(Rc<Expr>, Rc<Expr>), Fault>(f),
                            Ok(b) => r matches Ok((va, vb)) && va@ == a && vb@ == b,
                        }
                    },
                }
            },
        },
    decreases fuel, 2nat,
{
    let (x, y) = match take_two(args) {
        Some(parts) => parts,
        None => {
            return Err(Fault::Error(ErrorKind::ArityMismatch));
        },
    };
    let ghost w0 = world@;
    let ghost k0 = *k;
    let a = match eval_in(&x, env, world, k, fuel) {
        Ok(v) => v,
        Err(f) => {
            return Err(f);
        },
    };
    let ghost k1 = *k;
    let second = eval_in(&y, env, world, k, fuel);
    proof {
        lemma_asked_twice(k0, k1, *k);
        law_eval_settled(x@, env@, w0, k1.facts@, k.facts@, fuel as nat);
    }
    match second {
        Ok(b) => Ok((a, b)),
        Err(f) => Err(f),
    }
}

/// Evaluates an expression in the local environment `env` and the state
/// `world`, to a depth of `fuel`. What the evaluation needs to know about
/// doubles it takes from the table of `k`, and where the table lacks it,
/// from the unit of `k`, as long as a question is left. The outcome is that
/// of the evaluation under what the table holds in the end.
pub fn eval_in<U: FloatUnit>(
    e: &Rc<Expr>,
    env: &Env,
    world: &mut World,
    k: &mut Asker<U>,
    fuel: usize,
) -> (r: Result<Rc<Expr>, Fault>)
    ensures
        asked(*old(k), *final(k)),
        spent(r, *final(k)),
        ends_as(r, *final(world), eval(e@, env@, old(world)@, final(k).facts@, fuel as nat)),
    decreases fuel, 1nat,
{
    if fuel == 0 {
        return Err(Fault::Error(ErrorKind::DepthExceeded));
    }
    match &**e {
        Expr::Quote(x) => Ok(share(x)),
        Expr::Quasiquote(x) => eval_quasiquote(x, env, world, k, fuel - 1),
        Expr::Ident(name) => match lookup_value(name.as_str(), env, &world.globals) {
            Some(v) => Ok(v),
            None => Err(Fault::Error(ErrorKind::UnboundIdentifier)),
        },
        Expr::Cons(head, args) => eval_list(head, args, env, world, k, fuel - 1),
        _ => Ok(share(e)),
    }
}

/// Rebuilds a quasiquoted structure, with the value of every unquoted part
/// in its place.
pub fn eval_quasiquote<U: FloatUnit>(
    e: &Rc<Expr>,
    env: &Env,
    world: &mut World,
    k: &mut Asker<U>,
    fuel: usize,
) -> (r: Result<Rc<Expr>, Fault>)
    ensures
        asked(*old(k), *final(k)),
        spent(r, *final(k)),
        ends_as(r, *final(world), quasi(e@, env@, old(world)@, final(k).facts@, fuel as nat)),
    decreases fuel, 1nat,
{
    if fuel == 0 {
        return Err(Fault::Error(ErrorKind::DepthExceeded));
    }
    match &**e {
        Expr::Unquote(x) => eval_in(x, env, world, k, fuel - 1),
        Expr::Cons(head, tail) => {
            let ghost w0 = world@;
            let ghost k0 = *k;
            let h = match eval_quasiquote(head, env, world, k, fuel - 1) {
                Ok(h) => h,
                Err(f) => {
                    return Err(f);
                },
            };
            let ghost k1 = *k;
            let second = eval_quasiquote(tail, env, world, k, fuel - 1);
            proof {
                lemma_asked_twice(k0, k1, *k);
                lemma_quasi_settled(head@, env@, w0, k1.facts@, k.facts@, (fuel - 1) as nat);
            }
            match second {
                Ok(t) => Ok(Rc::new(Expr::Cons(h, t))),
                Err(f) => Err(f),
            }
        },
        _ => Ok(share(e)),
    }
}

/// Evaluates a list with head `head` and arguments `args`.
pub fn eval_list<U: FloatUnit>(
    head: &Rc<Expr>,
    args: &Rc<Expr>,
    env: &Env,
    world: &mut World,
    k: &mut Asker<U>,
    fuel: usize,
) -> (r: Result<Rc<Expr>, Fault>)
    ensures
        asked(*old(k), *final(k)),
        spent(r, *final(k)),
        ends_as(
            r,
            *final(world),
            apply(head@, args@, env@, old(world)@, final(k).facts@, fuel as nat),
        ),
    decreases fuel, 1nat,
{
    if fuel == 0 {
        return Err(Fault::Error(ErrorKind::DepthExceeded));
    }
    match &**head {
        Expr::Ident(name) => eval_list_ident(name.as_str(), args, env, world, k, fuel),
        Expr::Lambda(name, params, body, captured) => eval_fncall(
            head,
            name,
            params,
            body,
            captured,
            args,
            env,
            world,
            k,
            fuel - 1,
        ),
        Expr::Macro(params, body) => eval_macro(params, body, args, env, world, k, fuel - 1),
        Expr::Cons(_, _) => {
            let ghost w0 = world@;
            let ghost k0 = *k;
            let v = match eval_in(head, env, world, k, fuel - 1) {
                Ok(v) => v,
                Err(f) => {
                    return Err(f);
                },
            };
            let ghost k1 = *k;
            let r = eval_list(&v, args, env, world, k, fuel - 1);
            proof {
                lemma_asked_twice(k0, k1, *k);
                law_eval_settled(head@, env@, w0, k1.facts@, k.facts@, (fuel - 1) as nat);
            }
            r
        },
        _ => Err(Fault::Error(ErrorKind::NotCallable)),
    }
}

/// Evaluates a list whose head is the identifier `name`: a reserved one
/// selects its form, any other stands for its value.
pub fn eval_list_ident<U: FloatUnit>(
    name: &str,
    args: &Rc<Expr>,
    env: &Env,
    world: &mut World,
    k: &mut Asker<U>,
    fuel: usize,
) -> (r: Result<Rc<Expr>, Fault>)
    ensures
        asked(*old(k), *final(k)),
        spent(r, *final(k)),
        ends_as(
            r,
            *final(world),
            apply(Sexp::Ident(name@), args@, env@, old(world)@, final(k).facts@, fuel as nat),
        ),
    decreases fuel, 0nat,
{
    if fuel == 0 {
        return Err(Fault::Error(ErrorKind::DepthExceeded));
    }
    match classify(name) {
        Some(Form::If) => eval_if(args, env, world, k, fuel - 1),
        Some(Form::Def) => eval_def(args, env, world, k, fuel - 1),
        Some(Form::Lambda) => eval_lambda(args, env, &world.globals),
        Some(Form::Defmacro) => eval_defmacro(args, world),
        Some(Form::Eval) => eval_eval(args, env, world, k, fuel - 1),
        Some(Form::Unary(op)) => eval_unary(op, args, env, world, k, fuel - 1),
        Some(Form::Binary(op)) => eval_binary(op, args, env, world, k, fuel - 1),
        None => match lookup_value(name, env, &world.globals) {
            Some(v) => eval_list(&v, args, env, world, k, fuel - 1),
            None => Err(Fault::Error(ErrorKind::UnboundIdentifier)),
        },
    }
}

/// `(if p a b)`.
pub fn eval_if<U: FloatUnit>(
    args: &Rc<Expr>,
    env: &Env,
    world: &mut World,
    k: &mut Asker<U>,
    fuel: usize,
) -> (r: Result<Rc<Expr>, Fault>)
    ensures
        asked(*old(k), *final(k)),
        spent(r, *final(k)),
        ends_as(r, *final(world), form_if(args@, env@, old(world)@, final(k).facts@, fuel as nat)),
    decreases fuel, 1nat,
{
    if fuel == 0 {
        return Err(Fault::Error(ErrorKind::DepthExceeded));
    }
    let (p, a, b) = match take_three(args) {
        Some(parts) => parts,
        None => {
            return Err(Fault::Error(ErrorKind::MalformedSpecialForm));
        },
    };
    let ghost w0 = world@;
    let ghost k0 = *k;
    let test = match eval_in(&p, env, world, k, fuel - 1) {
        Ok(v) => v,
        Err(f) => {
            return Err(f);
        },
    };
    let ghost k1 = *k;
    let r = match &*test {
        Expr::Nil => eval_in(&b, env, world, k, fuel - 1),
        _ => eval_in(&a, env, world, k, fuel - 1),
    };
    proof {
        lemma_asked_twice(k0, k1, *k);
        law_eval_settled(p@, env@, w0, k1.facts@, k.facts@, (fuel - 1) as nat);
    }
    r
}

/// `(def name value)`.
pub fn eval_def<U: FloatUnit>(
    args: &Rc<Expr>,
    env: &Env,
    world: &mut World,
    k: &mut Asker<U>,
    fuel: usize,
) -> (r: Result<Rc<Expr>, Fault>)
    ensures
        asked(*old(k), *final(k)),
        spent(r, *final(k)),
        ends_as(
            r,
            *final(world),
            form_def(args@, env@, old(world)@, final(k).facts@, fuel as nat),
        ),
    decreases fuel, 1nat,
{
    if fuel == 0 {
        return Err(Fault::Error(ErrorKind::DepthExceeded));
    }
    let (target, value) = match take_two(args) {
        Some(parts) => parts,
        None => {
            return Err(Fault::Error(ErrorKind::MalformedSpecialForm));
        },
    };
    match &*target {
        Expr::Ident(name) => {
            if is_reserved_ident(name.as_str()) {
                return Err(Fault::Error(ErrorKind::ReservedIdentifier));
            }
            let v = match eval_in(&value, env, world, k, fuel - 1) {
                Ok(v) => v,
                Err(f) => {
                    return Err(f);
                },
            };
            world.globals.insert(name.clone(), share(&v));
            Ok(v)
        },
        _ => Err(Fault::Error(ErrorKind::MalformedSpecialForm)),
    }
}

/// `(defmacro name params body)`.
pub fn eval_defmacro(args: &Rc<Expr>, world: &mut World) -> (r: Result<Rc<Expr>, Fault>)
    ensures
        ends_as(r, *final(world), form_defmacro(args@, old(world)@)),
{
    let (target, params, body) = match take_three(args) {
        Some(parts) => parts,
        None => {
            return Err(Fault::Error(ErrorKind::MalformedSpecialForm));
        },
    };
    match &*target {
        Expr::Ident(name) => {
            if is_reserved_ident(name.as_str()) {
                return Err(Fault::Error(ErrorKind::ReservedIdentifier));
            }
            let m = Rc::new(Expr::Macro(params, body));
            world.globals.insert(name.clone(), share(&m));
            Ok(m)
        },
        _ => Err(Fault::Error(ErrorKind::MalformedSpecialForm)),
    }
}

/// `(eval x)`.
pub fn eval_eval<U: FloatUnit>(
    args: &Rc<Expr>,
    env: &Env,
    world: &mut World,
    k: &mut Asker<U>,
    fuel: usize,
) -> (r: Result<Rc<Expr>, Fault>)
    ensures
        asked(*old(k), *final(k)),
        spent(r, *final(k)),
        ends_as(
            r,
            *final(world),
            form_eval(args@, env@, old(world)@, final(k).facts@, fuel as nat),
        ),
    decreases fuel, 1nat,
{
    if fuel == 0 {
        return Err(Fault::Error(ErrorKind::DepthExceeded));
    }
    let ghost w0 = world@;
    let ghost k0 = *k;
    let v = match pre_eval_1(args, env, world, k, fuel - 1) {
        Ok(v) => v,
        Err(f) => {
            return Err(f);
        },
    };
    let ghost k1 = *k;
    let r = eval_in(&v, env, world, k, fuel - 1);
    proof {
        lemma_asked_twice(k0, k1, *k);
        law_eval_settled(one(args@)->0, env@, w0, k1.facts@, k.facts@, (fuel - 1) as nat);
    }
    r
}

/// A primitive of one operand on the value of its argument.
pub fn eval_unary<U: FloatUnit>(
    op: Unary,
    args: &Rc<Expr>,
    env: &Env,
    world: &mut World,
    k: &mut Asker<U>,
    fuel: usize,
) -> (r: Result<Rc<Expr>, Fault>)
    ensures
        asked(*old(k), *final(k)),
        spent(r, *final(k)),
        ends_as(
            r,
            *final(world),
            form_unary(op, args@, env@, old(world)@, final(k).facts@, fuel as nat),
        ),
    decreases fuel, 1nat,
{
    if fuel == 0 {
        return Err(Fault::Error(ErrorKind::DepthExceeded));
    }
    let ghost w0 = world@;
    let ghost k0 = *k;
    let v = match pre_eval_1(args, env, world, k, fuel - 1) {
        Ok(v) => v,
        Err(f) => {
            return Err(f);
        },
    };
    let ghost k1 = *k;
    let r = k.unary(op, &v, world);
    proof {
        lemma_asked_twice(k0, k1, *k);
        law_eval_settled(one(args@)->0, env@, w0, k1.facts@, k.facts@, (fuel - 1) as nat);
    }
    r
}

/// A primitive of two operands on the values of its arguments.
pub fn eval_binary<U: FloatUnit>(
    op: Binary,
    args: &Rc<Expr>,
    env: &Env,
    world: &mut World,
    k: &mut Asker<U>,
    fuel: usize,
) -> (r: Result<Rc<Expr>, Fault>)
    ensures
        asked(*old(k), *final(k)),
        spent(r, *final(k)),
        ends_as(
            r,
            *final(world),
            form_binary(op, args@, env@, old(world)@, final(k).facts@, fuel as nat),
        ),
    decreases fuel, 1nat,
{
    if fuel == 0 {
        return Err(Fault::Error(ErrorKind::DepthExceeded));
    }
    let ghost w0 = world@;
    let ghost k0 = *k;
    let (a, b) = match pre_eval_2(args, env, world, k, fuel - 1) {
        Ok(values) => values,
        Err(f) => {
            return Err(f);
        },
    };
    let ghost k1 = *k;
    let r = k.binary(op, &a, &b);
    proof {
        lemma_asked_twice(k0, k1, *k);
        let pair = two(args@)->0;
        let x = pair.0;
        let y = pair.1;
        let first = eval(x, env@, w0, k1.facts@, (fuel - 1) as nat);
        law_eval_settled(x, env@, w0, k1.facts@, k.facts@, (fuel - 1) as nat);
        law_eval_settled(y, env@, first.store, k1.facts@, k.facts@, (fuel - 1) as nat);
    }
    r
}

/// The model of an optional captured environment.
pub open spec fn captured_view(captured: Option<Env>) -> Option<Bindings> {
    match captured {
        Some(env) => Some(env@),
        None => None,
    }
}

/// Calls the closure `closure`, whose parts are `name`, `params`, `body` and
/// `captured`, on the arguments `args`.
fn eval_fncall<U: FloatUnit>(
    closure: &Rc<Expr>,
    name: &Option<String>,
    params: &Rc<Expr>,
    body: &Rc<Expr>,
    captured: &Option<Env>,
    args: &Rc<Expr>,
    env: &Env,
    world: &mut World,
    k: &mut Asker<U>,
    fuel: usize,
) -> (r: Result<Rc<Expr>, Fault>)
    requires
        **closure == Expr::Lambda(*name, *params, *body, *captured),
    ensures
        asked(*old(k), *final(k)),
        spent(r, *final(k)),
        ends_as(
            r,
            *final(world),
            call(
                crate::expr::name_view(*name),
                params@,
                body@,
                captured_view(*captured),
                args@,
                env@,
                old(world)@,
                final(k).facts@,
                fuel as nat,
            ),
        ),
    decreases fuel, 1nat,
{
    if fuel == 0 {
        return Err(Fault::Error(ErrorKind::DepthExceeded));
    }
    let mut frame = Env::new();
    merge_envs(&mut frame, captured);
    proof {
        if captured is Some {
            let c = captured->0@;
            assert(Map::<Seq<char>, Sexp>::empty().union_prefer_right(c) =~= c);
        }
    }
    match name {
        Some(n) => {
            if is_reserved_ident(n.as_str()) {
                return Err(Fault::Error(ErrorKind::ReservedIdentifier));
            }
            frame.insert(n.clone(), share(closure));
        },
        None => {},
    }
    let ghost base = frame@;
    let ghost w0 = world@;
    let ghost k0 = *k;
    let frame = match eval_fn_args(params, args, false, frame, env, world, k, fuel - 1) {
        Ok(frame) => frame,
        Err(f) => {
            return Err(f);
        },
    };
    let ghost k1 = *k;
    let r = eval_in(body, &frame, world, k, fuel - 1);
    proof {
        lemma_asked_twice(k0, k1, *k);
        lemma_bind_settled(
            params@,
            args@,
            false,
            base,
            env@,
            w0,
            k1.facts@,
            k.facts@,
            (fuel - 1) as nat,
        );
    }
    r
}

/// Expands the macro with parameters `params` and body `body` on the
/// arguments `args` and evaluates the expansion.
pub fn eval_macro<U: FloatUnit>(
    params: &Rc<Expr>,
    body: &Rc<Expr>,
    args: &Rc<Expr>,
    env: &Env,
    world: &mut World,
    k: &mut Asker<U>,
    fuel: usize,
) -> (r: Result<Rc<Expr>, Fault>)
    ensures
        asked(*old(k), *final(k)),
        spent(r, *final(k)),
        ends_as(
            r,
            *final(world),
            expand(params@, body@, args@, env@, old(world)@, final(k).facts@, fuel as nat),
        ),
    decreases fuel, 1nat,
{
    if fuel == 0 {
        return Err(Fault::Error(ErrorKind::DepthExceeded));
    }
    let ghost w0 = world@;
    let ghost k0 = *k;
    let frame = match eval_fn_args(params, args, true, Env::new(), env, world, k, fuel - 1) {
        Ok(frame) => frame,
        Err(f) => {
            return Err(f);
        },
    };
    let ghost k1 = *k;
    let ghost w1 = world@;
    let expansion = eval_in(body, &frame, world, k, fuel - 1);
    let ghost k2 = *k;
    proof {
        lemma_asked_twice(k0, k1, k2);
        lemma_bind_settled(
            params@,
            args@,
            true,
            Map::empty(),
            env@,
            w0,
            k1.facts@,
            k2.facts@,
            (fuel - 1) as nat,
        );
    }
    let code = match expansion {
        Ok(code) => code,
        Err(f) => {
            return Err(f);
        },
    };
    let r = eval_in(&code, env, world, k, fuel - 1);
    proof {
        lemma_asked_twice(k0, k2, *k);
        lemma_bind_settled(
            params@,
            args@,
            true,
            Map::empty(),
            env@,
            w0,
            k2.facts@,
            k.facts@,
            (fuel - 1) as nat,
        );
        law_eval_settled(body@, frame@, w1, k2.facts@, k.facts@, (fuel - 1) as nat);
    }
    r
}

/// Binds the parameters `params` to the arguments `args` on top of `frame`.
pub fn eval_fn_args<U: FloatUnit>(
    params: &Rc<Expr>,
    args: &Rc<Expr>,
    is_macro: bool,
    frame: Env,
    caller: &Env,
    world: &mut World,
    k: &mut Asker<U>,
    fuel: usize,
) -> (r: Result<Env, Fault>)
    ensures
        asked(*old(k), *final(k)),
        spent(r, *final(k)),
        ({
            let b = bind(
                params@,
                args@,
                is_macro,
                frame@,
                caller@,
                old(world)@,
                final(k).facts@,
                fuel as nat,
            );
            final(world)@ == b.store && frame_view(r) == b.result
        }),
    decreases fuel, 1nat,
{
    if fuel == 0 {
        return Err(Fault::Error(ErrorKind::DepthExceeded));
    }
    let mut frame = frame;
    match &**params {
        Expr::Nil => match &**args {
            Expr::Nil => Ok(frame),
            _ => Err(Fault::Error(ErrorKind::ArityMismatch)),
        },
        Expr::Cons(param, more) => {
            match catch_all_of(params) {
                Some((rest, tail)) => {
                    match &*tail {
                        Expr::Nil => {},
                        _ => {
                            assert(!(tail@ is Nil));
                            return Err(Fault::Error(ErrorKind::MalformedParameterList));
                        },
                    }
                    assert(tail@ is Nil);
                    match &*rest {
                        Expr::Ident(name) => {
                            assert(rest@ == Sexp::Ident(name@));
                            if is_reserved_ident(name.as_str()) {
                                return Err(Fault::Error(ErrorKind::ReservedIdentifier));
                            }
                            let list = if is_macro {
                                share(args)
                            } else {
                                match eval_all_in_list(args, caller, world, k, fuel - 1) {
                                    Ok(list) => list,
                                    Err(f) => {
                                        return Err(f);
                                    },
                                }
                            };
                            frame.insert(name.clone(), list);
                            Ok(frame)
                        },
                        _ => {
                            assert(!(rest@ is Ident));
                            Err(Fault::Error(ErrorKind::MalformedParameterList))
                        },
                    }
                },
                None => match &**args {
                    Expr::Cons(arg, others) => match &**param {
                        Expr::Ident(name) => {
                            assert(param@ == Sexp::Ident(name@));
                            if is_reserved_ident(name.as_str()) {
                                return Err(Fault::Error(ErrorKind::ReservedIdentifier));
                            }
                            let ghost w0 = world@;
                            let ghost k0 = *k;
                            let v = if is_macro {
                                share(arg)
                            } else {
                                match eval_in(arg, caller, world, k, fuel - 1) {
                                    Ok(v) => v,
                                    Err(f) => {
                                        return Err(f);
                                    },
                                }
                            };
                            let ghost k1 = *k;
                            frame.insert(name.clone(), v);
                            let r = eval_fn_args(
                                more,
                                others,
                                is_macro,
                                frame,
                                caller,
                                world,
                                k,
                                fuel - 1,
                            );
                            proof {
                                lemma_asked_twice(k0, k1, *k);
                                if !is_macro {
                                    law_eval_settled(
                                        arg@,
                                        caller@,
                                        w0,
                                        k1.facts@,
                                        k.facts@,
                                        (fuel - 1) as nat,
                                    );
                                }
                            }
                            r
                        },
                        _ => {
                            assert(!(param@ is Ident));
                            Err(Fault::Error(ErrorKind::MalformedParameterList))
                        },
                    },
                    _ => Err(Fault::Error(ErrorKind::ArityMismatch)),
                },
            }
        },
        _ => Err(Fault::Error(ErrorKind::MalformedParameterList)),
    }
}

/// Evaluates the items of a list from left to right and gives the list of
/// their values.
pub fn eval_all_in_list<U: FloatUnit>(
    list: &Rc<Expr>,
    env: &Env,
    world: &mut World,
    k: &mut Asker<U>,
    fuel: usize,
) -> (r: Result<Rc<Expr>, Fault>)
    ensures
        asked(*old(k), *final(k)),
        spent(r, *final(k)),
        ends_as(
            r,
            *final(world),
            eval_all(list@, env@, old(world)@, final(k).facts@, fuel as nat),
        ),
    decreases fuel, 1nat,
{
    if fuel == 0 {
        return Err(Fault::Error(ErrorKind::DepthExceeded));
    }
    match &**list {
        Expr::Nil => Ok(Rc::new(Expr::Nil)),
        Expr::Cons(item, rest) => {
            let ghost w0 = world@;
            let ghost k0 = *k;
            let v = match eval_in(item, env, world, k, fuel - 1) {
                Ok(v) => v,
                Err(f) => {
                    return Err(f);
                },
            };
            let ghost k1 = *k;
            let second = eval_all_in_list(rest, env, world, k, fuel - 1);
            proof {
                lemma_asked_twice(k0, k1, *k);
                law_eval_settled(item@, env@, w0, k1.facts@, k.facts@, (fuel - 1) as nat);
            }
            match second {
                Ok(vs) => Ok(Rc::new(Expr::Cons(v, vs))),
                Err(f) => Err(f),
            }
        },
        _ => Err(Fault::Error(ErrorKind::ArityMismatch)),
    }
}

} // verus!
