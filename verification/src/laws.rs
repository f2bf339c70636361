//! What holds of every evaluation.
use crate::asks::law_eval_asks;
use crate::capture::{closure_of, free_idents, lambda_parts, param_names};
use crate::context::ContextView;
use crate::depth::law_eval_deeper;
use crate::equal::same;
use crate::expr::{bindings, lemma_bindings_deciding, lemma_bindings_finite, Expr, Sexp};
use crate::fault::{ErrorKind, Fault};
use crate::float::{is_nan, FloatFactsView, FloatOp, FloatQuery};
use crate::form::{lemma_marker_not_reserved, lemma_special_forms, reserved};
use crate::known::law_eval_settled;
use crate::semantics::{
    apply, bind, call, catch_all, eval, eval_all, fail, form_def, form_if, is_number, lookup,
    numeric, promote, Bindings, Bound, Outcome, Store,
};
use vstd::prelude::*;

verus! {

/// The list of one item.
pub open spec fn list1(a: Sexp) -> Sexp {
    Sexp::Pair(Box::new(a), Box::new(Sexp::Nil))
}

/// The list of two items.
pub open spec fn list2(a: Sexp, b: Sexp) -> Sexp {
    Sexp::Pair(Box::new(a), Box::new(list1(b)))
}

/// The list of three items.
pub open spec fn list3(a: Sexp, b: Sexp, c: Sexp) -> Sexp {
    Sexp::Pair(Box::new(a), Box::new(list2(b, c)))
}

/// The list with the identifier `head` in front of the list `args`.
pub open spec fn form(head: Seq<char>, args: Sexp) -> Sexp {
    Sexp::Pair(Box::new(Sexp::Ident(head)), Box::new(args))
}

/// Whether a value holds no NaN and captures only finitely many bindings.
pub open spec fn comparable(a: Sexp) -> bool
    decreases a,
{
    match a {
        Sexp::Closure(_, params, body, captured) => {
            &&& comparable(*params)
            &&& comparable(*body)
            &&& match captured {
                None => true,
                Some(m) => {
                    &&& m.dom().finite()
                    &&& forall|k: Seq<char>|
                        m.dom().finite() && #[trigger] m.dom().contains(k) ==> comparable(m[k])
                },
            }
        },
        Sexp::Macro(params, body) => comparable(*params) && comparable(*body),
        Sexp::Float(bits) => !is_nan(bits),
        Sexp::Quote(x) => comparable(*x),
        Sexp::Unquote(x) => comparable(*x),
        Sexp::Quasiquote(x) => comparable(*x),
        Sexp::Pair(head, tail) => comparable(*head) && comparable(*tail),
        _ => true,
    }
}

/// Structural equality is reflexive on every value that holds no NaN.
pub proof fn law_equality_reflexive(a: Sexp)
    requires
        comparable(a),
    ensures
        same(a, a),
    decreases a,
{
    match a {
        Sexp::Closure(_, params, body, captured) => {
            law_equality_reflexive(*params);
            law_equality_reflexive(*body);
            match captured {
                None => {},
                Some(m) => {
                    assert forall|k: Seq<char>| #[trigger] m.dom().contains(k) implies same(
                        m[k],
                        m[k],
                    ) by {
                        law_equality_reflexive(m[k]);
                    }
                },
            }
        },
        Sexp::Macro(params, body) => {
            law_equality_reflexive(*params);
            law_equality_reflexive(*body);
        },
        Sexp::Quote(x) => law_equality_reflexive(*x),
        Sexp::Unquote(x) => law_equality_reflexive(*x),
        Sexp::Quasiquote(x) => law_equality_reflexive(*x),
        Sexp::Pair(head, tail) => {
            law_equality_reflexive(*head);
            law_equality_reflexive(*tail);
        },
        _ => {},
    }
}

/// Whether no double in an expression is a NaN.
pub open spec fn nan_free(e: Expr) -> bool
    decreases e,
{
    match e {
        Expr::Lambda(_, params, body, captured) => {
            &&& nan_free(*params)
            &&& nan_free(*body)
            &&& match captured {
                None => true,
                Some(env) => forall|i: int|
                    0 <= i < env.entries@.len() ==> nan_free(*(#[trigger] env.entries@[i]).1),
            }
        },
        Expr::Macro(params, body) => nan_free(*params) && nan_free(*body),
        Expr::Float(bits) => !is_nan(bits),
        Expr::Quote(x) => nan_free(*x),
        Expr::Unquote(x) => nan_free(*x),
        Expr::Quasiquote(x) => nan_free(*x),
        Expr::Cons(head, tail) => nan_free(*head) && nan_free(*tail),
        _ => true,
    }
}

/// Every expression without a NaN has a model on which structural equality
/// is reflexive: an expression captures only finitely many bindings.
pub proof fn law_equality_reflexive_on_expressions(e: &Expr)
    requires
        nan_free(*e),
    ensures
        comparable(e@),
        same(e@, e@),
    decreases *e,
{
    match e {
        Expr::Lambda(_, params, body, captured) => {
            law_equality_reflexive_on_expressions(&**params);
            law_equality_reflexive_on_expressions(&**body);
            match captured {
                None => {},
                Some(env) => {
                    let m = bindings(env.entries@);
                    lemma_bindings_finite(env.entries@);
                    assert forall|k: Seq<char>| #[trigger] m.dom().contains(k) implies comparable(
                        m[k],
                    ) by {
                        let i = lemma_bindings_deciding(env.entries@, k);
                        law_equality_reflexive_on_expressions(&*env.entries@[i].1);
                    }
                    assert(e@->Closure_3 == Some(m));
                },
            }
        },
        Expr::Macro(params, body) => {
            law_equality_reflexive_on_expressions(&**params);
            law_equality_reflexive_on_expressions(&**body);
        },
        Expr::Quote(x) => law_equality_reflexive_on_expressions(&**x),
        Expr::Unquote(x) => law_equality_reflexive_on_expressions(&**x),
        Expr::Quasiquote(x) => law_equality_reflexive_on_expressions(&**x),
        Expr::Cons(head, tail) => {
            law_equality_reflexive_on_expressions(&**head);
            law_equality_reflexive_on_expressions(&**tail);
        },
        _ => {},
    }
    law_equality_reflexive(e@);
}

/// The numeric tower: on two integers `+ - * /` give an integer, and fail
/// only where an integer is divided by zero; as soon as one operand is a
/// double they give a double, or the question whose answer is missing, and
/// they give the double whenever the table answers the questions.
pub proof fn law_numeric_tower(op: FloatOp, a: Sexp, b: Sexp, facts: FloatFactsView)
    requires
        is_number(a),
        is_number(b),
    ensures
        a is Integer && b is Integer ==> match numeric(op, a, b, facts) {
            Ok(v) => v is Integer && !(op == FloatOp::Div && b->Integer_0 == 0),
            Err(f) => f == Fault::Error(ErrorKind::DivisionByZero) && op == FloatOp::Div
                && b->Integer_0 == 0,
        },
        a is Float || b is Float ==> match numeric(op, a, b, facts) {
            Ok(v) => v is Float,
            Err(f) => f is Pending,
        },
        a is Float || b is Float ==> (numeric(op, a, b, facts) is Ok <==> {
            &&& promote(a, facts) matches Ok(x)
            &&& promote(b, facts) matches Ok(y)
            &&& facts.number(FloatQuery::Arith(op, x, y)) is Some
        }),
{
}

/// `if` evaluates the test and then exactly one branch: the whole form ends
/// as that branch ends when it is evaluated in the state that the test left.
/// The other branch has no part in the value, in the global bindings or in
/// the output.
pub proof fn law_if_selects(
    p: Sexp,
    a: Sexp,
    b: Sexp,
    env: Bindings,
    store: Store,
    facts: FloatFactsView,
    fuel: nat,
)
    requires
        eval(p, env, store, facts, fuel).result is Ok,
    ensures
        ({
            let test = eval(p, env, store, facts, fuel);
            let whole = eval(form("if"@, list3(p, a, b)), env, store, facts, fuel + 3);
            if test.result->Ok_0 is Nil {
                whole == eval(b, env, test.store, facts, fuel)
            } else {
                whole == eval(a, env, test.store, facts, fuel)
            }
        }),
{
    lemma_special_forms();
    reveal_with_fuel(eval, 2);
    reveal_with_fuel(apply, 2);
    reveal_with_fuel(form_if, 2);
}

/// A test that gives no value ends the whole `if`: no branch is evaluated.
pub proof fn law_if_propagates(
    p: Sexp,
    a: Sexp,
    b: Sexp,
    env: Bindings,
    store: Store,
    facts: FloatFactsView,
    fuel: nat,
)
    requires
        eval(p, env, store, facts, fuel).result is Err,
    ensures
        eval(form("if"@, list3(p, a, b)), env, store, facts, fuel + 3) == eval(
            p,
            env,
            store,
            facts,
            fuel,
        ),
{
    lemma_special_forms();
    reveal_with_fuel(eval, 2);
    reveal_with_fuel(apply, 2);
    reveal_with_fuel(form_if, 2);
}

/// A closure remembers a snapshot: what it captured are the values that the
/// free identifiers of its body had in the local environment in which it
/// was made. No parameter and no global name is among them.
pub proof fn law_capture_is_snapshot(args: Sexp, env: Bindings, globals: Bindings)
    requires
        closure_of(args, env, globals) is Ok,
    ensures
        ({
            let (name, params, body) = lambda_parts(args)->0;
            let ignore = match name {
                Some(n) => param_names(params)->0.insert(n),
                None => param_names(params)->0,
            };
            let wanted = free_idents(body, ignore, globals.dom(), false);
            &&& closure_of(args, env, globals)->Ok_0 matches Sexp::Closure(n, p, b, captured)
            &&& n == name && *p == params && *b == body
            &&& captured is None <==> wanted == Set::<Seq<char>>::empty()
            &&& captured matches Some(m) ==> m.dom() == wanted && forall|k: Seq<char>|
                #[trigger] m.dom().contains(k) ==> env.dom().contains(k) && m[k] == env[k]
        }),
{
    let (name, params, body) = lambda_parts(args)->0;
    let ignore = match name {
        Some(n) => param_names(params)->0.insert(n),
        None => param_names(params)->0,
    };
    let wanted = free_idents(body, ignore, globals.dom(), false);
    if wanted != Set::<Seq<char>>::empty() {
        assert(env.restrict(wanted).dom() =~= wanted);
    }
}

/// The call of a closure with one parameter: the body is evaluated where the
/// captured bindings hold and the parameter is bound to the value that the
/// argument has in the caller's environment. Nothing else of the caller's
/// environment, and nothing of the environment in which the closure was
/// made but what it captured, has a part in it.
pub proof fn law_call_binds(
    x: Seq<char>,
    body: Sexp,
    captured: Option<Bindings>,
    arg: Sexp,
    caller: Bindings,
    store: Store,
    facts: FloatFactsView,
    fuel: nat,
)
    requires
        !reserved(x),
        eval(arg, caller, store, facts, fuel).result is Ok,
    ensures
        ({
            let given = eval(arg, caller, store, facts, fuel);
            let base = match captured {
                Some(m) => m,
                None => Map::empty(),
            };
            call(
                None,
                list1(Sexp::Ident(x)),
                body,
                captured,
                list1(arg),
                caller,
                store,
                facts,
                fuel + 2,
            ) == eval(body, base.insert(x, given.result->Ok_0), given.store, facts, fuel + 1)
        }),
{
    lemma_marker_not_reserved();
    reveal_with_fuel(bind, 3);
}

/// A call does not look into the caller's local environment but for the
/// values of the arguments: a closure without parameters does the same
/// wherever it is called from.
pub proof fn law_call_ignores_scope(
    name: Option<Seq<char>>,
    body: Sexp,
    captured: Option<Bindings>,
    here: Bindings,
    there: Bindings,
    store: Store,
    facts: FloatFactsView,
    fuel: nat,
)
    ensures
        call(name, Sexp::Nil, body, captured, Sexp::Nil, here, store, facts, fuel) == call(
            name,
            Sexp::Nil,
            body,
            captured,
            Sexp::Nil,
            there,
            store,
            facts,
            fuel,
        ),
{
    reveal_with_fuel(call, 2);
    reveal_with_fuel(bind, 2);
}

/// `def` writes to the global tier whatever the local environment is: the
/// value is bound globally in the state that its evaluation left, it is the
/// value of the form, and a later lookup without any local binding finds it.
pub proof fn law_def_is_global(
    name: Seq<char>,
    value: Sexp,
    env: Bindings,
    store: Store,
    facts: FloatFactsView,
    fuel: nat,
)
    requires
        !reserved(name),
        eval(value, env, store, facts, fuel).result is Ok,
    ensures
        ({
            let o = eval(value, env, store, facts, fuel);
            let v = o.result->Ok_0;
            let whole = eval(
                form("def"@, list2(Sexp::Ident(name), value)),
                env,
                store,
                facts,
                fuel + 3,
            );
            &&& whole.result == Ok::<Sexp, Fault>(v)
            &&& whole.store.globals == o.store.globals.insert(name, v)
            &&& whole.store.output == o.store.output
            &&& lookup(name, Map::empty(), whole.store.globals) == Some(v)
        }),
{
    lemma_special_forms();
    reveal_with_fuel(eval, 2);
    reveal_with_fuel(apply, 2);
    reveal_with_fuel(form_def, 2);
}

/// `def` on a reserved identifier fails with `ReservedIdentifier` and leaves
/// the state as it was: the value is not even evaluated.
pub proof fn law_def_reserved(
    name: Seq<char>,
    value: Sexp,
    env: Bindings,
    store: Store,
    facts: FloatFactsView,
    fuel: nat,
)
    requires
        reserved(name),
    ensures
        eval(form("def"@, list2(Sexp::Ident(name), value)), env, store, facts, fuel + 3) == fail(
            ErrorKind::ReservedIdentifier,
            store,
        ),
{
    lemma_special_forms();
    reveal_with_fuel(eval, 2);
    reveal_with_fuel(apply, 2);
    reveal_with_fuel(form_def, 2);
}

/// `defmacro` on a reserved identifier fails with `ReservedIdentifier` and
/// leaves the state as it was.
pub proof fn law_defmacro_reserved(
    name: Seq<char>,
    params: Sexp,
    body: Sexp,
    env: Bindings,
    store: Store,
    facts: FloatFactsView,
    fuel: nat,
)
    requires
        reserved(name),
    ensures
        eval(
            form("defmacro"@, list3(Sexp::Ident(name), params, body)),
            env,
            store,
            facts,
            fuel + 2,
        ) == fail(ErrorKind::ReservedIdentifier, store),
{
    lemma_special_forms();
}

/// A lambda form whose parameters or whose own name are reserved makes its
/// closure like any other; the closure cannot be called. The call of a
/// closure whose own name is reserved fails with `ReservedIdentifier` and
/// leaves the state as it was: no argument is evaluated.
pub proof fn law_call_reserved_name(
    name: Seq<char>,
    params: Sexp,
    body: Sexp,
    captured: Option<Bindings>,
    args: Sexp,
    env: Bindings,
    store: Store,
    facts: FloatFactsView,
    fuel: nat,
)
    requires
        reserved(name),
    ensures
        call(Some(name), params, body, captured, args, env, store, facts, fuel + 1) == fail(
            ErrorKind::ReservedIdentifier,
            store,
        ),
{
}

/// The call of a closure whose first parameter is reserved fails with
/// `ReservedIdentifier` and leaves the state as it was: no argument is
/// evaluated.
pub proof fn law_call_reserved_parameter(
    param: Seq<char>,
    more: Sexp,
    body: Sexp,
    captured: Option<Bindings>,
    arg: Sexp,
    others: Sexp,
    env: Bindings,
    store: Store,
    facts: FloatFactsView,
    fuel: nat,
)
    requires
        reserved(param),
    ensures
        call(
            None,
            Sexp::Pair(Box::new(Sexp::Ident(param)), Box::new(more)),
            body,
            captured,
            Sexp::Pair(Box::new(arg), Box::new(others)),
            env,
            store,
            facts,
            fuel + 2,
        ) == fail(ErrorKind::ReservedIdentifier, store),
{
    lemma_marker_not_reserved();
    reveal_with_fuel(bind, 2);
}

/// A reserved parameter stops the binding of arguments before the argument
/// for it is evaluated: the state is as it was.
pub proof fn law_bind_reserved(
    name: Seq<char>,
    more: Sexp,
    arg: Sexp,
    others: Sexp,
    is_macro: bool,
    frame: Bindings,
    caller: Bindings,
    store: Store,
    facts: FloatFactsView,
    fuel: nat,
)
    requires
        reserved(name),
    ensures
        ({
            let params = Sexp::Pair(Box::new(Sexp::Ident(name)), Box::new(more));
            let args = Sexp::Pair(Box::new(arg), Box::new(others));
            let b = bind(params, args, is_macro, frame, caller, store, facts, fuel + 1);
            b.result == Err::<Bindings, Fault>(Fault::Error(ErrorKind::ReservedIdentifier))
                && b.store == store
        }),
{
    let params = Sexp::Pair(Box::new(Sexp::Ident(name)), Box::new(more));
    assert(name != "&"@) by {
        lemma_marker_not_reserved();
    }
}

/// Rest-argument binding: with the parameters `(a & rest)` and three
/// arguments, a closure's frame binds `a` to the value of the first argument
/// and `rest` to the list of the values of the other two, all evaluated in
/// the caller's environment, from left to right.
pub proof fn law_rest_binding(
    a: Seq<char>,
    rest: Seq<char>,
    x: Sexp,
    y: Sexp,
    z: Sexp,
    frame: Bindings,
    caller: Bindings,
    store: Store,
    facts: FloatFactsView,
    fuel: nat,
)
    requires
        !reserved(a),
        !reserved(rest),
        a != "&"@,
        eval(x, caller, store, facts, fuel + 3).result is Ok,
        eval(y, caller, eval(x, caller, store, facts, fuel + 3).store, facts, fuel + 1).result
            is Ok,
        eval(
            z,
            caller,
            eval(y, caller, eval(x, caller, store, facts, fuel + 3).store, facts, fuel + 1).store,
            facts,
            fuel,
        ).result is Ok,
    ensures
        ({
            let params = list3(Sexp::Ident(a), Sexp::Ident("&"@), Sexp::Ident(rest));
            let ox = eval(x, caller, store, facts, fuel + 3);
            let oy = eval(y, caller, ox.store, facts, fuel + 1);
            let oz = eval(z, caller, oy.store, facts, fuel);
            let b = bind(params, list3(x, y, z), false, frame, caller, store, facts, fuel + 4);
            &&& b.result == Ok::<Bindings, Fault>(
                frame.insert(a, ox.result->Ok_0).insert(
                    rest,
                    list2(oy.result->Ok_0, oz.result->Ok_0),
                ),
            )
            &&& b.store == oz.store
        }),
{
    lemma_marker_not_reserved();
    let params = list3(Sexp::Ident(a), Sexp::Ident("&"@), Sexp::Ident(rest));
    let tail = list2(Sexp::Ident("&"@), Sexp::Ident(rest));
    let ox = eval(x, caller, store, facts, fuel + 3);
    let oy = eval(y, caller, ox.store, facts, fuel + 1);
    let oz = eval(z, caller, oy.store, facts, fuel);
    let vx = ox.result->Ok_0;
    assert(fuel > 0);
    assert(eval_all(Sexp::Nil, caller, oz.store, facts, fuel).result == Ok::<Sexp, Fault>(
        Sexp::Nil,
    ));
    assert(eval_all(list1(z), caller, oy.store, facts, (fuel + 1) as nat).result == Ok::<
        Sexp,
        Fault,
    >(list1(oz.result->Ok_0)));
    assert(eval_all(list2(y, z), caller, ox.store, facts, (fuel + 2) as nat) == Outcome {
        result: Ok(list2(oy.result->Ok_0, oz.result->Ok_0)),
        store: oz.store,
    });
    assert(catch_all(tail) == Some((Sexp::Ident(rest), Sexp::Nil)));
    assert(bind(
        tail,
        list2(y, z),
        false,
        frame.insert(a, vx),
        caller,
        ox.store,
        facts,
        (fuel + 3) as nat,
    ) == Bound {
        result: Ok(frame.insert(a, vx).insert(rest, list2(oy.result->Ok_0, oz.result->Ok_0))),
        store: oz.store,
    });
    assert(catch_all(params) is None);
}

/// For a macro the same parameters bind `a` to the first argument and `rest`
/// to the list of the others as they stand: nothing is evaluated.
pub proof fn law_rest_binding_macro(
    a: Seq<char>,
    rest: Seq<char>,
    x: Sexp,
    others: Sexp,
    frame: Bindings,
    caller: Bindings,
    store: Store,
    facts: FloatFactsView,
    fuel: nat,
)
    requires
        !reserved(a),
        !reserved(rest),
        a != "&"@,
    ensures
        ({
            let params = list3(Sexp::Ident(a), Sexp::Ident("&"@), Sexp::Ident(rest));
            let args = Sexp::Pair(Box::new(x), Box::new(others));
            let b = bind(params, args, true, frame, caller, store, facts, fuel + 2);
            &&& b.result == Ok::<Bindings, Fault>(frame.insert(a, x).insert(rest, others))
            &&& b.store == store
        }),
{
    lemma_marker_not_reserved();
    reveal_with_fuel(bind, 3);
}

/// The depth decides only whether a context can be evaluated: where the
/// evaluation does not run out of depth, a context that allows more depth
/// is evaluated to the same expression, bindings, output and error.
pub proof fn law_context_deeper(c: ContextView, more: nat)
    requires
        c.depth <= more,
        c.evaluated().error != Some(Fault::Error(ErrorKind::DepthExceeded)),
    ensures
        (ContextView { depth: more, ..c }).evaluated() == (ContextView {
            depth: more,
            ..c.evaluated()
        }),
{
    if c.error is None {
        law_eval_deeper(
            c.expr,
            c.env,
            Store { globals: c.globals, output: c.output },
            c.floats,
            c.depth,
            more,
        );
    }
}

/// What is known about doubles decides only whether an evaluation has to
/// wait: where it does not wait, a context that knows more is evaluated to
/// the same expression, bindings, output and error.
pub proof fn law_context_settled(c: ContextView, more: FloatFactsView)
    requires
        more.extends(c.floats),
        !(c.evaluated().error matches Some(Fault::Pending(_))),
    ensures
        (ContextView { floats: more, ..c }).evaluated() == (ContextView {
            floats: more,
            ..c.evaluated()
        }),
{
    if c.error is None {
        law_eval_settled(
            c.expr,
            c.env,
            Store { globals: c.globals, output: c.output },
            c.floats,
            more,
            c.depth,
        );
    }
}

/// An evaluation waits only for what its context does not know: once a
/// question is answered, the evaluation of that context does not ask it
/// again.
pub proof fn law_context_asks(c: ContextView, q: FloatQuery)
    requires
        c.error is None,
        c.evaluated().error == Some(Fault::Pending(q)),
    ensures
        !c.floats.knows(q),
{
    law_eval_asks(
        c.expr,
        c.env,
        Store { globals: c.globals, output: c.output },
        c.floats,
        c.depth,
        q,
    );
}

} // verus!
