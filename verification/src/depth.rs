//! The depth budget decides only whether an evaluation finishes: one that
//! finishes within a budget ends in the same way within every larger one.
use crate::expr::Sexp;
use crate::fault::{ErrorKind, Fault};
use crate::float::FloatFactsView;
use crate::form::{form_of, Binary, Form, Unary};
use crate::semantics::{
    apply, bind, call, call_frame, catch_all, eval, eval_all, expand, form_binary, form_def,
    form_eval, form_if, form_unary, lookup, one, quasi, three, two, Bindings, Store,
};
use vstd::prelude::*;

verus! {

/// Whether an evaluation ended otherwise than by running out of depth.
pub open spec fn finished<T>(r: Result<T, Fault>) -> bool {
    r != Err::<T, Fault>(Fault::Error(ErrorKind::DepthExceeded))
}

/// An evaluation that finishes within `fuel` ends in the same way within
/// every budget that is not smaller.
pub proof fn law_eval_deeper(
    e: Sexp,
    env: Bindings,
    store: Store,
    facts: FloatFactsView,
    fuel: nat,
    more: nat,
)
    requires
        fuel <= more,
        finished(eval(e, env, store, facts, fuel).result),
    ensures
        eval(e, env, store, facts, more) == eval(e, env, store, facts, fuel),
    decreases fuel,
{
    let f = (fuel - 1) as nat;
    let m = (more - 1) as nat;
    match e {
        Sexp::Quasiquote(x) => lemma_quasi_deeper(*x, env, store, facts, f, m),
        Sexp::Pair(head, args) => lemma_apply_deeper(*head, *args, env, store, facts, f, m),
        _ => {},
    }
}

/// The same for a quasiquoted structure.
proof fn lemma_quasi_deeper(
    e: Sexp,
    env: Bindings,
    store: Store,
    facts: FloatFactsView,
    fuel: nat,
    more: nat,
)
    requires
        fuel <= more,
        finished(quasi(e, env, store, facts, fuel).result),
    ensures
        quasi(e, env, store, facts, more) == quasi(e, env, store, facts, fuel),
    decreases fuel,
{
    let f = (fuel - 1) as nat;
    let m = (more - 1) as nat;
    match e {
        Sexp::Unquote(x) => law_eval_deeper(*x, env, store, facts, f, m),
        Sexp::Pair(head, tail) => {
            let first = quasi(*head, env, store, facts, f);
            lemma_quasi_deeper(*head, env, store, facts, f, m);
            if first.result is Ok {
                lemma_quasi_deeper(*tail, env, first.store, facts, f, m);
            }
        },
        _ => {},
    }
}

/// The same for a list.
proof fn lemma_apply_deeper(
    head: Sexp,
    args: Sexp,
    env: Bindings,
    store: Store,
    facts: FloatFactsView,
    fuel: nat,
    more: nat,
)
    requires
        fuel <= more,
        finished(apply(head, args, env, store, facts, fuel).result),
    ensures
        apply(head, args, env, store, facts, more) == apply(head, args, env, store, facts, fuel),
    decreases fuel,
{
    let f = (fuel - 1) as nat;
    let m = (more - 1) as nat;
    match head {
        Sexp::Ident(name) => match form_of(name) {
            Some(Form::If) => lemma_if_deeper(args, env, store, facts, f, m),
            Some(Form::Def) => lemma_def_deeper(args, env, store, facts, f, m),
            Some(Form::Lambda) => {},
            Some(Form::Defmacro) => {},
            Some(Form::Eval) => lemma_eval_form_deeper(args, env, store, facts, f, m),
            Some(Form::Unary(op)) => lemma_unary_deeper(op, args, env, store, facts, f, m),
            Some(Form::Binary(op)) => lemma_binary_deeper(op, args, env, store, facts, f, m),
            None => match lookup(name, env, store.globals) {
                Some(v) => lemma_apply_deeper(v, args, env, store, facts, f, m),
                None => {},
            },
        },
        Sexp::Closure(name, params, body, captured) => lemma_call_deeper(
            name,
            *params,
            *body,
            captured,
            args,
            env,
            store,
            facts,
            f,
            m,
        ),
        Sexp::Macro(params, body) => lemma_expand_deeper(
            *params,
            *body,
            args,
            env,
            store,
            facts,
            f,
            m,
        ),
        Sexp::Pair(_, _) => {
            let first = eval(head, env, store, facts, f);
            law_eval_deeper(head, env, store, facts, f, m);
            match first.result {
                Ok(v) => lemma_apply_deeper(v, args, env, first.store, facts, f, m),
                Err(_) => {},
            }
        },
        _ => {},
    }
}

/// The same for `if`.
proof fn lemma_if_deeper(
    args: Sexp,
    env: Bindings,
    store: Store,
    facts: FloatFactsView,
    fuel: nat,
    more: nat,
)
    requires
        fuel <= more,
        finished(form_if(args, env, store, facts, fuel).result),
    ensures
        form_if(args, env, store, facts, more) == form_if(args, env, store, facts, fuel),
    decreases fuel,
{
    let f = (fuel - 1) as nat;
    let m = (more - 1) as nat;
    match three(args) {
        None => {},
        Some((p, a, b)) => {
            let test = eval(p, env, store, facts, f);
            law_eval_deeper(p, env, store, facts, f, m);
            match test.result {
                Err(_) => {},
                Ok(v) => {
                    if v is Nil {
                        law_eval_deeper(b, env, test.store, facts, f, m);
                    } else {
                        law_eval_deeper(a, env, test.store, facts, f, m);
                    }
                },
            }
        },
    }
}

/// The same for `def`.
proof fn lemma_def_deeper(
    args: Sexp,
    env: Bindings,
    store: Store,
    facts: FloatFactsView,
    fuel: nat,
    more: nat,
)
    requires
        fuel <= more,
        finished(form_def(args, env, store, facts, fuel).result),
    ensures
        form_def(args, env, store, facts, more) == form_def(args, env, store, facts, fuel),
    decreases fuel,
{
    let f = (fuel - 1) as nat;
    let m = (more - 1) as nat;
    match two(args) {
        Some((Sexp::Ident(name), value)) => {
            if !crate::form::reserved(name) {
                law_eval_deeper(value, env, store, facts, f, m);
            }
        },
        _ => {},
    }
}

/// The same for `eval`.
proof fn lemma_eval_form_deeper(
    args: Sexp,
    env: Bindings,
    store: Store,
    facts: FloatFactsView,
    fuel: nat,
    more: nat,
)
    requires
        fuel <= more,
        finished(form_eval(args, env, store, facts, fuel).result),
    ensures
        form_eval(args, env, store, facts, more) == form_eval(args, env, store, facts, fuel),
    decreases fuel,
{
    let f = (fuel - 1) as nat;
    let m = (more - 1) as nat;
    match one(args) {
        None => {},
        Some(x) => {
            let first = eval(x, env, store, facts, f);
            law_eval_deeper(x, env, store, facts, f, m);
            match first.result {
                Ok(v) => law_eval_deeper(v, env, first.store, facts, f, m),
                Err(_) => {},
            }
        },
    }
}

/// The same for a primitive of one operand.
proof fn lemma_unary_deeper(
    op: Unary,
    args: Sexp,
    env: Bindings,
    store: Store,
    facts: FloatFactsView,
    fuel: nat,
    more: nat,
)
    requires
        fuel <= more,
        finished(form_unary(op, args, env, store, facts, fuel).result),
    ensures
        form_unary(op, args, env, store, facts, more) == form_unary(
            op,
            args,
            env,
            store,
            facts,
            fuel,
        ),
    decreases fuel,
{
    let f = (fuel - 1) as nat;
    let m = (more - 1) as nat;
    match one(args) {
        None => {},
        Some(x) => {
            let o = eval(x, env, store, facts, f);
            if o.result is Ok || finished(o.result) {
                law_eval_deeper(x, env, store, facts, f, m);
            }
        },
    }
}

/// The same for a primitive of two operands.
proof fn lemma_binary_deeper(
    op: Binary,
    args: Sexp,
    env: Bindings,
    store: Store,
    facts: FloatFactsView,
    fuel: nat,
    more: nat,
)
    requires
        fuel <= more,
        finished(form_binary(op, args, env, store, facts, fuel).result),
    ensures
        form_binary(op, args, env, store, facts, more) == form_binary(
            op,
            args,
            env,
            store,
            facts,
            fuel,
        ),
    decreases fuel,
{
    let f = (fuel - 1) as nat;
    let m = (more - 1) as nat;
    match two(args) {
        None => {},
        Some((x, y)) => {
            let first = eval(x, env, store, facts, f);
            if finished(first.result) {
                law_eval_deeper(x, env, store, facts, f, m);
                if first.result is Ok {
                    let second = eval(y, env, first.store, facts, f);
                    if finished(second.result) {
                        law_eval_deeper(y, env, first.store, facts, f, m);
                    }
                }
            }
        },
    }
}

/// The same for the call of a closure.
proof fn lemma_call_deeper(
    name: Option<Seq<char>>,
    params: Sexp,
    body: Sexp,
    captured: Option<Bindings>,
    args: Sexp,
    env: Bindings,
    store: Store,
    facts: FloatFactsView,
    fuel: nat,
    more: nat,
)
    requires
        fuel <= more,
        finished(call(name, params, body, captured, args, env, store, facts, fuel).result),
    ensures
        call(name, params, body, captured, args, env, store, facts, more) == call(
            name,
            params,
            body,
            captured,
            args,
            env,
            store,
            facts,
            fuel,
        ),
    decreases fuel,
{
    let f = (fuel - 1) as nat;
    let m = (more - 1) as nat;
    match call_frame(name, params, body, captured) {
        Err(_) => {},
        Ok(base) => {
            let bound = bind(params, args, false, base, env, store, facts, f);
            lemma_bind_deeper(params, args, false, base, env, store, facts, f, m);
            match bound.result {
                Err(_) => {},
                Ok(frame) => law_eval_deeper(body, frame, bound.store, facts, f, m),
            }
        },
    }
}

/// The same for the expansion of a macro.
proof fn lemma_expand_deeper(
    params: Sexp,
    body: Sexp,
    args: Sexp,
    env: Bindings,
    store: Store,
    facts: FloatFactsView,
    fuel: nat,
    more: nat,
)
    requires
        fuel <= more,
        finished(expand(params, body, args, env, store, facts, fuel).result),
    ensures
        expand(params, body, args, env, store, facts, more) == expand(
            params,
            body,
            args,
            env,
            store,
            facts,
            fuel,
        ),
    decreases fuel,
{
    let f = (fuel - 1) as nat;
    let m = (more - 1) as nat;
    let bound = bind(params, args, true, Map::empty(), env, store, facts, f);
    lemma_bind_deeper(params, args, true, Map::empty(), env, store, facts, f, m);
    match bound.result {
        Err(_) => {},
        Ok(frame) => {
            let expansion = eval(body, frame, bound.store, facts, f);
            law_eval_deeper(body, frame, bound.store, facts, f, m);
            match expansion.result {
                Err(_) => {},
                Ok(code) => law_eval_deeper(code, env, expansion.store, facts, f, m),
            }
        },
    }
}

/// The same for the binding of arguments.
proof fn lemma_bind_deeper(
    params: Sexp,
    args: Sexp,
    is_macro: bool,
    frame: Bindings,
    caller: Bindings,
    store: Store,
    facts: FloatFactsView,
    fuel: nat,
    more: nat,
)
    requires
        fuel <= more,
        finished(bind(params, args, is_macro, frame, caller, store, facts, fuel).result),
    ensures
        bind(params, args, is_macro, frame, caller, store, facts, more) == bind(
            params,
            args,
            is_macro,
            frame,
            caller,
            store,
            facts,
            fuel,
        ),
    decreases fuel,
{
    let f = (fuel - 1) as nat;
    let m = (more - 1) as nat;
    match params {
        Sexp::Pair(param, rest_params) => match catch_all(params) {
            Some((Sexp::Ident(rest), Sexp::Nil)) => {
                if !crate::form::reserved(rest) && !is_macro {
                    lemma_eval_all_deeper(args, caller, store, facts, f, m);
                }
            },
            Some(_) => {},
            None => match (args, *param) {
                (Sexp::Pair(arg, others), Sexp::Ident(name)) => {
                    if !crate::form::reserved(name) {
                        if is_macro {
                            lemma_bind_deeper(
                                *rest_params,
                                *others,
                                is_macro,
                                frame.insert(name, *arg),
                                caller,
                                store,
                                facts,
                                f,
                                m,
                            );
                        } else {
                            let o = eval(*arg, caller, store, facts, f);
                            law_eval_deeper(*arg, caller, store, facts, f, m);
                            match o.result {
                                Err(_) => {},
                                Ok(v) => lemma_bind_deeper(
                                    *rest_params,
                                    *others,
                                    is_macro,
                                    frame.insert(name, v),
                                    caller,
                                    o.store,
                                    facts,
                                    f,
                                    m,
                                ),
                            }
                        }
                    }
                },
                _ => {},
            },
        },
        _ => {},
    }
}

/// The same for a list of arguments.
proof fn lemma_eval_all_deeper(
    list: Sexp,
    env: Bindings,
    store: Store,
    facts: FloatFactsView,
    fuel: nat,
    more: nat,
)
    requires
        fuel <= more,
        finished(eval_all(list, env, store, facts, fuel).result),
    ensures
        eval_all(list, env, store, facts, more) == eval_all(list, env, store, facts, fuel),
    decreases fuel,
{
    let f = (fuel - 1) as nat;
    let m = (more - 1) as nat;
    match list {
        Sexp::Pair(item, rest) => {
            let first = eval(*item, env, store, facts, f);
            law_eval_deeper(*item, env, store, facts, f, m);
            match first.result {
                Err(_) => {},
                Ok(v) => lemma_eval_all_deeper(*rest, env, first.store, facts, f, m),
            }
        },
        _ => {},
    }
}

} // verus!
