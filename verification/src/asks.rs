//! An evaluation asks only for what the table does not know: a question
//! that has been answered is not asked again.
use crate::expr::Sexp;
use crate::fault::Fault;
use crate::float::{FloatFactsView, FloatQuery};
use crate::form::{form_of, reserved, Binary, Form, Unary};
use crate::lexer::{is_space, lex_all, lex_one, Lexed, ReadErrorView, TokenView};
use crate::print::{plain, render, render_rest};
use crate::read::read_text;
use crate::semantics::{
    apply, bind, binary, call, call_frame, catch_all, eval, eval_all, expand, form_binary,
    form_def, form_eval, form_if, form_unary, lookup, one, quasi, three, two, unary, Bindings,
    Store,
};
use vstd::prelude::*;

verus! {

/// Whether a result is the question `q`.
pub open spec fn asks<T>(r: Result<T, Fault>, q: FloatQuery) -> bool {
    r == Err::<T, Fault>(Fault::Pending(q))
}

/// Where a value cannot be displayed, the text of one of its doubles is
/// not known.
pub proof fn lemma_render_asks(e: Sexp, facts: FloatFactsView, q: FloatQuery)
    requires
        render(e, facts) == Err::<Seq<char>, FloatQuery>(q),
    ensures
        !facts.knows(q),
    decreases e, 0nat,
{
    match e {
        Sexp::Quote(x) => lemma_render_asks(*x, facts, q),
        Sexp::Unquote(x) => lemma_render_asks(*x, facts, q),
        Sexp::Quasiquote(x) => lemma_render_asks(*x, facts, q),
        Sexp::Pair(head, tail) => {
            if render(*head, facts) is Err {
                lemma_render_asks(*head, facts, q);
            } else {
                lemma_render_rest_asks(*tail, facts, q);
            }
        },
        _ => {},
    }
}

/// The same for what follows the first item of a list.
pub proof fn lemma_render_rest_asks(e: Sexp, facts: FloatFactsView, q: FloatQuery)
    requires
        render_rest(e, facts) == Err::<Seq<char>, FloatQuery>(q),
    ensures
        !facts.knows(q),
    decreases e, 1nat,
{
    match e {
        Sexp::Pair(head, tail) => {
            if render(*head, facts) is Err {
                lemma_render_asks(*head, facts, q);
            } else {
                lemma_render_rest_asks(*tail, facts, q);
            }
        },
        Sexp::Nil => {},
        _ => lemma_render_asks(e, facts, q),
    }
}

/// The same for the text that `print` and `str` use.
pub proof fn lemma_plain_asks(e: Sexp, facts: FloatFactsView, q: FloatQuery)
    requires
        plain(e, facts) == Err::<Seq<char>, FloatQuery>(q),
    ensures
        !facts.knows(q),
{
    lemma_render_asks(e, facts, q);
}

/// A primitive of two operands asks only for what the table does not know.
pub proof fn lemma_binary_op_asks(
    op: Binary,
    a: Sexp,
    b: Sexp,
    facts: FloatFactsView,
    q: FloatQuery,
)
    requires
        asks(binary(op, a, b, facts), q),
    ensures
        !facts.knows(q),
{
    if op == Binary::Str {
        if plain(a, facts) is Err {
            lemma_plain_asks(a, facts, q);
        } else {
            lemma_plain_asks(b, facts, q);
        }
    }
}

/// A primitive of one operand asks only for what the table does not know.
pub proof fn lemma_unary_op_asks(
    op: Unary,
    v: Sexp,
    store: Store,
    facts: FloatFactsView,
    q: FloatQuery,
)
    requires
        asks(unary(op, v, store, facts).result, q),
    ensures
        !facts.knows(q),
{
    if op == Unary::Print {
        lemma_plain_asks(v, facts, q);
    }
    if op == Unary::PrintDebug {
        lemma_render_asks(v, facts, q);
    }
}

/// An evaluation asks only for what the table does not know.
pub proof fn law_eval_asks(
    e: Sexp,
    env: Bindings,
    store: Store,
    facts: FloatFactsView,
    fuel: nat,
    q: FloatQuery,
)
    requires
        asks(eval(e, env, store, facts, fuel).result, q),
    ensures
        !facts.knows(q),
    decreases fuel,
{
    if fuel > 0 {
        let f = (fuel - 1) as nat;
        match e {
            Sexp::Quasiquote(x) => lemma_quasi_asks(*x, env, store, facts, f, q),
            Sexp::Pair(head, args) => lemma_apply_asks(*head, *args, env, store, facts, f, q),
            _ => {},
        }
    }
}

/// The same for a quasiquoted structure.
proof fn lemma_quasi_asks(
    e: Sexp,
    env: Bindings,
    store: Store,
    facts: FloatFactsView,
    fuel: nat,
    q: FloatQuery,
)
    requires
        asks(quasi(e, env, store, facts, fuel).result, q),
    ensures
        !facts.knows(q),
    decreases fuel,
{
    if fuel > 0 {
        let f = (fuel - 1) as nat;
        match e {
            Sexp::Unquote(x) => law_eval_asks(*x, env, store, facts, f, q),
            Sexp::Pair(head, tail) => {
                let first = quasi(*head, env, store, facts, f);
                if first.result is Ok {
                    lemma_quasi_asks(*tail, env, first.store, facts, f, q);
                } else {
                    lemma_quasi_asks(*head, env, store, facts, f, q);
                }
            },
            _ => {},
        }
    }
}

/// The same for a list.
proof fn lemma_apply_asks(
    head: Sexp,
    args: Sexp,
    env: Bindings,
    store: Store,
    facts: FloatFactsView,
    fuel: nat,
    q: FloatQuery,
)
    requires
        asks(apply(head, args, env, store, facts, fuel).result, q),
    ensures
        !facts.knows(q),
    decreases fuel,
{
    if fuel > 0 {
        let f = (fuel - 1) as nat;
        match head {
            Sexp::Ident(name) => match form_of(name) {
                Some(Form::If) => lemma_if_asks(args, env, store, facts, f, q),
                Some(Form::Def) => lemma_def_asks(args, env, store, facts, f, q),
                Some(Form::Lambda) => {},
                Some(Form::Defmacro) => {},
                Some(Form::Eval) => lemma_eval_form_asks(args, env, store, facts, f, q),
                Some(Form::Unary(op)) => lemma_unary_asks(op, args, env, store, facts, f, q),
                Some(Form::Binary(op)) => lemma_binary_asks(op, args, env, store, facts, f, q),
                None => match lookup(name, env, store.globals) {
                    Some(v) => lemma_apply_asks(v, args, env, store, facts, f, q),
                    None => {},
                },
            },
            Sexp::Closure(name, params, body, captured) => lemma_call_asks(
                name,
                *params,
                *body,
                captured,
                args,
                env,
                store,
                facts,
                f,
                q,
            ),
            Sexp::Macro(params, body) => lemma_expand_asks(
                *params,
                *body,
                args,
                env,
                store,
                facts,
                f,
                q,
            ),
            Sexp::Pair(_, _) => {
                let first = eval(head, env, store, facts, f);
                match first.result {
                    Ok(v) => lemma_apply_asks(v, args, env, first.store, facts, f, q),
                    Err(_) => law_eval_asks(head, env, store, facts, f, q),
                }
            },
            _ => {},
        }
    }
}

/// The same for `if`.
proof fn lemma_if_asks(
    args: Sexp,
    env: Bindings,
    store: Store,
    facts: FloatFactsView,
    fuel: nat,
    q: FloatQuery,
)
    requires
        asks(form_if(args, env, store, facts, fuel).result, q),
    ensures
        !facts.knows(q),
    decreases fuel,
{
    if fuel > 0 {
        let f = (fuel - 1) as nat;
        match three(args) {
            None => {},
            Some((p, a, b)) => {
                let test = eval(p, env, store, facts, f);
                match test.result {
                    Err(_) => law_eval_asks(p, env, store, facts, f, q),
                    Ok(v) => {
                        if v is Nil {
                            law_eval_asks(b, env, test.store, facts, f, q);
                        } else {
                            law_eval_asks(a, env, test.store, facts, f, q);
                        }
                    },
                }
            },
        }
    }
}

/// The same for `def`.
proof fn lemma_def_asks(
    args: Sexp,
    env: Bindings,
    store: Store,
    facts: FloatFactsView,
    fuel: nat,
    q: FloatQuery,
)
    requires
        asks(form_def(args, env, store, facts, fuel).result, q),
    ensures
        !facts.knows(q),
    decreases fuel,
{
    if fuel > 0 {
        let f = (fuel - 1) as nat;
        match two(args) {
            Some((Sexp::Ident(name), value)) => {
                if !reserved(name) {
                    law_eval_asks(value, env, store, facts, f, q);
                }
            },
            _ => {},
        }
    }
}

/// The same for `eval`.
proof fn lemma_eval_form_asks(
    args: Sexp,
    env: Bindings,
    store: Store,
    facts: FloatFactsView,
    fuel: nat,
    q: FloatQuery,
)
    requires
        asks(form_eval(args, env, store, facts, fuel).result, q),
    ensures
        !facts.knows(q),
    decreases fuel,
{
    if fuel > 0 {
        let f = (fuel - 1) as nat;
        match one(args) {
            None => {},
            Some(x) => {
                let first = eval(x, env, store, facts, f);
                match first.result {
                    Ok(v) => law_eval_asks(v, env, first.store, facts, f, q),
                    Err(_) => law_eval_asks(x, env, store, facts, f, q),
                }
            },
        }
    }
}

/// The same for a primitive of one operand.
proof fn lemma_unary_asks(
    op: Unary,
    args: Sexp,
    env: Bindings,
    store: Store,
    facts: FloatFactsView,
    fuel: nat,
    q: FloatQuery,
)
    requires
        asks(form_unary(op, args, env, store, facts, fuel).result, q),
    ensures
        !facts.knows(q),
    decreases fuel,
{
    if fuel > 0 {
        let f = (fuel - 1) as nat;
        match one(args) {
            None => {},
            Some(x) => {
                let o = eval(x, env, store, facts, f);
                match o.result {
                    Ok(v) => lemma_unary_op_asks(op, v, o.store, facts, q),
                    Err(_) => law_eval_asks(x, env, store, facts, f, q),
                }
            },
        }
    }
}

/// The same for a primitive of two operands.
proof fn lemma_binary_asks(
    op: Binary,
    args: Sexp,
    env: Bindings,
    store: Store,
    facts: FloatFactsView,
    fuel: nat,
    q: FloatQuery,
)
    requires
        asks(form_binary(op, args, env, store, facts, fuel).result, q),
    ensures
        !facts.knows(q),
    decreases fuel,
{
    if fuel > 0 {
        let f = (fuel - 1) as nat;
        match two(args) {
            None => {},
            Some((x, y)) => {
                let first = eval(x, env, store, facts, f);
                match first.result {
                    Ok(a) => {
                        let second = eval(y, env, first.store, facts, f);
                        match second.result {
                            Ok(b) => lemma_binary_op_asks(op, a, b, facts, q),
                            Err(_) => law_eval_asks(y, env, first.store, facts, f, q),
                        }
                    },
                    Err(_) => law_eval_asks(x, env, store, facts, f, q),
                }
            },
        }
    }
}

/// The same for the call of a closure.
proof fn lemma_call_asks(
    name: Option<Seq<char>>,
    params: Sexp,
    body: Sexp,
    captured: Option<Bindings>,
    args: Sexp,
    env: Bindings,
    store: Store,
    facts: FloatFactsView,
    fuel: nat,
    q: FloatQuery,
)
    requires
        asks(call(name, params, body, captured, args, env, store, facts, fuel).result, q),
    ensures
        !facts.knows(q),
    decreases fuel,
{
    if fuel > 0 {
        let f = (fuel - 1) as nat;
        match call_frame(name, params, body, captured) {
            Err(_) => {},
            Ok(base) => {
                let bound = bind(params, args, false, base, env, store, facts, f);
                match bound.result {
                    Err(_) => lemma_bind_asks(params, args, false, base, env, store, facts, f, q),
                    Ok(frame) => law_eval_asks(body, frame, bound.store, facts, f, q),
                }
            },
        }
    }
}

/// The same for the expansion of a macro.
proof fn lemma_expand_asks(
    params: Sexp,
    body: Sexp,
    args: Sexp,
    env: Bindings,
    store: Store,
    facts: FloatFactsView,
    fuel: nat,
    q: FloatQuery,
)
    requires
        asks(expand(params, body, args, env, store, facts, fuel).result, q),
    ensures
        !facts.knows(q),
    decreases fuel,
{
    if fuel > 0 {
        let f = (fuel - 1) as nat;
        let bound = bind(params, args, true, Map::empty(), env, store, facts, f);
        match bound.result {
            Err(_) => lemma_bind_asks(params, args, true, Map::empty(), env, store, facts, f, q),
            Ok(frame) => {
                let expansion = eval(body, frame, bound.store, facts, f);
                match expansion.result {
                    Err(_) => law_eval_asks(body, frame, bound.store, facts, f, q),
                    Ok(code) => law_eval_asks(code, env, expansion.store, facts, f, q),
                }
            },
        }
    }
}

/// The same for the binding of arguments.
proof fn lemma_bind_asks(
    params: Sexp,
    args: Sexp,
    is_macro: bool,
    frame: Bindings,
    caller: Bindings,
    store: Store,
    facts: FloatFactsView,
    fuel: nat,
    q: FloatQuery,
)
    requires
        asks(bind(params, args, is_macro, frame, caller, store, facts, fuel).result, q),
    ensures
        !facts.knows(q),
    decreases fuel,
{
    if fuel > 0 {
        let f = (fuel - 1) as nat;
        match params {
            Sexp::Pair(param, rest_params) => match catch_all(params) {
                Some((Sexp::Ident(rest), Sexp::Nil)) => {
                    if !reserved(rest) && !is_macro {
                        lemma_eval_all_asks(args, caller, store, facts, f, q);
                    }
                },
                Some(_) => {},
                None => match (args, *param) {
                    (Sexp::Pair(arg, others), Sexp::Ident(name)) => {
                        if !reserved(name) {
                            if is_macro {
                                lemma_bind_asks(
                                    *rest_params,
                                    *others,
                                    is_macro,
                                    frame.insert(name, *arg),
                                    caller,
                                    store,
                                    facts,
                                    f,
                                    q,
                                );
                            } else {
                                let o = eval(*arg, caller, store, facts, f);
                                match o.result {
                                    Err(_) => law_eval_asks(*arg, caller, store, facts, f, q),
                                    Ok(v) => lemma_bind_asks(
                                        *rest_params,
                                        *others,
                                        is_macro,
                                        frame.insert(name, v),
                                        caller,
                                        o.store,
                                        facts,
                                        f,
                                        q,
                                    ),
                                }
                            }
                        }
                    },
                    _ => {},
                },
            },
            _ => {},
        }
    }
}

/// The same for a list of arguments.
proof fn lemma_eval_all_asks(
    list: Sexp,
    env: Bindings,
    store: Store,
    facts: FloatFactsView,
    fuel: nat,
    q: FloatQuery,
)
    requires
        asks(eval_all(list, env, store, facts, fuel).result, q),
    ensures
        !facts.knows(q),
    decreases fuel,
{
    if fuel > 0 {
        let f = (fuel - 1) as nat;
        match list {
            Sexp::Pair(item, rest) => {
                let first = eval(*item, env, store, facts, f);
                match first.result {
                    Err(_) => law_eval_asks(*item, env, store, facts, f, q),
                    Ok(v) => lemma_eval_all_asks(*rest, env, first.store, facts, f, q),
                }
            },
            _ => {},
        }
    }
}

/// Reading waits only for a literal whose value the table does not know.
pub proof fn lemma_read_asks(s: Seq<char>, facts: FloatFactsView, text: Seq<char>)
    requires
        read_text(s, facts) == Err::<Seq<Sexp>, ReadErrorView>(ReadErrorView::Literal(text)),
    ensures
        facts.literal(text) is None,
{
    lemma_lex_asks(s, 0, facts, text);
}

/// The lexer waits only for a literal whose value the table does not know.
pub proof fn lemma_lex_asks(s: Seq<char>, pos: int, facts: FloatFactsView, text: Seq<char>)
    requires
        lex_all(s, pos, facts) == Err::<Seq<TokenView>, ReadErrorView>(
            ReadErrorView::Literal(text),
        ),
    ensures
        facts.literal(text) is None,
    decreases s.len() - pos,
{
    match lex_one(s, pos, facts) {
        Lexed::Token(_, next) => {
            if pos < next <= s.len() {
                lemma_lex_asks(s, next, facts, text);
            }
        },
        Lexed::Fail(_) => lemma_lex_one_asks(s, pos, facts, text),
        Lexed::End => {},
    }
}

/// The same for one token.
pub proof fn lemma_lex_one_asks(s: Seq<char>, pos: int, facts: FloatFactsView, text: Seq<char>)
    requires
        lex_one(s, pos, facts) == Lexed::Fail(ReadErrorView::Literal(text)),
    ensures
        facts.literal(text) is None,
    decreases s.len() - pos,
{
    if 0 <= pos < s.len() && is_space(s[pos]) {
        lemma_lex_one_asks(s, pos + 1, facts, text);
    }
}

} // verus!
