//! Facts about doubles decide only whether an evaluation has to wait: one
//! that does not wait ends in the same way under every table that knows
//! more.
use crate::expr::Sexp;
use crate::fault::Fault;
use crate::float::FloatFactsView;
use crate::form::{form_of, reserved, Binary, Form, Unary};
use crate::lexer::{lex_all, lex_one, Lexed, ReadErrorView};
use crate::print::{plain, render, render_rest};
use crate::read::read_text;
use crate::semantics::{
    apply, bind, binary, call, call_frame, catch_all, eval, eval_all, expand, form_binary,
    form_def, form_eval, form_if, form_unary, lookup, one, quasi, three, two, unary, Bindings,
    Store,
};
use vstd::prelude::*;

verus! {

/// Whether a result is anything but a question about doubles.
pub open spec fn settled<T>(r: Result<T, Fault>) -> bool {
    !(r matches Err(Fault::Pending(_)))
}

/// The text of a value that can be displayed stays the same when the table
/// learns more.
pub proof fn lemma_render_settled(e: Sexp, facts: FloatFactsView, more: FloatFactsView)
    requires
        more.extends(facts),
        render(e, facts) is Ok,
    ensures
        render(e, more) == render(e, facts),
    decreases e, 0nat,
{
    match e {
        Sexp::Quote(x) => lemma_render_settled(*x, facts, more),
        Sexp::Unquote(x) => lemma_render_settled(*x, facts, more),
        Sexp::Quasiquote(x) => lemma_render_settled(*x, facts, more),
        Sexp::Pair(head, tail) => {
            lemma_render_settled(*head, facts, more);
            lemma_render_rest_settled(*tail, facts, more);
        },
        _ => {},
    }
}

/// The same for what follows the first item of a list.
pub proof fn lemma_render_rest_settled(e: Sexp, facts: FloatFactsView, more: FloatFactsView)
    requires
        more.extends(facts),
        render_rest(e, facts) is Ok,
    ensures
        render_rest(e, more) == render_rest(e, facts),
    decreases e, 1nat,
{
    match e {
        Sexp::Pair(head, tail) => {
            lemma_render_settled(*head, facts, more);
            lemma_render_rest_settled(*tail, facts, more);
        },
        Sexp::Nil => {},
        _ => lemma_render_settled(e, facts, more),
    }
}

/// The same for the text that `print` and `str` use.
pub proof fn lemma_plain_settled(e: Sexp, facts: FloatFactsView, more: FloatFactsView)
    requires
        more.extends(facts),
        plain(e, facts) is Ok,
    ensures
        plain(e, more) == plain(e, facts),
{
    if !(e is Text) {
        lemma_render_settled(e, facts, more);
    }
}

/// What a primitive of two operands gives without waiting stays the same
/// when the table learns more.
pub proof fn lemma_binary_op_settled(
    op: Binary,
    a: Sexp,
    b: Sexp,
    facts: FloatFactsView,
    more: FloatFactsView,
)
    requires
        more.extends(facts),
        settled(binary(op, a, b, facts)),
    ensures
        binary(op, a, b, more) == binary(op, a, b, facts),
{
    if op == Binary::Str {
        if plain(a, facts) is Ok {
            lemma_plain_settled(a, facts, more);
            if plain(b, facts) is Ok {
                lemma_plain_settled(b, facts, more);
            }
        }
    }
}

/// What a primitive of one operand gives without waiting stays the same
/// when the table learns more.
pub proof fn lemma_unary_op_settled(
    op: Unary,
    v: Sexp,
    store: Store,
    facts: FloatFactsView,
    more: FloatFactsView,
)
    requires
        more.extends(facts),
        settled(unary(op, v, store, facts).result),
    ensures
        unary(op, v, store, more) == unary(op, v, store, facts),
{
    if op == Unary::Print {
        lemma_plain_settled(v, facts, more);
    }
    if op == Unary::PrintDebug {
        lemma_render_settled(v, facts, more);
    }
}

/// An evaluation that does not wait for a fact ends in the same way under
/// every table that knows more.
pub proof fn law_eval_settled(
    e: Sexp,
    env: Bindings,
    store: Store,
    facts: FloatFactsView,
    more: FloatFactsView,
    fuel: nat,
)
    requires
        more.extends(facts),
        settled(eval(e, env, store, facts, fuel).result),
    ensures
        eval(e, env, store, more, fuel) == eval(e, env, store, facts, fuel),
    decreases fuel,
{
    if fuel > 0 {
        let f = (fuel - 1) as nat;
        match e {
            Sexp::Quasiquote(x) => lemma_quasi_settled(*x, env, store, facts, more, f),
            Sexp::Pair(head, args) => lemma_apply_settled(*head, *args, env, store, facts, more, f),
            _ => {},
        }
    }
}

/// The same for a quasiquoted structure.
pub proof fn lemma_quasi_settled(
    e: Sexp,
    env: Bindings,
    store: Store,
    facts: FloatFactsView,
    more: FloatFactsView,
    fuel: nat,
)
    requires
        more.extends(facts),
        settled(quasi(e, env, store, facts, fuel).result),
    ensures
        quasi(e, env, store, more, fuel) == quasi(e, env, store, facts, fuel),
    decreases fuel,
{
    if fuel > 0 {
        let f = (fuel - 1) as nat;
        match e {
            Sexp::Unquote(x) => law_eval_settled(*x, env, store, facts, more, f),
            Sexp::Pair(head, tail) => {
                let first = quasi(*head, env, store, facts, f);
                lemma_quasi_settled(*head, env, store, facts, more, f);
                if first.result is Ok {
                    lemma_quasi_settled(*tail, env, first.store, facts, more, f);
                }
            },
            _ => {},
        }
    }
}

/// The same for a list.
proof fn lemma_apply_settled(
    head: Sexp,
    args: Sexp,
    env: Bindings,
    store: Store,
    facts: FloatFactsView,
    more: FloatFactsView,
    fuel: nat,
)
    requires
        more.extends(facts),
        settled(apply(head, args, env, store, facts, fuel).result),
    ensures
        apply(head, args, env, store, more, fuel) == apply(head, args, env, store, facts, fuel),
    decreases fuel,
{
    if fuel > 0 {
        let f = (fuel - 1) as nat;
        match head {
            Sexp::Ident(name) => match form_of(name) {
                Some(Form::If) => lemma_if_settled(args, env, store, facts, more, f),
                Some(Form::Def) => lemma_def_settled(args, env, store, facts, more, f),
                Some(Form::Lambda) => {},
                Some(Form::Defmacro) => {},
                Some(Form::Eval) => lemma_eval_form_settled(args, env, store, facts, more, f),
                Some(Form::Unary(op)) => lemma_unary_settled(op, args, env, store, facts, more, f),
                Some(Form::Binary(op)) => lemma_binary_settled(
                    op,
                    args,
                    env,
                    store,
                    facts,
                    more,
                    f,
                ),
                None => match lookup(name, env, store.globals) {
                    Some(v) => lemma_apply_settled(v, args, env, store, facts, more, f),
                    None => {},
                },
            },
            Sexp::Closure(name, params, body, captured) => lemma_call_settled(
                name,
                *params,
                *body,
                captured,
                args,
                env,
                store,
                facts,
                more,
                f,
            ),
            Sexp::Macro(params, body) => lemma_expand_settled(
                *params,
                *body,
                args,
                env,
                store,
                facts,
                more,
                f,
            ),
            Sexp::Pair(_, _) => {
                let first = eval(head, env, store, facts, f);
                law_eval_settled(head, env, store, facts, more, f);
                match first.result {
                    Ok(v) => lemma_apply_settled(v, args, env, first.store, facts, more, f),
                    Err(_) => {},
                }
            },
            _ => {},
        }
    }
}

/// The same for `if`.
proof fn lemma_if_settled(
    args: Sexp,
    env: Bindings,
    store: Store,
    facts: FloatFactsView,
    more: FloatFactsView,
    fuel: nat,
)
    requires
        more.extends(facts),
        settled(form_if(args, env, store, facts, fuel).result),
    ensures
        form_if(args, env, store, more, fuel) == form_if(args, env, store, facts, fuel),
    decreases fuel,
{
    if fuel > 0 {
        let f = (fuel - 1) as nat;
        match three(args) {
            None => {},
            Some((p, a, b)) => {
                let test = eval(p, env, store, facts, f);
                law_eval_settled(p, env, store, facts, more, f);
                match test.result {
                    Err(_) => {},
                    Ok(v) => {
                        if v is Nil {
                            law_eval_settled(b, env, test.store, facts, more, f);
                        } else {
                            law_eval_settled(a, env, test.store, facts, more, f);
                        }
                    },
                }
            },
        }
    }
}

/// The same for `def`.
proof fn lemma_def_settled(
    args: Sexp,
    env: Bindings,
    store: Store,
    facts: FloatFactsView,
    more: FloatFactsView,
    fuel: nat,
)
    requires
        more.extends(facts),
        settled(form_def(args, env, store, facts, fuel).result),
    ensures
        form_def(args, env, store, more, fuel) == form_def(args, env, store, facts, fuel),
    decreases fuel,
{
    if fuel > 0 {
        let f = (fuel - 1) as nat;
        match two(args) {
            Some((Sexp::Ident(name), value)) => {
                if !reserved(name) {
                    law_eval_settled(value, env, store, facts, more, f);
                }
            },
            _ => {},
        }
    }
}

/// The same for `eval`.
proof fn lemma_eval_form_settled(
    args: Sexp,
    env: Bindings,
    store: Store,
    facts: FloatFactsView,
    more: FloatFactsView,
    fuel: nat,
)
    requires
        more.extends(facts),
        settled(form_eval(args, env, store, facts, fuel).result),
    ensures
        form_eval(args, env, store, more, fuel) == form_eval(args, env, store, facts, fuel),
    decreases fuel,
{
    if fuel > 0 {
        let f = (fuel - 1) as nat;
        match one(args) {
            None => {},
            Some(x) => {
                let first = eval(x, env, store, facts, f);
                law_eval_settled(x, env, store, facts, more, f);
                match first.result {
                    Ok(v) => law_eval_settled(v, env, first.store, facts, more, f),
                    Err(_) => {},
                }
            },
        }
    }
}

/// The same for a primitive of one operand.
proof fn lemma_unary_settled(
    op: Unary,
    args: Sexp,
    env: Bindings,
    store: Store,
    facts: FloatFactsView,
    more: FloatFactsView,
    fuel: nat,
)
    requires
        more.extends(facts),
        settled(form_unary(op, args, env, store, facts, fuel).result),
    ensures
        form_unary(op, args, env, store, more, fuel) == form_unary(
            op,
            args,
            env,
            store,
            facts,
            fuel,
        ),
    decreases fuel,
{
    if fuel > 0 {
        let f = (fuel - 1) as nat;
        match one(args) {
            None => {},
            Some(x) => {
                let o = eval(x, env, store, facts, f);
                law_eval_settled(x, env, store, facts, more, f);
                match o.result {
                    Ok(v) => lemma_unary_op_settled(op, v, o.store, facts, more),
                    Err(_) => {},
                }
            },
        }
    }
}

/// The same for a primitive of two operands.
proof fn lemma_binary_settled(
    op: Binary,
    args: Sexp,
    env: Bindings,
    store: Store,
    facts: FloatFactsView,
    more: FloatFactsView,
    fuel: nat,
)
    requires
        more.extends(facts),
        settled(form_binary(op, args, env, store, facts, fuel).result),
    ensures
        form_binary(op, args, env, store, more, fuel) == form_binary(
            op,
            args,
            env,
            store,
            facts,
            fuel,
        ),
    decreases fuel,
{
    if fuel > 0 {
        let f = (fuel - 1) as nat;
        match two(args) {
            None => {},
            Some((x, y)) => {
                let first = eval(x, env, store, facts, f);
                law_eval_settled(x, env, store, facts, more, f);
                match first.result {
                    Ok(a) => {
                        let second = eval(y, env, first.store, facts, f);
                        law_eval_settled(y, env, first.store, facts, more, f);
                        match second.result {
                            Ok(b) => lemma_binary_op_settled(op, a, b, facts, more),
                            Err(_) => {},
                        }
                    },
                    Err(_) => {},
                }
            },
        }
    }
}

/// The same for the call of a closure.
proof fn lemma_call_settled(
    name: Option<Seq<char>>,
    params: Sexp,
    body: Sexp,
    captured: Option<Bindings>,
    args: Sexp,
    env: Bindings,
    store: Store,
    facts: FloatFactsView,
    more: FloatFactsView,
    fuel: nat,
)
    requires
        more.extends(facts),
        settled(call(name, params, body, captured, args, env, store, facts, fuel).result),
    ensures
        call(name, params, body, captured, args, env, store, more, fuel) == call(
            name,
            params,
            body,
            captured,
            args,
            env,
            store,
            facts,
            fuel,
        ),
    decreases fuel,
{
    if fuel > 0 {
        let f = (fuel - 1) as nat;
        match call_frame(name, params, body, captured) {
            Err(_) => {},
            Ok(base) => {
                let bound = bind(params, args, false, base, env, store, facts, f);
                lemma_bind_settled(params, args, false, base, env, store, facts, more, f);
                match bound.result {
                    Err(_) => {},
                    Ok(frame) => law_eval_settled(body, frame, bound.store, facts, more, f),
                }
            },
        }
    }
}

/// The same for the expansion of a macro.
proof fn lemma_expand_settled(
    params: Sexp,
    body: Sexp,
    args: Sexp,
    env: Bindings,
    store: Store,
    facts: FloatFactsView,
    more: FloatFactsView,
    fuel: nat,
)
    requires
        more.extends(facts),
        settled(expand(params, body, args, env, store, facts, fuel).result),
    ensures
        expand(params, body, args, env, store, more, fuel) == expand(
            params,
            body,
            args,
            env,
            store,
            facts,
            fuel,
        ),
    decreases fuel,
{
    if fuel > 0 {
        let f = (fuel - 1) as nat;
        let bound = bind(params, args, true, Map::empty(), env, store, facts, f);
        lemma_bind_settled(params, args, true, Map::empty(), env, store, facts, more, f);
        match bound.result {
            Err(_) => {},
            Ok(frame) => {
                let expansion = eval(body, frame, bound.store, facts, f);
                law_eval_settled(body, frame, bound.store, facts, more, f);
                match expansion.result {
                    Err(_) => {},
                    Ok(code) => law_eval_settled(code, env, expansion.store, facts, more, f),
                }
            },
        }
    }
}

/// The same for the binding of arguments.
pub proof fn lemma_bind_settled(
    params: Sexp,
    args: Sexp,
    is_macro: bool,
    frame: Bindings,
    caller: Bindings,
    store: Store,
    facts: FloatFactsView,
    more: FloatFactsView,
    fuel: nat,
)
    requires
        more.extends(facts),
        settled(bind(params, args, is_macro, frame, caller, store, facts, fuel).result),
    ensures
        bind(params, args, is_macro, frame, caller, store, more, fuel) == bind(
            params,
            args,
            is_macro,
            frame,
            caller,
            store,
            facts,
            fuel,
        ),
    decreases fuel,
{
    if fuel > 0 {
        let f = (fuel - 1) as nat;
        match params {
            Sexp::Pair(param, rest_params) => match catch_all(params) {
                Some((Sexp::Ident(rest), Sexp::Nil)) => {
                    if !reserved(rest) && !is_macro {
                        lemma_eval_all_settled(args, caller, store, facts, more, f);
                    }
                },
                Some(_) => {},
                None => match (args, *param) {
                    (Sexp::Pair(arg, others), Sexp::Ident(name)) => {
                        if !reserved(name) {
                            if is_macro {
                                lemma_bind_settled(
                                    *rest_params,
                                    *others,
                                    is_macro,
                                    frame.insert(name, *arg),
                                    caller,
                                    store,
                                    facts,
                                    more,
                                    f,
                                );
                            } else {
                                let o = eval(*arg, caller, store, facts, f);
                                law_eval_settled(*arg, caller, store, facts, more, f);
                                match o.result {
                                    Err(_) => {},
                                    Ok(v) => lemma_bind_settled(
                                        *rest_params,
                                        *others,
                                        is_macro,
                                        frame.insert(name, v),
                                        caller,
                                        o.store,
                                        facts,
                                        more,
                                        f,
                                    ),
                                }
                            }
                        }
                    },
                    _ => {},
                },
            },
            _ => {},
        }
    }
}

/// The same for a list of arguments.
proof fn lemma_eval_all_settled(
    list: Sexp,
    env: Bindings,
    store: Store,
    facts: FloatFactsView,
    more: FloatFactsView,
    fuel: nat,
)
    requires
        more.extends(facts),
        settled(eval_all(list, env, store, facts, fuel).result),
    ensures
        eval_all(list, env, store, more, fuel) == eval_all(list, env, store, facts, fuel),
    decreases fuel,
{
    if fuel > 0 {
        let f = (fuel - 1) as nat;
        match list {
            Sexp::Pair(item, rest) => {
                let first = eval(*item, env, store, facts, f);
                law_eval_settled(*item, env, store, facts, more, f);
                match first.result {
                    Err(_) => {},
                    Ok(v) => lemma_eval_all_settled(*rest, env, first.store, facts, more, f),
                }
            },
            _ => {},
        }
    }
}

/// Whether reading ended otherwise than with a question about a literal.
pub open spec fn read_settled<T>(r: Result<T, ReadErrorView>) -> bool {
    !(r matches Err(ReadErrorView::Literal(_)))
}

/// A token that the lexer finds without waiting stays the same when the
/// table learns more.
pub proof fn lemma_lex_one_settled(
    s: Seq<char>,
    pos: int,
    facts: FloatFactsView,
    more: FloatFactsView,
)
    requires
        more.extends(facts),
        !(lex_one(s, pos, facts) matches Lexed::Fail(ReadErrorView::Literal(_))),
    ensures
        lex_one(s, pos, more) == lex_one(s, pos, facts),
    decreases s.len() - pos,
{
    if 0 <= pos < s.len() && crate::lexer::is_space(s[pos]) {
        lemma_lex_one_settled(s, pos + 1, facts, more);
    }
}

/// The tokens that the lexer finds without waiting stay the same when the
/// table learns more.
pub proof fn lemma_lex_all_settled(
    s: Seq<char>,
    pos: int,
    facts: FloatFactsView,
    more: FloatFactsView,
)
    requires
        more.extends(facts),
        read_settled(lex_all(s, pos, facts)),
    ensures
        lex_all(s, pos, more) == lex_all(s, pos, facts),
    decreases s.len() - pos,
{
    lemma_lex_one_settled(s, pos, facts, more);
    match lex_one(s, pos, facts) {
        Lexed::Token(_, next) => {
            if pos < next <= s.len() {
                lemma_lex_all_settled(s, next, facts, more);
            }
        },
        _ => {},
    }
}

/// The forms that are read from a text without waiting stay the same when
/// the table learns more.
pub proof fn law_read_settled(s: Seq<char>, facts: FloatFactsView, more: FloatFactsView)
    requires
        more.extends(facts),
        read_settled(read_text(s, facts)),
    ensures
        read_text(s, more) == read_text(s, facts),
{
    lemma_lex_all_settled(s, 0, facts, more);
}

/// A table that learns the answer to a question that it could not answer
/// knows all that it knew before.
pub proof fn law_learning_extends(
    facts: FloatFactsView,
    q: crate::float::FloatQuery,
    bits: u64,
    shown: u64,
    text: Seq<char>,
    literal: Seq<char>,
    value: Option<u64>,
)
    ensures
        facts.number(q) is None ==> facts.with_number(q, bits).extends(facts),
        facts.text(shown) is None ==> facts.with_text(shown, text).extends(facts),
        facts.literal(literal) is None ==> facts.with_literal(literal, value).extends(facts),
{
}

} // verus!
