//! The unit of evaluation state: the current expression, the two tiers of
//! bindings, the error state, what is known about doubles, what has been
//! printed, and how deep an evaluation may nest.
//!
//! A context is a value. Every operation takes one and gives a new one; none
//! changes the one it was given.
use crate::eval::eval_in;
use crate::expr::{Env, Expr, Sexp};
use crate::fault::{ErrorKind, Fault};
use crate::float::{FloatFacts, FloatFactsView, FloatQuery};
use crate::form::{is_reserved_ident, reserved};
use crate::known::law_eval_settled;
use crate::prim::{lines, World};
use crate::semantics::{eval, lookup, Bindings, Store};
use crate::text::share;
use crate::unit::{Asker, FloatUnit, NoUnit};
use std::rc::Rc;
use vstd::prelude::*;

verus! {

/// The depth to which a new context lets an evaluation nest: enough for
/// about ten thousand calls inside one another. An evaluation that goes as
/// deep needs a stack of some twenty megabytes; on a smaller stack take a
/// smaller depth (see `with_depth`).
pub const DEFAULT_DEPTH: usize = 100_000;

/// The state of an evaluation.
#[derive(Debug)]
pub struct Context {
    /// The current expression: what is to be evaluated, or the value.
    pub expr: Rc<Expr>,
    /// The local bindings.
    pub env: Env,
    /// The global bindings.
    pub global_env: Env,
    /// Why the last step gave no value, if it gave none.
    pub error: Option<Fault>,
    /// What is known about doubles.
    pub floats: FloatFacts,
    /// What has been printed and not yet taken out, oldest first.
    pub output: Vec<String>,
    /// How deep an evaluation may nest.
    pub depth: usize,
}

/// The model of a context.
pub ghost struct ContextView {
    pub expr: Sexp,
    pub env: Bindings,
    pub globals: Bindings,
    pub error: Option<Fault>,
    pub floats: FloatFactsView,
    pub output: Seq<Seq<char>>,
    pub depth: nat,
}

impl View for Context {
    type V = ContextView;

    open spec fn view(&self) -> ContextView {
        ContextView {
            expr: self.expr@,
            env: self.env@,
            globals: self.global_env@,
            error: self.error,
            floats: self.floats@,
            output: lines(self.output@),
            depth: self.depth as nat,
        }
    }
}

impl ContextView {
    /// The context that carries a failure: its expression is `Nil`.
    pub open spec fn failed(self, fault: Fault) -> ContextView {
        ContextView { expr: Sexp::Nil, error: Some(fault), ..self }
    }

    /// The context after the evaluation of its expression. A context that
    /// carries an error stays as it is. On a fault the expression is `Nil`;
    /// what the evaluation bound globally and printed before the fault stays.
    pub open spec fn evaluated(self) -> ContextView {
        if self.error is Some {
            self
        } else {
            let o = eval(
                self.expr,
                self.env,
                Store { globals: self.globals, output: self.output },
                self.floats,
                self.depth,
            );
            ContextView {
                expr: match o.result {
                    Ok(v) => v,
                    Err(_) => Sexp::Nil,
                },
                error: match o.result {
                    Ok(_) => None,
                    Err(f) => Some(f),
                },
                globals: o.store.globals,
                output: o.store.output,
                ..self
            }
        }
    }

    /// The context after the evaluation of a top-level form: it is evaluated
    /// without local bindings.
    pub open spec fn evaluated_form(self, form: Sexp) -> ContextView {
        if self.error is Some {
            self
        } else {
            (ContextView { expr: form, env: Map::empty(), ..self }).evaluated()
        }
    }

    /// The context after the evaluation of a sequence of top-level forms, one
    /// after the other, up to the first that gives no value.
    pub open spec fn evaluated_forms(self, forms: Seq<Sexp>) -> ContextView
        decreases forms.len(),
    {
        if forms.len() == 0 {
            self
        } else {
            let next = self.evaluated_form(forms[0]);
            if next.error is Some {
                next
            } else {
                next.evaluated_forms(forms.drop_first())
            }
        }
    }
}

/// The forms of a sequence and then one more: the one more is evaluated
/// where the others gave values.
pub proof fn lemma_forms_push(c: ContextView, forms: Seq<Sexp>, last: Sexp)
    ensures
        c.evaluated_forms(forms.push(last)) == if c.evaluated_forms(forms).error is Some {
            c.evaluated_forms(forms)
        } else {
            c.evaluated_forms(forms).evaluated_form(last)
        },
    decreases forms.len(),
{
    let longer = forms.push(last);
    if forms.len() == 0 {
        assert(longer.drop_first() =~= Seq::<Sexp>::empty());
        assert(longer[0] == last);
        let next = c.evaluated_form(last);
        assert(next.evaluated_forms(Seq::<Sexp>::empty()) == next);
        assert(c.evaluated_forms(forms) == c);
    } else {
        assert(longer[0] == forms[0]);
        let next = c.evaluated_form(forms[0]);
        assert(longer.drop_first() =~= forms.drop_first().push(last));
        if next.error is None {
            lemma_forms_push(next, forms.drop_first(), last);
        }
    }
}

/// Evaluation stops behind the first form that gives no value: the forms
/// behind it change nothing.
pub proof fn lemma_forms_stop(c: ContextView, forms: Seq<Sexp>, n: int)
    requires
        0 <= n <= forms.len(),
        c.evaluated_forms(forms.take(n)).error is Some,
    ensures
        c.evaluated_forms(forms) == c.evaluated_forms(forms.take(n)),
    decreases forms.len() - n,
{
    if n < forms.len() {
        assert(forms.take(n + 1) =~= forms.take(n).push(forms[n]));
        lemma_forms_push(c, forms.take(n), forms[n]);
        lemma_forms_stop(c, forms, n + 1);
    } else {
        assert(forms.take(n) =~= forms);
    }
}

/// Forms that all gave values give the same values in a context that knows
/// more about doubles.
pub proof fn lemma_forms_settled(c: ContextView, forms: Seq<Sexp>, more: FloatFactsView)
    requires
        more.extends(c.floats),
        c.evaluated_forms(forms).error is None,
    ensures
        (ContextView { floats: more, ..c }).evaluated_forms(forms) == (ContextView {
            floats: more,
            ..c.evaluated_forms(forms)
        }),
    decreases forms.len(),
{
    if forms.len() > 0 {
        let next = c.evaluated_form(forms[0]);
        if c.error is None {
            law_eval_settled(
                forms[0],
                Map::empty(),
                Store { globals: c.globals, output: c.output },
                c.floats,
                more,
                c.depth,
            );
            lemma_forms_settled(next, forms.drop_first(), more);
        }
    }
}

/// A copy of a list of strings.
pub fn copy_lines(v: &Vec<String>) -> (r: Vec<String>)
    ensures
        r@ == v@,
{
    let mut out: Vec<String> = Vec::new();
    let mut i: usize = 0;
    while i < v.len()
        invariant
            i <= v.len(),
            out@ == v@.subrange(0, i as int),
        decreases v.len() - i,
    {
        out.push(v[i].clone());
        i += 1;
    }
    assert(out@ == v@);
    out
}

/// The models of a list of forms.
pub open spec fn form_views(forms: Seq<Rc<Expr>>) -> Seq<Sexp> {
    Seq::new(forms.len(), |i: int| forms[i]@)
}

impl Context {
    /// The context of a fresh interpreter: the expression is `Nil`, nothing
    /// is bound, nothing is known about doubles, nothing has been printed.
    pub fn new() -> (r: Context)
        ensures
            r@.expr == Sexp::Nil,
            r@.env == Map::<Seq<char>, Sexp>::empty(),
            r@.globals == Map::<Seq<char>, Sexp>::empty(),
            r@.error is None,
            r@.floats == FloatFactsView::empty(),
            r@.output == Seq::<Seq<char>>::empty(),
            r@.depth == DEFAULT_DEPTH,
    {
        let c = Context {
            expr: Rc::new(Expr::Nil),
            env: Env::new(),
            global_env: Env::new(),
            error: None,
            floats: FloatFacts::new(),
            output: Vec::new(),
            depth: DEFAULT_DEPTH,
        };
        assert(lines(c.output@) =~= Seq::<Seq<char>>::empty());
        c
    }

    /// A copy of the context that shares its expressions.
    pub fn duplicate(&self) -> (r: Context)
        ensures
            r@ == self@,
    {
        Context {
            expr: share(&self.expr),
            env: self.env.duplicate(),
            global_env: self.global_env.duplicate(),
            error: self.error,
            floats: self.floats.duplicate(),
            output: copy_lines(&self.output),
            depth: self.depth,
        }
    }

    /// The context with the failure `fault` and the expression `Nil`.
    pub fn fail(&self, fault: Fault) -> (r: Context)
        ensures
            r@ == self@.failed(fault),
    {
        let mut c = self.duplicate();
        c.expr = Rc::new(Expr::Nil);
        c.error = Some(fault);
        c
    }

    /// Whether the context carries an error or waits for a fact.
    pub fn has_error(&self) -> (r: bool)
        ensures
            r == (self@.error is Some),
    {
        self.error.is_some()
    }

    /// The question about doubles that the context waits for, if it waits.
    pub fn pending(&self) -> (r: Option<FloatQuery>)
        ensures
            r == match self@.error {
                Some(Fault::Pending(q)) => Some(q),
                _ => None,
            },
    {
        match self.error {
            Some(Fault::Pending(q)) => Some(q),
            _ => None,
        }
    }

    /// The context without its error.
    pub fn recover(&self) -> (r: Context)
        ensures
            r@ == (ContextView { error: None, ..self@ }),
    {
        let mut c = self.duplicate();
        c.error = None;
        c
    }

    /// The context that lets an evaluation nest to `depth`.
    pub fn with_depth(&self, depth: usize) -> (r: Context)
        ensures
            r@ == (ContextView { depth: depth as nat, ..self@ }),
    {
        let mut c = self.duplicate();
        c.depth = depth;
        c
    }

    /// The context with another current expression.
    pub fn set_expr(&self, expr: Expr) -> (r: Context)
        ensures
            r@ == (ContextView { expr: expr@, ..self@ }),
    {
        let mut c = self.duplicate();
        c.expr = Rc::new(expr);
        c
    }

    /// The context with another current expression, which it shares.
    pub fn set_rcexpr(&self, expr: Rc<Expr>) -> (r: Context)
        ensures
            r@ == (ContextView { expr: expr@, ..self@ }),
    {
        let mut c = self.duplicate();
        c.expr = expr;
        c
    }

    /// The context whose expression is the value of `ident`, looked up
    /// locally, then globally; the failure `UnboundIdentifier` where it is
    /// bound in neither tier.
    pub fn lookup(&self, ident: &String) -> (r: Context)
        ensures
            r@ == match lookup(ident@, self@.env, self@.globals) {
                Some(v) => ContextView { expr: v, ..self@ },
                None => self@.failed(Fault::Error(ErrorKind::UnboundIdentifier)),
            },
    {
        match self.env.get(ident.as_str()) {
            Some(v) => self.set_rcexpr(v),
            None => match self.global_env.get(ident.as_str()) {
                Some(v) => self.set_rcexpr(v),
                None => self.fail(Fault::Error(ErrorKind::UnboundIdentifier)),
            },
        }
    }

    /// A context with a local environment of its own, so that a binding
    /// added to it does not show in `self`.
    pub fn dup_env(&self) -> (r: Context)
        ensures
            r@ == self@,
    {
        self.duplicate()
    }

    /// The context with one more local binding; the failure
    /// `ReservedIdentifier`, with the bindings as they were, where `ident` is
    /// reserved.
    pub fn add_env(&self, ident: String, expr: Rc<Expr>) -> (r: Context)
        ensures
            r@ == if reserved(ident@) {
                self@.failed(Fault::Error(ErrorKind::ReservedIdentifier))
            } else {
                ContextView { env: self@.env.insert(ident@, expr@), ..self@ }
            },
    {
        if is_reserved_ident(ident.as_str()) {
            self.fail(Fault::Error(ErrorKind::ReservedIdentifier))
        } else {
            let mut c = self.dup_env();
            c.env.insert(ident, expr);
            c
        }
    }

    /// The context with one more global binding; the failure
    /// `ReservedIdentifier`, with the bindings as they were, where `ident` is
    /// reserved.
    pub fn add_global(&self, ident: String, expr: Rc<Expr>) -> (r: Context)
        ensures
            r@ == if reserved(ident@) {
                self@.failed(Fault::Error(ErrorKind::ReservedIdentifier))
            } else {
                ContextView { globals: self@.globals.insert(ident@, expr@), ..self@ }
            },
    {
        if is_reserved_ident(ident.as_str()) {
            self.fail(Fault::Error(ErrorKind::ReservedIdentifier))
        } else {
            let mut c = self.duplicate();
            c.global_env.insert(ident, expr);
            c
        }
    }

    /// Evaluates the current expression with what the context knows about
    /// doubles.
    pub fn eval(&self) -> (r: Context)
        ensures
            r@ == self@.evaluated(),
    {
        self.eval_with(&NoUnit, 0)
    }

    /// Evaluates the current expression and asks the unit for what the
    /// evaluation needs to know about doubles and the context does not know,
    /// up to `rounds` times. The result is the evaluation of the context
    /// under what is known in the end; it waits for a fact only where all
    /// the questions have been asked.
    pub fn eval_with<U: FloatUnit>(&self, unit: &U, rounds: usize) -> (r: Context)
        ensures
            r@ == (ContextView { floats: r@.floats, ..self@ }).evaluated(),
            r@.floats.extends(self@.floats),
            self@.floats.recorded <= r@.floats.recorded <= self@.floats.recorded + rounds,
            r@.floats.recorded == self@.floats.recorded ==> r@.floats == self@.floats,
            self@.error is None && (r@.error matches Some(Fault::Pending(_)))
                ==> r@.floats.recorded == self@.floats.recorded + rounds,
    {
        if self.error.is_some() {
            return self.duplicate();
        }
        let mut world = World {
            globals: self.global_env.duplicate(),
            output: copy_lines(&self.output),
        };
        let mut k = Asker { facts: self.floats.duplicate(), unit, left: rounds };
        let result = eval_in(&self.expr, &self.env, &mut world, &mut k, self.depth);
        let (expr, error) = match result {
            Ok(v) => (v, None),
            Err(f) => (Rc::new(Expr::Nil), Some(f)),
        };
        Context {
            expr,
            env: self.env.duplicate(),
            global_env: world.globals,
            error,
            floats: k.facts,
            output: world.output,
            depth: self.depth,
        }
    }

    /// Evaluates a top-level form: without local bindings.
    pub fn eval_expr(&self, expr: Rc<Expr>) -> (r: Context)
        ensures
            r@ == self@.evaluated_form(expr@),
    {
        self.eval_expr_with(expr, &NoUnit, 0)
    }

    /// Evaluates a top-level form, without local bindings, and asks the unit
    /// for what the evaluation needs to know about doubles, up to `rounds`
    /// times.
    pub fn eval_expr_with<U: FloatUnit>(&self, expr: Rc<Expr>, unit: &U, rounds: usize) -> (r:
        Context)
        ensures
            r@ == (ContextView { floats: r@.floats, ..self@ }).evaluated_form(expr@),
            r@.floats.extends(self@.floats),
            self@.floats.recorded <= r@.floats.recorded <= self@.floats.recorded + rounds,
            r@.floats.recorded == self@.floats.recorded ==> r@.floats == self@.floats,
            self@.error is None && (r@.error matches Some(Fault::Pending(_)))
                ==> r@.floats.recorded == self@.floats.recorded + rounds,
    {
        if self.error.is_some() {
            return self.duplicate();
        }
        let mut c = self.duplicate();
        c.env = Env::new();
        c.expr = expr;
        c.eval_with(unit, rounds)
    }

    /// Evaluates top-level forms one after the other, asks the unit for what
    /// the evaluation needs to know about doubles, up to `rounds` times for
    /// each form, and stops behind the first form that gives no value. The
    /// result is the evaluation of the forms under what is known in the end.
    pub fn eval_forms_with<U: FloatUnit>(
        &self,
        forms: &Vec<Rc<Expr>>,
        unit: &U,
        rounds: usize,
    ) -> (r: Context)
        ensures
            r@ == (ContextView { floats: r@.floats, ..self@ }).evaluated_forms(form_views(forms@)),
            r@.floats.extends(self@.floats),
            rounds == 0 ==> r@.floats == self@.floats,
    {
        let mut c = self.duplicate();
        if self.error.is_some() {
            return c;
        }
        let ghost all = form_views(forms@);
        let mut i: usize = 0;
        assert(all.take(0) =~= Seq::<Sexp>::empty());
        while i < forms.len()
            invariant
                i <= forms.len(),
                all == form_views(forms@),
                c@.error is None,
                c@ == (ContextView { floats: c@.floats, ..self@ }).evaluated_forms(
                    all.take(i as int),
                ),
                c@.floats.extends(self@.floats),
                rounds == 0 ==> c@.floats == self@.floats,
            decreases forms.len() - i,
        {
            let next = c.eval_expr_with(share(&forms[i]), unit, rounds);
            proof {
                let before = ContextView { floats: c@.floats, ..self@ };
                let after = ContextView { floats: next@.floats, ..self@ };
                crate::float::lemma_extends_twice(next@.floats, c@.floats, self@.floats);
                lemma_forms_settled(before, all.take(i as int), next@.floats);
                assert(all.take(i + 1) =~= all.take(i as int).push(all[i as int]));
                lemma_forms_push(after, all.take(i as int), all[i as int]);
                if next@.error is Some {
                    lemma_forms_stop(after, all, i + 1);
                }
            }
            if next.has_error() {
                return next;
            }
            c = next;
            i += 1;
        }
        assert(all.take(forms.len() as int) =~= all);
        c
    }

    /// Evaluates top-level forms one after the other and stops behind the
    /// first that gives no value.
    pub fn eval_forms(&self, forms: &Vec<Rc<Expr>>) -> (r: Context)
        ensures
            r@ == self@.evaluated_forms(form_views(forms@)),
    {
        let mut c = self.duplicate();
        let mut i: usize = 0;
        assert(form_views(forms@).skip(0) == form_views(forms@));
        while i < forms.len()
            invariant
                i <= forms.len(),
                self@.evaluated_forms(form_views(forms@)) == c@.evaluated_forms(
                    form_views(forms@).skip(i as int),
                ),
            decreases forms.len() - i,
        {
            let ghost rest = form_views(forms@).skip(i as int);
            assert(rest[0] == forms@[i as int]@);
            assert(rest.drop_first() == form_views(forms@).skip(i + 1));
            let next = c.eval_expr(share(&forms[i]));
            if next.has_error() {
                return next;
            }
            c = next;
            i += 1;
        }
        c
    }
}

} // verus!
