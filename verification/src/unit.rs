//! Asking for what is not known about doubles.
//!
//! The embedding program answers the questions of the core through a
//! `FloatUnit`. An `Asker` holds the table of facts together with a unit
//! and the number of questions that may still be asked; the evaluator asks
//! through it on the way and records every answer. Nothing is assumed of
//! the answers: what is proved holds for every unit.
use crate::asks::{
    lemma_binary_op_asks, lemma_lex_asks, lemma_read_asks, lemma_render_asks, lemma_unary_op_asks,
};
use crate::context::form_views;
use crate::expr::{Expr, Sexp};
use crate::fault::Fault;
use crate::float::{lemma_extends_twice, FloatFacts, FloatQuery};
use crate::form::{Binary, Unary};
use crate::lexer::{lex_all, token_views, Lexer, ReadError, ReadErrorView, Token, TokenView};
use crate::prim::{apply_binary, apply_unary, result_view, World};
use crate::print::{render, render_expr};
use crate::read::{read_str, read_text};
use crate::semantics::{binary, unary};
use std::rc::Rc;
use vstd::prelude::*;

verus! {

/// What answers the questions about doubles.
pub trait FloatUnit {
    /// The pattern that answers a question about numbers: the result of an
    /// operation, or the double nearest to an integer.
    fn number(&self, q: FloatQuery) -> u64;

    /// The text that displays the double with pattern `bits`.
    fn text(&self, bits: u64) -> String;

    /// The pattern of the double that a literal stands for, if the text is a
    /// literal.
    fn literal(&self, text: &str) -> Option<u64>;
}

/// The unit that knows nothing and is meant never to be asked: to every
/// question it says the pattern 0, the empty text, or that there is no literal.
pub struct NoUnit;

impl FloatUnit for NoUnit {
    fn number(&self, _q: FloatQuery) -> (r: u64)
        ensures r == 0,
    { 0 }

    fn text(&self, _bits: u64) -> (r: String)
        ensures r@ == Seq::<char>::empty(),
    { String::new() }

    fn literal(&self, _text: &str) -> (r: Option<u64>)
        ensures r is None,
    { None }
}

/// Asks the unit a question and records the answer, in place of an answer
/// to the same question that was there before.
pub fn learn<U: FloatUnit>(facts: &mut FloatFacts, unit: &U, q: FloatQuery)
    ensures
        final(facts)@.knows(q),
        final(facts)@.recorded == old(facts)@.recorded + 1,
        !old(facts)@.knows(q) ==> final(facts)@.extends(old(facts)@),
        match q {
            FloatQuery::Render(bits) => exists|text: Seq<char>|
                final(facts)@ == #[trigger] old(facts)@.with_text(bits, text),
            _ => exists|bits: u64| final(facts)@ == #[trigger] old(facts)@.with_number(q, bits),
        },
{
    match q {
        FloatQuery::Render(bits) => {
            let text = unit.text(bits);
            facts.learn_text(bits, text);
        },
        _ => {
            let bits = unit.number(q);
            facts.learn_number(q, bits);
        },
    }
}

/// What is known about doubles, the unit that can be asked for more, and
/// how often it may still be asked.
pub struct Asker<'a, U: FloatUnit> {
    pub facts: FloatFacts,
    pub unit: &'a U,
    pub left: usize,
}

/// Whether `after` is what becomes of `before` by asking the unit: nothing is
/// forgotten, every question costs one of the questions that are left, and
/// where none was asked nothing has changed.
pub open spec fn asked<U: FloatUnit>(before: Asker<U>, after: Asker<U>) -> bool {
    &&& after.facts@.extends(before.facts@)
    &&& after.left <= before.left
    &&& after.facts@.recorded + after.left == before.facts@.recorded + before.left
    &&& after.left == before.left ==> after.facts@ == before.facts@
}

/// Whether a result waits for a fact only where no question is left.
pub open spec fn spent<U: FloatUnit, T>(r: Result<T, Fault>, after: Asker<U>) -> bool {
    (r matches Err(Fault::Pending(_))) ==> after.left == 0
}

/// Asking and then asking again is asking.
pub proof fn lemma_asked_twice<U: FloatUnit>(a: Asker<U>, b: Asker<U>, c: Asker<U>)
    requires
        asked(a, b),
        asked(b, c),
    ensures
        asked(a, c),
{
    lemma_extends_twice(c.facts@, b.facts@, a.facts@);
}

impl<'a, U: FloatUnit> Asker<'a, U> {
    /// Asks the unit the question `q`, which the table cannot answer, if a
    /// question is left.
    pub fn ask(&mut self, q: FloatQuery) -> (r: bool)
        requires
            !old(self).facts@.knows(q),
        ensures
            asked(*old(self), *final(self)),
            r == (old(self).left > 0),
            r ==> final(self).facts@.knows(q) && final(self).left == old(self).left - 1,
            !r ==> final(self).facts@ == old(self).facts@,
    {
        if self.left == 0 {
            false
        } else {
            learn(&mut self.facts, self.unit, q);
            self.left = self.left - 1;
            true
        }
    }

    /// What a primitive of two operands makes of two values, with the unit
    /// at hand for what the table lacks.
    pub fn binary(&mut self, op: Binary, a: &Rc<Expr>, b: &Rc<Expr>) -> (r: Result<Rc<Expr>, Fault>)
        ensures
            asked(*old(self), *final(self)),
            spent(r, *final(self)),
            result_view(r) == binary(op, a@, b@, final(self).facts@),
    {
        loop
            invariant
                asked(*old(self), *self),
            decreases self.left,
        {
            let ghost before = *self;
            let r = apply_binary(op, a, b, &self.facts);
            match r {
                Err(Fault::Pending(q)) => {
                    proof {
                        lemma_binary_op_asks(op, a@, b@, self.facts@, q);
                    }
                    if !self.ask(q) {
                        return r;
                    }
                    proof {
                        lemma_asked_twice(*old(self), before, *self);
                    }
                },
                _ => {
                    return r;
                },
            }
        }
    }

    /// What a primitive of one operand makes of a value and of the state,
    /// with the unit at hand for what the table lacks.
    pub fn unary(&mut self, op: Unary, v: &Rc<Expr>, world: &mut World) -> (r: Result<
        Rc<Expr>,
        Fault,
    >)
        ensures
            asked(*old(self), *final(self)),
            spent(r, *final(self)),
            ({
                let o = unary(op, v@, old(world)@, final(self).facts@);
                final(world)@ == o.store && result_view(r) == o.result
            }),
    {
        loop
            invariant
                asked(*old(self), *self),
                world@ == old(world)@,
            decreases self.left,
        {
            let ghost before = *self;
            let r = apply_unary(op, v, world, &self.facts);
            match r {
                Err(Fault::Pending(q)) => {
                    proof {
                        lemma_unary_op_asks(op, v@, old(world)@, self.facts@, q);
                    }
                    if !self.ask(q) {
                        return r;
                    }
                    proof {
                        lemma_asked_twice(*old(self), before, *self);
                    }
                },
                _ => {
                    return r;
                },
            }
        }
    }
}

/// Reads the forms of a text and asks the unit for the values of the
/// literals that `facts` lacks, up to `rounds` times. The result is what the
/// text reads as under what is known in the end.
pub fn read_str_with<U: FloatUnit>(s: &str, facts: &mut FloatFacts, unit: &U, rounds: usize) -> (r:
    Result<Vec<Rc<Expr>>, ReadError>)
    ensures
        match r {
            Ok(forms) => read_text(s@, final(facts)@) == Ok::<Seq<Sexp>, ReadErrorView>(
                form_views(forms@),
            ),
            Err(e) => read_text(s@, final(facts)@) == Err::<Seq<Sexp>, ReadErrorView>(e@),
        },
        final(facts)@.extends(old(facts)@),
        rounds == 0 ==> final(facts)@ == old(facts)@,
        final(facts)@.recorded <= old(facts)@.recorded + rounds,
        (r matches Err(ReadError::Literal(_))) ==> final(facts)@.recorded == old(facts)@.recorded
            + rounds,
{
    let mut left = rounds;
    loop
        invariant
            facts@.extends(old(facts)@),
            left <= rounds,
            left == rounds ==> facts@ == old(facts)@,
            facts@.recorded + left == old(facts)@.recorded + rounds,
        decreases left,
    {
        match read_str(s, facts) {
            Err(ReadError::Literal(text)) => {
                if left == 0 {
                    return Err(ReadError::Literal(text));
                }
                let ghost before = facts@;
                proof {
                    lemma_read_asks(s@, facts@, text@);
                }
                let value = unit.literal(text.as_str());
                facts.learn_literal(text, value);
                proof {
                    lemma_extends_twice(facts@, before, old(facts)@);
                }
                left -= 1;
            },
            other => {
                return other;
            },
        }
    }
}

/// Reads the tokens of a text and asks the unit for the values of the
/// literals that `facts` lacks, up to `rounds` times. The result is what the
/// text is made of under what is known in the end.
pub fn tokens_with<U: FloatUnit>(s: &str, facts: &mut FloatFacts, unit: &U, rounds: usize) -> (r:
    Result<Vec<Token>, ReadError>)
    ensures
        match r {
            Ok(tokens) => lex_all(s@, 0, final(facts)@) == Ok::<Seq<TokenView>, ReadErrorView>(
                token_views(tokens@),
            ),
            Err(e) => lex_all(s@, 0, final(facts)@) == Err::<Seq<TokenView>, ReadErrorView>(e@),
        },
        final(facts)@.extends(old(facts)@),
        rounds == 0 ==> final(facts)@ == old(facts)@,
        final(facts)@.recorded <= old(facts)@.recorded + rounds,
        (r matches Err(ReadError::Literal(_))) ==> final(facts)@.recorded == old(facts)@.recorded
            + rounds,
{
    let mut left = rounds;
    loop
        invariant
            facts@.extends(old(facts)@),
            left <= rounds,
            left == rounds ==> facts@ == old(facts)@,
            facts@.recorded + left == old(facts)@.recorded + rounds,
        decreases left,
    {
        let mut lexer = Lexer::new(s);
        assert(token_views(lexer.tokens@) =~= Seq::<TokenView>::empty());
        match lexer.tokenize(facts) {
            Ok(()) => {
                proof {
                    let ts = lex_all(s@, 0, facts@)->Ok_0;
                    assert(Seq::<TokenView>::empty() + ts =~= ts);
                }
                return Ok(lexer.tokens);
            },
            Err(ReadError::Literal(text)) => {
                if left == 0 {
                    return Err(ReadError::Literal(text));
                }
                let ghost before = facts@;
                proof {
                    lemma_lex_asks(s@, 0, facts@, text@);
                }
                let value = unit.literal(text.as_str());
                facts.learn_literal(text, value);
                proof {
                    lemma_extends_twice(facts@, before, old(facts)@);
                }
                left -= 1;
            },
            Err(ReadError::Parse) => {
                return Err(ReadError::Parse);
            },
        }
    }
}

/// The displayed text of an expression, with the texts of its doubles asked
/// from the unit where `facts` lacks them, up to `rounds` times.
pub fn render_with<U: FloatUnit>(e: &Expr, facts: &mut FloatFacts, unit: &U, rounds: usize) -> (r:
    Result<String, FloatQuery>)
    ensures
        match r {
            Ok(text) => render(e@, final(facts)@) == Ok::<Seq<char>, FloatQuery>(text@),
            Err(q) => render(e@, final(facts)@) == Err::<Seq<char>, FloatQuery>(q),
        },
        final(facts)@.extends(old(facts)@),
        rounds == 0 ==> final(facts)@ == old(facts)@,
        final(facts)@.recorded <= old(facts)@.recorded + rounds,
        r is Err ==> final(facts)@.recorded == old(facts)@.recorded + rounds,
{
    let mut left = rounds;
    loop
        invariant
            facts@.extends(old(facts)@),
            left <= rounds,
            left == rounds ==> facts@ == old(facts)@,
            facts@.recorded + left == old(facts)@.recorded + rounds,
        decreases left,
    {
        match render_expr(e, facts) {
            Err(q) => {
                if left == 0 {
                    return Err(q);
                }
                let ghost before = facts@;
                proof {
                    lemma_render_asks(e@, facts@, q);
                }
                learn(facts, unit, q);
                proof {
                    lemma_extends_twice(facts@, before, old(facts)@);
                }
                left -= 1;
            },
            Ok(text) => {
                return Ok(text);
            },
        }
    }
}

} // verus!
