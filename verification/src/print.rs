//! The text of an expression.
use crate::expr::{Expr, Sexp};
use crate::float::{FloatFacts, FloatFactsView, FloatQuery};
use crate::number::{int_text, render_int};
use crate::text::{push_char, to_chars};
use vstd::prelude::*;
use vstd::string::*;

verus! {

/// The text of `e` with `mark` in front of it.
pub open spec fn marked(mark: char, inner: Result<Seq<char>, FloatQuery>) -> Result<
    Seq<char>,
    FloatQuery,
> {
    match inner {
        Ok(t) => Ok(seq![mark] + t),
        Err(q) => Err(q),
    }
}

/// What stands for one character inside the quotes of a displayed string: a
/// backslash in front of a double quote and of a backslash, else the
/// character itself.
pub open spec fn escape(c: char) -> Seq<char> {
    if c == '"' || c == '\\' {
        seq!['\\', c]
    } else {
        seq![c]
    }
}

/// The characters of a string as they stand between the quotes of its
/// displayed text.
pub open spec fn escaped(s: Seq<char>) -> Seq<char>
    decreases s.len(),
{
    if s.len() == 0 {
        Seq::empty()
    } else {
        escape(s[0]) + escaped(s.drop_first())
    }
}

/// The text that displays an expression: atoms as their literal, strings in
/// double quotes, with a backslash in front of every double quote and
/// backslash in them, a list as its items between parentheses with one space
/// between two of them, closures and macros as a fixed word. The text of a
/// double comes from the table of facts; where the table lacks it, the result
/// is the query for the first such double.
pub open spec fn render(e: Sexp, facts: FloatFactsView) -> Result<Seq<char>, FloatQuery>
    decreases e, 0nat,
{
    match e {
        Sexp::Nil => Ok(seq!['(', ')']),
        Sexp::Closure(_, _, _, _) => Ok("#Lambda"@),
        Sexp::Macro(_, _) => Ok("#Macro"@),
        Sexp::Integer(i) => Ok(int_text(i as int)),
        Sexp::Float(bits) => match facts.text(bits) {
            Some(t) => Ok(t),
            None => Err(FloatQuery::Render(bits)),
        },
        Sexp::Ident(s) => Ok(s),
        Sexp::Text(s) => Ok(seq!['"'] + escaped(s) + seq!['"']),
        Sexp::Quote(x) => marked('\'', render(*x, facts)),
        Sexp::Unquote(x) => marked(',', render(*x, facts)),
        Sexp::Quasiquote(x) => marked('`', render(*x, facts)),
        Sexp::Pair(head, tail) => match render(*head, facts) {
            Err(q) => Err(q),
            Ok(h) => match render_rest(*tail, facts) {
                Err(q) => Err(q),
                Ok(t) => Ok(seq!['('] + h + t),
            },
        },
    }
}

/// The text of what follows the first item of a list, closing parenthesis
/// included. A tail that is neither a pair nor `Nil` is displayed as it is,
/// directly behind the last item.
pub open spec fn render_rest(e: Sexp, facts: FloatFactsView) -> Result<Seq<char>, FloatQuery>
    decreases e, 1nat,
{
    match e {
        Sexp::Pair(head, tail) => match render(*head, facts) {
            Err(q) => Err(q),
            Ok(h) => match render_rest(*tail, facts) {
                Err(q) => Err(q),
                Ok(t) => Ok(seq![' '] + h + t),
            },
        },
        Sexp::Nil => Ok(seq![')']),
        _ => render(e, facts),
    }
}

/// The text that `print` and `str` use: a string stands for its characters,
/// anything else for its displayed text.
pub open spec fn plain(e: Sexp, facts: FloatFactsView) -> Result<Seq<char>, FloatQuery> {
    match e {
        Sexp::Text(s) => Ok(s),
        _ => render(e, facts),
    }
}

/// Appends the characters of `s` to `out` as they stand between the quotes
/// of a displayed string.
fn append_escaped(s: &str, out: &mut String)
    ensures
        final(out)@ == old(out)@ + escaped(s@),
{
    let chars = to_chars(s);
    let mut i: usize = 0;
    assert(chars@.skip(0) =~= chars@);
    while i < chars.len()
        invariant
            i <= chars.len(),
            chars@ == s@,
            out@ + escaped(chars@.skip(i as int)) == old(out)@ + escaped(chars@),
        decreases chars.len() - i,
    {
        let c = chars[i];
        let ghost before = out@;
        proof {
            let rest = chars@.skip(i as int);
            assert(rest[0] == c);
            assert(rest.drop_first() =~= chars@.skip(i + 1));
        }
        if c == '"' || c == '\\' {
            push_char(out, '\\');
        }
        push_char(out, c);
        proof {
            assert(out@ =~= before + escape(c));
            assert(before + escape(c) + escaped(chars@.skip(i + 1)) =~= before + (escape(c)
                + escaped(chars@.skip(i + 1))));
        }
        i += 1;
    }
    assert(escaped(chars@.skip(chars.len() as int)) =~= Seq::<char>::empty());
    assert(out@ + Seq::<char>::empty() =~= out@);
}

/// Appends the text of `e` to `out`. On a missing fact `out` keeps what was
/// written up to there.
fn render_into(e: &Expr, facts: &FloatFacts, out: &mut String) -> (r: Result<(), FloatQuery>)
    ensures
        match r {
            Ok(()) => render(e@, facts@) matches Ok(t) && final(out)@ == old(out)@ + t,
            Err(q) => render(e@, facts@) == Err::<Seq<char>, FloatQuery>(q),
        },
    decreases *e, 0nat,
{
    match e {
        Expr::Nil => {
            push_char(out, '(');
            push_char(out, ')');
            assert(out@ == old(out)@ + seq!['(', ')']);
            Ok(())
        },
        Expr::Lambda(_, _, _, _) => {
            out.append("#Lambda");
            Ok(())
        },
        Expr::Macro(_, _) => {
            out.append("#Macro");
            Ok(())
        },
        Expr::Integer(i) => {
            let t = render_int(*i);
            out.append(t.as_str());
            Ok(())
        },
        Expr::Float(bits) => match facts.text(*bits) {
            Some(t) => {
                out.append(t.as_str());
                Ok(())
            },
            None => Err(FloatQuery::Render(*bits)),
        },
        Expr::Ident(s) => {
            out.append(s.as_str());
            Ok(())
        },
        Expr::String(s) => {
            push_char(out, '"');
            append_escaped(s.as_str(), out);
            push_char(out, '"');
            assert(out@ == old(out)@ + (seq!['"'] + escaped(s@) + seq!['"']));
            Ok(())
        },
        Expr::Quote(x) => {
            push_char(out, '\'');
            let ghost mid = out@;
            let r = render_into(x, facts, out);
            proof {
                if r is Ok {
                    let t = render(x@, facts@)->Ok_0;
                    assert(mid + t == old(out)@ + (seq!['\''] + t));
                }
            }
            r
        },
        Expr::Unquote(x) => {
            push_char(out, ',');
            let ghost mid = out@;
            let r = render_into(x, facts, out);
            proof {
                if r is Ok {
                    let t = render(x@, facts@)->Ok_0;
                    assert(mid + t == old(out)@ + (seq![','] + t));
                }
            }
            r
        },
        Expr::Quasiquote(x) => {
            push_char(out, '`');
            let ghost mid = out@;
            let r = render_into(x, facts, out);
            proof {
                if r is Ok {
                    let t = render(x@, facts@)->Ok_0;
                    assert(mid + t == old(out)@ + (seq!['`'] + t));
                }
            }
            r
        },
        Expr::Cons(head, tail) => {
            push_char(out, '(');
            match render_into(head, facts, out) {
                Err(q) => Err(q),
                Ok(()) => {
                    let r = render_rest_into(tail, facts, out);
                    proof {
                        if r is Ok {
                            let h = render(head@, facts@)->Ok_0;
                            let t = render_rest(tail@, facts@)->Ok_0;
                            assert(old(out)@.push('(') + h + t == old(out)@ + (seq!['('] + h + t));
                        }
                    }
                    r
                },
            }
        },
    }
}

/// Appends to `out` the text of what follows the first item of a list.
fn render_rest_into(e: &Expr, facts: &FloatFacts, out: &mut String) -> (r: Result<
    (),
    FloatQuery,
>)
    ensures
        match r {
            Ok(()) => render_rest(e@, facts@) matches Ok(t) && final(out)@ == old(out)@ + t,
            Err(q) => render_rest(e@, facts@) == Err::<Seq<char>, FloatQuery>(q),
        },
    decreases *e, 1nat,
{
    match e {
        Expr::Cons(head, tail) => {
            push_char(out, ' ');
            match render_into(head, facts, out) {
                Err(q) => Err(q),
                Ok(()) => {
                    let r = render_rest_into(tail, facts, out);
                    proof {
                        if r is Ok {
                            let h = render(head@, facts@)->Ok_0;
                            let t = render_rest(tail@, facts@)->Ok_0;
                            assert(old(out)@.push(' ') + h + t == old(out)@ + (seq![' '] + h + t));
                        }
                    }
                    r
                },
            }
        },
        Expr::Nil => {
            push_char(out, ')');
            assert(out@ == old(out)@ + seq![')']);
            Ok(())
        },
        _ => render_into(e, facts, out),
    }
}

/// The displayed text of `e`.
pub fn render_expr(e: &Expr, facts: &FloatFacts) -> (r: Result<String, FloatQuery>)
    ensures
        match r {
            Ok(s) => render(e@, facts@) == Ok::<Seq<char>, FloatQuery>(s@),
            Err(q) => render(e@, facts@) == Err::<Seq<char>, FloatQuery>(q),
        },
{
    let mut out = String::new();
    match render_into(e, facts, &mut out) {
        Ok(()) => {
            assert(Seq::<char>::empty() + render(e@, facts@)->Ok_0 == render(e@, facts@)->Ok_0);
            Ok(out)
        },
        Err(q) => Err(q),
    }
}

/// The text of `e` as `print` and `str` take it.
pub fn plain_text(e: &Expr, facts: &FloatFacts) -> (r: Result<String, FloatQuery>)
    ensures
        match r {
            Ok(s) => plain(e@, facts@) == Ok::<Seq<char>, FloatQuery>(s@),
            Err(q) => plain(e@, facts@) == Err::<Seq<char>, FloatQuery>(q),
        },
{
    match e {
        Expr::String(s) => Ok(s.clone()),
        _ => render_expr(e, facts),
    }
}

} // verus!
