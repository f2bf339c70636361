//! Structural equality of expressions.
use crate::expr::{lemma_bindings_finite, lemma_bindings_witness, Env, Expr, Sexp};
use crate::float::{bits_eq, float_eq};
use crate::text::same_text;
use vstd::prelude::*;

verus! {

/// Structural equality: integers and doubles by value, text by its
/// characters, pairs and wrappers part by part, closures by name, parameters,
/// body and captured bindings.
pub open spec fn same(a: Sexp, b: Sexp) -> bool
    decreases a,
{
    match a {
        Sexp::Nil => b is Nil,
        Sexp::Closure(n1, p1, b1, c1) => {
            &&& b matches Sexp::Closure(n2, p2, b2, c2)
            &&& n1 == n2
            &&& same(*p1, *p2)
            &&& same(*b1, *b2)
            &&& match c1 {
                None => c2 is None,
                Some(m1) => {
                    &&& c2 matches Some(m2)
                    &&& m1.dom().finite()
                    &&& m1.dom() == m2.dom()
                    &&& forall|k: Seq<char>| #[trigger]
                        m1.dom().contains(k) ==> same(m1[k], m2[k])
                },
            }
        },
        Sexp::Macro(p1, b1) => {
            &&& b matches Sexp::Macro(p2, b2)
            &&& same(*p1, *p2)
            &&& same(*b1, *b2)
        },
        Sexp::Integer(x) => b == Sexp::Integer(x),
        Sexp::Float(x) => b matches Sexp::Float(y) && float_eq(x, y),
        Sexp::Ident(s) => b == Sexp::Ident(s),
        Sexp::Text(s) => b == Sexp::Text(s),
        Sexp::Quote(x) => b matches Sexp::Quote(y) && same(*x, *y),
        Sexp::Unquote(x) => b matches Sexp::Unquote(y) && same(*x, *y),
        Sexp::Quasiquote(x) => b matches Sexp::Quasiquote(y) && same(*x, *y),
        Sexp::Pair(h1, t1) => {
            &&& b matches Sexp::Pair(h2, t2)
            &&& same(*h1, *h2)
            &&& same(*t1, *t2)
        },
    }
}

/// Whether two optional names are the same text.
fn names_equal(a: &Option<String>, b: &Option<String>) -> (r: bool)
    ensures
        r == (crate::expr::name_view(*a) == crate::expr::name_view(*b)),
{
    match a {
        None => b.is_none(),
        Some(s) => match b {
            None => false,
            Some(t) => same_text(s.as_str(), t.as_str()),
        },
    }
}

/// Whether two environments bind the same names to structurally equal values.
fn bindings_equal(ea: &Env, eb: &Env) -> (r: bool)
    ensures
        r == {
            &&& ea@.dom() == eb@.dom()
            &&& forall|k: Seq<char>| #[trigger] ea@.dom().contains(k) ==> same(ea@[k], eb@[k])
        },
    decreases *ea, 0nat,
{
    let mut j: usize = 0;
    while j < eb.entries.len()
        invariant
            j <= eb.entries.len(),
            forall|n: int| 0 <= n < j ==> ea@.dom().contains(#[trigger] eb.entries@[n].0@),
        decreases eb.entries.len() - j,
    {
        if !ea.contains(eb.entries[j].0.as_str()) {
            proof {
                crate::expr::lemma_bindings_found_some(eb.entries@, j as int);
            }
            return false;
        }
        j += 1;
    }
    let mut i: usize = 0;
    while i < ea.entries.len()
        invariant
            i <= ea.entries.len(),
            forall|n: int|
                0 <= n < i ==> eb@.dom().contains(#[trigger] ea.entries@[n].0@) && same(
                    ea@[ea.entries@[n].0@],
                    eb@[ea.entries@[n].0@],
                ),
        decreases ea.entries.len() - i,
    {
        let name = ea.entries[i].0.as_str();
        proof {
            crate::expr::lemma_bindings_found_some(ea.entries@, i as int);
        }
        let ia = match ea.position(name) {
            Some(ia) => ia,
            None => {
                return false;
            },
        };
        let jb = match eb.position(name) {
            Some(jb) => jb,
            None => {
                return false;
            },
        };
        if !equal(&ea.entries[ia].1, &eb.entries[jb].1) {
            return false;
        }
        i += 1;
    }
    proof {
        assert forall|k: Seq<char>| #[trigger] ea@.dom().contains(k) implies eb@.dom().contains(k)
            && same(ea@[k], eb@[k]) by {
            lemma_bindings_witness(ea.entries@, k);
        }
        assert forall|k: Seq<char>| #[trigger] eb@.dom().contains(k) implies ea@.dom().contains(
            k,
        ) by {
            lemma_bindings_witness(eb.entries@, k);
        }
        assert(ea@.dom() =~= eb@.dom());
    }
    true
}

/// Decides structural equality.
pub fn equal(a: &Expr, b: &Expr) -> (r: bool)
    ensures
        r == same(a@, b@),
    decreases *a, 1nat,
{
    match a {
        Expr::Nil => match b {
            Expr::Nil => true,
            _ => false,
        },
        Expr::Lambda(n1, p1, b1, c1) => match b {
            Expr::Lambda(n2, p2, b2, c2) => {
                if !(names_equal(n1, n2) && equal(p1, p2) && equal(b1, b2)) {
                    return false;
                }
                match c1 {
                    None => c2.is_none(),
                    Some(ea) => match c2 {
                        None => false,
                        Some(eb) => {
                            proof {
                                lemma_bindings_finite(ea.entries@);
                            }
                            bindings_equal(ea, eb)
                        },
                    },
                }
            },
            _ => false,
        },
        Expr::Macro(p1, b1) => match b {
            Expr::Macro(p2, b2) => equal(p1, p2) && equal(b1, b2),
            _ => false,
        },
        Expr::Integer(x) => match b {
            Expr::Integer(y) => *x == *y,
            _ => false,
        },
        Expr::Float(x) => match b {
            Expr::Float(y) => bits_eq(*x, *y),
            _ => false,
        },
        Expr::Ident(s) => match b {
            Expr::Ident(t) => same_text(s.as_str(), t.as_str()),
            _ => false,
        },
        Expr::String(s) => match b {
            Expr::String(t) => same_text(s.as_str(), t.as_str()),
            _ => false,
        },
        Expr::Quote(x) => match b {
            Expr::Quote(y) => equal(x, y),
            _ => false,
        },
        Expr::Unquote(x) => match b {
            Expr::Unquote(y) => equal(x, y),
            _ => false,
        },
        Expr::Quasiquote(x) => match b {
            Expr::Quasiquote(y) => equal(x, y),
            _ => false,
        },
        Expr::Cons(h1, t1) => match b {
            Expr::Cons(h2, t2) => equal(h1, h2) && equal(t1, t2),
            _ => false,
        },
    }
}

} // verus!
