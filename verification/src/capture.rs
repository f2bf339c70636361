//! Which bindings a closure has to remember.
use crate::expr::{Env, Expr, Sexp};
use crate::fault::{ErrorKind, Fault};
use crate::form::{is_reserved_ident, reserved};
use crate::text::{same_text, share};
use std::rc::Rc;
use vstd::prelude::*;

verus! {

/// The set of the texts of a list of names.
pub open spec fn names(v: Seq<String>) -> Set<Seq<char>> {
    Set::new(|k: Seq<char>| exists|i: int| 0 <= i < v.len() && #[trigger] v[i]@ == k)
}

/// The identifiers of a parameter list, if it is one: `Nil`, or a chain of
/// pairs that ends in `Nil` and whose heads are all identifiers.
pub open spec fn param_names(p: Sexp) -> Option<Set<Seq<char>>>
    decreases p,
{
    match p {
        Sexp::Nil => Some(Set::empty()),
        Sexp::Pair(head, tail) => match *head {
            Sexp::Ident(s) => match param_names(*tail) {
                Some(rest) => Some(rest.insert(s)),
                None => None,
            },
            _ => None,
        },
        _ => None,
    }
}

/// What follows the name in the arguments of a definition, if an identifier
/// stands first in them.
pub open spec fn defined_rest(args: Sexp) -> Option<Sexp> {
    match args {
        Sexp::Pair(target, rest) => if *target is Ident {
            Some(*rest)
        } else {
            None
        },
        _ => None,
    }
}

/// Whether an expression is the identifier `def` or `defmacro`.
pub open spec fn is_definer(e: Sexp) -> bool {
    e == Sexp::Ident("def"@) || e == Sexp::Ident("defmacro"@)
}

/// The identifiers that a lambda body refers to and that the closure has to
/// capture: those that are not in `ignore` (the parameters and the lambda's
/// own name), not reserved and not bound globally. Quoted code refers to
/// nothing, except inside an unquote under a quasiquote. A nested lambda is
/// passed over: it captures for itself when it is evaluated. The name that a
/// `def` or a `defmacro` binds is no reference.
pub open spec fn free_idents(
    e: Sexp,
    ignore: Set<Seq<char>>,
    globals: Set<Seq<char>>,
    quoted: bool,
) -> Set<Seq<char>>
    decreases e,
{
    match e {
        Sexp::Ident(s) => if !quoted && !ignore.contains(s) && !reserved(s) && !globals.contains(
            s,
        ) {
            set![s]
        } else {
            Set::empty()
        },
        Sexp::Pair(head, tail) => if *head == Sexp::Ident("lambda"@) {
            if quoted {
                free_idents(*tail, ignore, globals, quoted)
            } else {
                Set::empty()
            }
        } else if !quoted && is_definer(*head) && defined_rest(*tail) is Some {
            free_idents(defined_rest(*tail)->0, ignore, globals, quoted)
        } else {
            free_idents(*head, ignore, globals, quoted) + free_idents(
                *tail,
                ignore,
                globals,
                quoted,
            )
        },
        Sexp::Quasiquote(x) => free_idents(*x, ignore, globals, true),
        Sexp::Unquote(x) => free_idents(*x, ignore, globals, false),
        _ => Set::empty(),
    }
}

/// The name, the parameter list and the body of a lambda form: two sub-forms
/// make an anonymous lambda, three a named one, whose first is an identifier.
pub open spec fn lambda_parts(args: Sexp) -> Option<(Option<Seq<char>>, Sexp, Sexp)> {
    match args {
        Sexp::Pair(a, r1) => match *r1 {
            Sexp::Pair(b, r2) => match *r2 {
                Sexp::Nil => Some((None, *a, *b)),
                Sexp::Pair(c, r3) => match (*a, *r3) {
                    (Sexp::Ident(name), Sexp::Nil) => Some((Some(name), *b, *c)),
                    _ => None,
                },
                _ => None,
            },
            _ => None,
        },
        _ => None,
    }
}

/// The closure that a lambda form makes in a local environment `env` under
/// the global bindings `globals`, or the reason why it makes none.
pub open spec fn closure_of(
    args: Sexp,
    env: Map<Seq<char>, Sexp>,
    globals: Map<Seq<char>, Sexp>,
) -> Result<Sexp, Fault> {
    match lambda_parts(args) {
        None => Err(Fault::Error(ErrorKind::MalformedSpecialForm)),
        Some((name, params, body)) => match param_names(params) {
            None => Err(Fault::Error(ErrorKind::MalformedParameterList)),
            Some(ps) => {
                let ignore = match name {
                    Some(n) => ps.insert(n),
                    None => ps,
                };
                let ids = free_idents(body, ignore, globals.dom(), false);
                if ids == Set::<Seq<char>>::empty() {
                    Ok(Sexp::Closure(name, Box::new(params), Box::new(body), None))
                } else if ids.subset_of(env.dom()) {
                    Ok(
                        Sexp::Closure(
                            name,
                            Box::new(params),
                            Box::new(body),
                            Some(env.restrict(ids)),
                        ),
                    )
                } else {
                    Err(Fault::Error(ErrorKind::UnboundIdentifier))
                }
            },
        },
    }
}

/// Whether `s` is one of the names in `v`.
pub fn contains_name(v: &Vec<String>, s: &str) -> (r: bool)
    ensures
        r == names(v@).contains(s@),
{
    let mut i: usize = 0;
    while i < v.len()
        invariant
            i <= v.len(),
            forall|j: int| 0 <= j < i ==> v@[j]@ != s@,
        decreases v.len() - i,
    {
        if same_text(v[i].as_str(), s) {
            return true;
        }
        i += 1;
    }
    false
}

/// Adds a name to a list of names.
pub fn add_name(v: &mut Vec<String>, s: &str)
    ensures
        names(final(v)@) == names(old(v)@).insert(s@),
{
    v.push(s.to_owned());
    proof {
        let n = old(v).len() as int;
        assert(v@[n]@ == s@);
        assert forall|k: Seq<char>| names(v@).contains(k) <==> names(old(v)@).insert(s@).contains(
            k,
        ) by {
            if names(v@).contains(k) {
                let i = choose|i: int| 0 <= i < v.len() && #[trigger] v@[i]@ == k;
                if i < n {
                    assert(old(v)@[i]@ == k);
                }
            }
            if names(old(v)@).contains(k) {
                let i = choose|i: int| 0 <= i < old(v).len() && #[trigger] old(v)@[i]@ == k;
                assert(v@[i]@ == k);
            }
        }
        assert(names(v@) =~= names(old(v)@).insert(s@));
    }
}

/// Whether `e` is a parameter list.
fn is_param_list(e: &Expr) -> (r: bool)
    ensures
        r == (param_names(e@) is Some),
    decreases *e,
{
    match e {
        Expr::Nil => true,
        Expr::Cons(head, tail) => match &**head {
            Expr::Ident(s) => {
                assert(head@ == Sexp::Ident(s@));
                is_param_list(tail)
            },
            _ => {
                assert(!(head@ is Ident));
                false
            },
        },
        _ => false,
    }
}

/// Adds the identifiers of the parameter list `e` to `v`.
fn add_params(e: &Expr, v: &mut Vec<String>)
    requires
        param_names(e@) is Some,
    ensures
        names(final(v)@) == names(old(v)@) + param_names(e@)->0,
    decreases *e,
{
    match e {
        Expr::Cons(head, tail) => match &**head {
            Expr::Ident(s) => {
                assert(head@ == Sexp::Ident(s@));
                add_params(tail, v);
                add_name(v, s.as_str());
                assert(names(v@) =~= names(old(v)@) + param_names(tail@)->0.insert(s@));
            },
            _ => {
                assert(!(head@ is Ident));
            },
        },
        _ => {
            assert(names(v@) =~= names(v@) + Set::<Seq<char>>::empty());
        },
    }
}

/// Checks that `e` is a parameter list and, if it is one, adds its
/// identifiers to `v`. Otherwise `v` stays as it is.
pub fn lambda_verify_args(e: &Expr, v: &mut Vec<String>) -> (r: bool)
    ensures
        r == (param_names(e@) is Some),
        r ==> names(final(v)@) == names(old(v)@) + param_names(e@)->0,
        !r ==> *final(v) == *old(v),
{
    if is_param_list(e) {
        add_params(e, v);
        true
    } else {
        false
    }
}

/// Whether an identifier stands first in the arguments of a definition.
fn defines_name(args: &Expr) -> (r: bool)
    ensures
        r == (defined_rest(args@) is Some),
{
    match args {
        Expr::Cons(target, _) => match &**target {
            Expr::Ident(name) => {
                assert(target@ is Ident);
                true
            },
            _ => {
                assert(!(target@ is Ident));
                false
            },
        },
        _ => false,
    }
}

/// Adds to `ids` the identifiers that `expr` refers to and that a closure
/// over it has to capture.
pub fn collect_idents(
    expr: &Expr,
    ids: &mut Vec<String>,
    ignore: &Vec<String>,
    globals: &Env,
    quote: bool,
)
    ensures
        names(final(ids)@) == names(old(ids)@) + free_idents(
            expr@,
            names(ignore@),
            globals@.dom(),
            quote,
        ),
    decreases *expr,
{
    match expr {
        Expr::Ident(s) => {
            if !quote && !contains_name(ignore, s.as_str()) && !is_reserved_ident(s.as_str())
                && !globals.contains(s.as_str()) {
                add_name(ids, s.as_str());
                assert(names(ids@) =~= names(old(ids)@) + set![s@]);
            } else {
                assert(names(ids@) =~= names(ids@) + Set::<Seq<char>>::empty());
            }
        },
        Expr::Cons(e1, e2) => {
            let is_lambda = match &**e1 {
                Expr::Ident(s) => same_text(s.as_str(), "lambda"),
                _ => false,
            };
            assert(is_lambda == (e1@ == Sexp::Ident("lambda"@)));
            let definer = match &**e1 {
                Expr::Ident(s) => same_text(s.as_str(), "def") || same_text(s.as_str(), "defmacro"),
                _ => false,
            };
            assert(definer == is_definer(e1@));
            if is_lambda {
                if quote {
                    collect_idents(e2, ids, ignore, globals, quote);
                } else {
                    assert(names(ids@) =~= names(ids@) + Set::<Seq<char>>::empty());
                }
            } else if !quote && definer && defines_name(e2) {
                match &**e2 {
                    Expr::Cons(_, rest) => {
                        collect_idents(rest, ids, ignore, globals, quote);
                    },
                    _ => {},
                }
            } else {
                collect_idents(e1, ids, ignore, globals, quote);
                collect_idents(e2, ids, ignore, globals, quote);
                assert(names(ids@) =~= names(old(ids)@) + (free_idents(
                    e1@,
                    names(ignore@),
                    globals@.dom(),
                    quote,
                ) + free_idents(e2@, names(ignore@), globals@.dom(), quote)));
            }
        },
        Expr::Quasiquote(e) => {
            collect_idents(e, ids, ignore, globals, true);
        },
        Expr::Unquote(e) => {
            collect_idents(e, ids, ignore, globals, false);
        },
        _ => {
            assert(names(ids@) =~= names(ids@) + Set::<Seq<char>>::empty());
        },
    }
}

/// The names of a list that is one longer are those of the shorter list and
/// the new one.
pub proof fn lemma_names_step(v: Seq<String>, i: int)
    requires
        0 <= i < v.len(),
    ensures
        names(v.subrange(0, i + 1)) == names(v.subrange(0, i)).insert(v[i]@),
{
    let longer = v.subrange(0, i + 1);
    let shorter = v.subrange(0, i);
    assert forall|k: Seq<char>| names(longer).contains(k) <==> names(shorter).insert(
        v[i]@,
    ).contains(k) by {
        if names(longer).contains(k) {
            let j = choose|j: int| 0 <= j < longer.len() && #[trigger] longer[j]@ == k;
            if j < i {
                assert(shorter[j]@ == k);
            }
        }
        if names(shorter).contains(k) {
            let j = choose|j: int| 0 <= j < shorter.len() && #[trigger] shorter[j]@ == k;
            assert(longer[j]@ == k);
        }
        if k == v[i]@ {
            assert(longer[i]@ == k);
        }
    }
    assert(names(longer) =~= names(shorter).insert(v[i]@));
}

/// The parts of a lambda form.
pub fn lambda_form(args: &Expr) -> (r: Option<(Option<String>, Rc<Expr>, Rc<Expr>)>)
    ensures
        match r {
            Some((name, params, body)) => lambda_parts(args@) == Some(
                (crate::expr::name_view(name), params@, body@),
            ),
            None => lambda_parts(args@) is None,
        },
{
    match args {
        Expr::Cons(a, r1) => match &**r1 {
            Expr::Cons(b, r2) => match &**r2 {
                Expr::Nil => {
                    assert(r1@ == Sexp::Pair(Box::new(b@), Box::new(Sexp::Nil)));
                    Some((None, share(a), share(b)))
                },
                Expr::Cons(c, r3) => {
                    assert(r2@ == Sexp::Pair(Box::new(c@), Box::new(r3@)));
                    assert(r1@ == Sexp::Pair(Box::new(b@), Box::new(r2@)));
                    match &**a {
                        Expr::Ident(name) => match &**r3 {
                            Expr::Nil => {
                                assert(a@ == Sexp::Ident(name@));
                                assert(r3@ == Sexp::Nil);
                                Some((Some(name.clone()), share(b), share(c)))
                            },
                            _ => {
                                assert(!(r3@ is Nil));
                                None
                            },
                        },
                        _ => {
                            assert(!(a@ is Ident));
                            None
                        },
                    }
                },
                _ => {
                    assert(!(r2@ is Nil) && !(r2@ is Pair));
                    assert(r1@ == Sexp::Pair(Box::new(b@), Box::new(r2@)));
                    None
                },
            },
            _ => {
                assert(!(r1@ is Pair));
                None
            },
        },
        _ => None,
    }
}

/// Makes the closure of a lambda form: checks the form, finds what the body
/// refers to, and takes a snapshot of those bindings from `env`.
#[verifier::loop_isolation(false)]
pub fn eval_lambda(args: &Expr, env: &Env, globals: &Env) -> (r: Result<Rc<Expr>, Fault>)
    ensures
        match r {
            Ok(v) => closure_of(args@, env@, globals@) == Ok::<Sexp, Fault>(v@),
            Err(f) => closure_of(args@, env@, globals@) == Err::<Sexp, Fault>(f),
        },
{
    let (name, params, body) = match lambda_form(args) {
        Some(parts) => parts,
        None => {
            return Err(Fault::Error(ErrorKind::MalformedSpecialForm));
        },
    };
    let mut ignore: Vec<String> = Vec::new();
    assert(names(ignore@) =~= Set::<Seq<char>>::empty());
    if !lambda_verify_args(&params, &mut ignore) {
        return Err(Fault::Error(ErrorKind::MalformedParameterList));
    }
    assert(names(ignore@) =~= param_names(params@)->0);
    match &name {
        Some(n) => {
            add_name(&mut ignore, n.as_str());
        },
        None => {},
    }
    let mut ids: Vec<String> = Vec::new();
    assert(names(ids@) =~= Set::<Seq<char>>::empty());
    collect_idents(&body, &mut ids, &ignore, globals, false);
    let ghost wanted = free_idents(body@, names(ignore@), globals@.dom(), false);
    assert(names(ids@) =~= wanted);
    if ids.len() == 0 {
        assert(names(ids@) =~= Set::<Seq<char>>::empty());
        return Ok(Rc::new(Expr::Lambda(name, params, body, None)));
    }
    assert(names(ids@).contains(ids@[0]@));
    let mut captured = Env::new();
    let mut i: usize = 0;
    assert(names(ids@.subrange(0, 0)) =~= Set::<Seq<char>>::empty());
    assert(captured@ =~= env@.restrict(names(ids@.subrange(0, 0))));
    while i < ids.len()
        invariant
            i <= ids.len(),
            names(ids@.subrange(0, i as int)).subset_of(env@.dom()),
            captured@ == env@.restrict(names(ids@.subrange(0, i as int))),
        decreases ids.len() - i,
    {
        proof {
            lemma_names_step(ids@, i as int);
        }
        match env.get(ids[i].as_str()) {
            None => {
                assert(names(ids@).contains(ids@[i as int]@));
                return Err(Fault::Error(ErrorKind::UnboundIdentifier));
            },
            Some(v) => {
                captured.insert(ids[i].clone(), v);
                assert(captured@ =~= env@.restrict(names(ids@.subrange(0, i + 1))));
            },
        }
        i += 1;
    }
    assert(ids@.subrange(0, ids.len() as int) == ids@);
    Ok(Rc::new(Expr::Lambda(name, params, body, Some(captured))))
}

} // verus!
