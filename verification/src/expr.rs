//! Expressions, which are both the code and the values of the language, and
//! environments, which bind identifiers to them.
use crate::text::{same_text, share};
use std::rc::Rc;
use vstd::prelude::*;

verus! {

/// The mathematical model of an expression: text is a sequence of
/// characters and a captured environment is a map. Contracts speak of
/// expressions by this model.
pub enum Sexp {
    Nil,
    Closure(Option<Seq<char>>, Box<Sexp>, Box<Sexp>, Option<Map<Seq<char>, Sexp>>),
    Macro(Box<Sexp>, Box<Sexp>),
    Integer(i64),
    Float(u64),
    Ident(Seq<char>),
    Text(Seq<char>),
    Quote(Box<Sexp>),
    Unquote(Box<Sexp>),
    Quasiquote(Box<Sexp>),
    Pair(Box<Sexp>, Box<Sexp>),
}

/// An expression. Expressions are never changed once they are built, and
/// their parts are shared freely.
#[derive(Debug)]
pub enum Expr {
    /// The empty list, which is also the value for false.
    Nil,
    /// A closure: its name if it has one, its parameter list, its body, and
    /// the bindings that it captured when it was made, if it captured any.
    Lambda(Option<String>, Rc<Expr>, Rc<Expr>, Option<Env>),
    /// A macro: its parameter list and its body.
    Macro(Rc<Expr>, Rc<Expr>),
    Integer(i64),
    /// A double, by its IEEE 754 bit pattern.
    Float(u64),
    Ident(String),
    String(String),
    Quote(Rc<Expr>),
    Unquote(Rc<Expr>),
    Quasiquote(Rc<Expr>),
    /// A pair; a chain of pairs that ends in `Nil` is a list.
    Cons(Rc<Expr>, Rc<Expr>),
}

/// An environment: a list of bindings in which, of two entries with the same
/// name, the later one counts.
#[derive(Debug)]
pub struct Env {
    pub entries: Vec<(String, Rc<Expr>)>,
}

/// The model of an optional name.
pub open spec fn name_view(name: Option<String>) -> Option<Seq<char>> {
    match name {
        Some(s) => Some(s@),
        None => None,
    }
}

/// The map that a list of entries stands for.
pub open spec fn bindings(entries: Seq<(String, Rc<Expr>)>) -> Map<Seq<char>, Sexp>
    decreases entries, 0nat,
{
    if entries.len() == 0 {
        Map::empty()
    } else {
        bindings(entries.drop_last()).insert(entries.last().0@, model(*entries.last().1))
    }
}

/// The model of an expression.
pub open spec fn model(e: Expr) -> Sexp
    decreases e, 1nat,
{
    match e {
        Expr::Nil => Sexp::Nil,
        Expr::Lambda(name, params, body, captured) => Sexp::Closure(
            name_view(name),
            Box::new(model(*params)),
            Box::new(model(*body)),
            match captured {
                Some(env) => Some(bindings(env.entries@)),
                None => None,
            },
        ),
        Expr::Macro(params, body) => Sexp::Macro(Box::new(model(*params)), Box::new(model(*body))),
        Expr::Integer(i) => Sexp::Integer(i),
        Expr::Float(bits) => Sexp::Float(bits),
        Expr::Ident(s) => Sexp::Ident(s@),
        Expr::String(s) => Sexp::Text(s@),
        Expr::Quote(x) => Sexp::Quote(Box::new(model(*x))),
        Expr::Unquote(x) => Sexp::Unquote(Box::new(model(*x))),
        Expr::Quasiquote(x) => Sexp::Quasiquote(Box::new(model(*x))),
        Expr::Cons(head, tail) => Sexp::Pair(Box::new(model(*head)), Box::new(model(*tail))),
    }
}

impl View for Expr {
    type V = Sexp;

    open spec fn view(&self) -> Sexp {
        model(*self)
    }
}

impl View for Env {
    type V = Map<Seq<char>, Sexp>;

    open spec fn view(&self) -> Map<Seq<char>, Sexp> {
        bindings(self.entries@)
    }
}

/// The last entry with a given name decides what the environment holds for it.
pub proof fn lemma_bindings_found(entries: Seq<(String, Rc<Expr>)>, i: int, k: Seq<char>)
    requires
        0 <= i < entries.len(),
        entries[i].0@ == k,
        forall|j: int| i < j < entries.len() ==> entries[j].0@ != k,
    ensures
        bindings(entries).dom().contains(k),
        bindings(entries)[k] == entries[i].1@,
    decreases entries.len(),
{
    if i < entries.len() - 1 {
        lemma_bindings_found(entries.drop_last(), i, k);
    }
}

/// A name that no entry has is not bound.
pub proof fn lemma_bindings_absent(entries: Seq<(String, Rc<Expr>)>, k: Seq<char>)
    requires
        forall|j: int| 0 <= j < entries.len() ==> entries[j].0@ != k,
    ensures
        !bindings(entries).dom().contains(k),
    decreases entries.len(),
{
    if entries.len() > 0 {
        lemma_bindings_absent(entries.drop_last(), k);
    }
}

/// The name of every entry is bound.
pub proof fn lemma_bindings_found_some(entries: Seq<(String, Rc<Expr>)>, i: int)
    requires
        0 <= i < entries.len(),
    ensures
        bindings(entries).dom().contains(entries[i].0@),
    decreases entries.len(),
{
    if i < entries.len() - 1 {
        lemma_bindings_found_some(entries.drop_last(), i);
    }
}

/// Every bound name is the name of some entry.
pub proof fn lemma_bindings_witness(entries: Seq<(String, Rc<Expr>)>, k: Seq<char>)
    requires
        bindings(entries).dom().contains(k),
    ensures
        exists|i: int| 0 <= i < entries.len() && #[trigger] entries[i].0@ == k,
{
    if forall|j: int| 0 <= j < entries.len() ==> entries[j].0@ != k {
        lemma_bindings_absent(entries, k);
    }
}

/// The entry that decides what a bound name is bound to.
pub proof fn lemma_bindings_deciding(entries: Seq<(String, Rc<Expr>)>, k: Seq<char>) -> (i: int)
    requires
        bindings(entries).dom().contains(k),
    ensures
        0 <= i < entries.len(),
        entries[i].0@ == k,
        bindings(entries)[k] == entries[i].1@,
    decreases entries.len(),
{
    if entries.last().0@ == k {
        entries.len() - 1
    } else {
        lemma_bindings_deciding(entries.drop_last(), k)
    }
}

/// The names bound by a list of entries are finitely many.
pub proof fn lemma_bindings_finite(entries: Seq<(String, Rc<Expr>)>)
    ensures
        bindings(entries).dom().finite(),
    decreases entries.len(),
{
    if entries.len() > 0 {
        lemma_bindings_finite(entries.drop_last());
    }
}

/// The bindings of one list of entries behind another are those of the
/// first, overridden by those of the second.
pub proof fn lemma_bindings_append(a: Seq<(String, Rc<Expr>)>, b: Seq<(String, Rc<Expr>)>)
    ensures
        bindings(a + b) == bindings(a).union_prefer_right(bindings(b)),
    decreases b.len(),
{
    if b.len() == 0 {
        assert(a + b =~= a);
        assert(bindings(a).union_prefer_right(bindings(b)) =~= bindings(a));
    } else {
        lemma_bindings_append(a, b.drop_last());
        assert((a + b).drop_last() =~= a + b.drop_last());
        assert((a + b).last() == b.last());
        assert(bindings(a + b) =~= bindings(a).union_prefer_right(bindings(b)));
    }
}

/// Replacing the entry that decides what a name is bound to binds the name
/// anew and leaves the other names as they are.
pub proof fn lemma_bindings_update(
    entries: Seq<(String, Rc<Expr>)>,
    i: int,
    entry: (String, Rc<Expr>),
)
    requires
        0 <= i < entries.len(),
        entries[i].0@ == entry.0@,
        forall|j: int| i < j < entries.len() ==> entries[j].0@ != entry.0@,
    ensures
        bindings(entries.update(i, entry)) == bindings(entries).insert(entry.0@, entry.1@),
    decreases entries.len(),
{
    let updated = entries.update(i, entry);
    if i == entries.len() - 1 {
        assert(updated.drop_last() =~= entries.drop_last());
        assert(bindings(updated) =~= bindings(entries).insert(entry.0@, entry.1@));
    } else {
        lemma_bindings_update(entries.drop_last(), i, entry);
        assert(updated.drop_last() =~= entries.drop_last().update(i, entry));
        assert(updated.last() == entries.last());
        assert(bindings(updated) =~= bindings(entries).insert(entry.0@, entry.1@));
    }
}

/// Overlays the bindings of `y`, if there are any, on those of `x`: where
/// both bind a name, the binding of `y` counts.
pub fn merge_envs(x: &mut Env, y: &Option<Env>)
    ensures
        final(x)@ == match *y {
            Some(h) => old(x)@.union_prefer_right(h@),
            None => old(x)@,
        },
{
    match y {
        None => (),
        Some(h) => {
            let mut i: usize = 0;
            assert(h.entries@.subrange(0, 0) =~= Seq::<(String, Rc<Expr>)>::empty());
            assert(x.entries@ + h.entries@.subrange(0, 0) =~= x.entries@);
            while i < h.entries.len()
                invariant
                    i <= h.entries.len(),
                    x.entries@ == old(x).entries@ + h.entries@.subrange(0, i as int),
                decreases h.entries.len() - i,
            {
                x.entries.push((h.entries[i].0.clone(), share(&h.entries[i].1)));
                assert(x.entries@ =~= old(x).entries@ + h.entries@.subrange(0, i + 1));
                i += 1;
            }
            proof {
                assert(h.entries@.subrange(0, h.entries.len() as int) =~= h.entries@);
                lemma_bindings_append(old(x).entries@, h.entries@);
            }
        },
    }
}

impl Env {
    /// The environment that binds nothing.
    pub fn new() -> (r: Env)
        ensures
            r@ == Map::<Seq<char>, Sexp>::empty(),
    {
        Env { entries: Vec::new() }
    }

    /// The place of the entry that decides what `name` is bound to: the last
    /// one with that name.
    pub fn position(&self, name: &str) -> (r: Option<usize>)
        ensures
            match r {
                Some(i) => {
                    &&& i < self.entries.len()
                    &&& self.entries@[i as int].0@ == name@
                    &&& forall|j: int| i < j < self.entries.len() ==> self.entries@[j].0@ != name@
                    &&& self@.dom().contains(name@)
                    &&& self@[name@] == self.entries@[i as int].1@
                },
                None => !self@.dom().contains(name@),
            },
    {
        let mut i: usize = self.entries.len();
        while i > 0
            invariant
                i <= self.entries.len(),
                forall|j: int| i <= j < self.entries.len() ==> self.entries@[j].0@ != name@,
            decreases i,
        {
            i -= 1;
            if same_text(self.entries[i].0.as_str(), name) {
                proof {
                    lemma_bindings_found(self.entries@, i as int, name@);
                }
                return Some(i);
            }
        }
        proof {
            lemma_bindings_absent(self.entries@, name@);
        }
        None
    }

    /// The value bound to `name`, if there is one.
    pub fn get(&self, name: &str) -> (r: Option<Rc<Expr>>)
        ensures
            match r {
                Some(v) => self@.dom().contains(name@) && v@ == self@[name@],
                None => !self@.dom().contains(name@),
            },
    {
        match self.position(name) {
            Some(i) => Some(share(&self.entries[i].1)),
            None => None,
        }
    }

    /// Whether `name` is bound.
    pub fn contains(&self, name: &str) -> (r: bool)
        ensures
            r == self@.dom().contains(name@),
    {
        self.get(name).is_some()
    }

    /// Binds `name` to `value`, in place of what it was bound to before.
    pub fn insert(&mut self, name: String, value: Rc<Expr>)
        ensures
            final(self)@ == old(self)@.insert(name@, value@),
    {
        match self.position(name.as_str()) {
            Some(i) => {
                proof {
                    lemma_bindings_update(self.entries@, i as int, (name, value));
                }
                self.entries.set(i, (name, value));
            },
            None => {
                self.entries.push((name, value));
                assert(self.entries@.drop_last() == old(self).entries@);
            },
        }
    }

    /// A copy that shares the bound values with `self`.
    pub fn duplicate(&self) -> (r: Env)
        ensures
            r@ == self@,
            r.entries@ == self.entries@,
    {
        let mut entries: Vec<(String, Rc<Expr>)> = Vec::new();
        let mut i: usize = 0;
        while i < self.entries.len()
            invariant
                i <= self.entries.len(),
                entries@ == self.entries@.subrange(0, i as int),
            decreases self.entries.len() - i,
        {
            entries.push((self.entries[i].0.clone(), share(&self.entries[i].1)));
            i += 1;
        }
        assert(self.entries@.subrange(0, self.entries.len() as int) == self.entries@);
        Env { entries }
    }

    /// Whether nothing is bound.
    pub fn is_empty(&self) -> (r: bool)
        ensures
            r == (self@.dom() == Set::<Seq<char>>::empty()),
    {
        if self.entries.len() == 0 {
            true
        } else {
            proof {
                let last = self.entries@.last();
                assert(self@.dom().contains(last.0@));
            }
            false
        }
    }
}

} // verus!
