//! A persistent singly linked list whose cells are shared between versions.
use crate::text::share;
use std::rc::Rc;
use vstd::prelude::*;

verus! {

/// A chain of cells.
pub enum InternalList<T> {
    Nil,
    Cons(Rc<T>, Rc<InternalList<T>>),
}

/// A list. Its model is the sequence of its items.
pub struct List<T> {
    xs: Rc<InternalList<T>>,
}

/// The items of a chain of cells, first cell first.
pub open spec fn items<T>(xs: InternalList<T>) -> Seq<T>
    decreases xs,
{
    match xs {
        InternalList::Nil => Seq::empty(),
        InternalList::Cons(car, cdr) => seq![*car] + items(*cdr),
    }
}

fn count<T>(xs: &Rc<InternalList<T>>) -> (n: usize)
    requires
        items(**xs).len() <= usize::MAX,
    ensures
        n == items(**xs).len(),
    decreases **xs,
{
    match &**xs {
        InternalList::Nil => 0,
        InternalList::Cons(_, cdr) => 1 + count(cdr),
    }
}

fn map_cells<F: Fn(&T) -> T, T>(f: &F, xs: &Rc<InternalList<T>>) -> (r: Rc<InternalList<T>>)
    requires
        forall|i: int| 0 <= i < items(**xs).len() ==> (*f).requires((&#[trigger] items(**xs)[i],)),
    ensures
        items(*r).len() == items(**xs).len(),
        forall|i: int|
            0 <= i < items(**xs).len() ==> (*f).ensures(
                (&items(**xs)[i],),
                #[trigger] items(*r)[i],
            ),
    decreases **xs,
{
    match &**xs {
        InternalList::Nil => share(xs),
        InternalList::Cons(car, cdr) => {
            assert(items(**xs)[0] == **car);
            assert forall|i: int| 0 <= i < items(**cdr).len() implies (*f).requires(
                (&#[trigger] items(**cdr)[i],),
            ) by {
                assert(items(**xs)[i + 1] == items(**cdr)[i]);
            }
            let head = f(&**car);
            let tail = map_cells(f, cdr);
            let r = Rc::new(InternalList::Cons(Rc::new(head), tail));
            assert forall|i: int| 0 <= i < items(**xs).len() implies (*f).ensures(
                (&items(**xs)[i],),
                #[trigger] items(*r)[i],
            ) by {
                if i > 0 {
                    assert(items(**xs)[i] == items(**cdr)[i - 1]);
                    assert(items(*r)[i] == items(*tail)[i - 1]);
                }
            }
            r
        },
    }
}

impl<T> View for List<T> {
    type V = Seq<T>;

    closed spec fn view(&self) -> Seq<T> {
        items(*self.xs)
    }
}

impl<T> List<T> {
    /// The empty list.
    pub fn new() -> (r: List<T>)
        ensures
            r@ == Seq::<T>::empty(),
    {
        let n: InternalList<T> = InternalList::Nil;
        List { xs: Rc::new(n) }
    }

    /// The list that starts with `x` and goes on with the items of `self`,
    /// whose cells it shares.
    pub fn cons(&self, x: T) -> (r: List<T>)
        ensures
            r@ == seq![x] + self@,
    {
        List { xs: Rc::new(InternalList::Cons(Rc::new(x), share(&self.xs))) }
    }

    /// The first item, if there is one.
    pub fn car(&self) -> (r: Option<Rc<T>>)
        ensures
            match r {
                Some(x) => self@.len() > 0 && *x == self@[0],
                None => self@.len() == 0,
            },
    {
        match &*self.xs {
            InternalList::Nil => None,
            InternalList::Cons(car, _) => Some(share(car)),
        }
    }

    /// The list without its first item; the empty list is its own rest.
    pub fn cdr(&self) -> (r: List<T>)
        ensures
            self@.len() == 0 ==> r@ == self@,
            self@.len() > 0 ==> r@ == self@.drop_first(),
    {
        match &*self.xs {
            InternalList::Nil => List { xs: share(&self.xs) },
            InternalList::Cons(_, cdr) => {
                assert(items(*self.xs).drop_first() =~= items(**cdr));
                List { xs: share(cdr) }
            },
        }
    }

    /// The number of items.
    pub fn count(&self) -> (n: usize)
        requires
            self@.len() <= usize::MAX,
        ensures
            n == self@.len(),
    {
        count(&self.xs)
    }

    /// The list of the results of `f` on each item, in the same order.
    pub fn map<F: Fn(&T) -> T>(&self, f: F) -> (r: List<T>)
        requires
            forall|i: int| 0 <= i < self@.len() ==> f.requires((&#[trigger] self@[i],)),
        ensures
            r@.len() == self@.len(),
            forall|i: int| 0 <= i < self@.len() ==> f.ensures((&self@[i],), #[trigger] r@[i]),
    {
        assert forall|i: int| 0 <= i < items(*self.xs).len() implies f.requires(
            (&#[trigger] items(*self.xs)[i],),
        ) by {
            assert(self@[i] == items(*self.xs)[i]);
        }
        List { xs: map_cells(&f, &self.xs) }
    }
}

} // verus!
