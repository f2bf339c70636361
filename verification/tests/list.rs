use rscheme::list::List;

fn items(l: &List<u32>) -> Vec<u32> {
    let mut v = vec![];
    let mut rest = l.cdr();
    if let Some(x) = l.car() {
        v.push(*x);
    }
    while let Some(x) = rest.car() {
        v.push(*x);
        rest = rest.cdr();
    }
    v
}

#[test]
fn list_cons_and_count() {
    let l: List<u32> = List::new();
    let l = l.cons(3).cons(2).cons(1);
    assert_eq!(l.count(), 3);
    assert_eq!(*l.car().unwrap(), 1);
    assert_eq!(*l.cdr().car().unwrap(), 2);
    let m = l.map(|x| x * 10);
    assert_eq!(*m.car().unwrap(), 10);
    assert_eq!(m.count(), 3);
}

#[test]
fn the_empty_list() {
    let l: List<u32> = List::new();
    assert_eq!(l.count(), 0);
    assert!(l.car().is_none());
    assert_eq!(l.cdr().count(), 0);
    assert!(l.cdr().car().is_none());
    assert_eq!(l.map(|x| x + 1).count(), 0);
}

#[test]
fn cons_shares_the_rest() {
    let base: List<u32> = List::new().cons(2).cons(1);
    let a = base.cons(10);
    let b = base.cons(20);
    assert_eq!(items(&a), vec![10, 1, 2]);
    assert_eq!(items(&b), vec![20, 1, 2]);
    assert_eq!(items(&base), vec![1, 2]);
    assert_eq!(items(&a.cdr()), vec![1, 2]);
}

#[test]
fn map_keeps_the_order() {
    let l: List<u32> = List::new().cons(3).cons(2).cons(1);
    assert_eq!(items(&l.map(|x| x * x + 1)), vec![2, 5, 10]);
    assert_eq!(items(&l), vec![1, 2, 3]);
}
