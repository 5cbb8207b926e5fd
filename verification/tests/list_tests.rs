use persistent_list::list::{test_list, List};

#[test]
fn test_null() {
    let empty: List<i64> = List::empty();
    let full = List::empty().append(1i64);

    assert!(empty.null());
    assert!(!full.null());
}

#[test]
fn test_new() {
    let list: List<i64> = List::empty();
    match list {
        List::Cons(_, _) => panic!("Nil expected, got Cons"),
        List::Nil => (),
    }
}

#[test]
fn test_first() {
    let list = List::Nil.append(1i64);
    let n = list.first().unwrap();
    assert_eq!(*n, 1);

    let empty: List<i64> = List::empty();
    assert_eq!(empty.first(), None);
}

#[test]
fn test_append() {
    let l = List::Nil.append(1i64);
    println!("{:?}", l);
    assert_eq!(l.len(), 1usize);
}

#[test]
fn test_last() {
    let list = test_list();
    let last = list.last().unwrap();

    assert_eq!(*last, 21i64);
}

#[test]
fn test_tail() {
    let list = test_list();
    let tail = list.tail();
    let expected = List::Nil.append(21i64).append(15);
    assert_eq!(*tail, expected);

    assert_eq!(*tail.first().unwrap(), 15);
    assert_eq!(*tail.last().unwrap(), 21);
}

#[test]
fn test_init() {
    let list = test_list();
    let init = list.init();
    println!("{:?}", list);

    let expected = List::Nil.append(15i64).append(9);
    assert_eq!(init, expected);
}

#[test]
fn test_map() {
    let list = test_list();
    let expected = List::Nil.append(22i64).append(16).append(10);
    let actual = list.map(|n| n + 1);
    assert_eq!(actual, expected);
}

#[test]
fn test_filter() {
    let list = test_list();
    let expected = List::Nil.append(21i64).append(9);
    let actual = list.filter(|&n| n != 15);
    assert_eq!(actual, expected);

    assert!(list.filter(|&n| n == 1).null());
}

#[test]
fn test_find() {
    let list = test_list();
    let actual = list.find(|&n| n == 15).unwrap();
    assert_eq!(*actual, 15);

    assert!(list.find(|&n| n == 1).is_none());
}

#[test]
fn test_foldl() {
    let list = test_list();
    let actual = list.foldl(0, |z: i64, a: &i64| z + a);

    assert_eq!(actual, ((0i64 + 21) + 15) + 9);

    let int_list: List<i64> = list.map(|&n| n as i64);
    let actual = int_list.foldl(0i64, |z: i64, a: &i64| z - a);
    assert_eq!(actual, ((0i64 - 21) - 15) - 9);
}

#[test]
fn test_foldr() {
    let list = test_list();
    let actual = list.foldr(0, |z: i64, a: &i64| z + a);

    assert_eq!(actual, 21i64 + (15 + (9 + 0)));

    let int_list: List<i64> = list.map(|&n| n as i64);
    let actual = int_list.foldr(0i64, |z: i64, a: &i64| z - a);
    assert_eq!(actual, ((0i64 - 21) - 15) - 9);
}
