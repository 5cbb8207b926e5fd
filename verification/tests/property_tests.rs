use persistent_list::list::{test_list, List};

#[test]
fn prepend_grows_length_by_one() {
    let l: List<i64> = List::empty();
    assert_eq!(l.len(), 0usize);
    let l = l.append(7);
    assert_eq!(l.len(), 1usize);
    let l = l.append(3);
    assert_eq!(l.len(), 2usize);
    let l = l.append(3);
    assert_eq!(l.len(), 3usize);
}

#[test]
fn empty_is_empty_and_prepend_is_not() {
    assert!(List::<i64>::empty().null());
    assert!(!List::<i64>::empty().append(5).null());
    assert!(!test_list().append(5).null());
}

#[test]
fn tail_of_empty_is_empty() {
    let empty: List<i64> = List::empty();
    assert!(empty.tail().null());
}

#[test]
fn first_is_most_recently_prepended() {
    let l = List::empty().append(4i64);
    assert_eq!(*l.first().unwrap(), 4);
    let l = l.append(8);
    assert_eq!(*l.first().unwrap(), 8);
    let l = l.append(2);
    assert_eq!(*l.first().unwrap(), 2);
}

#[test]
fn round_trip() {
    let l = List::empty().append(9i64).append(15).append(21);
    assert_eq!(l.len(), 3usize);
    assert_eq!(*l.first().unwrap(), 21);
    assert_eq!(*l.last().unwrap(), 9);

    let expected_tail = List::empty().append(9i64).append(15);
    assert_eq!(*l.tail(), expected_tail);

    let expected_init = List::empty().append(15i64).append(21);
    assert_eq!(l.init(), expected_init);
}

#[test]
fn map_preserves_length() {
    let empty: List<i64> = List::empty();
    assert_eq!(empty.map(|n| n * 2).len(), 0usize);
    let l = test_list();
    assert_eq!(l.map(|n| n * 2).len(), l.len());
    assert_eq!(l.map(|_| "x").len(), l.len());
}

#[test]
fn map_can_change_the_element_type() {
    let l = test_list();
    let strings = l.map(|n| format!("{}", n));
    assert_eq!(*strings.first().unwrap(), "9".to_string());
    assert_eq!(*strings.last().unwrap(), "21".to_string());
}

#[test]
fn filter_always_true_keeps_everything() {
    let l = test_list();
    assert_eq!(l.filter(|_| true), l);
}

#[test]
fn filter_always_false_keeps_nothing() {
    let l = test_list();
    assert!(l.filter(|_| false).null());
    let empty: List<i64> = List::empty();
    assert!(empty.filter(|_| true).null());
}

#[test]
fn find_returns_first_match() {
    let l = List::empty().append(30i64).append(20).append(10);
    let found = l.find(|&n| n >= 20).unwrap();
    assert_eq!(*found, 20);

    assert!(l.find(|&n| n > 100).is_none());
    let empty: List<i64> = List::empty();
    assert!(empty.find(|_| true).is_none());
}

#[test]
fn foldl_exact_values() {
    let l = List::empty().append(9i64).append(15).append(21);
    assert_eq!(l.foldl(0, |z: i64, a: &i64| z + a), 45);
    assert_eq!(l.foldl(0, |z: i64, a: &i64| z - a), ((0 - 21) - 15) - 9);
}

#[test]
fn foldr_combines_accumulated_then_head() {
    let l = List::empty().append(9i64).append(15).append(21);
    assert_eq!(l.foldr(0, |z: i64, a: &i64| z + a), 45);
    // head-to-tail [a, b, c] = [21, 15, 9]: result is f(f(f(z, c), b), a)
    assert_eq!(l.foldr(0, |z: i64, a: &i64| z - a), ((0 - 9) - 15) - 21);
    let empty: List<i64> = List::empty();
    assert_eq!(empty.foldr(7, |z: i64, a: &i64| z + a), 7);
    assert_eq!(empty.foldl(7, |z: i64, a: &i64| z + a), 7);
}

#[test]
fn init_of_short_lists_is_empty() {
    let empty: List<i64> = List::empty();
    assert!(empty.init().null());
    let single = List::empty().append(42i64);
    assert!(single.init().null());
}

#[test]
fn last_of_empty_is_absent() {
    let empty: List<i64> = List::empty();
    assert!(empty.last().is_none());
}
