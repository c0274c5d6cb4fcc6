use phpify::array::{
    array_pop, array_push, array_rand, array_search, array_shift, array_unique, array_unshift,
    array_walk,
};

#[test]
fn array_pop_test() {
    let mut vec = vec!["a", "b", "c"];
    assert_eq!(array_pop(&mut vec), Some("c"));
    assert_eq!(vec, vec!["a", "b"]);
    assert_eq!(array_pop::<usize>(&mut Vec::new()), None);
}

#[test]
fn array_push_test() {
    let mut vec = vec!["a", "b"];
    array_push(&mut vec, "c");
    assert_eq!(vec, vec!["a", "b", "c"]);
}

#[test]
fn array_rand_test() {
    let rand = array_rand(&vec!["a", "b", "c"]);
    assert_eq!(rand.is_some(), true);
    assert_eq!(rand.unwrap() <= 2, true);
    assert_eq!(array_rand(&vec!["a"]), Some(0));
    assert_eq!(array_rand::<usize>(&Vec::new()), None);
}

#[test]
fn array_rand_stays_in_bounds() {
    let input = vec![10, 20, 30, 40, 50];
    for _ in 0..100 {
        let index = array_rand(&input).unwrap();
        assert!(index < input.len());
    }
}

#[test]
fn array_search_test() {
    assert_eq!(array_search(&"a", &vec!["a", "b", "c"]), Some(0));
    assert_eq!(array_search(&"c", &vec!["a", "b", "c"]), Some(2));
    assert_eq!(array_search(&"d", &vec!["a", "b", "c"]), None);
    assert_eq!(array_search(&"a", &Vec::new()), None);
}

#[test]
fn array_search_finds_first_of_duplicates() {
    let array = vec!["blue", "red", "green", "red"];
    assert_eq!(array_search(&"red", &array), Some(1));
}

#[test]
fn array_shift_test() {
    let mut vec = vec!["a", "b", "c"];
    assert_eq!(array_shift(&mut vec), Some("a"));
    assert_eq!(vec, vec!["b", "c"]);
    assert_eq!(array_shift::<usize>(&mut Vec::new()), None);
}

#[test]
fn array_unique_test() {
    assert_eq!(array_unique(&vec!["a", "b", "a", "c", "b"]), [&"a", &"b", &"c"]);
}

#[test]
fn array_unshift_test() {
    let mut vec = vec!["b", "c"];
    array_unshift(&mut vec, "a");
    assert_eq!(vec, vec!["a", "b", "c"]);
}

#[test]
fn array_walk_test() {
    let mut vec = vec![1, 2, 3];
    array_walk(&mut vec, |value: &usize, index: usize| *value * index);
    assert_eq!(vec, [0, 2, 6]);
}

#[test]
fn pop_then_push_restores() {
    let mut vec = vec![4, 7, 7, 9];
    let original = vec.clone();
    let last = array_pop(&mut vec).unwrap();
    array_push(&mut vec, last);
    assert_eq!(vec, original);
}

#[test]
fn shift_then_unshift_restores() {
    let mut vec = vec!["x", "y", "x", "z"];
    let original = vec.clone();
    let first = array_shift(&mut vec).unwrap();
    array_unshift(&mut vec, first);
    assert_eq!(vec, original);
}
