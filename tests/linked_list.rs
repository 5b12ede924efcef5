use rust_algorithms::linked_list::{
    concat_map, elem, empty, foldl, range, tails, zip_with, List,
};

fn to_vec<T: Clone>(xs: &List<T>) -> Vec<T> {
    let mut out = Vec::new();
    let mut cur = xs;
    while let List::Cons(x, rest) = cur {
        out.push(x.clone());
        cur = rest;
    }
    out
}

fn from_vec<T: Clone>(v: &[T]) -> List<T> {
    let mut out = List::Nil;
    for x in v.iter().rev() {
        out = List::Cons(x.clone(), Box::new(out));
    }
    out
}

#[test]
fn range_ten_counts_down() {
    assert_eq!(to_vec(&range(10)), vec![10, 9, 8, 7, 6, 5, 4, 3, 2, 1]);
}

#[test]
fn range_zero_and_negative_are_empty() {
    assert!(to_vec(&range(0)).is_empty());
    assert!(to_vec(&range(-3)).is_empty());
    assert_eq!(to_vec(&range(1)), vec![1]);
}

#[test]
fn empty_has_no_elements() {
    let e: List<i32> = empty();
    assert!(to_vec(&e).is_empty());
    assert!(!elem(0, &e));
}

#[test]
fn elem_finds_members_only() {
    let xs = range(10);
    assert!(elem(5, &xs));
    assert!(elem(10, &xs));
    assert!(elem(1, &xs));
    assert!(!elem(0, &xs));
    assert!(!elem(11, &xs));
}

#[test]
fn map_keeps_length_and_order() {
    let xs = range(4);
    let ys = rust_algorithms::linked_list::map(|x: &i32| x * 10, &xs);
    assert_eq!(to_vec(&ys), vec![40, 30, 20, 10]);
    let e: List<i32> = empty();
    assert!(to_vec(&rust_algorithms::linked_list::map(|x: &i32| x + 1, &e)).is_empty());
}

#[test]
fn concat_joins_in_order() {
    let r = rust_algorithms::linked_list::concat(from_vec(&[1, 2, 3]), from_vec(&[4, 5]));
    assert_eq!(to_vec(&r), vec![1, 2, 3, 4, 5]);
    let r = rust_algorithms::linked_list::concat(empty(), from_vec(&[7]));
    assert_eq!(to_vec(&r), vec![7]);
    let r = rust_algorithms::linked_list::concat(from_vec(&[7]), empty());
    assert_eq!(to_vec(&r), vec![7]);
}

#[test]
fn concat_map_flattens_in_order() {
    let xs = from_vec(&[1, 2, 3]);
    let r = concat_map(|x: &i32| range(*x), &xs);
    assert_eq!(to_vec(&r), vec![1, 2, 1, 3, 2, 1]);
    let e: List<i32> = empty();
    assert!(to_vec(&concat_map(|x: &i32| range(*x), &e)).is_empty());
}

#[test]
fn tails_of_two_elements() {
    let t = tails(&from_vec(&[1, 2]));
    let got: Vec<Vec<i32>> = to_vec(&t).iter().map(to_vec).collect();
    assert_eq!(got, vec![vec![1, 2], vec![2], vec![]]);
}

#[test]
fn tails_of_empty_is_one_empty_suffix() {
    let e: List<i32> = empty();
    let got: Vec<Vec<i32>> = to_vec(&tails(&e)).iter().map(to_vec).collect();
    assert_eq!(got, vec![Vec::<i32>::new()]);
}

#[test]
fn tails_length_is_one_more() {
    let t = tails(&range(5));
    assert_eq!(to_vec(&t).len(), 6);
}

#[test]
fn zip_with_stops_at_shorter() {
    let xs = from_vec(&[1, 2, 3]);
    let ys = from_vec(&[10, 20]);
    let r = zip_with(|a: &i32, b: &i32| a * b, &xs, &ys);
    assert_eq!(to_vec(&r), vec![10, 40]);
    let r = zip_with(|a: &i32, b: &i32| a - b, &ys, &xs);
    assert_eq!(to_vec(&r), vec![9, 18]);
    let e: List<i32> = empty();
    assert!(to_vec(&zip_with(|a: &i32, b: &i32| a + b, &xs, &e)).is_empty());
}

#[test]
fn foldl_goes_left_to_right() {
    let xs = range(4);
    assert_eq!(foldl(|acc: i32, x: i32| acc + x, 0, &xs), 10);
    assert_eq!(foldl(|acc: i32, x: i32| acc * 10 + x, 0, &xs), 4321);
    let e: List<i32> = empty();
    assert_eq!(foldl(|acc: i32, x: i32| acc + x, 7, &e), 7);
}

#[test]
fn clone_is_equal_and_independent() {
    let xs = range(3);
    let ys = xs.clone();
    drop(xs);
    assert_eq!(to_vec(&ys), vec![3, 2, 1]);
    let strings = from_vec(&[String::from("a"), String::from("b")]);
    let copy = strings.clone();
    assert_eq!(to_vec(&copy), to_vec(&strings));
}
