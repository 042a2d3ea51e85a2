use interpreter::list::List;

#[test]
fn test_empty_list() {
    assert_eq!(List::from(vec![]), List::Nil);
}

#[test]
fn test_from() {
    assert_eq!(List::from(vec![1]), List::Cons(1, Box::new(List::Nil)));
}

#[test]
fn test_from_into() {
    let v: Vec<i32> = vec![1, 2];
    let v2: Vec<i32> = List::from(v.clone()).into();
    assert_eq!(v2, v);
}

#[test]
fn test_from_into_longer() {
    let v: Vec<i32> = vec![5, -3, 0, 7, 7];
    let v2: Vec<i32> = List::from(v.clone()).into();
    assert_eq!(v2, v);
}
