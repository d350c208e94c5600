use iamlisp::data::list::List;

fn show(list: &List<i32>) -> String {
    list.to_text(|x: &i32| x.to_string())
}

#[test]
fn test_macro_constructor() {
    assert_eq!("(0 1 2 3 4 5)", show(&List::from_vec(vec![0, 1, 2, 3, 4, 5])));
}

#[test]
fn test_push() {
    let mut list = List::new();
    list.push(10);
    list.push(20);

    assert_eq!("(10 20)", show(&list));
}

#[test]
fn test_unshift() {
    let mut list = List::new();
    list.push_top(10);
    list.push_top(20);

    assert_eq!("(20 10)", show(&list));
}

#[test]
fn test_reverse() {
    let list = List::from_vec(vec![10, 20]).reverse();

    assert_eq!("(20 10)", show(&list));
}

#[test]
fn test_map() {
    let list = List::from_vec(vec![10, 20]).map(|a: i32| a.wrapping_mul(2));

    assert_eq!("(20 40)", show(&list));
}

#[test]
fn test_filter() {
    let list: List<i32> = List::from_vec((0..10).collect()).filter(|i: &i32| i % 2 == 0);

    assert_eq!("(0 2 4 6 8)", show(&list));
}

#[test]
fn test_into_list() {
    let list: List<i32> = List::from_vec((0..4).collect());

    assert_eq!("(0 1 2 3)", show(&list));
}

#[test]
fn test_pop_mut() {
    let mut list: List<i32> = List::from_vec((0..4).collect());

    assert_eq!("(0 1 2 3)", show(&list));

    assert_eq!(Some(0), list.shift());

    assert_eq!("(1 2 3)", show(&list));
}

#[test]
fn list_pop_takes_the_last() {
    let mut list: List<i32> = List::from_vec(vec![1, 2, 3]);

    assert_eq!(Some(3), list.pop());
    assert_eq!("(1 2)", show(&list));
    assert_eq!(2, list.len());
}

#[test]
fn list_empty_edges() {
    let mut list: List<i32> = List::new();

    assert!(list.is_empty());
    assert_eq!(None, list.shift());
    assert_eq!(None, list.pop());
    assert_eq!(None, list.head());
    assert_eq!("()", show(&list));
}

#[test]
fn list_head_and_tail() {
    let mut list: List<i32> = List::from_vec(vec![7, 8, 9]);

    assert_eq!(Some(&7), list.head());
    assert_eq!("(8 9)", show(list.tail()));
    if let Some(first) = list.head_mut() {
        *first = 70;
    }
    list.tail_mut().push_top(75);
    assert_eq!("(70 75 8 9)", show(&list));
    assert_eq!(vec![&70, &75, &8, &9], list.iter());
}
