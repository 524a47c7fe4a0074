use algos_and_ds::exclusive::Link;
use algos_and_ds::exclusive::List;

#[test]
fn first_list() {
    let binding = "Hello".to_string();
    let chars = binding.chars();
    let mut list: List<char> = List::from(chars.clone().collect::<Vec<_>>());
    for c in chars.rev() {
        assert_eq!(list.pop(), Some(c));
    }
    assert_eq!(list, Link::Nil);
}

#[test]
fn exclusive_pop_on_empty_is_none() {
    let mut list: List<u32> = List::default();
    assert_eq!(list.pop(), None);
    assert!(!list.pop_node());
    assert_eq!(list, Link::Nil);
    list.push(1);
    assert_eq!(list.pop(), Some(1));
    assert_eq!(list.pop(), None);
    assert_eq!(list.pop(), None);
}

#[test]
fn exclusive_push_then_drain_is_reverse_order() {
    let input: Vec<u32> = (0..50).collect();
    let mut list: List<u32> = List::default();
    for x in input.iter() {
        list.push(*x);
    }
    let mut out = Vec::new();
    while let Some(x) = list.pop() {
        out.push(x);
    }
    let mut expected = input.clone();
    expected.reverse();
    assert_eq!(out, expected);
}

#[test]
fn exclusive_from_puts_last_element_on_top() {
    let mut list = List::from(vec![1u8, 2, 3]);
    assert_eq!(list.pop(), Some(3));
    assert_eq!(list.pop(), Some(2));
    assert_eq!(list.pop(), Some(1));
    assert_eq!(list.pop(), None);
}

#[test]
fn exclusive_pop_node_removes_one_node() {
    let mut list = List::from(vec![String::from("a"), String::from("b")]);
    assert!(list.pop_node());
    assert!(list.pop_node());
    assert!(!list.pop_node());
}

#[test]
fn exclusive_equality_compares_elements_in_order() {
    let list = List::from(vec![1u8, 2]);
    let mut same = List::from(vec![1u8, 2]);
    let mut shorter = List::from(vec![2u8]);
    let mut swapped = List::from(vec![2u8, 1]);
    assert!(list != Link::Nil);
    assert!(Link::<u8>::Nil == Link::Nil);
    let empty: List<u8> = List::default();
    assert!(empty == Link::Nil);
    assert_eq!(same.pop(), Some(2));
    assert_eq!(shorter.pop(), Some(2));
    assert_eq!(swapped.pop(), Some(1));
    assert!(shorter == Link::Nil);
    assert!(same != Link::Nil);
    assert!(swapped != Link::Nil);
}

#[test]
fn exclusive_emptied_stack_equals_nil() {
    let mut list = List::from(vec!['H', 'e', 'l', 'l', 'o']);
    assert!(list != Link::Nil);
    for c in ['o', 'l', 'l', 'e', 'H'] {
        assert_eq!(list.pop(), Some(c));
    }
    assert!(list == Link::Nil);
    assert!(Link::<char>::Nil == Link::Nil);
    list.push('x');
    assert!(list != Link::Nil);
}
