use algos_and_ds::exclusive_v2::List;

#[test]
fn second_list() {
    let binding = "Hello".to_string();
    let chars = binding.chars();
    let vec = chars.clone().collect::<Vec<_>>();
    let mut list = List::<char>::from(vec.as_slice());
    for c in chars.clone().rev() {
        assert_eq!(list.pop(), Some(c));
    }
    assert_eq!(list, None);

    list.push('a');
    let list2 = List::<char>::from(['a'].as_slice());

    assert_eq!(list, list2.head);

    let new_data = 'b';
    if let Some(v) = list.peek_mut() {
        *v = new_data;
    }

    assert_eq!(list.pop(), Some(new_data));

    for c in chars.clone() {
        list.push(c);
    }

    let chars_rev = chars.clone().rev();
    for (list_data, char) in list.iter().zip(chars_rev) {
        assert_eq!(list_data, char)
    }

    let chars_plus_one = chars.map(|x| (x as u8 + 1) as char).collect::<Vec<_>>();

    for c in list.iter_mut() {
        *c = (*c as u8 + 1) as char
    }

    for (list_data, char) in list.iter().zip(chars_plus_one.iter().rev()) {
        assert_eq!(list_data, *char)
    }
}

#[test]
fn v2_hello_push_pop_scenario() {
    let input = ['H', 'e', 'l', 'l', 'o'];
    let mut list = List::<char>::from(input.as_slice());
    list.push('a');
    assert_eq!(list.pop(), Some('a'));
    assert_eq!(list.pop(), Some('o'));
    assert_eq!(list.pop(), Some('l'));
    assert_eq!(list.pop(), Some('l'));
    assert_eq!(list.pop(), Some('e'));
    assert_eq!(list.pop(), Some('H'));
    assert_eq!(list.pop(), None);
}

#[test]
fn v2_peek_on_empty_is_none() {
    let mut list: List<u32> = List::default();
    assert_eq!(list.peek(), None);
    assert!(list.peek_mut().is_none());
    assert_eq!(list.pop(), None);
    assert!(!list.pop_node());
    assert_eq!(list.iter().next(), None);
    assert!(list.iter_mut().next().is_none());
}

#[test]
fn v2_peek_does_not_remove() {
    let mut list = List::<u32>::from([1, 2, 3].as_slice());
    assert_eq!(list.peek(), Some(&3));
    assert_eq!(list.peek(), Some(&3));
    assert_eq!(list.pop(), Some(3));
    assert_eq!(list.peek(), Some(&2));
}

#[test]
fn v2_peek_mut_changes_only_the_top() {
    let mut list = List::<u32>::from([1, 2, 3].as_slice());
    *list.peek_mut().unwrap() = 30;
    assert_eq!(list.iter().collect::<Vec<_>>(), vec![30, 2, 1]);
}

#[test]
fn v2_iter_is_restartable_and_leaves_the_list() {
    let list = List::<u32>::from([1, 2, 3].as_slice());
    assert_eq!(list.iter().collect::<Vec<_>>(), vec![3, 2, 1]);
    assert_eq!(list.iter().collect::<Vec<_>>(), vec![3, 2, 1]);
    let mut iter = list.iter();
    assert_eq!(iter.next(), Some(3));
    assert_eq!(iter.next(), Some(2));
    assert_eq!(iter.next(), Some(1));
    assert_eq!(iter.next(), None);
    assert_eq!(iter.next(), None);
}

#[test]
fn v2_iter_mut_visits_each_element_once() {
    let mut list = List::<u32>::from([1, 2, 3, 4].as_slice());
    let mut seen = 0;
    for x in list.iter_mut() {
        *x *= 10;
        seen += 1;
    }
    assert_eq!(seen, 4);
    assert_eq!(list.iter().collect::<Vec<_>>(), vec![40, 30, 20, 10]);
}

#[test]
fn v2_iter_mut_stopped_early_keeps_the_rest() {
    let mut list = List::<u32>::from([1, 2, 3].as_slice());
    {
        let mut iter = list.iter_mut();
        *iter.next().unwrap() = 7;
    }
    assert_eq!(list.iter().collect::<Vec<_>>(), vec![7, 2, 1]);
}

#[test]
fn v2_consuming_iteration_pops_and_empties() {
    let mut list = List::<u32>::from([1, 2, 3].as_slice());
    let mut out = Vec::new();
    for x in list.by_ref() {
        out.push(x);
    }
    assert_eq!(out, vec![3, 2, 1]);
    assert_eq!(list, None);
    assert_eq!(list.next(), None);
}

#[test]
fn v2_pop_node_removes_one_node() {
    let mut list = List::<String>::from([String::from("a"), String::from("b")].as_slice());
    assert!(list.pop_node());
    assert_eq!(list.peek(), Some(&String::from("a")));
    assert!(list.pop_node());
    assert!(!list.pop_node());
}

#[test]
fn v2_equality_compares_elements_in_order() {
    let list = List::<u32>::from([1, 2].as_slice());
    let same = List::<u32>::from([1, 2].as_slice());
    let longer = List::<u32>::from([0, 1, 2].as_slice());
    let other = List::<u32>::from([1, 3].as_slice());
    assert!(list == same.head);
    assert!(list != longer.head);
    assert!(longer != list.head);
    assert!(list != other.head);
    assert!(list != None);
    assert!(List::<u32>::default() == None);
}
