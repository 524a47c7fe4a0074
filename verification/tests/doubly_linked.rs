use algos_and_ds::doubly_linked::DoubleLinkList;

#[test]
fn fourth_list() {
    let binding = "Hello".to_string();
    let chars = binding.chars();

    let vec = chars.clone().collect::<Vec<_>>();
    let mut list = DoubleLinkList::<char>::from(vec.as_slice());

    assert_eq!(*list.peek_front().unwrap(), 'o');
    assert_eq!(*list.peek_back().unwrap(), 'H');

    assert_eq!(list.pop_front(), Some('o'));
    assert_eq!(list.pop_front(), Some('l'));

    list.push_back('P');

    assert_eq!(list.pop_back(), Some('P'));
    assert_eq!(list.pop_back(), Some('H'));

    assert_eq!(list.next(), Some('l'));
    assert_eq!(list.next_back(), Some('e'));
}

#[test]
fn doubly_hello_scenario() {
    let mut list: DoubleLinkList<char> = DoubleLinkList::default();
    for c in ['H', 'e', 'l', 'l', 'o'] {
        list.push_front(c);
    }
    assert_eq!(list.pop_front(), Some('o'));
    assert_eq!(list.pop_front(), Some('l'));
    list.push_back('P');
    assert_eq!(list.pop_back(), Some('P'));
    assert_eq!(list.pop_back(), Some('H'));
}

#[test]
fn doubly_empty_list_gives_none() {
    let mut list: DoubleLinkList<u32> = DoubleLinkList::default();
    assert!(list.peek_front().is_none());
    assert!(list.peek_back().is_none());
    assert_eq!(list.pop_front(), None);
    assert_eq!(list.pop_back(), None);
    assert_eq!(list.next(), None);
    assert_eq!(list.next_back(), None);
    list.push_back(1);
    assert_eq!(list.pop_front(), Some(1));
    assert_eq!(list.pop_back(), None);
    assert!(list.peek_front().is_none());
    assert!(list.peek_back().is_none());
}

#[test]
fn doubly_single_element_is_both_ends() {
    let mut list: DoubleLinkList<u32> = DoubleLinkList::default();
    list.push_front(9);
    assert_eq!(list.peek_front(), Some(&9));
    assert_eq!(list.peek_back(), Some(&9));
    assert_eq!(list.pop_back(), Some(9));
    assert!(list.peek_front().is_none());
    list.push_back(8);
    assert_eq!(list.peek_front(), Some(&8));
    assert_eq!(list.peek_back(), Some(&8));
}

#[test]
fn doubly_peeks_follow_every_push() {
    let mut list: DoubleLinkList<i32> = DoubleLinkList::default();
    let mut model: std::collections::VecDeque<i32> = std::collections::VecDeque::new();
    for i in 0..40 {
        if i % 3 == 0 {
            list.push_back(i);
            model.push_back(i);
        } else {
            list.push_front(-i);
            model.push_front(-i);
        }
        assert_eq!(list.peek_front(), model.front());
        assert_eq!(list.peek_back(), model.back());
    }
}

#[test]
fn doubly_alternating_drain_yields_each_element_once() {
    let input: Vec<u32> = (0..11).collect();
    let mut list: DoubleLinkList<u32> = DoubleLinkList::default();
    for x in input.iter() {
        list.push_back(*x);
    }
    let mut out = Vec::new();
    loop {
        match list.next() {
            Some(x) => out.push(x),
            None => break,
        }
        match list.next_back() {
            Some(x) => out.push(x),
            None => break,
        }
    }
    assert_eq!(out, vec![0, 10, 1, 9, 2, 8, 3, 7, 4, 6, 5]);
    let mut sorted = out.clone();
    sorted.sort();
    assert_eq!(sorted, input);
    assert_eq!(list.next(), None);
    assert_eq!(list.next_back(), None);
}

#[test]
fn doubly_slots_are_reused_after_pops() {
    let mut list: DoubleLinkList<u32> = DoubleLinkList::default();
    for round in 0..5 {
        for i in 0..20 {
            if i % 2 == 0 {
                list.push_back(round * 100 + i);
            } else {
                list.push_front(round * 100 + i);
            }
        }
        for _ in 0..10 {
            assert!(list.pop_front().is_some());
            assert!(list.pop_back().is_some());
        }
        assert!(list.peek_front().is_none());
    }
}

#[test]
fn doubly_reversed_iteration_pops_from_the_back() {
    let list = DoubleLinkList::<u32>::from([1, 2, 3].as_slice());
    assert_eq!(list.rev().collect::<Vec<_>>(), vec![1, 2, 3]);
    let list = DoubleLinkList::<u32>::from([1, 2, 3].as_slice());
    assert_eq!(list.collect::<Vec<_>>(), vec![3, 2, 1]);
}
