use algos_and_ds::persistent::PersistentList;

#[test]
fn third_list() {
    let binding = "Hello".to_string();
    let chars = binding.chars();
    let vec = chars.clone().collect::<Vec<_>>();
    let list = PersistentList::<char>::from(vec.as_slice());

    let mut iter = list.iter();
    assert_eq!(iter.next(), Some(&'o'));
    assert_eq!(iter.next(), Some(&'l'));
    assert_eq!(iter.next(), Some(&'l'));
}

fn contents(list: &PersistentList<char>) -> Vec<char> {
    list.iter().copied().collect()
}

#[test]
fn persistent_prepend_then_tail_is_the_same_list() {
    let list = PersistentList::<char>::from(['a', 'b', 'c'].as_slice());
    let before = contents(&list);
    assert_eq!(before, vec!['c', 'b', 'a']);
    let longer = list.prepend('d');
    assert_eq!(contents(&longer), vec!['d', 'c', 'b', 'a']);
    assert_eq!(contents(&longer.tail()), before);
    assert_eq!(contents(&list), before);
}

#[test]
fn persistent_tail_of_empty_is_empty() {
    let list: PersistentList<char> = PersistentList::default();
    assert_eq!(contents(&list), Vec::<char>::new());
    assert_eq!(contents(&list.tail()), Vec::<char>::new());
    assert_eq!(list.iter().next(), None);
    let one = list.prepend('x');
    assert_eq!(contents(&one), vec!['x']);
    assert_eq!(contents(&one.tail()), Vec::<char>::new());
}

#[test]
fn persistent_lists_share_a_suffix() {
    let base = PersistentList::<char>::from(['a', 'b'].as_slice());
    let left = base.prepend('l');
    let right = base.prepend('r');
    drop(base);
    assert_eq!(contents(&left), vec!['l', 'b', 'a']);
    assert_eq!(contents(&right), vec!['r', 'b', 'a']);
    drop(left);
    assert_eq!(contents(&right), vec!['r', 'b', 'a']);
    assert_eq!(contents(&right.tail().tail()), vec!['a']);
}

#[test]
fn persistent_iter_is_restartable() {
    let list = PersistentList::<char>::from(['a', 'b'].as_slice());
    assert_eq!(contents(&list), vec!['b', 'a']);
    assert_eq!(contents(&list), vec!['b', 'a']);
    let mut iter = list.iter();
    assert_eq!(iter.next(), Some(&'b'));
    assert_eq!(iter.next(), Some(&'a'));
    assert_eq!(iter.next(), None);
    assert_eq!(iter.next(), None);
}

#[test]
fn persistent_equality_compares_elements_in_order() {
    let list = PersistentList::<char>::from(['a', 'b'].as_slice());
    assert!(list != None);
    assert!(PersistentList::<char>::default() == None);
    assert!(list.tail().tail() == None);
}
