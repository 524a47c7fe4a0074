use algos_and_ds::queue::Queue;

#[test]
fn fifth_list() {
    let binding = "HelloWorld".to_string();
    let chars = binding.chars();
    let vec = chars.clone().collect::<Vec<_>>();
    let mut queue = Queue::<char>::from(vec.as_slice());

    for c in chars.clone() {
        assert_eq!(queue.pop(), Some(c));
    }

    for c in chars.clone() {
        queue.push(c);
    }
    for (list_data, char) in queue.iter().zip(chars.clone()) {
        assert_eq!(list_data, char)
    }

    let chars_plus_one = chars.map(|x| (x as u8 + 1) as char).collect::<Vec<_>>();

    let mut iter = queue.iter_mut();
    while let Some(c) = iter.next() {
        *c = (*c as u8 + 1) as char
    }

    for (list_data, char) in queue.iter().zip(chars_plus_one.iter()) {
        assert_eq!(list_data, *char)
    }
}

#[test]
fn queue_push_then_drain_is_input_order() {
    let input: Vec<u32> = (0..50).collect();
    let mut queue: Queue<u32> = Queue::default();
    for x in input.iter() {
        queue.push(*x);
    }
    let mut out = Vec::new();
    while let Some(x) = queue.pop() {
        out.push(x);
    }
    assert_eq!(out, input);
}

#[test]
fn queue_pop_on_empty_is_none() {
    let mut queue: Queue<u32> = Queue::default();
    assert_eq!(queue.pop(), None);
    assert_eq!(queue.iter().next(), None);
    assert!(queue.iter_mut().next().is_none());
    queue.push(1);
    assert_eq!(queue.pop(), Some(1));
    assert_eq!(queue.pop(), None);
    queue.push(2);
    queue.push(3);
    assert_eq!(queue.pop(), Some(2));
    assert_eq!(queue.pop(), Some(3));
    assert_eq!(queue.pop(), None);
}

#[test]
fn queue_interleaved_push_and_pop_keep_order() {
    let mut queue: Queue<u32> = Queue::default();
    let mut model: std::collections::VecDeque<u32> = std::collections::VecDeque::new();
    for i in 0..200u32 {
        if i % 3 == 2 {
            assert_eq!(queue.pop(), model.pop_front());
        } else {
            queue.push(i);
            model.push_back(i);
        }
        assert_eq!(queue.iter().collect::<Vec<_>>(), model.iter().copied().collect::<Vec<_>>());
    }
    while let Some(x) = model.pop_front() {
        assert_eq!(queue.pop(), Some(x));
    }
    assert_eq!(queue.pop(), None);
}

#[test]
fn queue_iter_is_restartable_and_leaves_the_queue() {
    let queue = Queue::<u32>::from([1, 2, 3].as_slice());
    assert_eq!(queue.iter().collect::<Vec<_>>(), vec![1, 2, 3]);
    assert_eq!(queue.iter().collect::<Vec<_>>(), vec![1, 2, 3]);
    let mut iter = queue.iter();
    assert_eq!(iter.next(), Some(1));
    assert_eq!(iter.next(), Some(2));
    assert_eq!(iter.next(), Some(3));
    assert_eq!(iter.next(), None);
    assert_eq!(iter.next(), None);
}

#[test]
fn queue_iter_mut_stopped_early_keeps_the_rest() {
    let mut queue = Queue::<u32>::from([1, 2, 3].as_slice());
    {
        let mut iter = queue.iter_mut();
        *iter.next().unwrap() = 7;
        *iter.next().unwrap() += 10;
    }
    assert_eq!(queue.iter().collect::<Vec<_>>(), vec![7, 12, 3]);
    queue.push(4);
    assert_eq!(queue.pop(), Some(7));
    assert_eq!(queue.iter().collect::<Vec<_>>(), vec![12, 3, 4]);
}

#[test]
fn queue_consuming_iteration_pops_and_empties() {
    let mut queue = Queue::<u32>::from([1, 2, 3].as_slice());
    let mut out = Vec::new();
    for x in queue.by_ref() {
        out.push(x);
    }
    assert_eq!(out, vec![1, 2, 3]);
    assert_eq!(queue.pop(), None);
}

#[test]
fn queue_holds_values_that_are_not_copy() {
    let mut queue: Queue<String> = Queue::default();
    queue.push(String::from("a"));
    queue.push(String::from("b"));
    {
        let mut iter = queue.iter_mut();
        while let Some(s) = iter.next() {
            s.push('!');
        }
    }
    assert_eq!(queue.pop(), Some(String::from("a!")));
    assert_eq!(queue.pop(), Some(String::from("b!")));
    assert_eq!(queue.pop(), None);
}
