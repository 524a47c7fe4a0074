use algos_and_ds::doubly_linked::DoubleLinkList;
use algos_and_ds::exclusive;
use algos_and_ds::exclusive_v2;
use algos_and_ds::persistent::PersistentList;
use algos_and_ds::queue::Queue;
use std::cell::Cell;
use std::rc::Rc;

#[derive(Debug)]
struct Counted {
    made: Rc<Cell<usize>>,
    gone: Rc<Cell<usize>>,
}

impl Counted {
    fn new(made: &Rc<Cell<usize>>, gone: &Rc<Cell<usize>>) -> Self {
        made.set(made.get() + 1);
        Counted { made: Rc::clone(made), gone: Rc::clone(gone) }
    }
}

impl Clone for Counted {
    fn clone(&self) -> Self {
        Counted::new(&self.made, &self.gone)
    }
}

impl Drop for Counted {
    fn drop(&mut self) {
        self.gone.set(self.gone.get() + 1);
    }
}

fn counters() -> (Rc<Cell<usize>>, Rc<Cell<usize>>) {
    (Rc::new(Cell::new(0)), Rc::new(Cell::new(0)))
}

const SIZES: [usize; 4] = [0, 1, 10_000, 300_000];

#[test]
fn teardown_exclusive_releases_every_node_once() {
    for size in SIZES {
        let (made, gone) = counters();
        let mut list: exclusive::List<Counted> = exclusive::List::default();
        for _ in 0..size {
            list.push(Counted::new(&made, &gone));
        }
        assert_eq!(gone.get(), 0);
        drop(list);
        assert_eq!(made.get(), size);
        assert_eq!(gone.get(), size);
    }
}

#[test]
fn teardown_exclusive_v2_releases_every_node_once() {
    for size in SIZES {
        let (made, gone) = counters();
        let mut list: exclusive_v2::List<Counted> = exclusive_v2::List::default();
        for _ in 0..size {
            list.push(Counted::new(&made, &gone));
        }
        assert_eq!(gone.get(), 0);
        drop(list);
        assert_eq!(made.get(), size);
        assert_eq!(gone.get(), size);
    }
}

#[test]
fn teardown_persistent_releases_every_node_once() {
    for size in SIZES {
        let (made, gone) = counters();
        let mut list: PersistentList<Counted> = PersistentList::default();
        for _ in 0..size {
            list = list.prepend(Counted::new(&made, &gone));
        }
        assert_eq!(gone.get(), 0);
        drop(list);
        assert_eq!(made.get(), size);
        assert_eq!(gone.get(), size);
    }
}

#[test]
fn teardown_persistent_keeps_a_shared_suffix() {
    let (made, gone) = counters();
    let mut base: PersistentList<Counted> = PersistentList::default();
    for _ in 0..10_000 {
        base = base.prepend(Counted::new(&made, &gone));
    }
    let mut longer = base.prepend(Counted::new(&made, &gone));
    for _ in 0..9 {
        longer = longer.prepend(Counted::new(&made, &gone));
    }
    drop(longer);
    assert_eq!(gone.get(), 10);
    let tail = base.tail();
    drop(base);
    assert_eq!(gone.get(), 11);
    drop(tail);
    assert_eq!(made.get(), 10_010);
    assert_eq!(gone.get(), 10_010);
}

#[test]
fn teardown_doubly_linked_releases_every_node_once() {
    for size in SIZES {
        let (made, gone) = counters();
        let mut list: DoubleLinkList<Counted> = DoubleLinkList::default();
        for i in 0..size {
            if i % 2 == 0 {
                list.push_back(Counted::new(&made, &gone));
            } else {
                list.push_front(Counted::new(&made, &gone));
            }
        }
        assert_eq!(gone.get(), 0);
        drop(list);
        assert_eq!(made.get(), size);
        assert_eq!(gone.get(), size);
    }
}

#[test]
fn teardown_queue_releases_every_node_once() {
    for size in SIZES {
        let (made, gone) = counters();
        let mut queue: Queue<Counted> = Queue::default();
        for _ in 0..size {
            queue.push(Counted::new(&made, &gone));
        }
        assert_eq!(gone.get(), 0);
        drop(queue);
        assert_eq!(made.get(), size);
        assert_eq!(gone.get(), size);
    }
}

#[test]
fn teardown_after_pops_releases_the_rest() {
    let (made, gone) = counters();
    let mut queue: Queue<Counted> = Queue::default();
    let mut list: DoubleLinkList<Counted> = DoubleLinkList::default();
    for _ in 0..100 {
        queue.push(Counted::new(&made, &gone));
        list.push_front(Counted::new(&made, &gone));
    }
    for _ in 0..40 {
        drop(queue.pop());
        drop(list.pop_back());
    }
    assert_eq!(gone.get(), 80);
    drop(queue);
    drop(list);
    assert_eq!(made.get(), 200);
    assert_eq!(gone.get(), 200);
}
