use ledaw::queue::{BoundedList, SpscQueue};

#[test]
fn queue_is_fifo_and_holds_n_minus_one() {
    let mut q: SpscQueue<u32, 4> = SpscQueue::new();
    assert_eq!(q.pop(), None);
    assert!(q.push(1));
    assert!(q.push(2));
    assert!(q.push(3));
    assert!(!q.push(4));
    assert_eq!(q.pop(), Some(1));
    assert_eq!(q.pop(), Some(2));
    assert!(q.push(5));
    assert!(q.push(6));
    assert!(!q.push(7));
    assert_eq!(q.pop(), Some(3));
    assert_eq!(q.pop(), Some(5));
    assert_eq!(q.pop(), Some(6));
    assert_eq!(q.pop(), None);
}

#[test]
fn queue_of_owned_values() {
    let mut q: SpscQueue<String, 2> = SpscQueue::default();
    assert!(q.push("a".to_string()));
    assert!(!q.push("b".to_string()));
    assert_eq!(q.pop().as_deref(), Some("a"));
    assert!(q.push("c".to_string()));
    assert_eq!(q.pop().as_deref(), Some("c"));
    assert_eq!(q.pop(), None);
}

#[test]
fn bounded_list_keeps_order() {
    let mut l: BoundedList<u8, 4> = BoundedList::from_slice(&[1, 2]);
    assert_eq!(l.as_slice(), &[1, 2]);
    l.append_assume_capacity(3);
    l.append_assume_capacity(4);
    assert_eq!(l.as_slice(), &[1, 2, 3, 4]);
    let e: BoundedList<u8, 4> = BoundedList::new();
    assert!(e.as_slice().is_empty());
    let d: BoundedList<u8, 4> = BoundedList::default();
    assert!(d.as_slice().is_empty());
    let c = l.clone();
    assert_eq!(c.as_slice(), l.as_slice());
}

#[test]
fn new_queue_takes_exactly_n_minus_one() {
    let mut q: SpscQueue<u8, 17> = SpscQueue::new();
    for i in 0..16u8 {
        assert!(q.push(i));
    }
    assert!(!q.push(16));
    for i in 0..16u8 {
        assert_eq!(q.pop(), Some(i));
    }
    assert_eq!(q.pop(), None);
}

#[test]
fn a_run_of_appends_keeps_order() {
    let mut l: BoundedList<u16, 6> = BoundedList::from_slice(&[7, 8]);
    for x in [1u16, 2, 3, 4] {
        l.append_assume_capacity(x);
    }
    assert_eq!(l.as_slice(), &[7, 8, 1, 2, 3, 4]);
}
