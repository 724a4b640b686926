use binary_heap::BinaryHeap;
use std::cmp::Ordering;

/// Ordered by `key` alone and equal by `key` alone; `tag` tells apart what the
/// order cannot.
#[derive(Debug, Clone, Copy)]
struct Keyed {
    key: i32,
    tag: char,
}

impl PartialEq for Keyed {
    fn eq(&self, other: &Self) -> bool {
        self.key == other.key
    }
}

impl PartialOrd for Keyed {
    fn partial_cmp(&self, other: &Self) -> Option<Ordering> {
        self.key.partial_cmp(&other.key)
    }
}

fn keyed(key: i32, tag: char) -> Keyed {
    Keyed { key, tag }
}

fn tags(heap: &BinaryHeap<Keyed>) -> String {
    heap.heap().map(|element| element.tag).collect()
}

fn order(heap: &BinaryHeap<i32>) -> Vec<i32> {
    heap.heap().copied().collect()
}

#[test]
fn empty_heap_yields_nothing() {
    let mut heap: BinaryHeap<i32> = BinaryHeap::new();
    assert_eq!(heap.len(), 0);
    assert!(heap.is_empty());
    assert_eq!(heap.peek(), None);
    assert_eq!(heap.pop(), None);
    assert_eq!(heap.delete(1), None);
    assert!(heap.peek_mut().is_none());
    assert_eq!(heap.heap().count(), 0);
    assert!(heap.is_empty());
}

#[test]
fn single_element_comes_and_goes() {
    let mut heap = BinaryHeap::new();
    heap.push(7);
    assert_eq!(heap.len(), 1);
    assert!(!heap.is_empty());
    assert_eq!(heap.peek(), Some(&7));
    assert_eq!(heap.pop(), Some(7));
    assert!(heap.is_empty());
    assert_eq!(heap.pop(), None);
}

#[test]
fn clear_empties_the_heap() {
    let mut heap = BinaryHeap::new();
    heap.push(3);
    heap.push(1);
    heap.push(2);
    heap.clear();
    assert_eq!(heap.len(), 0);
    assert!(heap.is_empty());
    assert_eq!(heap.peek(), None);
    heap.push(4);
    assert_eq!(order(&heap), vec![4]);
}

#[test]
fn delete_of_the_only_element() {
    let mut heap = BinaryHeap::new();
    heap.push(4);
    assert_eq!(heap.delete(4), Some(4));
    assert!(heap.is_empty());
}

#[test]
fn delete_of_the_last_slot() {
    let mut heap = BinaryHeap::new();
    for value in [5, 3, 4, 2, 1] {
        heap.push(value);
    }
    assert_eq!(heap.delete(1), Some(1));
    assert_eq!(order(&heap), vec![5, 3, 4, 2]);
}

#[test]
fn delete_of_the_root() {
    let mut heap = BinaryHeap::new();
    for value in [5, 3, 4, 2, 1] {
        heap.push(value);
    }
    assert_eq!(heap.delete(5), Some(5));
    assert_eq!(order(&heap), vec![4, 3, 1, 2]);
}

#[test]
fn delete_takes_the_first_match_in_storage_order() {
    let mut heap = BinaryHeap::new();
    heap.push(keyed(9, 'a'));
    heap.push(keyed(3, 'b'));
    heap.push(keyed(3, 'c'));
    heap.push(keyed(1, 'd'));
    assert_eq!(tags(&heap), "abcd");
    let removed = heap.delete(keyed(3, '?')).unwrap();
    assert_eq!(removed.tag, 'b');
    assert_eq!(tags(&heap), "adc");
}

#[test]
fn delete_returns_the_stored_element() {
    let mut heap = BinaryHeap::new();
    heap.push(keyed(2, 'x'));
    let removed = heap.delete(keyed(2, 'y')).unwrap();
    assert_eq!(removed.tag, 'x');
}

#[test]
fn equal_children_send_the_left_one_up() {
    let mut heap = BinaryHeap::new();
    heap.push(keyed(9, 'a'));
    heap.push(keyed(5, 'b'));
    heap.push(keyed(5, 'c'));
    assert_eq!(heap.pop().unwrap().tag, 'a');
    // 'c' came to the root and stays: 'b' does not exceed it.
    assert_eq!(tags(&heap), "cb");

    let mut heap = BinaryHeap::new();
    heap.push(keyed(9, 'a'));
    heap.push(keyed(5, 'b'));
    heap.push(keyed(5, 'c'));
    {
        let mut root = heap.peek_mut().unwrap();
        *root = keyed(1, 'z');
        root.release();
    }
    assert_eq!(tags(&heap), "bzc");
}

#[test]
fn an_element_equal_to_its_parent_stays_below() {
    let mut heap = BinaryHeap::new();
    heap.push(keyed(5, 'a'));
    heap.push(keyed(5, 'b'));
    heap.push(keyed(5, 'c'));
    assert_eq!(tags(&heap), "abc");
}

#[test]
fn iteration_is_in_storage_order_and_restarts() {
    let mut heap = BinaryHeap::new();
    for value in [1, 2, 5, 4, 3] {
        heap.push(value);
    }
    let first: Vec<i32> = heap.heap().copied().collect();
    let second: Vec<i32> = heap.heap().copied().collect();
    assert_eq!(first, vec![5, 4, 2, 1, 3]);
    assert_eq!(first, second);
    assert_eq!(heap.len(), 5);
    let mut elements = heap.heap();
    assert_eq!(elements.next(), Some(&5));
    assert_eq!(elements.next(), Some(&4));
}

#[test]
fn elements_without_size_are_counted() {
    let mut heap = BinaryHeap::new();
    heap.push(());
    heap.push(());
    heap.push(());
    assert_eq!(heap.len(), 3);
    assert_eq!(heap.pop(), Some(()));
    assert_eq!(heap.delete(()), Some(()));
    assert_eq!(heap.len(), 1);
}

#[test]
fn floats_are_ordered_by_their_comparison() {
    let mut heap = BinaryHeap::new();
    for value in [1.5f64, 2.5, 0.5, 2.0] {
        heap.push(value);
    }
    assert_eq!(heap.pop(), Some(2.5));
    assert_eq!(heap.pop(), Some(2.0));
    assert_eq!(heap.pop(), Some(1.5));
    assert_eq!(heap.pop(), Some(0.5));
    assert_eq!(heap.pop(), None);
}

#[test]
fn strings_are_ordered_by_their_comparison() {
    let mut heap = BinaryHeap::new();
    for word in ["pear", "apple", "quince", "fig"] {
        heap.push(word.to_string());
    }
    assert_eq!(heap.delete("fig".to_string()), Some("fig".to_string()));
    assert_eq!(heap.pop(), Some("quince".to_string()));
    assert_eq!(heap.pop(), Some("pear".to_string()));
    assert_eq!(heap.pop(), Some("apple".to_string()));
    assert_eq!(heap.pop(), None);
}
