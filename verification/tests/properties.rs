use binary_heap::BinaryHeap;

/// A fixed sequence of numbers that looks shuffled.
struct Shuffled(u64);

impl Shuffled {
    fn next(&mut self) -> u64 {
        self.0 = self.0.wrapping_mul(6364136223846793005).wrapping_add(1442695040888963407);
        self.0 >> 33
    }

    fn below(&mut self, bound: u64) -> i64 {
        (self.next() % bound) as i64
    }
}

fn order(heap: &BinaryHeap<i64>) -> Vec<i64> {
    heap.heap().copied().collect()
}

fn is_heap_ordered(elements: &[i64]) -> bool {
    (0..elements.len()).all(|i| {
        let left = 2 * i + 1;
        let right = 2 * i + 2;
        (left >= elements.len() || elements[i] >= elements[left])
            && (right >= elements.len() || elements[i] >= elements[right])
    })
}

fn sorted(mut elements: Vec<i64>) -> Vec<i64> {
    elements.sort();
    elements
}

#[test]
fn heap_property_holds_after_pushes_pops_and_rewrites() {
    let mut numbers = Shuffled(7);
    let mut heap = BinaryHeap::new();
    for _ in 0..2000 {
        match numbers.below(4) {
            0 | 1 => heap.push(numbers.below(50)),
            2 => {
                heap.pop();
            }
            _ => {
                if let Some(mut root) = heap.peek_mut() {
                    *root = numbers.below(50);
                    root.release();
                }
            }
        }
        assert!(is_heap_ordered(&order(&heap)));
    }
    assert!(heap.len() > 0);
}

#[test]
fn heap_property_holds_after_delete_of_root_or_last() {
    let mut numbers = Shuffled(11);
    let mut heap = BinaryHeap::new();
    for step in 0..200 {
        heap.push(numbers.below(1000) * 1000 + step);
    }
    while !heap.is_empty() {
        let elements = order(&heap);
        let target = if numbers.below(2) == 0 { elements[0] } else { elements[elements.len() - 1] };
        assert_eq!(heap.delete(target), Some(target));
        assert!(is_heap_ordered(&order(&heap)));
    }
}

#[test]
fn delete_keeps_the_heap_where_the_replacement_fits_and_only_there() {
    let mut numbers = Shuffled(13);
    let mut kept = 0;
    let mut broken = 0;
    for _ in 0..300 {
        let mut heap = BinaryHeap::new();
        for step in 0..15 {
            heap.push(numbers.below(100) * 100 + step);
        }
        let before = order(&heap);
        let index = numbers.below(15) as usize;
        let last = before[before.len() - 1];
        let fits = index == 0 || index == before.len() - 1 || last <= before[(index - 1) / 2];
        assert_eq!(heap.delete(before[index]), Some(before[index]));
        assert_eq!(is_heap_ordered(&order(&heap)), fits);
        if fits {
            kept += 1;
        } else {
            broken += 1;
        }
    }
    assert!(kept > 0);
    assert!(broken > 0);
}

#[test]
fn len_counts_pushes_less_removals() {
    let mut numbers = Shuffled(3);
    let mut heap = BinaryHeap::new();
    let mut pushes = 0usize;
    let mut removals = 0usize;
    for _ in 0..1000 {
        match numbers.below(5) {
            0 | 1 => {
                heap.push(numbers.below(20));
                pushes += 1;
            }
            2 => {
                if heap.pop().is_some() {
                    removals += 1;
                }
            }
            3 => {
                if heap.delete(numbers.below(20)).is_some() {
                    removals += 1;
                }
            }
            _ => {
                if let Some(root) = heap.peek_mut() {
                    root.release();
                }
            }
        }
        assert_eq!(heap.len(), pushes - removals);
        assert_eq!(heap.is_empty(), heap.len() == 0);
        assert_eq!(heap.heap().count(), heap.len());
    }
    assert!(removals > 0);
}

#[test]
fn pops_come_in_non_increasing_order() {
    let mut numbers = Shuffled(5);
    let mut heap = BinaryHeap::new();
    let mut pushed = Vec::new();
    for _ in 0..500 {
        let value = numbers.below(100);
        heap.push(value);
        pushed.push(value);
    }
    let mut popped = Vec::new();
    while let Some(value) = heap.pop() {
        if let Some(previous) = popped.last() {
            assert!(value <= *previous);
        }
        popped.push(value);
    }
    popped.reverse();
    assert_eq!(popped, sorted(pushed));
}

#[test]
fn pops_of_equal_elements() {
    let mut heap = BinaryHeap::new();
    for value in [2, 2, 1, 2, 1] {
        heap.push(value);
    }
    assert_eq!(heap.pop(), Some(2));
    assert_eq!(heap.pop(), Some(2));
    assert_eq!(heap.pop(), Some(2));
    assert_eq!(heap.pop(), Some(1));
    assert_eq!(heap.pop(), Some(1));
    assert_eq!(heap.pop(), None);
}

#[test]
fn reading_through_a_handle_changes_nothing() {
    let mut numbers = Shuffled(17);
    let mut heap = BinaryHeap::new();
    for _ in 0..100 {
        heap.push(numbers.below(1000));
    }
    let before = order(&heap);
    {
        let root = heap.peek_mut().unwrap();
        assert_eq!(*root, before[0]);
        root.release();
    }
    assert_eq!(order(&heap), before);
}

#[test]
fn lowered_root_gives_way_to_the_greatest_of_the_rest() {
    let mut numbers = Shuffled(19);
    for _ in 0..100 {
        let mut heap = BinaryHeap::new();
        for _ in 0..20 {
            heap.push(numbers.below(1000));
        }
        let before = order(&heap);
        let lowered = before[0] - 1 - numbers.below(1000);
        {
            let mut root = heap.peek_mut().unwrap();
            *root = lowered;
            root.release();
        }
        let mut expected = before.clone();
        expected[0] = lowered;
        let greatest = *expected.iter().max().unwrap();
        assert_eq!(heap.peek(), Some(&greatest));
        assert!(is_heap_ordered(&order(&heap)));
        assert_eq!(sorted(order(&heap)), sorted(expected));
    }
}

#[test]
fn raised_root_stays_on_top() {
    let mut heap = BinaryHeap::new();
    for value in [4, 9, 6, 1] {
        heap.push(value);
    }
    let before = order(&heap);
    {
        let mut root = heap.peek_mut().unwrap();
        *root += 10;
        root.release();
    }
    let mut expected = before;
    expected[0] += 10;
    assert_eq!(order(&heap), expected);
}

#[test]
fn write_access_without_a_change_changes_nothing() {
    let mut heap = BinaryHeap::new();
    for value in [4, 9, 6, 1] {
        heap.push(value);
    }
    let before = order(&heap);
    {
        let mut root = heap.peek_mut().unwrap();
        let value = *root;
        *root = value;
        root.release();
    }
    assert_eq!(order(&heap), before);
}

#[test]
fn delete_removes_exactly_one_match() {
    let mut heap = BinaryHeap::new();
    for value in [8, 3, 5, 1, 2] {
        heap.push(value);
    }
    let before = order(&heap);
    assert_eq!(heap.delete(3), Some(3));
    let after = order(&heap);
    assert_eq!(after.len(), before.len() - 1);
    assert!(!after.contains(&3));
    let mut expected = before;
    expected.retain(|value| *value != 3);
    assert_eq!(sorted(after.clone()), sorted(expected));
    assert!(is_heap_ordered(&after));
}

#[test]
fn delete_of_one_of_several_equal_elements() {
    let mut heap = BinaryHeap::new();
    for value in [8, 3, 3, 1, 3] {
        heap.push(value);
    }
    assert_eq!(heap.delete(3), Some(3));
    assert_eq!(sorted(order(&heap)), vec![1, 3, 3, 8]);
}

#[test]
fn delete_of_an_absent_value_changes_nothing() {
    let mut heap = BinaryHeap::new();
    for value in [8, 3, 5, 1, 2] {
        heap.push(value);
    }
    let before = order(&heap);
    assert_eq!(heap.delete(4), None);
    assert_eq!(order(&heap), before);
    assert_eq!(heap.len(), 5);
}

#[test]
fn a_thousand_elements_come_out_sorted() {
    let mut heap = BinaryHeap::new();
    for value in 0..1000i64 {
        heap.push((value * 7919) % 1000);
    }
    for expected in (0..1000i64).rev() {
        assert_eq!(heap.pop(), Some(expected));
    }
    assert!(heap.is_empty());
}
