use tabu_structure::TabuStructure;

#[test]
fn new_set_is_empty() {
    let tabu = TabuStructure::new(3);
    assert_eq!(tabu.len(), 0);
    assert_eq!(tabu.capacity(), 3);
    assert!(!tabu.find((0, 0)));
    assert!(!tabu.find((1, 1)));
}

#[test]
fn capacity_two_evicts_the_oldest() {
    let mut tabu = TabuStructure::new(2);
    tabu.insert((1, 1));
    assert!(tabu.find((1, 1)));
    tabu.insert((2, 2));
    assert!(tabu.find((1, 1)));
    assert!(tabu.find((2, 2)));
    tabu.insert((3, 3));
    assert!(!tabu.find((1, 1)));
    assert!(tabu.find((2, 2)));
    assert!(tabu.find((3, 3)));
    assert_eq!(tabu.len(), 2);
}

#[test]
fn capacity_zero_holds_nothing() {
    let mut tabu = TabuStructure::new(0);
    tabu.insert((1, 1));
    assert!(!tabu.find((1, 1)));
    assert_eq!(tabu.len(), 0);
    tabu.insert((1, 1));
    tabu.insert((2, 2));
    assert!(!tabu.find((1, 1)));
    assert!(!tabu.find((2, 2)));
    assert_eq!(tabu.len(), 0);
}

#[test]
fn capacity_one_duplicate_evicts_nobody() {
    let mut tabu = TabuStructure::new(1);
    tabu.insert((1, 1));
    tabu.insert((1, 1));
    assert!(tabu.find((1, 1)));
    assert_eq!(tabu.len(), 1);
    tabu.insert((2, 2));
    assert!(!tabu.find((1, 1)));
    assert!(tabu.find((2, 2)));
    assert_eq!(tabu.len(), 1);
}

#[test]
fn size_grows_by_one_up_to_capacity() {
    let mut tabu = TabuStructure::new(3);
    tabu.insert((10, 0));
    assert_eq!(tabu.len(), 1);
    tabu.insert((20, 0));
    assert_eq!(tabu.len(), 2);
    tabu.insert((20, 0));
    assert_eq!(tabu.len(), 2);
    tabu.insert((30, 0));
    assert_eq!(tabu.len(), 3);
    tabu.insert((40, 0));
    assert_eq!(tabu.len(), 3);
    tabu.insert((30, 0));
    assert_eq!(tabu.len(), 3);
    assert_eq!(tabu.capacity(), 3);
}

#[test]
fn full_set_evicts_exactly_one() {
    let mut tabu = TabuStructure::new(3);
    tabu.insert((1, 0));
    tabu.insert((2, 0));
    tabu.insert((3, 0));
    assert_eq!(tabu.len(), 3);
    tabu.insert((4, 0));
    assert_eq!(tabu.len(), 3);
    assert!(!tabu.find((1, 0)));
    assert!(tabu.find((2, 0)));
    assert!(tabu.find((3, 0)));
    assert!(tabu.find((4, 0)));
}

#[test]
fn size_never_exceeds_capacity() {
    let mut capacity: usize = 0;
    while capacity <= 5 {
        let mut tabu = TabuStructure::new(capacity);
        let mut step: i64 = 0;
        while step < 40 {
            tabu.insert((step % 7, step % 3));
            assert!(tabu.len() <= capacity);
            step += 1;
        }
        capacity += 1;
    }
}

#[test]
fn overflow_by_one_evicts_the_first() {
    let mut capacity: usize = 0;
    while capacity <= 6 {
        let mut tabu = TabuStructure::new(capacity);
        let mut next: i64 = 1;
        while next <= capacity as i64 + 1 {
            tabu.insert((next, -next));
            next += 1;
        }
        assert!(!tabu.find((1, -1)));
        let mut other: i64 = 2;
        while other <= capacity as i64 + 1 {
            assert!(tabu.find((other, -other)));
            other += 1;
        }
        assert_eq!(tabu.len(), capacity);
        capacity += 1;
    }
}

#[test]
fn distinct_inserts_keep_the_newest() {
    let mut tabu = TabuStructure::new(4);
    let mut next: i64 = 0;
    while next < 10 {
        tabu.insert((next, 100 + next));
        let mut seen: i64 = 0;
        while seen <= next {
            let after: i64 = next - seen;
            assert_eq!(tabu.find((seen, 100 + seen)), after < 4);
            seen += 1;
        }
        next += 1;
    }
    assert_eq!(tabu.len(), 4);
}

#[test]
fn duplicate_insert_changes_nothing() {
    let mut tabu = TabuStructure::new(2);
    tabu.insert((5, 5));
    tabu.insert((6, 6));
    tabu.insert((6, 6));
    assert!(tabu.find((5, 5)));
    assert!(tabu.find((6, 6)));
    assert_eq!(tabu.len(), 2);
    tabu.insert((5, 5));
    tabu.insert((5, 5));
    assert!(tabu.find((5, 5)));
    assert!(tabu.find((6, 6)));
    assert_eq!(tabu.len(), 2);
}

#[test]
fn repeated_insert_of_one_element_stays_at_one() {
    let mut tabu = TabuStructure::new(3);
    let mut round: u32 = 0;
    while round < 100 {
        tabu.insert((7, 7));
        assert_eq!(tabu.len(), 1);
        assert!(tabu.find((7, 7)));
        round += 1;
    }
}

#[test]
fn reinsertion_does_not_refresh_the_order() {
    let mut tabu = TabuStructure::new(3);
    tabu.insert((1, 1));
    tabu.insert((2, 2));
    tabu.insert((3, 3));
    tabu.insert((1, 1));
    tabu.insert((4, 4));
    assert!(!tabu.find((1, 1)));
    assert!(tabu.find((2, 2)));
    assert!(tabu.find((3, 3)));
    assert!(tabu.find((4, 4)));
}

#[test]
fn queries_do_not_refresh_the_order() {
    let mut tabu = TabuStructure::new(2);
    tabu.insert((1, 1));
    tabu.insert((2, 2));
    assert!(tabu.find((1, 1)));
    assert!(tabu.find((1, 1)));
    tabu.insert((3, 3));
    assert!(!tabu.find((1, 1)));
    assert!(tabu.find((2, 2)));
    assert!(tabu.find((3, 3)));
}

#[test]
fn evicted_element_can_come_back() {
    let mut tabu = TabuStructure::new(2);
    tabu.insert((1, 1));
    tabu.insert((2, 2));
    tabu.insert((3, 3));
    assert!(!tabu.find((1, 1)));
    tabu.insert((1, 1));
    assert!(tabu.find((1, 1)));
    assert!(!tabu.find((2, 2)));
    assert!(tabu.find((3, 3)));
    tabu.insert((4, 4));
    assert!(tabu.find((1, 1)));
    assert!(!tabu.find((3, 3)));
    assert!(tabu.find((4, 4)));
}

#[test]
fn pairs_are_told_apart_by_both_components() {
    let mut tabu = TabuStructure::new(8);
    tabu.insert((1, 2));
    assert!(tabu.find((1, 2)));
    assert!(!tabu.find((2, 1)));
    assert!(!tabu.find((1, 3)));
    assert!(!tabu.find((0, 2)));
    assert!(!tabu.find((-1, -2)));
    tabu.insert((2, 1));
    tabu.insert((-1, -2));
    assert!(tabu.find((2, 1)));
    assert!(tabu.find((-1, -2)));
    assert!(!tabu.find((-1, 2)));
    assert_eq!(tabu.len(), 3);
}

#[test]
fn extreme_coordinates_are_kept_apart() {
    let mut tabu = TabuStructure::new(8);
    tabu.insert((i64::MIN, i64::MIN));
    tabu.insert((i64::MAX, i64::MAX));
    tabu.insert((i64::MIN, i64::MAX));
    tabu.insert((0, 0));
    assert_eq!(tabu.len(), 4);
    assert!(tabu.find((i64::MIN, i64::MIN)));
    assert!(tabu.find((i64::MAX, i64::MAX)));
    assert!(tabu.find((i64::MIN, i64::MAX)));
    assert!(tabu.find((0, 0)));
    assert!(!tabu.find((i64::MAX, i64::MIN)));
    assert!(!tabu.find((i64::MIN, 0)));
    assert!(!tabu.find((0, i64::MIN)));
    assert!(!tabu.find((-1, -1)));
    tabu.insert((i64::MAX, i64::MIN));
    assert!(tabu.find((i64::MAX, i64::MIN)));
    assert_eq!(tabu.len(), 5);
}

#[test]
fn greatest_capacity_is_accepted() {
    let mut tabu = TabuStructure::new(usize::MAX);
    assert_eq!(tabu.capacity(), usize::MAX);
    tabu.insert((1, 1));
    tabu.insert((2, 2));
    assert!(tabu.find((1, 1)));
    assert!(tabu.find((2, 2)));
    assert_eq!(tabu.len(), 2);
}

#[test]
fn agrees_with_a_plain_list() {
    let mut capacity: usize = 0;
    while capacity <= 4 {
        let mut tabu = TabuStructure::new(capacity);
        let mut expected: Vec<(i64, i64)> = Vec::new();
        let mut state: u64 = 12345;
        let mut step: u32 = 0;
        while step < 300 {
            state = state.wrapping_mul(6364136223846793005).wrapping_add(1442695040888963407);
            let first: i64 = ((state >> 33) % 3) as i64 - 1;
            let second: i64 = ((state >> 40) % 3) as i64 - 1;
            let element: (i64, i64) = (first, second);
            if !expected.contains(&element) {
                expected.push(element);
                if expected.len() > capacity {
                    expected.remove(0);
                }
            }
            tabu.insert(element);
            assert_eq!(tabu.len(), expected.len());
            let mut a: i64 = -1;
            while a <= 1 {
                let mut b: i64 = -1;
                while b <= 1 {
                    assert_eq!(tabu.find((a, b)), expected.contains(&(a, b)));
                    b += 1;
                }
                a += 1;
            }
            step += 1;
        }
        capacity += 1;
    }
}
