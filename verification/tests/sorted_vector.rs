use ecs::collections::sorted_vector::SortedVec;
use std::collections::HashMap;

#[test]
fn sorted_vector_test_new() {
    let sv: SortedVec<i32> = SortedVec::new();
    assert_eq!(sv.as_slice(), &[]);
}

#[test]
fn test_insert_sorted() {
    let mut sv: SortedVec<i32> = SortedVec::new();
    sv.insert(3);
    sv.insert(1);
    sv.insert(4);
    sv.insert(2);
    assert_eq!(sv.as_slice(), &[1, 2, 3, 4]);
}

#[test]
fn test_insert_duplicated() {
    let mut sv: SortedVec<i32> = SortedVec::new();
    sv.insert(2);
    sv.insert(1);
    sv.insert(4);
    sv.insert(2);
    assert_eq!(sv.as_slice(), &[1, 2, 2, 4]);
}

#[test]
fn test_from_iterator() {
    let sv: SortedVec<i32> = SortedVec::from_vec(vec![3, 1, 4, 1, 5, 9]);
    assert_eq!(sv.as_slice(), &[1, 1, 3, 4, 5, 9]);
}

#[test]
fn test_equality() {
    let sv1: SortedVec<i32> = SortedVec::from_vec(vec![1, 2, 3]);
    let sv2: SortedVec<i32> = SortedVec::from_vec(vec![3, 2, 1]);
    assert_eq!(sv1, sv2);
}

#[test]
fn test_hash_consistency() {
    let sv1: SortedVec<i32> = SortedVec::from_vec(vec![1, 3, 2]);
    let sv2: SortedVec<i32> = SortedVec::from_vec(vec![3, 2, 1]);
    assert_eq!(sv1.compute_hash(), sv2.compute_hash());
}

#[test]
fn test_as_hashmap_key() {
    let sv1: SortedVec<i32> = SortedVec::from_vec(vec![1, 2, 3]);
    let sv2: SortedVec<i32> = SortedVec::from_vec(vec![3, 2, 1]);

    let mut map: HashMap<SortedVec<i32>, String> = HashMap::new();
    map.insert(sv1.clone(), "value1".to_string());

    map.insert(sv2.clone(), "value2".to_string());

    assert_eq!(map.len(), 1);
    assert_eq!(map.get(&sv1), Some(&"value2".to_string()));
    assert_eq!(map.get(&sv2), Some(&"value2".to_string()));
}

#[test]
fn test_ordering() {
    let sv1: SortedVec<i32> = SortedVec::from_vec(vec![1, 2]);
    let sv2: SortedVec<i32> = SortedVec::from_vec(vec![1, 2, 3]);
    assert!(sv1 < sv2);
}

#[test]
fn test_into_iterator_borrowing() {
    let sv: SortedVec<i32> = SortedVec::from_vec(vec![3, 1, 2]);
    let mut iter = sv.as_slice().iter();
    assert_eq!(iter.next(), Some(&1));
    assert_eq!(iter.next(), Some(&2));
    assert_eq!(iter.next(), Some(&3));
    assert_eq!(iter.next(), None);
}

#[test]
fn test_for_loop() {
    let sv: SortedVec<i32> = SortedVec::from_vec(vec![3, 1, 4, 1, 5]);
    let mut sum = 0;
    for &val in sv.as_slice() {
        sum += val;
    }
    assert_eq!(sum, 1 + 1 + 3 + 4 + 5);
}

#[test]
fn test_contains() {
    let sv: SortedVec<i32> = SortedVec::from_vec(vec![3, 1, 4, 1, 5, 9]);
    assert!(sv.contains(&1));
    assert!(sv.contains(&3));
    assert!(sv.contains(&4));
    assert!(sv.contains(&5));
    assert!(sv.contains(&9));
    assert!(!sv.contains(&2));
    assert!(!sv.contains(&0));
    assert!(!sv.contains(&10));
}

#[test]
fn test_contains_empty() {
    let sv: SortedVec<i32> = SortedVec::new();
    assert!(!sv.contains(&42));
}

#[test]
fn test_index() {
    let sv: SortedVec<i32> = SortedVec::from_vec(vec![3, 1, 2]);
    assert_eq!(sv[0], 1);
    assert_eq!(sv[1], 2);
    assert_eq!(sv[2], 3);
}

#[test]
fn insertion_order_does_not_show() {
    let orders: [[u64; 4]; 6] = [
        [1, 2, 3, 4],
        [4, 3, 2, 1],
        [2, 4, 1, 3],
        [3, 1, 4, 2],
        [1, 3, 2, 4],
        [4, 1, 3, 2],
    ];
    let reference: SortedVec<u64> = SortedVec::from_vec(vec![1, 2, 3, 4]);
    for order in orders {
        let mut inserted: SortedVec<u64> = SortedVec::new();
        for item in order {
            inserted.insert(item);
        }
        let collected = SortedVec::from_vec(order.to_vec());
        assert_eq!(inserted.as_slice(), &[1, 2, 3, 4]);
        assert_eq!(inserted, reference);
        assert_eq!(collected, reference);
        assert_eq!(inserted.compute_hash(), reference.compute_hash());
        assert_eq!(collected.compute_hash(), reference.compute_hash());
    }
}

#[test]
fn hash_tells_different_lists_apart() {
    let one: SortedVec<i32> = SortedVec::from_vec(vec![1, 2, 3]);
    let other: SortedVec<i32> = SortedVec::from_vec(vec![1, 2, 4]);
    let shorter: SortedVec<i32> = SortedVec::from_vec(vec![1, 2]);
    let empty: SortedVec<i32> = SortedVec::new();

    assert_ne!(one.compute_hash(), other.compute_hash());
    assert_ne!(one.compute_hash(), shorter.compute_hash());
    assert_ne!(one.compute_hash(), empty.compute_hash());
}

#[test]
fn lower_bound_is_the_place_of_insertion() {
    let sv: SortedVec<i32> = SortedVec::from_vec(vec![10, 20, 20, 30]);

    assert_eq!(sv.lower_bound(&5), 0);
    assert_eq!(sv.lower_bound(&10), 0);
    assert_eq!(sv.lower_bound(&15), 1);
    assert_eq!(sv.lower_bound(&20), 1);
    assert_eq!(sv.lower_bound(&25), 3);
    assert_eq!(sv.lower_bound(&30), 3);
    assert_eq!(sv.lower_bound(&35), 4);
    assert_eq!(SortedVec::<i32>::new().lower_bound(&1), 0);
}

#[test]
fn position_is_the_first_occurrence() {
    let sv: SortedVec<i32> = SortedVec::from_vec(vec![10, 20, 20, 30]);

    assert_eq!(sv.position(&10), Some(0));
    assert_eq!(sv.position(&20), Some(1));
    assert_eq!(sv.position(&30), Some(3));
    assert_eq!(sv.position(&15), None);
    assert_eq!(sv.position(&40), None);
    assert_eq!(SortedVec::<i32>::new().position(&10), None);
}

#[test]
fn len_counts_repeated_items() {
    let mut sv: SortedVec<i32> = SortedVec::new();
    assert_eq!(sv.len(), 0);
    sv.insert(7);
    sv.insert(7);
    sv.insert(-7);
    assert_eq!(sv.len(), 3);
    assert_eq!(sv.as_slice(), &[-7, 7, 7]);
}

#[test]
fn is_subset_compares_what_is_held() {
    let small: SortedVec<u64> = SortedVec::from_vec(vec![2, 4]);
    let large: SortedVec<u64> = SortedVec::from_vec(vec![1, 2, 3, 4]);
    let other: SortedVec<u64> = SortedVec::from_vec(vec![2, 5]);
    let empty: SortedVec<u64> = SortedVec::new();

    assert!(small.is_subset(&large));
    assert!(!large.is_subset(&small));
    assert!(!other.is_subset(&large));
    assert!(empty.is_subset(&small));
    assert!(empty.is_subset(&empty));
    assert!(!small.is_subset(&empty));
    assert!(small.is_subset(&small));
}

#[test]
fn ordering_is_by_the_first_difference() {
    let base: SortedVec<i32> = SortedVec::from_vec(vec![1, 2, 3]);
    let same: SortedVec<i32> = SortedVec::from_vec(vec![3, 2, 1]);
    let larger: SortedVec<i32> = SortedVec::from_vec(vec![1, 2, 4]);
    let prefix: SortedVec<i32> = SortedVec::from_vec(vec![1, 2]);
    let empty: SortedVec<i32> = SortedVec::new();

    assert!(base < larger);
    assert!(larger > base);
    assert!(prefix < base);
    assert!(empty < prefix);
    assert!(base <= same && base >= same);
    assert!(!(base < same) && !(base > same));
    assert_ne!(base, larger);
    assert_ne!(base, prefix);
}

#[test]
fn clone_holds_the_same_items() {
    let sv: SortedVec<i32> = SortedVec::from_vec(vec![3, 1, 2]);
    let copy = sv.clone();

    assert_eq!(copy, sv);
    assert_eq!(copy.as_slice(), &[1, 2, 3]);
}
