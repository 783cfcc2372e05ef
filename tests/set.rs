use std::collections::HashSet;

use catlog::set::{FinSet, HashFinSet, MemberSet, SkelFinSet};

#[test]
fn fin_set_skel_basics() {
    let mut s = SkelFinSet::new(0);
    assert!(s.is_empty());
    s.insert();
    s.insert();
    s.insert();
    assert!(!s.is_empty());
    assert_eq!(s.len(), 3);
    assert!(s.contains(&2));
    assert!(!s.contains(&3));
}

#[test]
fn fin_set_skel_iter() {
    let s = SkelFinSet::new(3);
    let sum: usize = s.iter().iter().sum();
    assert_eq!(sum, 3);
    let elems: Vec<usize> = s.iter();
    assert_eq!(elems, vec![0, 1, 2]);
}

#[test]
fn fin_set_hash_basics() {
    let mut s = HashFinSet::new(HashSet::new());
    assert!(s.is_empty());
    s.insert(3);
    s.insert(5);
    s.insert(7);
    assert!(!s.is_empty());
    assert_eq!(s.len(), 3);
    assert!(!s.contains(&2));
    assert!(s.contains(&3));
}

#[test]
fn fin_set_hash_iter() {
    let s = HashFinSet::new(HashSet::from([3, 5, 7]));
    let sum: i32 = s.iter().iter().sum();
    assert_eq!(sum, 15);
    assert_eq!(s.len(), 3);
}

#[test]
fn skel_fin_set() {
    let mut s: SkelFinSet = Default::default();
    assert!(s.is_empty());
    assert_eq!(s.insert(), 0);
    assert!(!s.is_empty());
    assert_eq!(s.extend(2), 1..3);
    assert_eq!(s.len(), 3);
    assert!(s.contains(&2));
    assert!(!s.contains(&3));

    let s = SkelFinSet::new(3);
    let sum: usize = s.iter().iter().sum();
    assert_eq!(sum, 3);
    let elems: Vec<usize> = s.iter();
    assert_eq!(elems, vec![0, 1, 2]);
}

#[test]
fn hash_fin_set() {
    let mut s: HashFinSet<i32> = Default::default();
    assert!(s.is_empty());
    s.insert(3);
    s.extend(vec![5, 7]);
    assert!(!s.is_empty());
    assert_eq!(s.len(), 3);
    assert!(s.contains(&3));
    assert!(s.contains(&7));
    assert!(!s.contains(&2));

    let s = HashFinSet::new(HashSet::from([3, 5, 7]));
    let sum: i32 = s.iter().iter().sum();
    assert_eq!(sum, 15);
    assert_eq!(s.len(), 3);
}

#[test]
fn skel_insert_returns_each_new_element() {
    let mut s = SkelFinSet::new(0);
    assert_eq!(s.insert(), 0);
    assert_eq!(s.insert(), 1);
    assert_eq!(s.insert(), 2);
    assert_eq!(s.len(), 3);
    assert!(s.contains(&2));
    assert!(!s.contains(&3));
    let sum: usize = s.iter().iter().sum();
    assert_eq!(sum, 3);
}

#[test]
fn skel_extend_by_zero_is_empty_range() {
    let mut s = SkelFinSet::new(4);
    assert_eq!(s.extend(0), 4..4);
    assert_eq!(s.len(), 4);
    assert_eq!(s.extend(3), 4..7);
    assert_eq!(s.len(), 7);
}

#[test]
fn empty_skel_set_lists_nothing() {
    let s = SkelFinSet::new(0);
    assert!(s.iter().is_empty());
    assert!(!s.contains(&0));
}

#[test]
fn hash_insert_reports_duplicates() {
    let mut s: HashFinSet<u64> = Default::default();
    assert!(s.insert(3));
    assert!(s.insert(5));
    assert!(!s.insert(3));
    assert!(s.insert(7));
    assert_eq!(s.len(), 3);
    let mut elems = s.iter();
    elems.sort();
    assert_eq!(elems, vec![3, 5, 7]);
}

#[test]
fn hash_extend_with_repeats() {
    let mut s: HashFinSet<i32> = Default::default();
    s.extend(vec![1, 2, 2, 1, 9]);
    assert_eq!(s.len(), 3);
    assert!(s.contains(&9));
    assert!(!s.contains(&3));
}

#[test]
fn listing_length_matches_len() {
    let s = SkelFinSet::new(5);
    assert_eq!(s.iter().len(), s.len());
    let h = HashFinSet::new(HashSet::from([2u64, 4, 6, 8]));
    assert_eq!(h.iter().len(), h.len());
    assert_eq!(h.is_empty(), h.len() == 0);
}
