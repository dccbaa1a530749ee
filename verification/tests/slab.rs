use zenlang::slab::{Handle, Slab};

#[test]
fn null_handle_is_null() {
    let h = Handle::null();
    assert!(h.is_null());
    assert_eq!(h.index, u32::MAX);
    assert_eq!(h.generation, 0);
    assert!(!Handle { index: 0, generation: 1 }.is_null());
}

#[test]
fn insert_then_get() {
    let mut s: Slab<String> = Slab::new();
    let a = s.insert("a".to_string());
    let b = s.insert("b".to_string());
    assert_eq!(s.get(a), "a");
    assert_eq!(s.get(b), "b");
    assert_eq!(s.len(), 2);
    assert!(!s.is_empty());
    assert_eq!(a.generation, 1);
    assert_eq!(b.generation, 2);
}

#[test]
fn insert_then_remove_gives_value_back() {
    let mut s: Slab<i32> = Slab::new();
    let h = s.insert(7);
    assert_eq!(s.remove(h), Some(7));
    assert!(s.is_empty());
    assert_eq!(s.remove(h), None);
}

#[test]
fn stale_handle_stays_invalid_after_slot_reuse() {
    let mut s: Slab<i32> = Slab::new();
    let h = s.insert(1);
    s.remove(h);
    let h2 = s.insert(2);
    assert_eq!(h2.index, h.index);
    assert_ne!(h2.generation, h.generation);
    assert!(!s.is_valid(h));
    assert!(s.is_valid(h2));
    assert_eq!(s.remove(h), None);
    assert_eq!(*s.get(h2), 2);
}

#[test]
fn out_of_range_handle_is_invalid() {
    let s: Slab<i32> = Slab::new();
    assert!(!s.is_valid(Handle { index: 3, generation: 1 }));
    assert!(!s.is_valid(Handle::null()));
}

#[test]
fn iter_handles_in_slot_order() {
    let mut s: Slab<i32> = Slab::new();
    let a = s.insert(10);
    let b = s.insert(20);
    let c = s.insert(30);
    s.remove(b);
    assert_eq!(s.iter_handles(), vec![a, c]);
}

#[test]
fn clone_all_pairs_handles_with_values() {
    let mut s: Slab<String> = Slab::new();
    let a = s.insert("x".to_string());
    let b = s.insert("y".to_string());
    assert_eq!(s.clone_all(), vec![(a, "x".to_string()), (b, "y".to_string())]);
}

#[test]
fn clear_keeps_old_handles_stale() {
    let mut s: Slab<i32> = Slab::default();
    let h = s.insert(1);
    s.clear();
    assert!(s.is_empty());
    assert!(!s.is_valid(h));
    let h2 = s.insert(5);
    assert_eq!(h2, Handle { index: 0, generation: 2 });
    assert_ne!(h2, h);
    assert!(!s.is_valid(h));
    assert_eq!(s.len(), 1);
}

#[test]
fn freed_slot_is_reused_under_a_new_generation() {
    let mut s: Slab<i32> = Slab::new();
    let h1 = s.insert(10);
    assert_eq!(h1, Handle { index: 0, generation: 1 });
    assert_eq!(s.remove(h1), Some(10));
    let h2 = s.insert(20);
    assert_eq!(h2, Handle { index: 0, generation: 2 });
    assert!(!s.is_valid(h1));
    assert_eq!(*s.get(h2), 20);
    assert_eq!(s.len(), 1);
}

#[test]
fn get_mut_changes_the_value_in_place() {
    let mut s: Slab<Vec<i32>> = Slab::new();
    let a = s.insert(vec![1]);
    let b = s.insert(vec![2]);
    s.get_mut(a).push(3);
    assert_eq!(*s.get(a), vec![1, 3]);
    assert_eq!(*s.get(b), vec![2]);
    assert_eq!(s.len(), 2);
    assert_eq!(s.iter_handles(), vec![a, b]);
}
