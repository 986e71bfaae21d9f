use futures_taskset::Arena;

#[test]
fn keys_are_dense_and_stable() {
    let mut a: Arena<&str> = Arena::new();
    assert!(a.is_empty());
    assert_eq!(a.len(), 0);

    let k0 = a.insert("a");
    let k1 = a.insert("b");
    let k2 = a.insert("c");
    assert_eq!((k0, k1, k2), (0, 1, 2));
    assert_eq!(a.len(), 3);
    assert!(!a.is_empty());
}

#[test]
fn remove_frees_key_for_lifo_reuse() {
    let mut a: Arena<u32> = Arena::new();
    let k0 = a.insert(10);
    let k1 = a.insert(11);
    let k2 = a.insert(12);

    assert_eq!(a.remove(k1), Some(11));
    assert_eq!(a.len(), 2);
    // A second removal of the same key misses: the key is already invalid.
    assert_eq!(a.remove(k1), None);
    assert_eq!(a.len(), 2);

    // The most recently freed key is reused first.
    assert_eq!(a.vacant_key(), k1);
    let k3 = a.insert(13);
    assert_eq!(k3, k1);
    assert_eq!(a.len(), 3);

    // A fresh slot is opened only once no freed key remains.
    let k4 = a.insert(14);
    assert_eq!(k4, 3);

    assert_eq!(a.remove(k0), Some(10));
    assert_eq!(a.remove(k2), Some(12));
    assert_eq!(a.remove(k3), Some(13));
    assert_eq!(a.remove(k4), Some(14));
    assert!(a.is_empty());
}

#[test]
fn swap_out_reserves_the_slot() {
    let mut a: Arena<String> = Arena::new();
    let k = a.insert(String::from("x"));
    let taken = a.swap_out(k);
    assert_eq!(taken, Some(String::from("x")));
    assert_eq!(a.len(), 0);

    // While reserved, the slot is not handed out to a new insertion.
    let other = a.insert(String::from("y"));
    assert_ne!(other, k);

    a.put_back(k, String::from("z"));
    assert_eq!(a.len(), 2);
    assert_eq!(a.remove(k), Some(String::from("z")));
}

#[test]
fn swap_out_of_missing_key_is_a_no_op() {
    let mut a: Arena<u8> = Arena::new();
    assert_eq!(a.swap_out(0), None);
    assert_eq!(a.swap_out(17), None);
    let k = a.insert(1);
    assert_eq!(a.swap_out(k + 1), None);
    assert_eq!(a.len(), 1);
}
