use rudb::replacer::{LRUReplacer, Replacer};

#[test]
fn lru_replacer_i32() {
    let mut lru = LRUReplacer::default();

    // Push element into replacer.
    lru.insert(1);
    lru.insert(2);
    lru.insert(3);
    lru.insert(4);
    lru.insert(5);
    lru.insert(6);
    lru.insert(1);
    assert_eq!(6, lru.size());

    // Pop element from replacer.
    assert_eq!(Some(2), lru.victim());
    assert_eq!(Some(3), lru.victim());
    assert_eq!(Some(4), lru.victim());

    // Remove element from replacer.
    assert_eq!(false, lru.erase(&4));
    assert_eq!(true, lru.erase(&6));
    assert_eq!(2, lru.size());

    // Pop element from replacer after removal.
    assert_eq!(Some(5), lru.victim());
    assert_eq!(Some(1), lru.victim());
    assert_eq!(0, lru.size());

    // Pop when empty.
    assert_eq!(None, lru.victim());
    assert_eq!(0, lru.size());

    // Erase when empty.
    assert_eq!(false, lru.erase(&1));
    assert_eq!(false, lru.erase(&2));
    assert_eq!(0, lru.size());
}

#[test]
fn lru_replacer_string() {
    let mut lru = LRUReplacer::default();

    lru.insert(String::from("hello"));
    lru.insert(String::from("world"));
    lru.insert(String::from("hello"));
    assert_eq!(2, lru.size());

    assert_eq!(Some(String::from("world")), lru.victim());
    assert_eq!(false, lru.erase(&String::from("world")));
    assert_eq!(1, lru.size());

    lru.insert(String::from("hello"));
    assert_eq!(1, lru.size());

    lru.insert(String::from("world"));
    assert_eq!(2, lru.size());

    assert_eq!(Some(String::from("hello")), lru.victim());
    assert_eq!(Some(String::from("world")), lru.victim());
    assert_eq!(0, lru.size());
}

#[test]
fn lru_refresh_makes_other_key_the_victim() {
    let mut lru: LRUReplacer<usize> = LRUReplacer::new();
    lru.insert(7);
    lru.insert(9);
    lru.insert(7);
    assert_eq!(Some(9), lru.victim());
    assert_eq!(Some(7), lru.victim());
    assert_eq!(None, lru.victim());
}

#[test]
fn lru_order_after_refresh() {
    let mut lru: LRUReplacer<usize> = LRUReplacer::new();
    for k in [1usize, 2, 3, 4, 5, 6, 1] {
        lru.insert(k);
    }
    let mut out = Vec::new();
    while let Some(v) = lru.victim() {
        out.push(v);
    }
    assert_eq!(vec![2, 3, 4, 5, 6, 1], out);
}
