use rudb::bitmap::Bitmap;
use rudb::selector::Selector;

fn fresh() -> Selector {
    Selector::new(Bitmap::load(Vec::new()).expect("Failed to create Selector"))
}

fn reopen(mut selector: Selector) -> Selector {
    selector.sync();
    let image = selector.bitmap().as_bytes().to_vec();
    Selector::new(Bitmap::load(image).expect("Failed to create Selector"))
}

#[test]
fn set_and_vacant() {
    let mut selector = fresh();
    assert_eq!(0, selector.vacant());
    assert_eq!(false, selector.is_used(0));

    for i in 0..128 {
        selector.set_used(i);
        assert_eq!(true, selector.is_used(i));
        assert_eq!(i + 1, selector.vacant());
    }

    selector.set_free(80);
    assert_eq!(false, selector.is_used(80));
    assert_eq!(80, selector.vacant());
    selector.set_used(80);
    assert_eq!(true, selector.is_used(80));
    assert_eq!(128, selector.vacant());

    for i in 64..128 {
        selector.set_free(i);
        assert_eq!(false, selector.is_used(i));
        assert_eq!(64, selector.vacant());
    }

    selector.compact();
    assert_eq!(0, selector.free_len());
    assert_eq!(8, selector.bitmap().len());
}

#[test]
fn selector_drop_new() {
    let selector = {
        let mut selector = fresh();
        selector.set_used(64);
        selector.set_used(128);

        for i in 0..64 {
            assert_eq!(i, selector.vacant());
            selector.set_used(i);
        }

        for i in 65..128 {
            assert_eq!(i, selector.vacant());
            selector.set_used(i);
        }

        selector.set_used(1024);
        selector.set_free(1024);
        assert_eq!(113, selector.free_len());
        assert_eq!(129, selector.bitmap().len());
        selector
    };

    {
        let selector = reopen(selector);
        assert_eq!(1, selector.free_len());
        assert_eq!(17, selector.bitmap().len());

        assert_eq!(true, selector.is_used(64));
        assert_eq!(true, selector.is_used(128));
        assert_eq!(false, selector.is_used(1024));
        assert_eq!(129, selector.vacant());
    }
}

#[test]
fn allocation_from_empty_issues_consecutive_ids() {
    let mut selector = fresh();
    for n in 0..300 {
        let id = selector.vacant();
        assert_eq!(n, id);
        selector.set_used(id);
    }
    for i in 0..300 {
        assert!(selector.is_used(i));
    }
    assert!(!selector.is_used(300));
}

#[test]
fn freeing_twice_is_freeing_once() {
    let mut a = fresh();
    let mut b = fresh();
    for i in 0..20 {
        a.set_used(i);
        b.set_used(i);
    }
    a.set_free(7);
    b.set_free(7);
    b.set_free(7);
    for i in 0..40 {
        assert_eq!(a.is_used(i), b.is_used(i));
    }
    assert_eq!(a.vacant(), b.vacant());
    assert_eq!(7, b.vacant());
}
