use rudb::types::{cmp_bool, str_cmp, varlen_cmp, CmpBool, Error, ErrorKind, Str, Varlen};

#[test]
fn str_cmp_test() {
    assert_eq!(0, str_cmp("", ""));
    assert_eq!(0, str_cmp("hello", "hello"));
    assert_eq!(-1, str_cmp("he", "hello"));
    assert_eq!(-1, str_cmp("", "hello"));
    assert_eq!(1, str_cmp("hello", "he"));
    assert_eq!(1, str_cmp("hello", ""));
    assert_eq!(-1, str_cmp("hello", "world"));
    assert_eq!(1, str_cmp("world", "hello"));
}

#[test]
fn varlen_cmp_test() {
    assert_eq!(
        0,
        varlen_cmp(
            &Varlen::Borrowed(Str::Val("####")),
            &Varlen::Borrowed(Str::Val("####"))
        )
    );
    assert_eq!(
        0,
        varlen_cmp(
            &Varlen::Borrowed(Str::Val("####")),
            &Varlen::Owned(Str::Val("####".to_string()))
        )
    );
    assert_eq!(
        0,
        varlen_cmp(
            &Varlen::Owned(Str::Val("####".to_string())),
            &Varlen::Borrowed(Str::Val("####"))
        )
    );
    assert_eq!(
        0,
        varlen_cmp(
            &Varlen::Owned(Str::Val("####".to_string())),
            &Varlen::Owned(Str::Val("####".to_string()))
        )
    );
    assert_eq!(
        0,
        varlen_cmp(&Varlen::Borrowed(Str::MaxVal), &Varlen::Borrowed(Str::MaxVal))
    );
    assert_eq!(
        0,
        varlen_cmp(&Varlen::Borrowed(Str::MaxVal), &Varlen::Owned(Str::MaxVal))
    );
    assert_eq!(
        0,
        varlen_cmp(&Varlen::Owned(Str::MaxVal), &Varlen::Borrowed(Str::MaxVal))
    );
    assert_eq!(
        0,
        varlen_cmp(&Varlen::Owned(Str::MaxVal), &Varlen::Owned(Str::MaxVal))
    );
    assert_eq!(
        -1,
        varlen_cmp(
            &Varlen::Borrowed(Str::Val("abcdefg")),
            &Varlen::Borrowed(Str::MaxVal)
        )
    );
    assert_eq!(
        -1,
        varlen_cmp(
            &Varlen::Borrowed(Str::Val("abcdefg")),
            &Varlen::Owned(Str::MaxVal)
        )
    );
    assert_eq!(
        -1,
        varlen_cmp(
            &Varlen::Owned(Str::Val("abcdefg".to_string())),
            &Varlen::Borrowed(Str::MaxVal)
        )
    );
    assert_eq!(
        -1,
        varlen_cmp(
            &Varlen::Owned(Str::Val("abcdefg".to_string())),
            &Varlen::Owned(Str::MaxVal)
        )
    );
    assert_eq!(
        1,
        varlen_cmp(
            &Varlen::Borrowed(Str::MaxVal),
            &Varlen::Borrowed(Str::Val("abcdefg"))
        )
    );
    assert_eq!(
        1,
        varlen_cmp(
            &Varlen::Borrowed(Str::MaxVal),
            &Varlen::Owned(Str::Val("abcdefg".to_string()))
        )
    );
    assert_eq!(
        1,
        varlen_cmp(
            &Varlen::Owned(Str::MaxVal),
            &Varlen::Borrowed(Str::Val("abcdefg"))
        )
    );
    assert_eq!(
        1,
        varlen_cmp(
            &Varlen::Owned(Str::MaxVal),
            &Varlen::Owned(Str::Val("abcdefg".to_string()))
        )
    );
}

#[test]
fn str_cmp_non_ascii_follows_characters() {
    assert_eq!(-1, str_cmp("z", "é"));
    assert_eq!(1, str_cmp("éa", "é"));
    assert_eq!(-1, str_cmp("aé", "b"));
}

#[test]
fn varlen_len_and_borrow() {
    let owned = Varlen::Owned(Str::Val("abc".to_string()));
    let borrowed = Varlen::Borrowed(Str::Val("hello"));
    let max: Varlen = Varlen::Borrowed(Str::MaxVal);
    assert_eq!(3, owned.len());
    assert_eq!(5, borrowed.len());
    assert_eq!(0, max.len());
    assert_eq!("abc", owned.borrow().unwrap());
    assert_eq!("hello", borrowed.borrow().unwrap());
    let err = max.borrow().unwrap_err();
    assert!(matches!(err.kind, ErrorKind::NotSupported));
    assert_eq!(Some("abc".as_bytes()), Str::Val("abc".to_string()).as_bytes());
    assert_eq!(None, Str::<&str>::MaxVal.as_bytes());
    assert_eq!(3, Str::Val("hé").len());
}

#[test]
fn cmp_bool_maps_booleans() {
    assert_eq!(CmpBool::CmpTrue, cmp_bool(true));
    assert_eq!(CmpBool::CmpFalse, cmp_bool(false));
    let e = Error::new(ErrorKind::Overflow, "too big");
    assert_eq!(ErrorKind::Overflow, e.kind);
    assert_eq!("too big", e.message);
}
