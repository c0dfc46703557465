use merde::{CowBytes, CowStr};

#[test]
fn test_partialeq_with_str() {
    let cow_str1 = CowStr::Borrowed("hello");
    let cow_str2 = CowStr::Borrowed("hello");
    let cow_str3 = CowStr::Borrowed("world");

    assert_eq!(cow_str1, "hello");
    assert_eq!("hello", cow_str1);
    assert_eq!(cow_str1, cow_str2);
    assert_ne!(cow_str1, "world");
    assert_ne!("world", cow_str1);
    assert_ne!(cow_str1, cow_str3);
}

#[test]
fn owned_and_borrowed_strings_compare_by_text() {
    let owned = CowStr::Owned("hello".to_string());
    let borrowed = CowStr::Borrowed("hello");
    assert_eq!(owned, borrowed);
    assert_eq!(owned.as_str(), "hello");
}

#[test]
fn from_utf8_borrows_valid_text_and_rejects_invalid_bytes() {
    let bytes = "héllo".as_bytes();
    let s = CowStr::from_utf8(bytes).unwrap();
    assert!(matches!(s, CowStr::Borrowed(_)));
    assert_eq!(s, "héllo");
    assert!(CowStr::from_utf8(&[0xff, 0xfe]).is_err());
    assert!(CowStr::from_utf8_owned(vec![0xc3]).is_err());
    let owned = CowStr::from_utf8_owned("ok".as_bytes().to_vec()).unwrap();
    assert_eq!(owned, "ok");
}

#[test]
fn into_static_owns_the_text() {
    let text = String::from("borrowed");
    let s = CowStr::Borrowed(text.as_str());
    let st: CowStr<'static> = s.into_static();
    assert!(matches!(st, CowStr::Owned(_)));
    assert_eq!(st, "borrowed");
    assert_eq!(CowStr::copy_from_str("abc"), "abc");
    assert_eq!(CowStr::from("x").into_string(), "x".to_string());
}

#[test]
fn cowbytes_compare_by_content() {
    let a = CowBytes::new(&[1, 2, 3]);
    let b = CowBytes::from(vec![1u8, 2, 3]);
    assert_eq!(a, b);
    assert_eq!(a.len(), 3);
    assert_eq!(b.into_owned(), vec![1, 2, 3]);
    let c = CowBytes::new(&[9]).into_static();
    assert_eq!(c.as_slice(), &[9u8][..]);
}

#[test]
fn from_utf8_lossy_borrows_valid_text_and_replaces_bad_bytes() {
    let good = "h\u{e9}llo".as_bytes();
    match CowStr::from_utf8_lossy(good) {
        CowStr::Borrowed(s) => {
            assert_eq!(s, "h\u{e9}llo");
            assert_eq!(s.as_ptr(), good.as_ptr());
        }
        other => panic!("expected a borrowed string, got {:?}", other),
    }
    match CowStr::from_utf8_lossy(b"a\xffb\xc3") {
        CowStr::Owned(s) => assert_eq!(s, "a\u{fffd}b\u{fffd}"),
        other => panic!("expected an owned string, got {:?}", other),
    }
}
