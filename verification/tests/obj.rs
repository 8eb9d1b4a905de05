use zin_lib::obj::{
    ByteSource, listing, map_listing, push_bytechar, InternedString, InternedVector, Removed, SetIndexValue, VectorItem, VectorPart,
};
use zin_lib::value::compare_char;

#[test]
fn interned_string_own_and_read() {
    let mut s = InternedString::from("héllo".to_string());
    assert!(matches!(s, InternedString::Str(_)));
    assert_eq!(s.as_str(), "héllo");
    assert_eq!(s.len(), 6);
    s.own();
    assert!(matches!(s, InternedString::String(_)));
    assert_eq!(s.as_zstr(), "héllo".to_string());
}

#[test]
fn interned_string_push_then_pop() {
    let mut s = InternedString::from("ab".to_string());
    s.push("cdé");
    assert_eq!(s.as_str(), "abcdé");
    assert_eq!(s.pop(), Some('é'));
    assert_eq!(s.as_str(), "abcd");
    let mut e = InternedString::from(String::new());
    assert_eq!(e.pop(), None);
    assert!(matches!(e, InternedString::String(_)));
}

#[test]
fn interned_string_equality_by_text() {
    let a = InternedString::from("same".to_string());
    let mut b = InternedString::from("sa".to_string());
    b.push("me");
    assert!(a == b);
    assert!(a != InternedString::from("other".to_string()));
}

#[test]
fn interned_string_set() {
    let mut s = InternedString::from("hello world".to_string());
    s.set(0..5, "HELLO");
    assert_eq!(s.as_str(), "HELLO world");
    s.set(6..100, "there");
    assert_eq!(s.as_str(), "HELLO there");
    s.set(50..60, "x");
    assert_eq!(s.as_str(), "HELLO there");
    let mut u = InternedString::from("aé".to_string());
    u.set(2..3, "x");
    assert_eq!(u.as_str(), "aé");
    u.set(1..3, "e");
    assert_eq!(u.as_str(), "ae");
}

#[test]
fn interned_string_get() {
    let s = InternedString::from("héllo".to_string());
    assert_eq!(s.get(SetIndexValue::Index(0)), Some("h".to_string()));
    assert_eq!(s.get(SetIndexValue::Index(1)), None);
    assert_eq!(s.get(SetIndexValue::Index(3)), Some("l".to_string()));
    assert_eq!(s.get(SetIndexValue::Index(6)), None);
    assert_eq!(s.get(SetIndexValue::Range(1, 4)), Some("él".to_string()));
    assert_eq!(s.get(SetIndexValue::Range(3, 99)), Some("llo".to_string()));
    assert_eq!(s.get(SetIndexValue::Range(6, 7)), None);
}

#[test]
fn interned_string_remove() {
    let mut s = InternedString::from("héllo".to_string());
    assert_eq!(s.remove(SetIndexValue::Index(1)), Some(Removed::Char('é' as u32)));
    assert_eq!(s.as_str(), "hllo");
    assert_eq!(s.remove(SetIndexValue::Index(9)), Some(Removed::Flag(false)));
    assert_eq!(s.as_str(), "hllo");
    assert_eq!(s.remove(SetIndexValue::Range(1, 3)), Some(Removed::Flag(true)));
    assert_eq!(s.as_str(), "ho");
    assert_eq!(s.remove(SetIndexValue::Range(1, 40)), Some(Removed::Flag(true)));
    assert_eq!(s.as_str(), "h");
    assert_eq!(s.remove(SetIndexValue::Range(4, 5)), Some(Removed::Flag(false)));
    assert_eq!(s.as_str(), "h");
}

#[test]
fn bytechar_matches_its_char() {
    for c in ['a', 'é', '\u{263a}', '\u{1F600}'] {
        let mut v = vec![9u8];
        push_bytechar(&mut v, c);
        assert_eq!(v.len(), 1 + c.len_utf8());
        assert!(compare_char(c, &v[1..]));
    }
    let mut v = Vec::new();
    push_bytechar(&mut v, 'é');
    assert_eq!(v, vec![0x9, 0x0]);
    let mut w = Vec::new();
    push_bytechar(&mut w, 'A');
    assert_eq!(w, vec![b'A']);
}

#[test]
fn value_vector_operations() {
    let mut v: InternedVector<i32> = InternedVector::Vector(vec![10, 20, 30, 40, 50]);
    assert_eq!(v.len(), 5);
    assert_eq!(v.get(SetIndexValue::Index(1)), Some(VectorPart::Item(&20)));
    assert_eq!(v.get(SetIndexValue::Index(5)), None);
    assert_eq!(v.get(SetIndexValue::Range(1, 3)), Some(VectorPart::Items(&[20, 30][..])));
    assert_eq!(v.get(SetIndexValue::Range(3, 9)), Some(VectorPart::Items(&[40, 50][..])));
    assert_eq!(v.get(SetIndexValue::Range(5, 6)), None);
    v.set(0, 11, ByteSource::Null);
    assert_eq!(v.get(SetIndexValue::Index(0)), Some(VectorPart::Item(&11)));
    v.set(9, 12, ByteSource::Null);
    assert_eq!(v.remove(SetIndexValue::Index(1)), Some(VectorItem::Item(20)));
    assert_eq!(v.remove(SetIndexValue::Index(7)), Some(VectorItem::Null));
    assert_eq!(v.remove(SetIndexValue::Range(2, 0)), Some(VectorItem::Null));
    match &v {
        InternedVector::Vector(a) => assert_eq!(a, &vec![40, 50]),
        _ => panic!("wrong kind"),
    }
    assert_eq!(v.pop(), Some(VectorItem::Item(50)));
    assert_eq!(v.pop(), Some(VectorItem::Item(40)));
    assert_eq!(v.pop(), None);
}

#[test]
fn byte_vector_operations() {
    let mut v: InternedVector<i32> = InternedVector::ByteVector(vec![1, 2, 3, 4]);
    assert_eq!(v.get(SetIndexValue::Index(2)), Some(VectorPart::Byte(3)));
    assert_eq!(v.get(SetIndexValue::Range(0, 2)), Some(VectorPart::Bytes(&[1, 2][..])));
    v.set(0, 99, ByteSource::Num(7));
    v.set(1, 99, ByteSource::Bool(true));
    assert_eq!(v.get(SetIndexValue::Index(0)), Some(VectorPart::Byte(7)));
    assert_eq!(v.get(SetIndexValue::Index(1)), Some(VectorPart::Byte(2)));
    assert_eq!(v.remove(SetIndexValue::Range(1, 9)), Some(VectorItem::Null));
    assert_eq!(v.len(), 1);
    assert_eq!(v.remove(SetIndexValue::Index(0)), Some(VectorItem::Byte(7)));
    assert_eq!(v.pop(), None);
    let mut w: InternedVector<i32> = InternedVector::ByteVector(vec![5]);
    assert_eq!(w.pop(), Some(VectorItem::Byte(5)));
}

#[test]
fn written_text_is_read_back() {
    let mut s = InternedString::from("abcdef".to_string());
    s.set(1..3, "XYZ");
    assert_eq!(s.as_str(), "aXYZdef");
    assert_eq!(s.get(SetIndexValue::Range(1, 4)), Some("XYZ".to_string()));
}

#[test]
fn container_listings() {
    assert_eq!(listing(&vec![]), "[]");
    assert_eq!(listing(&vec!["1".to_string()]), "[1]");
    assert_eq!(
        listing(&vec!["1".to_string(), "".to_string(), "x y".to_string()]),
        "[1, , x y]"
    );
    assert_eq!(map_listing(&vec![]), "[]");
    assert_eq!(
        map_listing(&vec![
            ("a".to_string(), "1".to_string()),
            ("b".to_string(), "2".to_string())
        ]),
        "[a: 1, b: 2]"
    );
}

#[test]
fn vector_push() {
    let mut v: InternedVector<i32> = InternedVector::Vector(vec![1]);
    assert!(v.push(2, ByteSource::Null).is_ok());
    assert_eq!(v.get(SetIndexValue::Index(1)), Some(VectorPart::Item(&2)));
    let mut b: InternedVector<i32> = InternedVector::ByteVector(vec![1]);
    assert!(b.push(0, ByteSource::Bool(true)).is_ok());
    assert!(b.push(0, ByteSource::Text("hi".to_string())).is_ok());
    assert!(b.push(0, ByteSource::Null).is_ok());
    match &b {
        InternedVector::ByteVector(a) => assert_eq!(a, &vec![1, 1, 104, 105, 0]),
        _ => panic!("wrong kind"),
    }
    b.push(0, ByteSource::Bool(false)).unwrap();
    b.push(0, ByteSource::Num(200)).unwrap();
    b.push(0, ByteSource::Char('é')).unwrap();
    b.push(0, ByteSource::Bytes(b"xy".to_vec())).unwrap();
    b.push(0, ByteSource::Object(vec![3, 4])).unwrap();
    match &b {
        InternedVector::ByteVector(a) => {
            assert_eq!(&a[5..], &[0, 200, 0x9, 0x0, b'x', b'y', 3, 4][..])
        }
        _ => panic!("wrong kind"),
    }
}

#[test]
fn value_keys() {
    let mut s = InternedString::from("hello".to_string());
    assert_eq!(s.get(SetIndexValue::Val(Some(1))), Some("e".to_string()));
    assert_eq!(s.get(SetIndexValue::Val(None)), None);
    assert_eq!(s.remove(SetIndexValue::Val(None)), None);
    assert_eq!(s.as_str(), "hello");
    assert_eq!(s.remove(SetIndexValue::Index(1)), Some(Removed::Char(101)));
    assert_eq!(s.as_str(), "hllo");
    assert_eq!(s.remove(SetIndexValue::Val(Some(10))), Some(Removed::Flag(false)));
    assert_eq!(s.as_str(), "hllo");
    let mut v: InternedVector<i32> = InternedVector::Vector(vec![7, 8, 9]);
    assert_eq!(v.remove(SetIndexValue::Val(None)), None);
    assert_eq!(v.len(), 3);
    assert_eq!(v.get(SetIndexValue::Val(None)), None);
    assert_eq!(v.get(SetIndexValue::Val(Some(2))), Some(VectorPart::Item(&9)));
    assert_eq!(v.remove(SetIndexValue::Val(Some(0))), Some(VectorItem::Item(7)));
    assert_eq!(v.remove(SetIndexValue::Val(Some(5))), Some(VectorItem::Null));
    assert_eq!(v.len(), 2);
}

#[test]
fn string_join_quirks() {
    let sep = InternedString::from(", ".to_string());
    let text = |x: &i32| -> String {
        assert!(*x != 3, "the last item but one is not read");
        x.to_string()
    };
    assert_eq!(sep.join(&vec![1, 2, 3, 4], text), "1, 2, 4");
    assert_eq!(sep.join(&vec![3, 9], text), "9");
    assert_eq!(sep.join(&vec![7], text), ", ");
    assert_eq!(sep.join(&Vec::<i32>::new(), text), ", ");
}
