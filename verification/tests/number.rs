use zin_lib::number::{bytes_eq, Unsigned};

#[test]
fn unsigned_predicates_and_names() {
    assert!(Unsigned::U8(0).is_zero());
    assert!(!Unsigned::U64(3).is_zero());
    assert!(Unsigned::U16(1).is_one());
    assert!(!Unsigned::U32(2).is_one());
    assert_eq!(Unsigned::U32(1).get_type(), "u32");
    assert_eq!(Unsigned::U64(1).get_type(), "u64");
    assert_eq!(Unsigned::U16(1).size(), 16);
    assert_eq!(Unsigned::U8(1).size(), 8);
    assert!(Unsigned::U8(5).as_bool());
    assert!(!Unsigned::U64(0).as_bool());
}

#[test]
fn unsigned_truncations() {
    assert_eq!(Unsigned::U16(300).u8(), 44);
    assert_eq!(Unsigned::U64(0x1_0001_0002).u16(), 2);
    assert_eq!(Unsigned::U64(0x1_0000_0005).u32(), 5);
    assert_eq!(Unsigned::U8(7).u64(), 7);
    assert_eq!(Unsigned::U32(70000).usize(), 70000);
}

#[test]
fn unsigned_arithmetic() {
    assert_eq!(Unsigned::U8(200).add(Unsigned::U16(300)), Unsigned::U8(244));
    assert_eq!(Unsigned::U32(10).sub(Unsigned::U8(3)), Unsigned::U32(7));
    assert_eq!(Unsigned::U16(300).mul(Unsigned::U8(200)), Unsigned::U16(60000));
    assert_eq!(Unsigned::U8(1).shl(Unsigned::U8(3)), Unsigned::U8(8));
    assert_eq!(Unsigned::U8(0x81).shl(Unsigned::U8(1)), Unsigned::U8(2));
    assert_eq!(Unsigned::U32(40).shr(Unsigned::U64(3)), Unsigned::U32(5));
    assert_eq!(Unsigned::U16(100).div(Unsigned::U8(7)), Unsigned::U16(14));
    assert_eq!(Unsigned::U32(10).div(Unsigned::U16(0)), Unsigned::U16(0));
    assert_eq!(Unsigned::U32(10).div(Unsigned::U8(0)), Unsigned::U8(0));
    assert_eq!(Unsigned::U32(10).try_div(Unsigned::U32(0)), None);
    assert_eq!(Unsigned::U32(10).try_div(Unsigned::U8(3)), Some(Unsigned::U32(3)));
}

#[test]
fn add_then_sub_restores() {
    let a = Unsigned::U16(1000);
    let b = Unsigned::U32(0x1_0005);
    assert_eq!(a.add(b).sub(b), a);
}

#[test]
fn unsigned_order() {
    assert!(Unsigned::U8(255).less_than(&Unsigned::U16(0)));
    assert!(!Unsigned::U16(0).less_than(&Unsigned::U8(255)));
    assert!(!Unsigned::U16(3).less_than(&Unsigned::U16(2)));
    assert!(Unsigned::U16(2).less_than(&Unsigned::U16(3)));
    assert!(!Unsigned::U64(9).less_than(&Unsigned::U64(9)));
}

#[test]
fn unsigned_rectify() {
    assert_eq!(Unsigned::U64(100).rectify(), Unsigned::U8(100));
    assert_eq!(Unsigned::U64(255).rectify(), Unsigned::U16(255));
    assert_eq!(Unsigned::U64(300).rectify(), Unsigned::U16(300));
    assert_eq!(Unsigned::U64(70000).rectify(), Unsigned::U32(70000));
    assert_eq!(Unsigned::U64(5_000_000_000).rectify(), Unsigned::U64(5_000_000_000));
    assert_eq!(Unsigned::U16(300).rectify(), Unsigned::U8(44));
}

#[test]
fn unsigned_convert() {
    assert_eq!(Unsigned::U8(7).convert(Unsigned::U32(0)), Unsigned::U32(7));
    assert_eq!(Unsigned::U64(9).convert(Unsigned::U8(0)), Unsigned::U64(9));
    assert_eq!(Unsigned::U16(9).convert(Unsigned::U16(1)), Unsigned::U16(9));
}

#[test]
fn unsigned_compare_bytes() {
    assert!(Unsigned::U64(7).compare_bytes(&[7]));
    assert!(Unsigned::U64(300).compare_bytes(&300u16.to_ne_bytes()));
    assert!(!Unsigned::U64(300).compare_bytes(&[44]));
    assert!(Unsigned::U32(0x0102_0304).compare_bytes(&[4]));
    assert!(!Unsigned::U32(0x0102_0304).compare_bytes(&0x0102_0304u32.to_ne_bytes()));
    assert!(Unsigned::U64(5_000_000_000).compare_bytes(&5_000_000_000u64.to_ne_bytes()));
    assert!(!Unsigned::U32(0x0102_0304).compare_bytes(&[1, 2, 3]));
}

#[test]
fn unsigned_from_integers() {
    assert_eq!(Unsigned::from(3u8), Unsigned::U8(3));
    assert_eq!(Unsigned::from(3u16), Unsigned::U16(3));
    assert_eq!(Unsigned::from(3u32), Unsigned::U32(3));
    assert_eq!(Unsigned::from(3u64), Unsigned::U64(3));
    let u = Unsigned::from(9usize);
    assert_eq!(u.usize(), 9);
}

#[test]
fn byte_equality() {
    assert!(bytes_eq(&[1, 2, 3], &[1, 2, 3]));
    assert!(!bytes_eq(&[1, 2, 3], &[1, 2]));
    assert!(!bytes_eq(&[1, 2, 3], &[1, 2, 4]));
    assert!(bytes_eq(&[], &[]));
}

#[test]
fn unsigned_value_comparison() {
    assert_eq!(Unsigned::U8(5).cmp(&Unsigned::U16(261)), std::cmp::Ordering::Equal);
    assert_eq!(Unsigned::U16(3).cmp(&Unsigned::U8(4)), std::cmp::Ordering::Less);
    assert_eq!(Unsigned::U64(10).cmp(&Unsigned::U32(2)), std::cmp::Ordering::Greater);
}
