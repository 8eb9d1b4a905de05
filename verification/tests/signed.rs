use zin_lib::signed::SignedInt;

#[test]
fn signed_arithmetic_in_the_width_of_the_left_operand() {
    assert_eq!(SignedInt::I8(100).add(SignedInt::I8(27)), SignedInt::I8(127));
    assert_eq!(SignedInt::I8(1).add(SignedInt::I16(258)), SignedInt::I8(3));
    assert_eq!(SignedInt::I32(-5).sub(SignedInt::I64(10)), SignedInt::I32(-15));
    assert_eq!(SignedInt::I16(-300).mul(SignedInt::I8(100)), SignedInt::I16(-30000));
    assert_eq!(SignedInt::I64(7).try_div(SignedInt::I8(-2)), Some(SignedInt::I64(-3)));
    assert_eq!(SignedInt::I64(-7).try_div(SignedInt::I8(2)), Some(SignedInt::I64(-3)));
    assert_eq!(SignedInt::I8(5).try_div(SignedInt::I16(256)), None);
    assert_eq!(SignedInt::I8(-128).try_div(SignedInt::I8(2)), Some(SignedInt::I8(-64)));
}

#[test]
fn signed_views() {
    assert_eq!(SignedInt::I16(-1).i8(), -1);
    assert_eq!(SignedInt::I32(300).i8(), 44);
    assert_eq!(SignedInt::I8(-1).i64(), -1);
    assert_eq!(SignedInt::I32(1).size(), 32);
    assert_eq!(SignedInt::I64(0).get_type(), "i64");
    assert!(SignedInt::I8(0).is_zero());
    assert!(SignedInt::I16(1).is_one());
    assert!(!SignedInt::I32(-4).as_bool());
    assert!(SignedInt::I32(4).as_bool());
}
