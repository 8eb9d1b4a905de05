use zin_lib::function::{ConstantLib, ConstantString};

#[test]
fn constants_are_added_once_and_found_again() {
    let mut lib = ConstantLib::new();
    assert_eq!(lib.len(), 0);
    let (i, s) = lib.get_or_create_constant("a".to_string());
    assert_eq!((i, s.as_str()), (0, "a"));
    let (j, _) = lib.get_or_create_constant("b".to_string());
    assert_eq!(j, 1);
    let (k, _) = lib.get_or_create_constant("a".to_string());
    assert_eq!(k, 0);
    assert_eq!(lib.len(), 2);
    assert_eq!(lib.constant_index("b".to_string()), Some((1, "b".to_string())));
    assert_eq!(lib.constant_tindex("a".to_string()), Some((0, "a".to_string())));
    assert_eq!(lib.constant_index("c".to_string()), None);
}

#[test]
fn byte_and_text_constants_are_kept_apart() {
    let mut lib = ConstantLib::new();
    let (t, _) = lib.get_or_create_tconstant("ab".to_string());
    let (b, v) = lib.get_or_create_bconstant(b"ab".to_vec());
    assert_eq!((t, b), (0, 1));
    assert_eq!(v, b"ab".to_vec());
    assert_eq!(lib.constant_bindex(b"ab".to_vec()), Some((1, b"ab".to_vec())));
    assert_eq!(lib.constant_bindex(b"zz".to_vec()), None);
    let (b2, _) = lib.get_or_create_bconstant(b"ab".to_vec());
    assert_eq!(b2, 1);
    assert_eq!(lib.len(), 2);
    assert_eq!(lib.0[0], ConstantString::ZString("ab".to_string()));
    assert_eq!(lib.0[1], ConstantString::ZBytes(b"ab".to_vec()));
}

#[test]
fn first_of_repeated_constants_is_found() {
    let lib = ConstantLib(vec![
        ConstantString::from(b"x".to_vec()),
        ConstantString::from("x".to_string()),
        ConstantString::from("x".to_string()),
    ]);
    assert_eq!(lib.constant_index("x".to_string()), Some((1, "x".to_string())));
    assert_eq!(lib.constant_bindex(b"x".to_vec()), Some((0, b"x".to_vec())));
}

#[test]
fn pool_entries_stay_distinct() {
    let mut lib = ConstantLib::new();
    let words = ["x", "y", "x", "z", "y", "x"];
    let mut given = Vec::new();
    for w in words {
        given.push((lib.get_or_create_tconstant(w.to_string()).0, w));
        lib.get_or_create_bconstant(w.as_bytes().to_vec());
    }
    assert_eq!(lib.len(), 6);
    for i in 0..lib.0.len() {
        for j in i + 1..lib.0.len() {
            assert_ne!(lib.0[i], lib.0[j]);
        }
    }
    for (i, w) in given {
        assert_eq!(lib.0[i], ConstantString::ZString(w.to_string()));
    }
}
