use zin_lib::access::ObjAccess;

#[test]
fn access_flags() {
    let mut a = ObjAccess::none();
    assert_eq!(a.bits(), 0);
    assert!(!a.contains(ObjAccess::constant()));
    assert!(a.contains(ObjAccess::none()));
    a.insert(ObjAccess::constant());
    a.insert(ObjAccess::method());
    assert_eq!(a.bits(), 0b11);
    assert!(a.contains(ObjAccess::constant()));
    assert!(a.contains(ObjAccess::method()));
    assert!(!a.contains(ObjAccess::untargetable()));
    a.clear(ObjAccess::constant());
    assert_eq!(a.bits(), 0b10);
    assert!(!a.contains(ObjAccess::constant()));
    assert!(a.contains(ObjAccess::method()));
    a.insert(ObjAccess::untargetable());
    a.clear(ObjAccess::untargetable());
    assert_eq!(a, ObjAccess::method());
}
