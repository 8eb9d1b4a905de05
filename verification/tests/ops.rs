use zin_lib::ops::RaiseErrKind;

#[test]
fn raise_kind_names() {
    assert_eq!(RaiseErrKind::CurrentError.inst_name(), "cerr");
    assert_eq!(RaiseErrKind::FromStack.inst_name(), "last");
    assert_eq!(RaiseErrKind::FromStackWithWhy.inst_name(), "larg");
    assert_eq!(RaiseErrKind::FromStackObj.inst_name(), "obj");
}
