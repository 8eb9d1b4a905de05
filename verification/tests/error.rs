use zin_lib::error::{push_decimal, Error};

#[test]
fn error_kinds() {
    assert_eq!(Error::CustomSingle("x".to_string()).kind(), "CustomError");
    assert_eq!(Error::Custom("a".to_string(), "b".to_string()).kind(), "CustomError");
    assert_eq!(Error::ParserError("x".to_string()).kind(), "ParserError");
    assert_eq!(Error::InvalidPtr(1).kind(), "PointerError");
    assert_eq!(Error::InvalidBounds(1).kind(), "InvalidBounds");
    assert_eq!(Error::FunctionDne("f".to_string()).kind(), "InvalidCall");
    assert_eq!(Error::MalformedStack.kind(), "CallStackError");
    assert_eq!(Error::BadStackFrame.kind(), "CallStackError");
    assert_eq!(Error::InvalidJump.kind(), "JumpError");
    assert_eq!(Error::MissingReturn.kind(), "ReturnError");
    assert_eq!(Error::BadPath(std::path::PathBuf::from("p")).kind(), "PathError");
    assert_eq!(Error::UnknownVariable("v".to_string()).kind(), "VarUnknownError");
    assert_eq!(Error::InvalidCode.kind(), "TypeError");
    assert_eq!(Error::InvalidSelf("s".to_string()).kind(), "SelfError");
    assert_eq!(Error::InvalidArgs(1, 2).kind(), "ArgsError");
    assert_eq!(Error::AssertionFailed("a".to_string()).kind(), "AssertionError");
    assert_eq!(Error::NoImportSystem.kind(), "ImportError");
    assert_eq!(Error::InvalidUnwind.kind(), "UnwindError");
    assert_eq!(Error::InvalidWind.kind(), "WindError");
    assert_eq!(Error::InvalidErrorType.kind(), "ErrorError");
    let io = std::io::Error::new(std::io::ErrorKind::Other, "boom");
    assert_eq!(Error::Io(io).kind(), "IoError");
}

#[test]
fn error_messages() {
    assert_eq!(Error::MalformedStack.arg(), "zin error: malformed stack");
    assert_eq!(
        Error::InvalidArgs(2, 3).arg(),
        "zin error: invalid args: function expects 3 args but 2 were given"
    );
    assert_eq!(
        Error::ParserErrorNear("bad".to_string(), 1..5, "tok".to_string(), 7).arg(),
        "zin error:  syntax error: bad near tok on line 7 in 1..5"
    );
    assert_eq!(Error::ParserError("oops".to_string()).arg(), "zin error:  syntax error: oops");
    assert_eq!(Error::Custom("A".to_string(), "b".to_string()).arg(), "zin error: A: b");
    assert_eq!(Error::CustomSingle("only".to_string()).arg(), "zin error: only");
    assert_eq!(Error::InvalidBounds(42).arg(), "zin error:  access out of bounds at: 42");
    assert_eq!(
        Error::InvalidBorrow("f", 12).arg(),
        "zin error: (remove this error with useful error) invalid borrow in f on line 12"
    );
    assert_eq!(
        Error::Unconvertable("a".to_string(), "b".to_string()).arg(),
        "zin error: (remove this error with useful error) unconvertable in a on line b"
    );
    assert_eq!(Error::UnknownVariable("q".to_string()).arg(), "zin error: unkown variable: q");
}

#[test]
fn error_messages_quoting_outside_values() {
    let io = std::io::Error::new(std::io::ErrorKind::Other, "boom");
    assert_eq!(Error::Io(io).arg(), "zin error:  io error: boom");
    assert_eq!(
        Error::BadPath(std::path::PathBuf::from("a/b")).arg(),
        "zin error: path \"a/b\" does not exist"
    );
    assert_eq!(
        Error::ExpectedFileGotDirectory(std::path::PathBuf::from("d")).arg(),
        "zin error: expected file, got directory: \"d\""
    );
    let bad = vec![0xffu8];
    let utf8 = std::str::from_utf8(&bad).unwrap_err();
    assert_eq!(
        Error::Utf8Error(utf8).arg(),
        "zin error: UTF-8 error: invalid utf-8 sequence of 1 bytes from index 0"
    );
}

#[test]
fn decimal_numerals() {
    let mut s = String::from("n=");
    push_decimal(&mut s, 0);
    assert_eq!(s, "n=0");
    let mut s = String::new();
    push_decimal(&mut s, 1234567890);
    assert_eq!(s, "1234567890");
    let mut s = String::new();
    push_decimal(&mut s, u64::MAX);
    assert_eq!(s, "18446744073709551615");
}

#[test]
fn default_and_conversions() {
    assert!(matches!(Error::default(), Error::ParserError(ref m) if m == "unknown error"));
    let e: Error = std::io::Error::new(std::io::ErrorKind::Other, "x").into();
    assert!(matches!(e, Error::Io(_)));
    let bad = vec![0xffu8];
    let e: Error = std::str::from_utf8(&bad).unwrap_err().into();
    assert!(matches!(e, Error::Utf8Error(_)));
}
