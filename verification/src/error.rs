use vstd::prelude::*;
use crate::stringify::push_char;
use vstd::string::StringExecFns;

verus! {

#[verifier::external_type_specification]
#[verifier::external_body]
pub struct ExIoError(std::io::Error);

#[verifier::external_type_specification]
#[verifier::external_body]
pub struct ExPathBuf(std::path::PathBuf);

#[verifier::external_type_specification]
#[verifier::external_body]
pub struct ExUtf8Error(std::str::Utf8Error);

/// The errors that parsing, compiling and running a zin program can raise.
#[derive(Debug)]
pub enum Error {
    ParserError(String),
    ParserErrorNear(String, std::ops::Range<usize>, String, usize),
    Io(std::io::Error),
    InvalidPtr(usize),
    InvalidFunctionPtr(usize),
    InvalidBounds(usize),
    ExpectedFuncPtr(usize),
    BadStackFrame,
    InvalidJump,
    MissingReturn,
    MalformedStack,
    ExpectedFileGotDirectory(std::path::PathBuf),
    BadPath(std::path::PathBuf),
    BadFunctionValue(String),
    UnknownVariable(String),
    InvalidBorrow(&'static str, u32),
    Unconvertable(String, String),
    FunctionDne(String),
    InvalidCode,
    InvalidSelf(String),
    InvalidArgs(usize, usize),
    InvalidCall(String),
    AssertionFailed(String),
    NoImportSystem,
    Utf8Error(std::str::Utf8Error),
    Custom(String, String),
    CustomSingle(String),
    InvalidUnwind,
    InvalidWind,
    InvalidErrorType,
}

pub type Result<I> = std::result::Result<I, Error>;

impl Default for Error {
    /// A syntax error with no more to say.
    fn default() -> (e: Self)
        ensures
            e matches Error::ParserError(m) && m@ == "unknown error"@,
    {
        Error::ParserError(String::from_str("unknown error"))
    }
}

impl From<std::io::Error> for Error {
    fn from(a: std::io::Error) -> (e: Error) {
        Error::Io(a)
    }
}

impl vstd::std_specs::convert::FromSpecImpl<std::io::Error> for Error {
    open spec fn obeys_from_spec() -> bool {
        true
    }

    open spec fn from_spec(a: std::io::Error) -> Error {
        Error::Io(a)
    }
}

impl From<std::str::Utf8Error> for Error {
    fn from(a: std::str::Utf8Error) -> (e: Error) {
        Error::Utf8Error(a)
    }
}

impl vstd::std_specs::convert::FromSpecImpl<std::str::Utf8Error> for Error {
    open spec fn obeys_from_spec() -> bool {
        true
    }

    open spec fn from_spec(a: std::str::Utf8Error) -> Error {
        Error::Utf8Error(a)
    }
}

/// The character of the decimal digit `d` (`d < 10`).
pub open spec fn digit_char(d: nat) -> char {
    ((d + 48) as u32) as char
}

/// The decimal numeral of `n`, without leading zeros.
pub open spec fn decimal(n: nat) -> Seq<char>
    decreases n,
{
    if n < 10 {
        seq![digit_char(n)]
    } else {
        decimal(n / 10) + seq![digit_char(n % 10)]
    }
}

/// Appends the decimal numeral of `n` to `s`.
pub fn push_decimal(s: &mut String, n: u64)
    ensures
        final(s)@ == old(s)@ + decimal(n as nat),
    decreases n,
{
    if n >= 10 {
        push_decimal(s, n / 10);
    }
    let d = (n % 10) as u8;
    let c = (48u8 + d) as char;
    assert(c == digit_char((n % 10) as nat)) by {
        assert((48u8 + d) as u32 == ((n % 10) as nat + 48) as u32);
    }
    push_char(s, c);
}

/// Appends the display text of an I/O error (`format!("{}", e)`). The
/// contract claims only that text is appended: what the text is depends
/// on the error and, for an operating-system error, on the system's own
/// message, and is left unsaid.
#[verifier::external_body]
fn push_io_error(s: &mut String, e: &std::io::Error)
    ensures
        old(s)@.is_prefix_of(final(s)@),
{
    s.push_str(&format!("{}", e))
}

/// Appends the debug form of `p` (`format!("{:?}", p)` of a `PathBuf`).
/// The contract claims only that text is appended; the quoted and escaped
/// form of the path is left unsaid.
#[verifier::external_body]
fn push_path_debug(s: &mut String, p: &std::path::PathBuf)
    ensures
        old(s)@.is_prefix_of(final(s)@),
{
    s.push_str(&format!("{:?}", p))
}

/// Appends the display text of a UTF-8 error (`format!("{}", e)`). The
/// contract claims only that text is appended; the wording, which names
/// the bad bytes and where they start, is left unsaid.
#[verifier::external_body]
fn push_utf8_error(s: &mut String, e: &std::str::Utf8Error)
    ensures
        old(s)@.is_prefix_of(final(s)@),
{
    s.push_str(&format!("{}", e))
}

impl Error {
    /// The name of the class of error, as scripts see it.
    pub open spec fn spec_kind(&self) -> Seq<char> {
        match self {
            Error::CustomSingle(_) | Error::Custom(_, _) => "CustomError"@,
            Error::ParserError(_) | Error::ParserErrorNear(_, _, _, _) => "ParserError"@,
            Error::Io(_) => "IoError"@,
            Error::InvalidPtr(_) | Error::InvalidFunctionPtr(_) => "PointerError"@,
            Error::InvalidBounds(_) => "InvalidBounds"@,
            Error::ExpectedFuncPtr(_)
            | Error::InvalidCall(_)
            | Error::BadFunctionValue(_)
            | Error::FunctionDne(_) => "InvalidCall"@,
            Error::BadStackFrame | Error::MalformedStack => "CallStackError"@,
            Error::InvalidJump => "JumpError"@,
            Error::MissingReturn => "ReturnError"@,
            Error::ExpectedFileGotDirectory(_) | Error::BadPath(_) => "PathError"@,
            Error::UnknownVariable(_) => "VarUnknownError"@,
            Error::InvalidBorrow(_, _) | Error::Unconvertable(_, _) | Error::InvalidCode => "TypeError"@,
            Error::InvalidSelf(_) => "SelfError"@,
            Error::InvalidArgs(_, _) => "ArgsError"@,
            Error::AssertionFailed(_) => "AssertionError"@,
            Error::NoImportSystem => "ImportError"@,
            Error::Utf8Error(_) => "Utf8Error"@,
            Error::InvalidUnwind => "UnwindError"@,
            Error::InvalidWind => "WindError"@,
            Error::InvalidErrorType => "ErrorError"@,
        }
    }

    pub fn kind(&self) -> (k: &'static str)
        ensures
            k@ == self.spec_kind(),
    {
        match self {
            Error::CustomSingle(_) | Error::Custom(_, _) => "CustomError",
            Error::ParserError(_) | Error::ParserErrorNear(_, _, _, _) => "ParserError",
            Error::Io(_) => "IoError",
            Error::InvalidPtr(_) | Error::InvalidFunctionPtr(_) => "PointerError",
            Error::InvalidBounds(_) => "InvalidBounds",
            Error::ExpectedFuncPtr(_)
            | Error::InvalidCall(_)
            | Error::BadFunctionValue(_)
            | Error::FunctionDne(_) => "InvalidCall",
            Error::BadStackFrame | Error::MalformedStack => "CallStackError",
            Error::InvalidJump => "JumpError",
            Error::MissingReturn => "ReturnError",
            Error::ExpectedFileGotDirectory(_) | Error::BadPath(_) => "PathError",
            Error::UnknownVariable(_) => "VarUnknownError",
            Error::InvalidBorrow(_, _) | Error::Unconvertable(_, _) | Error::InvalidCode => "TypeError",
            Error::InvalidSelf(_) => "SelfError",
            Error::InvalidArgs(_, _) => "ArgsError",
            Error::AssertionFailed(_) => "AssertionError",
            Error::NoImportSystem => "ImportError",
            Error::Utf8Error(_) => "Utf8Error",
            Error::InvalidUnwind => "UnwindError",
            Error::InvalidWind => "WindError",
            Error::InvalidErrorType => "ErrorError",
        }
    }

    /// Whether the message of the error holds the text of an outside value
    /// (an I/O error, a path or a UTF-8 error).
    pub open spec fn quotes_outside_value(&self) -> bool {
        match self {
            Error::Io(_) | Error::ExpectedFileGotDirectory(_) | Error::BadPath(_) | Error::Utf8Error(
                _,
            ) => true,
            _ => false,
        }
    }

    /// The message of the error, after the `zin error: ` prefix; `outside`
    /// stands for the text of the outside value the error quotes, if any.
    pub open spec fn message(&self, outside: Seq<char>) -> Seq<char> {
        match self {
            Error::ParserError(a) => " syntax error: "@ + a@,
            Error::ParserErrorNear(a, b, c, d) => " syntax error: "@ + a@ + " near "@ + c@
                + " on line "@ + decimal(*d as nat) + " in "@ + decimal(b.start as nat) + ".."@
                + decimal(b.end as nat),
            Error::Io(_) => " io error: "@ + outside,
            Error::InvalidPtr(_) => "ivp (remove this error with useful error)"@,
            Error::InvalidFunctionPtr(_) => "(remove this error with useful error)"@,
            Error::InvalidBounds(a) => " access out of bounds at: "@ + decimal(*a as nat),
            Error::ExpectedFuncPtr(_) => "efp (remove this error with useful error)"@,
            Error::BadStackFrame => "bsf (remove this error with useful error)"@,
            Error::InvalidJump => "ivj (remove this error with useful error)"@,
            Error::MissingReturn => "mr (remove this error with useful error)"@,
            Error::MalformedStack => "malformed stack"@,
            Error::ExpectedFileGotDirectory(_) => "expected file, got directory: "@ + outside,
            Error::BadPath(_) => "path "@ + outside + " does not exist"@,
            Error::BadFunctionValue(a) => "bad function value: "@ + a@,
            Error::UnknownVariable(a) => "unkown variable: "@ + a@,
            Error::InvalidBorrow(a, b) => "(remove this error with useful error) invalid borrow in "@
                + a@ + " on line "@ + decimal(*b as nat),
            Error::Unconvertable(a, b) => "(remove this error with useful error) unconvertable in "@
                + a@ + " on line "@ + b@,
            Error::InvalidCode => "(remove this error with useful error) invalid code"@,
            Error::InvalidSelf(a) => "no value was provided for 'self', got "@ + a@,
            Error::InvalidArgs(a, b) => "invalid args: function expects "@ + decimal(*b as nat)
                + " args but "@ + decimal(*a as nat) + " were given"@,
            Error::FunctionDne(a) => "function does not exist "@ + a@,
            Error::InvalidCall(a) => "attempted to call non function "@ + a@,
            Error::AssertionFailed(a) => "assertion failed: "@ + a@,
            Error::NoImportSystem => "no import system!"@,
            Error::Utf8Error(_) => "UTF-8 error: "@ + outside,
            Error::Custom(a, b) => a@ + ": "@ + b@,
            Error::CustomSingle(a) => a@,
            Error::InvalidUnwind => "invalid stack unwind on no error"@,
            Error::InvalidWind => "invalid stack wind on no error"@,
            Error::InvalidErrorType => "invalid error type"@,
        }
    }

    /// The full text of the error, as it is printed.
    pub fn arg(&self) -> (s: String)
        ensures
            !self.quotes_outside_value() ==> s@ == "zin error: "@ + self.message(seq![]),
            self.quotes_outside_value() ==> exists|t: Seq<char>|
                s@ == "zin error: "@ + #[trigger] self.message(t),
    {
        let mut s = String::from_str("zin error: ");
        let ghost head = s@;
        match self {
            Error::ParserError(a) => {
                s.append(" syntax error: ");
                s.append(a.as_str());
            },
            Error::ParserErrorNear(a, b, c, d) => {
                s.append(" syntax error: ");
                s.append(a.as_str());
                s.append(" near ");
                s.append(c.as_str());
                s.append(" on line ");
                push_decimal(&mut s, *d as u64);
                s.append(" in ");
                push_decimal(&mut s, b.start as u64);
                s.append("..");
                push_decimal(&mut s, b.end as u64);
            },
            Error::Io(a) => {
                s.append(" io error: ");
                let ghost before = s@;
                push_io_error(&mut s, a);
                let ghost t = s@.subrange(before.len() as int, s@.len() as int);
                assert(s@ =~= before + t);
                assert(s@ =~= head + self.message(t));
            },
            Error::InvalidPtr(_) => {
                s.append("ivp (remove this error with useful error)");
            },
            Error::InvalidFunctionPtr(_) => {
                s.append("(remove this error with useful error)");
            },
            Error::InvalidBounds(a) => {
                s.append(" access out of bounds at: ");
                push_decimal(&mut s, *a as u64);
            },
            Error::ExpectedFuncPtr(_) => {
                s.append("efp (remove this error with useful error)");
            },
            Error::BadStackFrame => {
                s.append("bsf (remove this error with useful error)");
            },
            Error::InvalidJump => {
                s.append("ivj (remove this error with useful error)");
            },
            Error::MissingReturn => {
                s.append("mr (remove this error with useful error)");
            },
            Error::MalformedStack => {
                s.append("malformed stack");
            },
            Error::ExpectedFileGotDirectory(a) => {
                s.append("expected file, got directory: ");
                let ghost before = s@;
                push_path_debug(&mut s, a);
                let ghost t = s@.subrange(before.len() as int, s@.len() as int);
                assert(s@ =~= before + t);
                assert(s@ =~= head + self.message(t));
            },
            Error::BadPath(a) => {
                s.append("path ");
                let ghost before = s@;
                push_path_debug(&mut s, a);
                let ghost t = s@.subrange(before.len() as int, s@.len() as int);
                assert(s@ =~= before + t);
                s.append(" does not exist");
                assert(s@ =~= head + self.message(t));
            },
            Error::BadFunctionValue(a) => {
                s.append("bad function value: ");
                s.append(a.as_str());
            },
            Error::UnknownVariable(a) => {
                s.append("unkown variable: ");
                s.append(a.as_str());
            },
            Error::InvalidBorrow(a, b) => {
                s.append("(remove this error with useful error) invalid borrow in ");
                s.append(*a);
                s.append(" on line ");
                push_decimal(&mut s, *b as u64);
            },
            Error::Unconvertable(a, b) => {
                s.append("(remove this error with useful error) unconvertable in ");
                s.append(a.as_str());
                s.append(" on line ");
                s.append(b.as_str());
            },
            Error::InvalidCode => {
                s.append("(remove this error with useful error) invalid code");
            },
            Error::InvalidSelf(a) => {
                s.append("no value was provided for 'self', got ");
                s.append(a.as_str());
            },
            Error::InvalidArgs(a, b) => {
                s.append("invalid args: function expects ");
                push_decimal(&mut s, *b as u64);
                s.append(" args but ");
                push_decimal(&mut s, *a as u64);
                s.append(" were given");
            },
            Error::FunctionDne(a) => {
                s.append("function does not exist ");
                s.append(a.as_str());
            },
            Error::InvalidCall(a) => {
                s.append("attempted to call non function ");
                s.append(a.as_str());
            },
            Error::AssertionFailed(a) => {
                s.append("assertion failed: ");
                s.append(a.as_str());
            },
            Error::NoImportSystem => {
                s.append("no import system!");
            },
            Error::Utf8Error(a) => {
                s.append("UTF-8 error: ");
                let ghost before = s@;
                push_utf8_error(&mut s, a);
                let ghost t = s@.subrange(before.len() as int, s@.len() as int);
                assert(s@ =~= before + t);
                assert(s@ =~= head + self.message(t));
            },
            Error::Custom(a, b) => {
                s.append(a.as_str());
                s.append(": ");
                s.append(b.as_str());
            },
            Error::CustomSingle(a) => {
                s.append(a.as_str());
            },
            Error::InvalidUnwind => {
                s.append("invalid stack unwind on no error");
            },
            Error::InvalidWind => {
                s.append("invalid stack wind on no error");
            },
            Error::InvalidErrorType => {
                s.append("invalid error type");
            },
        }
        assert(!self.quotes_outside_value() ==> s@ =~= head + self.message(seq![]));
        s
    }
}


/// The class of each error, as scripts see it: custom errors are
/// `CustomError`, parse errors `ParserError`, bad calls `InvalidCall`, stack
/// errors `CallStackError`, an unknown variable `VarUnknownError`, type
/// trouble `TypeError`, and so on, one class for each kind of failure.
pub proof fn lemma_error_classes(
    m: String,
    t: String,
    r: std::ops::Range<usize>,
    n: usize,
    io: std::io::Error,
    p: std::path::PathBuf,
    u: std::str::Utf8Error,
    w: &'static str,
    k: u32,
)
    ensures
        Error::CustomSingle(m).spec_kind() == "CustomError"@,
        Error::Custom(m, t).spec_kind() == "CustomError"@,
        Error::ParserError(m).spec_kind() == "ParserError"@,
        Error::ParserErrorNear(m, r, t, n).spec_kind() == "ParserError"@,
        Error::Io(io).spec_kind() == "IoError"@,
        Error::InvalidPtr(n).spec_kind() == "PointerError"@,
        Error::InvalidFunctionPtr(n).spec_kind() == "PointerError"@,
        Error::InvalidBounds(n).spec_kind() == "InvalidBounds"@,
        Error::ExpectedFuncPtr(n).spec_kind() == "InvalidCall"@,
        Error::InvalidCall(m).spec_kind() == "InvalidCall"@,
        Error::BadFunctionValue(m).spec_kind() == "InvalidCall"@,
        Error::FunctionDne(m).spec_kind() == "InvalidCall"@,
        Error::BadStackFrame.spec_kind() == "CallStackError"@,
        Error::MalformedStack.spec_kind() == "CallStackError"@,
        Error::InvalidJump.spec_kind() == "JumpError"@,
        Error::MissingReturn.spec_kind() == "ReturnError"@,
        Error::ExpectedFileGotDirectory(p).spec_kind() == "PathError"@,
        Error::BadPath(p).spec_kind() == "PathError"@,
        Error::UnknownVariable(m).spec_kind() == "VarUnknownError"@,
        Error::InvalidBorrow(w, k).spec_kind() == "TypeError"@,
        Error::Unconvertable(m, t).spec_kind() == "TypeError"@,
        Error::InvalidCode.spec_kind() == "TypeError"@,
        Error::InvalidSelf(m).spec_kind() == "SelfError"@,
        Error::InvalidArgs(n, n).spec_kind() == "ArgsError"@,
        Error::AssertionFailed(m).spec_kind() == "AssertionError"@,
        Error::NoImportSystem.spec_kind() == "ImportError"@,
        Error::Utf8Error(u).spec_kind() == "Utf8Error"@,
        Error::InvalidUnwind.spec_kind() == "UnwindError"@,
        Error::InvalidWind.spec_kind() == "WindError"@,
        Error::InvalidErrorType.spec_kind() == "ErrorError"@,
{
}
} // verus!
