use vstd::prelude::*;
use vstd::string::StringExecFns;

verus! {

/// Whether `idx` still points inside a list of `len` items.
pub fn isnt_end(idx: usize, len: usize) -> (r: bool)
    ensures
        r == (idx < len),
{
    idx < len
}

/// What the command line asks to run.
#[derive(Debug, Clone, PartialEq, Eq)]
pub enum ScriptType {
    /// A script file, by its path.
    File(String),
    /// Code given on the command line.
    Command(String),
    /// Code read from standard input.
    Stdin,
}

/// The options read from the command line.
#[derive(Debug, Clone, PartialEq, Eq)]
pub struct Options {
    pub script: Option<ScriptType>,
    pub script_args: Option<Vec<String>>,
    pub skip_first: bool,
}

/// What reading the command line prints, in order.
#[derive(Debug, Clone, Copy, PartialEq, Eq)]
pub enum Notice {
    /// The version of the language.
    Version,
    /// The version of the command-line tool.
    CliVersion,
    /// The usage text.
    Usage,
}

/// The outcome of reading the command line: the options, or none when
/// nothing is to be run, and what is printed on the way.
#[derive(Debug, Clone, PartialEq, Eq)]
pub struct Parsed {
    pub options: Option<Options>,
    pub notices: Vec<Notice>,
}

/// What one command-line argument asks for.
#[derive(Debug, Clone, Copy, PartialEq, Eq)]
pub enum ArgKind {
    /// `-v` or `--version`: print the version of the language.
    Version,
    /// `-V` or `--cli-version`: print the version of the tool.
    CliVersion,
    /// `-s` or `--skip_first`: skip the first line of the script.
    SkipFirst,
    /// `-x` or `--execute`: run the code in the next argument.
    Execute,
    /// `-h` or `--help`: print the usage text.
    Help,
    /// `--` or `-`: read the code from standard input.
    Stdin,
    /// Anything else: the path of a script file.
    Script,
}

/// The kind of the argument `a`.
pub open spec fn arg_kind(a: Seq<char>) -> ArgKind {
    if a == "-v"@ || a == "--version"@ {
        ArgKind::Version
    } else if a == "-V"@ || a == "--cli-version"@ {
        ArgKind::CliVersion
    } else if a == "-s"@ || a == "--skip_first"@ {
        ArgKind::SkipFirst
    } else if a == "-x"@ || a == "--execute"@ {
        ArgKind::Execute
    } else if a == "-h"@ || a == "--help"@ {
        ArgKind::Help
    } else if a == "--"@ || a == "-"@ {
        ArgKind::Stdin
    } else {
        ArgKind::Script
    }
}

/// A flag that is taken note of and after which reading goes on.
pub open spec fn is_passing_flag(k: ArgKind) -> bool {
    k == ArgKind::Version || k == ArgKind::CliVersion || k == ArgKind::SkipFirst
}

/// The index of the first argument from `i` on that ends the reading of
/// flags (or the number of arguments, when there is none).
pub open spec fn stop_index(args: Seq<String>, i: nat) -> nat
    decreases args.len() - i,
{
    if i >= args.len() {
        args.len()
    } else if is_passing_flag(arg_kind(args[i as int]@)) {
        stop_index(args, i + 1)
    } else {
        i
    }
}

/// What the flags in `args[..k]` print, in order.
pub open spec fn flag_notices(args: Seq<String>, k: nat) -> Seq<Notice>
    decreases k,
{
    if k == 0 || k > args.len() {
        Seq::empty()
    } else {
        flag_notices(args, (k - 1) as nat) + match arg_kind(args[k - 1]@) {
            ArgKind::Version => seq![Notice::Version],
            ArgKind::CliVersion => seq![Notice::CliVersion],
            _ => Seq::empty(),
        }
    }
}

/// Whether `args[..k]` holds a flag asking to skip the first line.
pub open spec fn skips_first(args: Seq<String>, k: nat) -> bool {
    exists|i: int| 0 <= i < k && i < args.len() && #[trigger] arg_kind(args[i]@) == ArgKind::SkipFirst
}

/// Whether the argument that ends the flags asks for the usage text: a
/// request to execute with no code after it, or a request for help.
pub open spec fn wants_usage(args: Seq<String>, k: nat) -> bool {
    k < args.len() && match arg_kind(args[k as int]@) {
        ArgKind::Execute => k + 1 >= args.len(),
        ArgKind::Help => true,
        _ => false,
    }
}

/// Whether `script` asks to run the code `code`.
pub open spec fn runs_command(script: Option<ScriptType>, code: Seq<char>) -> bool {
    script matches Some(ScriptType::Command(c)) && c@ == code
}

/// Whether `script` asks to run the script file at `path`.
pub open spec fn runs_file(script: Option<ScriptType>, path: Seq<char>) -> bool {
    script matches Some(ScriptType::File(f)) && f@ == path
}

/// Whether `x` holds exactly the arguments `s`.
pub open spec fn holds_args(x: Option<Vec<String>>, s: Seq<String>) -> bool {
    x matches Some(v) && v@ == s
}

/// The options that the command line `args` gives, with `k` the index of
/// the argument that ends the flags.
pub open spec fn options_for(args: Seq<String>, k: nat, o: Option<Options>) -> bool {
    let len = args.len();
    if k >= len {
        o matches Some(x) && x.script is None && x.script_args is None && x.skip_first
            == skips_first(args, k)
    } else {
        let a = args[k as int]@;
        match arg_kind(a) {
            ArgKind::Execute => if k + 1 < len {
                &&& o matches Some(x)
                &&& runs_command(x.script, args[k + 1 as int]@)
                &&& holds_args(
                    x.script_args,
                    seq![args[k as int]] + args.subrange(k + 2 as int, len as int),
                )
                &&& x.skip_first == skips_first(args, k)
            } else {
                o is None
            },
            ArgKind::Help => o is None,
            ArgKind::Stdin => {
                &&& o matches Some(x)
                &&& x.script == Some(ScriptType::Stdin)
                &&& holds_args(x.script_args, args.subrange(k as int, len as int))
                &&& x.skip_first == skips_first(args, k)
            },
            _ => {
                &&& o matches Some(x)
                &&& runs_file(x.script, a)
                &&& holds_args(x.script_args, args.subrange(k as int, len as int))
                &&& x.skip_first == skips_first(args, k)
            },
        }
    }
}

/// Each flag is read as what it asks for, in its short and its long form:
/// `-v`/`--version` the version, `-V`/`--cli-version` the front end's
/// version, `-s`/`--skip_first` to skip the first line, `-x`/`--execute`
/// code to run, `-h`/`--help` the usage, `-`/`--` code from standard
/// input; anything that no flag spells is the path of a script.
pub proof fn lemma_flags_mean_what_they_say(a: Seq<char>)
    ensures
        arg_kind("-v"@) == ArgKind::Version,
        arg_kind("--version"@) == ArgKind::Version,
        arg_kind("-V"@) == ArgKind::CliVersion,
        arg_kind("--cli-version"@) == ArgKind::CliVersion,
        arg_kind("-s"@) == ArgKind::SkipFirst,
        arg_kind("--skip_first"@) == ArgKind::SkipFirst,
        arg_kind("-x"@) == ArgKind::Execute,
        arg_kind("--execute"@) == ArgKind::Execute,
        arg_kind("-h"@) == ArgKind::Help,
        arg_kind("--help"@) == ArgKind::Help,
        arg_kind("--"@) == ArgKind::Stdin,
        arg_kind("-"@) == ArgKind::Stdin,
        (a.len() == 0 || a[0] != '-') ==> arg_kind(a) == ArgKind::Script,
{
    reveal_strlit("-v");
    reveal_strlit("--version");
    reveal_strlit("-V");
    reveal_strlit("--cli-version");
    reveal_strlit("-s");
    reveal_strlit("--skip_first");
    reveal_strlit("-x");
    reveal_strlit("--execute");
    reveal_strlit("-h");
    reveal_strlit("--help");
    reveal_strlit("--");
    reveal_strlit("-");
    assert("--version"@.len() != "-v"@.len());
    assert("-V"@[1] != "-v"@[1]);
    assert("-V"@.len() != "--version"@.len());
    assert("--cli-version"@.len() != "-v"@.len());
    assert("--cli-version"@.len() != "--version"@.len());
    assert("--cli-version"@.len() != "-V"@.len());
    assert("-s"@[1] != "-v"@[1]);
    assert("-s"@.len() != "--version"@.len());
    assert("-s"@[1] != "-V"@[1]);
    assert("-s"@.len() != "--cli-version"@.len());
    assert("--skip_first"@.len() != "-v"@.len());
    assert("--skip_first"@.len() != "--version"@.len());
    assert("--skip_first"@.len() != "-V"@.len());
    assert("--skip_first"@.len() != "--cli-version"@.len());
    assert("--skip_first"@.len() != "-s"@.len());
    assert("-x"@[1] != "-v"@[1]);
    assert("-x"@.len() != "--version"@.len());
    assert("-x"@[1] != "-V"@[1]);
    assert("-x"@.len() != "--cli-version"@.len());
    assert("-x"@[1] != "-s"@[1]);
    assert("-x"@.len() != "--skip_first"@.len());
    assert("--execute"@.len() != "-v"@.len());
    assert("--execute"@[2] != "--version"@[2]);
    assert("--execute"@.len() != "-V"@.len());
    assert("--execute"@.len() != "--cli-version"@.len());
    assert("--execute"@.len() != "-s"@.len());
    assert("--execute"@.len() != "--skip_first"@.len());
    assert("--execute"@.len() != "-x"@.len());
    assert("-h"@[1] != "-v"@[1]);
    assert("-h"@.len() != "--version"@.len());
    assert("-h"@[1] != "-V"@[1]);
    assert("-h"@.len() != "--cli-version"@.len());
    assert("-h"@[1] != "-s"@[1]);
    assert("-h"@.len() != "--skip_first"@.len());
    assert("-h"@[1] != "-x"@[1]);
    assert("-h"@.len() != "--execute"@.len());
    assert("--help"@.len() != "-v"@.len());
    assert("--help"@.len() != "--version"@.len());
    assert("--help"@.len() != "-V"@.len());
    assert("--help"@.len() != "--cli-version"@.len());
    assert("--help"@.len() != "-s"@.len());
    assert("--help"@.len() != "--skip_first"@.len());
    assert("--help"@.len() != "-x"@.len());
    assert("--help"@.len() != "--execute"@.len());
    assert("--help"@.len() != "-h"@.len());
    assert("--"@[1] != "-v"@[1]);
    assert("--"@.len() != "--version"@.len());
    assert("--"@[1] != "-V"@[1]);
    assert("--"@.len() != "--cli-version"@.len());
    assert("--"@[1] != "-s"@[1]);
    assert("--"@.len() != "--skip_first"@.len());
    assert("--"@[1] != "-x"@[1]);
    assert("--"@.len() != "--execute"@.len());
    assert("--"@[1] != "-h"@[1]);
    assert("--"@.len() != "--help"@.len());
    assert("-"@.len() != "-v"@.len());
    assert("-"@.len() != "--version"@.len());
    assert("-"@.len() != "-V"@.len());
    assert("-"@.len() != "--cli-version"@.len());
    assert("-"@.len() != "-s"@.len());
    assert("-"@.len() != "--skip_first"@.len());
    assert("-"@.len() != "-x"@.len());
    assert("-"@.len() != "--execute"@.len());
    assert("-"@.len() != "-h"@.len());
    assert("-"@.len() != "--help"@.len());
    assert("-"@.len() != "--"@.len());
    assert("-v"@[0] == '-');
    assert("--version"@[0] == '-');
    assert("-V"@[0] == '-');
    assert("--cli-version"@[0] == '-');
    assert("-s"@[0] == '-');
    assert("--skip_first"@[0] == '-');
    assert("-x"@[0] == '-');
    assert("--execute"@[0] == '-');
    assert("-h"@[0] == '-');
    assert("--help"@[0] == '-');
    assert("--"@[0] == '-');
    assert("-"@[0] == '-');
}

proof fn lemma_skips_first_step(args: Seq<String>, i: nat)
    requires
        i < args.len(),
    ensures
        skips_first(args, i + 1) == (skips_first(args, i) || arg_kind(args[i as int]@)
            == ArgKind::SkipFirst),
{
    if skips_first(args, i + 1) && arg_kind(args[i as int]@) != ArgKind::SkipFirst {
        let j = choose|j: int|
            0 <= j < i + 1 && j < args.len() && #[trigger] arg_kind(args[j]@) == ArgKind::SkipFirst;
        assert(j < i);
    }
}

fn is_arg(a: &String, lit: &str) -> (r: bool)
    ensures
        r == (a@ == lit@),
{
    let l = String::from_str(lit);
    *a == l
}

/// The kind of the argument `a`.
pub fn kind_of(a: &String) -> (k: ArgKind)
    ensures
        k == arg_kind(a@),
{
    if is_arg(a, "-v") || is_arg(a, "--version") {
        ArgKind::Version
    } else if is_arg(a, "-V") || is_arg(a, "--cli-version") {
        ArgKind::CliVersion
    } else if is_arg(a, "-s") || is_arg(a, "--skip_first") {
        ArgKind::SkipFirst
    } else if is_arg(a, "-x") || is_arg(a, "--execute") {
        ArgKind::Execute
    } else if is_arg(a, "-h") || is_arg(a, "--help") {
        ArgKind::Help
    } else if is_arg(a, "--") || is_arg(a, "-") {
        ArgKind::Stdin
    } else {
        ArgKind::Script
    }
}

impl Options {
    /// Reads the command line: takes note of the flags that print a
    /// version or skip the first line until another argument comes; that
    /// argument then asks to execute the code after it (the usage text is
    /// printed when there is none), for help, to read code from standard
    /// input, or else names a script file. What follows it is handed to
    /// the script. Nothing prints the usage text when `dont_print` is set.
    pub fn from_args(args: Vec<String>, dont_print: bool) -> (p: Parsed)
        ensures
            ({
                let k = stop_index(args@, 0);
                &&& p.notices@ == flag_notices(args@, k) + if wants_usage(args@, k) && !dont_print {
                    seq![Notice::Usage]
                } else {
                    Seq::empty()
                }
                &&& options_for(args@, k, p.options)
            }),
    {
        let ghost all = args@;
        let mut rest = args;
        let len = rest.len();
        let mut notices: Vec<Notice> = Vec::new();
        let mut skip_first = false;
        let mut index: usize = 0;
        while index < len
            invariant
                rest@ == all,
                all == args@,
                rest.len() == len,
                index <= len,
                stop_index(rest@, 0) == stop_index(rest@, index as nat),
                notices@ == flag_notices(rest@, index as nat),
                skip_first == skips_first(rest@, index as nat),
            decreases len - index,
        {
            let a = &rest[index];
            match kind_of(a) {
                ArgKind::Version => {
                    notices.push(Notice::Version);
                },
                ArgKind::CliVersion => {
                    notices.push(Notice::CliVersion);
                },
                ArgKind::SkipFirst => {
                    skip_first = true;
                },
                ArgKind::Execute => {
                    if isnt_end(index + 1, len) {
                        let ghost whole = rest@;
                        let mut opts = rest.split_off(index);
                        let arg = opts.remove(1);
                        proof {
                            assert(opts@ =~= seq![whole[index as int]] + whole.subrange(
                                index + 2,
                                len as int,
                            ));
                        }
                        return Parsed {
                            options: Some(
                                Options {
                                    script: Some(ScriptType::Command(arg)),
                                    script_args: Some(opts),
                                    skip_first,
                                },
                            ),
                            notices,
                        };
                    } else {
                        if !dont_print {
                            notices.push(Notice::Usage);
                        }
                        return Parsed { options: None, notices };
                    }
                },
                ArgKind::Help => {
                    if !dont_print {
                        notices.push(Notice::Usage);
                    }
                    return Parsed { options: None, notices };
                },
                ArgKind::Stdin => {
                    let opts = rest.split_off(index);
                    return Parsed {
                        options: Some(
                            Options {
                                script: Some(ScriptType::Stdin),
                                script_args: Some(opts),
                                skip_first,
                            },
                        ),
                        notices,
                    };
                },
                ArgKind::Script => {
                    let path = a.clone();
                    let opts = rest.split_off(index);
                    return Parsed {
                        options: Some(
                            Options {
                                script: Some(ScriptType::File(path)),
                                script_args: Some(opts),
                                skip_first,
                            },
                        ),
                        notices,
                    };
                },
            }
            proof {
                let ghost i = index as nat;
                assert(stop_index(rest@, i) == stop_index(rest@, i + 1));
                lemma_skips_first_step(rest@, i);
            }
            index = index + 1;
        }
        Parsed { options: Some(Options { script: None, script_args: None, skip_first }), notices }
    }
}

} // verus!
