use zin_lib::cli::{isnt_end, kind_of, ArgKind, Notice, Options, ScriptType};

fn args(v: &[&str]) -> Vec<String> {
    v.iter().map(|s| s.to_string()).collect()
}

#[test]
fn end_of_arguments() {
    assert!(isnt_end(0, 1));
    assert!(!isnt_end(1, 1));
    assert!(!isnt_end(3, 2));
}

#[test]
fn argument_kinds() {
    assert_eq!(kind_of(&"-v".to_string()), ArgKind::Version);
    assert_eq!(kind_of(&"--cli-version".to_string()), ArgKind::CliVersion);
    assert_eq!(kind_of(&"--skip_first".to_string()), ArgKind::SkipFirst);
    assert_eq!(kind_of(&"-x".to_string()), ArgKind::Execute);
    assert_eq!(kind_of(&"--help".to_string()), ArgKind::Help);
    assert_eq!(kind_of(&"-".to_string()), ArgKind::Stdin);
    assert_eq!(kind_of(&"main.zin".to_string()), ArgKind::Script);
}

#[test]
fn script_with_flags() {
    let p = Options::from_args(args(&["-s", "-v", "run.zin", "x", "-h"]), false);
    assert_eq!(p.notices, vec![Notice::Version]);
    let o = p.options.unwrap();
    assert!(o.skip_first);
    assert_eq!(o.script, Some(ScriptType::File("run.zin".to_string())));
    assert_eq!(o.script_args, Some(args(&["run.zin", "x", "-h"])));
}

#[test]
fn execute_command() {
    let p = Options::from_args(args(&["-V", "-x", "print(1);", "a", "b"]), false);
    assert_eq!(p.notices, vec![Notice::CliVersion]);
    let o = p.options.unwrap();
    assert!(!o.skip_first);
    assert_eq!(o.script, Some(ScriptType::Command("print(1);".to_string())));
    assert_eq!(o.script_args, Some(args(&["-x", "a", "b"])));
}

#[test]
fn execute_without_code_prints_usage() {
    let p = Options::from_args(args(&["--execute"]), false);
    assert_eq!(p.options, None);
    assert_eq!(p.notices, vec![Notice::Usage]);
    let q = Options::from_args(args(&["--execute"]), true);
    assert_eq!(q.options, None);
    assert!(q.notices.is_empty());
}

#[test]
fn help_and_stdin() {
    let p = Options::from_args(args(&["-v", "--help", "x"]), false);
    assert_eq!(p.options, None);
    assert_eq!(p.notices, vec![Notice::Version, Notice::Usage]);
    let q = Options::from_args(args(&["--", "a"]), false);
    let o = q.options.unwrap();
    assert_eq!(o.script, Some(ScriptType::Stdin));
    assert_eq!(o.script_args, Some(args(&["--", "a"])));
}

#[test]
fn only_flags() {
    let p = Options::from_args(args(&["-s", "--version", "-V"]), false);
    assert_eq!(p.notices, vec![Notice::Version, Notice::CliVersion]);
    let o = p.options.unwrap();
    assert!(o.skip_first);
    assert_eq!(o.script, None);
    assert_eq!(o.script_args, None);
    let e = Options::from_args(Vec::new(), false);
    assert_eq!(
        e.options,
        Some(Options { script: None, script_args: None, skip_first: false })
    );
}
