use zin_lib::error::Error;
use zin_lib::machine::{Action, Machine};
use zin_lib::ops::{Instruction, RaiseErrKind};

const NULL: u64 = 0;
const YES: u64 = 1;

fn machine(args: Vec<u64>, slots: usize) -> Machine<u64, u32> {
    Machine::new(7, args, slots, NULL, YES)
}

fn run_to_end(m: &mut Machine<u64, u32>, code: &Vec<Instruction<u64>>) -> Action<u64> {
    loop {
        match m.step(code) {
            Ok(Action::Next) => {}
            Ok(other) => return other,
            Err(e) => panic!("unexpected error {:?}", e),
        }
    }
}

#[test]
fn rot_then_return_gives_top() {
    let code = vec![
        Instruction::Cld(5),
        Instruction::Cld(9),
        Instruction::Rot,
        Instruction::Return(1),
    ];
    let mut m = machine(vec![], 0);
    assert!(matches!(run_to_end(&mut m, &code), Action::Finish(5)));
}

#[test]
fn bare_return_gives_null_and_end_of_code_is_done() {
    let mut m = machine(vec![4], 1);
    assert!(matches!(m.step(&vec![Instruction::Return(0)]), Ok(Action::Finish(NULL))));
    let mut m = machine(vec![], 0);
    assert!(matches!(m.step(&vec![]), Ok(Action::Done)));
}

#[test]
fn locals_store_and_load() {
    let code = vec![
        Instruction::Cld(42),
        Instruction::Stl(0, 1),
        Instruction::Ldl(0, 1),
        Instruction::Ldl(0, 0),
        Instruction::Return(2),
    ];
    let mut m = machine(vec![3], 2);
    assert_eq!(m.frames().frames[0].values, vec![3, NULL]);
    for _ in 0..4 {
        assert!(matches!(m.step(&code), Ok(Action::Next)));
    }
    assert_eq!(m.frames().frames[0].values, vec![3, 42, 42, 3]);
    assert!(matches!(m.step(&code), Ok(Action::Finish(3))));
}

#[test]
fn stack_errors() {
    let mut m = machine(vec![], 0);
    assert!(matches!(m.step(&vec![Instruction::Pop]), Err(Error::MalformedStack)));
    let mut m = machine(vec![], 0);
    assert!(matches!(m.step(&vec![Instruction::Rot]), Ok(Action::Raise(Error::MalformedStack))));
    let mut m = machine(vec![], 0);
    assert!(matches!(m.step(&vec![Instruction::Ldl(3, 0)]), Err(Error::MalformedStack)));
    let mut m = machine(vec![], 0);
    assert!(matches!(m.step(&vec![Instruction::Jmp(-5)]), Err(Error::InvalidJump)));
    let mut m = machine(vec![], 0);
    assert!(matches!(m.step(&vec![Instruction::LoadErr]), Ok(Action::Raise(Error::InvalidWind))));
}

#[test]
fn operations_are_handed_over_with_their_operands() {
    let code = vec![Instruction::Cld(2), Instruction::Cld(3), Instruction::Add];
    let mut m = machine(vec![], 0);
    match run_to_end(&mut m, &code) {
        Action::Apply(ops) => assert_eq!(ops, vec![3, 2]),
        _ => panic!("expected an operation"),
    }
    assert!(m.frames().frames[0].values.is_empty());
    m.push(5);
    assert_eq!(m.frames().frames[0].values, vec![5]);
    let mut m = machine(vec![], 0);
    assert!(matches!(m.step(&vec![Instruction::MkArr(2)]), Ok(Action::Raise(Error::MalformedStack))));
}

#[test]
fn call_and_return() {
    let main = vec![
        Instruction::Cld(100),
        Instruction::Cld(8),
        Instruction::Call(1),
        Instruction::Return(1),
    ];
    let callee: Vec<Instruction<u64>> = vec![Instruction::Ldl(0, 0), Instruction::Return(0)];
    let mut m = machine(vec![], 0);
    match run_to_end(&mut m, &main) {
        Action::Call(1, 100) => {}
        _ => panic!("expected a call"),
    }
    let args = m.take_args(1).unwrap();
    assert_eq!(args, vec![8]);
    m.enter(11, args, 2);
    assert_eq!(m.current(), 11);
    assert_eq!(m.frames().frames[1].values, vec![8, NULL]);
    assert!(matches!(m.step(&callee), Ok(Action::Next)));
    assert!(matches!(m.step(&callee), Ok(Action::Next)));
    assert_eq!(m.current(), 7);
    assert_eq!(m.pc(), 3);
    assert_eq!(m.frames().frames.len(), 1);
    assert_eq!(m.frames().frames[0].values, vec![NULL]);
    assert!(matches!(m.step(&main), Ok(Action::Finish(NULL))));
}

#[test]
fn raise_lands_at_handler_or_escapes() {
    let code = vec![
        Instruction::Ltb(4),
        Instruction::Cld(1),
        Instruction::Raise(RaiseErrKind::FromStack),
        Instruction::Pop,
        Instruction::LoadErr,
        Instruction::Fcb,
    ];
    let mut m = machine(vec![], 0);
    assert!(matches!(m.step(&code), Ok(Action::Next)));
    assert_eq!(m.frames().frames[0].try_blocks, vec![4]);
    assert!(matches!(m.step(&code), Ok(Action::Next)));
    match m.step(&code) {
        Ok(Action::Apply(ops)) => assert_eq!(ops, vec![1]),
        _ => panic!("expected the raise to be handed over"),
    }
    assert!(matches!(m.raise(77), Ok(Action::Next)));
    assert_eq!(m.pc(), 4);
    assert_eq!(m.error(), Some(77));
    assert!(m.frames().frames[0].try_blocks.is_empty());
    assert!(matches!(m.step(&code), Ok(Action::Next)));
    assert_eq!(m.frames().frames[0].values, vec![77]);
    assert!(matches!(m.step(&code), Ok(Action::Next)));
    assert_eq!(m.error(), None);
    let mut m = machine(vec![], 0);
    assert!(matches!(m.raise(5), Ok(Action::Uncaught(5))));
}

#[test]
fn tests_branch() {
    let code = vec![Instruction::Cld(0), Instruction::Test(3), Instruction::Cld(1), Instruction::Cld(2)];
    let mut m = machine(vec![], 0);
    assert!(matches!(m.step(&code), Ok(Action::Next)));
    let v = match m.step(&code) {
        Ok(Action::Branch(v)) => v,
        _ => panic!("expected a branch"),
    };
    assert_eq!(v, 0);
    assert!(m.resume_branch(&code[1], v, false).is_ok());
    assert_eq!(m.pc(), 4);
    assert_eq!(m.frames().frames[0].values, vec![YES]);
    let mut m = machine(vec![], 0);
    assert!(matches!(m.step(&vec![Instruction::Cld(9)]), Ok(Action::Next)));
    assert!(m.resume_branch(&Instruction::Rtest(2), 9, true).is_ok());
    assert_eq!(m.pc(), 2);
    assert_eq!(m.frames().frames[0].values, vec![9, 9]);
    assert!(m.resume_branch(&Instruction::Ktest(5), 9, true).is_ok());
    assert_eq!(m.pc(), 2);
}

use zin_lib::machine::{settle, CallEnd};

#[test]
fn stored_local_loads_back_on_the_machine() {
    let code = vec![
        Instruction::Cld(42),
        Instruction::Stl(0, 1),
        Instruction::Ldl(0, 1),
        Instruction::Return(1),
    ];
    let mut m = machine(vec![3], 1);
    assert!(matches!(run_to_end(&mut m, &code), Action::Finish(42)));
}

#[test]
fn settle_tells_how_a_call_ends() {
    assert_eq!(settle(&Action::<u64>::Done, NULL), CallEnd::Returned(NULL));
    assert_eq!(settle(&Action::Finish(5u64), NULL), CallEnd::Returned(5));
    assert_eq!(settle(&Action::Uncaught(9u64), NULL), CallEnd::Failed(9));
    assert_eq!(settle(&Action::<u64>::Next, NULL), CallEnd::Pending);
    assert_eq!(settle(&Action::Call(2, 4u64), NULL), CallEnd::Pending);
}
