use zin_lib::compile::{compile_expr, Const, Decls, Expression};
use zin_lib::error::Error;
use zin_lib::function::{ConstantLib, ConstantString};
use zin_lib::ops::Instruction;
use zin_lib::refrence::{BlockChain, WizardBlock};

type E = Expression<i64>;

fn b(e: E) -> Box<E> {
    Box::new(e)
}

fn scopes() -> BlockChain {
    let mut chain = BlockChain::new();
    chain.get_or_create_index("x".to_string());
    chain
}

fn code(r: Result<Vec<Instruction<Const<i64>>>, Error>) -> Vec<String> {
    r.unwrap().iter().map(|i| format!("{:?}", i)).collect()
}

#[test]
fn arithmetic_on_a_local() {
    let mut chain = scopes();
    let mut lib = ConstantLib::new();
    let e = E::Add(b(E::Variable("x".to_string())), b(E::Number(2)));
    assert_eq!(
        code(compile_expr(&e, &mut chain, &mut lib, &mut Decls { members: vec![], functions: vec![] }, &vec![])),
        vec!["Ldl(0, 0)", "Cld(Num(2))", "Add"]
    );
    let e = E::Neq(b(E::Number(1)), b(E::Bool(true)));
    assert_eq!(
        code(compile_expr(&e, &mut chain, &mut lib, &mut Decls { members: vec![], functions: vec![] }, &vec![])),
        vec!["Cld(Num(1))", "Cl1", "Cmp", "Negate"]
    );
}

#[test]
fn text_constants_are_interned_once() {
    let mut chain = scopes();
    let mut lib = ConstantLib::new();
    let e = E::Array(vec![
        E::LString("hi".to_string()),
        E::LString("yo".to_string()),
        E::LString("hi".to_string()),
        E::BString(b"hi".to_vec()),
    ]);
    assert_eq!(
        code(compile_expr(&e, &mut chain, &mut lib, &mut Decls { members: vec![], functions: vec![] }, &vec![])),
        vec!["Cld(Text(0))", "Cld(Text(1))", "Cld(Text(0))", "Cld(Bytes(2))", "MkArr(4)"]
    );
    assert_eq!(lib.len(), 3);
    assert_eq!(lib.0[2], ConstantString::ZBytes(b"hi".to_vec()));
}

#[test]
fn unknown_variables_and_builtins() {
    let mut chain = scopes();
    let mut lib = ConstantLib::new();
    let e = E::Variable("nope".to_string());
    match compile_expr(&e, &mut chain, &mut lib, &mut Decls { members: vec![], functions: vec![] }, &vec!["print".to_string()]) {
        Err(Error::UnknownVariable(n)) => assert_eq!(n, "nope"),
        _ => panic!("expected an unknown variable"),
    }
    let e = E::Call(b(E::Variable("print".to_string())), b(E::List(vec![E::Variable("x".to_string()), E::Null])));
    assert_eq!(
        code(compile_expr(&e, &mut chain, &mut lib, &mut Decls { members: vec![], functions: vec![] }, &vec!["print".to_string()])),
        vec!["Builtin(1)", "Ldl(0, 0)", "Cld(Null)", "Call(2)"]
    );
}

#[test]
fn outer_variables_become_upvalues() {
    let mut chain = scopes();
    chain.0.push(WizardBlock::new());
    let mut lib = ConstantLib::new();
    let e = E::Add(b(E::Variable("x".to_string())), b(E::Variable("x".to_string())));
    assert_eq!(
        code(compile_expr(&e, &mut chain, &mut lib, &mut Decls { members: vec![], functions: vec![] }, &vec![])),
        vec!["Ldup(0)", "Ldup(0)", "Add"]
    );
    assert_eq!(chain.0[1].upval_len(), 1);
}

#[test]
fn members_calls_and_defaults() {
    let mut chain = scopes();
    let mut lib = ConstantLib::new();
    let e = E::Dotted(vec!["this".to_string(), "a".to_string(), "b".to_string()]);
    assert_eq!(code(compile_expr(&e, &mut chain, &mut lib, &mut Decls { members: vec![], functions: vec![] }, &vec![])), vec!["This", "Ldm(0)", "Ldm(1)"]);
    let e = E::OrDefault(b(E::Variable("x".to_string())), b(E::Add(b(E::Number(1)), b(E::Number(2)))));
    assert_eq!(
        code(compile_expr(&e, &mut chain, &mut lib, &mut Decls { members: vec![], functions: vec![] }, &vec![])),
        vec!["Ldl(0, 0)", "Rtest(4)", "Cld(Num(1))", "Cld(Num(2))", "Add"]
    );
    let e = E::Call(b(E::Variable("x".to_string())), b(E::Null));
    assert_eq!(code(compile_expr(&e, &mut chain, &mut lib, &mut Decls { members: vec![], functions: vec![] }, &vec![])), vec!["Ldl(0, 0)", "Call(0)"]);
    let e = E::SliceMBE(b(E::Variable("x".to_string())));
    assert_eq!(
        code(compile_expr(&e, &mut chain, &mut lib, &mut Decls { members: vec![], functions: vec![] }, &vec![])),
        vec!["Ldl(0, 0)", "Cld(Zero)", "Slice(true)"]
    );
    let e = E::NamedObject("P".to_string(), vec![("k".to_string(), E::Number(5))]);
    assert_eq!(
        code(compile_expr(&e, &mut chain, &mut lib, &mut Decls { members: vec![], functions: vec![] }, &vec![])),
        vec!["Cld(Text(3))", "Cld(Num(5))", "Cld(Text(2))", "NamedFormula(1)"]
    );
    let e = E::Pairs(vec![(E::Number(1), E::This)]);
    assert_eq!(code(compile_expr(&e, &mut chain, &mut lib, &mut Decls { members: vec![], functions: vec![] }, &vec![])), vec!["Cld(Num(1))", "This", "MkMap(1)"]);
}

use zin_lib::compile::{compile_stmt, Statement};
use zin_lib::machine::{Action, Machine};

type Stmt = Statement<i64>;

fn stmt_code(t: &Stmt, chain: &mut BlockChain, lib: &mut ConstantLib) -> Vec<String> {
    code(compile_stmt(t, chain, lib, &mut Decls { members: vec![], functions: vec![] }, &vec![]))
}

#[test]
fn assignments_make_and_store_locals() {
    let mut chain = scopes();
    let mut lib = ConstantLib::new();
    let t = Stmt::NewAssignment(vec!["y".to_string()], b(E::Add(b(E::Number(1)), b(E::Number(2)))));
    assert_eq!(stmt_code(&t, &mut chain, &mut lib), vec!["Cld(Num(1))", "Cld(Num(2))", "Add", "Stl(0, 1)"]);
    let t = Stmt::NewAssignment(vec!["a".to_string(), "y".to_string()], b(E::Variable("x".to_string())));
    assert_eq!(stmt_code(&t, &mut chain, &mut lib), vec!["Ldl(0, 0)", "Unpack(2)", "Stl(0, 2)", "Stl(0, 1)"]);
    let t = Stmt::Assignment(vec!["x".to_string()], b(E::Number(5)));
    assert_eq!(stmt_code(&t, &mut chain, &mut lib), vec!["Cld(Num(5))", "Stl(0, 0)"]);
    let t = Stmt::Assignment(vec!["nope".to_string()], b(E::Number(5)));
    assert!(matches!(compile_stmt(&t, &mut chain, &mut lib, &mut Decls { members: vec![], functions: vec![] }, &vec![]), Err(Error::UnknownVariable(_))));
    let mut empty = BlockChain::new();
    let t = Stmt::NewAssignment(vec!["y".to_string()], b(E::Number(1)));
    assert!(matches!(compile_stmt(&t, &mut empty, &mut lib, &mut Decls { members: vec![], functions: vec![] }, &vec![]), Err(Error::MalformedStack)));
}

#[test]
fn branches_and_loops() {
    let mut chain = scopes();
    let mut lib = ConstantLib::new();
    let t = Stmt::If(
        b(E::Bool(true)),
        Box::new(Stmt::Block(vec![Stmt::Expr(b(E::Number(1)))])),
        Some(Box::new(Stmt::Block(vec![Stmt::Expr(b(E::Number(2)))]))),
    );
    assert_eq!(
        stmt_code(&t, &mut chain, &mut lib),
        vec!["Cl1", "Test(4)", "Cld(Num(1))", "Pop", "Jmp(3)", "Ktest(3)", "Cld(Num(2))", "Pop"]
    );
    let t = Stmt::If(b(E::Bool(false)), Box::new(Stmt::Return(None)), None);
    assert_eq!(stmt_code(&t, &mut chain, &mut lib), vec!["Cl0", "Ktest(2)", "Return(0)"]);
    let t = Stmt::While(b(E::Variable("x".to_string())), Box::new(Stmt::Block(vec![Stmt::Break, Stmt::Continue])));
    assert_eq!(
        stmt_code(&t, &mut chain, &mut lib),
        vec!["Ldl(0, 0)", "Ktest(4)", "Jmp(2)", "Jmp(-4)", "Jmp(-5)"]
    );
}

#[test]
fn raises() {
    let mut chain = scopes();
    let mut lib = ConstantLib::new();
    assert_eq!(stmt_code(&Stmt::RaiseCurrent, &mut chain, &mut lib), vec!["Raise(CurrentError)"]);
    assert_eq!(
        stmt_code(&Stmt::RaiseNorm("Oops".to_string()), &mut chain, &mut lib),
        vec!["Cld(Text(0))", "Raise(FromStack)"]
    );
    assert_eq!(
        stmt_code(&Stmt::RaiseNormWithWhy("Oops".to_string(), b(E::LString("why".to_string()))), &mut chain, &mut lib),
        vec!["Cld(Text(0))", "Cld(Text(1))", "Raise(FromStackWithWhy)"]
    );
    let t = Stmt::ArraySet(b(E::Variable("x".to_string())), b(E::Number(0)), b(E::Number(9)));
    assert_eq!(stmt_code(&t, &mut chain, &mut lib), vec!["Cld(Num(9))", "Ldl(0, 0)", "Cld(Num(0))", "ArraySet"]);
}

#[test]
fn compiled_code_runs() {
    let mut chain = BlockChain::new();
    chain.0.push(WizardBlock::new());
    let mut lib = ConstantLib::new();
    let t = Stmt::Block(vec![
        Stmt::NewAssignment(vec!["y".to_string()], b(E::Number(7))),
        Stmt::NewAssignment(vec!["z".to_string()], b(E::Variable("y".to_string()))),
        Stmt::Return(Some(b(E::Variable("z".to_string())))),
    ]);
    let code = compile_stmt(&t, &mut chain, &mut lib, &mut Decls { members: vec![], functions: vec![] }, &vec![]).unwrap();
    let mut m: Machine<Const<i64>, u32> = Machine::new(0, vec![], chain.0[0].len(), Const::Null, Const::Zero);
    let mut last = None;
    for _ in 0..10 {
        match m.step(&code) {
            Ok(Action::Next) => {}
            Ok(Action::Finish(v)) => {
                last = Some(v);
                break;
            }
            _ => panic!("unexpected step"),
        }
    }
    assert_eq!(last, Some(Const::Num(7)));
}

#[test]
fn for_loops_over_an_iterator() {
    let mut chain = scopes();
    let mut lib = ConstantLib::new();
    let t = Stmt::For(
        vec!["i".to_string()],
        b(E::Variable("x".to_string())),
        Box::new(Stmt::Block(vec![Stmt::Break])),
    );
    assert_eq!(
        stmt_code(&t, &mut chain, &mut lib),
        vec![
            "Ldl(0, 0)", "Dup", "Call(0)", "Unpack(2)", "Rot", "Ktest(4)", "Stl(0, 1)", "Jmp(1)", "Jmp(-8)",
            "Pop", "Pop"
        ]
    );
    let t = Stmt::For(
        vec!["k".to_string(), "v".to_string()],
        b(E::Variable("x".to_string())),
        Box::new(Stmt::Empty),
    );
    assert_eq!(
        stmt_code(&t, &mut chain, &mut lib),
        vec![
            "Ldl(0, 0)", "Dup", "Call(0)", "Unpack(2)", "Rot", "Ktest(5)", "Unpack(2)", "Stl(0, 2)", "Stl(0, 3)",
            "Jmp(-9)", "Pop", "Pop"
        ]
    );
}

#[test]
fn try_blocks_and_member_stores() {
    let mut chain = scopes();
    let mut lib = ConstantLib::new();
    let t = Stmt::Try(
        Box::new(Stmt::Block(vec![Stmt::Expr(b(E::Number(1)))])),
        None,
        None,
        Box::new(Stmt::Block(vec![])),
    );
    assert_eq!(
        stmt_code(&t, &mut chain, &mut lib),
        vec!["Ltb(4)", "Cld(Num(1))", "Pop", "Ftb(4)", "LoadErr", "Pop", "Fcb"]
    );
    let t = Stmt::Try(
        Box::new(Stmt::Block(vec![])),
        Some(vec!["IOError".to_string()]),
        Some("e".to_string()),
        Box::new(Stmt::Block(vec![Stmt::Expr(b(E::Variable("e".to_string())))])),
    );
    assert_eq!(
        stmt_code(&t, &mut chain, &mut lib),
        vec!["Ltb(2)", "Ftb(6)", "Cld(Text(0))", "ESwitch(1)", "Stl(0, 1)", "Ldl(0, 1)", "Pop", "Fcb"]
    );
    let t = Stmt::TryFinally(
        Box::new(Stmt::Block(vec![])),
        None,
        None,
        Box::new(Stmt::Block(vec![])),
        Box::new(Stmt::Block(vec![Stmt::Expr(b(E::Number(5)))])),
    );
    assert_eq!(
        stmt_code(&t, &mut chain, &mut lib),
        vec!["Ltb(2)", "Ftb(4)", "LoadErr", "Pop", "Fcb", "Jmp(2)", "Cld(Num(5))", "Pop"]
    );
    let t = Stmt::AccessAssignment(b(E::Dotted(vec!["x".to_string(), "a".to_string()])), b(E::Number(3)));
    assert_eq!(stmt_code(&t, &mut chain, &mut lib), vec!["Cld(Num(3))", "Ldl(0, 0)", "Stm(1)"]);
}

use zin_lib::compile::{compile_lambda, LambdaCode, Member};

fn no_decls() -> Decls<i64> {
    Decls { members: vec![], functions: vec![] }
}

fn texts(v: &Vec<Instruction<Const<i64>>>) -> Vec<String> {
    v.iter().map(|i| format!("{:?}", i)).collect()
}

#[test]
fn function_declaration_stores_a_function() {
    let mut chain = scopes();
    let mut lib = ConstantLib::new();
    let mut decls = no_decls();
    let t = Stmt::Function(
        "f".to_string(),
        vec!["a".to_string()],
        Some("doc".to_string()),
        Box::new(Stmt::Return(Some(b(E::Variable("a".to_string()))))),
    );
    let c = code(compile_stmt(&t, &mut chain, &mut lib, &mut decls, &vec![]));
    assert_eq!(c, vec!["Cld(Func(0))", "Stl(0, 1)"]);
    assert_eq!(decls.functions.len(), 1);
    let f = &decls.functions[0];
    assert_eq!(texts(&f.code), vec!["Ldl(0, 0)", "Return(1)"]);
    assert_eq!(f.nargs, 1);
    assert_eq!(f.nlocals, 1);
    assert!(!f.is_method);
    assert_eq!(f.name, Some("f".to_string()));
    assert_eq!(f.doc, Some("doc".to_string()));
    assert_eq!(chain.index_of("f"), Some((false, 0, 1)));
}

#[test]
fn lambda_capturing_a_local_makes_a_closure() {
    let mut chain = scopes();
    let mut lib = ConstantLib::new();
    let mut decls = no_decls();
    let e = E::Lambda(vec![], Box::new(Stmt::Return(Some(b(E::Variable("x".to_string()))))), None);
    let c = code(compile_expr(&e, &mut chain, &mut lib, &mut decls, &vec![]));
    assert_eq!(c, vec!["Cld(Func(0))", "Ldl(0, 0)", "MkFunc(1)"]);
    assert_eq!(texts(&decls.functions[0].code), vec!["Ldup(0)", "Return(1)"]);
    assert_eq!(decls.functions[0].nlocals, 0);
}

#[test]
fn body_without_return_gets_one() {
    let mut chain = scopes();
    let mut lib = ConstantLib::new();
    let mut decls = no_decls();
    let r = compile_lambda(
        &vec!["self".to_string(), "y".to_string()],
        &Stmt::Empty,
        None,
        None,
        &mut chain,
        &mut lib,
        &mut decls,
        &vec![],
    );
    assert!(matches!(r, Ok(LambdaCode::Static(0))));
    let f = &decls.functions[0];
    assert_eq!(texts(&f.code), vec!["Return(0)"]);
    assert!(f.is_method);
    assert_eq!(f.nargs, 1);
    assert_eq!(f.nlocals, 2);
    assert_eq!(chain.0.len(), 1);
}

#[test]
fn duplicate_argument_is_refused() {
    let mut chain = scopes();
    let mut lib = ConstantLib::new();
    let mut decls = no_decls();
    let r = compile_lambda(
        &vec!["a".to_string(), "a".to_string()],
        &Stmt::Empty,
        None,
        None,
        &mut chain,
        &mut lib,
        &mut decls,
        &vec![],
    );
    match r {
        Err(Error::ParserError(m)) => assert_eq!(m, "Duplicate argument: a"),
        _ => panic!("expected a parser error"),
    }
    assert_eq!(decls.functions.len(), 0);
}

#[test]
fn pub_assignment_makes_members() {
    let mut chain = scopes();
    let mut lib = ConstantLib::new();
    let mut decls = no_decls();
    let t = Stmt::ExternAssignment(vec!["v".to_string(), "w".to_string()], b(E::Number(1)));
    let c = code(compile_stmt(&t, &mut chain, &mut lib, &mut decls, &vec![]));
    assert_eq!(c, vec!["Cld(Num(1))", "Unpack(2)", "This", "Stm(0)", "This", "Stm(1)"]);
    assert_eq!(decls.members, vec![("v".to_string(), Member::Null), ("w".to_string(), Member::Null)]);
}

#[test]
fn pub_function_becomes_a_member() {
    let mut chain = scopes();
    let mut lib = ConstantLib::new();
    let mut decls = no_decls();
    let t = Stmt::ExternFunction("g".to_string(), vec![], None, Box::new(Stmt::Return(None)));
    let c = code(compile_stmt(&t, &mut chain, &mut lib, &mut decls, &vec![]));
    assert!(c.is_empty());
    assert_eq!(decls.members, vec![("g".to_string(), Member::Function(0))]);
    assert_eq!(texts(&decls.functions[0].code), vec!["Return(0)"]);
}

#[test]
fn pub_closure_is_stored_as_a_member() {
    let mut chain = scopes();
    let mut lib = ConstantLib::new();
    let mut decls = no_decls();
    let t = Stmt::ExternFunction(
        "h".to_string(),
        vec![],
        None,
        Box::new(Stmt::Return(Some(b(E::Variable("x".to_string()))))),
    );
    let c = code(compile_stmt(&t, &mut chain, &mut lib, &mut decls, &vec![]));
    assert_eq!(c, vec!["Cld(Func(0))", "Ldl(0, 0)", "MkFunc(1)", "This", "Stm(0)"]);
    assert_eq!(decls.members, vec![("h".to_string(), Member::Null)]);
}
