use zin_lib::refrence::{Block, BlockChain, UpvalBlock, VarInstruction, WizardBlock};

#[test]
fn block_slots() {
    let mut b = Block::new();
    assert_eq!(b.len(), 0);
    assert_eq!(b.get_or_create_index("a".to_string()), 0);
    assert_eq!(b.get_or_create_index("b".to_string()), 1);
    assert_eq!(b.get_or_create_index("a".to_string()), 0);
    assert_eq!(b.index_of("b"), Some(1));
    assert_eq!(b.index_of("c"), None);
    assert_eq!(b.try_create_index("a".to_string()), None);
    assert_eq!(b.try_create_index("c".to_string()), Some(2));
    assert_eq!(b.len(), 3);
    assert_eq!(b.index_of("c"), Some(2));
}

#[test]
fn upvalue_slots_and_origins() {
    let mut u = UpvalBlock::new();
    assert_eq!(u.get_or_create_index("x".to_string(), (2, 5)), 0);
    assert_eq!(u.get_or_create_index("x".to_string(), (7, 7)), 0);
    assert_eq!(u.origin_all_at_index(0), Some((1, 5, false)));
    assert_eq!(u.try_create_orgin_index("y".to_string(), (0, 3)), Some(1));
    assert_eq!(u.try_create_orgin_index("y".to_string(), (0, 3)), None);
    assert_eq!(u.origin_all_at_index(1), Some((0, 3, true)));
    assert_eq!(u.origin_of("y"), Some((0, 3)));
    assert_eq!(u.origin_all_of("x"), Some((1, 5)));
    assert_eq!(u.origin_at_index(0), Some((1, 5)));
    assert_eq!(u.origin_at_index(5), None);
    assert_eq!(u.try_create_index("z".to_string(), (4, 1)), Some(2));
    assert_eq!(u.origin_all_at_index(2), Some((3, 1, false)));
    let (name, slot) = u.all_at_index(1).unwrap();
    assert_eq!(name.as_str(), "y");
    assert_eq!(*slot, (1, (0, 3, true)));
    assert!(u.all_at_index(3).is_none());
    assert_eq!(u.index_of("z"), Some(2));
    assert_eq!(u.len(), 3);
}

#[test]
fn wizard_block_locals_and_upvalues() {
    let mut w = WizardBlock::new();
    assert_eq!(w.get_or_create_index("a".to_string()), (false, 0));
    assert_eq!(w.upval_get_or_create_index("u".to_string(), (1, 2)), 0);
    assert_eq!(w.get_or_create_index("u".to_string()), (true, 0));
    assert_eq!(w.len(), 1);
    assert_eq!(w.upval_len(), 1);
    assert_eq!(w.index_of("a"), Some(0));
    assert_eq!(w.upval_index_of("u"), Some(0));
    assert_eq!(w.upval_origin_of("u"), Some((0, 2)));
    assert_eq!(w.try_create_index("b".to_string()), Some(1));
    assert_eq!(w.upval_try_create_index("u".to_string(), (1, 2)), None);
    assert!(w.upval_all_at_index(0).is_some());
}

#[test]
fn chain_finds_created_variables() {
    let mut c = BlockChain::new();
    assert_eq!(c.get_or_create_index("a".to_string()), (false, 0, 0));
    assert_eq!(c.index_of("a"), Some((false, 0, 0)));
    c.0.push(WizardBlock::new());
    assert_eq!(c.index_of("a"), Some((false, 1, 0)));
    assert_eq!(c.upval_index_of("a"), Some((1, 0)));
    assert_eq!(c.variable("a"), Some(VarInstruction::Ldup(0)));
    assert_eq!(c.index_of("a"), Some((true, 0, 0)));
    assert_eq!(c.variable("a"), Some(VarInstruction::Ldup(0)));
    assert_eq!(c.load_variable("a"), Some(VarInstruction::Stup(0)));
    assert_eq!(c.get_or_create_index("b".to_string()), (false, 0, 0));
    assert_eq!(c.variable("b"), Some(VarInstruction::Ldl(0, 0)));
    assert_eq!(c.load_variable("b"), Some(VarInstruction::Stl(0, 0)));
    assert_eq!(c.variable("zz"), None);
    assert_eq!(c.index_of("zz"), None);
    assert_eq!(VarInstruction::Ldl(1, 2).into_loaded(), VarInstruction::Stl(1, 2));
    assert_eq!(VarInstruction::Stup(3).into_loaded(), VarInstruction::Stup(3));
}
