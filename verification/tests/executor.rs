use zin_lib::error::Error;
use zin_lib::executor::{Frame, ProgramCounter, StackFrame};

#[test]
fn program_counter_jumps() {
    let mut pc = ProgramCounter::from_usize(10);
    assert!(pc.jump(-3).is_ok());
    assert_eq!(pc.as_usize(), 7);
    assert!(matches!(pc.jump(-8), Err(Error::InvalidJump)));
    assert_eq!(pc.as_usize(), 7);
    assert!(pc.jump(5).is_ok());
    assert_eq!(pc.as_usize(), 12);
    assert!(pc.jump(0).is_ok());
    assert_eq!(pc.as_usize(), 12);
    assert!(matches!(pc.jump(i64::MIN), Err(Error::InvalidJump)));
    assert_eq!(pc.as_usize(), 12);
    assert!(pc.jump(-12).is_ok());
    assert_eq!(pc.as_usize(), 0);
}

#[test]
fn program_counter_jump_forward() {
    let mut pc = ProgramCounter::from_usize(4);
    assert!(pc.jump_forward(6).is_ok());
    assert_eq!(pc.as_usize(), 10);
    assert!(matches!(pc.jump_forward(usize::MAX), Err(Error::InvalidJump)));
    assert_eq!(pc.as_usize(), 10);
    let mut top = ProgramCounter::from_usize(usize::MAX - 1);
    assert!(top.jump_forward(1).is_ok());
    assert_eq!(top.as_usize(), usize::MAX);
}

#[test]
fn jump_is_undone_by_the_opposite_jump() {
    for (start, x) in [(0usize, 5i64), (100, -40), (7, 0), (3, 1000)] {
        let mut pc = ProgramCounter::from_usize(start);
        assert!(pc.jump(x).is_ok());
        assert!(pc.jump(-x).is_ok());
        assert_eq!(pc.as_usize(), start);
    }
}

#[test]
fn frame_pops() {
    let mut f = Frame::from_values(vec![1, 2, 3, 4]);
    assert!(matches!(f.pop_or_error(), Ok(4)));
    match f.popn_or_error(2) {
        Ok(v) => assert_eq!(v, vec![3, 2]),
        Err(e) => panic!("unexpected {:?}", e),
    }
    assert!(matches!(f.pop_or_error(), Ok(1)));
    assert!(matches!(f.pop_or_error(), Err(Error::MalformedStack)));
    let mut g = Frame::from_values(vec![1, 2]);
    assert!(matches!(g.popn_or_error(3), Err(Error::MalformedStack)));
    assert!(g.values.is_empty());
    let mut h: Frame<u8> = Frame::new(8);
    assert!(h.values.is_empty());
    assert!(matches!(h.popn_or_error(0), Ok(ref v) if v.is_empty()));
}

#[test]
fn frame_try_blocks() {
    let mut f: Frame<i32> = Frame::new(2);
    assert_eq!(f.peek_try_block(), None);
    f.push_try_block(5);
    f.push_try_block(9);
    assert_eq!(f.peek_try_block(), Some(9));
    assert_eq!(f.pop_try_block(), Some(9));
    assert_eq!(f.pop_try_block(), Some(5));
    assert_eq!(f.pop_try_block(), None);
}

#[test]
fn store_then_load_locals() {
    let mut s: StackFrame<i32> = StackFrame::new(4);
    assert!(s.stl((0, 0), 7).is_ok());
    assert_eq!(s.frames[0].values, vec![7]);
    assert!(s.stl((0, 0), 8).is_ok());
    assert_eq!(s.frames[0].values, vec![8]);
    assert!(matches!(s.stl((0, 5), 1), Err(Error::MalformedStack)));
    assert!(matches!(s.stl((1, 0), 1), Err(Error::MalformedStack)));
    assert_eq!(s.frames[0].values, vec![8]);
    assert!(s.ldl((0, 0)).is_ok());
    assert_eq!(s.frames[0].values, vec![8, 8]);
    assert!(matches!(s.ldl((0, 9)), Err(Error::MalformedStack)));
    assert!(matches!(s.ldl((3, 0)), Err(Error::MalformedStack)));
}

#[test]
fn store_into_empty_frame_at_one() {
    let mut s: StackFrame<i32> = StackFrame::new(1);
    s.frames.push(Frame::new(1));
    assert!(s.stl((0, 1), 4).is_ok());
    assert_eq!(s.frames[1].values, vec![4]);
    assert!(matches!(s.ldl((0, 1)), Err(Error::MalformedStack)));
    assert!(s.stl((1, 0), 6).is_ok());
    assert!(s.ldl((1, 0)).is_ok());
    assert_eq!(s.frames[1].values, vec![4, 6]);
    assert_eq!(s.frames[0].values, vec![6]);
}

#[test]
fn current_frame_made_when_missing() {
    let mut s: StackFrame<i32> = StackFrame { frames: Vec::new() };
    s.current_frame().values.push(3);
    assert_eq!(s.frames.len(), 1);
    assert_eq!(s.frames[0].values, vec![3]);
    s.current_frame().values.push(4);
    assert_eq!(s.frames.len(), 1);
    assert_eq!(s.frames[0].values, vec![3, 4]);
}

#[test]
fn store_leaves_other_locals() {
    let mut s: StackFrame<i32> = StackFrame::new(2);
    assert!(s.stl((0, 0), 1).is_ok());
    assert!(s.stl((0, 1), 2).is_ok());
    s.frames.push(Frame::from_values(vec![5]));
    assert!(s.stl((1, 1), 20).is_ok());
    assert_eq!(s.frames[0].values, vec![1, 20]);
    assert_eq!(s.frames[1].values, vec![5]);
    assert!(s.ldl((1, 0)).is_ok());
    assert_eq!(s.frames[1].values, vec![5, 1]);
}

#[test]
fn stored_local_loads_back() {
    let mut s: StackFrame<u64> = StackFrame::new(2);
    s.frames.push(Frame::new(1));
    assert!(s.stl((1, 0), 41).is_ok());
    assert!(s.stl((1, 1), 42).is_ok());
    assert!(s.ldl((1, 1)).is_ok());
    assert_eq!(s.frames[1].values, vec![42]);
    assert_eq!(s.frames[0].values, vec![41, 42]);
}
