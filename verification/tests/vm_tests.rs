use tapec::vm::{VmError, MEM_SIZE, VM};

#[test]
fn left() {
    let mut vm = VM::new();

    vm.run(b"<").unwrap();
    assert_eq!(vm.dp(), MEM_SIZE - 1);

    vm.run(b"<").unwrap();
    assert_eq!(vm.dp(), MEM_SIZE - 2);
}

#[test]
fn right() {
    let mut vm = VM::new();

    vm.run(b">").unwrap();
    assert_eq!(vm.dp(), 1);

    for _ in 0..MEM_SIZE {
        vm.run(b">").unwrap();
    }
    assert_eq!(vm.dp(), 1);
}

#[test]
fn increment() {
    let mut vm = VM::new();

    vm.run(b"+>++>+++").unwrap();
    assert_eq!(vm.mem()[..3], [1, 2, 3]);
}

#[test]
fn decrement() {
    let mut vm = VM::new();

    vm.run(b"->-->---").unwrap();
    assert_eq!(vm.mem()[..3], [255, 254, 253]);
}

#[test]
fn loops() {
    let mut vm = VM::new();

    vm.run(b">++++++[<+++++++>-]").unwrap();
    assert_eq!(vm.mem()[..2], [42, 0]);
}

#[test]
fn nested_loops() {
    let mut vm = VM::new();
    vm.run(b"[[[]]]").unwrap();
}

#[test]
fn unmatched_close_is_an_error() {
    let mut vm = VM::new();
    assert_eq!(vm.run(b"]"), Err(VmError::UnmatchedClose));
}

#[test]
fn unmatched_open_is_an_error() {
    let mut vm = VM::new();
    assert_eq!(vm.run(b"["), Err(VmError::UnmatchedOpen));
}

#[test]
fn runaway_loop_hits_the_step_limit() {
    let mut vm = VM::new();
    assert_eq!(vm.run(b"+[]"), Err(VmError::StepLimit));
}

#[test]
fn byte_io_is_unsupported() {
    let mut vm = VM::new();
    assert_eq!(vm.run(b"."), Err(VmError::UnsupportedOp));
    assert_eq!(vm.run(b","), Err(VmError::UnsupportedOp));
}

#[test]
fn ignores_unknown_bytes() {
    let mut vm = VM::new();
    vm.run(b"ab + cd").unwrap();
    assert_eq!(vm.mem()[0], 1);
}

#[test]
fn tape_is_writable_between_runs() {
    let mut vm = VM::new();
    vm.mem_mut()[0] = 41;
    vm.run(b"+").unwrap();
    assert_eq!(vm.mem()[0], 42);
}
