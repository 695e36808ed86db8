use tapec::ir::{Error, Expr, Ident, IR};
use tapec::trans::trans;
use tapec::vm::VM;

#[test]
fn parse_ir() {
    IR::parse_str(
        "
            while x {
                let y = 1 + 2
            }
        ",
    )
    .unwrap();
}

#[test]
fn parse_all_statement_forms() {
    IR::parse_str("let a let b = 2 a = b + 1 a += 'z' if a > b { a = 0 } while a { a = a - 1 }")
        .unwrap();
}

#[test]
fn parse_rejects_bad_statement() {
    match IR::parse_str("let 5") {
        Err(Error::Parse { .. }) => {},
        other => panic!("expected a parse error, got {:?}", other),
    }
}

#[test]
fn parse_rejects_large_number() {
    match IR::parse_str("let x = 300") {
        Err(Error::NumberTooLarge { pos }) => assert_eq!(pos, 8),
        other => panic!("expected a number error, got {:?}", other),
    }
}

#[test]
fn parse_rejects_unclosed_block() {
    match IR::parse_str("while x { let y = 1") {
        Err(Error::Parse { .. }) => {},
        other => panic!("expected a parse error, got {:?}", other),
    }
}

#[test]
fn const_value_folds_constants() {
    let e = Expr::Add(Box::new(Expr::Const(200)), Box::new(Expr::Const(100)));
    assert_eq!(e.const_value(), Some(44));

    let e = Expr::Sub(Box::new(Expr::Const(1)), Box::new(Expr::Const(2)));
    assert_eq!(e.const_value(), Some(255));

    let e = Expr::Gt(Box::new(Expr::Const(5)), Box::new(Expr::Const(3)));
    assert_eq!(e.const_value(), Some(1));

    let e = Expr::Gt(Box::new(Expr::Const(3)), Box::new(Expr::Const(3)));
    assert_eq!(e.const_value(), Some(0));

    let e = Expr::Add(
        Box::new(Expr::Var(Ident::new(b"x".to_vec()))),
        Box::new(Expr::Const(1)),
    );
    assert_eq!(e.const_value(), None);
}

#[test]
fn front_end_compiles_a_declaration() {
    let ir = IR::parse_str("let y = 1 + 2").unwrap();
    let code = trans(&ir).unwrap();
    let mut vm = VM::new();
    vm.run(&code).unwrap();
    assert!(vm.mem()[..4].iter().any(|&v| v == 3));
}

#[test]
fn front_end_unknown_variable() {
    let ir = IR::parse_str("x = 1").unwrap();
    match trans(&ir) {
        Err(Error::UnknownVariable { name }) => assert_eq!(name, b"x".to_vec()),
        other => panic!("expected an unknown-variable error, got {:?}", other),
    }
}

#[test]
fn front_end_while_loop_runs() {
    let ir = IR::parse_str("let a = 0 let i = 3 while i { a += 2 i = i - 1 }").unwrap();
    let code = trans(&ir).unwrap();
    let mut vm = VM::new();
    vm.run(&code).unwrap();
    assert_eq!(vm.mem()[0], 6);
    assert_eq!(vm.mem()[1], 0);
}

#[test]
fn front_end_if_statement() {
    let ir = IR::parse_str("let a = 2 let b = 1 let r = 0 if a > b { r = 7 }").unwrap();
    let code = trans(&ir).unwrap();
    let mut vm = VM::new();
    vm.run(&code).unwrap();
    assert_eq!(vm.mem()[2], 7);

    let ir = IR::parse_str("let a = 2 let b = 1 let r = 0 if b > a { r = 7 }").unwrap();
    let code = trans(&ir).unwrap();
    let mut vm = VM::new();
    vm.run(&code).unwrap();
    assert_eq!(vm.mem()[2], 0);
}

#[test]
fn front_end_shadowing_resolves_innermost() {
    let ir = IR::parse_str("let x = 1 let x = 2 let y = x").unwrap();
    let code = trans(&ir).unwrap();
    let mut vm = VM::new();
    vm.run(&code).unwrap();
    assert_eq!(vm.mem()[2], 2);
}

#[test]
fn front_end_scope_is_popped() {
    let ir = IR::parse_str("let a = 1 if a { let b = 2 } b = 3").unwrap();
    match trans(&ir) {
        Err(Error::UnknownVariable { name }) => assert_eq!(name, b"b".to_vec()),
        other => panic!("expected an unknown-variable error, got {:?}", other),
    }
}

#[test]
fn lowering_is_deterministic() {
    let ir1 = IR::parse_str("let a = 3 let b = a + 4").unwrap();
    let ir2 = IR::parse_str("let a = 3 let b = a + 4").unwrap();
    assert_eq!(trans(&ir1).unwrap(), trans(&ir2).unwrap());
}
