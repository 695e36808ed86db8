use tapec::{Context, Ptr};
use tapec::vm::VM;

fn gen<F>(f: F) -> Vec<u8>
where
    F: FnOnce(&mut Context),
{
    let mut ctx = Context::new();
    f(&mut ctx);
    ctx.code().clone()
}

fn run<F>(f: F) -> Vec<u8>
where
    F: FnOnce(&mut Context),
{
    let code = gen(f);
    let mut vm = VM::new();
    vm.run(&code).unwrap();
    vm.mem().clone()
}

#[test]
fn seek() {
    let code = gen(|ctx| {
        ctx.seek(&Ptr::new(3));
        ctx.emit(b"a");
        ctx.seek(&Ptr::new(1));
        ctx.emit(b"b");
        ctx.seek(&Ptr::new(5));
    });

    assert_eq!(code, b">>>a<<b>>>>".to_vec());
}

#[test]
fn while_not_zero() {
    let code = gen(|ctx| {
        let a = ctx.stack_alloc();
        let i = ctx.stack_alloc();

        ctx.set(&a, 2);
        ctx.set(&i, 3);
        ctx.while_not_zero(&i, |mut c: Context| {
            c.increment(&a);
            c
        });
    });

    assert_eq!(code, b"[-]++>[-]+++[<+>]".to_vec());
}

#[test]
fn repeat_reverse_destructive() {
    let code = gen(|ctx| {
        let a = ctx.stack_alloc();
        let i = ctx.stack_alloc();

        ctx.set(&a, 2);
        ctx.set(&i, 3);

        ctx.repeat_reverse_destructive(&i, |mut c: Context, _counter: Ptr| {
            c.increment(&a);
            c
        });
    });

    assert_eq!(code, b"[-]++>[-]+++[<+>-]".to_vec());
}

#[test]
fn repeat_reverse() {
    let code = gen(|ctx| {
        let a = ctx.stack_alloc();
        let i = ctx.stack_alloc();

        ctx.set(&a, 2);
        ctx.set(&i, 3);

        ctx.repeat_reverse(&i, |mut c: Context, _counter: Ptr| {
            c.increment(&a);
            c
        });
    });

    assert_eq!(code, b"[-]++>[-]+++>[-]>[-]<<[>>+<<-]>>[<<+>+>-]<[<<+>>-]".to_vec());
}

#[test]
fn set() {
    let code = gen(|ctx| {
        ctx.set(&Ptr::new(3), 13);
    });

    assert_eq!(code, b">>>[-]+++++++++++++".to_vec());
}

#[test]
fn clear() {
    let code = gen(|ctx| {
        ctx.clear(&Ptr::new(3));
    });

    assert_eq!(code, b">>>[-]".to_vec());
}

#[test]
fn not() {
    let mem = run(|ctx| {
        ctx.with_stack_alloc2(|mut c: Context, a: Ptr, b: Ptr| {
            c.set_bool(&a, false);
            c.set_bool(&b, true);
            c.not(&a);
            c.not(&b);
            c
        })
    });

    assert_eq!(mem[..2], [1, 0]);
}

#[test]
fn or() {
    let mem = run(|ctx| {
        ctx.with_stack_alloc2(|mut c: Context, false_: Ptr, true_: Ptr| {
            c.with_stack_alloc4(|mut c: Context, a: Ptr, b: Ptr, c3: Ptr, d: Ptr| {
                c.set_bool(&false_, false);
                c.set_bool(&true_, true);
                c.or(&false_, &false_, &a);
                c.or(&false_, &true_, &b);
                c.or(&true_, &false_, &c3);
                c.or(&true_, &true_, &d);
                c
            });
            c
        })
    });

    assert_eq!(mem[..6], [0, 1, 0, 1, 1, 1]);
}

#[test]
fn xor() {
    let mem = run(|ctx| {
        ctx.with_stack_alloc2(|mut c: Context, false_: Ptr, true_: Ptr| {
            c.with_stack_alloc4(|mut c: Context, a: Ptr, b: Ptr, c3: Ptr, d: Ptr| {
                c.set_bool(&false_, false);
                c.set_bool(&true_, true);
                c.xor(&false_, &false_, &a);
                c.xor(&false_, &true_, &b);
                c.xor(&true_, &false_, &c3);
                c.xor(&true_, &true_, &d);
                c
            });
            c
        })
    });

    assert_eq!(mem[..6], [0, 1, 0, 1, 1, 0]);
}

#[test]
fn and() {
    let mem = run(|ctx| {
        ctx.with_stack_alloc2(|mut c: Context, false_: Ptr, true_: Ptr| {
            c.with_stack_alloc4(|mut c: Context, a: Ptr, b: Ptr, c3: Ptr, d: Ptr| {
                c.set_bool(&false_, false);
                c.set_bool(&true_, true);
                c.and(&false_, &false_, &a);
                c.and(&false_, &true_, &b);
                c.and(&true_, &false_, &c3);
                c.and(&true_, &true_, &d);
                c
            });
            c
        })
    });

    assert_eq!(mem[..6], [0, 1, 0, 0, 0, 1]);
}

#[test]
fn add() {
    let mem = run(|ctx| {
        ctx.with_stack_alloc4(|mut c: Context, a: Ptr, b: Ptr, c3: Ptr, d: Ptr| {
            c.set(&a, 6);
            c.set(&b, 7);
            c.set(&c3, 8);
            c.set(&d, 9);
            c.add(&a, &b);
            c.add(&d, &c3);
            c
        })
    });

    assert_eq!(mem[..4], [13, 0, 0, 17]);
}

#[test]
fn mul() {
    let mem = run(|ctx| {
        ctx.with_stack_alloc4(|mut c: Context, a: Ptr, b: Ptr, c3: Ptr, d: Ptr| {
            c.set(&a, 6);
            c.set(&b, 7);
            c.set(&c3, 8);
            c.set(&d, 9);
            c.mul(&a, &b);
            c.mul(&d, &c3);
            c
        })
    });

    assert_eq!(mem[..4], [42, 7, 8, 72]);
}

#[test]
fn sub() {
    let mem = run(|ctx| {
        ctx.with_stack_alloc4(|mut c: Context, a: Ptr, b: Ptr, c3: Ptr, d: Ptr| {
            c.set(&a, 9);
            c.set(&b, 8);
            c.set(&c3, 6);
            c.set(&d, 7);
            c.sub(&a, &b);
            c.sub(&d, &c3);
            c
        })
    });

    assert_eq!(mem[..4], [1, 0, 0, 1]);
}

#[test]
fn greater_than() {
    let mem = run(|ctx| {
        ctx.with_stack_alloc5(|mut c: Context, a: Ptr, b: Ptr, r1: Ptr, r2: Ptr, r3: Ptr| {
            c.set(&a, 6);
            c.set(&b, 10);
            c.greater_than(&a, &b, &r1);
            c.greater_than(&b, &a, &r2);
            c.greater_than(&a, &a, &r3);
            c
        })
    });

    assert_eq!(mem[..5], [6, 10, 0, 1, 0]);
}
