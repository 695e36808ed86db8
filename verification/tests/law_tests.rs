use tapec::{Context, Ptr};
use tapec::vm::VM;

fn gen<F>(f: F) -> Vec<u8>
where
    F: FnOnce(&mut Context),
{
    let mut ctx = Context::new();
    f(&mut ctx);
    ctx.code().clone()
}

fn run<F>(f: F) -> Vec<u8>
where
    F: FnOnce(&mut Context),
{
    let code = gen(f);
    let mut vm = VM::new();
    vm.run(&code).unwrap();
    vm.mem().clone()
}

#[test]
fn allocator_hands_out_dense_addresses() {
    let mut ctx = Context::new();
    let p1 = ctx.stack_alloc();
    let p2 = ctx.stack_alloc();
    assert_eq!(p1.as_isize(), 0);
    assert_eq!(p2.as_isize(), 1);
}

#[test]
fn allocator_reuses_a_released_address() {
    let mut ctx = Context::new();
    let p1 = ctx.stack_alloc();
    let _p2 = ctx.stack_alloc();
    ctx.release(&p1);
    let p3 = ctx.stack_alloc();
    assert_eq!(p3.as_isize(), p1.as_isize());
}

#[test]
fn scoped_allocation_releases_on_return() {
    let mut ctx = Context::new();
    ctx.with_stack_alloc(|mut c: Context, p: Ptr| {
        assert_eq!(p.as_isize(), 0);
        c.set(&p, 5);
        c
    });
    let p = ctx.stack_alloc();
    assert_eq!(p.as_isize(), 0);
}

#[test]
fn nested_scopes_release_in_order() {
    let mut ctx = Context::new();
    ctx.with_stack_alloc3(|c: Context, p1: Ptr, p2: Ptr, p3: Ptr| {
        assert_eq!(p1.as_isize(), 0);
        assert_eq!(p2.as_isize(), 1);
        assert_eq!(p3.as_isize(), 2);
        c
    });
    let p = ctx.stack_alloc();
    assert_eq!(p.as_isize(), 0);
}

#[test]
fn set_bool_flips_known_booleans_in_one_byte() {
    let code = gen(|ctx| {
        let p = ctx.stack_alloc();
        ctx.set(&p, 0);
        ctx.set_bool(&p, true);
        ctx.set_bool(&p, false);
    });
    assert_eq!(code, b"[-]+-".to_vec());
}

#[test]
fn set_skips_a_known_value() {
    let code = gen(|ctx| {
        let p = ctx.stack_alloc();
        ctx.set(&p, 7);
        ctx.set(&p, 7);
    });
    assert_eq!(code, b"[-]+++++++".to_vec());
}

#[test]
fn increment_and_decrement_by() {
    let code = gen(|ctx| {
        let p = ctx.stack_alloc();
        ctx.increment_by(&p, 4);
        ctx.decrement_by(&p, 2);
    });
    assert_eq!(code, b"++++--".to_vec());
}

#[test]
fn print_and_read_bytes() {
    let code = gen(|ctx| {
        let p = Ptr::new(1);
        ctx.print(&p);
        ctx.read(&p);
    });
    assert_eq!(code, b">.,".to_vec());
}

#[test]
fn mov_zeroes_source_and_copy_preserves_it() {
    let mem = run(|ctx| {
        ctx.with_stack_alloc4(|mut c: Context, a: Ptr, b: Ptr, c3: Ptr, d: Ptr| {
            c.set(&a, 9);
            c.mov(&a, &b);
            c.set(&c3, 4);
            c.copy(&c3, &d);
            c
        })
    });
    assert_eq!(mem[..4], [0, 9, 4, 4]);
}

#[test]
fn nor_matrix() {
    let mem = run(|ctx| {
        ctx.with_stack_alloc2(|mut c: Context, false_: Ptr, true_: Ptr| {
            c.with_stack_alloc4(|mut c: Context, a: Ptr, b: Ptr, c3: Ptr, d: Ptr| {
                c.set_bool(&false_, false);
                c.set_bool(&true_, true);
                c.nor(&false_, &false_, &a);
                c.nor(&false_, &true_, &b);
                c.nor(&true_, &false_, &c3);
                c.nor(&true_, &true_, &d);
                c
            });
            c
        })
    });
    assert_eq!(mem[..6], [0, 1, 1, 0, 0, 0]);
}

#[test]
fn equals_matrix() {
    let mem = run(|ctx| {
        ctx.with_stack_alloc5(|mut c: Context, a: Ptr, b: Ptr, c3: Ptr, r1: Ptr, r2: Ptr| {
            c.set(&a, 5);
            c.set(&b, 5);
            c.set(&c3, 7);
            c.equals(&a, &b, &r1);
            c.equals(&a, &c3, &r2);
            c
        })
    });
    assert_eq!(mem[..5], [5, 5, 7, 1, 0]);
}

#[test]
fn is_zero_matrix() {
    let mem = run(|ctx| {
        ctx.with_stack_alloc4(|mut c: Context, a: Ptr, b: Ptr, r1: Ptr, r2: Ptr| {
            c.set(&a, 0);
            c.set(&b, 3);
            c.is_zero(&a, &r1);
            c.is_zero(&b, &r2);
            c
        })
    });
    assert_eq!(mem[..4], [0, 3, 1, 0]);
}

#[test]
fn is_not_zero_matrix() {
    let mem = run(|ctx| {
        ctx.with_stack_alloc4(|mut c: Context, a: Ptr, b: Ptr, r1: Ptr, r2: Ptr| {
            c.set(&a, 0);
            c.set(&b, 3);
            c.is_not_zero(&a, &r1);
            c.is_not_zero(&b, &r2);
            c
        })
    });
    assert_eq!(mem[..4], [0, 3, 0, 1]);
}

#[test]
fn if_else_takes_the_right_branch() {
    let mem = run(|ctx| {
        ctx.with_stack_alloc4(|mut c: Context, c1: Ptr, r1: Ptr, c2: Ptr, r2: Ptr| {
            c.set_bool(&c1, true);
            c.if_else(
                &c1,
                |mut k: Context| {
                    k.set(&r1, 7);
                    k
                },
                |mut k: Context| {
                    k.set(&r1, 9);
                    k
                },
            );
            c.set_bool(&c2, false);
            c.if_else(
                &c2,
                |mut k: Context| {
                    k.set(&r2, 7);
                    k
                },
                |mut k: Context| {
                    k.set(&r2, 9);
                    k
                },
            );
            c
        })
    });
    assert_eq!(mem[1], 7);
    assert_eq!(mem[3], 9);
}

#[test]
fn if_not_runs_on_zero() {
    let mem = run(|ctx| {
        ctx.with_stack_alloc2(|mut c: Context, cond: Ptr, out: Ptr| {
            c.set_bool(&cond, false);
            c.if_not(&cond, |mut k: Context| {
                k.set(&out, 4);
                k
            });
            c
        })
    });
    assert_eq!(mem[1], 4);
}

#[test]
fn fibonacci_setup() {
    let mem = run(|ctx| {
        ctx.with_stack_alloc4(
            |mut c: Context, current: Ptr, next: Ptr, i: Ptr, tmp: Ptr| {
                c.increment_by(&next, 1);
                c.increment_by(&i, 7);
                c.repeat_reverse_destructive(&i, |mut k: Context, _counter: Ptr| {
                    k.mov(&current, &tmp);
                    k.copy(&next, &current);
                    k.add(&next, &tmp);
                    k
                });
                c.clear(&next);
                c
            },
        )
    });
    assert_eq!(mem[0], 13);
}

#[test]
fn wrapping_addition_on_cells() {
    let mem = run(|ctx| {
        ctx.with_stack_alloc2(|mut c: Context, a: Ptr, b: Ptr| {
            c.set(&a, 200);
            c.set(&b, 100);
            c.add(&a, &b);
            c
        })
    });
    assert_eq!(mem[..2], [44, 0]);
}
