//! The lowering pass: walks the syntax tree with an explicit stack of
//! lexical scopes, binds variables to allocator cells, and emits the
//! primitives that implement each statement.

use vstd::prelude::*;
use crate::cells::{dec_spec, set_spec};
use crate::context::{Context, CtxView};
use crate::flow::{loop_closed, loop_opened};
use crate::ir::{AddAssign, Assign, Decl, Error, Expr, IR, Ident, If, Statement, While, clone_bytes};
use crate::logic::{add_spec, copy_spec, gt_spec, sub_spec};
use crate::ptr::Ptr;
use crate::slots::{allocated, first_free, released};

verus! {

/// Whether some open scope binds `name`; innermost scopes stand last.
pub open spec fn env_resolves(env: Seq<Seq<Seq<u8>>>, name: Seq<u8>) -> bool {
    exists|i: int, j: int|
        0 <= i < env.len() && 0 <= j < env[i].len() && env[i][j] == name
}

/// The environment after binding `name` in the innermost scope.
pub open spec fn env_bind(env: Seq<Seq<Seq<u8>>>, name: Seq<u8>) -> Seq<Seq<Seq<u8>>> {
    if env.len() > 0 {
        env.update(env.len() - 1, env.last().push(name))
    } else {
        env
    }
}

/// Whether every variable of the expression is bound.
pub open spec fn expr_ok(env: Seq<Seq<Seq<u8>>>, e: Expr) -> bool
    decreases e,
{
    match e {
        Expr::Const(_) => true,
        Expr::Var(id) => env_resolves(env, id@),
        Expr::Add(a, b) => expr_ok(env, *a) && expr_ok(env, *b),
        Expr::Sub(a, b) => expr_ok(env, *a) && expr_ok(env, *b),
        Expr::Gt(a, b) => expr_ok(env, *a) && expr_ok(env, *b),
    }
}

/// The environment after a statement: only a declaration adds a binding.
pub open spec fn stmt_env(env: Seq<Seq<Seq<u8>>>, s: Statement) -> Seq<Seq<Seq<u8>>> {
    match s {
        Statement::Decl(d) => env_bind(env, d.name@),
        _ => env,
    }
}

/// Whether every variable the statement uses is bound; a declaration's
/// initializer sees the declared name, and a block's body runs in a fresh
/// innermost scope.
pub open spec fn stmt_ok(env: Seq<Seq<Seq<u8>>>, s: Statement) -> bool
    decreases s, 1int,
{
    match s {
        Statement::Decl(d) => match d.value {
            Some(e) => expr_ok(env_bind(env, d.name@), e),
            None => true,
        },
        Statement::Assign(a) => expr_ok(env, a.value) && env_resolves(env, a.name@),
        Statement::AddAssign(a) => expr_ok(env, a.value) && env_resolves(env, a.name@),
        Statement::While(w) => expr_ok(env, w.cond) && stmts_ok_from(
            env.push(Seq::empty()),
            w.body,
            0,
        ),
        Statement::If(i) => expr_ok(env, i.cond) && stmts_ok_from(
            env.push(Seq::empty()),
            i.body,
            0,
        ),
    }
}

/// Whether the statements from index `k` on are all well-bound, threading
/// declarations through the environment.
pub open spec fn stmts_ok_from(env: Seq<Seq<Seq<u8>>>, v: Vec<Statement>, k: int) -> bool
    decreases v, v@.len() - k, 2int,
{
    if k < 0 || k >= v@.len() {
        true
    } else {
        stmt_ok(env, v@[k]) && stmts_ok_from(stmt_env(env, v@[k]), v, k + 1)
    }
}

/// Whether every variable of the program is declared before use.
pub open spec fn program_ok(ir: IR) -> bool {
    stmts_ok_from(Seq::<Seq<Seq<u8>>>::empty().push(Seq::empty()), ir.stmts, 0)
}


/// The spec-level state of a lowering in progress: the emission context
/// and the scope stack, each binding carrying its cell address.
#[verifier::ext_equal]
pub struct LowerState {
    pub ctx: CtxView,
    pub scopes: Seq<Seq<(Seq<u8>, int)>>,
}

/// The spec-level outcome of a lowering that failed.
#[verifier::ext_equal]
pub enum LowerErr {
    /// An identifier that no enclosing scope binds.
    Unknown { name: Seq<u8> },
    /// The cell-address margin was exhausted: a machine limit.
    OutOfCells,
    /// A lowering invariant was found broken: never reached from a source
    /// program.
    Broken,
}

/// Whether an executable error is the one the spec-level lowering names.
pub open spec fn err_matches(e: Error, k: LowerErr) -> bool {
    match (e, k) {
        (Error::UnknownVariable { name: nm }, LowerErr::Unknown { name }) => nm@ == name,
        (Error::TooManyCells, LowerErr::OutOfCells) => true,
        (Error::Internal, LowerErr::Broken) => true,
        _ => false,
    }
}

/// The address a frame binds `name` to, latest binding first.
pub open spec fn frame_lookup(frame: Seq<(Seq<u8>, int)>, name: Seq<u8>) -> Option<int>
    decreases frame.len(),
{
    if frame.len() == 0 {
        None
    } else if frame.last().0 == name {
        Some(frame.last().1)
    } else {
        frame_lookup(frame.drop_last(), name)
    }
}

/// The address the scope stack binds `name` to, innermost scope first.
pub open spec fn scopes_lookup(scopes: Seq<Seq<(Seq<u8>, int)>>, name: Seq<u8>) -> Option<int>
    decreases scopes.len(),
{
    if scopes.len() == 0 {
        None
    } else {
        match frame_lookup(scopes.last(), name) {
            Some(a) => Some(a),
            None => scopes_lookup(scopes.drop_last(), name),
        }
    }
}

/// The scope stack after binding `name` to cell `a` in the innermost
/// scope.
pub open spec fn scopes_bind(
    scopes: Seq<Seq<(Seq<u8>, int)>>,
    name: Seq<u8>,
    a: int,
) -> Seq<Seq<(Seq<u8>, int)>> {
    if scopes.len() > 0 {
        scopes.update(scopes.len() - 1, scopes.last().push((name, a)))
    } else {
        scopes
    }
}

/// The context after releasing every cell a frame binds, latest first.
pub open spec fn release_frame(c: CtxView, frame: Seq<(Seq<u8>, int)>) -> CtxView
    decreases frame.len(),
{
    if frame.len() == 0 {
        c
    } else {
        release_frame(released(c, frame.last().1), frame.drop_last())
    }
}

/// Whether enough cell-address margin remains for one lowering step.
pub open spec fn lower_room(c: CtxView) -> bool {
    c.slots.len() + 64 < isize::MAX
}

/// The spec-level lowering of an expression: the state afterwards and the
/// freshly allocated cell that holds the expression's value.
pub open spec fn lower_expr_spec(t: LowerState, e: Expr) -> Result<(LowerState, int), LowerErr>
    decreases e,
{
    match e {
        Expr::Const(v) => if !lower_room(t.ctx) {
            Err(LowerErr::OutOfCells)
        } else {
            let a = first_free(t.ctx.slots);
            Ok((LowerState { ctx: set_spec(allocated(t.ctx), a, v), scopes: t.scopes }, a))
        },
        Expr::Var(id) => match scopes_lookup(t.scopes, id@) {
            None => Err(LowerErr::Unknown { name: id@ }),
            Some(va) => if !lower_room(t.ctx) {
                Err(LowerErr::OutOfCells)
            } else {
                let a = first_free(t.ctx.slots);
                Ok((LowerState { ctx: copy_spec(allocated(t.ctx), va, a), scopes: t.scopes }, a))
            },
        },
        Expr::Add(x, y) => match lower_expr_spec(t, *x) {
            Err(k) => Err(k),
            Ok((t1, pa)) => match lower_expr_spec(t1, *y) {
                Err(k) => Err(k),
                Ok((t2, pb)) => if pa == pb {
                    Err(LowerErr::Broken)
                } else {
                    Ok(
                        (
                            LowerState {
                                ctx: released(add_spec(t2.ctx, pa, pb), pb),
                                scopes: t2.scopes,
                            },
                            pa,
                        ),
                    )
                },
            },
        },
        Expr::Sub(x, y) => match lower_expr_spec(t, *x) {
            Err(k) => Err(k),
            Ok((t1, pa)) => match lower_expr_spec(t1, *y) {
                Err(k) => Err(k),
                Ok((t2, pb)) => if pa == pb {
                    Err(LowerErr::Broken)
                } else {
                    Ok(
                        (
                            LowerState {
                                ctx: released(sub_spec(t2.ctx, pa, pb), pb),
                                scopes: t2.scopes,
                            },
                            pa,
                        ),
                    )
                },
            },
        },
        Expr::Gt(x, y) => match lower_expr_spec(t, *x) {
            Err(k) => Err(k),
            Ok((t1, pa)) => match lower_expr_spec(t1, *y) {
                Err(k) => Err(k),
                Ok((t2, pb)) => if !lower_room(t2.ctx) {
                    Err(LowerErr::OutOfCells)
                } else {
                    let rr = first_free(t2.ctx.slots);
                    Ok(
                        (
                            LowerState {
                                ctx: released(
                                    released(gt_spec(allocated(t2.ctx), pa, pb, rr), pb),
                                    pa,
                                ),
                                scopes: t2.scopes,
                            },
                            rr,
                        ),
                    )
                },
            },
        },
    }
}

/// The spec-level lowering of `while cond { body }`.
pub open spec fn lower_while_spec(
    t: LowerState,
    cond: Expr,
    body: Vec<Statement>,
) -> Result<LowerState, LowerErr>
    decreases body, body@.len() + 1,
{
    match lower_expr_spec(t, cond) {
        Err(k) => Err(k),
        Ok((t1, c1)) => {
            let t2 = LowerState {
                ctx: loop_opened(t1.ctx, c1),
                scopes: t1.scopes.push(Seq::empty()),
            };
            match lower_stmts_spec(t2, body, 0) {
                Err(k) => Err(k),
                Ok(t3) => {
                    let t4 = LowerState {
                        ctx: released(release_frame(t3.ctx, t3.scopes.last()), c1),
                        scopes: t3.scopes.drop_last(),
                    };
                    match lower_expr_spec(t4, cond) {
                        Err(k) => Err(k),
                        Ok((t5, c2)) => Ok(
                            LowerState {
                                ctx: released(loop_closed(t5.ctx, c2), c2),
                                scopes: t5.scopes,
                            },
                        ),
                    }
                },
            }
        },
    }
}

/// The spec-level lowering of `if cond { body }`.
pub open spec fn lower_if_spec(t: LowerState, i: If) -> Result<LowerState, LowerErr>
    decreases i, i.body@.len() + 1,
{
    match lower_expr_spec(t, i.cond) {
        Err(k) => Err(k),
        Ok((t1, c1)) => if !lower_room(t1.ctx) {
            Err(LowerErr::OutOfCells)
        } else {
            let a = first_free(t1.ctx.slots);
            let t2 = LowerState {
                ctx: loop_opened(copy_spec(allocated(t1.ctx), c1, a), a),
                scopes: t1.scopes.push(Seq::empty()),
            };
            match lower_stmts_spec(t2, i.body, 0) {
                Err(k) => Err(k),
                Ok(t3) => Ok(
                    LowerState {
                        ctx: released(
                            released(
                                loop_closed(
                                    dec_spec(release_frame(t3.ctx, t3.scopes.last()), a),
                                    a,
                                ),
                                a,
                            ),
                            c1,
                        ),
                        scopes: t3.scopes.drop_last(),
                    },
                ),
            }
        },
    }
}

/// The spec-level lowering of one statement.
pub open spec fn lower_stmt_spec(t: LowerState, s: Statement) -> Result<LowerState, LowerErr>
    decreases s, 1int,
{
    match s {
        Statement::Decl(d) => if !lower_room(t.ctx) {
            Err(LowerErr::OutOfCells)
        } else if t.scopes.len() == 0 {
            Err(LowerErr::Broken)
        } else {
            let a = first_free(t.ctx.slots);
            let t1 = LowerState {
                ctx: allocated(t.ctx),
                scopes: scopes_bind(t.scopes, d.name@, a),
            };
            match d.value {
                None => Ok(t1),
                Some(e) => match lower_expr_spec(t1, e) {
                    Err(k) => Err(k),
                    Ok((t2, v)) => if !lower_room(t2.ctx) {
                        Err(LowerErr::OutOfCells)
                    } else {
                        Ok(
                            LowerState {
                                ctx: released(copy_spec(t2.ctx, v, a), v),
                                scopes: t2.scopes,
                            },
                        )
                    },
                },
            }
        },
        Statement::Assign(asn) => match lower_expr_spec(t, asn.value) {
            Err(k) => Err(k),
            Ok((t1, v)) => match scopes_lookup(t1.scopes, asn.name@) {
                None => Err(LowerErr::Unknown { name: asn.name@ }),
                Some(p) => if !lower_room(t1.ctx) {
                    Err(LowerErr::OutOfCells)
                } else {
                    Ok(
                        LowerState {
                            ctx: released(copy_spec(t1.ctx, v, p), v),
                            scopes: t1.scopes,
                        },
                    )
                },
            },
        },
        Statement::AddAssign(asn) => match lower_expr_spec(t, asn.value) {
            Err(k) => Err(k),
            Ok((t1, v)) => match scopes_lookup(t1.scopes, asn.name@) {
                None => Err(LowerErr::Unknown { name: asn.name@ }),
                Some(p) => if p == v {
                    Err(LowerErr::Broken)
                } else {
                    Ok(
                        LowerState {
                            ctx: released(add_spec(t1.ctx, p, v), v),
                            scopes: t1.scopes,
                        },
                    )
                },
            },
        },
        Statement::While(w) => lower_while_spec(t, w.cond, w.body),
        Statement::If(i) => lower_if_spec(t, i),
    }
}

/// The spec-level lowering of the statements from index `k` on.
pub open spec fn lower_stmts_spec(t: LowerState, v: Vec<Statement>, k: int) -> Result<
    LowerState,
    LowerErr,
>
    decreases v, v@.len() - k, 2int,
{
    if k < 0 || k >= v@.len() {
        Ok(t)
    } else {
        match lower_stmt_spec(t, v@[k]) {
            Err(e) => Err(e),
            Ok(t1) => lower_stmts_spec(t1, v, k + 1),
        }
    }
}

/// The spec-level lowering of a whole program: the byte stream `trans`
/// returns, or the error, as a function of the syntax tree alone.
pub open spec fn lower_program(ir: IR) -> Result<Seq<u8>, LowerErr> {
    let t1 = LowerState {
        ctx: CtxView {
            code: Seq::<u8>::empty(),
            addr: 0,
            slots: Seq::<bool>::empty(),
            known: Seq::<Option<u8>>::empty(),
        },
        scopes: Seq::<Seq<(Seq<u8>, int)>>::empty().push(Seq::empty()),
    };
    match lower_stmts_spec(t1, ir.stmts, 0) {
        Err(k) => Err(k),
        Ok(t2) => Ok(release_frame(t2.ctx, t2.scopes.last()).code),
    }
}

/// A variable bound in some scope: its name and its cell.
struct Var {
    name: Ident,
    ptr: Ptr,
}

/// One lexical scope: its bindings in declaration order.
struct Scope {
    variables: Vec<Var>,
}

/// The names a scope binds, in declaration order.
spec fn scope_names(sc: Scope) -> Seq<Seq<u8>> {
    sc.variables@.map_values(|v: Var| v.name@)
}

/// A scope's bindings with their cell addresses, in declaration order.
spec fn frame_view(sc: Scope) -> Seq<(Seq<u8>, int)> {
    sc.variables@.map_values(|v: Var| (v.name@, v.ptr@))
}

impl Scope {
    fn new() -> (r: Scope)
        ensures
            scope_names(r) == Seq::<Seq<u8>>::empty(),
            frame_view(r) == Seq::<(Seq<u8>, int)>::empty(),
    {
        let r = Scope { variables: Vec::new() };
        proof {
            assert(scope_names(r) =~= Seq::<Seq<u8>>::empty());
            assert(frame_view(r) =~= Seq::<(Seq<u8>, int)>::empty());
        }
        r
    }

    fn decl_var(&mut self, name: Ident, ptr: &Ptr)
        ensures
            scope_names(*final(self)) == scope_names(*old(self)).push(name@),
            frame_view(*final(self)) == frame_view(*old(self)).push((name@, ptr@)),
    {
        let ghost name_view = name@;
        self.variables.push(Var { name, ptr: *ptr });
        proof {
            assert(scope_names(*self) =~= scope_names(*old(self)).push(name_view));
            assert(frame_view(*self) =~= frame_view(*old(self)).push((name_view, ptr@)));
        }
    }

    fn find_var(&self, name: &Ident) -> (r: Option<Ptr>)
        ensures
            r is Some <==> (exists|j: int|
                0 <= j < scope_names(*self).len() && scope_names(*self)[j] == name@),
            match r {
                Some(p) => frame_lookup(frame_view(*self), name@) == Some(p@),
                None => frame_lookup(frame_view(*self), name@) is None,
            },
    {
        let n = self.variables.len();
        proof {
            assert(frame_view(*self).subrange(0, n as int) =~= frame_view(*self));
        }
        let mut i = n;
        while i > 0
            invariant
                i <= n,
                n == self.variables@.len(),
                forall|j: int| i <= j < n ==> scope_names(*self)[j] != name@,
                frame_lookup(frame_view(*self), name@) == frame_lookup(
                    frame_view(*self).subrange(0, i as int),
                    name@,
                ),
            decreases i,
        {
            i = i - 1;
            proof {
                assert(frame_view(*self).subrange(0, i + 1).drop_last() =~= frame_view(
                    *self,
                ).subrange(0, i as int));
                assert(frame_view(*self).subrange(0, i + 1).last() == frame_view(*self)[i as int]);
            }
            if self.variables[i].name.same_name(name) {
                proof {
                    assert(scope_names(*self)[i as int] == name@);
                    assert(frame_lookup(frame_view(*self).subrange(0, i + 1), name@) == Some(
                        frame_view(*self)[i as int].1,
                    ));
                }
                return Some(self.variables[i].ptr);
            }
        }
        proof {
            assert(frame_view(*self).subrange(0, 0) =~= Seq::<(Seq<u8>, int)>::empty());
        }
        None
    }
}

/// The lowering pass: an emission context plus the scope stack.
pub struct Trans {
    context: Context,
    scopes: Vec<Scope>,
}

/// The scope-stack names of a lowering in progress, innermost last.
spec fn trans_env(t: Trans) -> Seq<Seq<Seq<u8>>> {
    t.scopes@.map_values(|sc: Scope| scope_names(sc))
}

/// The spec-level state of a lowering in progress.
spec fn lstate(t: Trans) -> LowerState {
    LowerState {
        ctx: t.context@,
        scopes: t.scopes@.map_values(|sc: Scope| frame_view(sc)),
    }
}

/// Slot margin kept free so that every primitive's allocation needs are
/// met: a machine limit, far beyond any real tape.
spec fn has_room(t: Trans) -> bool {
    t.context@.slots.len() + 64 < isize::MAX
}

impl Trans {
    fn new() -> (r: Trans)
        ensures
            trans_env(r) == Seq::<Seq<Seq<u8>>>::empty(),
            r.context@.slots.len() == 0,
            lstate(r) == (LowerState {
                ctx: CtxView {
                    code: Seq::<u8>::empty(),
                    addr: 0,
                    slots: Seq::<bool>::empty(),
                    known: Seq::<Option<u8>>::empty(),
                },
                scopes: Seq::<Seq<(Seq<u8>, int)>>::empty(),
            }),
    {
        let r = Trans { context: Context::new(), scopes: Vec::new() };
        proof {
            assert(trans_env(r) =~= Seq::<Seq<Seq<u8>>>::empty());
            assert(lstate(r) =~= (LowerState {
                ctx: CtxView {
                    code: Seq::<u8>::empty(),
                    addr: 0,
                    slots: Seq::<bool>::empty(),
                    known: Seq::<Option<u8>>::empty(),
                },
                scopes: Seq::<Seq<(Seq<u8>, int)>>::empty(),
            }));
        }
        r
    }

    /// Whether enough slot margin remains for one lowering step.
    fn room(&self) -> (r: bool)
        ensures
            r <==> has_room(*self),
    {
        self.context.slots_len() < (isize::MAX as usize) - 64
    }

    fn push_scope(&mut self)
        ensures
            trans_env(*final(self)) == trans_env(*old(self)).push(Seq::<Seq<u8>>::empty()),
            lstate(*final(self)) == (LowerState {
                ctx: lstate(*old(self)).ctx,
                scopes: lstate(*old(self)).scopes.push(Seq::empty()),
            }),
    {
        self.scopes.push(Scope::new());
        proof {
            assert(trans_env(*self) =~= trans_env(*old(self)).push(Seq::<Seq<u8>>::empty()));
            assert(frame_view(self.scopes@.last()) =~= Seq::<(Seq<u8>, int)>::empty());
            assert(lstate(*self) =~= (LowerState {
                ctx: lstate(*old(self)).ctx,
                scopes: lstate(*old(self)).scopes.push(Seq::empty()),
            }));
        }
    }

    /// Pops the innermost scope, releasing its cells in reverse order of
    /// declaration: the freed addresses are exactly those the popped frame
    /// bound.
    fn pop_scope(&mut self)
        ensures
            trans_env(*final(self)) == if trans_env(*old(self)).len() > 0 {
                trans_env(*old(self)).drop_last()
            } else {
                trans_env(*old(self))
            },
            lstate(*final(self)) == if lstate(*old(self)).scopes.len() > 0 {
                LowerState {
                    ctx: release_frame(lstate(*old(self)).ctx, lstate(*old(self)).scopes.last()),
                    scopes: lstate(*old(self)).scopes.drop_last(),
                }
            } else {
                lstate(*old(self))
            },
    {
        let ghost scopes0 = self.scopes@;
        let ghost ctx0 = self.context@;
        match self.scopes.pop() {
            Some(scope) => {
                let ghost fv = frame_view(scope);
                proof {
                    assert(fv == lstate(*old(self)).scopes.last());
                    assert(fv.subrange(0, fv.len() as int) =~= fv);
                }
                let n = scope.variables.len();
                let mut i = n;
                while i > 0
                    invariant
                        i <= n,
                        n == scope.variables@.len(),
                        n == fv.len(),
                        fv == frame_view(scope),
                        self.scopes@ == scopes0.drop_last(),
                        release_frame(ctx0, fv) == release_frame(
                            self.context@,
                            fv.subrange(0, i as int),
                        ),
                    decreases i,
                {
                    i = i - 1;
                    proof {
                        assert(fv.subrange(0, i + 1).drop_last() =~= fv.subrange(0, i as int));
                        assert(fv.subrange(0, i + 1).last() == fv[i as int]);
                        assert(fv[i as int].1 == scope.variables@[i as int].ptr@);
                    }
                    self.context.release(&scope.variables[i].ptr);
                }
                proof {
                    assert(fv.subrange(0, 0) =~= Seq::<(Seq<u8>, int)>::empty());
                    assert(self.context@ == release_frame(ctx0, fv));
                    assert(trans_env(*self) =~= trans_env(*old(self)).drop_last());
                    assert(lstate(*self).scopes =~= lstate(*old(self)).scopes.drop_last());
                    assert(lstate(*self) =~= (LowerState {
                        ctx: release_frame(lstate(*old(self)).ctx, lstate(*old(self)).scopes.last()),
                        scopes: lstate(*old(self)).scopes.drop_last(),
                    }));
                }
            },
            None => {
                proof {
                    assert(trans_env(*self) =~= trans_env(*old(self)));
                    assert(lstate(*self) =~= lstate(*old(self)));
                }
            },
        }
    }

    fn decl_var(&mut self, name: Ident, ptr: &Ptr) -> (r: Result<(), Error>)
        ensures
            r is Ok ==> trans_env(*final(self)) == env_bind(trans_env(*old(self)), name@)
                && final(self).context == old(self).context && lstate(*final(self)) == (
            LowerState {
                ctx: lstate(*old(self)).ctx,
                scopes: scopes_bind(lstate(*old(self)).scopes, name@, ptr@),
            }),
            r is Ok <==> lstate(*old(self)).scopes.len() > 0,
            r is Err ==> r == Err::<(), Error>(Error::Internal) && trans_env(*final(self))
                == trans_env(*old(self)) && final(self).context == old(self).context
                && lstate(*final(self)) == lstate(*old(self)),
    {
        let ghost name_view = name@;
        match self.scopes.pop() {
            Some(scope) => {
                let mut scope = scope;
                scope.decl_var(name, ptr);
                self.scopes.push(scope);
                proof {
                    assert(trans_env(*self) =~= env_bind(trans_env(*old(self)), name_view));
                    assert(lstate(*self).scopes =~= scopes_bind(
                        lstate(*old(self)).scopes,
                        name_view,
                        ptr@,
                    ));
                    assert(lstate(*self) =~= (LowerState {
                        ctx: lstate(*old(self)).ctx,
                        scopes: scopes_bind(lstate(*old(self)).scopes, name_view, ptr@),
                    }));
                }
                Ok(())
            },
            None => {
                proof {
                    assert(trans_env(*self) =~= trans_env(*old(self)));
                    assert(lstate(*self) =~= lstate(*old(self)));
                }
                Err(Error::Internal)
            },
        }
    }

    /// Resolves a name to its cell, searching the innermost scope first
    /// and the latest binding first within a scope.
    fn resolve_var(&self, name: &Ident) -> (r: Result<Ptr, Error>)
        ensures
            r is Ok <==> env_resolves(trans_env(*self), name@),
            r is Err ==> (r matches Err(Error::UnknownVariable { name: nm }) && nm@ == name@),
            match r {
                Ok(p) => scopes_lookup(lstate(*self).scopes, name@) == Some(p@),
                Err(_) => scopes_lookup(lstate(*self).scopes, name@) is None,
            },
    {
        let ghost svs = lstate(*self).scopes;
        let n = self.scopes.len();
        proof {
            assert(svs.subrange(0, n as int) =~= svs);
        }
        let mut i = n;
        while i > 0
            invariant
                i <= n,
                n == self.scopes@.len(),
                n == svs.len(),
                svs == lstate(*self).scopes,
                forall|a: int, j: int|
                    i <= a < n && 0 <= j < trans_env(*self)[a].len() ==> trans_env(*self)[a][j]
                        != name@,
                scopes_lookup(svs, name@) == scopes_lookup(svs.subrange(0, i as int), name@),
            decreases i,
        {
            i = i - 1;
            proof {
                assert(svs.subrange(0, i + 1).drop_last() =~= svs.subrange(0, i as int));
                assert(svs.subrange(0, i + 1).last() == svs[i as int]);
                assert(svs[i as int] == frame_view(self.scopes@[i as int]));
            }
            match self.scopes[i].find_var(name) {
                Some(ptr) => {
                    proof {
                        let j = choose|j: int|
                            0 <= j < scope_names(self.scopes@[i as int]).len() && scope_names(
                                self.scopes@[i as int],
                            )[j] == name@;
                        assert(trans_env(*self)[i as int][j] == name@);
                        assert(scopes_lookup(svs.subrange(0, i + 1), name@) == Some(ptr@));
                    }
                    return Ok(ptr);
                },
                None => {},
            }
        }
        proof {
            assert(!env_resolves(trans_env(*self), name@));
            assert(svs.subrange(0, 0) =~= Seq::<Seq<(Seq<u8>, int)>>::empty());
        }
        Err(Error::UnknownVariable { name: clone_bytes(name.as_bytes()) })
    }
}


/// The statement-threading of environments: the environment after the
/// first `k` statements.
pub open spec fn stmts_env_upto(env: Seq<Seq<Seq<u8>>>, v: Vec<Statement>, k: int) -> Seq<
    Seq<Seq<u8>>,
>
    decreases k,
{
    if k <= 0 {
        env
    } else {
        stmt_env(stmts_env_upto(env, v, k - 1), v@[k - 1])
    }
}

/// The errors the lowering pass itself can produce.
pub open spec fn lowering_error(e: Error) -> bool {
    ||| e is UnknownVariable
    ||| e is TooManyCells
    ||| e is Internal
}

impl Trans {
    /// Lowers an expression into a freshly allocated cell and returns its
    /// handle; the scope stack is left as it was.
    #[verifier::spinoff_prover]
    fn trans_expr(&mut self, expr: &Expr) -> (r: Result<Ptr, Error>)
        ensures
            trans_env(*final(self)) == trans_env(*old(self)),
            r is Ok ==> expr_ok(trans_env(*old(self)), *expr),
            r matches Err(e) ==> lowering_error(e) && (e is UnknownVariable ==> !expr_ok(
                trans_env(*old(self)),
                *expr,
            )),
            match lower_expr_spec(lstate(*old(self)), *expr) {
                Ok(p) => r matches Ok(q) && lstate(*final(self)) == p.0 && q@ == p.1,
                Err(k) => r matches Err(e) && err_matches(e, k),
            },
        decreases *expr, 0int,
    {
        match expr {
            Expr::Const(v) => {
                if !self.room() {
                    return Err(Error::TooManyCells);
                }
                let ptr = self.context.stack_alloc();
                self.context.set(&ptr, *v);
                proof {
                    assert(lstate(*self) =~= (LowerState {
                        ctx: set_spec(
                            allocated(lstate(*old(self)).ctx),
                            first_free(lstate(*old(self)).ctx.slots),
                            *v,
                        ),
                        scopes: lstate(*old(self)).scopes,
                    }));
                }
                Ok(ptr)
            },
            Expr::Var(name) => {
                let var = self.resolve_var(name)?;
                if !self.room() {
                    return Err(Error::TooManyCells);
                }
                let ret = self.context.stack_alloc();
                self.context.copy(&var, &ret);
                proof {
                    assert(lstate(*self) =~= (LowerState {
                        ctx: copy_spec(
                            allocated(lstate(*old(self)).ctx),
                            var@,
                            first_free(lstate(*old(self)).ctx.slots),
                        ),
                        scopes: lstate(*old(self)).scopes,
                    }));
                }
                Ok(ret)
            },
            Expr::Add(a, b) => {
                let pa = self.trans_expr(a)?;
                let ghost t1 = lstate(*self);
                let pb = self.trans_expr(b)?;
                let ghost t2 = lstate(*self);
                if pa.as_isize() == pb.as_isize() {
                    return Err(Error::Internal);
                }
                self.context.add(&pa, &pb);
                self.context.release(&pb);
                proof {
                    assert(lstate(*self) =~= (LowerState {
                        ctx: released(add_spec(t2.ctx, pa@, pb@), pb@),
                        scopes: t2.scopes,
                    }));
                }
                Ok(pa)
            },
            Expr::Sub(a, b) => {
                let pa = self.trans_expr(a)?;
                let ghost t1 = lstate(*self);
                let pb = self.trans_expr(b)?;
                let ghost t2 = lstate(*self);
                if pa.as_isize() == pb.as_isize() {
                    return Err(Error::Internal);
                }
                self.context.sub(&pa, &pb);
                self.context.release(&pb);
                proof {
                    assert(lstate(*self) =~= (LowerState {
                        ctx: released(sub_spec(t2.ctx, pa@, pb@), pb@),
                        scopes: t2.scopes,
                    }));
                }
                Ok(pa)
            },
            Expr::Gt(a, b) => {
                let pa = self.trans_expr(a)?;
                let ghost t1 = lstate(*self);
                let pb = self.trans_expr(b)?;
                let ghost t2 = lstate(*self);
                if !self.room() {
                    return Err(Error::TooManyCells);
                }
                let res = self.context.stack_alloc();
                self.context.greater_than(&pa, &pb, &res);
                self.context.release(&pb);
                self.context.release(&pa);
                proof {
                    assert(lstate(*self) =~= (LowerState {
                        ctx: released(
                            released(
                                gt_spec(allocated(t2.ctx), pa@, pb@, first_free(t2.ctx.slots)),
                                pb@,
                            ),
                            pa@,
                        ),
                        scopes: t2.scopes,
                    }));
                }
                Ok(res)
            },
        }
    }

    /// Lowers one statement.
    #[verifier::spinoff_prover]
    fn trans_stmt(&mut self, stmt: &Statement) -> (r: Result<(), Error>)
        requires
            trans_env(*old(self)).len() > 0,
        ensures
            trans_env(*final(self)).len() == trans_env(*old(self)).len(),
            trans_env(*final(self)).drop_last() == trans_env(*old(self)).drop_last(),
            r is Ok ==> stmt_ok(trans_env(*old(self)), *stmt) && trans_env(*final(self))
                == stmt_env(trans_env(*old(self)), *stmt),
            r matches Err(e) ==> lowering_error(e) && (e is UnknownVariable ==> !stmt_ok(
                trans_env(*old(self)),
                *stmt,
            )),
            match lower_stmt_spec(lstate(*old(self)), *stmt) {
                Ok(t2) => r is Ok && lstate(*final(self)) == t2,
                Err(k) => r matches Err(e) && err_matches(e, k),
            },
        decreases *stmt, 1int,
    {
        match stmt {
            Statement::Decl(d) => {
                if !self.room() {
                    return Err(Error::TooManyCells);
                }
                let ptr = self.context.stack_alloc();
                self.decl_var(d.name.duplicate(), &ptr)?;
                let ghost t1 = lstate(*self);
                proof {
                    assert(t1 =~= (LowerState {
                        ctx: allocated(lstate(*old(self)).ctx),
                        scopes: scopes_bind(
                            lstate(*old(self)).scopes,
                            d.name@,
                            first_free(lstate(*old(self)).ctx.slots),
                        ),
                    }));
                }
                match &d.value {
                    Some(value) => {
                        let v = self.trans_expr(value)?;
                        let ghost t2 = lstate(*self);
                        if !self.room() {
                            return Err(Error::TooManyCells);
                        }
                        self.context.copy(&v, &ptr);
                        self.context.release(&v);
                        proof {
                            assert(lstate(*self) =~= (LowerState {
                                ctx: released(copy_spec(t2.ctx, v@, ptr@), v@),
                                scopes: t2.scopes,
                            }));
                        }
                        Ok(())
                    },
                    None => Ok(()),
                }
            },
            Statement::Assign(a) => {
                let v = self.trans_expr(&a.value)?;
                let ghost t1 = lstate(*self);
                let ptr = self.resolve_var(&a.name)?;
                if !self.room() {
                    return Err(Error::TooManyCells);
                }
                self.context.copy(&v, &ptr);
                self.context.release(&v);
                proof {
                    assert(lstate(*self) =~= (LowerState {
                        ctx: released(copy_spec(t1.ctx, v@, ptr@), v@),
                        scopes: t1.scopes,
                    }));
                }
                Ok(())
            },
            Statement::AddAssign(a) => {
                let v = self.trans_expr(&a.value)?;
                let ghost t1 = lstate(*self);
                let ptr = self.resolve_var(&a.name)?;
                if ptr.as_isize() == v.as_isize() {
                    return Err(Error::Internal);
                }
                self.context.add(&ptr, &v);
                self.context.release(&v);
                proof {
                    assert(lstate(*self) =~= (LowerState {
                        ctx: released(add_spec(t1.ctx, ptr@, v@), v@),
                        scopes: t1.scopes,
                    }));
                }
                Ok(())
            },
            Statement::While(w) => self.trans_stmt_while(&w.cond, &w.body),
            Statement::If(i) => self.trans_stmt_if(i),
        }
    }

    /// Lowers `while cond { body }`: the condition lands in a temporary,
    /// the loop opens over it, the body runs in a fresh scope, and the
    /// condition is re-evaluated into a temporary before the loop closes.
    #[verifier::spinoff_prover]
    fn trans_stmt_while(&mut self, cond: &Expr, body: &Vec<Statement>) -> (r: Result<(), Error>)
        requires
            trans_env(*old(self)).len() > 0,
        ensures
            trans_env(*final(self)) == trans_env(*old(self)),
            r is Ok ==> expr_ok(trans_env(*old(self)), *cond) && stmts_ok_from(
                trans_env(*old(self)).push(Seq::empty()),
                *body,
                0,
            ),
            r matches Err(e) ==> lowering_error(e) && (e is UnknownVariable ==> !(expr_ok(
                trans_env(*old(self)),
                *cond,
            ) && stmts_ok_from(trans_env(*old(self)).push(Seq::empty()), *body, 0))),
            match lower_while_spec(lstate(*old(self)), *cond, *body) {
                Ok(t2) => r is Ok && lstate(*final(self)) == t2,
                Err(k) => r matches Err(e) && err_matches(e, k),
            },
        decreases *body, 2int,
    {
        let tmp = self.trans_expr(cond)?;
        let ghost t1 = lstate(*self);
        self.context.seek(&tmp);
        self.context.emit_one(crate::context::OP_OPEN);
        self.context.forget_known_values();
        self.push_scope();
        proof {
            assert(lstate(*self) =~= (LowerState {
                ctx: loop_opened(t1.ctx, tmp@),
                scopes: t1.scopes.push(Seq::empty()),
            }));
        }
        let r = self.trans_stmts(body);
        let ghost t3 = lstate(*self);
        self.pop_scope();
        proof {
            assert(trans_env(*self) =~= trans_env(*old(self)));
        }
        match r {
            Ok(()) => {},
            Err(e) => {
                return Err(e);
            },
        }
        self.context.release(&tmp);
        let ghost t4 = lstate(*self);
        proof {
            assert(t4 =~= (LowerState {
                ctx: released(release_frame(t3.ctx, t3.scopes.last()), tmp@),
                scopes: t3.scopes.drop_last(),
            }));
        }
        let tmp2 = self.trans_expr(cond)?;
        let ghost t5 = lstate(*self);
        self.context.seek(&tmp2);
        self.context.emit_one(crate::context::OP_CLOSE);
        self.context.release(&tmp2);
        proof {
            assert(lstate(*self) =~= (LowerState {
                ctx: released(loop_closed(t5.ctx, tmp2@), tmp2@),
                scopes: t5.scopes,
            }));
        }
        Ok(())
    }

    /// Lowers `if cond { body }`: a one-shot loop over a copy of the
    /// condition; the trailing decrement makes the loop exit after one
    /// pass for a boolean-valued condition.
    #[verifier::spinoff_prover]
    fn trans_stmt_if(&mut self, if_stmt: &If) -> (r: Result<(), Error>)
        requires
            trans_env(*old(self)).len() > 0,
        ensures
            trans_env(*final(self)) == trans_env(*old(self)),
            r is Ok ==> stmt_ok(trans_env(*old(self)), Statement::If(*if_stmt)),
            r matches Err(e) ==> lowering_error(e) && (e is UnknownVariable ==> !stmt_ok(
                trans_env(*old(self)),
                Statement::If(*if_stmt),
            )),
            match lower_if_spec(lstate(*old(self)), *if_stmt) {
                Ok(t2) => r is Ok && lstate(*final(self)) == t2,
                Err(k) => r matches Err(e) && err_matches(e, k),
            },
        decreases *if_stmt, 2int,
    {
        let cond = self.trans_expr(&if_stmt.cond)?;
        let ghost t1 = lstate(*self);
        if !self.room() {
            return Err(Error::TooManyCells);
        }
        let tmp = self.context.stack_alloc();
        self.context.copy(&cond, &tmp);
        self.context.seek(&tmp);
        self.context.emit_one(crate::context::OP_OPEN);
        self.context.forget_known_values();
        self.push_scope();
        proof {
            assert(lstate(*self) =~= (LowerState {
                ctx: loop_opened(copy_spec(allocated(t1.ctx), cond@, tmp@), tmp@),
                scopes: t1.scopes.push(Seq::empty()),
            }));
        }
        let r = self.trans_stmts(&if_stmt.body);
        let ghost t3 = lstate(*self);
        self.pop_scope();
        proof {
            assert(trans_env(*self) =~= trans_env(*old(self)));
        }
        match r {
            Ok(()) => {},
            Err(e) => {
                return Err(e);
            },
        }
        self.context.decrement(&tmp);
        self.context.seek(&tmp);
        self.context.emit_one(crate::context::OP_CLOSE);
        self.context.release(&tmp);
        self.context.release(&cond);
        proof {
            assert(lstate(*self) =~= (LowerState {
                ctx: released(
                    released(
                        loop_closed(
                            dec_spec(release_frame(t3.ctx, t3.scopes.last()), tmp@),
                            tmp@,
                        ),
                        tmp@,
                    ),
                    cond@,
                ),
                scopes: t3.scopes.drop_last(),
            }));
        }
        Ok(())
    }

    /// Lowers a statement list, threading declarations through the scope.
    #[verifier::spinoff_prover]
    fn trans_stmts(&mut self, body: &Vec<Statement>) -> (r: Result<(), Error>)
        requires
            trans_env(*old(self)).len() > 0,
        ensures
            trans_env(*final(self)).len() == trans_env(*old(self)).len(),
            trans_env(*final(self)).drop_last() == trans_env(*old(self)).drop_last(),
            r is Ok ==> stmts_ok_from(trans_env(*old(self)), *body, 0),
            r matches Err(e) ==> lowering_error(e) && (e is UnknownVariable ==> !stmts_ok_from(
                trans_env(*old(self)),
                *body,
                0,
            )),
            match lower_stmts_spec(lstate(*old(self)), *body, 0) {
                Ok(t2) => r is Ok && lstate(*final(self)) == t2,
                Err(k) => r matches Err(e) && err_matches(e, k),
            },
        decreases *body, 1int,
    {
        proof {
            assert(trans_env(*self) == trans_env(*old(self)));
        }
        let ghost env0 = trans_env(*old(self));
        let ghost ls0 = lstate(*old(self));
        let n = body.len();
        let mut i: usize = 0;
        while i < n
            invariant
                i <= n,
                n == body@.len(),
                env0 == trans_env(*old(self)),
                ls0 == lstate(*old(self)),
                trans_env(*self).len() == env0.len() > 0,
                trans_env(*self).drop_last() == env0.drop_last(),
                trans_env(*self) == stmts_env_upto(env0, *body, i as int),
                stmts_ok_from(trans_env(*self), *body, i as int) ==> stmts_ok_from(
                    env0,
                    *body,
                    0,
                ),
                stmts_ok_from(env0, *body, 0) ==> stmts_ok_from(trans_env(*self), *body, i as int),
                lower_stmts_spec(ls0, *body, 0) == lower_stmts_spec(
                    lstate(*self),
                    *body,
                    i as int,
                ),
            decreases n - i,
        {
            let ghost env_cur = trans_env(*self);
            let ghost ls_cur = lstate(*self);
            let r = self.trans_stmt(&body[i]);
            match r {
                Ok(()) => {},
                Err(e) => {
                    proof {
                        assert(trans_env(*self).len() == env0.len());
                        assert(trans_env(*self).drop_last() == env_cur.drop_last());
                        assert(trans_env(*self).drop_last() == env0.drop_last());
                        assert(lower_stmts_spec(ls_cur, *body, i as int) is Err);
                        if e is UnknownVariable {
                            assert(!stmt_ok(env_cur, body@[i as int]));
                            assert(!stmts_ok_from(env_cur, *body, i as int));
                        }
                    }
                    return Err(e);
                },
            }
            i = i + 1;
        }
        proof {
            assert(lower_stmts_spec(lstate(*self), *body, n as int) == Ok::<
                LowerState,
                LowerErr,
            >(lstate(*self)));
        }
        Ok(())
    }

    /// Lowers a whole program in one outermost scope.
    #[verifier::spinoff_prover]
    fn run(&mut self, ir: &IR) -> (r: Result<(), Error>)
        requires
            trans_env(*old(self)).len() == 0,
        ensures
            r is Ok ==> program_ok(*ir),
            r matches Err(e) ==> lowering_error(e) && (e is UnknownVariable ==> !program_ok(*ir)),
            match lower_stmts_spec(
                LowerState {
                    ctx: lstate(*old(self)).ctx,
                    scopes: lstate(*old(self)).scopes.push(Seq::empty()),
                },
                ir.stmts,
                0,
            ) {
                Ok(t2) => r is Ok && lstate(*final(self)) == (LowerState {
                    ctx: release_frame(t2.ctx, t2.scopes.last()),
                    scopes: t2.scopes.drop_last(),
                }),
                Err(k) => r matches Err(e) && err_matches(e, k),
            },
    {
        self.push_scope();
        proof {
            assert(trans_env(*self) =~= Seq::<Seq<Seq<u8>>>::empty().push(Seq::empty()));
        }
        let r = self.trans_stmts(&ir.stmts);
        self.pop_scope();
        r
    }
}

/// Compiles a parsed program to a tape-machine instruction stream.
/// Succeeds exactly when every variable is declared before use, short of
/// two machine limits: cell-address exhaustion, and the internal-invariant
/// guard, which no source program reaches.
pub fn trans(ir: &IR) -> (r: Result<Vec<u8>, Error>)
    ensures
        r is Ok ==> program_ok(*ir),
        r matches Err(e) ==> lowering_error(e) && (e is UnknownVariable ==> !program_ok(*ir)),
        match lower_program(*ir) {
            Ok(code) => r matches Ok(bytes) && bytes@ == code,
            Err(k) => r matches Err(e) && err_matches(e, k),
        },
{
    let mut t = Trans::new();
    let ghost t0 = lstate(t);
    proof {
        assert((LowerState { ctx: t0.ctx, scopes: t0.scopes.push(Seq::empty()) }) =~= (
        LowerState {
            ctx: CtxView {
                code: Seq::<u8>::empty(),
                addr: 0,
                slots: Seq::<bool>::empty(),
                known: Seq::<Option<u8>>::empty(),
            },
            scopes: Seq::<Seq<(Seq<u8>, int)>>::empty().push(Seq::empty()),
        }));
    }
    match t.run(ir) {
        Ok(()) => Ok(clone_bytes(t.context.code())),
        Err(e) => Err(e),
    }
}

} // verus!
