//! Control-flow primitives: loops and conditionals over the emitted stream.
//!
//! Each looping form seeks to its cell, emits `[`, drops all known values
//! (the body may run zero or many times, so nothing established before it
//! survives), lets the caller's body emit, then seeks back and emits `]`.

use vstd::prelude::*;
use crate::context::{Context, CtxView, OP_CLOSE, OP_OPEN, emitted, forgot_all, seeked};
use crate::cells::dec_spec;
use crate::logic::{copy_spec, lemma_copy_spec_slots, lemma_not_spec_slots, not_spec};
use crate::slots::{allocated, first_free, released};
use crate::ptr::Ptr;

verus! {

/// The state handed to the body of `iff` or `repeat_reverse` on `cond`: a
/// fresh scratch cell holds a copy of the condition and the loop over the
/// scratch has been opened.
pub open spec fn scratch_loop_pre(c: CtxView, cond: int) -> CtxView {
    let a = first_free(c.slots);
    loop_opened(copy_spec(allocated(c), cond, a), a)
}

/// The state after `iff` or `repeat_reverse` returns, given that the body
/// left the emission in `mid`: decrement and close the loop over the
/// scratch cell, then release it.
pub open spec fn scratch_loop_post(c: CtxView, mid: CtxView) -> CtxView {
    let a = first_free(c.slots);
    released(loop_closed(dec_spec(mid, a), a), a)
}

/// The state handed to the body of `if_not` on `cond`: a fresh scratch
/// cell holds the negated condition and the loop over it has been opened.
pub open spec fn if_not_pre(c: CtxView, cond: int) -> CtxView {
    let a = first_free(c.slots);
    loop_opened(not_spec(copy_spec(allocated(c), cond, a), a), a)
}

/// The context just after a loop head: seek, `[`, and every known value
/// dropped.
pub open spec fn loop_opened(c: CtxView, p: int) -> CtxView {
    forgot_all(emitted(seeked(c, p), seq![OP_OPEN]))
}

/// The context after a loop tail: seek back to the loop cell and `]`.
pub open spec fn loop_closed(c: CtxView, p: int) -> CtxView {
    emitted(seeked(c, p), seq![OP_CLOSE])
}

impl Context {
    /// Emits a loop over `ptr` whose body is emitted by `f`: the body runs
    /// as long as the cell at `ptr` is non-zero.
    pub fn while_not_zero<F: FnOnce(Context) -> Context>(&mut self, ptr: &Ptr, f: F)
        requires
            forall|c: Context| c@ == loop_opened(old(self)@, ptr@) ==> call_requires(f, (c,)),
        ensures
            exists|c: Context, mid: Context|
                {
                    &&& c@ == loop_opened(old(self)@, ptr@)
                    &&& #[trigger] call_ensures(f, (c,), mid)
                    &&& final(self)@ == loop_closed(mid@, ptr@)
                    &&& final(self)@.slots == mid@.slots
                    &&& c@.slots == old(self)@.slots
                },
    {
        self.seek(ptr);
        self.emit_one(OP_OPEN);
        self.forget_known_values();
        let c = self.take_ctx();
        let ghost c_in = c;
        let mut mid = f(c);
        let ghost mid_out = mid;
        mid.seek(ptr);
        mid.emit_one(OP_CLOSE);
        self.put_ctx(mid);
        proof {
            assert(c_in@ == loop_opened(old(self)@, ptr@) && call_ensures(f, (c_in,), mid_out)
                && self@ == loop_closed(mid_out@, ptr@));
        }
    }

    /// A loop whose condition cell is maintained by its own body: the same
    /// emission as [`Context::while_not_zero`].
    pub fn while_true<F: FnOnce(Context) -> Context>(&mut self, cond: &Ptr, f: F)
        requires
            forall|c: Context| c@ == loop_opened(old(self)@, cond@) ==> call_requires(f, (c,)),
        ensures
            exists|c: Context, mid: Context|
                {
                    &&& c@ == loop_opened(old(self)@, cond@)
                    &&& #[trigger] call_ensures(f, (c,), mid)
                    &&& final(self)@ == loop_closed(mid@, cond@)
                    &&& final(self)@.slots == mid@.slots
                    &&& c@.slots == old(self)@.slots
                },
    {
        self.while_not_zero(cond, f);
    }

    /// Runs the code emitted by `f` once per unit of the counter cell, then
    /// decrements it: the only way to iterate a fixed number of times on the
    /// tape machine. Leaves the counter at zero.
    pub fn repeat_reverse_destructive<F: FnOnce(Context, Ptr) -> Context>(
        &mut self,
        counter: &Ptr,
        f: F,
    )
        requires
            forall|c: Context|
                c@ == loop_opened(old(self)@, counter@) ==> call_requires(f, (c, *counter)),
        ensures
            exists|c: Context, mid: Context|
                {
                    &&& c@ == loop_opened(old(self)@, counter@)
                    &&& #[trigger] call_ensures(f, (c, *counter), mid)
                    &&& final(self)@ == loop_closed(dec_spec(mid@, counter@), counter@)
                    &&& final(self)@.slots == mid@.slots
                    &&& c@.slots == old(self)@.slots
                },
    {
        self.seek(counter);
        self.emit_one(OP_OPEN);
        self.forget_known_values();
        let c = self.take_ctx();
        let ghost c_in = c;
        let mut mid = f(c, *counter);
        let ghost mid_out = mid;
        mid.decrement(counter);
        mid.seek(counter);
        mid.emit_one(OP_CLOSE);
        self.put_ctx(mid);
        proof {
            assert(c_in@ == loop_opened(old(self)@, counter@) && call_ensures(
                f,
                (c_in, *counter),
                mid_out,
            ) && self@ == loop_closed(dec_spec(mid_out@, counter@), counter@));
        }
    }

    /// Runs the body emitted by `f` once if the condition cell is non-zero,
    /// consuming the condition: a one-shot loop that decrements the cell
    /// after the body. Correct for boolean-valued condition cells.
    pub fn iff_destructive<F: FnOnce(Context) -> Context>(&mut self, cond: &Ptr, f: F)
        requires
            forall|c: Context| c@ == loop_opened(old(self)@, cond@) ==> call_requires(f, (c,)),
        ensures
            exists|c: Context, mid: Context|
                {
                    &&& c@ == loop_opened(old(self)@, cond@)
                    &&& #[trigger] call_ensures(f, (c,), mid)
                    &&& final(self)@ == loop_closed(dec_spec(mid@, cond@), cond@)
                    &&& final(self)@.slots == mid@.slots
                    &&& c@.slots == old(self)@.slots
                },
    {
        self.seek(cond);
        self.emit_one(OP_OPEN);
        self.forget_known_values();
        let c = self.take_ctx();
        let ghost c_in = c;
        let mut mid = f(c);
        let ghost mid_out = mid;
        mid.decrement(cond);
        mid.seek(cond);
        mid.emit_one(OP_CLOSE);
        self.put_ctx(mid);
        proof {
            assert(c_in@ == loop_opened(old(self)@, cond@) && call_ensures(f, (c_in,), mid_out)
                && self@ == loop_closed(dec_spec(mid_out@, cond@), cond@));
        }
    }

    /// Copies `ptr` into a scratch counter and runs the code emitted by `f`
    /// that many times, preserving `ptr`.
    pub fn repeat_reverse<F: FnOnce(Context, Ptr) -> Context>(&mut self, ptr: &Ptr, f: F)
        requires
            old(self)@.slots.len() + 4 < isize::MAX,
            forall|c: Context, p: Ptr|
                (c@ == scratch_loop_pre(old(self)@, ptr@) && p@ == first_free(old(self)@.slots))
                    ==> call_requires(f, (c, p)),
        ensures
            exists|c: Context, p: Ptr, mid: Context|
                {
                    &&& c@ == scratch_loop_pre(old(self)@, ptr@)
                    &&& p@ == first_free(old(self)@.slots)
                    &&& #[trigger] call_ensures(f, (c, p), mid)
                    &&& final(self)@ == scratch_loop_post(old(self)@, mid@)
                    &&& final(self)@.slots.len() == mid@.slots.len()
                },
    {
        let tmp = self.stack_alloc();
        self.copy(ptr, &tmp);
        self.seek(&tmp);
        self.emit_one(OP_OPEN);
        self.forget_known_values();
        let c = self.take_ctx();
        let ghost c_in = c;
        let mut mid = f(c, tmp);
        let ghost mid_out = mid;
        mid.decrement(&tmp);
        mid.seek(&tmp);
        mid.emit_one(OP_CLOSE);
        self.put_ctx(mid);
        self.release(&tmp);
        proof {
            assert(c_in@ == scratch_loop_pre(old(self)@, ptr@) && tmp@ == first_free(
                old(self)@.slots,
            ) && call_ensures(f, (c_in, tmp), mid_out) && self@ == scratch_loop_post(
                old(self)@,
                mid_out@,
            ));
        }
    }

    /// Runs the code emitted by `f` once iff the condition cell is
    /// non-zero, preserving the condition: the body runs once per unit of
    /// the cell, so callers keep the cell boolean-valued.
    pub fn iff<F: FnOnce(Context) -> Context>(&mut self, cond: &Ptr, f: F)
        requires
            old(self)@.slots.len() + 4 < isize::MAX,
            forall|c: Context| c@ == scratch_loop_pre(old(self)@, cond@) ==> call_requires(f, (c,)),
        ensures
            exists|c: Context, mid: Context|
                {
                    &&& c@ == scratch_loop_pre(old(self)@, cond@)
                    &&& #[trigger] call_ensures(f, (c,), mid)
                    &&& final(self)@ == scratch_loop_post(old(self)@, mid@)
                    &&& final(self)@.slots.len() == mid@.slots.len()
                },
    {
        let tmp = self.stack_alloc();
        self.copy(cond, &tmp);
        self.seek(&tmp);
        self.emit_one(OP_OPEN);
        self.forget_known_values();
        let c = self.take_ctx();
        let ghost c_in = c;
        let mut mid = f(c);
        let ghost mid_out = mid;
        mid.decrement(&tmp);
        mid.seek(&tmp);
        mid.emit_one(OP_CLOSE);
        self.put_ctx(mid);
        self.release(&tmp);
        proof {
            assert(c_in@ == scratch_loop_pre(old(self)@, cond@) && call_ensures(f, (c_in,), mid_out)
                && self@ == scratch_loop_post(old(self)@, mid_out@));
        }
    }

    /// Runs the code emitted by `f` once iff the condition cell is zero,
    /// preserving the condition.
    pub fn if_not<F: FnOnce(Context) -> Context>(&mut self, cond: &Ptr, f: F)
        requires
            old(self)@.slots.len() + 6 < isize::MAX,
            forall|c: Context| c@ == if_not_pre(old(self)@, cond@) ==> call_requires(f, (c,)),
        ensures
            exists|c: Context, mid: Context|
                {
                    &&& c@ == if_not_pre(old(self)@, cond@)
                    &&& #[trigger] call_ensures(f, (c,), mid)
                    &&& final(self)@ == scratch_loop_post(old(self)@, mid@)
                    &&& final(self)@.slots.len() == mid@.slots.len()
                },
    {
        let not_cond = self.stack_alloc();
        self.copy(cond, &not_cond);
        self.not(&not_cond);
        self.seek(&not_cond);
        self.emit_one(OP_OPEN);
        self.forget_known_values();
        let c = self.take_ctx();
        let ghost c_in = c;
        let mut mid = f(c);
        let ghost mid_out = mid;
        mid.decrement(&not_cond);
        mid.seek(&not_cond);
        mid.emit_one(OP_CLOSE);
        self.put_ctx(mid);
        self.release(&not_cond);
        proof {
            assert(c_in@ == if_not_pre(old(self)@, cond@) && call_ensures(f, (c_in,), mid_out)
                && self@ == scratch_loop_post(old(self)@, mid_out@));
        }
    }

    /// Runs the code emitted by `f` once iff the condition cell is zero,
    /// negating the condition in place to do so.
    pub fn if_not_destructive<F: FnOnce(Context) -> Context>(&mut self, cond: &Ptr, f: F)
        requires
            old(self)@.slots.len() + 2 < isize::MAX,
            forall|c: Context|
                c@ == loop_opened(not_spec(old(self)@, cond@), cond@) ==> call_requires(f, (c,)),
        ensures
            exists|c: Context, mid: Context|
                {
                    &&& c@ == loop_opened(not_spec(old(self)@, cond@), cond@)
                    &&& #[trigger] call_ensures(f, (c,), mid)
                    &&& final(self)@ == loop_closed(dec_spec(mid@, cond@), cond@)
                    &&& final(self)@.slots == mid@.slots
                },
    {
        self.not(cond);
        self.seek(cond);
        self.emit_one(OP_OPEN);
        self.forget_known_values();
        let c = self.take_ctx();
        let ghost c_in = c;
        let mut mid = f(c);
        let ghost mid_out = mid;
        mid.decrement(cond);
        mid.seek(cond);
        mid.emit_one(OP_CLOSE);
        self.put_ctx(mid);
        proof {
            assert(c_in@ == loop_opened(not_spec(old(self)@, cond@), cond@) && call_ensures(
                f,
                (c_in,),
                mid_out,
            ) && self@ == loop_closed(dec_spec(mid_out@, cond@), cond@));
        }
    }

    /// Runs the code emitted by `f` once iff the condition cell is
    /// non-zero, else the code emitted by `g`, preserving the condition.
    pub fn if_else<F: FnOnce(Context) -> Context, G: FnOnce(Context) -> Context>(
        &mut self,
        cond: &Ptr,
        f: F,
        g: G,
    )
        requires
            old(self)@.slots.len() + 10 < isize::MAX,
            forall|c: Context, midf: Context|
                #[trigger] call_ensures(f, (c,), midf) ==> midf@.slots.len() + 10 < isize::MAX,
            forall|c: Context|
                c@ == scratch_loop_pre(
                    copy_spec(allocated(old(self)@), cond@, first_free(old(self)@.slots)),
                    cond@,
                ) ==> call_requires(f, (c,)),
            forall|c: Context, midf: Context, c2: Context|
                #![trigger call_ensures(f, (c,), midf), call_requires(g, (c2,))]
                (c@ == scratch_loop_pre(
                    copy_spec(allocated(old(self)@), cond@, first_free(old(self)@.slots)),
                    cond@,
                ) && call_ensures(f, (c,), midf) && c2@ == loop_opened(
                    not_spec(
                        scratch_loop_post(
                            copy_spec(allocated(old(self)@), cond@, first_free(old(self)@.slots)),
                            midf@,
                        ),
                        first_free(old(self)@.slots),
                    ),
                    first_free(old(self)@.slots),
                )) ==> call_requires(g, (c2,)),
        ensures
            exists|c: Context, midf: Context, c2: Context, midg: Context|
                #![trigger call_ensures(f, (c,), midf), call_ensures(g, (c2,), midg)]
                {
                    &&& c@ == scratch_loop_pre(
                        copy_spec(allocated(old(self)@), cond@, first_free(old(self)@.slots)),
                        cond@,
                    )
                    &&& call_ensures(f, (c,), midf)
                    &&& c2@ == loop_opened(
                        not_spec(
                            scratch_loop_post(
                                copy_spec(
                                    allocated(old(self)@),
                                    cond@,
                                    first_free(old(self)@.slots),
                                ),
                                midf@,
                            ),
                            first_free(old(self)@.slots),
                        ),
                        first_free(old(self)@.slots),
                    )
                    &&& call_ensures(g, (c2,), midg)
                    &&& final(self)@ == released(
                        loop_closed(
                            dec_spec(midg@, first_free(old(self)@.slots)),
                            first_free(old(self)@.slots),
                        ),
                        first_free(old(self)@.slots),
                    )
                },
    {
        let tmp_cond = self.stack_alloc();
        self.copy(cond, &tmp_cond);
        let ghost s2 = self@;
        let tmp2 = self.stack_alloc();
        self.copy(cond, &tmp2);
        self.seek(&tmp2);
        self.emit_one(OP_OPEN);
        self.forget_known_values();
        let c = self.take_ctx();
        let ghost cf_in = c;
        let mut mid = f(c);
        let ghost midf_out = mid;
        mid.decrement(&tmp2);
        mid.seek(&tmp2);
        mid.emit_one(OP_CLOSE);
        self.put_ctx(mid);
        self.release(&tmp2);
        proof {
            assert(self@ == scratch_loop_post(s2, midf_out@));
        }
        self.not(&tmp_cond);
        self.seek(&tmp_cond);
        self.emit_one(OP_OPEN);
        self.forget_known_values();
        let c2 = self.take_ctx();
        let ghost cg_in = c2;
        let mut mid2 = g(c2);
        let ghost midg_out = mid2;
        mid2.decrement(&tmp_cond);
        mid2.seek(&tmp_cond);
        mid2.emit_one(OP_CLOSE);
        self.put_ctx(mid2);
        self.release(&tmp_cond);
        proof {
            assert(cf_in@ == scratch_loop_pre(s2, cond@) && call_ensures(f, (cf_in,), midf_out)
                && call_ensures(g, (cg_in,), midg_out));
            assert(self@ == released(
                loop_closed(
                    dec_spec(midg_out@, first_free(old(self)@.slots)),
                    first_free(old(self)@.slots),
                ),
                first_free(old(self)@.slots),
            ));
        }
    }
}

} // verus!
