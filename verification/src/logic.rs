//! Arithmetic and logic primitives over cells: move, copy, negation,
//! addition, subtraction, multiplication, comparisons, and the boolean
//! connectives, each built from the single-cell and control-flow primitives.

use vstd::prelude::*;
use crate::context::{Context, CtxView, known_at, noted};
use crate::cells::{clear_spec, dec_spec, inc_spec, inc_by_spec, set_spec, set_bool_spec};
use crate::flow::{loop_closed, loop_opened, scratch_loop_pre, scratch_loop_post};
use crate::slots::{allocated, first_free, released};
use crate::ptr::Ptr;

verus! {

/// The context after `mov(s, t)`: clear `t`, then drain `s` into `t` one
/// unit at a time. A no-op when `s` and `t` are the same cell.
pub open spec fn mov_spec(c: CtxView, s: int, t: int) -> CtxView {
    if s == t {
        c
    } else {
        loop_closed(dec_spec(inc_spec(loop_opened(clear_spec(c, t), s), t), s), s)
    }
}

/// The context after `copy(s, t)`: with a scratch cell, clear `t`, drain
/// `s` into the scratch, then drain the scratch back into both `s` and
/// `t`. A no-op when `s` and `t` are the same cell.
#[verifier::opaque]
pub open spec fn copy_spec(c: CtxView, s: int, t: int) -> CtxView {
    if s == t {
        c
    } else {
        let a = first_free(c.slots);
        let c1 = mov_spec(clear_spec(allocated(c), t), s, a);
        let c2 = loop_closed(dec_spec(inc_spec(inc_spec(loop_opened(c1, a), s), t), a), a);
        released(c2, a)
    }
}

/// The context after `not(p)`: with a scratch cell set to 1, drain `p`
/// while decrementing the scratch, then drain the scratch back into `p`.
/// Computes `1 - p` for boolean-valued `p`.
pub open spec fn not_spec(c: CtxView, p: int) -> CtxView {
    let a = first_free(c.slots);
    let c1 = set_spec(allocated(c), a, 1);
    let c2 = loop_closed(dec_spec(dec_spec(loop_opened(c1, p), a), p), p);
    let c3 = loop_closed(dec_spec(inc_spec(loop_opened(c2, a), p), a), a);
    released(c3, a)
}

/// The context after `add(t, s)`: drain `s`, incrementing `t` once per
/// unit. Afterwards the target cell holds the wrapping sum and the source
/// cell holds zero.
pub open spec fn add_spec(c: CtxView, t: int, s: int) -> CtxView {
    loop_closed(dec_spec(inc_spec(loop_opened(c, s), t), s), s)
}

/// The context after `sub(t, s)`: drain `s`, decrementing `t` once per
/// unit. Afterwards the target cell holds the wrapping difference and the
/// source cell holds zero.
pub open spec fn sub_spec(c: CtxView, t: int, s: int) -> CtxView {
    loop_closed(dec_spec(dec_spec(loop_opened(c, s), t), s), s)
}

/// The context after `mul(t, s)`: with scratch cells for the product and
/// one addend, repeatedly copy `s` and add it to the product, `t` many
/// times, then move the product into `t`.
pub open spec fn mul_spec(c: CtxView, t: int, s: int) -> CtxView {
    let a1 = first_free(c.slots);
    let c1 = allocated(c);
    let a2 = first_free(c1.slots);
    let c2 = clear_spec(allocated(c1), a1);
    let c3 = loop_closed(
        dec_spec(add_spec(copy_spec(loop_opened(c2, t), s, a2), a1, a2), t),
        t,
    );
    released(released(mov_spec(c3, a1, t), a2), a1)
}

/// The context after `is_zero_destructive(v)`: a scratch boolean starts at
/// 1; the loop over `v` zeroes both when `v` is non-zero; the one-shot
/// loop over the scratch sets `v` to 1 when it survived. Afterwards the
/// cell holds `[v == 0]`.
pub open spec fn izd_spec(c: CtxView, v: int) -> CtxView {
    let a = first_free(c.slots);
    let c1 = set_bool_spec(allocated(c), a, true);
    let c2 = loop_closed(
        set_bool_spec(set_bool_spec(noted(loop_opened(c1, v), a, 1), a, false), v, false),
        v,
    );
    let c3 = loop_closed(dec_spec(set_bool_spec(noted(loop_opened(c2, a), v, 0), v, true), a), a);
    released(c3, a)
}

/// The context after `is_zero(s, t)`: copy then test in place.
#[verifier::opaque]
pub open spec fn is_zero_spec(c: CtxView, s: int, t: int) -> CtxView {
    izd_spec(copy_spec(c, s, t), t)
}

/// The context after `is_not_zero_destructive(v)`.
pub open spec fn inzd_spec(c: CtxView, v: int) -> CtxView {
    not_spec(izd_spec(c, v), v)
}

/// The context after `is_not_zero(s, t)`.
pub open spec fn inz_spec(c: CtxView, s: int, t: int) -> CtxView {
    not_spec(is_zero_spec(c, s, t), t)
}

/// The context after `equals_assign(s, t)`: subtract a copy of `s` from
/// `t`, then test `t` for zero; wrap-around makes `t - s == 0` exactly
/// when the cells were equal.
pub open spec fn ea_spec(c: CtxView, s: int, t: int) -> CtxView {
    let a = first_free(c.slots);
    let c1 = copy_spec(allocated(c), s, a);
    let c2 = loop_closed(dec_spec(dec_spec(loop_opened(c1, a), t), a), a);
    released(izd_spec(c2, t), a)
}

/// The context after `equals(x, y, t)`.
pub open spec fn equals_spec(c: CtxView, x: int, y: int, t: int) -> CtxView {
    ea_spec(copy_spec(c, y, t), x, t)
}

/// The context after `not_equals_assign(s, t)`.
pub open spec fn nea_spec(c: CtxView, s: int, t: int) -> CtxView {
    not_spec(ea_spec(c, s, t), t)
}

/// The context after `and_assign(s, t)`: move `t` aside, then increment
/// `t` once iff both `s` and the moved copy are non-zero.
pub open spec fn aa_spec(c: CtxView, s: int, t: int) -> CtxView {
    let a = first_free(c.slots);
    let c1 = mov_spec(allocated(c), t, a);
    let c2 = scratch_loop_post(
        c1,
        loop_closed(dec_spec(inc_by_spec(loop_opened(scratch_loop_pre(c1, s), a), t, 1), a), a),
    );
    released(c2, a)
}

/// The context after `and(x, y, t)`.
pub open spec fn and_spec(c: CtxView, x: int, y: int, t: int) -> CtxView {
    aa_spec(copy_spec(c, y, t), x, t)
}

/// The context after `and_not(x, y, t)`: `t` becomes `x && !y`.
#[verifier::opaque]
pub open spec fn and_not_spec(c: CtxView, x: int, y: int, t: int) -> CtxView {
    aa_spec(not_spec(copy_spec(c, y, t), t), x, t)
}

/// The context after `or_assign(s, t)`: move `t` aside, set `t` when `s`
/// is non-zero, then set `t` when the moved copy was non-zero.
pub open spec fn oa_spec(c: CtxView, s: int, t: int) -> CtxView {
    let a = first_free(c.slots);
    let c1 = mov_spec(allocated(c), t, a);
    let c2 = scratch_loop_post(c1, set_bool_spec(noted(scratch_loop_pre(c1, s), t, 0), t, true));
    released(loop_closed(dec_spec(set_bool_spec(loop_opened(c2, a), t, true), a), a), a)
}

/// The context after `or(x, y, t)`.
pub open spec fn or_spec(c: CtxView, x: int, y: int, t: int) -> CtxView {
    oa_spec(copy_spec(c, y, t), x, t)
}

/// The context after `nor_assign(s, t)`.
pub open spec fn nora_spec(c: CtxView, s: int, t: int) -> CtxView {
    not_spec(oa_spec(c, s, t), t)
}

/// The context after `nor(x, y, t)`.
#[verifier::opaque]
pub open spec fn nor_spec(c: CtxView, x: int, y: int, t: int) -> CtxView {
    nora_spec(copy_spec(c, y, t), x, t)
}

/// One round of the comparison loop: decrement the copy and the target,
/// then rebuild the three booleans.
#[verifier::opaque]
pub open spec fn gt_round_spec(c: CtxView, tm: int, t: int, tz: int, gz: int, nz: int) -> CtxView {
    nor_spec(is_zero_spec(is_zero_spec(dec_spec(dec_spec(c, tm), t), tm, tz), t, gz), tz, gz, nz)
}

/// The context after `xor_assign(s, t)`: exclusive-or of booleans is
/// their inequality, so this is the negated equality construction.
pub open spec fn xa_spec(c: CtxView, s: int, t: int) -> CtxView {
    nea_spec(c, s, t)
}

/// The context after `xor(x, y, t)`.
pub open spec fn xor_spec(c: CtxView, x: int, y: int, t: int) -> CtxView {
    xa_spec(copy_spec(c, y, t), x, t)
}

/// The context after `greater_than_assign(s, t)`: constant-folded when
/// both cells are known; otherwise a copy of `s` and `t` are decremented
/// together until one reaches zero, and `t` becomes `[s > t]` — the copy
/// outlived `t` exactly when `s` was greater.
#[verifier::opaque]
pub open spec fn gta_spec(c: CtxView, s: int, t: int) -> CtxView {
    match (known_at(c.known, s), known_at(c.known, t)) {
        (Some(sv), Some(tv)) => set_bool_spec(c, t, sv > tv),
        _ => {
            let a1 = first_free(c.slots);
            let c1 = allocated(c);
            let a2 = first_free(c1.slots);
            let c2 = allocated(c1);
            let a3 = first_free(c2.slots);
            let c3 = allocated(c2);
            let a4 = first_free(c3.slots);
            let c4 = allocated(c3);
            let d1 = nor_spec(
                is_zero_spec(is_zero_spec(copy_spec(c4, s, a1), a1, a2), t, a3),
                a2,
                a3,
                a4,
            );
            let d2 = loop_closed(gt_round_spec(loop_opened(d1, a4), a1, t, a2, a3, a4), a4);
            let d3 = and_not_spec(d2, a3, a2, t);
            released(released(released(released(d3, a4), a3), a2), a1)
        },
    }
}

/// The context after `greater_than(x, y, t)`: constant-folded when both
/// inputs are known, else a copy of `y` lands in `t` and the in-place
/// comparison runs against `x`.
pub open spec fn gt_spec(c: CtxView, x: int, y: int, t: int) -> CtxView {
    match (known_at(c.known, x), known_at(c.known, y)) {
        (Some(xv), Some(yv)) => set_bool_spec(c, t, xv > yv),
        _ => gta_spec(copy_spec(c, y, t), x, t),
    }
}

/// `mov` never touches the allocator.
pub proof fn lemma_mov_spec_slots(c: CtxView, s: int, t: int)
    ensures
        mov_spec(c, s, t).slots == c.slots,
{
}

/// `copy` grows the slot vector by at most its one scratch cell.
pub proof fn lemma_copy_spec_slots(c: CtxView, s: int, t: int)
    ensures
        c.slots.len() <= copy_spec(c, s, t).slots.len() <= c.slots.len() + 1,
{
    reveal(copy_spec);
    crate::slots::lemma_first_free_props(c.slots);
    if s != t {
        lemma_mov_spec_slots(clear_spec(allocated(c), t), s, first_free(c.slots));
    }
}

/// `not` grows the slot vector by at most its one scratch cell.
pub proof fn lemma_not_spec_slots(c: CtxView, p: int)
    ensures
        c.slots.len() <= not_spec(c, p).slots.len() <= c.slots.len() + 1,
{
    crate::slots::lemma_first_free_props(c.slots);
}

impl Context {
    /// Drains the source cell into the target: afterwards the target holds
    /// what the source held and the source holds zero. A no-op when both
    /// handles name the same cell.
    pub fn mov(&mut self, source: &Ptr, target: &Ptr)
        ensures
            final(self)@ == mov_spec(old(self)@, source@, target@),
            final(self)@.slots == old(self)@.slots,
    {
        if source.as_isize() == target.as_isize() {
            return ;
        }
        self.clear(target);
        let s = *source;
        let t = *target;
        let step = |c: Context| -> (r: Context)
            ensures
                r@ == dec_spec(inc_spec(c@, t@), s@),
                r@.slots == c@.slots,
            {
                let mut c = c;
                c.increment(&t);
                c.decrement(&s);
                c
            };
        self.while_not_zero(source, step);
        proof {
            assert(self@ == mov_spec(old(self)@, source@, target@));
        }
    }

    /// Copies the source cell into the target, preserving the source, by
    /// draining it through a scratch cell. A no-op when both handles name
    /// the same cell.
    pub fn copy(&mut self, source: &Ptr, target: &Ptr)
        requires
            old(self)@.slots.len() + 2 < isize::MAX,
        ensures
            final(self)@ == copy_spec(old(self)@, source@, target@),
            final(self)@.slots.len() <= old(self)@.slots.len() + 1,
    {
        if source.as_isize() == target.as_isize() {
            proof {
                reveal(copy_spec);
            }
            return ;
        }
        let tmp = self.stack_alloc();
        self.clear(target);
        self.mov(source, &tmp);
        let s = *source;
        let t = *target;
        let step = |c: Context, _counter: Ptr| -> (r: Context)
            ensures
                r@ == inc_spec(inc_spec(c@, s@), t@),
                r@.slots == c@.slots,
            {
                let mut c = c;
                c.increment(&s);
                c.increment(&t);
                c
            };
        self.repeat_reverse_destructive(&tmp, step);
        self.release(&tmp);
        proof {
            reveal(copy_spec);
            assert(self@ == copy_spec(old(self)@, source@, target@));
        }
    }

    /// Boolean negation in place: for a cell holding 0 or 1, afterwards it
    /// holds 1 or 0. Other values underflow, so callers keep the cell
    /// boolean-valued.
    pub fn not(&mut self, cond: &Ptr)
        requires
            old(self)@.slots.len() + 2 < isize::MAX,
        ensures
            final(self)@ == not_spec(old(self)@, cond@),
            final(self)@.slots.len() <= old(self)@.slots.len() + 1,
    {
        let is_false = self.stack_alloc();
        self.set(&is_false, 1);
        let nf = is_false;
        let drain = |c: Context, _counter: Ptr| -> (r: Context)
            ensures
                r@ == dec_spec(c@, nf@),
                r@.slots == c@.slots,
            {
                let mut c = c;
                c.decrement(&nf);
                c
            };
        self.repeat_reverse_destructive(cond, drain);
        let cp = *cond;
        let restore = |c: Context, _counter: Ptr| -> (r: Context)
            ensures
                r@ == inc_spec(c@, cp@),
                r@.slots == c@.slots,
            {
                let mut c = c;
                c.increment(&cp);
                c
            };
        self.repeat_reverse_destructive(&is_false, restore);
        self.release(&is_false);
        proof {
            assert(self@ == not_spec(old(self)@, cond@));
        }
    }

    /// `target += source`, wrapping; the source cell is left at zero. The
    /// two handles must name distinct cells.
    pub fn add(&mut self, target: &Ptr, source: &Ptr)
        requires
            target@ != source@,
        ensures
            final(self)@ == add_spec(old(self)@, target@, source@),
            final(self)@.slots == old(self)@.slots,
    {
        let t = *target;
        let step = |c: Context, _counter: Ptr| -> (r: Context)
            ensures
                r@ == inc_spec(c@, t@),
                r@.slots == c@.slots,
            {
                let mut c = c;
                c.increment(&t);
                c
            };
        self.repeat_reverse_destructive(source, step);
        proof {
            assert(self@ == add_spec(old(self)@, target@, source@));
        }
    }

    /// `target -= source`, wrapping; the source cell is left at zero. The
    /// two handles must name distinct cells.
    pub fn sub(&mut self, target: &Ptr, source: &Ptr)
        requires
            target@ != source@,
        ensures
            final(self)@ == sub_spec(old(self)@, target@, source@),
            final(self)@.slots == old(self)@.slots,
    {
        let t = *target;
        let step = |c: Context, _counter: Ptr| -> (r: Context)
            ensures
                r@ == dec_spec(c@, t@),
                r@.slots == c@.slots,
            {
                let mut c = c;
                c.decrement(&t);
                c
            };
        self.repeat_reverse_destructive(source, step);
        proof {
            assert(self@ == sub_spec(old(self)@, target@, source@));
        }
    }

    /// `target *= source`, wrapping, preserving the source cell. The two
    /// handles must name distinct cells.
    pub fn mul(&mut self, target: &Ptr, source: &Ptr)
        requires
            target@ != source@,
            old(self)@.slots.len() + 8 < isize::MAX,
        ensures
            final(self)@ == mul_spec(old(self)@, target@, source@),
            final(self)@.slots.len() <= old(self)@.slots.len() + 3,
    {
        proof {
            crate::slots::lemma_nth_alloc_distinct(old(self)@.slots);
            crate::slots::lemma_allocated_n_unfold(old(self)@, 2);
        }
        let product = self.stack_alloc();
        let tmp = self.stack_alloc();
        self.clear(&product);
        let s = *source;
        let prod = product;
        let tm = tmp;
        let step = |c: Context, _counter: Ptr| -> (r: Context)
            requires
                c@.slots.len() + 2 < isize::MAX,
            ensures
                r@ == add_spec(copy_spec(c@, s@, tm@), prod@, tm@),
                r@.slots.len() <= c@.slots.len() + 1,
            {
                let mut c = c;
                c.copy(&s, &tm);
                c.add(&prod, &tm);
                c
            };
        self.repeat_reverse_destructive(target, step);
        self.mov(&product, target);
        self.release(&tmp);
        self.release(&product);
        proof {
            assert(self@ == mul_spec(old(self)@, target@, source@));
        }
    }

    /// Replaces the cell with `[cell == 0]`: afterwards it holds 1 when it
    /// held zero and 0 otherwise.
    pub fn is_zero_destructive(&mut self, value: &Ptr)
        requires
            old(self)@.slots.len() + 2 < isize::MAX,
        ensures
            final(self)@ == izd_spec(old(self)@, value@),
            final(self)@.slots.len() <= old(self)@.slots.len() + 1,
    {
        let z = self.stack_alloc();
        self.set_bool(&z, true);
        let zp = z;
        let vp = *value;
        let body = |c: Context| -> (r: Context)
            ensures
                r@ == set_bool_spec(
                    set_bool_spec(noted(c@, zp@, 1), zp@, false),
                    vp@,
                    false,
                ),
                r@.slots == c@.slots,
            {
                let mut c = c;
                c.note_bool(&zp, true);
                c.set_bool(&zp, false);
                c.set_bool(&vp, false);
                c
            };
        self.while_not_zero(value, body);
        let settle = |c: Context| -> (r: Context)
            ensures
                r@ == set_bool_spec(noted(c@, vp@, 0), vp@, true),
                r@.slots == c@.slots,
            {
                let mut c = c;
                c.note_bool(&vp, false);
                c.set_bool(&vp, true);
                c
            };
        self.iff_destructive(&z, settle);
        self.release(&z);
        proof {
            assert(self@ == izd_spec(old(self)@, value@));
        }
    }

    /// Writes `[source == 0]` into the target, preserving the source.
    pub fn is_zero(&mut self, source: &Ptr, target: &Ptr)
        requires
            old(self)@.slots.len() + 4 < isize::MAX,
        ensures
            final(self)@ == is_zero_spec(old(self)@, source@, target@),
            final(self)@.slots.len() <= old(self)@.slots.len() + 2,
    {
        self.copy(source, target);
        self.is_zero_destructive(target);
        proof {
            reveal(is_zero_spec);
        }
    }

    /// Replaces the cell with `[cell != 0]`.
    pub fn is_not_zero_destructive(&mut self, value: &Ptr)
        requires
            old(self)@.slots.len() + 4 < isize::MAX,
        ensures
            final(self)@ == inzd_spec(old(self)@, value@),
            final(self)@.slots.len() <= old(self)@.slots.len() + 2,
    {
        self.is_zero_destructive(value);
        self.not(value);
    }

    /// Writes `[source != 0]` into the target, preserving the source.
    pub fn is_not_zero(&mut self, source: &Ptr, target: &Ptr)
        requires
            old(self)@.slots.len() + 6 < isize::MAX,
        ensures
            final(self)@ == inz_spec(old(self)@, source@, target@),
            final(self)@.slots.len() <= old(self)@.slots.len() + 3,
    {
        self.is_zero(source, target);
        self.not(target);
    }

    /// `target <- [source == target]`: subtracts a copy of the source from
    /// the target, then tests the target for zero. Wrap-around arithmetic
    /// makes the difference zero exactly when the cells were equal.
    pub fn equals_assign(&mut self, source: &Ptr, target: &Ptr)
        requires
            old(self)@.slots.len() + 6 < isize::MAX,
        ensures
            final(self)@ == ea_spec(old(self)@, source@, target@),
            final(self)@.slots.len() <= old(self)@.slots.len() + 3,
    {
        let tmp = self.stack_alloc();
        self.copy(source, &tmp);
        let t = *target;
        let drain = |c: Context, _counter: Ptr| -> (r: Context)
            ensures
                r@ == dec_spec(c@, t@),
                r@.slots == c@.slots,
            {
                let mut c = c;
                c.decrement(&t);
                c
            };
        self.repeat_reverse_destructive(&tmp, drain);
        self.is_zero_destructive(target);
        self.release(&tmp);
        proof {
            assert(self@ == ea_spec(old(self)@, source@, target@));
        }
    }

    /// Writes `[a == b]` into the target, preserving both inputs.
    pub fn equals(&mut self, a: &Ptr, b: &Ptr, target: &Ptr)
        requires
            old(self)@.slots.len() + 8 < isize::MAX,
        ensures
            final(self)@ == equals_spec(old(self)@, a@, b@, target@),
            final(self)@.slots.len() <= old(self)@.slots.len() + 4,
    {
        self.copy(b, target);
        self.equals_assign(a, target);
    }

    /// `target <- [source != target]`.
    pub fn not_equals_assign(&mut self, source: &Ptr, target: &Ptr)
        requires
            old(self)@.slots.len() + 8 < isize::MAX,
        ensures
            final(self)@ == nea_spec(old(self)@, source@, target@),
            final(self)@.slots.len() <= old(self)@.slots.len() + 4,
    {
        self.equals_assign(source, target);
        self.not(target);
    }

    /// `target <- target ^ source` for boolean cells: exclusive-or of
    /// booleans is their inequality, so this is the equality construction
    /// followed by a negation.
    pub fn xor_assign(&mut self, source: &Ptr, target: &Ptr)
        requires
            old(self)@.slots.len() + 8 < isize::MAX,
        ensures
            final(self)@ == xa_spec(old(self)@, source@, target@),
            final(self)@.slots.len() <= old(self)@.slots.len() + 4,
    {
        self.not_equals_assign(source, target);
    }

    /// Writes `a ^ b` into the target for boolean cells. The target must
    /// be distinct from both inputs.
    pub fn xor(&mut self, a: &Ptr, b: &Ptr, target: &Ptr)
        requires
            a@ != target@,
            b@ != target@,
            old(self)@.slots.len() + 10 < isize::MAX,
        ensures
            final(self)@ == xor_spec(old(self)@, a@, b@, target@),
            final(self)@.slots.len() <= old(self)@.slots.len() + 5,
    {
        self.copy(b, target);
        self.xor_assign(a, target);
    }

    /// `target <- source && target` for boolean cells.
    #[verifier::rlimit(60)]
    #[verifier::spinoff_prover]
    pub fn and_assign(&mut self, source: &Ptr, target: &Ptr)
        requires
            old(self)@.slots.len() + 8 < isize::MAX,
        ensures
            final(self)@ == aa_spec(old(self)@, source@, target@),
            final(self)@.slots.len() <= old(self)@.slots.len() + 3,
    {
        let tmp = self.stack_alloc();
        self.mov(target, &tmp);
        let ghost s1 = self@;
        let tm = tmp;
        let t = *target;
        let body = |c: Context| -> (r: Context)
            ensures
                r@ == loop_closed(dec_spec(inc_by_spec(loop_opened(c@, tm@), t@, 1), tm@), tm@),
                r@.slots == c@.slots,
            {
                let mut c = c;
                let bump = |c2: Context| -> (r2: Context)
                    ensures
                        r2@ == inc_by_spec(c2@, t@, 1),
                        r2@.slots == c2@.slots,
                    {
                        let mut c2 = c2;
                        c2.increment_by(&t, 1);
                        c2
                    };
                c.iff_destructive(&tm, bump);
                c
            };
        self.iff(source, body);
        let ghost s2 = self@;
        self.release(&tmp);
        proof {
            assert(tmp@ == first_free(old(self)@.slots));
            assert(s1 == mov_spec(allocated(old(self)@), target@, tmp@));
            crate::slots::lemma_first_free_props(s1.slots);
            lemma_copy_spec_slots(allocated(s1), source@, first_free(s1.slots));
            let (cw, mw): (Context, Context) = choose|cw: Context, mw: Context|
                {
                    &&& cw@ == scratch_loop_pre(s1, source@)
                    &&& #[trigger] call_ensures(body, (cw,), mw)
                    &&& s2 == scratch_loop_post(s1, mw@)
                    &&& s2.slots.len() == mw@.slots.len()
                };
            assert(mw@ == loop_closed(
                dec_spec(inc_by_spec(loop_opened(cw@, tmp@), target@, 1), tmp@),
                tmp@,
            ));
            assert(self@ == aa_spec(old(self)@, source@, target@));
        }
    }

    /// Writes `a && b` into the target for boolean cells. The target must
    /// be distinct from both inputs.
    pub fn and(&mut self, a: &Ptr, b: &Ptr, target: &Ptr)
        requires
            a@ != target@,
            b@ != target@,
            old(self)@.slots.len() + 10 < isize::MAX,
        ensures
            final(self)@ == and_spec(old(self)@, a@, b@, target@),
            final(self)@.slots.len() <= old(self)@.slots.len() + 4,
    {
        self.copy(b, target);
        self.and_assign(a, target);
    }

    /// Writes `a && !b` into the target for boolean cells.
    pub fn and_not(&mut self, a: &Ptr, b: &Ptr, target: &Ptr)
        requires
            old(self)@.slots.len() + 12 < isize::MAX,
        ensures
            final(self)@ == and_not_spec(old(self)@, a@, b@, target@),
            final(self)@.slots.len() <= old(self)@.slots.len() + 5,
    {
        self.copy(b, target);
        self.not(target);
        self.and_assign(a, target);
        proof {
            reveal(and_not_spec);
        }
    }

    /// `target <- source || target` for boolean cells.
    pub fn or_assign(&mut self, source: &Ptr, target: &Ptr)
        requires
            old(self)@.slots.len() + 8 < isize::MAX,
        ensures
            final(self)@ == oa_spec(old(self)@, source@, target@),
            final(self)@.slots.len() <= old(self)@.slots.len() + 3,
    {
        let tmp = self.stack_alloc();
        self.mov(target, &tmp);
        let ghost s1 = self@;
        let t = *target;
        let raise = |c: Context| -> (r: Context)
            ensures
                r@ == set_bool_spec(noted(c@, t@, 0), t@, true),
                r@.slots == c@.slots,
            {
                let mut c = c;
                c.note_bool(&t, false);
                c.set_bool(&t, true);
                c
            };
        self.iff(source, raise);
        let raise_saved = |c: Context| -> (r: Context)
            ensures
                r@ == set_bool_spec(c@, t@, true),
                r@.slots == c@.slots,
            {
                let mut c = c;
                c.set_bool(&t, true);
                c
            };
        self.iff_destructive(&tmp, raise_saved);
        self.release(&tmp);
        proof {
            crate::slots::lemma_first_free_props(s1.slots);
            lemma_copy_spec_slots(allocated(s1), source@, first_free(s1.slots));
            assert(self@ == oa_spec(old(self)@, source@, target@));
        }
    }

    /// Writes `a || b` into the target for boolean cells. The target must
    /// be distinct from both inputs.
    pub fn or(&mut self, a: &Ptr, b: &Ptr, target: &Ptr)
        requires
            a@ != target@,
            b@ != target@,
            old(self)@.slots.len() + 10 < isize::MAX,
        ensures
            final(self)@ == or_spec(old(self)@, a@, b@, target@),
            final(self)@.slots.len() <= old(self)@.slots.len() + 4,
    {
        self.copy(b, target);
        self.or_assign(a, target);
    }

    /// `target <- !(source || target)` for boolean cells.
    pub fn nor_assign(&mut self, source: &Ptr, target: &Ptr)
        requires
            old(self)@.slots.len() + 10 < isize::MAX,
        ensures
            final(self)@ == nora_spec(old(self)@, source@, target@),
            final(self)@.slots.len() <= old(self)@.slots.len() + 4,
    {
        self.or_assign(source, target);
        self.not(target);
    }

    /// Writes `!(a || b)` into the target for boolean cells. The target
    /// must be distinct from both inputs.
    pub fn nor(&mut self, a: &Ptr, b: &Ptr, target: &Ptr)
        requires
            a@ != target@,
            b@ != target@,
            old(self)@.slots.len() + 12 < isize::MAX,
        ensures
            final(self)@ == nor_spec(old(self)@, a@, b@, target@),
            final(self)@.slots.len() <= old(self)@.slots.len() + 5,
    {
        self.copy(b, target);
        self.nor_assign(a, target);
        proof {
            reveal(nor_spec);
        }
    }

    /// Emits one round of the comparison loop.
    fn gt_round(&mut self, tm: &Ptr, t: &Ptr, tz: &Ptr, gz: &Ptr, nz: &Ptr)
        requires
            tz@ != nz@,
            gz@ != nz@,
            old(self)@.slots.len() + 16 < isize::MAX,
        ensures
            final(self)@ == gt_round_spec(old(self)@, tm@, t@, tz@, gz@, nz@),
            final(self)@.slots.len() <= old(self)@.slots.len() + 9,
    {
        self.decrement(tm);
        self.decrement(t);
        self.is_zero(tm, tz);
        self.is_zero(t, gz);
        self.nor(tz, gz, nz);
        proof {
            reveal(gt_round_spec);
        }
    }

    /// `target <- [source > target]`: constant-folded when both values are
    /// known; otherwise a copy of the source and the target are counted
    /// down together until one reaches zero, and the surviving side
    /// decides.
    #[verifier::rlimit(100)]
    #[verifier::spinoff_prover]
    pub fn greater_than_assign(&mut self, source: &Ptr, target: &Ptr)
        requires
            old(self)@.slots.len() + 40 < isize::MAX,
        ensures
            final(self)@ == gta_spec(old(self)@, source@, target@),
            final(self)@.slots.len() <= old(self)@.slots.len() + 32,
    {
        proof {
            reveal(gta_spec);
        }
        let sv = self.value(source);
        let tv = self.value(target);
        match (sv, tv) {
            (Some(a), Some(b)) => {
                self.set_bool(target, a > b);
                return ;
            },
            _ => {},
        }
        proof {
            crate::slots::lemma_nth_alloc_distinct(old(self)@.slots);
            crate::slots::lemma_allocated_n_unfold(old(self)@, 4);
        }
        let tmp = self.stack_alloc();
        let tmp_is_zero = self.stack_alloc();
        let target_is_zero = self.stack_alloc();
        let neither_is_zero = self.stack_alloc();
        let ghost g4 = self@;
        self.copy(source, &tmp);
        self.is_zero(&tmp, &tmp_is_zero);
        self.is_zero(target, &target_is_zero);
        self.nor(&tmp_is_zero, &target_is_zero, &neither_is_zero);
        let ghost d1 = self@;
        proof {
            assert(d1 == nor_spec(
                is_zero_spec(is_zero_spec(copy_spec(g4, source@, tmp@), tmp@, tmp_is_zero@),
                target@, target_is_zero@),
                tmp_is_zero@,
                target_is_zero@,
                neither_is_zero@,
            ));
        }
        let t = *target;
        let tm = tmp;
        let tz = tmp_is_zero;
        let gz = target_is_zero;
        let nz = neither_is_zero;
        let body = |c: Context| -> (r: Context)
            requires
                c@.slots.len() + 16 < isize::MAX,
            ensures
                r@ == gt_round_spec(c@, tm@, t@, tz@, gz@, nz@),
                r@.slots.len() <= c@.slots.len() + 9,
            {
                let mut c = c;
                c.gt_round(&tm, &t, &tz, &gz, &nz);
                c
            };
        self.while_true(&neither_is_zero, body);
        let ghost w = self@;
        self.and_not(&target_is_zero, &tmp_is_zero, target);
        let ghost d3 = self@;
        self.release(&neither_is_zero);
        self.release(&target_is_zero);
        self.release(&tmp_is_zero);
        self.release(&tmp);
        proof {
            reveal(gta_spec);
            let (cw, mw): (Context, Context) = choose|cw: Context, mw: Context|
                {
                    &&& cw@ == loop_opened(d1, neither_is_zero@)
                    &&& #[trigger] call_ensures(body, (cw,), mw)
                    &&& w == loop_closed(mw@, neither_is_zero@)
                    &&& w.slots == mw@.slots
                    &&& cw@.slots == d1.slots
                };
            assert(mw@ == gt_round_spec(
                cw@,
                tmp@,
                target@,
                tmp_is_zero@,
                target_is_zero@,
                neither_is_zero@,
            ));
            assert(d3 == and_not_spec(w, target_is_zero@, tmp_is_zero@, target@));
            assert(self@ == released(
                released(released(released(d3, neither_is_zero@), target_is_zero@), tmp_is_zero@),
                tmp@,
            ));
            assert(self@ == gta_spec(old(self)@, source@, target@));
        }
    }

    /// Writes `[a > b]` into the target, preserving both inputs;
    /// constant-folded when both values are known.
    pub fn greater_than(&mut self, a: &Ptr, b: &Ptr, target: &Ptr)
        requires
            old(self)@.slots.len() + 48 < isize::MAX,
        ensures
            final(self)@ == gt_spec(old(self)@, a@, b@, target@),
            final(self)@.slots.len() <= old(self)@.slots.len() + 33,
    {
        let av = self.value(a);
        let bv = self.value(b);
        match (av, bv) {
            (Some(x), Some(y)) => {
                self.set_bool(target, x > y);
                return ;
            },
            _ => {},
        }
        self.copy(b, target);
        self.greater_than_assign(a, target);
    }
}

} // verus!
