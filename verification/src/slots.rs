//! The cell allocator: stack-discipline reuse of cell addresses, and the
//! scoped-acquisition forms that guarantee release when the scope ends.

use vstd::prelude::*;
use crate::context::{Context, CtxView};
use crate::ptr::Ptr;

verus! {

/// The lowest free slot at or after `i`, or `slots.len()` when all are live.
pub open spec fn first_free_from(slots: Seq<bool>, i: int) -> int
    decreases slots.len() - i,
{
    if i < 0 || i >= slots.len() {
        slots.len() as int
    } else if !slots[i] {
        i
    } else {
        first_free_from(slots, i + 1)
    }
}

/// The lowest free slot, or `slots.len()` when every slot is live.
pub open spec fn first_free(slots: Seq<bool>) -> int {
    first_free_from(slots, 0)
}

/// The slot vector after reserving the lowest free slot, appending a new
/// slot when none is free.
pub open spec fn alloc_slots(slots: Seq<bool>) -> Seq<bool> {
    if first_free(slots) < slots.len() {
        slots.update(first_free(slots), true)
    } else {
        slots.push(true)
    }
}

/// The slot vector after the slot at address `a` is released; addresses
/// outside the vector are ignored.
pub open spec fn free_slots(slots: Seq<bool>, a: int) -> Seq<bool> {
    if 0 <= a < slots.len() {
        slots.update(a, false)
    } else {
        slots
    }
}

/// The context after the allocator reserves the lowest free slot.
pub open spec fn allocated(c: CtxView) -> CtxView {
    CtxView { slots: alloc_slots(c.slots), ..c }
}

/// The context after the slot at address `a` is released.
pub open spec fn released(c: CtxView, a: int) -> CtxView {
    CtxView { slots: free_slots(c.slots, a), ..c }
}

/// The set of live addresses: all that matters of the allocator state.
pub open spec fn live_set(slots: Seq<bool>) -> Set<int> {
    Set::new(|i: int| 0 <= i < slots.len() && slots[i])
}

pub(crate) proof fn lemma_first_free_from_is(s: Seq<bool>, k: int, i: int)
    requires
        0 <= k <= i <= s.len(),
        forall|j: int| k <= j < i ==> s[j],
        i == s.len() || !s[i],
    ensures
        first_free_from(s, k) == i,
    decreases i - k,
{
    if k < i {
        lemma_first_free_from_is(s, k + 1, i);
    }
}

proof fn lemma_first_free_from_props(s: Seq<bool>, k: int)
    requires
        0 <= k <= s.len(),
    ensures
        k <= first_free_from(s, k) <= s.len(),
        first_free_from(s, k) < s.len() ==> !s[first_free_from(s, k)],
        forall|j: int| k <= j < first_free_from(s, k) ==> s[j],
    decreases s.len() - k,
{
    if k < s.len() && s[k] {
        lemma_first_free_from_props(s, k + 1);
    }
}

/// The lowest free slot is indeed free, all below it are live, and it is
/// within one past the end of the slot vector.
pub proof fn lemma_first_free_props(s: Seq<bool>)
    ensures
        0 <= first_free(s) <= s.len(),
        first_free(s) < s.len() ==> !s[first_free(s)],
        forall|j: int| 0 <= j < first_free(s) ==> s[j],
{
    lemma_first_free_from_props(s, 0);
}

/// Allocator reuse: once the slot at address `a` is released, the next
/// allocation returns `a` whenever every lower address is still live.
pub proof fn lemma_allocator_reuse(slots: Seq<bool>, a: int)
    requires
        0 <= a < slots.len(),
        forall|j: int| 0 <= j < a ==> slots[j],
    ensures
        first_free(free_slots(slots, a)) == a,
{
    lemma_first_free_from_is(free_slots(slots, a), 0, a);
}

/// Scoped release: reserving the lowest free slot and releasing it again
/// leaves the set of live addresses exactly what it was before.
pub proof fn lemma_scoped_release(slots: Seq<bool>)
    ensures
        live_set(free_slots(alloc_slots(slots), first_free(slots))) == live_set(slots),
{
    lemma_first_free_props(slots);
    assert(live_set(free_slots(alloc_slots(slots), first_free(slots))) =~= live_set(slots));
}

/// Releasing a slot touches no other slot, so the order in which distinct
/// slots are released does not matter to the resulting live set.
pub proof fn lemma_release_commutes(slots: Seq<bool>, a: int, b: int)
    ensures
        free_slots(free_slots(slots, a), b) == free_slots(free_slots(slots, b), a),
{
    assert(free_slots(free_slots(slots, a), b) =~= free_slots(free_slots(slots, b), a));
}

/// Allocation adds exactly the lowest free address, which was not live, to
/// the live set.
pub proof fn lemma_live_set_alloc(s: Seq<bool>)
    ensures
        live_set(alloc_slots(s)) == live_set(s).insert(first_free(s)),
        !live_set(s).contains(first_free(s)),
{
    lemma_first_free_props(s);
    assert(live_set(alloc_slots(s)) =~= live_set(s).insert(first_free(s)));
}

/// Release removes exactly the released address from the live set.
pub proof fn lemma_live_set_free(s: Seq<bool>, a: int)
    ensures
        live_set(free_slots(s, a)) == live_set(s).remove(a),
{
    assert(live_set(free_slots(s, a)) =~= live_set(s).remove(a));
}

/// The slot vector after `n` successive allocations.
pub open spec fn alloc_slots_n(s: Seq<bool>, n: int) -> Seq<bool>
    decreases n,
{
    if n <= 0 {
        s
    } else {
        alloc_slots(alloc_slots_n(s, n - 1))
    }
}

/// The address handed out by the allocation after `k` earlier ones.
pub open spec fn nth_alloc(s: Seq<bool>, k: int) -> int {
    first_free(alloc_slots_n(s, k))
}

/// A live slot stays live across an allocation.
pub proof fn lemma_alloc_keeps_live(s: Seq<bool>, i: int)
    requires
        0 <= i < s.len(),
        s[i],
    ensures
        i < alloc_slots(s).len(),
        alloc_slots(s)[i],
{
    lemma_first_free_props(s);
}

/// The first four addresses handed out by successive allocations are
/// pairwise distinct.
pub proof fn lemma_nth_alloc_distinct(s: Seq<bool>)
    ensures
        nth_alloc(s, 0) != nth_alloc(s, 1),
        nth_alloc(s, 0) != nth_alloc(s, 2),
        nth_alloc(s, 0) != nth_alloc(s, 3),
        nth_alloc(s, 1) != nth_alloc(s, 2),
        nth_alloc(s, 1) != nth_alloc(s, 3),
        nth_alloc(s, 2) != nth_alloc(s, 3),
{
    let s0 = s;
    let s1 = alloc_slots(s0);
    let s2 = alloc_slots(s1);
    let s3 = alloc_slots(s2);
    assert(alloc_slots_n(s, 0) == s0);
    assert(alloc_slots_n(s, 1) == s1);
    assert(alloc_slots_n(s, 2) == s2);
    assert(alloc_slots_n(s, 3) == s3);
    lemma_first_free_props(s0);
    lemma_first_free_props(s1);
    lemma_first_free_props(s2);
    lemma_first_free_props(s3);
    assert(0 <= first_free(s0) < s1.len() && s1[first_free(s0)]);
    lemma_alloc_keeps_live(s1, first_free(s0));
    lemma_alloc_keeps_live(s2, first_free(s0));
    assert(0 <= first_free(s1) < s2.len() && s2[first_free(s1)]);
    lemma_alloc_keeps_live(s2, first_free(s1));
    assert(0 <= first_free(s2) < s3.len() && s3[first_free(s2)]);
}

/// The context after `n` successive allocations.
pub open spec fn allocated_n(c: CtxView, n: int) -> CtxView
    decreases n,
{
    if n <= 0 {
        c
    } else {
        allocated(allocated_n(c, n - 1))
    }
}

impl Context {

    fn alloc_two(&mut self) -> (ps: (Ptr, Ptr))
        requires
            old(self)@.slots.len() + 8 < isize::MAX,
        ensures
            final(self)@ == allocated_n(old(self)@, 2),
            ps.0@ == nth_alloc(old(self)@.slots, 0),
            ps.1@ == nth_alloc(old(self)@.slots, 1),
    {
        proof {
            lemma_allocated_n_unfold(old(self)@, 2);
            lemma_first_free_props(alloc_slots_n(old(self)@.slots, 0));
            lemma_first_free_props(alloc_slots_n(old(self)@.slots, 1));
        }
        let p1 = self.stack_alloc();
        let p2 = self.stack_alloc();
        (p1, p2)
    }

    fn alloc_three(&mut self) -> (ps: (Ptr, Ptr, Ptr))
        requires
            old(self)@.slots.len() + 8 < isize::MAX,
        ensures
            final(self)@ == allocated_n(old(self)@, 3),
            ps.0@ == nth_alloc(old(self)@.slots, 0),
            ps.1@ == nth_alloc(old(self)@.slots, 1),
            ps.2@ == nth_alloc(old(self)@.slots, 2),
    {
        proof {
            lemma_allocated_n_unfold(old(self)@, 3);
            lemma_first_free_props(alloc_slots_n(old(self)@.slots, 0));
            lemma_first_free_props(alloc_slots_n(old(self)@.slots, 1));
            lemma_first_free_props(alloc_slots_n(old(self)@.slots, 2));
        }
        let p1 = self.stack_alloc();
        let p2 = self.stack_alloc();
        let p3 = self.stack_alloc();
        (p1, p2, p3)
    }

    fn alloc_four(&mut self) -> (ps: (Ptr, Ptr, Ptr, Ptr))
        requires
            old(self)@.slots.len() + 8 < isize::MAX,
        ensures
            final(self)@ == allocated_n(old(self)@, 4),
            ps.0@ == nth_alloc(old(self)@.slots, 0),
            ps.1@ == nth_alloc(old(self)@.slots, 1),
            ps.2@ == nth_alloc(old(self)@.slots, 2),
            ps.3@ == nth_alloc(old(self)@.slots, 3),
    {
        proof {
            lemma_allocated_n_unfold(old(self)@, 4);
            lemma_first_free_props(alloc_slots_n(old(self)@.slots, 0));
            lemma_first_free_props(alloc_slots_n(old(self)@.slots, 1));
            lemma_first_free_props(alloc_slots_n(old(self)@.slots, 2));
            lemma_first_free_props(alloc_slots_n(old(self)@.slots, 3));
        }
        let p1 = self.stack_alloc();
        let p2 = self.stack_alloc();
        let p3 = self.stack_alloc();
        let p4 = self.stack_alloc();
        (p1, p2, p3, p4)
    }

    fn alloc_five(&mut self) -> (ps: (Ptr, Ptr, Ptr, Ptr, Ptr))
        requires
            old(self)@.slots.len() + 8 < isize::MAX,
        ensures
            final(self)@ == allocated_n(old(self)@, 5),
            ps.0@ == nth_alloc(old(self)@.slots, 0),
            ps.1@ == nth_alloc(old(self)@.slots, 1),
            ps.2@ == nth_alloc(old(self)@.slots, 2),
            ps.3@ == nth_alloc(old(self)@.slots, 3),
            ps.4@ == nth_alloc(old(self)@.slots, 4),
    {
        proof {
            lemma_allocated_n_unfold(old(self)@, 5);
            lemma_first_free_props(alloc_slots_n(old(self)@.slots, 0));
            lemma_first_free_props(alloc_slots_n(old(self)@.slots, 1));
            lemma_first_free_props(alloc_slots_n(old(self)@.slots, 2));
            lemma_first_free_props(alloc_slots_n(old(self)@.slots, 3));
            lemma_first_free_props(alloc_slots_n(old(self)@.slots, 4));
        }
        let p1 = self.stack_alloc();
        let p2 = self.stack_alloc();
        let p3 = self.stack_alloc();
        let p4 = self.stack_alloc();
        let p5 = self.stack_alloc();
        (p1, p2, p3, p4, p5)
    }

    /// Runs `f` with one freshly allocated handle, released when `f`
    /// returns: the set of live addresses is then what it was before.
    #[verifier::spinoff_prover]
    pub fn with_stack_alloc<F: FnOnce(Context, Ptr) -> Context>(&mut self, f: F)
        requires
            old(self)@.slots.len() + 8 < isize::MAX,
            forall|c: Context, p: Ptr|
                (c@ == allocated(old(self)@) && p@ == first_free(old(self)@.slots))
                    ==> call_requires(f, (c, p)),
        ensures
            exists|c: Context, p: Ptr, mid: Context|
                {
                    &&& c@ == allocated(old(self)@)
                    &&& p@ == first_free(old(self)@.slots)
                    &&& #[trigger] call_ensures(f, (c, p), mid)
                    &&& final(self)@ == released(mid@, first_free(old(self)@.slots))
                },
    {
        let ptr = self.stack_alloc();
        let c = self.take_ctx();
        let ghost c_in = c;
        let mut mid = f(c, ptr);
        let ghost mid_out = mid;
        mid.release(&ptr);
        self.put_ctx(mid);
        proof {
            assert(c_in@ == allocated(old(self)@) && ptr@ == first_free(old(self)@.slots)
                && call_ensures(f, (c_in, ptr), mid_out)
                && self@ == released(mid_out@, first_free(old(self)@.slots)));
        }
    }

    /// Runs `f` with two freshly allocated handles, released when `f`
    /// returns.
    #[verifier::spinoff_prover]
    pub fn with_stack_alloc2<F: FnOnce(Context, Ptr, Ptr) -> Context>(&mut self, f: F)
        requires
            old(self)@.slots.len() + 8 < isize::MAX,
            forall|c: Context, p1: Ptr, p2: Ptr|
                (c@ == allocated_n(old(self)@, 2) && p1@ == nth_alloc(old(self)@.slots, 0)
                    && p2@ == nth_alloc(old(self)@.slots, 1)) ==> call_requires(f, (c, p1, p2)),
        ensures
            exists|c: Context, p1: Ptr, p2: Ptr, mid: Context|
                {
                    &&& c@ == allocated_n(old(self)@, 2)
                    &&& p1@ == nth_alloc(old(self)@.slots, 0)
                    &&& p2@ == nth_alloc(old(self)@.slots, 1)
                    &&& #[trigger] call_ensures(f, (c, p1, p2), mid)
                    &&& final(self)@ == released(
                        released(mid@, nth_alloc(old(self)@.slots, 1)),
                        nth_alloc(old(self)@.slots, 0),
                    )
                },
    {
        let (p1, p2) = self.alloc_two();
        let c = self.take_ctx();
        let ghost c_in = c;
        let mut mid = f(c, p1, p2);
        let ghost mid_out = mid;
        mid.release(&p2);
        mid.release(&p1);
        self.put_ctx(mid);
        proof {
            lemma_allocated_n_unfold(old(self)@, 2);
            assert(c_in@ == allocated_n(old(self)@, 2)
                && p1@ == nth_alloc(old(self)@.slots, 0)
                && p2@ == nth_alloc(old(self)@.slots, 1)
                && call_ensures(f, (c_in, p1, p2), mid_out)
                && self@ == released(
                    released(mid_out@, nth_alloc(old(self)@.slots, 1)),
                    nth_alloc(old(self)@.slots, 0),
                ));
        }
    }

    /// Runs `f` with three freshly allocated handles, released when `f`
    /// returns.
    #[verifier::spinoff_prover]
    pub fn with_stack_alloc3<F: FnOnce(Context, Ptr, Ptr, Ptr) -> Context>(&mut self, f: F)
        requires
            old(self)@.slots.len() + 8 < isize::MAX,
            forall|c: Context, p1: Ptr, p2: Ptr, p3: Ptr|
                (c@ == allocated_n(old(self)@, 3) && p1@ == nth_alloc(old(self)@.slots, 0)
                    && p2@ == nth_alloc(old(self)@.slots, 1)
                    && p3@ == nth_alloc(old(self)@.slots, 2)) ==> call_requires(
                    f,
                    (c, p1, p2, p3),
                ),
        ensures
            exists|c: Context, p1: Ptr, p2: Ptr, p3: Ptr, mid: Context|
                {
                    &&& c@ == allocated_n(old(self)@, 3)
                    &&& p1@ == nth_alloc(old(self)@.slots, 0)
                    &&& p2@ == nth_alloc(old(self)@.slots, 1)
                    &&& p3@ == nth_alloc(old(self)@.slots, 2)
                    &&& #[trigger] call_ensures(f, (c, p1, p2, p3), mid)
                    &&& final(self)@ == released(
                        released(
                            released(mid@, nth_alloc(old(self)@.slots, 2)),
                            nth_alloc(old(self)@.slots, 1),
                        ),
                        nth_alloc(old(self)@.slots, 0),
                    )
                },
    {
        let (p1, p2, p3) = self.alloc_three();
        let c = self.take_ctx();
        let ghost c_in = c;
        let mut mid = f(c, p1, p2, p3);
        let ghost mid_out = mid;
        mid.release(&p3);
        mid.release(&p2);
        mid.release(&p1);
        self.put_ctx(mid);
        proof {
            lemma_allocated_n_unfold(old(self)@, 3);
            assert(c_in@ == allocated_n(old(self)@, 3)
                && call_ensures(f, (c_in, p1, p2, p3), mid_out)
                && self@ == released(
                    released(
                        released(mid_out@, nth_alloc(old(self)@.slots, 2)),
                        nth_alloc(old(self)@.slots, 1),
                    ),
                    nth_alloc(old(self)@.slots, 0),
                ));
        }
    }

    /// Runs `f` with four freshly allocated handles, released when `f`
    /// returns.
    #[verifier::spinoff_prover]
    pub fn with_stack_alloc4<F: FnOnce(Context, Ptr, Ptr, Ptr, Ptr) -> Context>(&mut self, f: F)
        requires
            old(self)@.slots.len() + 8 < isize::MAX,
            forall|c: Context, p1: Ptr, p2: Ptr, p3: Ptr, p4: Ptr|
                (c@ == allocated_n(old(self)@, 4) && p1@ == nth_alloc(old(self)@.slots, 0)
                    && p2@ == nth_alloc(old(self)@.slots, 1)
                    && p3@ == nth_alloc(old(self)@.slots, 2)
                    && p4@ == nth_alloc(old(self)@.slots, 3)) ==> call_requires(
                    f,
                    (c, p1, p2, p3, p4),
                ),
        ensures
            exists|c: Context, p1: Ptr, p2: Ptr, p3: Ptr, p4: Ptr, mid: Context|
                {
                    &&& c@ == allocated_n(old(self)@, 4)
                    &&& p1@ == nth_alloc(old(self)@.slots, 0)
                    &&& p2@ == nth_alloc(old(self)@.slots, 1)
                    &&& p3@ == nth_alloc(old(self)@.slots, 2)
                    &&& p4@ == nth_alloc(old(self)@.slots, 3)
                    &&& #[trigger] call_ensures(f, (c, p1, p2, p3, p4), mid)
                    &&& final(self)@ == released(
                        released(
                            released(
                                released(mid@, nth_alloc(old(self)@.slots, 3)),
                                nth_alloc(old(self)@.slots, 2),
                            ),
                            nth_alloc(old(self)@.slots, 1),
                        ),
                        nth_alloc(old(self)@.slots, 0),
                    )
                },
    {
        let (p1, p2, p3, p4) = self.alloc_four();
        let c = self.take_ctx();
        let ghost c_in = c;
        let mut mid = f(c, p1, p2, p3, p4);
        let ghost mid_out = mid;
        mid.release(&p4);
        mid.release(&p3);
        mid.release(&p2);
        mid.release(&p1);
        self.put_ctx(mid);
        proof {
            lemma_allocated_n_unfold(old(self)@, 4);
            assert(c_in@ == allocated_n(old(self)@, 4)
                && call_ensures(f, (c_in, p1, p2, p3, p4), mid_out)
                && self@ == released(
                    released(
                        released(
                            released(mid_out@, nth_alloc(old(self)@.slots, 3)),
                            nth_alloc(old(self)@.slots, 2),
                        ),
                        nth_alloc(old(self)@.slots, 1),
                    ),
                    nth_alloc(old(self)@.slots, 0),
                ));
        }
    }

    /// Runs `f` with five freshly allocated handles, released when `f`
    /// returns.
    #[verifier::spinoff_prover]
    pub fn with_stack_alloc5<F: FnOnce(Context, Ptr, Ptr, Ptr, Ptr, Ptr) -> Context>(
        &mut self,
        f: F,
    )
        requires
            old(self)@.slots.len() + 8 < isize::MAX,
            forall|c: Context, p1: Ptr, p2: Ptr, p3: Ptr, p4: Ptr, p5: Ptr|
                (c@ == allocated_n(old(self)@, 5) && p1@ == nth_alloc(old(self)@.slots, 0)
                    && p2@ == nth_alloc(old(self)@.slots, 1)
                    && p3@ == nth_alloc(old(self)@.slots, 2)
                    && p4@ == nth_alloc(old(self)@.slots, 3)
                    && p5@ == nth_alloc(old(self)@.slots, 4)) ==> call_requires(
                    f,
                    (c, p1, p2, p3, p4, p5),
                ),
        ensures
            exists|c: Context, p1: Ptr, p2: Ptr, p3: Ptr, p4: Ptr, p5: Ptr, mid: Context|
                {
                    &&& c@ == allocated_n(old(self)@, 5)
                    &&& p1@ == nth_alloc(old(self)@.slots, 0)
                    &&& p2@ == nth_alloc(old(self)@.slots, 1)
                    &&& p3@ == nth_alloc(old(self)@.slots, 2)
                    &&& p4@ == nth_alloc(old(self)@.slots, 3)
                    &&& p5@ == nth_alloc(old(self)@.slots, 4)
                    &&& #[trigger] call_ensures(f, (c, p1, p2, p3, p4, p5), mid)
                    &&& final(self)@ == released(
                        released(
                            released(
                                released(
                                    released(mid@, nth_alloc(old(self)@.slots, 4)),
                                    nth_alloc(old(self)@.slots, 3),
                                ),
                                nth_alloc(old(self)@.slots, 2),
                            ),
                            nth_alloc(old(self)@.slots, 1),
                        ),
                        nth_alloc(old(self)@.slots, 0),
                    )
                },
    {
        let (p1, p2, p3, p4, p5) = self.alloc_five();
        let c = self.take_ctx();
        let ghost c_in = c;
        let mut mid = f(c, p1, p2, p3, p4, p5);
        let ghost mid_out = mid;
        mid.release(&p5);
        mid.release(&p4);
        mid.release(&p3);
        mid.release(&p2);
        mid.release(&p1);
        self.put_ctx(mid);
        proof {
            lemma_allocated_n_unfold(old(self)@, 5);
            assert(c_in@ == allocated_n(old(self)@, 5)
                && call_ensures(f, (c_in, p1, p2, p3, p4, p5), mid_out)
                && self@ == released(
                    released(
                        released(
                            released(
                                released(mid_out@, nth_alloc(old(self)@.slots, 4)),
                                nth_alloc(old(self)@.slots, 3),
                            ),
                            nth_alloc(old(self)@.slots, 2),
                        ),
                        nth_alloc(old(self)@.slots, 1),
                    ),
                    nth_alloc(old(self)@.slots, 0),
                ));
        }
    }
}

/// Unfolds the first few successive-allocation states, tying each to the
/// one before it.
pub proof fn lemma_allocated_n_unfold(c: CtxView, n: int)
    requires
        0 <= n <= 5,
    ensures
        allocated_n(c, 0) == c,
        allocated_n(c, 1) == allocated(c),
        allocated_n(c, 2) == allocated(allocated(c)),
        allocated_n(c, 3) == allocated(allocated(allocated(c))),
        allocated_n(c, 4) == allocated(allocated(allocated(allocated(c)))),
        allocated_n(c, 5) == allocated(allocated(allocated(allocated(allocated(c))))),
        alloc_slots_n(c.slots, 0) == c.slots,
        alloc_slots_n(c.slots, 1) == alloc_slots(c.slots),
        alloc_slots_n(c.slots, 2) == alloc_slots(alloc_slots(c.slots)),
        alloc_slots_n(c.slots, 3) == alloc_slots(alloc_slots(alloc_slots(c.slots))),
        alloc_slots_n(c.slots, 4) == alloc_slots(alloc_slots(alloc_slots(alloc_slots(c.slots)))),
        alloc_slots_n(c.slots, 5) == alloc_slots(
            alloc_slots(alloc_slots(alloc_slots(alloc_slots(c.slots)))),
        ),
        allocated_n(c, 1).slots == alloc_slots_n(c.slots, 1),
        allocated_n(c, 2).slots == alloc_slots_n(c.slots, 2),
        allocated_n(c, 3).slots == alloc_slots_n(c.slots, 3),
        allocated_n(c, 4).slots == alloc_slots_n(c.slots, 4),
        allocated_n(c, 5).slots == alloc_slots_n(c.slots, 5),
{
    lemma_allocated_n_step(c, 1);
    lemma_allocated_n_step(c, 2);
    lemma_allocated_n_step(c, 3);
    lemma_allocated_n_step(c, 4);
    lemma_allocated_n_step(c, 5);
}

proof fn lemma_allocated_n_step(c: CtxView, k: int)
    ensures
        allocated_n(c, k).slots == alloc_slots_n(c.slots, k),
        allocated_n(c, k).code == c.code,
        allocated_n(c, k).addr == c.addr,
        allocated_n(c, k).known == c.known,
        c.slots.len() <= alloc_slots_n(c.slots, k).len() <= c.slots.len() + (if k >= 0 {
            k
        } else {
            0
        }),
    decreases (if k >= 0 { k } else { 0 }),
{
    if k > 0 {
        lemma_allocated_n_step(c, k - 1);
        lemma_first_free_props(alloc_slots_n(c.slots, k - 1));
    }
}

} // verus!
