//! The emission context: an append-only code buffer, the cursor position of
//! the tape machine's data pointer, the stack-discipline slot allocator, and
//! the known-value shadow tape used for peephole simplification.

use vstd::prelude::*;
use crate::ptr::Ptr;
use crate::slots::{first_free, allocated, released, alloc_slots, lemma_first_free_from_is};

verus! {

/// Abstract state of a [`Context`].
///
/// `code` is the program emitted so far; `addr` is where the data pointer of
/// the tape machine will be after executing `code`; `slots` records which
/// allocator slots are live; `known[a]` is `Some(v)` when the compiler can
/// prove that cell `a` holds `v` at this point of the emitted stream.
#[verifier::ext_equal]
pub struct CtxView {
    pub code: Seq<u8>,
    pub addr: int,
    pub slots: Seq<bool>,
    pub known: Seq<Option<u8>>,
}

/// The byte `<`: move the data pointer one cell left.
pub const OP_LEFT: u8 = 60;

/// The byte `>`: move the data pointer one cell right.
pub const OP_RIGHT: u8 = 62;

/// The byte `+`: increment the cell under the data pointer.
pub const OP_INC: u8 = 43;

/// The byte `-`: decrement the cell under the data pointer.
pub const OP_DEC: u8 = 45;

/// The byte `[`: if the cell under the pointer is zero, skip past the
/// matching `]`.
pub const OP_OPEN: u8 = 91;

/// The byte `]`: jump back to the matching `[`.
pub const OP_CLOSE: u8 = 93;

/// The byte `.`: write the cell under the pointer to the output.
pub const OP_PRINT: u8 = 46;

/// The byte `,`: read one byte of input into the cell under the pointer.
pub const OP_READ: u8 = 44;

/// `n` copies of the byte `b` (empty when `n <= 0`).
pub open spec fn rep(b: u8, n: int) -> Seq<u8> {
    Seq::new(if n >= 0 { n as nat } else { 0 }, |i: int| b)
}

/// The bytes that move the data pointer from `from` to `to`.
pub open spec fn seek_seq(from: int, to: int) -> Seq<u8> {
    if to >= from {
        rep(OP_RIGHT, to - from)
    } else {
        rep(OP_LEFT, from - to)
    }
}

/// The tracked value of cell `a`: `None` outside the tracked range.
pub open spec fn known_at(k: Seq<Option<u8>>, a: int) -> Option<u8> {
    if 0 <= a < k.len() {
        k[a]
    } else {
        None
    }
}

/// The shadow tape after recording that cell `a` holds `v`, growing the
/// tracked range as needed; negative addresses are not tracked.
pub open spec fn known_note(k: Seq<Option<u8>>, a: int, v: u8) -> Seq<Option<u8>> {
    if a < 0 {
        k
    } else {
        let n = if a + 1 > k.len() {
            a + 1
        } else {
            k.len() as int
        };
        Seq::new(n as nat, |i: int| if i == a {
            Some(v)
        } else if i < k.len() {
            k[i]
        } else {
            None
        })
    }
}

/// The context after emitting the bytes that move the cursor to `p`.
pub open spec fn seeked(c: CtxView, p: int) -> CtxView {
    CtxView { code: c.code + seek_seq(c.addr, p), addr: p, ..c }
}

/// The context after appending `bytes` to the program.
pub open spec fn emitted(c: CtxView, bytes: Seq<u8>) -> CtxView {
    CtxView { code: c.code + bytes, ..c }
}

/// The context after recording that cell `p` holds `v`.
pub open spec fn noted(c: CtxView, p: int, v: u8) -> CtxView {
    CtxView { known: known_note(c.known, p, v), ..c }
}

/// The context after dropping what is known of cell `p`.
pub open spec fn forgot_one(c: CtxView, p: int) -> CtxView {
    CtxView {
        known: if 0 <= p < c.known.len() {
            c.known.update(p, None)
        } else {
            c.known
        },
        ..c
    }
}

/// The context after dropping every known value.
pub open spec fn forgot_all(c: CtxView) -> CtxView {
    CtxView { known: Seq::new(c.known.len(), |i: int| None), ..c }
}

/// The code-emission engine.
///
/// All primitives append to the program buffer and keep `addr` equal to the
/// data-pointer position the tape machine reaches by executing the buffer.
pub struct Context {
    code: Vec<u8>,
    addr: isize,
    stack_slots: Vec<bool>,
    known_values: Vec<Option<u8>>,
}

impl View for Context {
    type V = CtxView;

    closed spec fn view(&self) -> CtxView {
        CtxView {
            code: self.code@,
            addr: self.addr as int,
            slots: self.stack_slots@,
            known: self.known_values@,
        }
    }
}

impl Context {
    /// A fresh context whose cursor starts at address 0.
    pub fn new() -> (c: Context)
        ensures
            c@ == (CtxView {
                code: Seq::<u8>::empty(),
                addr: 0,
                slots: Seq::<bool>::empty(),
                known: Seq::<Option<u8>>::empty(),
            }),
    {
        Self::with_addr(0)
    }

    /// A fresh context whose cursor starts at the given address.
    pub fn with_addr(addr: isize) -> (c: Context)
        ensures
            c@ == (CtxView {
                code: Seq::<u8>::empty(),
                addr: addr as int,
                slots: Seq::<bool>::empty(),
                known: Seq::<Option<u8>>::empty(),
            }),
    {
        let c = Context {
            code: Vec::new(),
            addr,
            stack_slots: Vec::new(),
            known_values: Vec::new(),
        };
        proof {
            assert(c@ =~= (CtxView {
                code: Seq::<u8>::empty(),
                addr: addr as int,
                slots: Seq::<bool>::empty(),
                known: Seq::<Option<u8>>::empty(),
            }));
        }
        c
    }

    /// Appends raw bytes to the emitted program.
    pub fn emit(&mut self, bytes: &[u8])
        ensures
            final(self)@ == emitted(old(self)@, bytes@),
            final(self)@.slots == old(self)@.slots,
    {
        self.code.extend_from_slice(bytes);
        proof {
            assert(self@ =~= emitted(old(self)@, bytes@));
        }
    }

    /// Appends one byte to the emitted program.
    pub(crate) fn emit_one(&mut self, b: u8)
        ensures
            final(self)@ == emitted(old(self)@, seq![b]),
            final(self)@.slots == old(self)@.slots,
    {
        self.code.push(b);
        proof {
            assert(self@.code =~= emitted(old(self)@, seq![b]).code);
            assert(self@ =~= emitted(old(self)@, seq![b]));
        }
    }

    /// The emitted program so far.
    pub fn code(&self) -> (r: &Vec<u8>)
        ensures
            r@ == self@.code,
    {
        &self.code
    }

    /// How many slots the allocator currently tracks.
    pub fn slots_len(&self) -> (r: usize)
        ensures
            r == self@.slots.len(),
    {
        self.stack_slots.len()
    }

    /// The cursor: where the data pointer stands after the emitted program.
    pub fn addr(&self) -> (a: isize)
        ensures
            a as int == self@.addr,
    {
        self.addr
    }

    /// Emits `>` or `<` repeatedly to move the cursor to `ptr`.
    /// Moving to the current address emits nothing.
    pub fn seek(&mut self, ptr: &Ptr)
        ensures
            final(self)@ == seeked(old(self)@, ptr@),
            final(self)@.slots == old(self)@.slots,
    {
        let target = ptr.as_isize();
        proof {
            assert(self@.code =~= old(self)@.code + rep(OP_RIGHT, 0));
            assert(self@.code =~= old(self)@.code + rep(OP_LEFT, 0));
        }
        if self.addr <= target {
            while self.addr < target
                invariant
                    old(self)@.addr <= self@.addr <= target as int,
                    target as int == ptr@,
                    self@.code == old(self)@.code + rep(OP_RIGHT, self@.addr - old(self)@.addr),
                    self@.slots == old(self)@.slots,
                    self@.known == old(self)@.known,
                decreases target - self.addr,
            {
                self.code.push(OP_RIGHT);
                self.addr = self.addr + 1;
                proof {
                    assert(self@.code =~= old(self)@.code + rep(
                        OP_RIGHT,
                        self@.addr - old(self)@.addr,
                    ));
                }
            }
        } else {
            while self.addr > target
                invariant
                    target as int <= self@.addr <= old(self)@.addr,
                    target as int == ptr@,
                    self@.code == old(self)@.code + rep(OP_LEFT, old(self)@.addr - self@.addr),
                    self@.slots == old(self)@.slots,
                    self@.known == old(self)@.known,
                decreases self.addr - target,
            {
                self.code.push(OP_LEFT);
                self.addr = self.addr - 1;
                proof {
                    assert(self@.code =~= old(self)@.code + rep(
                        OP_LEFT,
                        old(self)@.addr - self@.addr,
                    ));
                }
            }
        }
        proof {
            assert(self@.code =~= seeked(old(self)@, ptr@).code);
            assert(self@ =~= seeked(old(self)@, ptr@));
        }
    }

    /// What the compiler knows the cell at `ptr` to hold, if anything.
    pub fn value(&self, ptr: &Ptr) -> (r: Option<u8>)
        ensures
            r == known_at(self@.known, ptr@),
    {
        let a = ptr.as_isize();
        if a < 0 {
            return None;
        }
        let a = a as usize;
        if a < self.known_values.len() {
            self.known_values[a]
        } else {
            None
        }
    }

    /// Records that the cell at `ptr` holds `value` from this point of the
    /// emitted stream on. Negative addresses are not tracked.
    pub fn note(&mut self, ptr: &Ptr, value: u8)
        ensures
            final(self)@ == noted(old(self)@, ptr@, value),
            final(self)@.slots == old(self)@.slots,
    {
        let a = ptr.as_isize();
        if a < 0 {
            return ;
        }
        let a = a as usize;
        while a >= self.known_values.len()
            invariant
                a as int == ptr@,
                old(self)@.known.len() <= self@.known.len(),
                self@.known.len() <= a + 1 || self@.known.len() == old(self)@.known.len(),
                self@.known == old(self)@.known + Seq::new(
                    (self@.known.len() - old(self)@.known.len()) as nat,
                    |i: int| None::<u8>,
                ),
                self@.code == old(self)@.code,
                self@.addr == old(self)@.addr,
                self@.slots == old(self)@.slots,
            decreases a + 1 - self.known_values.len(),
        {
            self.known_values.push(None);
            proof {
                assert(self@.known =~= old(self)@.known + Seq::new(
                    (self@.known.len() - old(self)@.known.len()) as nat,
                    |i: int| None::<u8>,
                ));
            }
        }
        self.known_values[a] = Some(value);
        proof {
            assert(self@.known =~= known_note(old(self)@.known, ptr@, value));
            assert(self@ =~= noted(old(self)@, ptr@, value));
        }
    }

    /// Records that the cell at `ptr` holds the boolean `value` (0 or 1).
    pub fn note_bool(&mut self, ptr: &Ptr, value: bool)
        ensures
            final(self)@ == noted(old(self)@, ptr@, if value { 1u8 } else { 0u8 }),
            final(self)@.slots == old(self)@.slots,
    {
        self.note(ptr, if value { 1 } else { 0 });
    }

    /// Drops what is known of the cell at `ptr`.
    pub fn forget(&mut self, ptr: &Ptr)
        ensures
            final(self)@ == forgot_one(old(self)@, ptr@),
            final(self)@.slots == old(self)@.slots,
    {
        let a = ptr.as_isize();
        if a < 0 {
            return ;
        }
        let a = a as usize;
        if a < self.known_values.len() {
            self.known_values[a] = None;
        }
        proof {
            assert(self@ =~= forgot_one(old(self)@, ptr@));
        }
    }

    /// Drops every known value. Invoked when emission enters code whose
    /// execution is conditional on runtime data, since values established
    /// before a loop need not survive its body.
    pub fn forget_known_values(&mut self)
        ensures
            final(self)@ == forgot_all(old(self)@),
            final(self)@.slots == old(self)@.slots,
    {
        let n = self.known_values.len();
        let mut i: usize = 0;
        while i < n
            invariant
                n == self@.known.len(),
                n == old(self)@.known.len(),
                i <= n,
                forall|j: int| 0 <= j < i ==> self@.known[j] is None,
                forall|j: int| i <= j < n ==> self@.known[j] == old(self)@.known[j],
                self@.code == old(self)@.code,
                self@.addr == old(self)@.addr,
                self@.slots == old(self)@.slots,
            decreases n - i,
        {
            self.known_values[i] = None;
            i = i + 1;
        }
        proof {
            assert(self@.known =~= forgot_all(old(self)@).known);
            assert(self@ =~= forgot_all(old(self)@));
        }
    }

    /// Applies `f` to the tracked value of the cell at `ptr`, if any.
    pub fn map_known_value<F: FnOnce(u8) -> u8>(&mut self, ptr: &Ptr, f: F)
        requires
            forall|v: u8| known_at(old(self)@.known, ptr@) == Some(v) ==> call_requires(f, (v,)),
        ensures
            match known_at(old(self)@.known, ptr@) {
                Some(v) => exists|w: u8|
                    call_ensures(f, (v,), w) && final(self)@ == noted(old(self)@, ptr@, w),
                None => final(self)@ == old(self)@,
            },
    {
        let cur = self.value(ptr);
        match cur {
            Some(v) => {
                let w = f(v);
                self.note(ptr, w);
            },
            None => {},
        }
    }


    /// Reserves the lowest free slot, growing the slot vector when every
    /// slot is live, and returns a handle to its address.
    pub fn stack_alloc(&mut self) -> (p: Ptr)
        requires
            old(self)@.slots.len() < isize::MAX,
        ensures
            p@ == first_free(old(self)@.slots),
            final(self)@ == allocated(old(self)@),
            final(self)@.slots.len() <= old(self)@.slots.len() + 1,
            old(self)@.slots.len() <= final(self)@.slots.len(),
    {
        let n = self.stack_slots.len();
        let mut i: usize = 0;
        while i < n
            invariant
                n == self@.slots.len(),
                self@ == old(self)@,
                i <= n,
                n < isize::MAX,
                forall|j: int| 0 <= j < i ==> self@.slots[j],
            decreases n - i,
        {
            if !self.stack_slots[i] {
                proof {
                    lemma_first_free_from_is(self@.slots, 0, i as int);
                }
                self.stack_slots[i] = true;
                proof {
                    assert(self@ =~= allocated(old(self)@));
                }
                return Ptr::new(i as isize);
            }
            i = i + 1;
        }
        proof {
            lemma_first_free_from_is(self@.slots, 0, n as int);
        }
        self.stack_slots.push(true);
        proof {
            assert(self@.slots =~= alloc_slots(old(self)@.slots));
            assert(self@ =~= allocated(old(self)@));
        }
        Ptr::new(n as isize)
    }

    /// Returns the slot at `ptr` to the free pool; addresses the allocator
    /// never handed out are ignored.
    pub fn release(&mut self, ptr: &Ptr)
        ensures
            final(self)@ == released(old(self)@, ptr@),
            final(self)@.slots.len() == old(self)@.slots.len(),
    {
        let a = ptr.as_isize();
        if a >= 0 {
            let a = a as usize;
            if a < self.stack_slots.len() {
                self.stack_slots[a] = false;
            }
        }
        proof {
            assert(self@ =~= released(old(self)@, ptr@));
        }
    }

    /// Moves the whole context out, leaving a fresh one behind.
    pub(crate) fn take_ctx(&mut self) -> (c: Context)
        ensures
            c@ == old(self)@,
    {
        let mut tmp = Context::with_addr(0);
        core::mem::swap(self, &mut tmp);
        tmp
    }

    /// Moves a context back in.
    pub(crate) fn put_ctx(&mut self, c: Context)
        ensures
            final(self)@ == c@,
    {
        *self = c;
    }
}

} // verus!
