//! Single-cell primitives: clear, set, increment, decrement, byte I/O.
//!
//! Each operation seeks to its cell, emits a constant-length byte sequence,
//! and updates the known-value shadow to describe the cell afterwards.

use vstd::prelude::*;
use crate::context::{
    Context, CtxView, OP_CLOSE, OP_DEC, OP_INC, OP_OPEN, OP_PRINT, OP_READ, emitted, forgot_one,
    known_at, noted, rep, seeked,
};
use crate::ptr::Ptr;

verus! {

/// Byte addition with wrap-around.
pub open spec fn byte_add(v: u8, n: u8) -> u8 {
    ((v + n) % 256) as u8
}

/// Byte subtraction with wrap-around.
pub open spec fn byte_sub(v: u8, n: u8) -> u8 {
    ((v - n + 256) % 256) as u8
}

/// The context after the tracked value of cell `p`, if any, grows by `n`.
pub open spec fn known_add(c: CtxView, p: int, n: u8) -> CtxView {
    match known_at(c.known, p) {
        Some(v) => CtxView { known: c.known.update(p, Some(byte_add(v, n))), ..c },
        None => c,
    }
}

/// The context after the tracked value of cell `p`, if any, shrinks by `n`.
pub open spec fn known_sub(c: CtxView, p: int, n: u8) -> CtxView {
    match known_at(c.known, p) {
        Some(v) => CtxView { known: c.known.update(p, Some(byte_sub(v, n))), ..c },
        None => c,
    }
}

/// The context after `increment(p)`.
pub open spec fn inc_spec(c: CtxView, p: int) -> CtxView {
    known_add(emitted(seeked(c, p), seq![OP_INC]), p, 1)
}

/// The context after `increment_by(p, n)`.
pub open spec fn inc_by_spec(c: CtxView, p: int, n: u8) -> CtxView {
    known_add(emitted(seeked(c, p), rep(OP_INC, n as int)), p, n)
}

/// The context after `decrement(p)`.
pub open spec fn dec_spec(c: CtxView, p: int) -> CtxView {
    known_sub(emitted(seeked(c, p), seq![OP_DEC]), p, 1)
}

/// The context after `decrement_by(p, n)`.
pub open spec fn dec_by_spec(c: CtxView, p: int, n: u8) -> CtxView {
    known_sub(emitted(seeked(c, p), rep(OP_DEC, n as int)), p, n)
}

/// The context after `clear(p)`: nothing when the cell is known to be zero
/// already, else `[-]` at the cell.
pub open spec fn clear_spec(c: CtxView, p: int) -> CtxView {
    if known_at(c.known, p) == Some(0u8) {
        c
    } else {
        noted(emitted(seeked(c, p), seq![OP_OPEN, OP_DEC, OP_CLOSE]), p, 0)
    }
}

/// The context after `set(p, v)`: nothing when the cell is known to hold
/// `v` already, else a clear followed by `v` increments.
pub open spec fn set_spec(c: CtxView, p: int, v: u8) -> CtxView {
    if known_at(c.known, p) == Some(v) {
        c
    } else {
        inc_by_spec(clear_spec(seeked(c, p), p), p, v)
    }
}

/// The context after `set_bool(p, b)`: a single `+` or `-` when the cell is
/// known to hold the other boolean, else a full `set`.
pub open spec fn set_bool_spec(c: CtxView, p: int, b: bool) -> CtxView {
    if known_at(c.known, p) == Some(0u8) && b {
        inc_spec(c, p)
    } else if known_at(c.known, p) == Some(1u8) && !b {
        dec_spec(c, p)
    } else {
        set_spec(c, p, if b {
            1u8
        } else {
            0u8
        })
    }
}

/// The context after `print(p)`.
pub open spec fn print_spec(c: CtxView, p: int) -> CtxView {
    emitted(seeked(c, p), seq![OP_PRINT])
}

/// The context after `read(p)`: the cell's value afterwards depends on the
/// input, so it is forgotten.
pub open spec fn read_spec(c: CtxView, p: int) -> CtxView {
    emitted(forgot_one(seeked(c, p), p), seq![OP_READ])
}

impl Context {
    /// Emits `+` at the cell; a tracked value grows by one, wrapping.
    pub fn increment(&mut self, ptr: &Ptr)
        ensures
            final(self)@ == inc_spec(old(self)@, ptr@),
            final(self)@.slots == old(self)@.slots,
    {
        self.seek(ptr);
        self.emit_one(OP_INC);
        let cur = self.value(ptr);
        match cur {
            Some(v) => {
                self.note(ptr, v.wrapping_add(1));
                proof {
                    assert(self@.known =~= inc_spec(old(self)@, ptr@).known);
                }
            },
            None => {},
        }
        proof {
            assert(self@ =~= inc_spec(old(self)@, ptr@));
        }
    }

    /// Emits `amount` copies of `+` at the cell; a tracked value grows by
    /// `amount`, wrapping.
    pub fn increment_by(&mut self, ptr: &Ptr, amount: u8)
        ensures
            final(self)@ == inc_by_spec(old(self)@, ptr@, amount),
            final(self)@.slots == old(self)@.slots,
    {
        self.seek(ptr);
        let ghost mid = self@;
        let mut i: u8 = 0;
        while i < amount
            invariant
                i <= amount,
                self@.code == mid.code + rep(OP_INC, i as int),
                self@.addr == mid.addr,
                self@.slots == mid.slots,
                self@.known == mid.known,
            decreases amount - i,
        {
            self.emit_one(OP_INC);
            i = i + 1;
            proof {
                assert(self@.code =~= mid.code + rep(OP_INC, i as int));
            }
        }
        let cur = self.value(ptr);
        match cur {
            Some(v) => {
                self.note(ptr, v.wrapping_add(amount));
                proof {
                    assert(self@.known =~= inc_by_spec(old(self)@, ptr@, amount).known);
                }
            },
            None => {},
        }
        proof {
            assert(self@ =~= inc_by_spec(old(self)@, ptr@, amount));
        }
    }

    /// Emits `-` at the cell; a tracked value shrinks by one, wrapping.
    pub fn decrement(&mut self, ptr: &Ptr)
        ensures
            final(self)@ == dec_spec(old(self)@, ptr@),
            final(self)@.slots == old(self)@.slots,
    {
        self.seek(ptr);
        self.emit_one(OP_DEC);
        let cur = self.value(ptr);
        match cur {
            Some(v) => {
                self.note(ptr, v.wrapping_sub(1));
                proof {
                    assert(self@.known =~= dec_spec(old(self)@, ptr@).known);
                }
            },
            None => {},
        }
        proof {
            assert(self@ =~= dec_spec(old(self)@, ptr@));
        }
    }

    /// Emits `amount` copies of `-` at the cell; a tracked value shrinks by
    /// `amount`, wrapping.
    pub fn decrement_by(&mut self, ptr: &Ptr, amount: u8)
        ensures
            final(self)@ == dec_by_spec(old(self)@, ptr@, amount),
            final(self)@.slots == old(self)@.slots,
    {
        self.seek(ptr);
        let ghost mid = self@;
        let mut i: u8 = 0;
        while i < amount
            invariant
                i <= amount,
                self@.code == mid.code + rep(OP_DEC, i as int),
                self@.addr == mid.addr,
                self@.slots == mid.slots,
                self@.known == mid.known,
            decreases amount - i,
        {
            self.emit_one(OP_DEC);
            i = i + 1;
            proof {
                assert(self@.code =~= mid.code + rep(OP_DEC, i as int));
            }
        }
        let cur = self.value(ptr);
        match cur {
            Some(v) => {
                self.note(ptr, v.wrapping_sub(amount));
                proof {
                    assert(self@.known =~= dec_by_spec(old(self)@, ptr@, amount).known);
                }
            },
            None => {},
        }
        proof {
            assert(self@ =~= dec_by_spec(old(self)@, ptr@, amount));
        }
    }

    /// Zeroes the cell with `[-]`, skipping the emission when the cell is
    /// already known to be zero.
    pub fn clear(&mut self, ptr: &Ptr)
        ensures
            final(self)@ == clear_spec(old(self)@, ptr@),
            final(self)@.slots == old(self)@.slots,
    {
        let cur = self.value(ptr);
        match cur {
            Some(0u8) => {
                return ;
            },
            _ => {},
        }
        self.seek(ptr);
        self.emit_one(OP_OPEN);
        self.emit_one(OP_DEC);
        self.emit_one(OP_CLOSE);
        self.note(ptr, 0);
        proof {
            assert(self@.code =~= clear_spec(old(self)@, ptr@).code);
            assert(self@ =~= clear_spec(old(self)@, ptr@));
        }
    }

    /// Writes `value` into the cell: clear, then `value` increments; skipped
    /// when the cell is already known to hold `value`.
    pub fn set(&mut self, ptr: &Ptr, value: u8)
        ensures
            final(self)@ == set_spec(old(self)@, ptr@, value),
            final(self)@.slots == old(self)@.slots,
    {
        let cur = self.value(ptr);
        match cur {
            Some(v) => {
                if v == value {
                    return ;
                }
            },
            None => {},
        }
        self.seek(ptr);
        self.clear(ptr);
        self.increment_by(ptr, value);
        proof {
            assert(self@ =~= set_spec(old(self)@, ptr@, value));
        }
    }

    /// Writes a boolean into the cell; flipping between the known booleans
    /// 0 and 1 costs a single byte instead of a clear-and-set.
    pub fn set_bool(&mut self, ptr: &Ptr, value: bool)
        ensures
            final(self)@ == set_bool_spec(old(self)@, ptr@, value),
            final(self)@.slots == old(self)@.slots,
    {
        let cur = self.value(ptr);
        match cur {
            Some(0u8) if value => self.increment(ptr),
            Some(1u8) if !value => self.decrement(ptr),
            _ => self.set(ptr, if value {
                1
            } else {
                0
            }),
        }
    }

    /// Emits `.`: writes the cell to the output when the program runs.
    pub fn print(&mut self, ptr: &Ptr)
        ensures
            final(self)@ == print_spec(old(self)@, ptr@),
            final(self)@.slots == old(self)@.slots,
    {
        self.seek(ptr);
        self.emit_one(OP_PRINT);
        proof {
            assert(self@ =~= print_spec(old(self)@, ptr@));
        }
    }

    /// Emits `,`: reads one input byte into the cell when the program runs,
    /// so whatever was known of the cell is forgotten.
    pub fn read(&mut self, ptr: &Ptr)
        ensures
            final(self)@ == read_spec(old(self)@, ptr@),
            final(self)@.slots == old(self)@.slots,
    {
        self.seek(ptr);
        self.forget(ptr);
        self.emit_one(OP_READ);
        proof {
            assert(self@ =~= read_spec(old(self)@, ptr@));
        }
    }
}

} // verus!
