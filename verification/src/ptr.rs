//! Cell handles: tokens naming a position on the conceptual tape.

use vstd::prelude::*;

verus! {

/// A handle to one cell of the conceptual tape.
///
/// The address is a signed integer; the stack allocator hands out dense
/// non-negative addresses, while negative addresses are tolerated by every
/// primitive but opaque to known-value tracking. Two handles are equal
/// exactly when they name the same address.
#[derive(Clone, Copy, PartialEq, Eq, Structural, Debug)]
pub struct Ptr {
    addr: isize,
}

impl View for Ptr {
    type V = int;

    closed spec fn view(&self) -> int {
        self.addr as int
    }
}

impl Ptr {
    /// Makes a handle for the given tape address.
    pub fn new(addr: isize) -> (p: Ptr)
        ensures
            p@ == addr as int,
    {
        Ptr { addr }
    }

    /// The tape address this handle names.
    pub fn as_isize(&self) -> (a: isize)
        ensures
            a as int == self@,
    {
        self.addr
    }
}

} // verus!
