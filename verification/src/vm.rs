//! The reference interpreter for the emitted instruction stream: a fixed
//! tape of 30,000 wrap-around byte cells, a data pointer confined to it by
//! wrapping at both ends, and the eight single-byte operations.
//! Unrecognized bytes are ignored; a step limit bounds runaway loops.

use vstd::prelude::*;
use crate::cells::{byte_add, byte_sub};
use crate::context::{OP_CLOSE, OP_DEC, OP_INC, OP_LEFT, OP_OPEN, OP_PRINT, OP_READ, OP_RIGHT};

verus! {

/// Number of cells on the tape.
pub const MEM_SIZE: usize = 30000;

/// Execution aborts after this many operations.
pub const MAX_STEPS: usize = 1000000;

/// Abstract state of the interpreter.
#[verifier::ext_equal]
pub struct VmView {
    pub mem: Seq<u8>,
    pub stack: Seq<int>,
    pub ip: int,
    pub dp: int,
    pub ops: int,
}

/// How a run can fail.
#[derive(Clone, Copy, PartialEq, Eq, Structural, Debug)]
pub enum VmError {
    /// A `]` with no `[` outstanding.
    UnmatchedClose,
    /// A `[` whose matching `]` is missing.
    UnmatchedOpen,
    /// The step limit was exhausted.
    StepLimit,
    /// The byte I/O operations are not implemented by this interpreter.
    UnsupportedOp,
}

/// A machine state the interpreter maintains: the full tape is allocated
/// and the data pointer is on it.
pub open spec fn vm_wf(v: VmView) -> bool {
    &&& v.mem.len() == MEM_SIZE
    &&& 0 <= v.dp < MEM_SIZE
    &&& 0 <= v.ip
    &&& 0 <= v.ops
}

/// The position just past the `]` matching an already-open bracket, given
/// `depth` brackets outstanding and a scan starting at `ip`; `None` when
/// the code ends first.
pub open spec fn skip_loop(code: Seq<u8>, ip: int, depth: int) -> Option<int>
    decreases code.len() - ip,
{
    if depth <= 0 {
        Some(ip)
    } else if ip < 0 || ip >= code.len() {
        None
    } else if code[ip] == OP_OPEN {
        skip_loop(code, ip + 1, depth + 1)
    } else if code[ip] == OP_CLOSE {
        skip_loop(code, ip + 1, depth - 1)
    } else {
        skip_loop(code, ip + 1, depth)
    }
}

/// One operation of the machine, with `0 <= s.ip < code.len()`.
pub open spec fn vm_step(code: Seq<u8>, s: VmView) -> Result<VmView, VmError> {
    let op = code[s.ip];
    if op == OP_LEFT {
        Ok(VmView { dp: (s.dp + MEM_SIZE - 1) % (MEM_SIZE as int), ip: s.ip + 1, ops: s.ops + 1, ..s })
    } else if op == OP_RIGHT {
        Ok(VmView { dp: (s.dp + 1) % (MEM_SIZE as int), ip: s.ip + 1, ops: s.ops + 1, ..s })
    } else if op == OP_INC {
        Ok(VmView {
            mem: s.mem.update(s.dp, byte_add(s.mem[s.dp], 1)),
            ip: s.ip + 1,
            ops: s.ops + 1,
            ..s
        })
    } else if op == OP_DEC {
        Ok(VmView {
            mem: s.mem.update(s.dp, byte_sub(s.mem[s.dp], 1)),
            ip: s.ip + 1,
            ops: s.ops + 1,
            ..s
        })
    } else if op == OP_OPEN {
        if s.mem[s.dp] != 0 {
            Ok(VmView { stack: s.stack.push(s.ip), ip: s.ip + 1, ops: s.ops + 1, ..s })
        } else {
            match skip_loop(code, s.ip + 1, 1) {
                Some(j) => Ok(VmView { ip: j, ops: s.ops + 1, ..s }),
                None => Err(VmError::UnmatchedOpen),
            }
        }
    } else if op == OP_CLOSE {
        if s.stack.len() == 0 {
            Err(VmError::UnmatchedClose)
        } else {
            Ok(VmView { ip: s.stack.last(), stack: s.stack.drop_last(), ops: s.ops + 1, ..s })
        }
    } else if op == OP_PRINT || op == OP_READ {
        Err(VmError::UnsupportedOp)
    } else {
        Ok(VmView { ip: s.ip + 1, ops: s.ops + 1, ..s })
    }
}

/// Runs the machine until the instruction pointer leaves the code, an
/// error occurs, or the step budget runs out.
pub open spec fn vm_run_spec(code: Seq<u8>, s: VmView) -> Result<VmView, VmError>
    decreases MAX_STEPS + 1 - s.ops,
{
    if s.ip < 0 || s.ip >= code.len() {
        Ok(s)
    } else if s.ops >= MAX_STEPS {
        Err(VmError::StepLimit)
    } else if s.ops < 0 {
        Err(VmError::StepLimit)
    } else {
        match vm_step(code, s) {
            Ok(s2) => if s2.ops == s.ops + 1 {
                vm_run_spec(code, s2)
            } else {
                Err(VmError::StepLimit)
            },
            Err(e) => Err(e),
        }
    }
}

/// The state a run starts from: the instruction pointer and the step
/// counter reset, everything else kept.
pub open spec fn vm_reset(v: VmView) -> VmView {
    VmView { ip: 0, ops: 0, ..v }
}

/// The reference interpreter.
pub struct VM {
    mem: Vec<u8>,
    loop_stack: Vec<usize>,
    ip: usize,
    dp: usize,
    op_count: usize,
}

impl View for VM {
    type V = VmView;

    closed spec fn view(&self) -> VmView {
        VmView {
            mem: self.mem@,
            stack: self.loop_stack@.map_values(|v: usize| v as int),
            ip: self.ip as int,
            dp: self.dp as int,
            ops: self.op_count as int,
        }
    }
}

impl VM {
    /// A machine with an all-zero tape and the data pointer at cell 0.
    pub fn new() -> (vm: VM)
        ensures
            vm@ == (VmView {
                mem: Seq::new(MEM_SIZE as nat, |i: int| 0u8),
                stack: Seq::<int>::empty(),
                ip: 0,
                dp: 0,
                ops: 0,
            }),
            vm_wf(vm@),
    {
        let vm = VM {
            mem: vec![0u8; MEM_SIZE],
            loop_stack: Vec::new(),
            ip: 0,
            dp: 0,
            op_count: 0,
        };
        proof {
            assert(vm@.mem =~= Seq::new(MEM_SIZE as nat, |i: int| 0u8));
            assert(vm@.stack =~= Seq::<int>::empty());
            assert(vm@ =~= (VmView {
                mem: Seq::new(MEM_SIZE as nat, |i: int| 0u8),
                stack: Seq::<int>::empty(),
                ip: 0,
                dp: 0,
                ops: 0,
            }));
        }
        vm
    }

    /// The tape.
    pub fn mem(&self) -> (r: &Vec<u8>)
        ensures
            r@ == self@.mem,
    {
        &self.mem
    }

    /// The tape, writable.
    pub fn mem_mut(&mut self) -> (r: &mut Vec<u8>)
        ensures
            final(self)@ == (VmView { mem: final(r)@, ..old(self)@ }),
    {
        &mut self.mem
    }

    /// The data pointer.
    pub fn dp(&self) -> (r: usize)
        ensures
            r as int == self@.dp,
    {
        self.dp
    }

    /// Executes `code` from its start against the current tape: the result
    /// is exactly what the step-by-step machine semantics give. The tape
    /// and data pointer persist across runs; the instruction pointer and
    /// the step counter reset.
    pub fn run(&mut self, code: &[u8]) -> (r: Result<(), VmError>)
        requires
            vm_wf(old(self)@),
        ensures
            vm_wf(final(self)@),
            final(self)@.mem.len() == old(self)@.mem.len(),
            match r {
                Ok(()) => vm_run_spec(code@, vm_reset(old(self)@)) == Ok::<VmView, VmError>(
                    final(self)@,
                ),
                Err(e) => vm_run_spec(code@, vm_reset(old(self)@)) == Err::<VmView, VmError>(e),
            },
    {
        self.ip = 0;
        self.op_count = 0;
        proof {
            assert(self@ =~= vm_reset(old(self)@));
        }
        let ghost start = self@;
        let n = code.len();
        while self.ip < n
            invariant
                vm_wf(self@),
                self@.mem.len() == MEM_SIZE,
                self@.ops <= MAX_STEPS,
                n == code@.len(),
                self@.mem.len() == old(self)@.mem.len(),
                start == vm_reset(old(self)@),
                vm_run_spec(code@, self@) == vm_run_spec(code@, start),
            decreases MAX_STEPS + 1 - self@.ops,
        {
            if self.op_count >= MAX_STEPS {
                proof {
                    assert(vm_run_spec(code@, self@) == Err::<VmView, VmError>(
                        VmError::StepLimit,
                    ));
                }
                return Err(VmError::StepLimit);
            }
            let ghost pre = self@;
            let op = code[self.ip];
            if op == OP_LEFT {
                self.left();
            } else if op == OP_RIGHT {
                self.right();
            } else if op == OP_INC {
                self.increment();
            } else if op == OP_DEC {
                self.decrement();
            } else if op == OP_OPEN {
                let ok = self.loop_start(code);
                if !ok {
                    proof {
                        assert(vm_run_spec(code@, pre) == Err::<VmView, VmError>(
                            VmError::UnmatchedOpen,
                        ));
                    }
                    return Err(VmError::UnmatchedOpen);
                }
            } else if op == OP_CLOSE {
                let ok = self.loop_end();
                if !ok {
                    proof {
                        assert(vm_run_spec(code@, pre) == Err::<VmView, VmError>(
                            VmError::UnmatchedClose,
                        ));
                    }
                    return Err(VmError::UnmatchedClose);
                }
            } else if op == OP_PRINT || op == OP_READ {
                proof {
                    assert(vm_run_spec(code@, pre) == Err::<VmView, VmError>(
                        VmError::UnsupportedOp,
                    ));
                }
                return Err(VmError::UnsupportedOp);
            } else {
                self.ip = self.ip + 1;
            }
            self.op_count = self.op_count + 1;
            proof {
                assert(self@ =~= match vm_step(code@, pre) {
                    Ok(s2) => s2,
                    Err(e) => self@,
                });
                assert(vm_run_spec(code@, self@) == vm_run_spec(code@, pre));
            }
        }
        Ok(())
    }

    fn left(&mut self)
        requires
            vm_wf(old(self)@),
            old(self)@.ip < usize::MAX,
        ensures
            final(self)@ == (VmView {
                dp: (old(self)@.dp + MEM_SIZE - 1) % (MEM_SIZE as int),
                ip: old(self)@.ip + 1,
                ..old(self)@
            }),
    {
        self.dp = self.dp + MEM_SIZE;
        self.dp = self.dp - 1;
        self.dp = self.dp % MEM_SIZE;
        self.ip = self.ip + 1;
        proof {
            assert(self@ =~= (VmView {
                dp: (old(self)@.dp + MEM_SIZE - 1) % (MEM_SIZE as int),
                ip: old(self)@.ip + 1,
                ..old(self)@
            }));
        }
    }

    fn right(&mut self)
        requires
            vm_wf(old(self)@),
            old(self)@.ip < usize::MAX,
        ensures
            final(self)@ == (VmView {
                dp: (old(self)@.dp + 1) % (MEM_SIZE as int),
                ip: old(self)@.ip + 1,
                ..old(self)@
            }),
    {
        self.dp = self.dp + 1;
        self.dp = self.dp % MEM_SIZE;
        self.ip = self.ip + 1;
        proof {
            assert(self@ =~= (VmView {
                dp: (old(self)@.dp + 1) % (MEM_SIZE as int),
                ip: old(self)@.ip + 1,
                ..old(self)@
            }));
        }
    }

    fn increment(&mut self)
        requires
            vm_wf(old(self)@),
            old(self)@.ip < usize::MAX,
        ensures
            final(self)@ == (VmView {
                mem: old(self)@.mem.update(old(self)@.dp, byte_add(old(self)@.mem[old(self)@.dp], 1)),
                ip: old(self)@.ip + 1,
                ..old(self)@
            }),
    {
        let cell = self.mem[self.dp];
        self.mem[self.dp] = cell.wrapping_add(1);
        self.ip = self.ip + 1;
        proof {
            assert(self@ =~= (VmView {
                mem: old(self)@.mem.update(old(self)@.dp, byte_add(old(self)@.mem[old(self)@.dp], 1)),
                ip: old(self)@.ip + 1,
                ..old(self)@
            }));
        }
    }

    fn decrement(&mut self)
        requires
            vm_wf(old(self)@),
            old(self)@.ip < usize::MAX,
        ensures
            final(self)@ == (VmView {
                mem: old(self)@.mem.update(old(self)@.dp, byte_sub(old(self)@.mem[old(self)@.dp], 1)),
                ip: old(self)@.ip + 1,
                ..old(self)@
            }),
    {
        let cell = self.mem[self.dp];
        self.mem[self.dp] = cell.wrapping_sub(1);
        self.ip = self.ip + 1;
        proof {
            assert(self@ =~= (VmView {
                mem: old(self)@.mem.update(old(self)@.dp, byte_sub(old(self)@.mem[old(self)@.dp], 1)),
                ip: old(self)@.ip + 1,
                ..old(self)@
            }));
        }
    }

    /// Handles `[`: enter the loop when the cell is non-zero, else scan
    /// past the matching `]`. Returns false when that bracket is missing.
    fn loop_start(&mut self, code: &[u8]) -> (ok: bool)
        requires
            vm_wf(old(self)@),
            0 <= old(self)@.ip < code@.len(),
            code@[old(self)@.ip] == OP_OPEN,
        ensures
            old(self)@.mem[old(self)@.dp] != 0 ==> ok && final(self)@ == (VmView {
                stack: old(self)@.stack.push(old(self)@.ip),
                ip: old(self)@.ip + 1,
                ..old(self)@
            }),
            old(self)@.mem[old(self)@.dp] == 0 ==> match skip_loop(code@, old(self)@.ip + 1, 1) {
                Some(j) => ok && final(self)@ == (VmView { ip: j, ..old(self)@ }),
                None => !ok && final(self)@ == old(self)@,
            },
    {
        let n = code.len();
        let cell = self.mem[self.dp];
        if cell != 0 {
            self.loop_stack.push(self.ip);
            self.ip = self.ip + 1;
            proof {
                assert(self@.stack =~= old(self)@.stack.push(old(self)@.ip));
                assert(self@ =~= (VmView {
                    stack: old(self)@.stack.push(old(self)@.ip),
                    ip: old(self)@.ip + 1,
                    ..old(self)@
                }));
            }
            return true;
        }
        let mut depth: usize = 1;
        let mut j = self.ip + 1;
        while depth > 0
            invariant
                self@ == old(self)@,
                old(self)@.mem[old(self)@.dp] == 0,
                vm_wf(old(self)@),
                0 <= old(self)@.ip < code@.len(),
                n == code@.len(),
                self@.ip + 1 <= j <= code@.len(),
                depth <= j,
                skip_loop(code@, self@.ip + 1, 1) == skip_loop(code@, j as int, depth as int),
            decreases code@.len() - j, depth,
        {
            if j >= n {
                proof {
                    assert(skip_loop(code@, j as int, depth as int) is None);
                }
                return false;
            }
            let b = code[j];
            if b == OP_OPEN {
                depth = depth + 1;
            } else if b == OP_CLOSE {
                depth = depth - 1;
            }
            j = j + 1;
        }
        self.ip = j;
        proof {
            assert(self@ =~= (VmView { ip: j as int, ..old(self)@ }));
        }
        true
    }

    /// Handles `]`: jump back to the position of the `[` that opened the
    /// loop. Returns false when no loop is open.
    fn loop_end(&mut self) -> (ok: bool)
        ensures
            old(self)@.stack.len() == 0 ==> !ok && final(self)@ == old(self)@,
            old(self)@.stack.len() > 0 ==> ok && final(self)@ == (VmView {
                ip: old(self)@.stack.last(),
                stack: old(self)@.stack.drop_last(),
                ..old(self)@
            }),
    {
        match self.loop_stack.pop() {
            Some(top) => {
                self.ip = top;
                proof {
                    assert(self@.stack =~= old(self)@.stack.drop_last());
                    assert(self@ =~= (VmView {
                        ip: old(self)@.stack.last(),
                        stack: old(self)@.stack.drop_last(),
                        ..old(self)@
                    }));
                }
                true
            },
            None => {
                proof {
                    assert(self@ =~= old(self)@);
                }
                false
            },
        }
    }
}

} // verus!
