//! Ties the emission engine to the reference interpreter: executing the
//! code that the straight-line single-cell primitives emit leaves the tape
//! exactly as the known-value shadow records it.

use vstd::prelude::*;
use crate::cells::{byte_add, set_spec};
use crate::context::{
    CtxView, OP_CLOSE, OP_DEC, OP_INC, OP_OPEN, OP_RIGHT, known_at, rep, seek_seq,
};
use crate::vm::{MAX_STEPS, MEM_SIZE, VmView, skip_loop, vm_run_spec, vm_step, vm_wf};

verus! {

/// A fresh emission context: nothing emitted, cursor at zero, nothing
/// known, no live slots.
pub open spec fn fresh_ctx() -> CtxView {
    CtxView {
        code: Seq::<u8>::empty(),
        addr: 0,
        slots: Seq::<bool>::empty(),
        known: Seq::<Option<u8>>::empty(),
    }
}

/// A fresh machine: an all-zero tape, the data pointer at cell zero.
pub open spec fn fresh_vm() -> VmView {
    VmView {
        mem: Seq::new(MEM_SIZE as nat, |i: int| 0u8),
        stack: Seq::<int>::empty(),
        ip: 0,
        dp: 0,
        ops: 0,
    }
}

/// Running a stretch of `>` bytes advances the data pointer one cell per
/// byte, leaving the tape untouched.
#[verifier::rlimit(100)]
#[verifier::spinoff_prover]
pub proof fn lemma_run_rights(code: Seq<u8>, s: VmView, k: int)
    requires
        vm_wf(s),
        s.ip <= k <= code.len(),
        forall|j: int| s.ip <= j < k ==> code[j] == OP_RIGHT,
        s.ops + (k - s.ip) <= MAX_STEPS,
    ensures
        vm_run_spec(code, s) == vm_run_spec(
            code,
            VmView {
                dp: (s.dp + (k - s.ip)) % (MEM_SIZE as int),
                ip: k,
                ops: s.ops + (k - s.ip),
                ..s
            },
        ),
    decreases k - s.ip,
{
    if s.ip == k {
        assert(VmView {
            dp: (s.dp + 0) % (MEM_SIZE as int),
            ip: k,
            ops: s.ops + 0,
            ..s
        } =~= s);
    } else {
        let s2 = VmView { dp: (s.dp + 1) % (MEM_SIZE as int), ip: s.ip + 1, ops: s.ops + 1, ..s };
        assert(vm_step(code, s) == Ok::<VmView, crate::vm::VmError>(s2));
        assert(vm_run_spec(code, s) == vm_run_spec(code, s2));
        lemma_run_rights(code, s2, k);
        assert(VmView {
            dp: (s2.dp + (k - s2.ip)) % (MEM_SIZE as int),
            ip: k,
            ops: s2.ops + (k - s2.ip),
            ..s2
        } =~= (VmView {
            dp: (s.dp + (k - s.ip)) % (MEM_SIZE as int),
            ip: k,
            ops: s.ops + (k - s.ip),
            ..s
        }));
    }
}

/// Running a stretch of `+` bytes adds one per byte to the cell under the
/// pointer, wrapping, and moves nothing.
#[verifier::rlimit(100)]
#[verifier::spinoff_prover]
pub proof fn lemma_run_incs(code: Seq<u8>, s: VmView, k: int)
    requires
        vm_wf(s),
        s.ip <= k <= code.len(),
        forall|j: int| s.ip <= j < k ==> code[j] == OP_INC,
        s.ops + (k - s.ip) <= MAX_STEPS,
    ensures
        vm_run_spec(code, s) == vm_run_spec(
            code,
            VmView {
                mem: s.mem.update(s.dp, byte_add(s.mem[s.dp], ((k - s.ip) % 256) as u8)),
                ip: k,
                ops: s.ops + (k - s.ip),
                ..s
            },
        ),
    decreases k - s.ip,
{
    if s.ip == k {
        assert(s.mem.update(s.dp, byte_add(s.mem[s.dp], 0)) =~= s.mem);
        assert(VmView {
            mem: s.mem.update(s.dp, byte_add(s.mem[s.dp], 0)),
            ip: k,
            ops: s.ops + 0,
            ..s
        } =~= s);
    } else {
        let s2 = VmView {
            mem: s.mem.update(s.dp, byte_add(s.mem[s.dp], 1)),
            ip: s.ip + 1,
            ops: s.ops + 1,
            ..s
        };
        assert(vm_step(code, s) == Ok::<VmView, crate::vm::VmError>(s2));
        assert(vm_run_spec(code, s) == vm_run_spec(code, s2));
        lemma_run_incs(code, s2, k);
        assert(s2.mem.update(s2.dp, byte_add(s2.mem[s2.dp], ((k - s2.ip) % 256) as u8)) =~= s.mem.update(
            s.dp,
            byte_add(s.mem[s.dp], ((k - s.ip) % 256) as u8),
        ));
        assert(VmView {
            mem: s2.mem.update(s2.dp, byte_add(s2.mem[s2.dp], ((k - s2.ip) % 256) as u8)),
            ip: k,
            ops: s2.ops + (k - s2.ip),
            ..s2
        } =~= (VmView {
            mem: s.mem.update(s.dp, byte_add(s.mem[s.dp], ((k - s.ip) % 256) as u8)),
            ip: k,
            ops: s.ops + (k - s.ip),
            ..s
        }));
    }
}

/// Running a stretch of `<` bytes moves the data pointer one cell back per
/// byte; stated for stretches that stay on the tape without wrapping.
#[verifier::rlimit(100)]
#[verifier::spinoff_prover]
pub proof fn lemma_run_lefts(code: Seq<u8>, s: VmView, k: int)
    requires
        vm_wf(s),
        s.ip <= k <= code.len(),
        forall|j: int| s.ip <= j < k ==> code[j] == crate::context::OP_LEFT,
        s.ops + (k - s.ip) <= MAX_STEPS,
        k - s.ip <= s.dp,
    ensures
        vm_run_spec(code, s) == vm_run_spec(
            code,
            VmView { dp: s.dp - (k - s.ip), ip: k, ops: s.ops + (k - s.ip), ..s },
        ),
    decreases k - s.ip,
{
    if s.ip == k {
        assert(VmView { dp: s.dp - 0, ip: k, ops: s.ops + 0, ..s } =~= s);
    } else {
        let s2 = VmView {
            dp: (s.dp + MEM_SIZE - 1) % (MEM_SIZE as int),
            ip: s.ip + 1,
            ops: s.ops + 1,
            ..s
        };
        assert(vm_step(code, s) == Ok::<VmView, crate::vm::VmError>(s2));
        assert(vm_run_spec(code, s) == vm_run_spec(code, s2));
        assert(s2.dp == s.dp - 1);
        lemma_run_lefts(code, s2, k);
        assert(VmView { dp: s2.dp - (k - s2.ip), ip: k, ops: s2.ops + (k - s2.ip), ..s2 } =~= (
        VmView { dp: s.dp - (k - s.ip), ip: k, ops: s.ops + (k - s.ip), ..s }));
    }
}

/// Running the bytes that seek from cell `from` to cell `to` moves the
/// data pointer there, for cells on the tape.
#[verifier::rlimit(100)]
#[verifier::spinoff_prover]
pub proof fn lemma_run_seek(code: Seq<u8>, s: VmView, from: int, to: int) -> (k: int)
    requires
        vm_wf(s),
        0 <= from < MEM_SIZE,
        0 <= to < MEM_SIZE,
        s.dp == from,
        s.ip + seek_seq(from, to).len() <= code.len(),
        forall|j: int|
            0 <= j < seek_seq(from, to).len() ==> code[s.ip + j] == seek_seq(from, to)[j],
        s.ops + seek_seq(from, to).len() <= MAX_STEPS,
    ensures
        k == s.ip + seek_seq(from, to).len(),
        vm_run_spec(code, s) == vm_run_spec(
            code,
            VmView { dp: to, ip: k, ops: s.ops + (k - s.ip), ..s },
        ),
{
    let n = seek_seq(from, to).len() as int;
    let k = s.ip + n;
    if to >= from {
        assert forall|j: int| s.ip <= j < k implies code[j] == OP_RIGHT by {
            assert(code[s.ip + (j - s.ip)] == seek_seq(from, to)[j - s.ip]);
        }
        lemma_run_rights(code, s, k);
        assert((s.dp + (k - s.ip)) % (MEM_SIZE as int) == to);
    } else {
        assert forall|j: int| s.ip <= j < k implies code[j] == crate::context::OP_LEFT by {
            assert(code[s.ip + (j - s.ip)] == seek_seq(from, to)[j - s.ip]);
        }
        lemma_run_lefts(code, s, k);
        assert(s.dp - (k - s.ip) == to);
    }
    k
}

/// Scanning for a matching bracket passes over a stretch that holds no
/// bracket at all.
proof fn lemma_skip_nonbrackets(code: Seq<u8>, i: int, j: int, depth: int)
    requires
        0 <= i <= j <= code.len(),
        depth > 0,
        forall|x: int| i <= x < j ==> code[x] != OP_OPEN && code[x] != OP_CLOSE,
    ensures
        skip_loop(code, i, depth) == skip_loop(code, j, depth),
    decreases j - i,
{
    if i < j {
        lemma_skip_nonbrackets(code, i + 1, j, depth);
    }
}

/// Running `[-]` zeroes the cell under the pointer: the loop decrements it
/// to zero and the final `[` test falls through.
#[verifier::rlimit(100)]
#[verifier::spinoff_prover]
pub proof fn lemma_run_clear(code: Seq<u8>, s: VmView)
    requires
        vm_wf(s),
        0 <= s.ip,
        s.ip + 3 <= code.len(),
        code[s.ip] == OP_OPEN,
        code[s.ip + 1] == OP_DEC,
        code[s.ip + 2] == OP_CLOSE,
        s.ops + 3 * (s.mem[s.dp] as int) + 1 <= MAX_STEPS,
    ensures
        vm_run_spec(code, s) == vm_run_spec(
            code,
            VmView {
                mem: s.mem.update(s.dp, 0u8),
                ip: s.ip + 3,
                ops: s.ops + 3 * (s.mem[s.dp] as int) + 1,
                ..s
            },
        ),
    decreases s.mem[s.dp],
{
    if s.mem[s.dp] == 0 {
        assert(skip_loop(code, s.ip + 3, 0) == Some(s.ip + 3));
        assert(skip_loop(code, s.ip + 2, 1) == Some(s.ip + 3));
        assert(skip_loop(code, s.ip + 1, 1) == Some(s.ip + 3));
        let s2 = VmView { ip: s.ip + 3, ops: s.ops + 1, ..s };
        assert(vm_step(code, s) == Ok::<VmView, crate::vm::VmError>(s2));
        assert(VmView {
            mem: s.mem.update(s.dp, 0u8),
            ip: s.ip + 3,
            ops: s.ops + 3 * (s.mem[s.dp] as int) + 1,
            ..s
        } =~= s2);
    } else {
        let s1 = VmView { stack: s.stack.push(s.ip), ip: s.ip + 1, ops: s.ops + 1, ..s };
        assert(vm_step(code, s) == Ok::<VmView, crate::vm::VmError>(s1));
        let s2 = VmView {
            mem: s1.mem.update(s1.dp, crate::cells::byte_sub(s1.mem[s1.dp], 1)),
            ip: s.ip + 2,
            ops: s.ops + 2,
            ..s1
        };
        assert(vm_step(code, s1) == Ok::<VmView, crate::vm::VmError>(s2));
        let s3 = VmView { ip: s.ip, stack: s2.stack.drop_last(), ops: s.ops + 3, ..s2 };
        assert(s2.stack.last() == s.ip);
        assert(vm_step(code, s2) == Ok::<VmView, crate::vm::VmError>(s3));
        assert(vm_run_spec(code, s) == vm_run_spec(code, s1));
        assert(vm_run_spec(code, s1) == vm_run_spec(code, s2));
        assert(vm_run_spec(code, s2) == vm_run_spec(code, s3));
        assert(s3.stack =~= s.stack);
        assert(s3.mem[s3.dp] == s.mem[s.dp] - 1);
        lemma_run_clear(code, s3);
        assert(s3.mem.update(s3.dp, 0u8) =~= s.mem.update(s.dp, 0u8));
        assert(VmView {
            mem: s3.mem.update(s3.dp, 0u8),
            ip: s3.ip + 3,
            ops: s3.ops + 3 * (s3.mem[s3.dp] as int) + 1,
            ..s3
        } =~= (VmView {
            mem: s.mem.update(s.dp, 0u8),
            ip: s.ip + 3,
            ops: s.ops + 3 * (s.mem[s.dp] as int) + 1,
            ..s
        }));
    }
}
/// One round of a transfer loop: enter at `[`, adjust the target cell by
/// one (up for addition, down for subtraction), take one from the source,
/// and come back to the `[`.
#[verifier::rlimit(100)]
#[verifier::spinoff_prover]
proof fn lemma_transfer_round(code: Seq<u8>, s: VmView, src: int, tgt: int, up: bool)
    requires
        vm_wf(s),
        s.dp == src,
        0 <= src < MEM_SIZE,
        0 <= tgt < MEM_SIZE,
        src != tgt,
        s.mem[src] != 0,
        s.ip + 4 + seek_seq(src, tgt).len() + seek_seq(tgt, src).len() <= code.len(),
        code[s.ip] == OP_OPEN,
        forall|j: int|
            0 <= j < seek_seq(src, tgt).len() ==> code[s.ip + 1 + j] == seek_seq(src, tgt)[j],
        code[s.ip + 1 + seek_seq(src, tgt).len()] == (if up {
            OP_INC
        } else {
            OP_DEC
        }),
        forall|j: int|
            0 <= j < seek_seq(tgt, src).len() ==> code[s.ip + 2 + seek_seq(src, tgt).len() + j]
                == seek_seq(tgt, src)[j],
        code[s.ip + 2 + seek_seq(src, tgt).len() + seek_seq(tgt, src).len()] == OP_DEC,
        code[s.ip + 3 + seek_seq(src, tgt).len() + seek_seq(tgt, src).len()] == OP_CLOSE,
        s.ops + 4 + seek_seq(src, tgt).len() + seek_seq(tgt, src).len() <= MAX_STEPS,
    ensures
        vm_run_spec(code, s) == vm_run_spec(
            code,
            VmView {
                mem: s.mem.update(
                    tgt,
                    if up {
                        byte_add(s.mem[tgt], 1)
                    } else {
                        crate::cells::byte_sub(s.mem[tgt], 1)
                    },
                ).update(src, crate::cells::byte_sub(s.mem[src], 1)),
                ops: s.ops + 4 + seek_seq(src, tgt).len() + seek_seq(tgt, src).len(),
                ..s
            },
        ),
{
    let l1 = seek_seq(src, tgt).len() as int;
    let l2 = seek_seq(tgt, src).len() as int;
    let i0 = s.ip;
    let s1 = VmView { stack: s.stack.push(i0), ip: i0 + 1, ops: s.ops + 1, ..s };
    assert(vm_step(code, s) == Ok::<VmView, crate::vm::VmError>(s1));
    assert(vm_run_spec(code, s) == vm_run_spec(code, s1));
    let k1 = lemma_run_seek(code, s1, src, tgt);
    let s2 = VmView { dp: tgt, ip: i0 + 1 + l1, ops: s.ops + 1 + l1, ..s1 };
    assert(vm_run_spec(code, s1) == vm_run_spec(code, s2));
    let s3 = VmView {
        mem: s2.mem.update(
            tgt,
            if up {
                byte_add(s2.mem[tgt], 1)
            } else {
                crate::cells::byte_sub(s2.mem[tgt], 1)
            },
        ),
        ip: i0 + 2 + l1,
        ops: s.ops + 2 + l1,
        ..s2
    };
    assert(vm_step(code, s2) == Ok::<VmView, crate::vm::VmError>(s3));
    assert(vm_run_spec(code, s2) == vm_run_spec(code, s3));
    let k2 = lemma_run_seek(code, s3, tgt, src);
    let s4 = VmView { dp: src, ip: i0 + 2 + l1 + l2, ops: s.ops + 2 + l1 + l2, ..s3 };
    assert(vm_run_spec(code, s3) == vm_run_spec(code, s4));
    let s5 = VmView {
        mem: s4.mem.update(src, crate::cells::byte_sub(s4.mem[src], 1)),
        ip: i0 + 3 + l1 + l2,
        ops: s.ops + 3 + l1 + l2,
        ..s4
    };
    assert(vm_step(code, s4) == Ok::<VmView, crate::vm::VmError>(s5));
    assert(vm_run_spec(code, s4) == vm_run_spec(code, s5));
    assert(s5.stack.len() > 0 && s5.stack.last() == i0);
    let s6 = VmView { ip: i0, stack: s5.stack.drop_last(), ops: s.ops + 4 + l1 + l2, ..s5 };
    assert(vm_step(code, s5) == Ok::<VmView, crate::vm::VmError>(s6));
    assert(vm_run_spec(code, s5) == vm_run_spec(code, s6));
    assert(s6 =~= (VmView {
        mem: s.mem.update(
            tgt,
            if up {
                byte_add(s.mem[tgt], 1)
            } else {
                crate::cells::byte_sub(s.mem[tgt], 1)
            },
        ).update(src, crate::cells::byte_sub(s.mem[src], 1)),
        ops: s.ops + 4 + seek_seq(src, tgt).len() + seek_seq(tgt, src).len(),
        ..s
    }));
}

/// The loop head of a transfer loop falls through when the source cell is
/// zero: the scan for the matching `]` passes over the whole body.
#[verifier::rlimit(100)]
#[verifier::spinoff_prover]
proof fn lemma_transfer_skip(code: Seq<u8>, s: VmView, src: int, tgt: int)
    requires
        vm_wf(s),
        s.dp == src,
        0 <= src < MEM_SIZE,
        0 <= tgt < MEM_SIZE,
        src != tgt,
        s.mem[src] == 0,
        s.ip + 4 + seek_seq(src, tgt).len() + seek_seq(tgt, src).len() <= code.len(),
        code[s.ip] == OP_OPEN,
        forall|j: int|
            0 <= j < seek_seq(src, tgt).len() ==> code[s.ip + 1 + j] == seek_seq(src, tgt)[j],
        code[s.ip + 1 + seek_seq(src, tgt).len()] == OP_INC || code[s.ip + 1 + seek_seq(
            src,
            tgt,
        ).len()] == OP_DEC,
        forall|j: int|
            0 <= j < seek_seq(tgt, src).len() ==> code[s.ip + 2 + seek_seq(src, tgt).len() + j]
                == seek_seq(tgt, src)[j],
        code[s.ip + 2 + seek_seq(src, tgt).len() + seek_seq(tgt, src).len()] == OP_DEC,
        code[s.ip + 3 + seek_seq(src, tgt).len() + seek_seq(tgt, src).len()] == OP_CLOSE,
        s.ops + 1 <= MAX_STEPS,
    ensures
        vm_run_spec(code, s) == vm_run_spec(
            code,
            VmView {
                ip: s.ip + 4 + seek_seq(src, tgt).len() + seek_seq(tgt, src).len(),
                ops: s.ops + 1,
                ..s
            },
        ),
{
    let l1 = seek_seq(src, tgt).len() as int;
    let l2 = seek_seq(tgt, src).len() as int;
    let i0 = s.ip;
    let end = i0 + 4 + l1 + l2;
    assert(forall|j: int| 0 <= j < l1 ==> (seek_seq(src, tgt)[j] == OP_RIGHT || seek_seq(
        src,
        tgt,
    )[j] == crate::context::OP_LEFT));
    assert(forall|j: int| 0 <= j < l2 ==> (seek_seq(tgt, src)[j] == OP_RIGHT || seek_seq(
        tgt,
        src,
    )[j] == crate::context::OP_LEFT));
    assert forall|x: int| i0 + 1 <= x < i0 + 3 + l1 + l2 implies code[x] != OP_OPEN && code[x]
        != OP_CLOSE by {
        if x < i0 + 1 + l1 {
            assert(code[i0 + 1 + (x - i0 - 1)] == seek_seq(src, tgt)[x - i0 - 1]);
        } else if x == i0 + 1 + l1 {
        } else if x < i0 + 2 + l1 + l2 {
            assert(code[i0 + 2 + l1 + (x - i0 - 2 - l1)] == seek_seq(tgt, src)[x - i0 - 2 - l1]);
        }
    }
    lemma_skip_nonbrackets(code, i0 + 1, i0 + 3 + l1 + l2, 1);
    assert(skip_loop(code, end, 0) == Some(end));
    assert(skip_loop(code, i0 + 3 + l1 + l2, 1) == Some(end));
    let s2 = VmView { ip: end, ops: s.ops + 1, ..s };
    assert(vm_step(code, s) == Ok::<VmView, crate::vm::VmError>(s2));
}

/// Running the transfer loop `[ seek + seek - ]` drains the source cell
/// into the target cell one unit at a time: afterwards the target holds
/// the wrapping sum, the source holds zero, and the pointer is back on the
/// source.
#[verifier::rlimit(100)]
#[verifier::spinoff_prover]
pub proof fn lemma_run_transfer(code: Seq<u8>, s: VmView, src: int, tgt: int)
    requires
        vm_wf(s),
        s.dp == src,
        0 <= src < MEM_SIZE,
        0 <= tgt < MEM_SIZE,
        src != tgt,
        s.ip + 4 + seek_seq(src, tgt).len() + seek_seq(tgt, src).len() <= code.len(),
        code[s.ip] == OP_OPEN,
        forall|j: int|
            0 <= j < seek_seq(src, tgt).len() ==> code[s.ip + 1 + j] == seek_seq(src, tgt)[j],
        code[s.ip + 1 + seek_seq(src, tgt).len()] == OP_INC,
        forall|j: int|
            0 <= j < seek_seq(tgt, src).len() ==> code[s.ip + 2 + seek_seq(src, tgt).len() + j]
                == seek_seq(tgt, src)[j],
        code[s.ip + 2 + seek_seq(src, tgt).len() + seek_seq(tgt, src).len()] == OP_DEC,
        code[s.ip + 3 + seek_seq(src, tgt).len() + seek_seq(tgt, src).len()] == OP_CLOSE,
        s.ops + (s.mem[src] as int) * (4 + seek_seq(src, tgt).len() + seek_seq(tgt, src).len())
            + 1 <= MAX_STEPS,
    ensures
        vm_run_spec(code, s) == vm_run_spec(
            code,
            VmView {
                mem: s.mem.update(tgt, byte_add(s.mem[tgt], s.mem[src])).update(src, 0u8),
                ip: s.ip + 4 + seek_seq(src, tgt).len() + seek_seq(tgt, src).len(),
                ops: s.ops + (s.mem[src] as int) * (4 + seek_seq(src, tgt).len() + seek_seq(
                    tgt,
                    src,
                ).len()) + 1,
                ..s
            },
        ),
    decreases s.mem[src],
{
    let l1 = seek_seq(src, tgt).len() as int;
    let l2 = seek_seq(tgt, src).len() as int;
    let i0 = s.ip;
    let end = i0 + 4 + l1 + l2;
    let round = 4 + l1 + l2;
    if s.mem[s.dp] == 0 {
        lemma_transfer_skip(code, s, src, tgt);
        assert(s.mem.update(tgt, byte_add(s.mem[tgt], 0)).update(src, 0u8) =~= s.mem);
        assert(VmView {
            mem: s.mem.update(tgt, byte_add(s.mem[tgt], s.mem[src])).update(src, 0u8),
            ip: end,
            ops: s.ops + (s.mem[src] as int) * round + 1,
            ..s
        } =~= (VmView { ip: end, ops: s.ops + 1, ..s }));
    } else {
        let v = s.mem[src];
        assert(round <= (v as int) * round) by (nonlinear_arith)
            requires
                v >= 1,
                round >= 0,
        ;
        lemma_transfer_round(code, s, src, tgt, true);
        let s6 = VmView {
            mem: s.mem.update(tgt, byte_add(s.mem[tgt], 1)).update(
                src,
                crate::cells::byte_sub(s.mem[src], 1),
            ),
            ops: s.ops + round,
            ..s
        };
        assert(s6.mem[src] == v - 1);
        assert(s6.ops + (s6.mem[src] as int) * round + 1 == s.ops + (v as int) * round + 1) by {
            assert((v - 1) * round + round == (v as int) * round) by (nonlinear_arith);
        }
        lemma_run_transfer(code, s6, src, tgt);
        assert(s6.mem.update(tgt, byte_add(s6.mem[tgt], s6.mem[src])).update(src, 0u8) =~= s.mem.update(
            tgt,
            byte_add(s.mem[tgt], s.mem[src]),
        ).update(src, 0u8)) by {
            assert(byte_add(byte_add(s.mem[tgt], 1), (v - 1) as u8) == byte_add(s.mem[tgt], v));
        }
        assert(VmView {
            mem: s6.mem.update(tgt, byte_add(s6.mem[tgt], s6.mem[src])).update(src, 0u8),
            ip: s6.ip + 4 + l1 + l2,
            ops: s6.ops + (s6.mem[src] as int) * round + 1,
            ..s6
        } =~= (VmView {
            mem: s.mem.update(tgt, byte_add(s.mem[tgt], s.mem[src])).update(src, 0u8),
            ip: end,
            ops: s.ops + (v as int) * round + 1,
            ..s
        }));
    }
}

/// Running the draining loop `[ seek - seek - ]` subtracts the source cell
/// from the target cell one unit at a time: afterwards the target holds
/// the wrapping difference, the source holds zero, and the pointer is back
/// on the source.
#[verifier::rlimit(100)]
#[verifier::spinoff_prover]
pub proof fn lemma_run_transfer_down(code: Seq<u8>, s: VmView, src: int, tgt: int)
    requires
        vm_wf(s),
        s.dp == src,
        0 <= src < MEM_SIZE,
        0 <= tgt < MEM_SIZE,
        src != tgt,
        s.ip + 4 + seek_seq(src, tgt).len() + seek_seq(tgt, src).len() <= code.len(),
        code[s.ip] == OP_OPEN,
        forall|j: int|
            0 <= j < seek_seq(src, tgt).len() ==> code[s.ip + 1 + j] == seek_seq(src, tgt)[j],
        code[s.ip + 1 + seek_seq(src, tgt).len()] == OP_DEC,
        forall|j: int|
            0 <= j < seek_seq(tgt, src).len() ==> code[s.ip + 2 + seek_seq(src, tgt).len() + j]
                == seek_seq(tgt, src)[j],
        code[s.ip + 2 + seek_seq(src, tgt).len() + seek_seq(tgt, src).len()] == OP_DEC,
        code[s.ip + 3 + seek_seq(src, tgt).len() + seek_seq(tgt, src).len()] == OP_CLOSE,
        s.ops + (s.mem[src] as int) * (4 + seek_seq(src, tgt).len() + seek_seq(tgt, src).len())
            + 1 <= MAX_STEPS,
    ensures
        vm_run_spec(code, s) == vm_run_spec(
            code,
            VmView {
                mem: s.mem.update(
                    tgt,
                    crate::cells::byte_sub(s.mem[tgt], s.mem[src]),
                ).update(src, 0u8),
                ip: s.ip + 4 + seek_seq(src, tgt).len() + seek_seq(tgt, src).len(),
                ops: s.ops + (s.mem[src] as int) * (4 + seek_seq(src, tgt).len() + seek_seq(
                    tgt,
                    src,
                ).len()) + 1,
                ..s
            },
        ),
    decreases s.mem[src],
{
    let l1 = seek_seq(src, tgt).len() as int;
    let l2 = seek_seq(tgt, src).len() as int;
    let i0 = s.ip;
    let end = i0 + 4 + l1 + l2;
    let round = 4 + l1 + l2;
    if s.mem[s.dp] == 0 {
        lemma_transfer_skip(code, s, src, tgt);
        assert(s.mem.update(tgt, crate::cells::byte_sub(s.mem[tgt], 0)).update(src, 0u8)
            =~= s.mem);
        assert(VmView {
            mem: s.mem.update(tgt, crate::cells::byte_sub(s.mem[tgt], s.mem[src])).update(
                src,
                0u8,
            ),
            ip: end,
            ops: s.ops + (s.mem[src] as int) * round + 1,
            ..s
        } =~= (VmView { ip: end, ops: s.ops + 1, ..s }));
    } else {
        let v = s.mem[src];
        assert(round <= (v as int) * round) by (nonlinear_arith)
            requires
                v >= 1,
                round >= 0,
        ;
        lemma_transfer_round(code, s, src, tgt, false);
        let s6 = VmView {
            mem: s.mem.update(tgt, crate::cells::byte_sub(s.mem[tgt], 1)).update(
                src,
                crate::cells::byte_sub(s.mem[src], 1),
            ),
            ops: s.ops + round,
            ..s
        };
        assert(s6.mem[src] == v - 1);
        assert(s6.ops + (s6.mem[src] as int) * round + 1 == s.ops + (v as int) * round + 1) by {
            assert((v - 1) * round + round == (v as int) * round) by (nonlinear_arith);
        }
        lemma_run_transfer_down(code, s6, src, tgt);
        assert(s6.mem.update(tgt, crate::cells::byte_sub(s6.mem[tgt], s6.mem[src])).update(
            src,
            0u8,
        ) =~= s.mem.update(tgt, crate::cells::byte_sub(s.mem[tgt], s.mem[src])).update(
            src,
            0u8,
        )) by {
            assert(crate::cells::byte_sub(crate::cells::byte_sub(s.mem[tgt], 1), (v - 1) as u8)
                == crate::cells::byte_sub(s.mem[tgt], v));
        }
        assert(VmView {
            mem: s6.mem.update(tgt, crate::cells::byte_sub(s6.mem[tgt], s6.mem[src])).update(
                src,
                0u8,
            ),
            ip: s6.ip + 4 + l1 + l2,
            ops: s6.ops + (s6.mem[src] as int) * round + 1,
            ..s6
        } =~= (VmView {
            mem: s.mem.update(tgt, crate::cells::byte_sub(s.mem[tgt], s.mem[src])).update(
                src,
                0u8,
            ),
            ip: end,
            ops: s.ops + (v as int) * round + 1,
            ..s
        }));
    }
}


/// Subtraction on the tape, for all cell values: executing the code that
/// `sub(target, source)` emits leaves the target cell holding the wrapping
/// difference, the source cell at zero, and the pointer on the source.
#[verifier::rlimit(100)]
#[verifier::spinoff_prover]
pub proof fn lemma_sub_emission_sound(m: VmView, tgt: int, src: int)
    requires
        vm_wf(m),
        m.ip == 0,
        m.ops == 0,
        0 <= tgt < MEM_SIZE,
        0 <= src < MEM_SIZE,
        tgt != src,
        seek_seq(m.dp, src).len() + (m.mem[src] as int) * (4 + seek_seq(src, tgt).len()
            + seek_seq(tgt, src).len()) + 1 <= MAX_STEPS,
    ensures
        ({
            let c0 = CtxView {
                code: Seq::<u8>::empty(),
                addr: m.dp,
                slots: Seq::<bool>::empty(),
                known: Seq::<Option<u8>>::empty(),
            };
            let c = crate::logic::sub_spec(c0, tgt, src);
            &&& vm_run_spec(c.code, m) matches Ok(r) && r.mem == m.mem.update(
                tgt,
                crate::cells::byte_sub(m.mem[tgt], m.mem[src]),
            ).update(src, 0u8) && r.dp == c.addr
        }),
{
    let c0 = CtxView {
        code: Seq::<u8>::empty(),
        addr: m.dp,
        slots: Seq::<bool>::empty(),
        known: Seq::<Option<u8>>::empty(),
    };
    let c = crate::logic::sub_spec(c0, tgt, src);
    let code = c.code;
    let l0 = seek_seq(m.dp, src).len() as int;
    let l1 = seek_seq(src, tgt).len() as int;
    let l2 = seek_seq(tgt, src).len() as int;
    let i0 = l0;
    assert(seek_seq(src, src) =~= Seq::<u8>::empty());
    assert(code =~= seek_seq(m.dp, src) + seq![OP_OPEN] + seek_seq(src, tgt) + seq![OP_DEC]
        + seek_seq(tgt, src) + seq![OP_DEC] + seq![OP_CLOSE]);
    assert(code.len() == l0 + 4 + l1 + l2);
    assert forall|j: int| 0 <= j < l0 implies code[j] == seek_seq(m.dp, src)[j] by {}
    assert(code[i0] == OP_OPEN);
    assert forall|j: int| 0 <= j < l1 implies code[i0 + 1 + j] == seek_seq(src, tgt)[j] by {}
    assert(code[i0 + 1 + l1] == OP_DEC);
    assert forall|j: int| 0 <= j < l2 implies code[i0 + 2 + l1 + j] == seek_seq(tgt, src)[j] by {}
    assert(code[i0 + 2 + l1 + l2] == OP_DEC);
    assert(code[i0 + 3 + l1 + l2] == OP_CLOSE);
    let v = m.mem[src];
    assert(0 <= (v as int) * (4 + l1 + l2)) by (nonlinear_arith)
        requires
            v >= 0,
            l1 >= 0,
            l2 >= 0,
    ;
    let k0 = lemma_run_seek(code, m, m.dp, src);
    let t1 = VmView { dp: src, ip: i0, ops: l0, ..m };
    assert(vm_run_spec(code, m) == vm_run_spec(code, t1));
    lemma_run_transfer_down(code, t1, src, tgt);
    let t2 = VmView {
        mem: m.mem.update(tgt, crate::cells::byte_sub(m.mem[tgt], v)).update(src, 0u8),
        ip: i0 + 4 + l1 + l2,
        ops: l0 + (v as int) * (4 + l1 + l2) + 1,
        dp: src,
        ..t1
    };
    assert(vm_run_spec(code, t1) == vm_run_spec(code, t2));
    assert(t2.ip == code.len());
    assert(vm_run_spec(code, t2) == Ok::<VmView, crate::vm::VmError>(t2));
    assert(c.addr == src);
}

/// Addition on the tape, for all cell values: executing the code that
/// `add(target, source)` emits — from any machine whose pointer stands
/// where the emission context's cursor said — leaves the target cell
/// holding the wrapping sum, the source cell at zero, and the data pointer
/// on the source cell, exactly as the contract of `add` records.
#[verifier::rlimit(100)]
#[verifier::spinoff_prover]
pub proof fn lemma_add_emission_sound(m: VmView, tgt: int, src: int)
    requires
        vm_wf(m),
        m.ip == 0,
        m.ops == 0,
        0 <= tgt < MEM_SIZE,
        0 <= src < MEM_SIZE,
        tgt != src,
        seek_seq(m.dp, src).len() + (m.mem[src] as int) * (4 + seek_seq(src, tgt).len()
            + seek_seq(tgt, src).len()) + 1 <= MAX_STEPS,
    ensures
        ({
            let c0 = CtxView {
                code: Seq::<u8>::empty(),
                addr: m.dp,
                slots: Seq::<bool>::empty(),
                known: Seq::<Option<u8>>::empty(),
            };
            let c = crate::logic::add_spec(c0, tgt, src);
            &&& vm_run_spec(c.code, m) matches Ok(r) && r.mem == m.mem.update(
                tgt,
                byte_add(m.mem[tgt], m.mem[src]),
            ).update(src, 0u8) && r.dp == c.addr
        }),
{
    let c0 = CtxView {
        code: Seq::<u8>::empty(),
        addr: m.dp,
        slots: Seq::<bool>::empty(),
        known: Seq::<Option<u8>>::empty(),
    };
    let c = crate::logic::add_spec(c0, tgt, src);
    let code = c.code;
    let l0 = seek_seq(m.dp, src).len() as int;
    let l1 = seek_seq(src, tgt).len() as int;
    let l2 = seek_seq(tgt, src).len() as int;
    let i0 = l0;
    assert(seek_seq(src, src) =~= Seq::<u8>::empty());
    assert(code =~= seek_seq(m.dp, src) + seq![OP_OPEN] + seek_seq(src, tgt) + seq![OP_INC]
        + seek_seq(tgt, src) + seq![OP_DEC] + seq![OP_CLOSE]);
    assert(code.len() == l0 + 4 + l1 + l2);
    assert forall|j: int| 0 <= j < l0 implies code[j] == seek_seq(m.dp, src)[j] by {}
    assert(code[i0] == OP_OPEN);
    assert forall|j: int| 0 <= j < l1 implies code[i0 + 1 + j] == seek_seq(src, tgt)[j] by {}
    assert(code[i0 + 1 + l1] == OP_INC);
    assert forall|j: int| 0 <= j < l2 implies code[i0 + 2 + l1 + j] == seek_seq(tgt, src)[j] by {}
    assert(code[i0 + 2 + l1 + l2] == OP_DEC);
    assert(code[i0 + 3 + l1 + l2] == OP_CLOSE);
    let v = m.mem[src];
    assert(0 <= (v as int) * (4 + l1 + l2)) by (nonlinear_arith)
        requires
            v >= 0,
            l1 >= 0,
            l2 >= 0,
    ;
    let k0 = lemma_run_seek(code, m, m.dp, src);
    let t1 = VmView { dp: src, ip: i0, ops: l0, ..m };
    assert(vm_run_spec(code, m) == vm_run_spec(code, t1));
    lemma_run_transfer(code, t1, src, tgt);
    let t2 = VmView {
        mem: m.mem.update(tgt, byte_add(m.mem[tgt], v)).update(src, 0u8),
        ip: i0 + 4 + l1 + l2,
        ops: l0 + (v as int) * (4 + l1 + l2) + 1,
        dp: src,
        ..t1
    };
    assert(vm_run_spec(code, t1) == vm_run_spec(code, t2));
    assert(t2.ip == code.len());
    assert(vm_run_spec(code, t2) == Ok::<VmView, crate::vm::VmError>(t2));
    assert(c.addr == src);
}

/// Moves on the tape, for all cell values: executing the code that
/// `mov(source, target)` emits leaves the target cell holding what the
/// source held, and the source cell at zero.
#[verifier::rlimit(100)]
#[verifier::spinoff_prover]
pub proof fn lemma_mov_emission_sound(m: VmView, src: int, tgt: int)
    requires
        vm_wf(m),
        m.ip == 0,
        m.ops == 0,
        0 <= tgt < MEM_SIZE,
        0 <= src < MEM_SIZE,
        tgt != src,
        seek_seq(m.dp, tgt).len() + 3 * (m.mem[tgt] as int) + 1 + seek_seq(tgt, src).len() + (
        m.mem[src] as int) * (4 + seek_seq(src, tgt).len() + seek_seq(tgt, src).len()) + 1
            <= MAX_STEPS,
    ensures
        ({
            let c0 = CtxView {
                code: Seq::<u8>::empty(),
                addr: m.dp,
                slots: Seq::<bool>::empty(),
                known: Seq::<Option<u8>>::empty(),
            };
            let c = crate::logic::mov_spec(c0, src, tgt);
            &&& vm_run_spec(c.code, m) matches Ok(r) && r.mem == m.mem.update(
                tgt,
                m.mem[src],
            ).update(src, 0u8) && r.dp == c.addr
        }),
{
    let c0 = CtxView {
        code: Seq::<u8>::empty(),
        addr: m.dp,
        slots: Seq::<bool>::empty(),
        known: Seq::<Option<u8>>::empty(),
    };
    let c = crate::logic::mov_spec(c0, src, tgt);
    let code = c.code;
    let l0 = seek_seq(m.dp, tgt).len() as int;
    let lb = seek_seq(tgt, src).len() as int;
    let l1 = seek_seq(src, tgt).len() as int;
    let l2 = seek_seq(tgt, src).len() as int;
    let i0 = l0 + 3 + lb;
    assert(seek_seq(src, src) =~= Seq::<u8>::empty());
    assert(code =~= seek_seq(m.dp, tgt) + seq![OP_OPEN, OP_DEC, OP_CLOSE] + seek_seq(tgt, src)
        + seq![OP_OPEN] + seek_seq(src, tgt) + seq![OP_INC] + seek_seq(tgt, src) + seq![OP_DEC]
        + seq![OP_CLOSE]);
    assert(code.len() == l0 + 3 + lb + 4 + l1 + l2);
    assert forall|j: int| 0 <= j < l0 implies code[j] == seek_seq(m.dp, tgt)[j] by {}
    assert(code[l0] == OP_OPEN && code[l0 + 1] == OP_DEC && code[l0 + 2] == OP_CLOSE);
    assert forall|j: int| 0 <= j < lb implies code[l0 + 3 + j] == seek_seq(tgt, src)[j] by {}
    assert(code[i0] == OP_OPEN);
    assert forall|j: int| 0 <= j < l1 implies code[i0 + 1 + j] == seek_seq(src, tgt)[j] by {}
    assert(code[i0 + 1 + l1] == OP_INC);
    assert forall|j: int| 0 <= j < l2 implies code[i0 + 2 + l1 + j] == seek_seq(tgt, src)[j] by {}
    assert(code[i0 + 2 + l1 + l2] == OP_DEC);
    assert(code[i0 + 3 + l1 + l2] == OP_CLOSE);
    let v = m.mem[src];
    let w = m.mem[tgt];
    assert(0 <= (v as int) * (4 + l1 + l2)) by (nonlinear_arith)
        requires
            v >= 0,
            l1 >= 0,
            l2 >= 0,
    ;
    let k0 = lemma_run_seek(code, m, m.dp, tgt);
    let t1 = VmView { dp: tgt, ip: l0, ops: l0, ..m };
    assert(vm_run_spec(code, m) == vm_run_spec(code, t1));
    lemma_run_clear(code, t1);
    let t2 = VmView {
        mem: m.mem.update(tgt, 0u8),
        ip: l0 + 3,
        ops: l0 + 3 * (w as int) + 1,
        ..t1
    };
    assert(vm_run_spec(code, t1) == vm_run_spec(code, t2));
    let k1 = lemma_run_seek(code, t2, tgt, src);
    let t3 = VmView { dp: src, ip: i0, ops: t2.ops + lb, ..t2 };
    assert(vm_run_spec(code, t2) == vm_run_spec(code, t3));
    assert(t3.mem[src] == v);
    lemma_run_transfer(code, t3, src, tgt);
    let t4 = VmView {
        mem: t3.mem.update(tgt, byte_add(t3.mem[tgt], v)).update(src, 0u8),
        ip: i0 + 4 + l1 + l2,
        ops: t3.ops + (v as int) * (4 + l1 + l2) + 1,
        ..t3
    };
    assert(vm_run_spec(code, t3) == vm_run_spec(code, t4));
    assert(t4.ip == code.len());
    assert(vm_run_spec(code, t4) == Ok::<VmView, crate::vm::VmError>(t4));
    assert(byte_add(0, v) == v);
    assert(t4.mem =~= m.mem.update(tgt, m.mem[src]).update(src, 0u8));
    assert(c.addr == src);
}

/// Increments on the tape, for all cell values: executing the code that
/// `increment_by(p, n)` emits adds `n` to cell `p`, wrapping, and leaves
/// the data pointer there.
#[verifier::rlimit(100)]
#[verifier::spinoff_prover]
pub proof fn lemma_increment_by_emission_sound(m: VmView, p: int, n: u8)
    requires
        vm_wf(m),
        m.ip == 0,
        m.ops == 0,
        0 <= p < MEM_SIZE,
        seek_seq(m.dp, p).len() + n <= MAX_STEPS,
    ensures
        ({
            let c0 = CtxView {
                code: Seq::<u8>::empty(),
                addr: m.dp,
                slots: Seq::<bool>::empty(),
                known: Seq::<Option<u8>>::empty(),
            };
            let c = crate::cells::inc_by_spec(c0, p, n);
            &&& vm_run_spec(c.code, m) matches Ok(r) && r.mem == m.mem.update(
                p,
                byte_add(m.mem[p], n),
            ) && r.dp == c.addr
        }),
{
    let c0 = CtxView {
        code: Seq::<u8>::empty(),
        addr: m.dp,
        slots: Seq::<bool>::empty(),
        known: Seq::<Option<u8>>::empty(),
    };
    let c = crate::cells::inc_by_spec(c0, p, n);
    let code = c.code;
    let l0 = seek_seq(m.dp, p).len() as int;
    assert(code =~= seek_seq(m.dp, p) + rep(OP_INC, n as int));
    assert(code.len() == l0 + n);
    assert forall|j: int| 0 <= j < l0 implies code[j] == seek_seq(m.dp, p)[j] by {}
    assert forall|j: int| l0 <= j < code.len() implies code[j] == OP_INC by {
        assert(code[j] == rep(OP_INC, n as int)[j - l0]);
    }
    let k0 = lemma_run_seek(code, m, m.dp, p);
    let t1 = VmView { dp: p, ip: l0, ops: l0, ..m };
    assert(vm_run_spec(code, m) == vm_run_spec(code, t1));
    lemma_run_incs(code, t1, code.len() as int);
    let t2 = VmView {
        mem: m.mem.update(p, byte_add(m.mem[p], ((n as int) % 256) as u8)),
        ip: code.len() as int,
        ops: l0 + n,
        ..t1
    };
    assert(vm_run_spec(code, t1) == vm_run_spec(code, t2));
    assert(vm_run_spec(code, t2) == Ok::<VmView, crate::vm::VmError>(t2));
    assert(((n as int) % 256) as u8 == n);
    assert(c.addr == p);
}

/// One round of the duplicating loop: enter at `[`, add one to each of
/// two target cells, take one from the counter, and come back to the `[`.
#[verifier::rlimit(100)]
#[verifier::spinoff_prover]
proof fn lemma_duplicate_round(code: Seq<u8>, s: VmView, a: int, t1: int, t2: int)
    requires
        vm_wf(s),
        s.dp == a,
        0 <= a < MEM_SIZE,
        0 <= t1 < MEM_SIZE,
        0 <= t2 < MEM_SIZE,
        a != t1 && a != t2 && t1 != t2,
        s.mem[a] != 0,
        s.ip + 5 + seek_seq(a, t1).len() + seek_seq(t1, t2).len() + seek_seq(t2, a).len()
            <= code.len(),
        code[s.ip] == OP_OPEN,
        forall|j: int|
            0 <= j < seek_seq(a, t1).len() ==> code[s.ip + 1 + j] == seek_seq(a, t1)[j],
        code[s.ip + 1 + seek_seq(a, t1).len()] == OP_INC,
        forall|j: int|
            0 <= j < seek_seq(t1, t2).len() ==> code[s.ip + 2 + seek_seq(a, t1).len() + j]
                == seek_seq(t1, t2)[j],
        code[s.ip + 2 + seek_seq(a, t1).len() + seek_seq(t1, t2).len()] == OP_INC,
        forall|j: int|
            0 <= j < seek_seq(t2, a).len() ==> code[s.ip + 3 + seek_seq(a, t1).len() + seek_seq(
                t1,
                t2,
            ).len() + j] == seek_seq(t2, a)[j],
        code[s.ip + 3 + seek_seq(a, t1).len() + seek_seq(t1, t2).len() + seek_seq(t2, a).len()]
            == OP_DEC,
        code[s.ip + 4 + seek_seq(a, t1).len() + seek_seq(t1, t2).len() + seek_seq(t2, a).len()]
            == OP_CLOSE,
        s.ops + 5 + seek_seq(a, t1).len() + seek_seq(t1, t2).len() + seek_seq(t2, a).len()
            <= MAX_STEPS,
    ensures
        vm_run_spec(code, s) == vm_run_spec(
            code,
            VmView {
                mem: s.mem.update(t1, byte_add(s.mem[t1], 1)).update(
                    t2,
                    byte_add(s.mem[t2], 1),
                ).update(a, crate::cells::byte_sub(s.mem[a], 1)),
                ops: s.ops + 5 + seek_seq(a, t1).len() + seek_seq(t1, t2).len() + seek_seq(
                    t2,
                    a,
                ).len(),
                ..s
            },
        ),
{
    let l1 = seek_seq(a, t1).len() as int;
    let l2 = seek_seq(t1, t2).len() as int;
    let l3 = seek_seq(t2, a).len() as int;
    let i0 = s.ip;
    let s1 = VmView { stack: s.stack.push(i0), ip: i0 + 1, ops: s.ops + 1, ..s };
    assert(vm_step(code, s) == Ok::<VmView, crate::vm::VmError>(s1));
    assert(vm_run_spec(code, s) == vm_run_spec(code, s1));
    let k1 = lemma_run_seek(code, s1, a, t1);
    let s2 = VmView { dp: t1, ip: i0 + 1 + l1, ops: s.ops + 1 + l1, ..s1 };
    assert(vm_run_spec(code, s1) == vm_run_spec(code, s2));
    let s3 = VmView {
        mem: s2.mem.update(t1, byte_add(s2.mem[t1], 1)),
        ip: i0 + 2 + l1,
        ops: s.ops + 2 + l1,
        ..s2
    };
    assert(vm_step(code, s2) == Ok::<VmView, crate::vm::VmError>(s3));
    assert(vm_run_spec(code, s2) == vm_run_spec(code, s3));
    let k2 = lemma_run_seek(code, s3, t1, t2);
    let s4 = VmView { dp: t2, ip: i0 + 2 + l1 + l2, ops: s.ops + 2 + l1 + l2, ..s3 };
    assert(vm_run_spec(code, s3) == vm_run_spec(code, s4));
    let s5 = VmView {
        mem: s4.mem.update(t2, byte_add(s4.mem[t2], 1)),
        ip: i0 + 3 + l1 + l2,
        ops: s.ops + 3 + l1 + l2,
        ..s4
    };
    assert(vm_step(code, s4) == Ok::<VmView, crate::vm::VmError>(s5));
    assert(vm_run_spec(code, s4) == vm_run_spec(code, s5));
    let k3 = lemma_run_seek(code, s5, t2, a);
    let s6 = VmView { dp: a, ip: i0 + 3 + l1 + l2 + l3, ops: s.ops + 3 + l1 + l2 + l3, ..s5 };
    assert(vm_run_spec(code, s5) == vm_run_spec(code, s6));
    let s7 = VmView {
        mem: s6.mem.update(a, crate::cells::byte_sub(s6.mem[a], 1)),
        ip: i0 + 4 + l1 + l2 + l3,
        ops: s.ops + 4 + l1 + l2 + l3,
        ..s6
    };
    assert(vm_step(code, s6) == Ok::<VmView, crate::vm::VmError>(s7));
    assert(vm_run_spec(code, s6) == vm_run_spec(code, s7));
    assert(s7.stack.len() > 0 && s7.stack.last() == i0);
    let s8 = VmView { ip: i0, stack: s7.stack.drop_last(), ops: s.ops + 5 + l1 + l2 + l3, ..s7 };
    assert(vm_step(code, s7) == Ok::<VmView, crate::vm::VmError>(s8));
    assert(vm_run_spec(code, s7) == vm_run_spec(code, s8));
    assert(s8 =~= (VmView {
        mem: s.mem.update(t1, byte_add(s.mem[t1], 1)).update(t2, byte_add(s.mem[t2], 1)).update(
            a,
            crate::cells::byte_sub(s.mem[a], 1),
        ),
        ops: s.ops + 5 + seek_seq(a, t1).len() + seek_seq(t1, t2).len() + seek_seq(t2, a).len(),
        ..s
    }));
}

/// Running the duplicating loop `[ seek + seek + seek - ]` drains the
/// counter cell while adding its value to both target cells.
#[verifier::rlimit(100)]
#[verifier::spinoff_prover]
pub proof fn lemma_run_duplicate(code: Seq<u8>, s: VmView, a: int, t1: int, t2: int)
    requires
        vm_wf(s),
        s.dp == a,
        0 <= a < MEM_SIZE,
        0 <= t1 < MEM_SIZE,
        0 <= t2 < MEM_SIZE,
        a != t1 && a != t2 && t1 != t2,
        s.ip + 5 + seek_seq(a, t1).len() + seek_seq(t1, t2).len() + seek_seq(t2, a).len()
            <= code.len(),
        code[s.ip] == OP_OPEN,
        forall|j: int|
            0 <= j < seek_seq(a, t1).len() ==> code[s.ip + 1 + j] == seek_seq(a, t1)[j],
        code[s.ip + 1 + seek_seq(a, t1).len()] == OP_INC,
        forall|j: int|
            0 <= j < seek_seq(t1, t2).len() ==> code[s.ip + 2 + seek_seq(a, t1).len() + j]
                == seek_seq(t1, t2)[j],
        code[s.ip + 2 + seek_seq(a, t1).len() + seek_seq(t1, t2).len()] == OP_INC,
        forall|j: int|
            0 <= j < seek_seq(t2, a).len() ==> code[s.ip + 3 + seek_seq(a, t1).len() + seek_seq(
                t1,
                t2,
            ).len() + j] == seek_seq(t2, a)[j],
        code[s.ip + 3 + seek_seq(a, t1).len() + seek_seq(t1, t2).len() + seek_seq(t2, a).len()]
            == OP_DEC,
        code[s.ip + 4 + seek_seq(a, t1).len() + seek_seq(t1, t2).len() + seek_seq(t2, a).len()]
            == OP_CLOSE,
        s.ops + (s.mem[a] as int) * (5 + seek_seq(a, t1).len() + seek_seq(t1, t2).len()
            + seek_seq(t2, a).len()) + 1 <= MAX_STEPS,
    ensures
        vm_run_spec(code, s) == vm_run_spec(
            code,
            VmView {
                mem: s.mem.update(t1, byte_add(s.mem[t1], s.mem[a])).update(
                    t2,
                    byte_add(s.mem[t2], s.mem[a]),
                ).update(a, 0u8),
                ip: s.ip + 5 + seek_seq(a, t1).len() + seek_seq(t1, t2).len() + seek_seq(
                    t2,
                    a,
                ).len(),
                ops: s.ops + (s.mem[a] as int) * (5 + seek_seq(a, t1).len() + seek_seq(
                    t1,
                    t2,
                ).len() + seek_seq(t2, a).len()) + 1,
                ..s
            },
        ),
    decreases s.mem[a],
{
    let l1 = seek_seq(a, t1).len() as int;
    let l2 = seek_seq(t1, t2).len() as int;
    let l3 = seek_seq(t2, a).len() as int;
    let i0 = s.ip;
    let end = i0 + 5 + l1 + l2 + l3;
    let round = 5 + l1 + l2 + l3;
    assert(forall|j: int| 0 <= j < l1 ==> (seek_seq(a, t1)[j] == OP_RIGHT || seek_seq(a, t1)[j]
        == crate::context::OP_LEFT));
    assert(forall|j: int| 0 <= j < l2 ==> (seek_seq(t1, t2)[j] == OP_RIGHT || seek_seq(t1, t2)[j]
        == crate::context::OP_LEFT));
    assert(forall|j: int| 0 <= j < l3 ==> (seek_seq(t2, a)[j] == OP_RIGHT || seek_seq(t2, a)[j]
        == crate::context::OP_LEFT));
    if s.mem[s.dp] == 0 {
        assert forall|x: int| i0 + 1 <= x < i0 + 4 + l1 + l2 + l3 implies code[x] != OP_OPEN
            && code[x] != OP_CLOSE by {
            if x < i0 + 1 + l1 {
                assert(code[i0 + 1 + (x - i0 - 1)] == seek_seq(a, t1)[x - i0 - 1]);
            } else if x == i0 + 1 + l1 {
            } else if x < i0 + 2 + l1 + l2 {
                assert(code[i0 + 2 + l1 + (x - i0 - 2 - l1)] == seek_seq(t1, t2)[x - i0 - 2
                    - l1]);
            } else if x == i0 + 2 + l1 + l2 {
            } else if x < i0 + 3 + l1 + l2 + l3 {
                assert(code[i0 + 3 + l1 + l2 + (x - i0 - 3 - l1 - l2)] == seek_seq(t2, a)[x - i0
                    - 3 - l1 - l2]);
            }
        }
        lemma_skip_nonbrackets(code, i0 + 1, i0 + 4 + l1 + l2 + l3, 1);
        assert(skip_loop(code, end, 0) == Some(end));
        assert(skip_loop(code, i0 + 4 + l1 + l2 + l3, 1) == Some(end));
        let s2 = VmView { ip: end, ops: s.ops + 1, ..s };
        assert(vm_step(code, s) == Ok::<VmView, crate::vm::VmError>(s2));
        assert(VmView {
            mem: s.mem.update(t1, byte_add(s.mem[t1], s.mem[a])).update(
                t2,
                byte_add(s.mem[t2], s.mem[a]),
            ).update(a, 0u8),
            ip: end,
            ops: s.ops + (s.mem[a] as int) * round + 1,
            ..s
        } =~= s2);
    } else {
        let v = s.mem[a];
        assert(round <= (v as int) * round) by (nonlinear_arith)
            requires
                v >= 1,
                round >= 0,
        ;
        lemma_duplicate_round(code, s, a, t1, t2);
        let s8 = VmView {
            mem: s.mem.update(t1, byte_add(s.mem[t1], 1)).update(
                t2,
                byte_add(s.mem[t2], 1),
            ).update(a, crate::cells::byte_sub(s.mem[a], 1)),
            ops: s.ops + round,
            ..s
        };
        assert(s8.mem[a] == v - 1);
        assert(s8.ops + (s8.mem[a] as int) * round + 1 == s.ops + (v as int) * round + 1) by {
            assert((v - 1) * round + round == (v as int) * round) by (nonlinear_arith);
        }
        lemma_run_duplicate(code, s8, a, t1, t2);
        assert(s8.mem.update(t1, byte_add(s8.mem[t1], s8.mem[a])).update(
            t2,
            byte_add(s8.mem[t2], s8.mem[a]),
        ).update(a, 0u8) =~= s.mem.update(t1, byte_add(s.mem[t1], v)).update(
            t2,
            byte_add(s.mem[t2], v),
        ).update(a, 0u8)) by {
            assert(byte_add(byte_add(s.mem[t1], 1), (v - 1) as u8) == byte_add(s.mem[t1], v));
            assert(byte_add(byte_add(s.mem[t2], 1), (v - 1) as u8) == byte_add(s.mem[t2], v));
        }
        assert(VmView {
            mem: s8.mem.update(t1, byte_add(s8.mem[t1], s8.mem[a])).update(
                t2,
                byte_add(s8.mem[t2], s8.mem[a]),
            ).update(a, 0u8),
            ip: s8.ip + 5 + l1 + l2 + l3,
            ops: s8.ops + (s8.mem[a] as int) * round + 1,
            ..s8
        } =~= (VmView {
            mem: s.mem.update(t1, byte_add(s.mem[t1], v)).update(
                t2,
                byte_add(s.mem[t2], v),
            ).update(a, 0u8),
            ip: end,
            ops: s.ops + (v as int) * round + 1,
            ..s
        }));
    }
}

/// The exact byte layout of the code `copy` emits from a context whose
/// lowest free slot is `a`: clear the target, clear the scratch, drain the
/// source into the scratch, then drain the scratch back into source and
/// target together.
#[verifier::rlimit(100)]
#[verifier::spinoff_prover]
proof fn lemma_copy_code_shape(addr0: int, src: int, tgt: int, a: int, slots0: Seq<bool>)
    requires
        src != tgt,
        a >= 0,
        src != a,
        tgt != a,
        crate::slots::first_free(slots0) == a,
    ensures
        ({
            let c0 = CtxView {
                code: Seq::<u8>::empty(),
                addr: addr0,
                slots: slots0,
                known: Seq::<Option<u8>>::empty(),
            };
            let c = crate::logic::copy_spec(c0, src, tgt);
            &&& c.addr == a
            &&& c.code == seek_seq(addr0, tgt) + seq![OP_OPEN, OP_DEC, OP_CLOSE] + seek_seq(
                tgt,
                a,
            ) + seq![OP_OPEN, OP_DEC, OP_CLOSE] + seek_seq(a, src) + seq![OP_OPEN] + seek_seq(
                src,
                a,
            ) + seq![OP_INC] + seek_seq(a, src) + seq![OP_DEC] + seq![OP_CLOSE] + seek_seq(src, a)
                + seq![OP_OPEN] + seek_seq(a, src) + seq![OP_INC] + seek_seq(src, tgt)
                + seq![OP_INC] + seek_seq(tgt, a) + seq![OP_DEC] + seq![OP_CLOSE]
        }),
{
    let c0 = CtxView {
        code: Seq::<u8>::empty(),
        addr: addr0,
        slots: slots0,
        known: Seq::<Option<u8>>::empty(),
    };
    reveal(crate::logic::copy_spec);
    let c = crate::logic::copy_spec(c0, src, tgt);
    assert(seek_seq(src, src) =~= Seq::<u8>::empty());
    assert(seek_seq(a, a) =~= Seq::<u8>::empty());
    let x1 = crate::cells::clear_spec(crate::slots::allocated(c0), tgt);
    assert(x1.code =~= seek_seq(addr0, tgt) + seq![OP_OPEN, OP_DEC, OP_CLOSE]);
    assert(x1.addr == tgt);
    let x2 = crate::cells::clear_spec(x1, a);
    assert(known_at(x1.known, a) is None);
    assert(x2.code =~= x1.code + (seek_seq(tgt, a) + seq![OP_OPEN, OP_DEC, OP_CLOSE]));
    assert(x2.addr == a);
    let x3 = crate::logic::mov_spec(x1, src, a);
    assert(x3.code =~= x2.code + (seek_seq(a, src) + seq![OP_OPEN] + seek_seq(src, a)
        + seq![OP_INC] + seek_seq(a, src) + seq![OP_DEC] + seq![OP_CLOSE]));
    assert(x3.addr == src);
    assert(c.code =~= x3.code + (seek_seq(src, a) + seq![OP_OPEN] + seek_seq(a, src)
        + seq![OP_INC] + seek_seq(src, tgt) + seq![OP_INC] + seek_seq(tgt, a) + seq![OP_DEC]
        + seq![OP_CLOSE]));
    assert(c.code =~= seek_seq(addr0, tgt) + seq![OP_OPEN, OP_DEC, OP_CLOSE] + seek_seq(tgt, a)
        + seq![OP_OPEN, OP_DEC, OP_CLOSE] + seek_seq(a, src) + seq![OP_OPEN] + seek_seq(src, a)
        + seq![OP_INC] + seek_seq(a, src) + seq![OP_DEC] + seq![OP_CLOSE] + seek_seq(src, a)
        + seq![OP_OPEN] + seek_seq(a, src) + seq![OP_INC] + seek_seq(src, tgt) + seq![OP_INC]
        + seek_seq(tgt, a) + seq![OP_DEC] + seq![OP_CLOSE]);
}

/// Reads the byte layout of `copy`'s emission position by position.
#[verifier::rlimit(100)]
#[verifier::spinoff_prover]
proof fn lemma_copy_code_cells(addr0: int, src: int, tgt: int, a: int, slots0: Seq<bool>)
    requires
        src != tgt,
        a >= 0,
        src != a,
        tgt != a,
        crate::slots::first_free(slots0) == a,
    ensures
        ({
            let c0 = CtxView {
                code: Seq::<u8>::empty(),
                addr: addr0,
                slots: slots0,
                known: Seq::<Option<u8>>::empty(),
            };
            let code = crate::logic::copy_spec(c0, src, tgt).code;
            let p0 = seek_seq(addr0, tgt).len() as int;
            let q1 = seek_seq(tgt, a).len() as int;
            let r1 = seek_seq(a, src).len() as int;
            let m1 = seek_seq(src, a).len() as int;
            let st = seek_seq(src, tgt).len() as int;
            let o1 = p0 + 3;
            let o2 = o1 + q1 + 3;
            let t1pos = o2 + r1;
            let o3 = t1pos + 4 + m1 + r1;
            let d1pos = o3 + m1;
            &&& crate::logic::copy_spec(c0, src, tgt).addr == a
            &&& code.len() == d1pos + 5 + r1 + st + q1
            &&& (forall|j: int| 0 <= j < p0 ==> code[j] == seek_seq(addr0, tgt)[j])
            &&& code[p0] == OP_OPEN && code[p0 + 1] == OP_DEC && code[p0 + 2] == OP_CLOSE
            &&& (forall|j: int| 0 <= j < q1 ==> code[o1 + j] == seek_seq(tgt, a)[j])
            &&& code[o1 + q1] == OP_OPEN && code[o1 + q1 + 1] == OP_DEC && code[o1 + q1 + 2]
                == OP_CLOSE
            &&& (forall|j: int| 0 <= j < r1 ==> code[o2 + j] == seek_seq(a, src)[j])
            &&& code[t1pos] == OP_OPEN
            &&& (forall|j: int| 0 <= j < m1 ==> code[t1pos + 1 + j] == seek_seq(src, a)[j])
            &&& code[t1pos + 1 + m1] == OP_INC
            &&& (forall|j: int| 0 <= j < r1 ==> code[t1pos + 2 + m1 + j] == seek_seq(a, src)[j])
            &&& code[t1pos + 2 + m1 + r1] == OP_DEC
            &&& code[t1pos + 3 + m1 + r1] == OP_CLOSE
            &&& (forall|j: int| 0 <= j < m1 ==> code[o3 + j] == seek_seq(src, a)[j])
            &&& code[d1pos] == OP_OPEN
            &&& (forall|j: int| 0 <= j < r1 ==> code[d1pos + 1 + j] == seek_seq(a, src)[j])
            &&& code[d1pos + 1 + r1] == OP_INC
            &&& (forall|j: int| 0 <= j < st ==> code[d1pos + 2 + r1 + j] == seek_seq(
                src,
                tgt,
            )[j])
            &&& code[d1pos + 2 + r1 + st] == OP_INC
            &&& (forall|j: int| 0 <= j < q1 ==> code[d1pos + 3 + r1 + st + j] == seek_seq(
                tgt,
                a,
            )[j])
            &&& code[d1pos + 3 + r1 + st + q1] == OP_DEC
            &&& code[d1pos + 4 + r1 + st + q1] == OP_CLOSE
        }),
{
    lemma_copy_code_shape(addr0, src, tgt, a, slots0);
}

/// The first half of `copy`'s execution: clear the target, clear the
/// scratch, and drain the source into the scratch.
#[verifier::rlimit(100)]
#[verifier::spinoff_prover]
proof fn lemma_copy_first_half(m: VmView, src: int, tgt: int, a: int, slots0: Seq<bool>)
    requires
        vm_wf(m),
        m.ip == 0,
        m.ops == 0,
        0 <= src < MEM_SIZE,
        0 <= tgt < MEM_SIZE,
        0 <= a < MEM_SIZE,
        src != tgt && src != a && tgt != a,
        crate::slots::first_free(slots0) == a,
        seek_seq(m.dp, tgt).len() + 3 * (m.mem[tgt] as int) + 1 + seek_seq(tgt, a).len() + 3 * (
        m.mem[a] as int) + 1 + seek_seq(a, src).len() + (m.mem[src] as int) * (4 + seek_seq(
            src,
            a,
        ).len() + seek_seq(a, src).len()) + 1 <= MAX_STEPS,
    ensures
        ({
            let c0 = CtxView {
                code: Seq::<u8>::empty(),
                addr: m.dp,
                slots: slots0,
                known: Seq::<Option<u8>>::empty(),
            };
            let code = crate::logic::copy_spec(c0, src, tgt).code;
            vm_run_spec(code, m) == vm_run_spec(
                code,
                VmView {
                    mem: m.mem.update(tgt, 0u8).update(a, m.mem[src]).update(src, 0u8),
                    dp: src,
                    ip: seek_seq(m.dp, tgt).len() + 3 + seek_seq(tgt, a).len() + 3 + seek_seq(
                        a,
                        src,
                    ).len() + 4 + seek_seq(src, a).len() + seek_seq(a, src).len() as int,
                    ops: seek_seq(m.dp, tgt).len() + 3 * (m.mem[tgt] as int) + 1 + seek_seq(
                        tgt,
                        a,
                    ).len() + 3 * (m.mem[a] as int) + 1 + seek_seq(a, src).len() + (
                    m.mem[src] as int) * (4 + seek_seq(src, a).len() + seek_seq(a, src).len())
                        + 1,
                    ..m
                },
            )
        }),
{
    let c0 = CtxView {
        code: Seq::<u8>::empty(),
        addr: m.dp,
        slots: slots0,
        known: Seq::<Option<u8>>::empty(),
    };
    lemma_copy_code_cells(m.dp, src, tgt, a, slots0);
    let code = crate::logic::copy_spec(c0, src, tgt).code;
    let p0 = seek_seq(m.dp, tgt).len() as int;
    let q1 = seek_seq(tgt, a).len() as int;
    let r1 = seek_seq(a, src).len() as int;
    let m1 = seek_seq(src, a).len() as int;
    let o1 = p0 + 3;
    let o2 = o1 + q1 + 3;
    let t1pos = o2 + r1;
    let o3 = t1pos + 4 + m1 + r1;
    let v = m.mem[src];
    let wt = m.mem[tgt];
    let wa = m.mem[a];
    assert(0 <= (v as int) * (4 + m1 + r1)) by (nonlinear_arith)
        requires
            v >= 0,
            m1 >= 0,
            r1 >= 0,
    ;
    let k0 = lemma_run_seek(code, m, m.dp, tgt);
    let u1 = VmView { dp: tgt, ip: p0, ops: p0, ..m };
    assert(vm_run_spec(code, m) == vm_run_spec(code, u1));
    lemma_run_clear(code, u1);
    let u2 = VmView {
        mem: m.mem.update(tgt, 0u8),
        ip: o1,
        ops: p0 + 3 * (wt as int) + 1,
        ..u1
    };
    assert(vm_run_spec(code, u1) == vm_run_spec(code, u2));
    let k1 = lemma_run_seek(code, u2, tgt, a);
    let u3 = VmView { dp: a, ip: o1 + q1, ops: u2.ops + q1, ..u2 };
    assert(vm_run_spec(code, u2) == vm_run_spec(code, u3));
    assert(u3.mem[a] == wa);
    lemma_run_clear(code, u3);
    let u4 = VmView {
        mem: u3.mem.update(a, 0u8),
        ip: o2,
        ops: u3.ops + 3 * (wa as int) + 1,
        ..u3
    };
    assert(vm_run_spec(code, u3) == vm_run_spec(code, u4));
    let k2 = lemma_run_seek(code, u4, a, src);
    let u5 = VmView { dp: src, ip: t1pos, ops: u4.ops + r1, ..u4 };
    assert(vm_run_spec(code, u4) == vm_run_spec(code, u5));
    assert(u5.mem[src] == v);
    lemma_run_transfer(code, u5, src, a);
    let u6 = VmView {
        mem: u5.mem.update(a, byte_add(u5.mem[a], v)).update(src, 0u8),
        ip: o3,
        ops: u5.ops + (v as int) * (4 + m1 + r1) + 1,
        ..u5
    };
    assert(vm_run_spec(code, u5) == vm_run_spec(code, u6));
    assert(byte_add(0, v) == v);
    assert(u6 =~= (VmView {
        mem: m.mem.update(tgt, 0u8).update(a, m.mem[src]).update(src, 0u8),
        dp: src,
        ip: o3,
        ops: u5.ops + (v as int) * (4 + m1 + r1) + 1,
        ..m
    }));
}

/// Copies on the tape, for all cell values: executing the code that
/// `copy(source, target)` emits — with its scratch cell at the lowest free
/// address `a` — leaves the target holding what the source holds, the
/// source preserved, and the scratch zeroed.
#[verifier::rlimit(100)]
#[verifier::spinoff_prover]
pub proof fn lemma_copy_emission_sound(m: VmView, src: int, tgt: int, a: int, slots0: Seq<bool>)
    requires
        vm_wf(m),
        m.ip == 0,
        m.ops == 0,
        0 <= src < MEM_SIZE,
        0 <= tgt < MEM_SIZE,
        0 <= a < MEM_SIZE,
        src != tgt && src != a && tgt != a,
        crate::slots::first_free(slots0) == a,
        seek_seq(m.dp, tgt).len() + 3 * (m.mem[tgt] as int) + 1 + seek_seq(tgt, a).len() + 3 * (
        m.mem[a] as int) + 1 + seek_seq(a, src).len() + (m.mem[src] as int) * (4 + seek_seq(
            src,
            a,
        ).len() + seek_seq(a, src).len()) + 1 + seek_seq(src, a).len() + (m.mem[src] as int) * (5
            + seek_seq(a, src).len() + seek_seq(src, tgt).len() + seek_seq(tgt, a).len()) + 1
            <= MAX_STEPS,
    ensures
        ({
            let c0 = CtxView {
                code: Seq::<u8>::empty(),
                addr: m.dp,
                slots: slots0,
                known: Seq::<Option<u8>>::empty(),
            };
            let c = crate::logic::copy_spec(c0, src, tgt);
            &&& vm_run_spec(c.code, m) matches Ok(r) && r.mem == m.mem.update(
                tgt,
                m.mem[src],
            ).update(a, 0u8) && r.dp == c.addr
        }),
{
    let c0 = CtxView {
        code: Seq::<u8>::empty(),
        addr: m.dp,
        slots: slots0,
        known: Seq::<Option<u8>>::empty(),
    };
    lemma_copy_code_cells(m.dp, src, tgt, a, slots0);
    lemma_copy_first_half(m, src, tgt, a, slots0);
    let c = crate::logic::copy_spec(c0, src, tgt);
    let code = c.code;
    let p0 = seek_seq(m.dp, tgt).len() as int;
    let q1 = seek_seq(tgt, a).len() as int;
    let r1 = seek_seq(a, src).len() as int;
    let m1 = seek_seq(src, a).len() as int;
    let st = seek_seq(src, tgt).len() as int;
    let o1 = p0 + 3;
    let o2 = o1 + q1 + 3;
    let t1pos = o2 + r1;
    let o3 = t1pos + 4 + m1 + r1;
    let d1pos = o3 + m1;
    let end = d1pos + 5 + r1 + st + q1;
    let v = m.mem[src];
    let wt = m.mem[tgt];
    let wa = m.mem[a];
    assert(0 <= (v as int) * (5 + r1 + st + q1)) by (nonlinear_arith)
        requires
            v >= 0,
            r1 >= 0,
            st >= 0,
            q1 >= 0,
    ;
    assert(0 <= (v as int) * (4 + m1 + r1)) by (nonlinear_arith)
        requires
            v >= 0,
            m1 >= 0,
            r1 >= 0,
    ;
    let u6 = VmView {
        mem: m.mem.update(tgt, 0u8).update(a, m.mem[src]).update(src, 0u8),
        dp: src,
        ip: o3,
        ops: p0 + 3 * (wt as int) + 1 + q1 + 3 * (wa as int) + 1 + r1 + (v as int) * (4 + m1
            + r1) + 1,
        ..m
    };
    assert(vm_run_spec(code, m) == vm_run_spec(code, u6));
    let k3 = lemma_run_seek(code, u6, src, a);
    let u7 = VmView { dp: a, ip: d1pos, ops: u6.ops + m1, ..u6 };
    assert(vm_run_spec(code, u6) == vm_run_spec(code, u7));
    assert(u7.mem[a] == v);
    lemma_run_duplicate(code, u7, a, src, tgt);
    let u8 = VmView {
        mem: u7.mem.update(src, byte_add(u7.mem[src], v)).update(
            tgt,
            byte_add(u7.mem[tgt], v),
        ).update(a, 0u8),
        ip: end,
        ops: u7.ops + (v as int) * (5 + r1 + st + q1) + 1,
        ..u7
    };
    assert(vm_run_spec(code, u7) == vm_run_spec(code, u8));
    assert(vm_run_spec(code, u8) == Ok::<VmView, crate::vm::VmError>(u8));
    assert(byte_add(0, v) == v);
    assert(u8.mem =~= m.mem.update(tgt, m.mem[src]).update(a, 0u8));
    assert(c.addr == a);
}

/// The exact byte layout of the code `not` emits from a context whose
/// lowest free slot is `a`: set the scratch to one, drain the operand
/// while decrementing the scratch, then drain the scratch back into the
/// operand.
#[verifier::rlimit(100)]
#[verifier::spinoff_prover]
proof fn lemma_not_code_shape(addr0: int, p: int, a: int, slots0: Seq<bool>)
    requires
        a >= 0,
        p != a,
        crate::slots::first_free(slots0) == a,
    ensures
        ({
            let c0 = CtxView {
                code: Seq::<u8>::empty(),
                addr: addr0,
                slots: slots0,
                known: Seq::<Option<u8>>::empty(),
            };
            let c = crate::logic::not_spec(c0, p);
            &&& c.addr == a
            &&& c.code == seek_seq(addr0, a) + seq![OP_OPEN, OP_DEC, OP_CLOSE] + rep(OP_INC, 1)
                + seek_seq(a, p) + seq![OP_OPEN] + seek_seq(p, a) + seq![OP_DEC] + seek_seq(a, p)
                + seq![OP_DEC] + seq![OP_CLOSE] + seek_seq(p, a) + seq![OP_OPEN] + seek_seq(a, p)
                + seq![OP_INC] + seek_seq(p, a) + seq![OP_DEC] + seq![OP_CLOSE]
        }),
{
    let c0 = CtxView {
        code: Seq::<u8>::empty(),
        addr: addr0,
        slots: slots0,
        known: Seq::<Option<u8>>::empty(),
    };
    let c = crate::logic::not_spec(c0, p);
    assert(seek_seq(p, p) =~= Seq::<u8>::empty());
    assert(seek_seq(a, a) =~= Seq::<u8>::empty());
    assert(c.code =~= seek_seq(addr0, a) + seq![OP_OPEN, OP_DEC, OP_CLOSE] + rep(OP_INC, 1)
        + seek_seq(a, p) + seq![OP_OPEN] + seek_seq(p, a) + seq![OP_DEC] + seek_seq(a, p)
        + seq![OP_DEC] + seq![OP_CLOSE] + seek_seq(p, a) + seq![OP_OPEN] + seek_seq(a, p)
        + seq![OP_INC] + seek_seq(p, a) + seq![OP_DEC] + seq![OP_CLOSE]);
}


/// Reads the byte layout of `not`'s emission position by position.
#[verifier::rlimit(100)]
#[verifier::spinoff_prover]
proof fn lemma_not_code_cells(addr0: int, p: int, a: int, slots0: Seq<bool>)
    requires
        a >= 0,
        p != a,
        crate::slots::first_free(slots0) == a,
    ensures
        ({
            let c0 = CtxView {
                code: Seq::<u8>::empty(),
                addr: addr0,
                slots: slots0,
                known: Seq::<Option<u8>>::empty(),
            };
            let code = crate::logic::not_spec(c0, p).code;
            let l0 = seek_seq(addr0, a).len() as int;
            let lap = seek_seq(a, p).len() as int;
            let lpa = seek_seq(p, a).len() as int;
            let o1 = l0 + 4;
            let t1pos = o1 + lap;
            let o2 = t1pos + 4 + lpa + lap;
            let t2pos = o2 + lpa;
            &&& crate::logic::not_spec(c0, p).addr == a
            &&& code.len() == t2pos + 4 + lap + lpa
            &&& (forall|j: int| 0 <= j < l0 ==> code[j] == seek_seq(addr0, a)[j])
            &&& code[l0] == OP_OPEN && code[l0 + 1] == OP_DEC && code[l0 + 2] == OP_CLOSE
            &&& code[l0 + 3] == OP_INC
            &&& (forall|j: int| 0 <= j < lap ==> code[o1 + j] == seek_seq(a, p)[j])
            &&& code[t1pos] == OP_OPEN
            &&& (forall|j: int| 0 <= j < lpa ==> code[t1pos + 1 + j] == seek_seq(p, a)[j])
            &&& code[t1pos + 1 + lpa] == OP_DEC
            &&& (forall|j: int| 0 <= j < lap ==> code[t1pos + 2 + lpa + j] == seek_seq(a, p)[j])
            &&& code[t1pos + 2 + lpa + lap] == OP_DEC
            &&& code[t1pos + 3 + lpa + lap] == OP_CLOSE
            &&& (forall|j: int| 0 <= j < lpa ==> code[o2 + j] == seek_seq(p, a)[j])
            &&& code[t2pos] == OP_OPEN
            &&& (forall|j: int| 0 <= j < lap ==> code[t2pos + 1 + j] == seek_seq(a, p)[j])
            &&& code[t2pos + 1 + lap] == OP_INC
            &&& (forall|j: int| 0 <= j < lpa ==> code[t2pos + 2 + lap + j] == seek_seq(p, a)[j])
            &&& code[t2pos + 2 + lap + lpa] == OP_DEC
            &&& code[t2pos + 3 + lap + lpa] == OP_CLOSE
        }),
{
    lemma_not_code_shape(addr0, p, a, slots0);
    assert(rep(OP_INC, 1)[0] == OP_INC);
}

/// Boolean negation on the tape, for all cell values: executing the code
/// that `not(p)` emits — with its scratch cell at the lowest free address
/// `a` — replaces the cell with `1 - v`, wrapping; on a boolean-valued
/// cell that is exactly the negation.
#[verifier::rlimit(100)]
#[verifier::spinoff_prover]
pub proof fn lemma_not_emission_sound(m: VmView, p: int, a: int, slots0: Seq<bool>)
    requires
        vm_wf(m),
        m.ip == 0,
        m.ops == 0,
        0 <= p < MEM_SIZE,
        0 <= a < MEM_SIZE,
        p != a,
        crate::slots::first_free(slots0) == a,
        seek_seq(m.dp, a).len() + 3 * (m.mem[a] as int) + 2 + seek_seq(a, p).len() + (
        m.mem[p] as int) * (4 + seek_seq(p, a).len() + seek_seq(a, p).len()) + 1 + seek_seq(
            p,
            a,
        ).len() + (crate::cells::byte_sub(1, m.mem[p]) as int) * (4 + seek_seq(a, p).len()
            + seek_seq(p, a).len()) + 1 <= MAX_STEPS,
    ensures
        ({
            let c0 = CtxView {
                code: Seq::<u8>::empty(),
                addr: m.dp,
                slots: slots0,
                known: Seq::<Option<u8>>::empty(),
            };
            let c = crate::logic::not_spec(c0, p);
            &&& vm_run_spec(c.code, m) matches Ok(r) && r.mem == m.mem.update(
                p,
                crate::cells::byte_sub(1, m.mem[p]),
            ).update(a, 0u8) && r.dp == c.addr
        }),
{
    let c0 = CtxView {
        code: Seq::<u8>::empty(),
        addr: m.dp,
        slots: slots0,
        known: Seq::<Option<u8>>::empty(),
    };
    lemma_not_code_cells(m.dp, p, a, slots0);
    let c = crate::logic::not_spec(c0, p);
    let code = c.code;
    let l0 = seek_seq(m.dp, a).len() as int;
    let lap = seek_seq(a, p).len() as int;
    let lpa = seek_seq(p, a).len() as int;
    let o1 = l0 + 4;
    let t1pos = o1 + lap;
    let o2 = t1pos + 4 + lpa + lap;
    let t2pos = o2 + lpa;
    let end = t2pos + 4 + lap + lpa;
    let v = m.mem[p];
    let wa = m.mem[a];
    let w = crate::cells::byte_sub(1, v);
    assert(0 <= (v as int) * (4 + lpa + lap)) by (nonlinear_arith)
        requires
            v >= 0,
            lpa >= 0,
            lap >= 0,
    ;
    assert(0 <= (w as int) * (4 + lap + lpa)) by (nonlinear_arith)
        requires
            w >= 0,
            lpa >= 0,
            lap >= 0,
    ;
    let k0 = lemma_run_seek(code, m, m.dp, a);
    let u1 = VmView { dp: a, ip: l0, ops: l0, ..m };
    assert(vm_run_spec(code, m) == vm_run_spec(code, u1));
    lemma_run_clear(code, u1);
    let u2 = VmView {
        mem: m.mem.update(a, 0u8),
        ip: l0 + 3,
        ops: l0 + 3 * (wa as int) + 1,
        ..u1
    };
    assert(vm_run_spec(code, u1) == vm_run_spec(code, u2));
    lemma_run_incs(code, u2, u2.ip + 1);
    let u3 = VmView {
        mem: u2.mem.update(a, 1u8),
        ip: l0 + 4,
        ops: u2.ops + 1,
        ..u2
    };
    assert(VmView {
        mem: u2.mem.update(u2.dp, byte_add(u2.mem[u2.dp], ((u2.ip + 1 - u2.ip) % 256) as u8)),
        ip: u2.ip + 1,
        ops: u2.ops + 1,
        ..u2
    } =~= u3);
    assert(vm_run_spec(code, u2) == vm_run_spec(code, u3));
    let k1 = lemma_run_seek(code, u3, a, p);
    let u4 = VmView { dp: p, ip: t1pos, ops: u3.ops + lap, ..u3 };
    assert(vm_run_spec(code, u3) == vm_run_spec(code, u4));
    assert(u4.mem[p] == v && u4.mem[a] == 1);
    lemma_run_transfer_down(code, u4, p, a);
    let u5 = VmView {
        mem: u4.mem.update(a, crate::cells::byte_sub(1, v)).update(p, 0u8),
        ip: o2,
        ops: u4.ops + (v as int) * (4 + lpa + lap) + 1,
        ..u4
    };
    assert(u4.mem.update(a, crate::cells::byte_sub(u4.mem[a], v)).update(p, 0u8) =~= u5.mem);
    assert(vm_run_spec(code, u4) == vm_run_spec(code, u5));
    let k2 = lemma_run_seek(code, u5, p, a);
    let u6 = VmView { dp: a, ip: t2pos, ops: u5.ops + lpa, ..u5 };
    assert(vm_run_spec(code, u5) == vm_run_spec(code, u6));
    assert(u6.mem[a] == w);
    lemma_run_transfer(code, u6, a, p);
    let u7 = VmView {
        mem: u6.mem.update(p, byte_add(u6.mem[p], w)).update(a, 0u8),
        ip: end,
        ops: u6.ops + (w as int) * (4 + lap + lpa) + 1,
        ..u6
    };
    assert(vm_run_spec(code, u6) == vm_run_spec(code, u7));
    assert(vm_run_spec(code, u7) == Ok::<VmView, crate::vm::VmError>(u7));
    assert(byte_add(0, w) == w);
    assert(u7.mem =~= m.mem.update(p, w).update(a, 0u8));
    assert(c.addr == a);
}

} // verus!
