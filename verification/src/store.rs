//! Stack- and memory-movement handlers: POP, the memory instructions, and
//! the PUSH, DUP and SWAP families.

use vstd::prelude::*;
use crate::error::VmError;
use crate::opcode::Control;
use crate::vm::{Vm, dup_effect, mload_effect, msize_effect, mstore_effect, mstore8_effect,
    pop_effect, pop_index, push_effect, swap_effect};
use crate::word::Word;

verus! {

/// POP (0x50): discards the top word.
pub fn pop(vm: &mut Vm) -> (c: Control)
    requires
        old(vm).wf(),
    ensures
        final(vm).wf(),
        pop_effect(*old(vm), *final(vm), c),
{
    match vm.stack.pop() {
        Ok(_) => Control::Continue(1),
        Err(e) => Control::Error(e),
    }
}

/// MLOAD (0x51): pops the offset and touches the 32-byte word there,
/// growing memory to cover it.
pub fn mload(vm: &mut Vm) -> (c: Control)
    requires
        old(vm).wf(),
    ensures
        final(vm).wf(),
        mload_effect(*old(vm), *final(vm), c),
{
    match pop_index(&mut vm.stack) {
        Err(e) => Control::Error(e),
        Ok(offset) => {
            if offset > usize::MAX - 63 {
                return Control::Error(VmError::UnsupportedOperation);
            }
            let _ = vm.memory.load(offset);
            Control::Continue(1)
        },
    }
}

/// MSTORE (0x52): pops the offset, then a word, and stores all 32 of its
/// bytes at the offset.
pub fn mstore(vm: &mut Vm) -> (c: Control)
    requires
        old(vm).wf(),
    ensures
        final(vm).wf(),
        mstore_effect(*old(vm), *final(vm), c),
{
    let offset = match pop_index(&mut vm.stack) {
        Ok(v) => v,
        Err(e) => {
            proof {
                if vm.stack@.len() == 0 {
                    assert(vm.stack@ =~= Seq::<Word>::empty());
                }
            }
            return Control::Error(e);
        },
    };
    let value = match vm.stack.pop() {
        Ok(w) => w,
        Err(e) => {
            proof {
                assert(vm.stack@ =~= Seq::<Word>::empty());
            }
            return Control::Error(e);
        },
    };
    proof {
        assert(vm.stack@ =~= old(vm).stack@.take(old(vm).stack@.len() - 2));
    }
    if offset > usize::MAX - 63 {
        return Control::Error(VmError::UnsupportedOperation);
    }
    let bytes = value.to_be_bytes();
    vm.memory.store(offset, &bytes);
    Control::Continue(1)
}

/// MSTORE8 (0x53): pops the offset, then a word, and stores only its least
/// significant byte at the offset.
pub fn mstore8(vm: &mut Vm) -> (c: Control)
    requires
        old(vm).wf(),
    ensures
        final(vm).wf(),
        mstore8_effect(*old(vm), *final(vm), c),
{
    let offset = match pop_index(&mut vm.stack) {
        Ok(v) => v,
        Err(e) => {
            proof {
                if vm.stack@.len() == 0 {
                    assert(vm.stack@ =~= Seq::<Word>::empty());
                }
            }
            return Control::Error(e);
        },
    };
    let value = match vm.stack.pop() {
        Ok(w) => w,
        Err(e) => {
            proof {
                assert(vm.stack@ =~= Seq::<Word>::empty());
            }
            return Control::Error(e);
        },
    };
    proof {
        assert(vm.stack@ =~= old(vm).stack@.take(old(vm).stack@.len() - 2));
    }
    if offset > usize::MAX - 32 {
        return Control::Error(VmError::UnsupportedOperation);
    }
    let byte = value.byte_at(31);
    vm.memory.store8(offset, byte);
    Control::Continue(1)
}

/// MSIZE (0x59): pushes the current memory size, always a multiple of 32.
pub fn msize(vm: &mut Vm) -> (c: Control)
    requires
        old(vm).wf(),
    ensures
        final(vm).wf(),
        msize_effect(*old(vm), *final(vm), c),
{
    let size = vm.memory.size();
    let w = Word::from_usize(size);
    let ghost mid = vm.stack@;
    match vm.stack.push(w) {
        Ok(()) => {
            proof {
                assert(vm.stack@.drop_last() =~= mid);
            }
            Control::Continue(1)
        },
        Err(e) => Control::Error(e),
    }
}

/// PUSHn (0x60..0x7f): reads the next `n` code bytes (truncated at the end
/// of the code), right-justifies them into a word and pushes it, advancing
/// past the immediate.
pub fn push_n(vm: &mut Vm, n: usize) -> (c: Control)
    requires
        old(vm).wf(),
        1 <= n <= 32,
        old(vm).pc < old(vm).code@.len(),
    ensures
        final(vm).wf(),
        push_effect(*old(vm), *final(vm), c, n as nat),
{
    let pc = vm.pc;
    let len = vm.code.len();
    let end = if pc + 1 + n <= len {
        pc + 1 + n
    } else {
        len
    };
    let mut buf: Vec<u8> = Vec::new();
    let mut i: usize = pc + 1;
    while i < end
        invariant
            pc + 1 <= i <= end <= vm.code@.len(),
            buf@ == vm.code@.subrange(pc + 1, i as int),
        decreases end - i,
    {
        buf.push(vm.code[i]);
        proof {
            assert(buf@ =~= vm.code@.subrange(pc + 1, i + 1));
        }
        i += 1;
    }
    proof {
        assert(buf@.len() <= n);
    }
    let w = Word::from_be_slice(buf.as_slice());
    let ghost mid = vm.stack@;
    match vm.stack.push(w) {
        Ok(()) => {
            proof {
                assert(vm.stack@.drop_last() =~= mid);
            }
            Control::Continue(n + 1)
        },
        Err(e) => Control::Error(e),
    }
}

/// DUPn (0x80..0x8f): pushes a copy of the word at depth `n - 1`.
pub fn dup_n(vm: &mut Vm, n: usize) -> (c: Control)
    requires
        old(vm).wf(),
        1 <= n <= 16,
    ensures
        final(vm).wf(),
        dup_effect(*old(vm), *final(vm), c, n as nat),
{
    let v = match vm.stack.peek(n - 1) {
        Ok(v) => v,
        Err(e) => return Control::Error(e),
    };
    match vm.stack.push(v) {
        Ok(()) => Control::Continue(1),
        Err(e) => Control::Error(e),
    }
}

/// SWAPn (0x90..0x9f): exchanges the top word with the word at depth `n`.
pub fn swap_n(vm: &mut Vm, n: usize) -> (c: Control)
    requires
        old(vm).wf(),
        1 <= n <= 16,
    ensures
        final(vm).wf(),
        swap_effect(*old(vm), *final(vm), c, n as nat),
{
    match vm.stack.swap(0, n) {
        Ok(()) => Control::Continue(1),
        Err(e) => Control::Error(e),
    }
}

} // verus!
