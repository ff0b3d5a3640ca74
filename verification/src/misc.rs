//! Control-flow and termination handlers, and the code-introspection
//! handlers that the dispatch table leaves unwired.

use vstd::prelude::*;
use crate::error::VmError;
use crate::memory::{grown_len, written};
use crate::opcode::Control;
use crate::vm::{Vm, exit_effect, invalid_effect, jump_effect, jumpdest_effect, jumpi_effect,
    pc_effect, pop_index, popped, stop_effect, topn, keeps_program};
use crate::word::Word;

verus! {

/// STOP (0x00): terminates normally.
pub fn stop(vm: &mut Vm) -> (c: Control)
    requires
        old(vm).wf(),
    ensures
        final(vm).wf(),
        stop_effect(*old(vm), *final(vm), c),
{
    Control::Stop
}

/// CODESIZE (0x38, unwired in the dispatch table): pushes the bytecode
/// length.
pub fn codesize(vm: &mut Vm) -> (c: Control)
    requires
        old(vm).wf(),
    ensures
        final(vm).wf(),
        crate::vm::push_value_effect(*old(vm), *final(vm), c, old(vm).code@.len()),
{
    let size = vm.code.len();
    let w = Word::from_usize(size);
    let ghost mid = vm.stack@;
    match vm.stack.push(w) {
        Ok(()) => {
            proof {
                assert(vm.stack@.drop_last() =~= mid);
            }
            Control::Continue(1)
        },
        Err(e) => Control::Error(e),
    }
}

/// CODECOPY (0x39, unwired in the dispatch table): pops a memory offset, a
/// code offset and a size, and copies that code slice into memory. A range
/// outside the code, or one that overflows the host index space, is the
/// `UnsupportedOperation` fault rather than the panic a raw slice would
/// give.
pub fn codecopy(vm: &mut Vm) -> (c: Control)
    requires
        old(vm).wf(),
    ensures
        final(vm).wf(),
        keeps_program(*old(vm), *final(vm)),
        final(vm).return_data == old(vm).return_data,
        codecopy_effect(*old(vm), *final(vm), c),
{
    let mem_offset = match pop_index(&mut vm.stack) {
        Ok(v) => v,
        Err(e) => {
            proof {
                if vm.stack@.len() == 0 {
                    assert(vm.stack@ =~= Seq::<Word>::empty());
                }
            }
            return Control::Error(e);
        },
    };
    let code_offset = match pop_index(&mut vm.stack) {
        Ok(v) => v,
        Err(e) => {
            proof {
                if vm.stack@.len() == 0 {
                    assert(vm.stack@ =~= Seq::<Word>::empty());
                }
                if old(vm).stack@.len() >= 2 {
                    assert(vm.stack@ =~= old(vm).stack@.take(old(vm).stack@.len() - 2));
                }
            }
            return Control::Error(e);
        },
    };
    let code_size = match pop_index(&mut vm.stack) {
        Ok(v) => v,
        Err(e) => {
            proof {
                if vm.stack@.len() == 0 {
                    assert(vm.stack@ =~= Seq::<Word>::empty());
                }
                if old(vm).stack@.len() >= 3 {
                    assert(vm.stack@ =~= old(vm).stack@.take(old(vm).stack@.len() - 3));
                }
            }
            return Control::Error(e);
        },
    };
    proof {
        assert(vm.stack@ =~= old(vm).stack@.take(old(vm).stack@.len() - 3));
    }
    if code_size > vm.code.len() || code_offset > vm.code.len() - code_size {
        return Control::Error(VmError::UnsupportedOperation);
    }
    if code_size > usize::MAX - 31 || mem_offset > usize::MAX - 31 - code_size {
        return Control::Error(VmError::UnsupportedOperation);
    }
    let mut buf: Vec<u8> = Vec::new();
    let mut i: usize = 0;
    while i < code_size
        invariant
            i <= code_size,
            code_offset + code_size <= vm.code@.len(),
            vm.code@.len() <= usize::MAX,
            buf@ == vm.code@.subrange(code_offset as int, code_offset + i),
        decreases code_size - i,
    {
        buf.push(vm.code[code_offset + i]);
        proof {
            assert(buf@ =~= vm.code@.subrange(code_offset as int, code_offset + i + 1));
        }
        i += 1;
    }
    vm.memory.write(mem_offset, buf.as_slice());
    Control::Continue(1)
}

/// CODECOPY's meaning: three host indices pop in turn, each pop's underflow
/// or host-range fault landing exactly where it strikes; a code range that
/// fits is copied into memory, one that does not is the
/// `UnsupportedOperation` fault.
pub open spec fn codecopy_effect(pre: Vm, post: Vm, c: Control) -> bool {
    let s = pre.stack@;
    &&& if s.len() == 0 {
        &&& c == Control::Error(VmError::StackUnderflow)
        &&& post.stack@ == s
        &&& post.memory@ == pre.memory@
    } else if topn(s, 0) > usize::MAX {
        &&& c == Control::Error(VmError::UnsupportedOperation)
        &&& post.stack@ == s.drop_last()
        &&& post.memory@ == pre.memory@
    } else if s.len() < 2 {
        &&& c == Control::Error(VmError::StackUnderflow)
        &&& post.stack@ == Seq::<Word>::empty()
        &&& post.memory@ == pre.memory@
    } else if topn(s, 1) > usize::MAX {
        &&& c == Control::Error(VmError::UnsupportedOperation)
        &&& post.stack@ == popped(s, 2)
        &&& post.memory@ == pre.memory@
    } else if s.len() < 3 {
        &&& c == Control::Error(VmError::StackUnderflow)
        &&& post.stack@ == Seq::<Word>::empty()
        &&& post.memory@ == pre.memory@
    } else if topn(s, 2) > usize::MAX {
        &&& c == Control::Error(VmError::UnsupportedOperation)
        &&& post.stack@ == popped(s, 3)
        &&& post.memory@ == pre.memory@
    } else {
        let m = topn(s, 0);
        let co = topn(s, 1);
        let sz = topn(s, 2);
        &&& post.stack@ == popped(s, 3)
        &&& if co + sz > pre.code@.len() || m + sz + 31 > usize::MAX {
            c == Control::Error(VmError::UnsupportedOperation) && post.memory@ == pre.memory@
        } else {
            &&& c == Control::Continue(1usize)
            &&& post.memory@.len() == grown_len(pre.memory@.len(), m, sz)
            &&& post.memory@ == written(
                pre.memory@,
                m,
                pre.code@.subrange(co as int, (co + sz) as int),
                post.memory@.len(),
            )
        }
    }
}

/// JUMP (0x56): pops the destination; a valid one becomes the program
/// counter, any other is a fault.
pub fn jump(vm: &mut Vm) -> (c: Control)
    requires
        old(vm).wf(),
    ensures
        final(vm).wf(),
        jump_effect(*old(vm), *final(vm), c),
{
    match pop_index(&mut vm.stack) {
        Err(e) => Control::Error(e),
        Ok(dest) => {
            if vm.is_valid_jump(dest) {
                Control::Jump(dest)
            } else {
                Control::Error(VmError::InvalidJump)
            }
        },
    }
}

/// JUMPI (0x57): pops the destination, then the condition; a zero condition
/// falls through, any other validates the destination as JUMP does.
pub fn jumpi(vm: &mut Vm) -> (c: Control)
    requires
        old(vm).wf(),
    ensures
        final(vm).wf(),
        jumpi_effect(*old(vm), *final(vm), c),
{
    let dw = match vm.stack.pop() {
        Ok(w) => w,
        Err(e) => {
            proof {
                assert(vm.stack@ =~= Seq::<Word>::empty());
            }
            return Control::Error(e);
        },
    };
    let cw = match vm.stack.pop() {
        Ok(w) => w,
        Err(e) => {
            proof {
                assert(vm.stack@ =~= Seq::<Word>::empty());
            }
            return Control::Error(e);
        },
    };
    proof {
        assert(vm.stack@ =~= old(vm).stack@.take(old(vm).stack@.len() - 2));
    }
    if cw.is_zero() {
        return Control::Continue(1);
    }
    match dw.to_usize() {
        None => Control::Error(VmError::UnsupportedOperation),
        Some(dest) => {
            if vm.is_valid_jump(dest) {
                Control::Jump(dest)
            } else {
                Control::Error(VmError::InvalidJump)
            }
        },
    }
}

/// PC (0x58): pushes the current program counter.
pub fn pc(vm: &mut Vm) -> (c: Control)
    requires
        old(vm).wf(),
    ensures
        final(vm).wf(),
        pc_effect(*old(vm), *final(vm), c),
{
    let w = Word::from_usize(vm.pc);
    let ghost mid = vm.stack@;
    match vm.stack.push(w) {
        Ok(()) => {
            proof {
                assert(vm.stack@.drop_last() =~= mid);
            }
            Control::Continue(1)
        },
        Err(e) => Control::Error(e),
    }
}

/// JUMPDEST (0x5b): a valid jump target; does nothing of itself.
pub fn jumpdest(vm: &mut Vm) -> (c: Control)
    requires
        old(vm).wf(),
    ensures
        final(vm).wf(),
        jumpdest_effect(*old(vm), *final(vm), c),
{
    Control::Continue(1)
}

/// RETURN (0xf3): pops the offset, then the size, records them as the
/// return window and terminates surfacing it.
pub fn return_(vm: &mut Vm) -> (c: Control)
    requires
        old(vm).wf(),
    ensures
        final(vm).wf(),
        exit_effect(*old(vm), *final(vm), c, Control::Return),
{
    let offset = match pop_index(&mut vm.stack) {
        Ok(v) => v,
        Err(e) => {
            proof {
                if vm.stack@.len() == 0 {
                    assert(vm.stack@ =~= Seq::<Word>::empty());
                }
            }
            return Control::Error(e);
        },
    };
    let size = match pop_index(&mut vm.stack) {
        Ok(v) => v,
        Err(e) => {
            proof {
                if vm.stack@.len() == 0 {
                    assert(vm.stack@ =~= Seq::<Word>::empty());
                }
                if old(vm).stack@.len() >= 2 {
                    assert(vm.stack@ =~= old(vm).stack@.take(old(vm).stack@.len() - 2));
                }
            }
            return Control::Error(e);
        },
    };
    proof {
        assert(vm.stack@ =~= old(vm).stack@.take(old(vm).stack@.len() - 2));
    }
    if size > usize::MAX - 31 || offset > usize::MAX - 31 - size {
        return Control::Error(VmError::UnsupportedOperation);
    }
    vm.return_data = (offset, size);
    Control::Return
}

/// REVERT (0xfd): same popping discipline as RETURN, terminating with the
/// revert control value; the recorded window stays observable.
pub fn revert(vm: &mut Vm) -> (c: Control)
    requires
        old(vm).wf(),
    ensures
        final(vm).wf(),
        exit_effect(*old(vm), *final(vm), c, Control::Revert),
{
    let offset = match pop_index(&mut vm.stack) {
        Ok(v) => v,
        Err(e) => {
            proof {
                if vm.stack@.len() == 0 {
                    assert(vm.stack@ =~= Seq::<Word>::empty());
                }
            }
            return Control::Error(e);
        },
    };
    let size = match pop_index(&mut vm.stack) {
        Ok(v) => v,
        Err(e) => {
            proof {
                if vm.stack@.len() == 0 {
                    assert(vm.stack@ =~= Seq::<Word>::empty());
                }
                if old(vm).stack@.len() >= 2 {
                    assert(vm.stack@ =~= old(vm).stack@.take(old(vm).stack@.len() - 2));
                }
            }
            return Control::Error(e);
        },
    };
    proof {
        assert(vm.stack@ =~= old(vm).stack@.take(old(vm).stack@.len() - 2));
    }
    if size > usize::MAX - 31 || offset > usize::MAX - 31 - size {
        return Control::Error(VmError::UnsupportedOperation);
    }
    vm.return_data = (offset, size);
    Control::Revert
}

/// INVALID (0xfe): terminates with the invalid-opcode fault.
pub fn invalid(vm: &mut Vm) -> (c: Control)
    requires
        old(vm).wf(),
    ensures
        final(vm).wf(),
        invalid_effect(*old(vm), *final(vm), c),
{
    Control::Error(VmError::InvalidOpcode)
}

} // verus!
