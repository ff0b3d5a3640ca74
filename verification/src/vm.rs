//! The virtual machine: its state, the meaning of each instruction as a
//! relation on that state, and the fetch-decode-dispatch loop.

use vstd::prelude::*;
use vstd::arithmetic::power2::pow2;
use crate::benat::be_nat;
use crate::error::VmError;
use crate::i256::{sdiv_val, srem_val, signed_of, unsigned_of};
use crate::memory::{Memory, grown_len, grown_at, written};
use crate::opcode::{Control, Opcode, implemented};
use crate::stack::{Stack, EVM_STACK_MAX_SIZE};
use crate::word::{Word, word_modulus, wrap_add, wrap_sub, wrap_mul, wrap_pow};

verus! {

/// How an execution ended, or that it has not.
#[derive(Debug, Clone, Copy, PartialEq, Eq, Structural)]
pub enum Execution {
    /// The machine is still running.
    Continue,
    /// Normal stop, no return data.
    Stop,
    /// Termination reverting the work; the return window stays observable.
    Revert,
    /// Normal termination surfacing the return window.
    Return,
    /// Termination with a fault.
    Error(VmError),
}

/// The bytes an instruction occupies: a push carries its immediate, every
/// other byte is a single instruction byte.
pub open spec fn instr_size(b: u8) -> nat {
    if 0x60 <= b && b <= 0x7f {
        (b - 0x5f + 1) as nat
    } else {
        1
    }
}

/// The valid jump destinations at or after `i`: offsets holding 0x5b
/// (JUMPDEST) that the linear scan reaches, stepping over push immediates.
pub open spec fn scan_jumps(code: Seq<u8>, i: nat) -> Seq<usize>
    decreases code.len() - i,
{
    if i >= code.len() {
        Seq::empty()
    } else if code[i as int] == 0x5b {
        seq![i as usize] + scan_jumps(code, i + 1)
    } else {
        let next = i + instr_size(code[i as int]);
        scan_jumps(code, if next > code.len() { code.len() } else { next as nat })
    }
}

/// The virtual machine: a word stack, an expandable memory, a program
/// counter, the immutable bytecode, the pre-scanned jump destinations and
/// the recorded return window.
pub struct Vm {
    pub stack: Stack,
    pub memory: Memory,
    pub pc: usize,
    pub code: Vec<u8>,
    pub valid_jumps: Vec<usize>,
    pub return_data: (usize, usize),
}

impl Vm {
    /// Well-formedness: the memory invariant holds, the stack is capped at
    /// 1024, the jump table is the scan of the code, the code is short
    /// enough that no pc advance can overflow, and the return window can be
    /// materialized.
    pub open spec fn wf(&self) -> bool {
        &&& self.memory.inv()
        &&& self.stack.cap() == EVM_STACK_MAX_SIZE
        &&& self.stack@.len() <= EVM_STACK_MAX_SIZE
        &&& self.code@.len() + 33 <= usize::MAX
        &&& self.valid_jumps@ == scan_jumps(self.code@, 0)
        &&& self.return_data.0 + self.return_data.1 + 31 <= usize::MAX
    }
}

/// The value of the word at depth `i` from the top of `s`.
pub open spec fn topn(s: Seq<Word>, i: nat) -> nat {
    s[s.len() - 1 - i].as_nat()
}

/// The stack left after popping `k` words: popping keeps succeeding while
/// anything is held, so a short stack is emptied before the fault.
pub open spec fn popped(s: Seq<Word>, k: nat) -> Seq<Word> {
    if s.len() >= k {
        s.take(s.len() - k)
    } else {
        Seq::empty()
    }
}

/// The handler left the program, the program counter and the jump table
/// alone (the interpreter, not the handler, moves the counter).
pub open spec fn keeps_program(pre: Vm, post: Vm) -> bool {
    &&& post.pc == pre.pc
    &&& post.code@ == pre.code@
    &&& post.valid_jumps@ == pre.valid_jumps@
    &&& post.stack.cap() == pre.stack.cap()
}

/// The handler left memory and the return window alone.
pub open spec fn keeps_memory(pre: Vm, post: Vm) -> bool {
    &&& post.memory@ == pre.memory@
    &&& post.return_data == pre.return_data
}

/// A handler that pops `k` words and pushes one word valued `v`: with
/// enough operands the control value is `Continue(1)`; otherwise everything pops
/// before the underflow fault.
pub open spec fn word_op_effect(pre: Vm, post: Vm, c: Control, k: nat, v: nat) -> bool {
    &&& keeps_program(pre, post)
    &&& keeps_memory(pre, post)
    &&& if pre.stack@.len() >= k {
        &&& c == Control::Continue(1usize)
        &&& post.stack@.len() == pre.stack@.len() - k + 1
        &&& post.stack@.drop_last() == popped(pre.stack@, k)
        &&& post.stack@.last().as_nat() == v
    } else {
        &&& c == Control::Error(VmError::StackUnderflow)
        &&& post.stack@ == Seq::<Word>::empty()
    }
}

/// ADD: the wrapping sum of the top two words.
pub open spec fn add_effect(pre: Vm, post: Vm, c: Control) -> bool {
    word_op_effect(pre, post, c, 2, wrap_add(topn(pre.stack@, 0), topn(pre.stack@, 1)))
}

/// MUL: the wrapping product of the top two words.
pub open spec fn mul_effect(pre: Vm, post: Vm, c: Control) -> bool {
    word_op_effect(pre, post, c, 2, wrap_mul(topn(pre.stack@, 0), topn(pre.stack@, 1)))
}

/// SUB: the wrapping difference, top minus next.
pub open spec fn sub_effect(pre: Vm, post: Vm, c: Control) -> bool {
    word_op_effect(pre, post, c, 2, wrap_sub(topn(pre.stack@, 0), topn(pre.stack@, 1)))
}

/// DIV: the floor quotient, top over next; zero when the divisor is zero.
pub open spec fn div_effect(pre: Vm, post: Vm, c: Control) -> bool {
    word_op_effect(
        pre,
        post,
        c,
        2,
        if topn(pre.stack@, 1) == 0 {
            0
        } else {
            topn(pre.stack@, 0) / topn(pre.stack@, 1)
        },
    )
}

/// MOD: the remainder, top modulo next; zero when the divisor is zero.
pub open spec fn rem_effect(pre: Vm, post: Vm, c: Control) -> bool {
    word_op_effect(
        pre,
        post,
        c,
        2,
        if topn(pre.stack@, 1) == 0 {
            0
        } else {
            topn(pre.stack@, 0) % topn(pre.stack@, 1)
        },
    )
}

/// SDIV: truncated signed division of the two's-complement readings.
pub open spec fn sdiv_effect(pre: Vm, post: Vm, c: Control) -> bool {
    word_op_effect(
        pre,
        post,
        c,
        2,
        unsigned_of(sdiv_val(signed_of(topn(pre.stack@, 0)), signed_of(topn(pre.stack@, 1)))),
    )
}

/// SMOD: signed remainder, taking the dividend's sign.
pub open spec fn srem_effect(pre: Vm, post: Vm, c: Control) -> bool {
    word_op_effect(
        pre,
        post,
        c,
        2,
        unsigned_of(srem_val(signed_of(topn(pre.stack@, 0)), signed_of(topn(pre.stack@, 1)))),
    )
}

/// ADDMOD: `(a + b) mod c` with a full-width sum; zero when `c` is zero.
pub open spec fn addmod_effect(pre: Vm, post: Vm, c: Control) -> bool {
    word_op_effect(
        pre,
        post,
        c,
        3,
        if topn(pre.stack@, 2) == 0 {
            0
        } else {
            (topn(pre.stack@, 0) + topn(pre.stack@, 1)) % topn(pre.stack@, 2)
        },
    )
}

/// MULMOD: `(a * b) mod c` with a full-width product; zero when `c` is zero.
pub open spec fn mulmod_effect(pre: Vm, post: Vm, c: Control) -> bool {
    word_op_effect(
        pre,
        post,
        c,
        3,
        if topn(pre.stack@, 2) == 0 {
            0
        } else {
            (topn(pre.stack@, 0) * topn(pre.stack@, 1)) % topn(pre.stack@, 2)
        },
    )
}

/// EXP: the top word raised to the next, modulo 2^256.
pub open spec fn exp_effect(pre: Vm, post: Vm, c: Control) -> bool {
    word_op_effect(pre, post, c, 2, wrap_pow(topn(pre.stack@, 0), topn(pre.stack@, 1)))
}

/// LT: 1 when the top word is strictly below the next, else 0.
pub open spec fn lt_effect(pre: Vm, post: Vm, c: Control) -> bool {
    word_op_effect(
        pre,
        post,
        c,
        2,
        if topn(pre.stack@, 0) < topn(pre.stack@, 1) {
            1nat
        } else {
            0nat
        },
    )
}

/// GT: 1 when the top word is strictly above the next, else 0.
pub open spec fn gt_effect(pre: Vm, post: Vm, c: Control) -> bool {
    word_op_effect(
        pre,
        post,
        c,
        2,
        if topn(pre.stack@, 0) > topn(pre.stack@, 1) {
            1nat
        } else {
            0nat
        },
    )
}

/// SLT: signed strictly-below on the two's-complement readings.
pub open spec fn slt_effect(pre: Vm, post: Vm, c: Control) -> bool {
    word_op_effect(
        pre,
        post,
        c,
        2,
        if signed_of(topn(pre.stack@, 0)) < signed_of(topn(pre.stack@, 1)) {
            1nat
        } else {
            0nat
        },
    )
}

/// SGT: signed strictly-above on the two's-complement readings.
pub open spec fn sgt_effect(pre: Vm, post: Vm, c: Control) -> bool {
    word_op_effect(
        pre,
        post,
        c,
        2,
        if signed_of(topn(pre.stack@, 0)) > signed_of(topn(pre.stack@, 1)) {
            1nat
        } else {
            0nat
        },
    )
}

/// EQ: 1 when the top two words are equal, else 0.
pub open spec fn eq_effect(pre: Vm, post: Vm, c: Control) -> bool {
    word_op_effect(
        pre,
        post,
        c,
        2,
        if topn(pre.stack@, 0) == topn(pre.stack@, 1) {
            1nat
        } else {
            0nat
        },
    )
}

/// ISZERO: 1 when the top word is zero, else 0.
pub open spec fn iszero_effect(pre: Vm, post: Vm, c: Control) -> bool {
    word_op_effect(
        pre,
        post,
        c,
        1,
        if topn(pre.stack@, 0) == 0 {
            1nat
        } else {
            0nat
        },
    )
}

/// NOT: the bitwise complement, `2^256 - 1 - top`.
pub open spec fn not_effect(pre: Vm, post: Vm, c: Control) -> bool {
    word_op_effect(pre, post, c, 1, (word_modulus() - 1 - topn(pre.stack@, 0)) as nat)
}

/// The shared shape of the byte-wise binary operations: two words pop, one
/// pushes, or a short stack empties before the underflow fault.
pub open spec fn bit_op_shape(pre: Vm, post: Vm, c: Control) -> bool {
    &&& keeps_program(pre, post)
    &&& keeps_memory(pre, post)
    &&& if pre.stack@.len() >= 2 {
        &&& c == Control::Continue(1usize)
        &&& post.stack@.len() == pre.stack@.len() - 1
        &&& post.stack@.drop_last() == popped(pre.stack@, 2)
    } else {
        &&& c == Control::Error(VmError::StackUnderflow)
        &&& post.stack@ == Seq::<Word>::empty()
    }
}

/// AND: byte-wise conjunction of the top two words.
pub open spec fn and_effect(pre: Vm, post: Vm, c: Control) -> bool {
    let s = pre.stack@;
    &&& bit_op_shape(pre, post, c)
    &&& s.len() >= 2 ==> forall|j: int|
        0 <= j < 32 ==> post.stack@.last().bytes@[j] == (s[s.len() - 1].bytes@[j] & s[s.len()
            - 2].bytes@[j])
}

/// OR: byte-wise disjunction of the top two words.
pub open spec fn or_effect(pre: Vm, post: Vm, c: Control) -> bool {
    let s = pre.stack@;
    &&& bit_op_shape(pre, post, c)
    &&& s.len() >= 2 ==> forall|j: int|
        0 <= j < 32 ==> post.stack@.last().bytes@[j] == (s[s.len() - 1].bytes@[j] | s[s.len()
            - 2].bytes@[j])
}

/// XOR: byte-wise exclusive or of the top two words.
pub open spec fn xor_effect(pre: Vm, post: Vm, c: Control) -> bool {
    let s = pre.stack@;
    &&& bit_op_shape(pre, post, c)
    &&& s.len() >= 2 ==> forall|j: int|
        0 <= j < 32 ==> post.stack@.last().bytes@[j] == (s[s.len() - 1].bytes@[j] ^ s[s.len()
            - 2].bytes@[j])
}

/// BYTE: byte `i` of the next word's big-endian encoding (the top word is
/// `i`), or zero when `i` is 32 or more.
pub open spec fn byte_effect(pre: Vm, post: Vm, c: Control) -> bool {
    let s = pre.stack@;
    word_op_effect(
        pre,
        post,
        c,
        2,
        if topn(s, 0) >= 32 {
            0nat
        } else {
            s[s.len() - 2].bytes@[topn(s, 0) as int] as nat
        },
    )
}

/// SHL: the next word shifted left by the top word, zero from shifts of 256
/// or more.
pub open spec fn shl_effect(pre: Vm, post: Vm, c: Control) -> bool {
    let s = pre.stack@;
    word_op_effect(
        pre,
        post,
        c,
        2,
        if topn(s, 1) >= 256 || topn(s, 0) == 0 {
            0nat
        } else {
            (topn(s, 0) * pow2(topn(s, 1))) % word_modulus()
        },
    )
}

/// SHR: the next word shifting the top word right logically, zero from
/// shifts of 256 or more.
pub open spec fn shr_effect(pre: Vm, post: Vm, c: Control) -> bool {
    let s = pre.stack@;
    word_op_effect(
        pre,
        post,
        c,
        2,
        if topn(s, 1) >= 256 || topn(s, 0) == 0 {
            0nat
        } else {
            topn(s, 0) / pow2(topn(s, 1))
        },
    )
}

/// POP: discards the top word.
pub open spec fn pop_effect(pre: Vm, post: Vm, c: Control) -> bool {
    &&& keeps_program(pre, post)
    &&& keeps_memory(pre, post)
    &&& if pre.stack@.len() >= 1 {
        c == Control::Continue(1usize) && post.stack@ == pre.stack@.drop_last()
    } else {
        c == Control::Error(VmError::StackUnderflow) && post.stack@ == pre.stack@
    }
}

/// A handler that pushes one word computed without popping (PC, MSIZE,
/// CODESIZE): a full stack is the overflow fault, everything unchanged.
pub open spec fn push_value_effect(pre: Vm, post: Vm, c: Control, v: nat) -> bool {
    &&& keeps_program(pre, post)
    &&& keeps_memory(pre, post)
    &&& if pre.stack@.len() < pre.stack.cap() {
        &&& c == Control::Continue(1usize)
        &&& post.stack@.len() == pre.stack@.len() + 1
        &&& post.stack@.drop_last() == pre.stack@
        &&& post.stack@.last().as_nat() == v
    } else {
        &&& c == Control::Error(VmError::StackOverflow)
        &&& post.stack@ == pre.stack@
    }
}

/// PC: pushes the current program counter.
pub open spec fn pc_effect(pre: Vm, post: Vm, c: Control) -> bool {
    push_value_effect(pre, post, c, pre.pc as nat)
}

/// MSIZE: pushes the current memory size, always a multiple of 32.
pub open spec fn msize_effect(pre: Vm, post: Vm, c: Control) -> bool {
    push_value_effect(pre, post, c, pre.memory@.len())
}

/// JUMPDEST: a no-op marker.
pub open spec fn jumpdest_effect(pre: Vm, post: Vm, c: Control) -> bool {
    &&& keeps_program(pre, post)
    &&& keeps_memory(pre, post)
    &&& post.stack@ == pre.stack@
    &&& c == Control::Continue(1usize)
}

/// STOP: terminates normally, touching nothing.
pub open spec fn stop_effect(pre: Vm, post: Vm, c: Control) -> bool {
    &&& keeps_program(pre, post)
    &&& keeps_memory(pre, post)
    &&& post.stack@ == pre.stack@
    &&& c == Control::Stop
}

/// INVALID: terminates with the invalid-opcode fault, touching nothing.
pub open spec fn invalid_effect(pre: Vm, post: Vm, c: Control) -> bool {
    &&& keeps_program(pre, post)
    &&& keeps_memory(pre, post)
    &&& post.stack@ == pre.stack@
    &&& c == Control::Error(VmError::InvalidOpcode)
}

/// JUMP: pops the destination; a destination beyond the host index range is
/// `UnsupportedOperation`, one outside the valid-jump set `InvalidJump`, and
/// a valid one becomes the next program counter.
pub open spec fn jump_effect(pre: Vm, post: Vm, c: Control) -> bool {
    let s = pre.stack@;
    &&& keeps_program(pre, post)
    &&& keeps_memory(pre, post)
    &&& if s.len() == 0 {
        c == Control::Error(VmError::StackUnderflow) && post.stack@ == s
    } else {
        &&& post.stack@ == s.drop_last()
        &&& if topn(s, 0) > usize::MAX {
            c == Control::Error(VmError::UnsupportedOperation)
        } else if pre.valid_jumps@.contains(topn(s, 0) as usize) {
            c == Control::Jump(topn(s, 0) as usize)
        } else {
            c == Control::Error(VmError::InvalidJump)
        }
    }
}

/// JUMPI: pops the destination, then the condition; a zero condition falls
/// through, any other validates the destination as JUMP does.
pub open spec fn jumpi_effect(pre: Vm, post: Vm, c: Control) -> bool {
    let s = pre.stack@;
    &&& keeps_program(pre, post)
    &&& keeps_memory(pre, post)
    &&& if s.len() < 2 {
        c == Control::Error(VmError::StackUnderflow) && post.stack@ == Seq::<Word>::empty()
    } else {
        &&& post.stack@ == popped(s, 2)
        &&& if topn(s, 1) == 0 {
            c == Control::Continue(1usize)
        } else if topn(s, 0) > usize::MAX {
            c == Control::Error(VmError::UnsupportedOperation)
        } else if pre.valid_jumps@.contains(topn(s, 0) as usize) {
            c == Control::Jump(topn(s, 0) as usize)
        } else {
            c == Control::Error(VmError::InvalidJump)
        }
    }
}

/// PUSHn: reads the next `n` code bytes (truncated at the end of the code),
/// right-justifies them into a word, and pushes it.
pub open spec fn push_effect(pre: Vm, post: Vm, c: Control, n: nat) -> bool {
    let len = pre.code@.len() as int;
    let start = pre.pc + 1 as int;
    let end = if pre.pc + 1 + n <= len {
        pre.pc + 1 + n
    } else {
        len
    };
    let imm = pre.code@.subrange(start, end);
    &&& keeps_program(pre, post)
    &&& keeps_memory(pre, post)
    &&& if pre.stack@.len() < pre.stack.cap() {
        &&& c == Control::Continue((n + 1) as usize)
        &&& post.stack@.len() == pre.stack@.len() + 1
        &&& post.stack@.drop_last() == pre.stack@
        &&& post.stack@.last().as_nat() == be_nat(imm)
    } else {
        &&& c == Control::Error(VmError::StackOverflow)
        &&& post.stack@ == pre.stack@
    }
}

/// DUPn: pushes a copy of the word at depth `n - 1`.
pub open spec fn dup_effect(pre: Vm, post: Vm, c: Control, n: nat) -> bool {
    let s = pre.stack@;
    &&& keeps_program(pre, post)
    &&& keeps_memory(pre, post)
    &&& if s.len() < n {
        c == Control::Error(VmError::StackUnderflow) && post.stack@ == s
    } else if s.len() >= pre.stack.cap() {
        c == Control::Error(VmError::StackOverflow) && post.stack@ == s
    } else {
        c == Control::Continue(1usize) && post.stack@ == s.push(s[s.len() - n])
    }
}

/// SWAPn: exchanges the top word with the word at depth `n`.
pub open spec fn swap_effect(pre: Vm, post: Vm, c: Control, n: nat) -> bool {
    let s = pre.stack@;
    &&& keeps_program(pre, post)
    &&& keeps_memory(pre, post)
    &&& if s.len() == 0 || n >= s.len() {
        c == Control::Error(VmError::StackUnderflow) && post.stack@ == s
    } else {
        c == Control::Continue(1usize) && post.stack@ == s.update(
            s.len() - 1,
            s[s.len() - 1 - n],
        ).update(s.len() - 1 - n, s.last())
    }
}

/// MLOAD: pops the offset and touches the 32-byte range there, growing
/// memory; offsets beyond the host range are `UnsupportedOperation`.
pub open spec fn mload_effect(pre: Vm, post: Vm, c: Control) -> bool {
    let s = pre.stack@;
    &&& keeps_program(pre, post)
    &&& post.return_data == pre.return_data
    &&& if s.len() == 0 {
        &&& c == Control::Error(VmError::StackUnderflow)
        &&& post.stack@ == s
        &&& post.memory@ == pre.memory@
    } else {
        &&& post.stack@ == s.drop_last()
        &&& if topn(s, 0) > usize::MAX || topn(s, 0) + 63 > usize::MAX {
            c == Control::Error(VmError::UnsupportedOperation) && post.memory@ == pre.memory@
        } else {
            &&& c == Control::Continue(1usize)
            &&& post.memory@.len() == grown_len(pre.memory@.len(), topn(s, 0), 32)
            &&& forall|i: int|
                0 <= i < post.memory@.len() ==> post.memory@[i] == grown_at(pre.memory@, i)
        }
    }
}

/// MSTORE: pops the offset, then the word, and stores all 32 bytes there.
pub open spec fn mstore_effect(pre: Vm, post: Vm, c: Control) -> bool {
    let s = pre.stack@;
    &&& keeps_program(pre, post)
    &&& post.return_data == pre.return_data
    &&& if s.len() == 0 {
        &&& c == Control::Error(VmError::StackUnderflow)
        &&& post.stack@ == s
        &&& post.memory@ == pre.memory@
    } else if topn(s, 0) > usize::MAX {
        &&& c == Control::Error(VmError::UnsupportedOperation)
        &&& post.stack@ == s.drop_last()
        &&& post.memory@ == pre.memory@
    } else if s.len() < 2 {
        &&& c == Control::Error(VmError::StackUnderflow)
        &&& post.stack@ == Seq::<Word>::empty()
        &&& post.memory@ == pre.memory@
    } else {
        &&& post.stack@ == popped(s, 2)
        &&& if topn(s, 0) + 63 > usize::MAX {
            c == Control::Error(VmError::UnsupportedOperation) && post.memory@ == pre.memory@
        } else {
            &&& c == Control::Continue(1usize)
            &&& post.memory@.len() == grown_len(pre.memory@.len(), topn(s, 0), 32)
            &&& post.memory@ == written(
                pre.memory@,
                topn(s, 0),
                s[s.len() - 2].bytes@,
                post.memory@.len(),
            )
        }
    }
}

/// MSTORE8: pops the offset, then the word, and stores its least
/// significant byte there.
pub open spec fn mstore8_effect(pre: Vm, post: Vm, c: Control) -> bool {
    let s = pre.stack@;
    &&& keeps_program(pre, post)
    &&& post.return_data == pre.return_data
    &&& if s.len() == 0 {
        &&& c == Control::Error(VmError::StackUnderflow)
        &&& post.stack@ == s
        &&& post.memory@ == pre.memory@
    } else if topn(s, 0) > usize::MAX {
        &&& c == Control::Error(VmError::UnsupportedOperation)
        &&& post.stack@ == s.drop_last()
        &&& post.memory@ == pre.memory@
    } else if s.len() < 2 {
        &&& c == Control::Error(VmError::StackUnderflow)
        &&& post.stack@ == Seq::<Word>::empty()
        &&& post.memory@ == pre.memory@
    } else {
        &&& post.stack@ == popped(s, 2)
        &&& if topn(s, 0) + 32 > usize::MAX {
            c == Control::Error(VmError::UnsupportedOperation) && post.memory@ == pre.memory@
        } else {
            &&& c == Control::Continue(1usize)
            &&& post.memory@.len() == grown_len(pre.memory@.len(), topn(s, 0), 1)
            &&& post.memory@ == written(
                pre.memory@,
                topn(s, 0),
                seq![s[s.len() - 2].bytes@[31]],
                post.memory@.len(),
            )
        }
    }
}

/// RETURN and REVERT: pop the offset, then the size, record them as the
/// return window (when they fit the host range), and terminate with the
/// given control value.
pub open spec fn exit_effect(pre: Vm, post: Vm, c: Control, terminal: Control) -> bool {
    let s = pre.stack@;
    &&& keeps_program(pre, post)
    &&& post.memory@ == pre.memory@
    &&& if s.len() == 0 {
        &&& c == Control::Error(VmError::StackUnderflow)
        &&& post.stack@ == s
        &&& post.return_data == pre.return_data
    } else if topn(s, 0) > usize::MAX {
        &&& c == Control::Error(VmError::UnsupportedOperation)
        &&& post.stack@ == s.drop_last()
        &&& post.return_data == pre.return_data
    } else if s.len() < 2 {
        &&& c == Control::Error(VmError::StackUnderflow)
        &&& post.stack@ == Seq::<Word>::empty()
        &&& post.return_data == pre.return_data
    } else if topn(s, 1) > usize::MAX || topn(s, 0) + topn(s, 1) + 31 > usize::MAX {
        &&& c == Control::Error(VmError::UnsupportedOperation)
        &&& post.stack@ == popped(s, 2)
        &&& post.return_data == pre.return_data
    } else {
        &&& c == terminal
        &&& post.stack@ == popped(s, 2)
        &&& post.return_data == (topn(s, 0) as usize, topn(s, 1) as usize)
    }
}

/// What executing the instruction named by byte `op` does to the machine:
/// the dispatch table as a relation, program counter movement aside.
pub open spec fn op_effect(op: u8, pre: Vm, post: Vm, c: Control) -> bool {
    if op == 0x00 {
        stop_effect(pre, post, c)
    } else if op == 0x01 {
        add_effect(pre, post, c)
    } else if op == 0x02 {
        mul_effect(pre, post, c)
    } else if op == 0x03 {
        sub_effect(pre, post, c)
    } else if op == 0x04 {
        div_effect(pre, post, c)
    } else if op == 0x05 {
        sdiv_effect(pre, post, c)
    } else if op == 0x06 {
        rem_effect(pre, post, c)
    } else if op == 0x07 {
        srem_effect(pre, post, c)
    } else if op == 0x08 {
        addmod_effect(pre, post, c)
    } else if op == 0x09 {
        mulmod_effect(pre, post, c)
    } else if op == 0x0a {
        exp_effect(pre, post, c)
    } else if op == 0x10 {
        lt_effect(pre, post, c)
    } else if op == 0x11 {
        gt_effect(pre, post, c)
    } else if op == 0x12 {
        slt_effect(pre, post, c)
    } else if op == 0x13 {
        sgt_effect(pre, post, c)
    } else if op == 0x14 {
        eq_effect(pre, post, c)
    } else if op == 0x15 {
        iszero_effect(pre, post, c)
    } else if op == 0x16 {
        and_effect(pre, post, c)
    } else if op == 0x17 {
        or_effect(pre, post, c)
    } else if op == 0x18 {
        xor_effect(pre, post, c)
    } else if op == 0x19 {
        not_effect(pre, post, c)
    } else if op == 0x1a {
        byte_effect(pre, post, c)
    } else if op == 0x1b {
        shl_effect(pre, post, c)
    } else if op == 0x1c {
        shr_effect(pre, post, c)
    } else if op == 0x50 {
        pop_effect(pre, post, c)
    } else if op == 0x51 {
        mload_effect(pre, post, c)
    } else if op == 0x52 {
        mstore_effect(pre, post, c)
    } else if op == 0x53 {
        mstore8_effect(pre, post, c)
    } else if op == 0x56 {
        jump_effect(pre, post, c)
    } else if op == 0x57 {
        jumpi_effect(pre, post, c)
    } else if op == 0x58 {
        pc_effect(pre, post, c)
    } else if op == 0x59 {
        msize_effect(pre, post, c)
    } else if op == 0x5b {
        jumpdest_effect(pre, post, c)
    } else if 0x60 <= op && op <= 0x7f {
        push_effect(pre, post, c, (op - 0x5f) as nat)
    } else if 0x80 <= op && op <= 0x8f {
        dup_effect(pre, post, c, (op - 0x7f) as nat)
    } else if 0x90 <= op && op <= 0x9f {
        swap_effect(pre, post, c, (op - 0x8f) as nat)
    } else if op == 0xf3 {
        exit_effect(pre, post, c, Control::Return)
    } else if op == 0xfd {
        exit_effect(pre, post, c, Control::Revert)
    } else if op == 0xfe {
        invalid_effect(pre, post, c)
    } else {
        !implemented(op)
    }
}

/// Routing of a handler control value: where the program counter goes and what
/// `step` returns.
pub open spec fn routed(
    c: Control,
    pre_pc: usize,
    post_pc: usize,
    r: Result<Execution, Execution>,
) -> bool {
    match c {
        Control::Continue(n) => post_pc == pre_pc + n && r == Ok::<Execution, Execution>(Execution::Continue),
        Control::Jump(d) => post_pc == d && r == Ok::<Execution, Execution>(Execution::Continue),
        Control::Stop => post_pc == pre_pc && r == Ok::<Execution, Execution>(Execution::Stop),
        Control::Return => post_pc == pre_pc && r == Ok::<Execution, Execution>(Execution::Return),
        Control::Revert => post_pc == pre_pc && r == Err::<Execution, Execution>(Execution::Revert),
        Control::Error(e) => post_pc == pre_pc && r == Err::<Execution, Execution>(Execution::Error(e)),
    }
}

/// One interpreter step, as a relation between the machine before, the
/// machine after, and what `step` reports: the implicit halt past the end
/// of the code, the invalid-opcode fault for an unassigned byte, or a
/// dispatched handler whose control value is routed.
pub open spec fn step_rel(pre: Vm, post: Vm, r: Result<Execution, Execution>) -> bool {
    if pre.pc >= pre.code@.len() {
        r == Ok::<Execution, Execution>(Execution::Stop) && post == pre
    } else if !implemented(pre.code@[pre.pc as int]) {
        r == Err::<Execution, Execution>(Execution::Error(VmError::InvalidOpcode)) && post == pre
    } else {
        exists|c: Control|
            {
                &&& #[trigger] routed(c, pre.pc, post.pc, r)
                &&& op_effect(pre.code@[pre.pc as int], pre, Vm { pc: pre.pc, ..post }, c)
            }
    }
}

/// Machines linked by single interpreter steps that all reported
/// `Ok(Continue)`.
pub open spec fn continuing_chain(t: Seq<Vm>) -> bool {
    forall|i: int|
        0 <= i < t.len() - 1 ==> #[trigger] step_rel(
            t[i],
            t[i + 1],
            Ok::<Execution, Execution>(Execution::Continue),
        )
}

/// What a bounded run reports and leaves behind: the reached machine ends a
/// chain of continuing interpreter steps from the start. `Ok` and the
/// terminal `Err`s are the report of the chain's one last step; the
/// out-of-fuel report means exactly `max_steps` steps all continued.
pub open spec fn run_rel(start: Vm, end: Vm, max_steps: u64, r: Result<(), Execution>) -> bool {
    match r {
        Ok(()) => exists|t: Seq<Vm>|
            {
                &&& #[trigger] continuing_chain(t)
                &&& 1 <= t.len() <= max_steps
                &&& t[0] == start
                &&& (step_rel(t.last(), end, Ok::<Execution, Execution>(Execution::Stop))
                    || step_rel(t.last(), end, Ok::<Execution, Execution>(Execution::Return)))
            },
        Err(Execution::Revert) => exists|t: Seq<Vm>|
            {
                &&& #[trigger] continuing_chain(t)
                &&& 1 <= t.len() <= max_steps
                &&& t[0] == start
                &&& step_rel(t.last(), end, Err::<Execution, Execution>(Execution::Revert))
            },
        Err(Execution::Error(k)) => exists|t: Seq<Vm>|
            {
                &&& #[trigger] continuing_chain(t)
                &&& 1 <= t.len() <= max_steps
                &&& t[0] == start
                &&& step_rel(t.last(), end, Err::<Execution, Execution>(Execution::Error(k)))
            },
        Err(Execution::Continue) => exists|t: Seq<Vm>|
            {
                &&& #[trigger] continuing_chain(t)
                &&& t.len() == max_steps + 1
                &&& t[0] == start
                &&& t.last() == end
            },
        Err(Execution::Stop) => false,
        Err(Execution::Return) => false,
    }
}

/// Every `Continue` control value of an implemented instruction advances the
/// program counter by at most 33 bytes (one opcode plus a 32-byte
/// immediate).
proof fn lemma_continue_bound(op: u8, pre: Vm, post: Vm, c: Control)
    requires
        implemented(op),
        op_effect(op, pre, post, c),
    ensures
        c matches Control::Continue(n) ==> n <= 33,
{
}

/// Only STOP stops, only RETURN returns, and only REVERT reverts: the
/// terminal control values identify their instructions.
proof fn lemma_terminal_ops(op: u8, pre: Vm, post: Vm, c: Control)
    requires
        implemented(op),
        op_effect(op, pre, post, c),
    ensures
        c == Control::Stop ==> op == 0x00,
        c == Control::Return ==> op == 0xf3,
        c == Control::Revert ==> op == 0xfd,
{
}

/// JUMP lands exactly where it should: when the popped destination is in
/// the pre-scanned valid-jump set, the interpreter assigns the program
/// counter to it; for any destination outside the set the outcome is the
/// invalid-jump fault and the program counter does not move.
pub proof fn lemma_jump_routing(
    pre: Vm,
    post: Vm,
    c: Control,
    post_pc: usize,
    r: Result<Execution, Execution>,
    dest: usize,
)
    requires
        pre.stack@.len() > 0,
        topn(pre.stack@, 0) == dest,
        jump_effect(pre, post, c),
        routed(c, pre.pc, post_pc, r),
    ensures
        pre.valid_jumps@.contains(dest) ==> post_pc == dest && r == Ok::<Execution, Execution>(
            Execution::Continue,
        ),
        !pre.valid_jumps@.contains(dest) ==> post_pc == pre.pc && r == Err::<
            Execution,
            Execution,
        >(Execution::Error(VmError::InvalidJump)),
{
}

/// Pops the top word as a host index; a word beyond the host index range is
/// the `UnsupportedOperation` fault the callers report.
pub(crate) fn pop_index(stack: &mut Stack) -> (r: Result<usize, VmError>)
    ensures
        final(stack).cap() == old(stack).cap(),
        match r {
            Ok(n) => old(stack)@.len() > 0 && n == old(stack)@.last().as_nat() && final(stack)@
                == old(stack)@.drop_last(),
            Err(VmError::StackUnderflow) => old(stack)@.len() == 0 && final(stack)@ == old(
                stack,
            )@,
            Err(VmError::UnsupportedOperation) => old(stack)@.len() > 0 && old(
                stack,
            )@.last().as_nat() > usize::MAX && final(stack)@ == old(stack)@.drop_last(),
            Err(_) => false,
        },
{
    match stack.pop() {
        Err(e) => Err(e),
        Ok(w) => match w.to_usize() {
            Some(n) => Ok(n),
            None => Err(VmError::UnsupportedOperation),
        },
    }
}

impl Vm {
    /// A fresh machine over `code`: empty stack and memory, the program
    /// counter at zero, the valid-jump set pre-scanned, an empty return
    /// window.
    pub fn new(code: &[u8]) -> (r: Vm)
        requires
            code@.len() + 33 <= usize::MAX,
        ensures
            r.wf(),
            r.stack@ == Seq::<Word>::empty(),
            r.memory@ == Seq::<u8>::empty(),
            r.pc == 0,
            r.code@ == code@,
            r.valid_jumps@ == scan_jumps(code@, 0),
            r.return_data == (0usize, 0usize),
    {
        let n = code.len();
        let mut jumps: Vec<usize> = Vec::new();
        let mut i: usize = 0;
        while i < n
            invariant
                n == code@.len(),
                n + 33 <= usize::MAX,
                i <= n + 32,
                jumps@ + scan_jumps(code@, i as nat) == scan_jumps(code@, 0),
            decreases n + 33 - i,
        {
            let b = code[i];
            let ghost pre_jumps = jumps@;
            let inc: usize = if b == 0x5b {
                jumps.push(i);
                1
            } else if 0x60 <= b && b <= 0x7f {
                (b - 0x5f) as usize + 1
            } else {
                1
            };
            proof {
                assert(inc == instr_size(code@[i as int]) || code@[i as int] == 0x5b);
                if code@[i as int] == 0x5b {
                    assert(scan_jumps(code@, i as nat) == seq![i as usize] + scan_jumps(
                        code@,
                        i as nat + 1,
                    ));
                    assert(pre_jumps + (seq![i as usize] + scan_jumps(code@, i as nat + 1))
                        =~= (pre_jumps + seq![i as usize]) + scan_jumps(code@, i as nat + 1));
                    assert(jumps@ =~= pre_jumps + seq![i as usize]);
                } else {
                    let next = i as nat + instr_size(code@[i as int]);
                    let clamped = if next > code@.len() {
                        code@.len()
                    } else {
                        next
                    };
                    assert(scan_jumps(code@, i as nat) == scan_jumps(code@, clamped));
                    if next > code@.len() {
                        assert(scan_jumps(code@, clamped) == scan_jumps(code@, next));
                    }
                }
            }
            i += inc;
        }
        proof {
            assert(scan_jumps(code@, i as nat) == Seq::<usize>::empty());
            assert(jumps@ + Seq::<usize>::empty() =~= jumps@);
        }
        Vm {
            stack: Stack::new(EVM_STACK_MAX_SIZE),
            memory: Memory::new(),
            pc: 0,
            code: vstd::slice::slice_to_vec(code),
            valid_jumps: jumps,
            return_data: (0, 0),
        }
    }

    /// Whether `dest` is in the pre-scanned valid-jump set.
    pub fn is_valid_jump(&self, dest: usize) -> (r: bool)
        ensures
            r == self.valid_jumps@.contains(dest),
    {
        let n = self.valid_jumps.len();
        let mut i: usize = 0;
        while i < n
            invariant
                i <= n == self.valid_jumps@.len(),
                forall|j: int| 0 <= j < i ==> self.valid_jumps@[j] != dest,
            decreases n - i,
        {
            if self.valid_jumps[i] == dest {
                return true;
            }
            i += 1;
        }
        false
    }

    /// One fetch-decode-dispatch step. A program counter at or past the end
    /// of the code is the implicit halt; a byte outside the instruction
    /// table is the invalid-opcode fault; otherwise the byte's handler runs
    /// and its control value routes the program counter and the report:
    /// `step_rel`, built from `op_effect` and `routed`, states all three.
    pub fn step(&mut self) -> (r: Result<Execution, Execution>)
        requires
            old(self).wf(),
        ensures
            final(self).wf(),
            final(self).code@ == old(self).code@,
            final(self).valid_jumps@ == old(self).valid_jumps@,
            step_rel(*old(self), *final(self), r),
    {
        if self.pc >= self.code.len() {
            return Ok(Execution::Stop);
        }
        let op = self.code[self.pc];
        if Opcode::get(op).is_none() {
            return Err(Execution::Error(VmError::InvalidOpcode));
        }
        let ghost pre = *self;
        let c = if op == 0x00 {
            crate::misc::stop(self)
        } else if op == 0x01 {
            crate::arithmetic::add(self)
        } else if op == 0x02 {
            crate::arithmetic::mul(self)
        } else if op == 0x03 {
            crate::arithmetic::sub(self)
        } else if op == 0x04 {
            crate::arithmetic::div(self)
        } else if op == 0x05 {
            crate::arithmetic::sdiv(self)
        } else if op == 0x06 {
            crate::arithmetic::rem(self)
        } else if op == 0x07 {
            crate::arithmetic::srem(self)
        } else if op == 0x08 {
            crate::arithmetic::addmod(self)
        } else if op == 0x09 {
            crate::arithmetic::mulmod(self)
        } else if op == 0x0a {
            crate::arithmetic::exp(self)
        } else if op == 0x10 {
            crate::logic::lt(self)
        } else if op == 0x11 {
            crate::logic::gt(self)
        } else if op == 0x12 {
            crate::logic::slt(self)
        } else if op == 0x13 {
            crate::logic::sgt(self)
        } else if op == 0x14 {
            crate::logic::eq(self)
        } else if op == 0x15 {
            crate::logic::iszero(self)
        } else if op == 0x16 {
            crate::logic::and(self)
        } else if op == 0x17 {
            crate::logic::or(self)
        } else if op == 0x18 {
            crate::logic::xor(self)
        } else if op == 0x19 {
            crate::logic::not(self)
        } else if op == 0x1a {
            crate::logic::byte(self)
        } else if op == 0x1b {
            crate::logic::shl(self)
        } else if op == 0x1c {
            crate::logic::shr(self)
        } else if op == 0x50 {
            crate::store::pop(self)
        } else if op == 0x51 {
            crate::store::mload(self)
        } else if op == 0x52 {
            crate::store::mstore(self)
        } else if op == 0x53 {
            crate::store::mstore8(self)
        } else if op == 0x56 {
            crate::misc::jump(self)
        } else if op == 0x57 {
            crate::misc::jumpi(self)
        } else if op == 0x58 {
            crate::misc::pc(self)
        } else if op == 0x59 {
            crate::store::msize(self)
        } else if op == 0x5b {
            crate::misc::jumpdest(self)
        } else if 0x60 <= op && op <= 0x7f {
            crate::store::push_n(self, (op - 0x5f) as usize)
        } else if 0x80 <= op && op <= 0x8f {
            crate::store::dup_n(self, (op - 0x7f) as usize)
        } else if 0x90 <= op && op <= 0x9f {
            crate::store::swap_n(self, (op - 0x8f) as usize)
        } else if op == 0xf3 {
            crate::misc::return_(self)
        } else if op == 0xfd {
            crate::misc::revert(self)
        } else {
            crate::misc::invalid(self)
        };
        proof {
            assert(op_effect(op, pre, *self, c));
            lemma_continue_bound(op, pre, *self, c);
        }
        let ghost mid = *self;
        match c {
            Control::Continue(n) => {
                self.pc = self.pc + n;
                proof {
                    assert(Vm { pc: pre.pc, ..*self } == mid);
                    assert(routed(c, pre.pc, self.pc, Ok::<Execution, Execution>(
                        Execution::Continue,
                    )));
                }
                Ok(Execution::Continue)
            },
            Control::Jump(dest) => {
                self.pc = dest;
                proof {
                    assert(Vm { pc: pre.pc, ..*self } == mid);
                    assert(routed(c, pre.pc, self.pc, Ok::<Execution, Execution>(
                        Execution::Continue,
                    )));
                }
                Ok(Execution::Continue)
            },
            Control::Stop => {
                proof {
                    assert(Vm { pc: pre.pc, ..*self } == mid);
                    assert(routed(c, pre.pc, self.pc, Ok::<Execution, Execution>(
                        Execution::Stop,
                    )));
                }
                Ok(Execution::Stop)
            },
            Control::Return => {
                proof {
                    assert(Vm { pc: pre.pc, ..*self } == mid);
                    assert(routed(c, pre.pc, self.pc, Ok::<Execution, Execution>(
                        Execution::Return,
                    )));
                }
                Ok(Execution::Return)
            },
            Control::Revert => {
                proof {
                    assert(Vm { pc: pre.pc, ..*self } == mid);
                    assert(routed(c, pre.pc, self.pc, Err::<Execution, Execution>(
                        Execution::Revert,
                    )));
                }
                Err(Execution::Revert)
            },
            Control::Error(e) => {
                proof {
                    assert(Vm { pc: pre.pc, ..*self } == mid);
                    assert(routed(c, pre.pc, self.pc, Err::<Execution, Execution>(
                        Execution::Error(e),
                    )));
                }
                Err(Execution::Error(e))
            },
        }
    }

    /// Drives `step` until the program halts or `max_steps` instructions
    /// have run. `Ok(())` reports a normal termination (Stop or Return); an
    /// `Err` carries the revert or the fault; `Err(Execution::Continue)`
    /// reports only that the step budget ran out with the machine still
    /// runnable. The report and the machine left behind are exactly those
    /// of a chain of interpreter steps from the starting state, as
    /// `run_rel` states; in particular a fault or revert leaves the machine
    /// as its faulting step left it.
    pub fn run(&mut self, max_steps: u64) -> (r: Result<(), Execution>)
        requires
            old(self).wf(),
        ensures
            final(self).wf(),
            final(self).code@ == old(self).code@,
            final(self).valid_jumps@ == old(self).valid_jumps@,
            run_rel(*old(self), *final(self), max_steps, r),
            r == Ok::<(), Execution>(()) ==> final(self).pc >= final(self).code@.len()
                || final(self).code@[final(self).pc as int] == 0x00
                || final(self).code@[final(self).pc as int] == 0xf3,
            r == Err::<(), Execution>(Execution::Revert) ==> final(self).pc < final(self).code@.len()
                && final(self).code@[final(self).pc as int] == 0xfd,
    {
        let mut fuel = max_steps;
        let ghost mut trace: Seq<Vm> = seq![*old(self)];
        while fuel > 0
            invariant
                self.wf(),
                self.code@ == old(self).code@,
                self.valid_jumps@ == old(self).valid_jumps@,
                fuel <= max_steps,
                continuing_chain(trace),
                trace.len() == 1 + max_steps - fuel,
                trace[0] == *old(self),
                trace.last() == *self,
            decreases fuel,
        {
            let ghost pre_step = *self;
            let outcome = self.step();
            proof {
                if pre_step.pc < pre_step.code@.len() && implemented(
                    pre_step.code@[pre_step.pc as int],
                ) && !(outcome matches Ok(Execution::Continue)) {
                    let op = pre_step.code@[pre_step.pc as int];
                    let c = choose|c: Control|
                        {
                            &&& #[trigger] routed(c, pre_step.pc, self.pc, outcome)
                            &&& op_effect(op, pre_step, Vm { pc: pre_step.pc, ..*self }, c)
                        };
                    lemma_terminal_ops(op, pre_step, Vm { pc: pre_step.pc, ..*self }, c);
                }
            }
            match outcome {
                Ok(Execution::Continue) => {
                    proof {
                        let prev = trace;
                        trace = trace.push(*self);
                        assert forall|i: int| 0 <= i < trace.len() - 1 implies #[trigger] step_rel(
                            trace[i],
                            trace[i + 1],
                            Ok::<Execution, Execution>(Execution::Continue),
                        ) by {
                            if i < prev.len() - 1 {
                                assert(trace[i] == prev[i]);
                                assert(trace[i + 1] == prev[i + 1]);
                                assert(step_rel(prev[i], prev[i + 1], Ok::<
                                    Execution,
                                    Execution,
                                >(Execution::Continue)));
                            } else {
                                assert(trace[i] == pre_step);
                                assert(trace[i + 1] == *self);
                            }
                        }
                    }
                    fuel = fuel - 1;
                },
                Ok(Execution::Stop) => {
                    proof {
                        assert(trace.last() == pre_step);
                        assert(step_rel(trace.last(), *self, Ok::<Execution, Execution>(
                            Execution::Stop,
                        )));
                        assert(1 <= trace.len() <= max_steps);
                    }
                    return Ok(());
                },
                Ok(Execution::Return) => {
                    proof {
                        assert(trace.last() == pre_step);
                        assert(step_rel(trace.last(), *self, Ok::<Execution, Execution>(
                            Execution::Return,
                        )));
                        assert(1 <= trace.len() <= max_steps);
                    }
                    return Ok(());
                },
                Ok(_) => {
                    // step never reports Ok(Revert) or Ok(Error): no routing
                    // produces them
                    proof {
                        assert(false);
                    }
                    return Ok(());
                },
                Err(e) => {
                    proof {
                        assert(trace.last() == pre_step);
                        assert(step_rel(trace.last(), *self, Err::<Execution, Execution>(e)));
                        assert(1 <= trace.len() <= max_steps);
                        assert(e matches Execution::Revert || e matches Execution::Error(_));
                    }
                    return Err(e);
                },
            }
        }
        proof {
            assert(trace.len() == max_steps + 1);
        }
        Err(Execution::Continue)
    }

    /// The bytes of the recorded return window, materialized from memory:
    /// defined (as empty by default) in every terminal state, and growing
    /// memory like any other access.
    pub fn get_return_data(&mut self) -> (r: Vec<u8>)
        requires
            old(self).wf(),
        ensures
            final(self).wf(),
            final(self).stack@ == old(self).stack@,
            final(self).pc == old(self).pc,
            final(self).code@ == old(self).code@,
            final(self).valid_jumps@ == old(self).valid_jumps@,
            final(self).return_data == old(self).return_data,
            r@.len() == old(self).return_data.1,
            forall|i: int|
                0 <= i < r@.len() ==> r@[i] == grown_at(
                    old(self).memory@,
                    old(self).return_data.0 + i,
                ),
    {
        self.memory.read(self.return_data.0, self.return_data.1)
    }
}

} // verus!
