//! Comparison and bitwise instruction handlers.

use vstd::prelude::*;
use crate::i256::I256;
use crate::opcode::Control;
use crate::u256::{u256_shl, u256_shr};
use crate::vm::{Vm, and_effect, byte_effect, eq_effect, gt_effect, iszero_effect, lt_effect,
    not_effect, or_effect, sgt_effect, shl_effect, shr_effect, slt_effect, xor_effect};
use crate::word::Word;

verus! {

/// LT (0x10): pops two words, pushes 1 when top < next, else 0.
pub fn lt(vm: &mut Vm) -> (c: Control)
    requires
        old(vm).wf(),
    ensures
        final(vm).wf(),
        lt_effect(*old(vm), *final(vm), c),
{
    let a = match vm.stack.pop() {
        Ok(w) => w,
        Err(e) => {
            proof {
                assert(vm.stack@ =~= Seq::<Word>::empty());
            }
            return Control::Error(e);
        },
    };
    let b = match vm.stack.pop() {
        Ok(w) => w,
        Err(e) => {
            proof {
                assert(vm.stack@ =~= Seq::<Word>::empty());
            }
            return Control::Error(e);
        },
    };
    let r = if a.lt_word(&b) {
        Word::from_byte(1)
    } else {
        Word::zero()
    };
    proof {
        assert(vm.stack@ =~= old(vm).stack@.take(old(vm).stack@.len() - 2));
    }
    let ghost mid = vm.stack@;
    match vm.stack.push(r) {
        Ok(()) => {
            proof {
                assert(vm.stack@.drop_last() =~= mid);
            }
            Control::Continue(1)
        },
        Err(e) => Control::Error(e),
    }
}

/// GT (0x11): pops two words, pushes 1 when top > next, else 0.
pub fn gt(vm: &mut Vm) -> (c: Control)
    requires
        old(vm).wf(),
    ensures
        final(vm).wf(),
        gt_effect(*old(vm), *final(vm), c),
{
    let a = match vm.stack.pop() {
        Ok(w) => w,
        Err(e) => {
            proof {
                assert(vm.stack@ =~= Seq::<Word>::empty());
            }
            return Control::Error(e);
        },
    };
    let b = match vm.stack.pop() {
        Ok(w) => w,
        Err(e) => {
            proof {
                assert(vm.stack@ =~= Seq::<Word>::empty());
            }
            return Control::Error(e);
        },
    };
    let r = if b.lt_word(&a) {
        Word::from_byte(1)
    } else {
        Word::zero()
    };
    proof {
        assert(vm.stack@ =~= old(vm).stack@.take(old(vm).stack@.len() - 2));
    }
    let ghost mid = vm.stack@;
    match vm.stack.push(r) {
        Ok(()) => {
            proof {
                assert(vm.stack@.drop_last() =~= mid);
            }
            Control::Continue(1)
        },
        Err(e) => Control::Error(e),
    }
}

/// SLT (0x12): pops two words, pushes 1 when top < next as signed values.
pub fn slt(vm: &mut Vm) -> (c: Control)
    requires
        old(vm).wf(),
    ensures
        final(vm).wf(),
        slt_effect(*old(vm), *final(vm), c),
{
    let a = match vm.stack.pop() {
        Ok(w) => w,
        Err(e) => {
            proof {
                assert(vm.stack@ =~= Seq::<Word>::empty());
            }
            return Control::Error(e);
        },
    };
    let b = match vm.stack.pop() {
        Ok(w) => w,
        Err(e) => {
            proof {
                assert(vm.stack@ =~= Seq::<Word>::empty());
            }
            return Control::Error(e);
        },
    };
    let sa = I256::from_word(&a);
    let sb = I256::from_word(&b);
    let r = if sa.lt(&sb) {
        Word::from_byte(1)
    } else {
        Word::zero()
    };
    proof {
        assert(vm.stack@ =~= old(vm).stack@.take(old(vm).stack@.len() - 2));
    }
    let ghost mid = vm.stack@;
    match vm.stack.push(r) {
        Ok(()) => {
            proof {
                assert(vm.stack@.drop_last() =~= mid);
            }
            Control::Continue(1)
        },
        Err(e) => Control::Error(e),
    }
}

/// SGT (0x13): pops two words, pushes 1 when top > next as signed values.
pub fn sgt(vm: &mut Vm) -> (c: Control)
    requires
        old(vm).wf(),
    ensures
        final(vm).wf(),
        sgt_effect(*old(vm), *final(vm), c),
{
    let a = match vm.stack.pop() {
        Ok(w) => w,
        Err(e) => {
            proof {
                assert(vm.stack@ =~= Seq::<Word>::empty());
            }
            return Control::Error(e);
        },
    };
    let b = match vm.stack.pop() {
        Ok(w) => w,
        Err(e) => {
            proof {
                assert(vm.stack@ =~= Seq::<Word>::empty());
            }
            return Control::Error(e);
        },
    };
    let sa = I256::from_word(&a);
    let sb = I256::from_word(&b);
    let r = if sb.lt(&sa) {
        Word::from_byte(1)
    } else {
        Word::zero()
    };
    proof {
        assert(vm.stack@ =~= old(vm).stack@.take(old(vm).stack@.len() - 2));
    }
    let ghost mid = vm.stack@;
    match vm.stack.push(r) {
        Ok(()) => {
            proof {
                assert(vm.stack@.drop_last() =~= mid);
            }
            Control::Continue(1)
        },
        Err(e) => Control::Error(e),
    }
}

/// EQ (0x14): pops two words, pushes 1 when they are equal, else 0.
pub fn eq(vm: &mut Vm) -> (c: Control)
    requires
        old(vm).wf(),
    ensures
        final(vm).wf(),
        eq_effect(*old(vm), *final(vm), c),
{
    let a = match vm.stack.pop() {
        Ok(w) => w,
        Err(e) => {
            proof {
                assert(vm.stack@ =~= Seq::<Word>::empty());
            }
            return Control::Error(e);
        },
    };
    let b = match vm.stack.pop() {
        Ok(w) => w,
        Err(e) => {
            proof {
                assert(vm.stack@ =~= Seq::<Word>::empty());
            }
            return Control::Error(e);
        },
    };
    let r = if a.eq_word(&b) {
        Word::from_byte(1)
    } else {
        Word::zero()
    };
    proof {
        assert(vm.stack@ =~= old(vm).stack@.take(old(vm).stack@.len() - 2));
    }
    let ghost mid = vm.stack@;
    match vm.stack.push(r) {
        Ok(()) => {
            proof {
                assert(vm.stack@.drop_last() =~= mid);
            }
            Control::Continue(1)
        },
        Err(e) => Control::Error(e),
    }
}

/// ISZERO (0x15): pops one word, pushes 1 when it is zero, else 0.
pub fn iszero(vm: &mut Vm) -> (c: Control)
    requires
        old(vm).wf(),
    ensures
        final(vm).wf(),
        iszero_effect(*old(vm), *final(vm), c),
{
    let a = match vm.stack.pop() {
        Ok(w) => w,
        Err(e) => {
            proof {
                assert(vm.stack@ =~= Seq::<Word>::empty());
            }
            return Control::Error(e);
        },
    };
    let r = if a.is_zero() {
        Word::from_byte(1)
    } else {
        Word::zero()
    };
    proof {
        assert(vm.stack@ =~= old(vm).stack@.take(old(vm).stack@.len() - 1));
    }
    let ghost mid = vm.stack@;
    match vm.stack.push(r) {
        Ok(()) => {
            proof {
                assert(vm.stack@.drop_last() =~= mid);
            }
            Control::Continue(1)
        },
        Err(e) => Control::Error(e),
    }
}

/// AND (0x16): pops two words, pushes their byte-wise conjunction.
pub fn and(vm: &mut Vm) -> (c: Control)
    requires
        old(vm).wf(),
    ensures
        final(vm).wf(),
        and_effect(*old(vm), *final(vm), c),
{
    let a = match vm.stack.pop() {
        Ok(w) => w,
        Err(e) => {
            proof {
                assert(vm.stack@ =~= Seq::<Word>::empty());
            }
            return Control::Error(e);
        },
    };
    let b = match vm.stack.pop() {
        Ok(w) => w,
        Err(e) => {
            proof {
                assert(vm.stack@ =~= Seq::<Word>::empty());
            }
            return Control::Error(e);
        },
    };
    let r = a.bit_and(&b);
    proof {
        assert(vm.stack@ =~= old(vm).stack@.take(old(vm).stack@.len() - 2));
    }
    let ghost mid = vm.stack@;
    match vm.stack.push(r) {
        Ok(()) => {
            proof {
                assert(vm.stack@.drop_last() =~= mid);
            }
            Control::Continue(1)
        },
        Err(e) => Control::Error(e),
    }
}

/// OR (0x17): pops two words, pushes their byte-wise disjunction.
pub fn or(vm: &mut Vm) -> (c: Control)
    requires
        old(vm).wf(),
    ensures
        final(vm).wf(),
        or_effect(*old(vm), *final(vm), c),
{
    let a = match vm.stack.pop() {
        Ok(w) => w,
        Err(e) => {
            proof {
                assert(vm.stack@ =~= Seq::<Word>::empty());
            }
            return Control::Error(e);
        },
    };
    let b = match vm.stack.pop() {
        Ok(w) => w,
        Err(e) => {
            proof {
                assert(vm.stack@ =~= Seq::<Word>::empty());
            }
            return Control::Error(e);
        },
    };
    let r = a.bit_or(&b);
    proof {
        assert(vm.stack@ =~= old(vm).stack@.take(old(vm).stack@.len() - 2));
    }
    let ghost mid = vm.stack@;
    match vm.stack.push(r) {
        Ok(()) => {
            proof {
                assert(vm.stack@.drop_last() =~= mid);
            }
            Control::Continue(1)
        },
        Err(e) => Control::Error(e),
    }
}

/// XOR (0x18): pops two words, pushes their byte-wise exclusive or.
pub fn xor(vm: &mut Vm) -> (c: Control)
    requires
        old(vm).wf(),
    ensures
        final(vm).wf(),
        xor_effect(*old(vm), *final(vm), c),
{
    let a = match vm.stack.pop() {
        Ok(w) => w,
        Err(e) => {
            proof {
                assert(vm.stack@ =~= Seq::<Word>::empty());
            }
            return Control::Error(e);
        },
    };
    let b = match vm.stack.pop() {
        Ok(w) => w,
        Err(e) => {
            proof {
                assert(vm.stack@ =~= Seq::<Word>::empty());
            }
            return Control::Error(e);
        },
    };
    let r = a.bit_xor(&b);
    proof {
        assert(vm.stack@ =~= old(vm).stack@.take(old(vm).stack@.len() - 2));
    }
    let ghost mid = vm.stack@;
    match vm.stack.push(r) {
        Ok(()) => {
            proof {
                assert(vm.stack@.drop_last() =~= mid);
            }
            Control::Continue(1)
        },
        Err(e) => Control::Error(e),
    }
}

/// NOT (0x19): pops one word, pushes its bitwise complement.
pub fn not(vm: &mut Vm) -> (c: Control)
    requires
        old(vm).wf(),
    ensures
        final(vm).wf(),
        not_effect(*old(vm), *final(vm), c),
{
    let a = match vm.stack.pop() {
        Ok(w) => w,
        Err(e) => {
            proof {
                assert(vm.stack@ =~= Seq::<Word>::empty());
            }
            return Control::Error(e);
        },
    };
    let r = a.bit_not();
    proof {
        assert(vm.stack@ =~= old(vm).stack@.take(old(vm).stack@.len() - 1));
    }
    let ghost mid = vm.stack@;
    match vm.stack.push(r) {
        Ok(()) => {
            proof {
                assert(vm.stack@.drop_last() =~= mid);
            }
            Control::Continue(1)
        },
        Err(e) => Control::Error(e),
    }
}

/// BYTE (0x1a): pops the index, then a word; pushes byte `index` of the
/// word's big-endian encoding, or zero when the index is 32 or more.
pub fn byte(vm: &mut Vm) -> (c: Control)
    requires
        old(vm).wf(),
    ensures
        final(vm).wf(),
        byte_effect(*old(vm), *final(vm), c),
{
    let iw = match vm.stack.pop() {
        Ok(w) => w,
        Err(e) => {
            proof {
                assert(vm.stack@ =~= Seq::<Word>::empty());
            }
            return Control::Error(e);
        },
    };
    let vw = match vm.stack.pop() {
        Ok(w) => w,
        Err(e) => {
            proof {
                assert(vm.stack@ =~= Seq::<Word>::empty());
            }
            return Control::Error(e);
        },
    };
    let r = match iw.to_usize() {
        Some(i) => {
            if i < 32 {
                Word::from_byte(vw.byte_at(i))
            } else {
                Word::zero()
            }
        },
        None => Word::zero(),
    };
    proof {
        assert(vm.stack@ =~= old(vm).stack@.take(old(vm).stack@.len() - 2));
    }
    let ghost mid = vm.stack@;
    match vm.stack.push(r) {
        Ok(()) => {
            proof {
                assert(vm.stack@.drop_last() =~= mid);
            }
            Control::Continue(1)
        },
        Err(e) => Control::Error(e),
    }
}

/// SHL (0x1b): pops the value, then the shift; pushes the value shifted
/// left, zero for shifts of 256 or more.
pub fn shl(vm: &mut Vm) -> (c: Control)
    requires
        old(vm).wf(),
    ensures
        final(vm).wf(),
        shl_effect(*old(vm), *final(vm), c),
{
    let vw = match vm.stack.pop() {
        Ok(w) => w,
        Err(e) => {
            proof {
                assert(vm.stack@ =~= Seq::<Word>::empty());
            }
            return Control::Error(e);
        },
    };
    let sw = match vm.stack.pop() {
        Ok(w) => w,
        Err(e) => {
            proof {
                assert(vm.stack@ =~= Seq::<Word>::empty());
            }
            return Control::Error(e);
        },
    };
    let r = match sw.to_usize() {
        Some(s) => {
            if s < 256 {
                u256_shl(&vw, s)
            } else {
                Word::zero()
            }
        },
        None => Word::zero(),
    };
    proof {
        crate::benat::lemma_pow256_pos(32);
        if vw.as_nat() == 0 {
            vstd::arithmetic::div_mod::lemma_small_mod(0, crate::word::word_modulus());
        }
        assert(vm.stack@ =~= old(vm).stack@.take(old(vm).stack@.len() - 2));
    }
    let ghost mid = vm.stack@;
    match vm.stack.push(r) {
        Ok(()) => {
            proof {
                assert(vm.stack@.drop_last() =~= mid);
            }
            Control::Continue(1)
        },
        Err(e) => Control::Error(e),
    }
}

/// SHR (0x1c): pops the value, then the shift; pushes the value shifted
/// right logically, zero for shifts of 256 or more.
pub fn shr(vm: &mut Vm) -> (c: Control)
    requires
        old(vm).wf(),
    ensures
        final(vm).wf(),
        shr_effect(*old(vm), *final(vm), c),
{
    let vw = match vm.stack.pop() {
        Ok(w) => w,
        Err(e) => {
            proof {
                assert(vm.stack@ =~= Seq::<Word>::empty());
            }
            return Control::Error(e);
        },
    };
    let sw = match vm.stack.pop() {
        Ok(w) => w,
        Err(e) => {
            proof {
                assert(vm.stack@ =~= Seq::<Word>::empty());
            }
            return Control::Error(e);
        },
    };
    let r = match sw.to_usize() {
        Some(s) => {
            if s < 256 {
                u256_shr(&vw, s)
            } else {
                Word::zero()
            }
        },
        None => Word::zero(),
    };
    proof {
        if vw.as_nat() == 0 {
            vstd::arithmetic::power2::lemma_pow2_pos(sw.as_nat());
            vstd::arithmetic::div_mod::lemma_div_basics_1(
                vstd::arithmetic::power2::pow2(sw.as_nat()) as int,
            );
        }
        assert(vm.stack@ =~= old(vm).stack@.take(old(vm).stack@.len() - 2));
    }
    let ghost mid = vm.stack@;
    match vm.stack.push(r) {
        Ok(()) => {
            proof {
                assert(vm.stack@.drop_last() =~= mid);
            }
            Control::Continue(1)
        },
        Err(e) => Control::Error(e),
    }
}

} // verus!
