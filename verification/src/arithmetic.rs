//! Arithmetic instruction handlers: wrapping add/sub/mul, checked div/rem
//! with the divide-by-zero-is-zero convention, signed division and
//! remainder, full-width modular add/mul, and exponentiation.

use vstd::prelude::*;
use crate::i256::I256;
use crate::opcode::Control;
use crate::u256::{u256_add, u256_addmod, u256_div, u256_exp, u256_mul, u256_mulmod, u256_rem, u256_sub};
use crate::vm::{Vm, add_effect, addmod_effect, div_effect, exp_effect, mul_effect, mulmod_effect,
    rem_effect, sdiv_effect, srem_effect, sub_effect};
use crate::word::Word;

verus! {

/// ADD (0x01): pops two words, pushes their wrapping sum.
pub fn add(vm: &mut Vm) -> (c: Control)
    requires
        old(vm).wf(),
    ensures
        final(vm).wf(),
        add_effect(*old(vm), *final(vm), c),
{
    let a = match vm.stack.pop() {
        Ok(w) => w,
        Err(e) => {
            proof {
                assert(vm.stack@ =~= Seq::<Word>::empty());
            }
            return Control::Error(e);
        },
    };
    let b = match vm.stack.pop() {
        Ok(w) => w,
        Err(e) => {
            proof {
                assert(vm.stack@ =~= Seq::<Word>::empty());
            }
            return Control::Error(e);
        },
    };
    let r = u256_add(&a, &b);
    proof {
        assert(vm.stack@ =~= old(vm).stack@.take(old(vm).stack@.len() - 2));
    }
    let ghost mid = vm.stack@;
    match vm.stack.push(r) {
        Ok(()) => {
            proof {
                assert(vm.stack@.drop_last() =~= mid);
            }
            Control::Continue(1)
        },
        Err(e) => Control::Error(e),
    }
}

/// MUL (0x02): pops two words, pushes their wrapping product.
pub fn mul(vm: &mut Vm) -> (c: Control)
    requires
        old(vm).wf(),
    ensures
        final(vm).wf(),
        mul_effect(*old(vm), *final(vm), c),
{
    let a = match vm.stack.pop() {
        Ok(w) => w,
        Err(e) => {
            proof {
                assert(vm.stack@ =~= Seq::<Word>::empty());
            }
            return Control::Error(e);
        },
    };
    let b = match vm.stack.pop() {
        Ok(w) => w,
        Err(e) => {
            proof {
                assert(vm.stack@ =~= Seq::<Word>::empty());
            }
            return Control::Error(e);
        },
    };
    let r = u256_mul(&a, &b);
    proof {
        assert(vm.stack@ =~= old(vm).stack@.take(old(vm).stack@.len() - 2));
    }
    let ghost mid = vm.stack@;
    match vm.stack.push(r) {
        Ok(()) => {
            proof {
                assert(vm.stack@.drop_last() =~= mid);
            }
            Control::Continue(1)
        },
        Err(e) => Control::Error(e),
    }
}

/// SUB (0x03): pops two words, pushes top minus next, wrapping.
pub fn sub(vm: &mut Vm) -> (c: Control)
    requires
        old(vm).wf(),
    ensures
        final(vm).wf(),
        sub_effect(*old(vm), *final(vm), c),
{
    let a = match vm.stack.pop() {
        Ok(w) => w,
        Err(e) => {
            proof {
                assert(vm.stack@ =~= Seq::<Word>::empty());
            }
            return Control::Error(e);
        },
    };
    let b = match vm.stack.pop() {
        Ok(w) => w,
        Err(e) => {
            proof {
                assert(vm.stack@ =~= Seq::<Word>::empty());
            }
            return Control::Error(e);
        },
    };
    let r = u256_sub(&a, &b);
    proof {
        assert(vm.stack@ =~= old(vm).stack@.take(old(vm).stack@.len() - 2));
    }
    let ghost mid = vm.stack@;
    match vm.stack.push(r) {
        Ok(()) => {
            proof {
                assert(vm.stack@.drop_last() =~= mid);
            }
            Control::Continue(1)
        },
        Err(e) => Control::Error(e),
    }
}

/// DIV (0x04): pops two words, pushes top over next; a zero divisor gives
/// zero by convention.
pub fn div(vm: &mut Vm) -> (c: Control)
    requires
        old(vm).wf(),
    ensures
        final(vm).wf(),
        div_effect(*old(vm), *final(vm), c),
{
    let a = match vm.stack.pop() {
        Ok(w) => w,
        Err(e) => {
            proof {
                assert(vm.stack@ =~= Seq::<Word>::empty());
            }
            return Control::Error(e);
        },
    };
    let b = match vm.stack.pop() {
        Ok(w) => w,
        Err(e) => {
            proof {
                assert(vm.stack@ =~= Seq::<Word>::empty());
            }
            return Control::Error(e);
        },
    };
    let r = if b.is_zero() {
        Word::zero()
    } else {
        u256_div(&a, &b)
    };
    proof {
        assert(vm.stack@ =~= old(vm).stack@.take(old(vm).stack@.len() - 2));
    }
    let ghost mid = vm.stack@;
    match vm.stack.push(r) {
        Ok(()) => {
            proof {
                assert(vm.stack@.drop_last() =~= mid);
            }
            Control::Continue(1)
        },
        Err(e) => Control::Error(e),
    }
}

/// SDIV (0x05): pops two words, pushes their truncated signed quotient.
pub fn sdiv(vm: &mut Vm) -> (c: Control)
    requires
        old(vm).wf(),
    ensures
        final(vm).wf(),
        sdiv_effect(*old(vm), *final(vm), c),
{
    let a = match vm.stack.pop() {
        Ok(w) => w,
        Err(e) => {
            proof {
                assert(vm.stack@ =~= Seq::<Word>::empty());
            }
            return Control::Error(e);
        },
    };
    let b = match vm.stack.pop() {
        Ok(w) => w,
        Err(e) => {
            proof {
                assert(vm.stack@ =~= Seq::<Word>::empty());
            }
            return Control::Error(e);
        },
    };
    let sa = I256::from_word(&a);
    let sb = I256::from_word(&b);
    let q = sa.div(&sb);
    let r = q.to_word();
    proof {
        crate::benat::lemma_pow256_pos(32);
        vstd::arithmetic::div_mod::lemma_mod_division_less_than_divisor(
            crate::i256::sdiv_val(sa.as_int(), sb.as_int()),
            crate::word::word_modulus() as int,
        );
        crate::i256::lemma_unsigned_signed_id(
            crate::i256::unsigned_of(crate::i256::sdiv_val(sa.as_int(), sb.as_int())),
        );
        assert(vm.stack@ =~= old(vm).stack@.take(old(vm).stack@.len() - 2));
    }
    let ghost mid = vm.stack@;
    match vm.stack.push(r) {
        Ok(()) => {
            proof {
                assert(vm.stack@.drop_last() =~= mid);
            }
            Control::Continue(1)
        },
        Err(e) => Control::Error(e),
    }
}

/// MOD (0x06): pops two words, pushes top modulo next; a zero divisor gives
/// zero by convention.
pub fn rem(vm: &mut Vm) -> (c: Control)
    requires
        old(vm).wf(),
    ensures
        final(vm).wf(),
        rem_effect(*old(vm), *final(vm), c),
{
    let a = match vm.stack.pop() {
        Ok(w) => w,
        Err(e) => {
            proof {
                assert(vm.stack@ =~= Seq::<Word>::empty());
            }
            return Control::Error(e);
        },
    };
    let b = match vm.stack.pop() {
        Ok(w) => w,
        Err(e) => {
            proof {
                assert(vm.stack@ =~= Seq::<Word>::empty());
            }
            return Control::Error(e);
        },
    };
    let r = if b.is_zero() {
        Word::zero()
    } else {
        u256_rem(&a, &b)
    };
    proof {
        assert(vm.stack@ =~= old(vm).stack@.take(old(vm).stack@.len() - 2));
    }
    let ghost mid = vm.stack@;
    match vm.stack.push(r) {
        Ok(()) => {
            proof {
                assert(vm.stack@.drop_last() =~= mid);
            }
            Control::Continue(1)
        },
        Err(e) => Control::Error(e),
    }
}

/// SMOD (0x07): pops two words, pushes the signed remainder, which takes
/// the dividend's sign.
pub fn srem(vm: &mut Vm) -> (c: Control)
    requires
        old(vm).wf(),
    ensures
        final(vm).wf(),
        srem_effect(*old(vm), *final(vm), c),
{
    let a = match vm.stack.pop() {
        Ok(w) => w,
        Err(e) => {
            proof {
                assert(vm.stack@ =~= Seq::<Word>::empty());
            }
            return Control::Error(e);
        },
    };
    let b = match vm.stack.pop() {
        Ok(w) => w,
        Err(e) => {
            proof {
                assert(vm.stack@ =~= Seq::<Word>::empty());
            }
            return Control::Error(e);
        },
    };
    let sa = I256::from_word(&a);
    let sb = I256::from_word(&b);
    let q = sa.rem(&sb);
    let r = q.to_word();
    proof {
        assert(vm.stack@ =~= old(vm).stack@.take(old(vm).stack@.len() - 2));
    }
    let ghost mid = vm.stack@;
    match vm.stack.push(r) {
        Ok(()) => {
            proof {
                assert(vm.stack@.drop_last() =~= mid);
            }
            Control::Continue(1)
        },
        Err(e) => Control::Error(e),
    }
}

/// ADDMOD (0x08): pops three words, pushes `(a + b) mod c` computed with a
/// full-width sum; a zero modulus gives zero.
pub fn addmod(vm: &mut Vm) -> (c: Control)
    requires
        old(vm).wf(),
    ensures
        final(vm).wf(),
        addmod_effect(*old(vm), *final(vm), c),
{
    let a = match vm.stack.pop() {
        Ok(w) => w,
        Err(e) => {
            proof {
                assert(vm.stack@ =~= Seq::<Word>::empty());
            }
            return Control::Error(e);
        },
    };
    let b = match vm.stack.pop() {
        Ok(w) => w,
        Err(e) => {
            proof {
                assert(vm.stack@ =~= Seq::<Word>::empty());
            }
            return Control::Error(e);
        },
    };
    let m = match vm.stack.pop() {
        Ok(w) => w,
        Err(e) => {
            proof {
                assert(vm.stack@ =~= Seq::<Word>::empty());
            }
            return Control::Error(e);
        },
    };
    let r = if m.is_zero() {
        Word::zero()
    } else {
        u256_addmod(&a, &b, &m)
    };
    proof {
        assert(vm.stack@ =~= old(vm).stack@.take(old(vm).stack@.len() - 3));
    }
    let ghost mid = vm.stack@;
    match vm.stack.push(r) {
        Ok(()) => {
            proof {
                assert(vm.stack@.drop_last() =~= mid);
            }
            Control::Continue(1)
        },
        Err(e) => Control::Error(e),
    }
}

/// MULMOD (0x09): pops three words, pushes `(a * b) mod c` computed with a
/// full-width product; a zero modulus gives zero.
pub fn mulmod(vm: &mut Vm) -> (c: Control)
    requires
        old(vm).wf(),
    ensures
        final(vm).wf(),
        mulmod_effect(*old(vm), *final(vm), c),
{
    let a = match vm.stack.pop() {
        Ok(w) => w,
        Err(e) => {
            proof {
                assert(vm.stack@ =~= Seq::<Word>::empty());
            }
            return Control::Error(e);
        },
    };
    let b = match vm.stack.pop() {
        Ok(w) => w,
        Err(e) => {
            proof {
                assert(vm.stack@ =~= Seq::<Word>::empty());
            }
            return Control::Error(e);
        },
    };
    let m = match vm.stack.pop() {
        Ok(w) => w,
        Err(e) => {
            proof {
                assert(vm.stack@ =~= Seq::<Word>::empty());
            }
            return Control::Error(e);
        },
    };
    let r = if m.is_zero() {
        Word::zero()
    } else {
        u256_mulmod(&a, &b, &m)
    };
    proof {
        assert(vm.stack@ =~= old(vm).stack@.take(old(vm).stack@.len() - 3));
    }
    let ghost mid = vm.stack@;
    match vm.stack.push(r) {
        Ok(()) => {
            proof {
                assert(vm.stack@.drop_last() =~= mid);
            }
            Control::Continue(1)
        },
        Err(e) => Control::Error(e),
    }
}

/// EXP (0x0a): pops two words, pushes the top raised to the next, modulo
/// 2^256.
pub fn exp(vm: &mut Vm) -> (c: Control)
    requires
        old(vm).wf(),
    ensures
        final(vm).wf(),
        exp_effect(*old(vm), *final(vm), c),
{
    let a = match vm.stack.pop() {
        Ok(w) => w,
        Err(e) => {
            proof {
                assert(vm.stack@ =~= Seq::<Word>::empty());
            }
            return Control::Error(e);
        },
    };
    let b = match vm.stack.pop() {
        Ok(w) => w,
        Err(e) => {
            proof {
                assert(vm.stack@ =~= Seq::<Word>::empty());
            }
            return Control::Error(e);
        },
    };
    let r = u256_exp(&a, &b);
    proof {
        assert(vm.stack@ =~= old(vm).stack@.take(old(vm).stack@.len() - 2));
    }
    let ghost mid = vm.stack@;
    match vm.stack.push(r) {
        Ok(()) => {
            proof {
                assert(vm.stack@.drop_last() =~= mid);
            }
            Control::Continue(1)
        },
        Err(e) => Control::Error(e),
    }
}

} // verus!
