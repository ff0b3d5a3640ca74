//! Instruction-level tests: handlers applied to a machine with hand-built
//! stacks, pinning the arithmetic down to exact values.

use evm_core::arithmetic;
use evm_core::error::VmError;
use evm_core::logic;
use evm_core::opcode::{Control, Opcode};
use evm_core::vm::Vm;
use evm_core::word::Word;

fn w(n: usize) -> Word {
    Word::from_usize(n)
}

fn machine(operands: &[Word]) -> Vm {
    let mut vm = Vm::new(&[]);
    for v in operands {
        vm.stack.push(*v).unwrap();
    }
    vm
}

fn max_word() -> Word {
    Word::from_be_bytes([0xff; 32])
}

#[test]
fn add_wraps_at_the_modulus() {
    // pushed first: 1, top of stack: MAX, so ADD computes MAX + 1 = 0
    let mut vm = machine(&[w(1), max_word()]);
    assert_eq!(arithmetic::add(&mut vm), Control::Continue(1));
    assert_eq!(vm.stack.pop(), Ok(Word::zero()));

    let mut vm2 = machine(&[w(3), w(2)]);
    assert_eq!(arithmetic::add(&mut vm2), Control::Continue(1));
    assert_eq!(vm2.stack.pop(), Ok(w(5)));
}

#[test]
fn add_then_sub_cancels() {
    // a + b, then subtract b: back to a, also across the wrap
    let a = max_word();
    let b = w(123);
    let mut vm = machine(&[b, a]);
    assert_eq!(arithmetic::add(&mut vm), Control::Continue(1));
    vm.stack.push(b).unwrap();
    vm.stack.swap(0, 1).unwrap();
    assert_eq!(arithmetic::sub(&mut vm), Control::Continue(1));
    assert_eq!(vm.stack.pop(), Ok(a));
}

#[test]
fn sub_is_top_minus_next() {
    let mut vm = machine(&[w(2), w(3)]);
    assert_eq!(arithmetic::sub(&mut vm), Control::Continue(1));
    assert_eq!(vm.stack.pop(), Ok(w(1)));

    // 0 - 1 wraps to the all-ones word
    let mut vm2 = machine(&[w(1), w(0)]);
    assert_eq!(arithmetic::sub(&mut vm2), Control::Continue(1));
    assert_eq!(vm2.stack.pop(), Ok(max_word()));
}

#[test]
fn mul_and_exp_exact_values() {
    let mut vm = machine(&[w(111), w(333)]);
    assert_eq!(arithmetic::mul(&mut vm), Control::Continue(1));
    assert_eq!(vm.stack.pop(), Ok(w(36963)));

    // 2^10 = 1024; exponent is the next word
    let mut vm2 = machine(&[w(10), w(2)]);
    assert_eq!(arithmetic::exp(&mut vm2), Control::Continue(1));
    assert_eq!(vm2.stack.pop(), Ok(w(1024)));

    // MAX * MAX wraps to 1
    let mut vm3 = machine(&[max_word(), max_word()]);
    assert_eq!(arithmetic::mul(&mut vm3), Control::Continue(1));
    assert_eq!(vm3.stack.pop(), Ok(w(1)));
}

#[test]
fn div_rem_recombine() {
    // 1000 = 7 * 142 + 6
    let mut vm = machine(&[w(7), w(1000)]);
    assert_eq!(arithmetic::div(&mut vm), Control::Continue(1));
    assert_eq!(vm.stack.pop(), Ok(w(142)));

    let mut vm2 = machine(&[w(7), w(1000)]);
    assert_eq!(arithmetic::rem(&mut vm2), Control::Continue(1));
    assert_eq!(vm2.stack.pop(), Ok(w(6)));

    assert_eq!(142 * 7 + 6, 1000);

    // remainder of a zero divisor is zero
    let mut vm3 = machine(&[w(0), w(1000)]);
    assert_eq!(arithmetic::rem(&mut vm3), Control::Continue(1));
    assert_eq!(vm3.stack.pop(), Ok(w(0)));
}

#[test]
fn addmod_uses_a_full_width_sum() {
    // (MAX + MAX) mod (MAX - 1) is 2 only when no wrap happens first
    let mut minus_one = [0xffu8; 32];
    minus_one[31] = 0xfe;
    let modulus = Word::from_be_bytes(minus_one);
    let mut vm = machine(&[modulus, max_word(), max_word()]);
    assert_eq!(arithmetic::addmod(&mut vm), Control::Continue(1));
    assert_eq!(vm.stack.pop(), Ok(w(2)));

    // a zero modulus yields zero
    let mut vm2 = machine(&[w(0), w(5), w(4)]);
    assert_eq!(arithmetic::addmod(&mut vm2), Control::Continue(1));
    assert_eq!(vm2.stack.pop(), Ok(w(0)));
}

#[test]
fn mulmod_uses_a_full_width_product() {
    // 2^256 is 1 mod 5, so MAX is divisible by 5 and (MAX * MAX) mod 5 = 0;
    // the wrapped product MAX * MAX mod 2^256 is 1, which would give 1
    let mut vm = machine(&[w(5), max_word()]);
    assert_eq!(arithmetic::rem(&mut vm), Control::Continue(1));
    assert_eq!(vm.stack.pop(), Ok(w(0)));

    let mut vm2 = machine(&[w(5), max_word(), max_word()]);
    assert_eq!(arithmetic::mulmod(&mut vm2), Control::Continue(1));
    assert_eq!(vm2.stack.pop(), Ok(w(0)));

    // a zero modulus yields zero
    let mut vm3 = machine(&[w(0), w(5), w(4)]);
    assert_eq!(arithmetic::mulmod(&mut vm3), Control::Continue(1));
    assert_eq!(vm3.stack.pop(), Ok(w(0)));
}

#[test]
fn signed_division_and_remainder_handlers() {
    let neg = |n: usize| {
        // two's complement of n: the word for -n
        let mut vm = machine(&[w(n), w(0)]);
        assert_eq!(arithmetic::sub(&mut vm), Control::Continue(1));
        vm.stack.pop().unwrap()
    };

    // -100 / 3 = -33 (truncated toward zero)
    let mut vm = machine(&[w(3), neg(100)]);
    assert_eq!(arithmetic::sdiv(&mut vm), Control::Continue(1));
    assert_eq!(vm.stack.pop(), Ok(neg(33)));

    // -100 % 3 = -1 (sign of the dividend)
    let mut vm2 = machine(&[w(3), neg(100)]);
    assert_eq!(arithmetic::srem(&mut vm2), Control::Continue(1));
    assert_eq!(vm2.stack.pop(), Ok(neg(1)));

    // MIN / -1 saturates to MIN
    let mut min_bytes = [0u8; 32];
    min_bytes[0] = 0x80;
    let min_word = Word::from_be_bytes(min_bytes);
    let mut vm3 = machine(&[neg(1), min_word]);
    assert_eq!(arithmetic::sdiv(&mut vm3), Control::Continue(1));
    assert_eq!(vm3.stack.pop(), Ok(min_word));
}

#[test]
fn comparisons_push_zero_or_one() {
    let mut vm = machine(&[w(5), w(3)]);
    assert_eq!(logic::lt(&mut vm), Control::Continue(1));
    assert_eq!(vm.stack.pop(), Ok(w(1)));

    let mut vm2 = machine(&[w(5), w(3)]);
    assert_eq!(logic::gt(&mut vm2), Control::Continue(1));
    assert_eq!(vm2.stack.pop(), Ok(w(0)));

    let mut vm3 = machine(&[w(5), w(5)]);
    assert_eq!(logic::eq(&mut vm3), Control::Continue(1));
    assert_eq!(vm3.stack.pop(), Ok(w(1)));

    let mut vm4 = machine(&[w(0)]);
    assert_eq!(logic::iszero(&mut vm4), Control::Continue(1));
    assert_eq!(vm4.stack.pop(), Ok(w(1)));

    // signed: MAX reads as -1, so it is below 1
    let mut vm5 = machine(&[w(1), max_word()]);
    assert_eq!(logic::slt(&mut vm5), Control::Continue(1));
    assert_eq!(vm5.stack.pop(), Ok(w(1)));

    let mut vm6 = machine(&[max_word(), w(1)]);
    assert_eq!(logic::sgt(&mut vm6), Control::Continue(1));
    assert_eq!(vm6.stack.pop(), Ok(w(1)));
}

#[test]
fn bitwise_handlers_work_per_byte() {
    let mut vm = machine(&[w(0x0ff0), w(0x1234)]);
    assert_eq!(logic::and(&mut vm), Control::Continue(1));
    assert_eq!(vm.stack.pop(), Ok(w(0x0230)));

    let mut vm2 = machine(&[w(0x0ff0), w(0x1234)]);
    assert_eq!(logic::or(&mut vm2), Control::Continue(1));
    assert_eq!(vm2.stack.pop(), Ok(w(0x1ff4)));

    let mut vm3 = machine(&[w(0x0ff0), w(0x1234)]);
    assert_eq!(logic::xor(&mut vm3), Control::Continue(1));
    assert_eq!(vm3.stack.pop(), Ok(w(0x1dc4)));

    let mut vm4 = machine(&[w(0)]);
    assert_eq!(logic::not(&mut vm4), Control::Continue(1));
    assert_eq!(vm4.stack.pop(), Ok(max_word()));
}

#[test]
fn byte_handler_indexes_big_endian() {
    // byte 31 of 0xabcd is 0xcd, byte 30 is 0xab
    let mut vm = machine(&[w(0xabcd), w(31)]);
    assert_eq!(logic::byte(&mut vm), Control::Continue(1));
    assert_eq!(vm.stack.pop(), Ok(w(0xcd)));

    let mut vm2 = machine(&[w(0xabcd), w(30)]);
    assert_eq!(logic::byte(&mut vm2), Control::Continue(1));
    assert_eq!(vm2.stack.pop(), Ok(w(0xab)));

    // indices of 32 and beyond give zero
    let mut vm3 = machine(&[w(0xabcd), w(32)]);
    assert_eq!(logic::byte(&mut vm3), Control::Continue(1));
    assert_eq!(vm3.stack.pop(), Ok(w(0)));
}

#[test]
fn shift_handlers() {
    // value is the top word, shift the next
    let mut vm = machine(&[w(4), w(3)]);
    assert_eq!(logic::shl(&mut vm), Control::Continue(1));
    assert_eq!(vm.stack.pop(), Ok(w(48)));

    let mut vm2 = machine(&[w(4), w(48)]);
    assert_eq!(logic::shr(&mut vm2), Control::Continue(1));
    assert_eq!(vm2.stack.pop(), Ok(w(3)));

    // a shift of 256 or more clears everything
    let mut vm3 = machine(&[w(256), max_word()]);
    assert_eq!(logic::shl(&mut vm3), Control::Continue(1));
    assert_eq!(vm3.stack.pop(), Ok(w(0)));

    let mut vm4 = machine(&[w(256), max_word()]);
    assert_eq!(logic::shr(&mut vm4), Control::Continue(1));
    assert_eq!(vm4.stack.pop(), Ok(w(0)));

    // shifting left wraps the high bits away: (2^255) << 1 == 0
    let mut high = [0u8; 32];
    high[0] = 0x80;
    let mut vm5 = machine(&[w(1), Word::from_be_bytes(high)]);
    assert_eq!(logic::shl(&mut vm5), Control::Continue(1));
    assert_eq!(vm5.stack.pop(), Ok(w(0)));
}

#[test]
fn handler_underflow_empties_the_stack() {
    let mut vm = machine(&[w(9)]);
    assert_eq!(arithmetic::add(&mut vm), Control::Error(VmError::StackUnderflow));
    assert_eq!(vm.stack.size(), 0);
}

#[test]
fn jump_beyond_host_range_is_unsupported() {
    let mut vm = machine(&[max_word()]);
    assert_eq!(evm_core::misc::jump(&mut vm), Control::Error(VmError::UnsupportedOperation));
}

#[test]
fn opcode_table_lookup() {
    assert!(Opcode::get(0x01).is_some());
    assert_eq!(Opcode::get(0x60).unwrap().code, 0x60);
    assert!(Opcode::get(0x5b).is_some());
    assert!(Opcode::get(0xf3).is_some());
    assert!(Opcode::get(0x0b).is_none());
    assert!(Opcode::get(0x38).is_none());
    assert!(Opcode::get(0x5a).is_none());
    assert!(Opcode::get(0xff).is_none());
}

#[test]
fn codesize_and_codecopy() {
    let code = vec![0x01, 0x02, 0x03, 0x04];
    let mut vm = Vm::new(&code);
    assert_eq!(evm_core::misc::codesize(&mut vm), Control::Continue(1));
    assert_eq!(vm.stack.pop(), Ok(w(4)));

    // copy code[1..4] to memory offset 0
    vm.stack.push(w(3)).unwrap();
    vm.stack.push(w(1)).unwrap();
    vm.stack.push(w(0)).unwrap();
    assert_eq!(evm_core::misc::codecopy(&mut vm), Control::Continue(1));
    let out = vm.memory.read(0, 3);
    assert_eq!(out, vec![0x02, 0x03, 0x04]);

    // a range past the end of the code faults instead of panicking
    vm.stack.push(w(5)).unwrap();
    vm.stack.push(w(1)).unwrap();
    vm.stack.push(w(0)).unwrap();
    assert_eq!(
        evm_core::misc::codecopy(&mut vm),
        Control::Error(VmError::UnsupportedOperation)
    );
}

#[test]
fn opcode_mnemonics() {
    assert_eq!(Opcode::get(0x00).unwrap().mnemonic(), "STOP");
    assert_eq!(Opcode::get(0x01).unwrap().mnemonic(), "ADD");
    assert_eq!(Opcode::get(0x61).unwrap().mnemonic(), "PUSH");
    assert_eq!(Opcode::get(0xfe).unwrap().mnemonic(), "INVALID");
}
