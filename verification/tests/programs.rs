//! Whole-program tests: bytecode in, terminal outcome and observable state
//! out.

use evm_core::error::VmError;
use evm_core::vm::{Execution, Vm};
use evm_core::word::Word;

const FUEL: u64 = 100_000;

#[test]
fn run() {
    let code = vec![0x60, 0x05, 0x00];
    let mut vm = Vm::new(&code);
    assert_eq!(vm.code.len(), 3);
    assert_eq!(vm.pc, 0);
    vm.step().ok();
}

#[test]
fn it_works() {
    let code4 = vec![
        0x60, 0x00, // PUSH1 (initial value 0)
        0x5b, // JUMPDEST    (loop start)
        0x60, 0x01, // PUSH1
        0x01, // ADD         (increment)
        0x80, // DUP1
        0x60, 0x05, // PUSH1
        0x11, // GT          (check sum < 5)
        0x60, 0x02, // PUSH1
        0x57, // JUMPI       (iterate if sum < 5)
        0x60, 0x00, // PUSH1
        0x52, // MSTORE      (store sum in memory)
        0x60, 0x20, // PUSH1
        0x60, 0x00, // PUSH1
        0xf3, // RETURN
    ];

    let mut vm = Vm::new(&code4);
    vm.run(FUEL).ok();
    let _sum = vm.get_return_data();
}

#[test]
fn lib_it_works() {
    let code = vec![0x60, 0x02, 0x60, 0x03, 0x03, 0x00];
    let mut vm = Vm::new(&code);
    vm.run(FUEL).ok();
}

#[test]
fn sub_then_stop_leaves_difference() {
    // PUSH1 2, PUSH1 3, SUB, STOP: the top of the stack is 3 - 2 = 1
    let code = vec![0x60, 0x02, 0x60, 0x03, 0x03, 0x00];
    let mut vm = Vm::new(&code);
    assert_eq!(vm.run(FUEL), Ok(()));
    assert_eq!(vm.stack.pop(), Ok(Word::from_usize(1)));
}

#[test]
fn mstore_then_return_surfaces_window() {
    // store 5 at mem[0..32], return 32 bytes from offset 0
    let code = vec![0x60, 0x05, 0x60, 0x00, 0x52, 0x60, 0x20, 0x60, 0x00, 0xf3];
    let mut vm = Vm::new(&code);
    assert_eq!(vm.run(FUEL), Ok(()));
    let data = vm.get_return_data();
    let mut expected = vec![0u8; 32];
    expected[31] = 5;
    assert_eq!(data, expected);
}

#[test]
fn loop_accumulates_then_returns() {
    // increment until GT's `top > next` (5 > sum) clears: the loop exits
    // with sum = 5, which MSTORE records and RETURN surfaces
    let code = vec![
        0x60, 0x00, 0x5b, 0x60, 0x01, 0x01, 0x80, 0x60, 0x05, 0x11, 0x60, 0x02, 0x57, 0x60,
        0x00, 0x52, 0x60, 0x20, 0x60, 0x00, 0xf3,
    ];
    let mut vm = Vm::new(&code);
    assert_eq!(vm.run(FUEL), Ok(()));
    let data = vm.get_return_data();
    assert_eq!(data.len(), 32);
    assert_eq!(data[31], 5);
}

#[test]
fn jump_out_of_range_is_invalid() {
    // PUSH1 10, JUMP: 10 is past the end of the code
    let code = vec![0x60, 0x0a, 0x56];
    let mut vm = Vm::new(&code);
    assert_eq!(vm.run(FUEL), Err(Execution::Error(VmError::InvalidJump)));
}

#[test]
fn explicit_invalid_opcode() {
    let code = vec![0xfe];
    let mut vm = Vm::new(&code);
    assert_eq!(vm.run(FUEL), Err(Execution::Error(VmError::InvalidOpcode)));
}

#[test]
fn division_by_zero_yields_zero() {
    // PUSH1 2, PUSH1 0, DIV, STOP: top of stack is 0
    let code = vec![0x60, 0x02, 0x60, 0x00, 0x04, 0x00];
    let mut vm = Vm::new(&code);
    assert_eq!(vm.run(FUEL), Ok(()));
    assert_eq!(vm.stack.pop(), Ok(Word::zero()));
}

#[test]
fn unassigned_bytes_fault_as_invalid() {
    for op in [0x0bu8, 0x0f, 0x1d, 0x4f, 0x5a, 0x5c, 0x5f, 0xa0, 0xf2, 0xf4, 0xfc, 0xff] {
        let code = vec![op];
        let mut vm = Vm::new(&code);
        assert_eq!(vm.run(FUEL), Err(Execution::Error(VmError::InvalidOpcode)));
    }
}

#[test]
fn implicit_halt_past_code_end() {
    // PUSH1 1 and fall off the end: an implicit Stop
    let code = vec![0x60, 0x01];
    let mut vm = Vm::new(&code);
    assert_eq!(vm.run(FUEL), Ok(()));
    assert_eq!(vm.stack.size(), 1);
}

#[test]
fn jumpdest_inside_immediate_is_not_valid() {
    // the 0x5b at offset 1 is PUSH1's immediate; the one at offset 2 is real
    let code = vec![0x60, 0x5b, 0x5b];
    let vm = Vm::new(&code);
    assert!(!vm.is_valid_jump(1));
    assert!(vm.is_valid_jump(2));
    assert!(!vm.is_valid_jump(0));
    assert!(!vm.is_valid_jump(3));
}

#[test]
fn jump_to_valid_destination_moves_pc() {
    // PUSH1 3, JUMP, (dest) JUMPDEST, STOP
    let code = vec![0x60, 0x03, 0x56, 0x5b, 0x00];
    let mut vm = Vm::new(&code);
    assert!(vm.is_valid_jump(3));
    assert_eq!(vm.step(), Ok(Execution::Continue));
    assert_eq!(vm.pc, 2);
    assert_eq!(vm.step(), Ok(Execution::Continue));
    assert_eq!(vm.pc, 3);
    assert_eq!(vm.step(), Ok(Execution::Continue));
    assert_eq!(vm.pc, 4);
    assert_eq!(vm.step(), Ok(Execution::Stop));
}

#[test]
fn jumpi_falls_through_on_zero() {
    // PUSH1 0 (cond), PUSH1 9 (dest), JUMPI, STOP
    let code = vec![0x60, 0x00, 0x60, 0x09, 0x57, 0x00];
    let mut vm = Vm::new(&code);
    assert_eq!(vm.run(FUEL), Ok(()));

    // with a nonzero condition the bad destination faults
    let code2 = vec![0x60, 0x01, 0x60, 0x09, 0x57, 0x00];
    let mut vm2 = Vm::new(&code2);
    assert_eq!(vm2.run(FUEL), Err(Execution::Error(VmError::InvalidJump)));
}

#[test]
fn pop_on_empty_stack_underflows() {
    let code = vec![0x50];
    let mut vm = Vm::new(&code);
    assert_eq!(vm.run(FUEL), Err(Execution::Error(VmError::StackUnderflow)));
}

#[test]
fn revert_is_an_error_category_outcome() {
    // PUSH1 7, PUSH1 0, MSTORE8, PUSH1 1, PUSH1 0, REVERT
    let code = vec![0x60, 0x07, 0x60, 0x00, 0x53, 0x60, 0x01, 0x60, 0x00, 0xfd];
    let mut vm = Vm::new(&code);
    assert_eq!(vm.run(FUEL), Err(Execution::Revert));
    // the return window is still observable after a revert
    assert_eq!(vm.get_return_data(), vec![7u8]);
}

#[test]
fn run_out_of_fuel_reports_continue() {
    // JUMPDEST; PUSH1 0; JUMP: an infinite loop
    let code = vec![0x5b, 0x60, 0x00, 0x56];
    let mut vm = Vm::new(&code);
    assert_eq!(vm.run(1000), Err(Execution::Continue));
}

#[test]
fn pc_and_msize_push_machine_state() {
    // PUSH1 0, MLOAD (touch memory), PC, MSIZE, STOP
    let code = vec![0x60, 0x00, 0x51, 0x58, 0x59, 0x00];
    let mut vm = Vm::new(&code);
    assert_eq!(vm.run(FUEL), Ok(()));
    assert_eq!(vm.stack.pop(), Ok(Word::from_usize(32)));
    assert_eq!(vm.stack.pop(), Ok(Word::from_usize(3)));
}

#[test]
fn push_truncated_at_code_end_is_right_justified() {
    // PUSH4 with only two immediate bytes left
    let code = vec![0x63, 0xaa, 0xbb];
    let mut vm = Vm::new(&code);
    assert_eq!(vm.step(), Ok(Execution::Continue));
    assert_eq!(vm.pc, 5);
    assert_eq!(vm.stack.pop(), Ok(Word::from_usize(0xaabb)));
}

#[test]
fn dup_and_swap_families() {
    // PUSH1 1, PUSH1 2, DUP2, STOP: copies the word at depth 1
    let code = vec![0x60, 0x01, 0x60, 0x02, 0x81, 0x00];
    let mut vm = Vm::new(&code);
    assert_eq!(vm.run(FUEL), Ok(()));
    assert_eq!(vm.stack.pop(), Ok(Word::from_usize(1)));
    assert_eq!(vm.stack.pop(), Ok(Word::from_usize(2)));

    // PUSH1 1, PUSH1 2, PUSH1 3, SWAP2, STOP: exchanges top and depth 2
    let code2 = vec![0x60, 0x01, 0x60, 0x02, 0x60, 0x03, 0x91, 0x00];
    let mut vm2 = Vm::new(&code2);
    assert_eq!(vm2.run(FUEL), Ok(()));
    assert_eq!(vm2.stack.pop(), Ok(Word::from_usize(1)));
    assert_eq!(vm2.stack.pop(), Ok(Word::from_usize(2)));
    assert_eq!(vm2.stack.pop(), Ok(Word::from_usize(3)));

    // DUP1 on an empty stack underflows
    let code3 = vec![0x80];
    let mut vm3 = Vm::new(&code3);
    assert_eq!(vm3.run(FUEL), Err(Execution::Error(VmError::StackUnderflow)));
}

#[test]
fn memory_stays_a_multiple_of_32() {
    // MSTORE8 at 100 grows memory to 128; MLOAD at 130 grows it to 192
    let code = vec![0x60, 0x07, 0x60, 0x64, 0x53, 0x60, 0x82, 0x51, 0x00];
    let mut vm = Vm::new(&code);
    assert_eq!(vm.step(), Ok(Execution::Continue));
    assert_eq!(vm.step(), Ok(Execution::Continue));
    assert_eq!(vm.step(), Ok(Execution::Continue));
    assert_eq!(vm.memory.size(), 128);
    assert_eq!(vm.memory.size() % 32, 0);
    assert_eq!(vm.step(), Ok(Execution::Continue));
    assert_eq!(vm.step(), Ok(Execution::Continue));
    assert_eq!(vm.memory.size(), 192);
    assert_eq!(vm.memory.size() % 32, 0);
}
