//! The 256-entry instruction table: which bytes name instructions, and the
//! control value a handler hands back to the interpreter loop.

use vstd::prelude::*;
use crate::error::VmError;

verus! {

/// What a handler tells the interpreter to do next.
#[derive(Debug, Clone, Copy, PartialEq, Eq, Structural)]
pub enum Control {
    /// Advance the program counter by this many bytes.
    Continue(usize),
    /// Assign the program counter to this offset.
    Jump(usize),
    /// Terminate normally.
    Stop,
    /// Terminate surfacing the recorded return window.
    Return,
    /// Terminate reverting; the return window is still observable.
    Revert,
    /// Terminate with a fault.
    Error(VmError),
}

/// Whether byte `b` names an implemented instruction; every other byte
/// dispatches as invalid.
pub open spec fn implemented(b: u8) -> bool {
    ||| b == 0x00  // STOP
    ||| (0x01 <= b && b <= 0x0a)  // ADD..EXP
    ||| (0x10 <= b && b <= 0x1c)  // LT..SHR
    ||| (0x50 <= b && b <= 0x53)  // POP, MLOAD, MSTORE, MSTORE8
    ||| (0x56 <= b && b <= 0x59)  // JUMP, JUMPI, PC, MSIZE
    ||| b == 0x5b  // JUMPDEST
    ||| (0x60 <= b && b <= 0x9f)  // PUSH1..PUSH32, DUP1..DUP16, SWAP1..SWAP16
    ||| b == 0xf3  // RETURN
    ||| b == 0xfd  // REVERT
    ||| b == 0xfe  // INVALID
}

/// An entry of the instruction table.
#[derive(Debug, Clone, Copy, PartialEq, Eq, Structural)]
pub struct Opcode {
    pub code: u8,
}

impl Opcode {
    /// Looks a byte up in the table: an entry for every implemented
    /// instruction, nothing for the rest.
    pub fn get(code: u8) -> (r: Option<Opcode>)
        ensures
            r is Some <==> implemented(code),
            r is Some ==> r->0.code == code,
    {
        let hit = code == 0x00 || (0x01 <= code && code <= 0x0a) || (0x10 <= code && code
            <= 0x1c) || (0x50 <= code && code <= 0x53) || (0x56 <= code && code <= 0x59) || code
            == 0x5b || (0x60 <= code && code <= 0x9f) || code == 0xf3 || code == 0xfd || code
            == 0xfe;
        if hit {
            Some(Opcode { code })
        } else {
            None
        }
    }

    /// The instruction's name, for presentation: the push, dup and swap
    /// entries read as their family name, and unassigned bytes as INVALID.
    pub fn mnemonic(&self) -> (r: &'static str)
        ensures
            self.code == 0x00 ==> r@ == "STOP"@,
            self.code == 0x01 ==> r@ == "ADD"@,
            self.code == 0x02 ==> r@ == "MUL"@,
            self.code == 0x03 ==> r@ == "SUB"@,
            self.code == 0x04 ==> r@ == "DIV"@,
            self.code == 0x05 ==> r@ == "SDIV"@,
            self.code == 0x06 ==> r@ == "MOD"@,
            self.code == 0x07 ==> r@ == "SMOD"@,
            self.code == 0x08 ==> r@ == "ADDMOD"@,
            self.code == 0x09 ==> r@ == "MULMOD"@,
            self.code == 0x0a ==> r@ == "EXP"@,
            self.code == 0x10 ==> r@ == "LT"@,
            self.code == 0x11 ==> r@ == "GT"@,
            self.code == 0x12 ==> r@ == "SLT"@,
            self.code == 0x13 ==> r@ == "SGT"@,
            self.code == 0x14 ==> r@ == "EQ"@,
            self.code == 0x15 ==> r@ == "ISZERO"@,
            self.code == 0x16 ==> r@ == "AND"@,
            self.code == 0x17 ==> r@ == "OR"@,
            self.code == 0x18 ==> r@ == "XOR"@,
            self.code == 0x19 ==> r@ == "NOT"@,
            self.code == 0x1a ==> r@ == "BYTE"@,
            self.code == 0x1b ==> r@ == "SHL"@,
            self.code == 0x1c ==> r@ == "SHR"@,
            self.code == 0x50 ==> r@ == "POP"@,
            self.code == 0x51 ==> r@ == "MLOAD"@,
            self.code == 0x52 ==> r@ == "MSTORE"@,
            self.code == 0x53 ==> r@ == "MSTORE8"@,
            self.code == 0x56 ==> r@ == "JUMP"@,
            self.code == 0x57 ==> r@ == "JUMPI"@,
            self.code == 0x58 ==> r@ == "PC"@,
            self.code == 0x59 ==> r@ == "MSIZE"@,
            self.code == 0x5b ==> r@ == "JUMPDEST"@,
            0x60 <= self.code && self.code <= 0x7f ==> r@ == "PUSH"@,
            0x80 <= self.code && self.code <= 0x8f ==> r@ == "DUP"@,
            0x90 <= self.code && self.code <= 0x9f ==> r@ == "SWAP"@,
            self.code == 0xf3 ==> r@ == "RETURN"@,
            self.code == 0xfd ==> r@ == "REVERT"@,
            !implemented(self.code) || self.code == 0xfe ==> r@ == "INVALID"@,
    {
        let c = self.code;
        let r: &'static str = if c == 0x00 {
            "STOP"
        } else if c == 0x01 {
            "ADD"
        } else if c == 0x02 {
            "MUL"
        } else if c == 0x03 {
            "SUB"
        } else if c == 0x04 {
            "DIV"
        } else if c == 0x05 {
            "SDIV"
        } else if c == 0x06 {
            "MOD"
        } else if c == 0x07 {
            "SMOD"
        } else if c == 0x08 {
            "ADDMOD"
        } else if c == 0x09 {
            "MULMOD"
        } else if c == 0x0a {
            "EXP"
        } else if c == 0x10 {
            "LT"
        } else if c == 0x11 {
            "GT"
        } else if c == 0x12 {
            "SLT"
        } else if c == 0x13 {
            "SGT"
        } else if c == 0x14 {
            "EQ"
        } else if c == 0x15 {
            "ISZERO"
        } else if c == 0x16 {
            "AND"
        } else if c == 0x17 {
            "OR"
        } else if c == 0x18 {
            "XOR"
        } else if c == 0x19 {
            "NOT"
        } else if c == 0x1a {
            "BYTE"
        } else if c == 0x1b {
            "SHL"
        } else if c == 0x1c {
            "SHR"
        } else if c == 0x50 {
            "POP"
        } else if c == 0x51 {
            "MLOAD"
        } else if c == 0x52 {
            "MSTORE"
        } else if c == 0x53 {
            "MSTORE8"
        } else if c == 0x56 {
            "JUMP"
        } else if c == 0x57 {
            "JUMPI"
        } else if c == 0x58 {
            "PC"
        } else if c == 0x59 {
            "MSIZE"
        } else if c == 0x5b {
            "JUMPDEST"
        } else if 0x60 <= c && c <= 0x7f {
            "PUSH"
        } else if 0x80 <= c && c <= 0x8f {
            "DUP"
        } else if 0x90 <= c && c <= 0x9f {
            "SWAP"
        } else if c == 0xf3 {
            "RETURN"
        } else if c == 0xfd {
            "REVERT"
        } else {
            "INVALID"
        };
        r
    }
}

} // verus!
