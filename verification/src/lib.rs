//! Core of a stack-based virtual machine for Ethereum-style bytecode: a
//! 1024-slot stack of 256-bit words, byte-addressable memory that grows in
//! 32-byte units, a pre-scanned set of valid jump destinations, and a
//! fetch-decode-dispatch interpreter loop.

pub mod arithmetic;
pub mod benat;
pub mod error;
pub mod i256;
pub mod logic;
pub mod memory;
pub mod misc;
pub mod opcode;
pub mod stack;
pub mod store;
pub mod u256;
pub mod vm;
pub mod word;

use vstd::prelude::*;

verus! {

/// Adds one to a host integer.
pub fn add_one(num: i32) -> (r: i32)
    requires
        num < i32::MAX,
    ensures
        r == num + 1,
{
    num + 1
}

} // verus!
