use vstd::prelude::*;

pub mod air;
pub mod code;
pub mod field;
pub mod interpreter;
pub mod laws;
pub mod matrix;
pub mod sorting;

verus! {

/// The eight opcode byte values of the stack-machine language.
pub const SHL: u8 = 0x3C;

pub const SHR: u8 = 0x3E;

pub const ADD: u8 = 0x2B;

pub const SUB: u8 = 0x2D;

pub const GETCHAR: u8 = 0x2C;

pub const PUTCHAR: u8 = 0x2E;

pub const LB: u8 = 0x5B;

pub const RB: u8 = 0x5D;

/// Whether a byte value is one of the eight opcodes.
pub open spec fn spec_is_opcode(b: u64) -> bool {
    b == SHL || b == SHR || b == ADD || b == SUB || b == GETCHAR || b == PUTCHAR || b == LB
        || b == RB
}

/// Executable test matching `spec_is_opcode`.
pub fn is_opcode(b: u64) -> (r: bool)
    ensures
        r == spec_is_opcode(b),
{
    b == SHL as u64 || b == SHR as u64 || b == ADD as u64 || b == SUB as u64
        || b == GETCHAR as u64 || b == PUTCHAR as u64 || b == LB as u64 || b == RB as u64
}

} // verus!
