//! The instruction encoding: one byte holds a 3-bit opcode in its high bits
//! and a 5-bit unsigned immediate in its low bits.

use vstd::prelude::*;

verus! {

/// Opcode of a system call; the immediate is the call's code.
pub const OP_SYSCALL: u8 = 1;

/// Opcode that stores the accumulator into the register named by the immediate.
pub const OP_SAVE: u8 = 2;

/// Opcode that loads the register named by the immediate into the accumulator.
pub const OP_LOAD: u8 = 3;

/// Opcode of a jump. The compiler writes into the immediate how many classes
/// of the chain the jump spans, with a sign; the machine reads the immediate
/// as the number of bytes to move back.
pub const OP_JUMP: u8 = 4;

/// Opcode that adds the register named by the immediate to the accumulator.
pub const OP_ADD: u8 = 5;

/// Opcode that adds the immediate itself to the accumulator.
pub const OP_ADDI: u8 = 6;

/// Opcode that skips the next byte when the register named by the immediate
/// equals the accumulator.
pub const OP_SKIPEQ: u8 = 7;

/// System call that does nothing.
pub const SYS_NOOP: u8 = 0;

/// System call that prints the accumulator.
pub const SYS_PRINT: u8 = 1;

/// System call that reads one integer from the input into the accumulator.
pub const SYS_READ: u8 = 5;

/// System call that terminates the program.
pub const SYS_EXIT: u8 = 10;

/// System call that invokes a function of the function table.
pub const SYS_INVOKE: u8 = 16;

/// System call code that marks the start of a function block.
pub const SYS_BEGIN: u8 = 20;

/// System call code that marks the end of a function block.
pub const SYS_END: u8 = 21;

/// The byte that opens a function block: system call `SYS_BEGIN`.
pub const START_MARKER: u8 = 52;

/// The byte that closes a function block: system call `SYS_END`.
pub const END_MARKER: u8 = 53;

/// Register in which a call sequence preserves the accumulator.
pub const CALL_SAVE_REGISTER: u8 = 4;

/// The opcode held by the three high bits of `byte`.
pub open spec fn opcode_of(byte: u8) -> u8 {
    byte / 32
}

/// The immediate held by the five low bits of `byte`.
pub open spec fn immediate_of(byte: u8) -> u8 {
    byte % 32
}

/// The byte that holds `opcode` and `immediate`.
pub open spec fn instruction(opcode: u8, immediate: u8) -> u8
    recommends
        opcode < 8,
        immediate < 32,
{
    (opcode * 32 + immediate) as u8
}

/// Splits a byte into its opcode and its immediate.
pub fn decode(byte: u8) -> (r: (u8, u8))
    ensures
        r.0 == opcode_of(byte),
        r.1 == immediate_of(byte),
        r.0 < 8,
        r.1 < 32,
{
    assert(byte >> 5 == byte / 32) by (bit_vector);
    assert(byte & 31 == byte % 32) by (bit_vector);
    (byte >> 5, byte & 31)
}

/// Packs an opcode and an immediate into one byte.
pub fn encode(opcode: u8, immediate: u8) -> (byte: u8)
    requires
        opcode < 8,
        immediate < 32,
    ensures
        byte == instruction(opcode, immediate),
        opcode_of(byte) == opcode,
        immediate_of(byte) == immediate,
{
    assert((opcode << 5 | immediate) == opcode * 32 + immediate) by (bit_vector)
        requires
            opcode < 8,
            immediate < 32,
    ;
    opcode << 5 | immediate
}

/// The two markers are the system calls `SYS_BEGIN` and `SYS_END`.
pub proof fn lemma_markers()
    ensures
        START_MARKER == instruction(OP_SYSCALL, SYS_BEGIN),
        END_MARKER == instruction(OP_SYSCALL, SYS_END),
        opcode_of(START_MARKER) == OP_SYSCALL,
        immediate_of(START_MARKER) == SYS_BEGIN,
        opcode_of(END_MARKER) == OP_SYSCALL,
        immediate_of(END_MARKER) == SYS_END,
{
}

/// Decoding a byte and encoding the parts again gives the byte back.
pub proof fn lemma_decode_encode(byte: u8)
    ensures
        instruction(opcode_of(byte), immediate_of(byte)) == byte,
        opcode_of(byte) < 8,
        immediate_of(byte) < 32,
{
}

/// Encoding an opcode and an immediate and decoding the byte gives both back.
pub proof fn lemma_encode_decode(opcode: u8, immediate: u8)
    requires
        opcode < 8,
        immediate < 32,
    ensures
        opcode_of(instruction(opcode, immediate)) == opcode,
        immediate_of(instruction(opcode, immediate)) == immediate,
{
}

} // verus!
