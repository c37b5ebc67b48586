//! A compiler from chains of classes to an 8-bit instruction encoding, and
//! the accumulator machine that runs the programs it writes.
//!
//! * `source` reads a class from the text of a source file.
//! * `class` holds the classes and resolves the chain of a class: the class,
//!   its parent, the parent of that, and so on.
//! * `compiler` turns a chain into function blocks and instructions, and
//!   joins them into a binary.
//! * `isa` is the encoding of one instruction in one byte.
//! * `vm` is the machine: it scans a binary, sets function blocks aside and
//!   executes the other bytes.
//! * `disasm` describes a byte in a line of text.
//! * `input` reads the integer in a line of input, `text` holds what both
//!   readers need of characters and words.
//!
//! The library performs no input and no output. The machine tells its host
//! what to print and when to read, and the host hands it the lines read.

pub mod class;
pub mod compiler;
pub mod disasm;
pub mod error;
pub mod input;
pub mod isa;
pub mod source;
pub mod text;
pub mod vm;
