//! A small RV32I emulator: a decoder, an executor whose every instruction is specified,
//! little-endian memories, and CPUs that step and run programs.

pub mod bits;
pub mod isa;
pub mod decode;
pub mod le;
pub mod memory;
pub mod semantics;
pub mod hart;
pub mod run;
pub mod board;
pub mod cpu;
pub mod cli;
pub mod object_memory;
pub mod stdio;
pub mod laws;
pub mod instruction_laws;

pub use bits::sign_extend32;
pub use cpu::Cpu;
pub use decode::decode;
pub use hart::RegArray;
pub use isa::{Fault, Instruction, Regs};
pub use memory::{create_boxed_array, create_boxed_slice, AddressSpace, NoMmio, SliceMemory, MMIO};
pub use object_memory::{ObjectImage, ObjectMemory, Segment};
pub use stdio::Stdio;
