//! The RV32I instruction formats, the register names and the faults of the emulator.

use vstd::prelude::*;

verus! {

/// The 32 integer registers of RV32I, by their ABI names.
#[derive(Debug, Clone, Copy, PartialEq, Eq, Structural, PartialOrd, Ord, Hash)]
pub enum Regs {
    Zero,
    Ra,
    Sp,
    Gp,
    Tp,
    T0,
    T1,
    T2,
    S0,
    S1,
    A0,
    A1,
    A2,
    A3,
    A4,
    A5,
    A6,
    A7,
    S2,
    S3,
    S4,
    S5,
    S6,
    S7,
    S8,
    S9,
    S10,
    S11,
    T3,
    T4,
    T5,
    T6,
}

impl Regs {
    /// The register with number `n` (the numbers 31 and above all name `T6`).
    pub open spec fn spec_from(n: u32) -> Regs {
        match n {
            0 => Regs::Zero,
            1 => Regs::Ra,
            2 => Regs::Sp,
            3 => Regs::Gp,
            4 => Regs::Tp,
            5 => Regs::T0,
            6 => Regs::T1,
            7 => Regs::T2,
            8 => Regs::S0,
            9 => Regs::S1,
            10 => Regs::A0,
            11 => Regs::A1,
            12 => Regs::A2,
            13 => Regs::A3,
            14 => Regs::A4,
            15 => Regs::A5,
            16 => Regs::A6,
            17 => Regs::A7,
            18 => Regs::S2,
            19 => Regs::S3,
            20 => Regs::S4,
            21 => Regs::S5,
            22 => Regs::S6,
            23 => Regs::S7,
            24 => Regs::S8,
            25 => Regs::S9,
            26 => Regs::S10,
            27 => Regs::S11,
            28 => Regs::T3,
            29 => Regs::T4,
            30 => Regs::T5,
            _ => Regs::T6,
        }
    }

    /// The number of the register, in `0..32`.
    pub open spec fn spec_index(self) -> nat {
        match self {
            Regs::Zero => 0,
            Regs::Ra => 1,
            Regs::Sp => 2,
            Regs::Gp => 3,
            Regs::Tp => 4,
            Regs::T0 => 5,
            Regs::T1 => 6,
            Regs::T2 => 7,
            Regs::S0 => 8,
            Regs::S1 => 9,
            Regs::A0 => 10,
            Regs::A1 => 11,
            Regs::A2 => 12,
            Regs::A3 => 13,
            Regs::A4 => 14,
            Regs::A5 => 15,
            Regs::A6 => 16,
            Regs::A7 => 17,
            Regs::S2 => 18,
            Regs::S3 => 19,
            Regs::S4 => 20,
            Regs::S5 => 21,
            Regs::S6 => 22,
            Regs::S7 => 23,
            Regs::S8 => 24,
            Regs::S9 => 25,
            Regs::S10 => 26,
            Regs::S11 => 27,
            Regs::T3 => 28,
            Regs::T4 => 29,
            Regs::T5 => 30,
            Regs::T6 => 31,
        }
    }

    /// The register with number `value`.
    pub fn from_u8(value: u8) -> (r: Regs)
        requires
            value < 32,
        ensures
            r == Regs::spec_from(value as u32),
            r.spec_index() == value,
    {
        match value {
            0 => Regs::Zero,
            1 => Regs::Ra,
            2 => Regs::Sp,
            3 => Regs::Gp,
            4 => Regs::Tp,
            5 => Regs::T0,
            6 => Regs::T1,
            7 => Regs::T2,
            8 => Regs::S0,
            9 => Regs::S1,
            10 => Regs::A0,
            11 => Regs::A1,
            12 => Regs::A2,
            13 => Regs::A3,
            14 => Regs::A4,
            15 => Regs::A5,
            16 => Regs::A6,
            17 => Regs::A7,
            18 => Regs::S2,
            19 => Regs::S3,
            20 => Regs::S4,
            21 => Regs::S5,
            22 => Regs::S6,
            23 => Regs::S7,
            24 => Regs::S8,
            25 => Regs::S9,
            26 => Regs::S10,
            27 => Regs::S11,
            28 => Regs::T3,
            29 => Regs::T4,
            30 => Regs::T5,
            _ => Regs::T6,
        }
    }

    /// The number of the register.
    pub fn index(self) -> (r: usize)
        ensures
            r == self.spec_index(),
            r < 32,
    {
        match self {
            Regs::Zero => 0,
            Regs::Ra => 1,
            Regs::Sp => 2,
            Regs::Gp => 3,
            Regs::Tp => 4,
            Regs::T0 => 5,
            Regs::T1 => 6,
            Regs::T2 => 7,
            Regs::S0 => 8,
            Regs::S1 => 9,
            Regs::A0 => 10,
            Regs::A1 => 11,
            Regs::A2 => 12,
            Regs::A3 => 13,
            Regs::A4 => 14,
            Regs::A5 => 15,
            Regs::A6 => 16,
            Regs::A7 => 17,
            Regs::S2 => 18,
            Regs::S3 => 19,
            Regs::S4 => 20,
            Regs::S5 => 21,
            Regs::S6 => 22,
            Regs::S7 => 23,
            Regs::S8 => 24,
            Regs::S9 => 25,
            Regs::S10 => 26,
            Regs::S11 => 27,
            Regs::T3 => 28,
            Regs::T4 => 29,
            Regs::T5 => 30,
            Regs::T6 => 31,
        }
    }
}

/// A decoded 32-bit instruction, by format. Immediates are kept as the raw bits of the
/// encoding, put together in their architectural positions and not yet sign-extended.
#[derive(Debug, Clone, Copy, PartialEq, Eq, Structural, PartialOrd, Ord, Hash)]
pub enum Instruction {
    RType { opcode: u8, rd: Regs, funct3: u8, rs1: Regs, rs2: Regs, funct7: u8 },
    IType { opcode: u8, rd: Regs, funct3: u8, rs1: Regs, imm: u32 },
    SType { opcode: u8, funct3: u8, rs1: Regs, rs2: Regs, imm: u32 },
    BType { opcode: u8, funct3: u8, rs1: Regs, rs2: Regs, imm: u32 },
    UType { opcode: u8, rd: Regs, imm: u32 },
    JType { opcode: u8, rd: Regs, imm: u32 },
}

/// The major opcodes that the decoder knows.
pub const OP_REG: u8 = 0b0110011;
pub const OP_IMM: u8 = 0b0010011;
pub const OP_LOAD: u8 = 0b0000011;
pub const OP_JALR: u8 = 0b1100111;
pub const OP_SYSTEM: u8 = 0b1110011;
pub const OP_STORE: u8 = 0b0100011;
pub const OP_BRANCH: u8 = 0b1100011;
pub const OP_JAL: u8 = 0b1101111;
pub const OP_LUI: u8 = 0b0110111;
pub const OP_AUIPC: u8 = 0b0010111;

impl Instruction {
    /// The shape of every instruction that the decoder produces: fields within their
    /// widths and each format paired with its opcodes.
    pub open spec fn wf(self) -> bool {
        match self {
            Instruction::RType { opcode, funct3, funct7, .. } => opcode == OP_REG && funct3 < 8
                && funct7 < 128,
            Instruction::IType { opcode, funct3, imm, .. } => (opcode == OP_IMM || opcode
                == OP_LOAD || opcode == OP_JALR || opcode == OP_SYSTEM) && funct3 < 8 && imm
                < 0x1000,
            Instruction::SType { opcode, funct3, imm, .. } => opcode == OP_STORE && funct3 < 8
                && imm < 0x1000,
            Instruction::BType { opcode, funct3, imm, .. } => opcode == OP_BRANCH && funct3 < 8
                && imm < 0x2000 && imm % 2 == 0,
            Instruction::UType { opcode, imm, .. } => (opcode == OP_LUI || opcode == OP_AUIPC)
                && imm % 0x1000 == 0,
            Instruction::JType { opcode, imm, .. } => opcode == OP_JAL && imm < 0x20_0000 && imm
                % 2 == 0,
        }
    }
}

/// Why the emulated machine stopped.
#[derive(Debug, Clone, Copy, PartialEq, Eq, Structural, PartialOrd, Ord, Hash)]
pub enum Fault {
    /// An access outside every region of the fixed board (or a write to its instruction memory).
    InvalidMemoryAccess(u32),
    /// A word that the decoder does not know.
    UndecodedInstruction(u32),
    /// A decoded instruction whose function bits name no operation.
    InvalidInstruction(Instruction),
    /// The all-zero word, which is illegal by design.
    AllZeroInstruction,
    /// `EBREAK`: the program asks to stop.
    Halt,
    /// An access outside every region of a memory.
    InvalidAddress(u32),
    /// A write to read-only memory.
    ReadOnlyAddress(u32),
    /// The instruction memory does not fit below the data memory.
    MemoryTooSmall,
    /// The executable image is malformed.
    ObjectError,
    /// A device failed to read or write.
    IOError,
    /// A read of a write-only device register.
    WriteOnlyRegister,
    /// A write to a read-only device register.
    ReadOnlyRegister,
}

} // verus!
