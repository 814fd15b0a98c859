//! Decoding of 32-bit RV32I instruction words into their formats.

use vstd::prelude::*;

use crate::bits::field;
use crate::isa::{
    Fault, Instruction, Regs, OP_AUIPC, OP_BRANCH, OP_IMM, OP_JAL, OP_JALR, OP_LOAD, OP_LUI,
    OP_REG, OP_STORE, OP_SYSTEM,
};

verus! {

/// Bits 0..7: the major opcode.
pub open spec fn opcode_of(instr: u32) -> u32 {
    field(instr, 0, 7)
}

/// Bits 7..12: the destination register.
pub open spec fn rd_of(instr: u32) -> Regs {
    Regs::spec_from(field(instr, 7, 5))
}

/// Bits 12..15: the minor opcode.
pub open spec fn funct3_of(instr: u32) -> u8 {
    field(instr, 12, 3) as u8
}

/// Bits 15..20: the first source register.
pub open spec fn rs1_of(instr: u32) -> Regs {
    Regs::spec_from(field(instr, 15, 5))
}

/// Bits 20..25: the second source register.
pub open spec fn rs2_of(instr: u32) -> Regs {
    Regs::spec_from(field(instr, 20, 5))
}

/// Bits 25..32: the function bits of an R-type instruction.
pub open spec fn funct7_of(instr: u32) -> u8 {
    field(instr, 25, 7) as u8
}

/// I-type immediate: imm[11:0] = instr[31:20].
pub open spec fn i_imm(instr: u32) -> u32 {
    field(instr, 20, 12)
}

/// S-type immediate: imm[11:5] = instr[31:25], imm[4:0] = instr[11:7].
pub open spec fn s_imm(instr: u32) -> u32 {
    (field(instr, 25, 7) * 0x20 + field(instr, 7, 5)) as u32
}

/// B-type immediate: imm[12] = instr[31], imm[11] = instr[7], imm[10:5] = instr[30:25],
/// imm[4:1] = instr[11:8], imm[0] = 0.
pub open spec fn b_imm(instr: u32) -> u32 {
    (field(instr, 31, 1) * 0x1000 + field(instr, 7, 1) * 0x800 + field(instr, 25, 6) * 0x20
        + field(instr, 8, 4) * 2) as u32
}

/// J-type immediate: imm[20] = instr[31], imm[19:12] = instr[19:12], imm[11] = instr[20],
/// imm[10:1] = instr[30:21], imm[0] = 0.
pub open spec fn j_imm(instr: u32) -> u32 {
    (field(instr, 31, 1) * 0x10_0000 + field(instr, 12, 8) * 0x1000 + field(instr, 20, 1) * 0x800
        + field(instr, 21, 10) * 2) as u32
}

/// U-type immediate: imm[31:12] = instr[31:12], imm[11:0] = 0.
pub open spec fn u_imm(instr: u32) -> u32 {
    (field(instr, 12, 20) * 0x1000) as u32
}

/// What decoding a word gives: the all-zero word and the compressed encodings are refused,
/// and each known major opcode selects its format.
pub open spec fn decode_spec(instr: u32) -> Result<Instruction, Fault> {
    let opcode = opcode_of(instr) as u8;
    if instr == 0 {
        Err(Fault::AllZeroInstruction)
    } else if opcode % 4 != 3 {
        Err(Fault::UndecodedInstruction(instr))
    } else if opcode == OP_REG {
        Ok(
            Instruction::RType {
                opcode,
                rd: rd_of(instr),
                funct3: funct3_of(instr),
                rs1: rs1_of(instr),
                rs2: rs2_of(instr),
                funct7: funct7_of(instr),
            },
        )
    } else if opcode == OP_IMM || opcode == OP_LOAD || opcode == OP_JALR || opcode == OP_SYSTEM {
        Ok(
            Instruction::IType {
                opcode,
                rd: rd_of(instr),
                funct3: funct3_of(instr),
                rs1: rs1_of(instr),
                imm: i_imm(instr),
            },
        )
    } else if opcode == OP_STORE {
        Ok(
            Instruction::SType {
                opcode,
                funct3: funct3_of(instr),
                rs1: rs1_of(instr),
                rs2: rs2_of(instr),
                imm: s_imm(instr),
            },
        )
    } else if opcode == OP_BRANCH {
        Ok(
            Instruction::BType {
                opcode,
                funct3: funct3_of(instr),
                rs1: rs1_of(instr),
                rs2: rs2_of(instr),
                imm: b_imm(instr),
            },
        )
    } else if opcode == OP_JAL {
        Ok(Instruction::JType { opcode, rd: rd_of(instr), imm: j_imm(instr) })
    } else if opcode == OP_LUI || opcode == OP_AUIPC {
        Ok(Instruction::UType { opcode, rd: rd_of(instr), imm: u_imm(instr) })
    } else {
        Err(Fault::UndecodedInstruction(instr))
    }
}

fn reg_field(instr: u32, lo: u32) -> (r: Regs)
    requires
        lo == 7 || lo == 15 || lo == 20,
    ensures
        r == Regs::spec_from(field(instr, lo, 5)),
{
    let n = (instr >> lo) as u8 & 0x1F;
    assert(n as u32 == field(instr, lo, 5) && n < 32) by (bit_vector)
        requires
            n == (instr >> lo) as u8 & 0x1F,
            lo < 32,
    ;
    Regs::from_u8(n)
}

fn funct3(instr: u32) -> (r: u8)
    ensures
        r == funct3_of(instr),
        r < 8,
{
    let r = (instr >> 12) as u8 & 0x7;
    assert(r == field(instr, 12, 3) as u8 && r < 8) by (bit_vector)
        requires
            r == (instr >> 12) as u8 & 0x7,
    ;
    r
}

/// Decodes a 32-bit instruction word into its format; every major opcode of the RV32I base
/// set is known, AUIPC included.
pub fn decode(instr: u32) -> (r: Result<Instruction, Fault>)
    ensures
        r == decode_spec(instr),
        r matches Ok(i) ==> i.wf(),
{
    if instr == 0 {
        return Err(Fault::AllZeroInstruction);
    }
    let opcode = (instr & 0x7F) as u8;
    assert(opcode == opcode_of(instr) as u8 && opcode < 128) by (bit_vector)
        requires
            opcode == (instr & 0x7F) as u8,
    ;
    if opcode & 0b11 != 0b11 {
        assert(opcode % 4 != 3) by (bit_vector)
            requires
                opcode & 0b11 != 0b11,
        ;
        return Err(Fault::UndecodedInstruction(instr));
    }
    assert(opcode % 4 == 3) by (bit_vector)
        requires
            opcode & 0b11 == 0b11,
    ;
    if opcode == OP_REG {
        let rd = reg_field(instr, 7);
        let funct3 = funct3(instr);
        let rs1 = reg_field(instr, 15);
        let rs2 = reg_field(instr, 20);
        let funct7 = (instr >> 25) as u8 & 0x7F;
        assert(funct7 == funct7_of(instr) && funct7 < 128) by (bit_vector)
            requires
                funct7 == (instr >> 25) as u8 & 0x7F,
        ;
        Ok(Instruction::RType { opcode, rd, funct3, rs1, rs2, funct7 })
    } else if opcode == OP_IMM || opcode == OP_LOAD || opcode == OP_JALR || opcode == OP_SYSTEM {
        let rd = reg_field(instr, 7);
        let funct3 = funct3(instr);
        let rs1 = reg_field(instr, 15);
        let imm = (instr >> 20) & 0xFFF;
        assert(imm == i_imm(instr) && imm < 0x1000) by (bit_vector)
            requires
                imm == (instr >> 20) & 0xFFF,
        ;
        Ok(Instruction::IType { opcode, rd, funct3, rs1, imm })
    } else if opcode == OP_STORE {
        let funct3 = funct3(instr);
        let rs1 = reg_field(instr, 15);
        let rs2 = reg_field(instr, 20);
        let imm = ((instr >> 7) & 0x1F) | (((instr >> 25) & 0x7F) << 5);
        assert(imm == s_imm(instr) && imm < 0x1000) by (bit_vector)
            requires
                imm == ((instr >> 7) & 0x1F) | (((instr >> 25) & 0x7F) << 5),
        ;
        Ok(Instruction::SType { opcode, funct3, rs1, rs2, imm })
    } else if opcode == OP_BRANCH {
        let funct3 = funct3(instr);
        let rs1 = reg_field(instr, 15);
        let rs2 = reg_field(instr, 20);
        let imm: u32 = ((instr >> 7) & 0b0000000011110)  // imm[4:1]
         | ((instr >> 20) & 0b0011111100000)  // imm[10:5]
         | ((instr << 4) & 0b0100000000000)  // imm[11]
         | ((instr >> 19) & 0b1000000000000);  // imm[12]
        assert(imm == b_imm(instr) && imm < 0x2000 && imm % 2 == 0) by (bit_vector)
            requires
                imm == ((instr >> 7) & 0b0000000011110) | ((instr >> 20) & 0b0011111100000) | ((
                instr << 4) & 0b0100000000000) | ((instr >> 19) & 0b1000000000000),
        ;
        Ok(Instruction::BType { opcode, funct3, rs1, rs2, imm })
    } else if opcode == OP_JAL {
        let rd = reg_field(instr, 7);
        let imm: u32 = ((instr >> 20) & 0b000000000011111111110)  // imm[10:1]
         | ((instr >> 9) & 0b000000000100000000000)  // imm[11]
         | (instr & 0b011111111000000000000)  // imm[19:12]
         | ((instr >> 11) & 0b100000000000000000000);  // imm[20]
        assert(imm == j_imm(instr) && imm < 0x20_0000 && imm % 2 == 0) by (bit_vector)
            requires
                imm == ((instr >> 20) & 0b000000000011111111110) | ((instr >> 9)
                    & 0b000000000100000000000) | (instr & 0b011111111000000000000) | ((instr
                    >> 11) & 0b100000000000000000000),
        ;
        Ok(Instruction::JType { opcode, rd, imm })
    } else if opcode == OP_LUI || opcode == OP_AUIPC {
        let rd = reg_field(instr, 7);
        let imm = instr & 0xFFFFF000;
        assert(imm == u_imm(instr) && imm % 0x1000 == 0) by (bit_vector)
            requires
                imm == instr & 0xFFFFF000,
        ;
        Ok(Instruction::UType { opcode, rd, imm })
    } else {
        Err(Fault::UndecodedInstruction(instr))
    }
}

} // verus!
