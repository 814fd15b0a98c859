use rv32_emu::{decode, sign_extend32, Fault, Instruction, Regs};

fn r_type(funct7: u32, rs2: u32, rs1: u32, funct3: u32, rd: u32, opcode: u32) -> u32 {
    funct7 << 25 | rs2 << 20 | rs1 << 15 | funct3 << 12 | rd << 7 | opcode
}

fn i_type(imm: u32, rs1: u32, funct3: u32, rd: u32, opcode: u32) -> u32 {
    (imm & 0xFFF) << 20 | rs1 << 15 | funct3 << 12 | rd << 7 | opcode
}

fn s_type(imm: u32, rs2: u32, rs1: u32, funct3: u32) -> u32 {
    ((imm >> 5) & 0x7F) << 25 | rs2 << 20 | rs1 << 15 | funct3 << 12 | (imm & 0x1F) << 7 | 0x23
}

fn b_type(imm: u32, rs2: u32, rs1: u32, funct3: u32) -> u32 {
    ((imm >> 12) & 1) << 31
        | ((imm >> 5) & 0x3F) << 25
        | rs2 << 20
        | rs1 << 15
        | funct3 << 12
        | ((imm >> 1) & 0xF) << 8
        | ((imm >> 11) & 1) << 7
        | 0x63
}

fn j_type(imm: u32, rd: u32) -> u32 {
    ((imm >> 20) & 1) << 31
        | ((imm >> 1) & 0x3FF) << 21
        | ((imm >> 11) & 1) << 20
        | ((imm >> 12) & 0xFF) << 12
        | rd << 7
        | 0x6F
}

#[test]
fn decode_r_type_fields() {
    // sub t2, a0, a1
    let w = r_type(0x20, 11, 10, 0, 7, 0x33);
    assert_eq!(
        decode(w),
        Ok(Instruction::RType {
            opcode: 0x33,
            rd: Regs::T2,
            funct3: 0,
            rs1: Regs::A0,
            rs2: Regs::A1,
            funct7: 0x20
        })
    );
}

#[test]
fn decode_i_type_keeps_raw_immediate() {
    // addi t0, t0, -1384: the immediate stays as its 12 raw bits
    assert_eq!(
        decode(0xA9828293),
        Ok(Instruction::IType {
            opcode: 0x13,
            rd: Regs::T0,
            funct3: 0,
            rs1: Regs::T0,
            imm: 0xA98
        })
    );
    // lw, jalr and the system opcode are I-type too
    assert!(matches!(decode(i_type(4, 2, 2, 5, 0x03)), Ok(Instruction::IType { opcode: 0x03, .. })));
    assert!(matches!(decode(i_type(0, 1, 0, 0, 0x67)), Ok(Instruction::IType { opcode: 0x67, .. })));
    assert!(matches!(decode(0x0010_0073), Ok(Instruction::IType { opcode: 0x73, imm: 1, .. })));
}

#[test]
fn decode_s_type_immediate() {
    // sw t0, -4(sp)
    let w = s_type(0xFFC, 5, 2, 2);
    assert_eq!(
        decode(w),
        Ok(Instruction::SType { opcode: 0x23, funct3: 2, rs1: Regs::Sp, rs2: Regs::T0, imm: 0xFFC })
    );
}

#[test]
fn decode_b_type_immediate() {
    // bne a0, a1, -8 (13-bit immediate 0x1FF8)
    let w = b_type(0x1FF8, 11, 10, 1);
    assert_eq!(
        decode(w),
        Ok(Instruction::BType { opcode: 0x63, funct3: 1, rs1: Regs::A0, rs2: Regs::A1, imm: 0x1FF8 })
    );
    assert_eq!(sign_extend32(0x1FF8, 13), (-8i32) as u32);
}

#[test]
fn decode_j_and_u_type_immediates() {
    // jal ra, 0x12344
    assert_eq!(
        decode(j_type(0x12344, 1)),
        Ok(Instruction::JType { opcode: 0x6F, rd: Regs::Ra, imm: 0x12344 })
    );
    // lui t0, 0x47
    assert_eq!(
        decode(0x000472B7),
        Ok(Instruction::UType { opcode: 0x37, rd: Regs::T0, imm: 0x47000 })
    );
}

#[test]
fn decode_refusals() {
    assert_eq!(decode(0), Err(Fault::AllZeroInstruction));
    // a compressed encoding (low bits not 0b11)
    assert_eq!(decode(0x0000_4501), Err(Fault::UndecodedInstruction(0x0000_4501)));
    // an unknown major opcode
    assert_eq!(decode(0x0000_007F), Err(Fault::UndecodedInstruction(0x0000_007F)));
}

#[test]
fn decode_auipc() {
    assert_eq!(
        decode(0x0000_1297),
        Ok(Instruction::UType { opcode: 0x17, rd: Regs::T0, imm: 0x1000 })
    );
    assert_eq!(
        decode(0x0000_1097),
        Ok(Instruction::UType { opcode: 0x17, rd: Regs::Ra, imm: 0x1000 })
    );
}

#[test]
fn sign_extend_exact_values() {
    assert_eq!(sign_extend32(0x7FF, 12), 0x7FF);
    assert_eq!(sign_extend32(0x800, 12), 0xFFFF_F800);
    assert_eq!(sign_extend32(0xFFFF_F123, 12), 0x123);
    assert_eq!(sign_extend32(0x80, 8), 0xFFFF_FF80);
    assert_eq!(sign_extend32(0xDEAD_BEEF, 32), 0xDEAD_BEEF);
    assert_eq!(sign_extend32(1, 1), 0xFFFF_FFFF);
}

#[test]
fn register_numbers_round_trip() {
    for n in 0u8..32 {
        assert_eq!(Regs::from_u8(n).index(), n as usize);
    }
    assert_eq!(Regs::from_u8(2), Regs::Sp);
    assert_eq!(Regs::from_u8(10), Regs::A0);
    assert_eq!(Regs::T6.index(), 31);
}
