//! What each RV32I instruction does, stated over the bits of the word and over machine
//! arithmetic (two's-complement comparisons through `i32`, wrap-around modulo 2^32), and
//! proved of the decoder and of the instruction semantics.

use vstd::prelude::*;

use crate::bits::{field, low_mask, sign_extend_spec};
use crate::decode::decode_spec;
use crate::isa::{
    Fault, Instruction, Regs, OP_AUIPC, OP_BRANCH, OP_IMM, OP_JAL, OP_JALR, OP_LOAD, OP_LUI, OP_REG,
    OP_STORE, OP_SYSTEM,
};
use crate::semantics::{effect, load_value, next_pc, reg_value, signed, sra, wrap, Effect};

verus! {

/// 2^32.
pub open spec fn word_modulus() -> int {
    0x1_0000_0000
}

/// The low 12 bits of `imm` read as a two's-complement offset.
pub open spec fn offset12(imm: u32) -> int {
    if imm < 0x800 {
        imm as int
    } else {
        imm as int - 0x1000
    }
}

/// The low 13 bits of `imm` read as a two's-complement offset.
pub open spec fn offset13(imm: u32) -> int {
    if imm < 0x1000 {
        imm as int
    } else {
        imm as int - 0x2000
    }
}

/// The low 21 bits of `imm` read as a two's-complement offset.
pub open spec fn offset21(imm: u32) -> int {
    if imm < 0x10_0000 {
        imm as int
    } else {
        imm as int - 0x20_0000
    }
}

proof fn lemma_fields(w: u32)
    ensures
        field(w, 0, 7) == w & 0x7F,
        field(w, 7, 5) == (w >> 7) & 0x1F,
        field(w, 12, 3) == (w >> 12) & 0x7,
        field(w, 15, 5) == (w >> 15) & 0x1F,
        field(w, 20, 5) == (w >> 20) & 0x1F,
        field(w, 25, 7) == w >> 25,
        field(w, 20, 12) == w >> 20,
        field(w, 31, 1) == w >> 31,
        field(w, 7, 1) == (w >> 7) & 1,
        field(w, 25, 6) == (w >> 25) & 0x3F,
        field(w, 8, 4) == (w >> 8) & 0xF,
        field(w, 12, 8) == (w >> 12) & 0xFF,
        field(w, 20, 1) == (w >> 20) & 1,
        field(w, 21, 10) == (w >> 21) & 0x3FF,
        field(w, 12, 20) == w >> 12,
{
    assert(low_mask(7) == 0x7Fu32 && low_mask(5) == 0x1Fu32 && low_mask(3) == 0x7u32 && low_mask(12)
        == 0xFFFu32 && low_mask(1) == 1u32 && low_mask(6) == 0x3Fu32 && low_mask(4) == 0xFu32
        && low_mask(8) == 0xFFu32 && low_mask(10) == 0x3FFu32 && low_mask(20) == 0xF_FFFFu32
        && (w >> 0u32) & 0x7F == w & 0x7F && (w >> 25) & 0x7F == w >> 25 && (w >> 20) & 0xFFF == w
        >> 20 && (w >> 31) & 1 == w >> 31 && (w >> 12) & 0xF_FFFF == w >> 12) by (bit_vector);
}

/// The decoder takes each field from its place in the word: the opcode from bits 0..7, `rd`
/// from 7..12, `funct3` from 12..15, `rs1` from 15..20, `rs2` from 20..25, `funct7` from
/// 25..32, and each immediate from the bits that its format scatters it over (bit 0 of a
/// branch or jump offset is always 0; the low 12 bits of an upper immediate are 0).
pub proof fn law_decode_fields(w: u32)
    ensures
        w & 0x7F == 0x33 ==> decode_spec(w) == Ok::<Instruction, Fault>(
            Instruction::RType {
                opcode: 0x33,
                rd: Regs::spec_from((w >> 7) & 0x1F),
                funct3: ((w >> 12) & 0x7) as u8,
                rs1: Regs::spec_from((w >> 15) & 0x1F),
                rs2: Regs::spec_from((w >> 20) & 0x1F),
                funct7: (w >> 25) as u8,
            },
        ),
        (w & 0x7F == 0x13 || w & 0x7F == 0x03 || w & 0x7F == 0x67 || w & 0x7F == 0x73)
            ==> decode_spec(w) == Ok::<Instruction, Fault>(
            Instruction::IType {
                opcode: (w & 0x7F) as u8,
                rd: Regs::spec_from((w >> 7) & 0x1F),
                funct3: ((w >> 12) & 0x7) as u8,
                rs1: Regs::spec_from((w >> 15) & 0x1F),
                imm: w >> 20,
            },
        ),
        w & 0x7F == 0x23 ==> decode_spec(w) == Ok::<Instruction, Fault>(
            Instruction::SType {
                opcode: 0x23,
                funct3: ((w >> 12) & 0x7) as u8,
                rs1: Regs::spec_from((w >> 15) & 0x1F),
                rs2: Regs::spec_from((w >> 20) & 0x1F),
                imm: ((w >> 25) << 5) | ((w >> 7) & 0x1F),
            },
        ),
        w & 0x7F == 0x63 ==> decode_spec(w) == Ok::<Instruction, Fault>(
            Instruction::BType {
                opcode: 0x63,
                funct3: ((w >> 12) & 0x7) as u8,
                rs1: Regs::spec_from((w >> 15) & 0x1F),
                rs2: Regs::spec_from((w >> 20) & 0x1F),
                imm: ((w >> 31) << 12) | (((w >> 7) & 1) << 11) | (((w >> 25) & 0x3F) << 5) | (((w
                    >> 8) & 0xF) << 1),
            },
        ),
        w & 0x7F == 0x6F ==> decode_spec(w) == Ok::<Instruction, Fault>(
            Instruction::JType {
                opcode: 0x6F,
                rd: Regs::spec_from((w >> 7) & 0x1F),
                imm: ((w >> 31) << 20) | (((w >> 12) & 0xFF) << 12) | (((w >> 20) & 1) << 11) | (((w
                    >> 21) & 0x3FF) << 1),
            },
        ),
        (w & 0x7F == 0x37 || w & 0x7F == 0x17) ==> decode_spec(w) == Ok::<Instruction, Fault>(
            Instruction::UType {
                opcode: (w & 0x7F) as u8,
                rd: Regs::spec_from((w >> 7) & 0x1F),
                imm: w & 0xFFFF_F000,
            },
        ),
        w == 0 ==> decode_spec(w) == Err::<Instruction, Fault>(Fault::AllZeroInstruction),
        w != 0 && !(w & 0x7F == 0x33 || w & 0x7F == 0x13 || w & 0x7F == 0x03 || w & 0x7F == 0x67
            || w & 0x7F == 0x73 || w & 0x7F == 0x23 || w & 0x7F == 0x63 || w & 0x7F == 0x6F || w
            & 0x7F == 0x37 || w & 0x7F == 0x17) ==> decode_spec(w) == Err::<Instruction, Fault>(
            Fault::UndecodedInstruction(w),
        ),
{
    lemma_fields(w);
    let op = w & 0x7F;
    assert((op != 0 ==> w != 0) && op < 0x80 && ((op == 0x33 || op == 0x13 || op == 0x03 || op == 0x67 || op == 0x73 || op == 0x23 || op
        == 0x63 || op == 0x6F || op == 0x37 || op == 0x17) ==> (op as u8) % 4 == 3 && (op as u8)
        == op) && (((op as u8) == 0x33 || (op as u8) == 0x13 || (op as u8) == 0x03 || (op as u8)
        == 0x67 || (op as u8) == 0x73 || (op as u8) == 0x23 || (op as u8) == 0x63 || (op as u8)
        == 0x6F || (op as u8) == 0x37 || (op as u8) == 0x17) ==> (op == 0x33 || op == 0x13 || op
        == 0x03 || op == 0x67 || op == 0x73 || op == 0x23 || op == 0x63 || op == 0x6F || op == 0x37
        || op == 0x17))) by (bit_vector)
        requires
            op == w & 0x7F,
    ;
    assert(((w >> 25) * 0x20 + ((w >> 7) & 0x1F)) as u32 == ((w >> 25) << 5) | ((w >> 7) & 0x1F)
        && ((w >> 31) * 0x1000 + ((w >> 7) & 1) * 0x800 + ((w >> 25) & 0x3F) * 0x20 + ((w >> 8)
        & 0xF) * 2) as u32 == ((w >> 31) << 12) | (((w >> 7) & 1) << 11) | (((w >> 25) & 0x3F)
        << 5) | (((w >> 8) & 0xF) << 1) && ((w >> 31) * 0x10_0000 + ((w >> 12) & 0xFF) * 0x1000 + ((w >> 20) & 1) * 0x800 + ((w
        >> 21) & 0x3FF) * 2) as u32 == ((w >> 31) << 20) | (((w >> 12) & 0xFF) << 12) | (((w
        >> 20) & 1) << 11) | (((w >> 21) & 0x3FF) << 1) && ((w >> 12) * 0x1000) as u32 == w
        & 0xFFFF_F000) by (bit_vector);
}

proof fn lemma_machine_arith(a: u32, b: u32)
    ensures
        (a as i32) as int == signed(a),
        b % 32 == b & 0x1F,
        forall|sh: u32| sh < 32 ==> #[trigger] sra(a, sh) == ((a as i32) >> sh) as u32,
{
    assert((a as i32) as int == if a < 0x8000_0000 {
        a as int
    } else {
        a as int - 0x1_0000_0000
    } && b % 32 == b & 0x1F) by (bit_vector);
    assert forall|sh: u32| sh < 32 implies #[trigger] sra(a, sh) == ((a as i32) >> sh) as u32 by {
        assert(sh < 32 ==> sra(a, sh) == ((a as i32) >> sh) as u32) by (bit_vector);
    }
}

proof fn lemma_offsets(imm: u32)
    ensures
        imm < 0x1000 ==> sign_extend_spec(imm, 12) as int == offset12(imm) + (if imm < 0x800 {
            0
        } else {
            word_modulus()
        }),
        imm < 0x2000 ==> sign_extend_spec(imm, 13) as int == offset13(imm) + (if imm < 0x1000 {
            0
        } else {
            word_modulus()
        }),
        imm < 0x20_0000 ==> sign_extend_spec(imm, 21) as int == offset21(imm) + (if imm < 0x10_0000 {
            0
        } else {
            word_modulus()
        }),
{
    assert((imm < 0x1000 ==> sign_extend_spec(imm, 12) == if imm < 0x800 {
        imm
    } else {
        imm | 0xFFFF_F000
    }) && (imm < 0x1000 && imm >= 0x800 ==> (imm | 0xFFFF_F000) as int == imm as int + 0xFFFF_F000)
        && (imm < 0x2000 ==> sign_extend_spec(imm, 13) == if imm < 0x1000 {
        imm
    } else {
        imm | 0xFFFF_E000
    }) && (imm < 0x2000 && imm >= 0x1000 ==> (imm | 0xFFFF_E000) as int == imm as int
        + 0xFFFF_E000) && (imm < 0x20_0000 ==> sign_extend_spec(imm, 21) == if imm < 0x10_0000 {
        imm
    } else {
        imm | 0xFFE0_0000
    }) && (imm < 0x20_0000 && imm >= 0x10_0000 ==> (imm | 0xFFE0_0000) as int == imm as int
        + 0xFFE0_0000)) by (bit_vector);
}

/// `x + k * 2^32` and `x` wrap to the same word.
proof fn lemma_wrap_multiple(x: int, k: int)
    requires
        k == 0 || k == 1,
    ensures
        wrap(x + k * word_modulus()) == ((x % word_modulus()) as u32),
{
    if k == 1 {
        vstd::arithmetic::div_mod::lemma_mod_add_multiples_vanish(x, word_modulus());
        assert(x + k * word_modulus() == word_modulus() + x);
    }
}

/// Register-register instructions: ADD and SUB wrap around; SLL, SRL and SRA shift by the
/// low five bits of `rs2` (SRA copying the sign bit); SLT compares as signed 32-bit
/// numbers and SLTU as unsigned ones, giving 1 or 0; XOR, OR and AND work bit by bit. The
/// result goes to `rd`, and execution goes on to the next instruction.
pub proof fn law_register_register(
    regs: Seq<u32>,
    pc: u32,
    rd: Regs,
    funct3: u8,
    rs1: Regs,
    rs2: Regs,
    funct7: u8,
)
    ensures
        ({
            let i = Instruction::RType { opcode: OP_REG, rd, funct3, rs1, rs2, funct7 };
            let a = reg_value(regs, rs1);
            let b = reg_value(regs, rs2);
            let sh = b & 0x1F;
            let result = |v: u32| Effect::Next { rd, value: v, target: None };
            &&& funct3 == 0 && funct7 != 0x20 ==> effect(i, regs, pc) == result(
                ((a as int + b as int) % word_modulus()) as u32,
            )
            &&& funct3 == 0 && funct7 == 0x20 ==> effect(i, regs, pc) == result(
                ((a as int - b as int) % word_modulus()) as u32,
            )
            &&& funct3 == 1 ==> effect(i, regs, pc) == result(a << sh)
            &&& funct3 == 2 ==> effect(i, regs, pc) == result(
                if (a as i32) < (b as i32) {
                    1u32
                } else {
                    0u32
                },
            )
            &&& funct3 == 3 ==> effect(i, regs, pc) == result(
                if a < b {
                    1u32
                } else {
                    0u32
                },
            )
            &&& funct3 == 4 ==> effect(i, regs, pc) == result(a ^ b)
            &&& funct3 == 5 && funct7 != 0x20 ==> effect(i, regs, pc) == result(a >> sh)
            &&& funct3 == 5 && funct7 == 0x20 ==> effect(i, regs, pc) == result(
                ((a as i32) >> sh) as u32,
            )
            &&& funct3 == 6 ==> effect(i, regs, pc) == result(a | b)
            &&& funct3 == 7 ==> effect(i, regs, pc) == result(a & b)
        }),
{
    let a = reg_value(regs, rs1);
    let b = reg_value(regs, rs2);
    lemma_machine_arith(a, b);
    lemma_machine_arith(b, a);
    assert(b & 0x1F < 32) by (bit_vector);
}

/// Register-immediate instructions: the 12-bit immediate is sign-extended to 32 bits
/// (bit 11 copied into bits 12..32) for ADDI, SLTI, SLTIU, XORI, ORI and ANDI; ADDI wraps
/// around, SLTI compares as signed numbers and SLTIU as unsigned ones; SLLI, SRLI and SRAI
/// shift by the low five bits of the immediate, and bit 10 of the immediate picks SRAI.
/// In particular ANDI with a negative immediate keeps the upper 20 bits of `rs1`.
pub proof fn law_register_immediate(
    regs: Seq<u32>,
    pc: u32,
    rd: Regs,
    funct3: u8,
    rs1: Regs,
    imm: u32,
)
    requires
        imm < 0x1000,
    ensures
        ({
            let i = Instruction::IType { opcode: OP_IMM, rd, funct3, rs1, imm };
            let a = reg_value(regs, rs1);
            let s: u32 = if imm & 0x800 == 0 {
                imm
            } else {
                imm | 0xFFFF_F000
            };
            let sh = imm & 0x1F;
            let result = |v: u32| Effect::Next { rd, value: v, target: None };
            &&& funct3 == 0 ==> effect(i, regs, pc) == result(
                ((a as int + offset12(imm)) % word_modulus()) as u32,
            )
            &&& funct3 == 2 ==> effect(i, regs, pc) == result(
                if (a as i32) < (s as i32) {
                    1u32
                } else {
                    0u32
                },
            )
            &&& funct3 == 3 ==> effect(i, regs, pc) == result(
                if a < s {
                    1u32
                } else {
                    0u32
                },
            )
            &&& funct3 == 4 ==> effect(i, regs, pc) == result(a ^ s)
            &&& funct3 == 6 ==> effect(i, regs, pc) == result(a | s)
            &&& funct3 == 7 ==> effect(i, regs, pc) == result(a & s)
            &&& funct3 == 7 && imm >= 0x800 ==> effect(i, regs, pc) is Next && (effect(
                i,
                regs,
                pc,
            )->Next_value & 0xFFFF_F000) == (a & 0xFFFF_F000)
            &&& funct3 == 1 ==> effect(i, regs, pc) == result(a << sh)
            &&& funct3 == 5 && imm & 0x400 == 0 ==> effect(i, regs, pc) == result(a >> sh)
            &&& funct3 == 5 && imm & 0x400 != 0 ==> effect(i, regs, pc) == result(
                ((a as i32) >> sh) as u32,
            )
        }),
{
    let a = reg_value(regs, rs1);
    let s: u32 = if imm & 0x800 == 0 {
        imm
    } else {
        imm | 0xFFFF_F000
    };
    lemma_machine_arith(a, imm);
    lemma_machine_arith(s, imm);
    lemma_offsets(imm);
    assert(sign_extend_spec(imm, 12) == s) by (bit_vector)
        requires
            imm < 0x1000,
            s == if imm & 0x800 == 0 {
                imm
            } else {
                imm | 0xFFFF_F000
            },
    ;
    assert(imm & 0x800 == 0 <==> imm < 0x800) by (bit_vector)
        requires
            imm < 0x1000,
    ;
    assert(imm & 0x1F < 32) by (bit_vector);
    assert(crate::bits::bit(imm, 10) <==> imm & 0x400 != 0) by (bit_vector);
    lemma_wrap_multiple(a + offset12(imm), if imm < 0x800 {
        0
    } else {
        1
    });
    assert(imm >= 0x800 && imm < 0x1000 ==> (a & (imm | 0xFFFF_F000)) & 0xFFFF_F000 == a
        & 0xFFFF_F000) by (bit_vector);
}


/// Conditional branches: BEQ and BNE compare for equality, BLT and BGE as signed 32-bit
/// numbers, BLTU and BGEU as unsigned ones. A taken branch goes on at `pc` plus the
/// sign-extended 13-bit offset (wrapping around); one not taken goes on to the next
/// instruction; no register is written. `funct3` 2 and 3 name no branch. In particular BGE
/// and BGEU are taken, and BLT and BLTU are not, when both operands are equal.
pub proof fn law_branches(regs: Seq<u32>, pc: u32, funct3: u8, rs1: Regs, rs2: Regs, imm: u32)
    requires
        imm < 0x2000,
    ensures
        ({
            let i = Instruction::BType { opcode: OP_BRANCH, funct3, rs1, rs2, imm };
            let a = reg_value(regs, rs1);
            let b = reg_value(regs, rs2);
            let dest = ((pc as int + offset13(imm)) % word_modulus()) as u32;
            let go = |taken: bool|
                Effect::Next {
                    rd: Regs::Zero,
                    value: 0,
                    target: if taken {
                        Some(dest)
                    } else {
                        None
                    },
                };
            &&& funct3 == 0 ==> effect(i, regs, pc) == go(a == b)
            &&& funct3 == 1 ==> effect(i, regs, pc) == go(a != b)
            &&& funct3 == 4 ==> effect(i, regs, pc) == go((a as i32) < (b as i32))
            &&& funct3 == 5 ==> effect(i, regs, pc) == go((a as i32) >= (b as i32))
            &&& funct3 == 6 ==> effect(i, regs, pc) == go(a < b)
            &&& funct3 == 7 ==> effect(i, regs, pc) == go(a >= b)
            &&& (funct3 == 2 || funct3 == 3 || funct3 > 7) ==> effect(i, regs, pc) == Effect::Fail(
                Fault::InvalidInstruction(i),
            )
            &&& (funct3 == 5 || funct3 == 7) && a == b ==> effect(i, regs, pc) == go(true)
            &&& (funct3 == 4 || funct3 == 6) && a == b ==> effect(i, regs, pc) == go(false)
        }),
{
    let a = reg_value(regs, rs1);
    let b = reg_value(regs, rs2);
    lemma_machine_arith(a, b);
    lemma_machine_arith(b, a);
    lemma_offsets(imm);
    lemma_wrap_multiple(pc + offset13(imm), if imm < 0x1000 {
        0
    } else {
        1
    });
}

/// Jumps: JAL goes on at `pc` plus the sign-extended 21-bit offset; JALR at `rs1` plus the
/// sign-extended 12-bit offset with bit 0 cleared, `rs1` read before `rd` is written. Both
/// write the address of the next instruction to `rd`; all sums wrap around.
pub proof fn law_jumps(regs: Seq<u32>, pc: u32, rd: Regs, funct3: u8, rs1: Regs, imm: u32)
    ensures
        ({
            let link = ((pc as int + 4) % word_modulus()) as u32;
            let jal = Instruction::JType { opcode: OP_JAL, rd, imm };
            let jalr = Instruction::IType { opcode: OP_JALR, rd, funct3, rs1, imm };
            let base = reg_value(regs, rs1) as int;
            &&& imm < 0x20_0000 ==> effect(jal, regs, pc) == Effect::Next {
                rd,
                value: link,
                target: Some(((pc as int + offset21(imm)) % word_modulus()) as u32),
            }
            &&& imm < 0x1000 ==> effect(jalr, regs, pc) == Effect::Next {
                rd,
                value: link,
                target: Some((((base + offset12(imm)) % word_modulus()) as u32) & 0xFFFF_FFFE),
            }
        }),
{
    lemma_offsets(imm);
    lemma_wrap_multiple(pc + offset21(imm), if imm < 0x10_0000 {
        0
    } else {
        1
    });
    lemma_wrap_multiple(reg_value(regs, rs1) + offset12(imm), if imm < 0x800 {
        0
    } else {
        1
    });
    assert(!1u32 == 0xFFFF_FFFEu32) by (bit_vector);
}

/// Stores: the address is `rs1` plus the sign-extended 12-bit offset, wrapping around (so
/// an offset of 0xFFC addresses the word just below `rs1`); SB writes the low byte of
/// `rs2`, SH its low halfword and SW the whole word; other `funct3` values name no store.
pub proof fn law_stores(regs: Seq<u32>, pc: u32, funct3: u8, rs1: Regs, rs2: Regs, imm: u32)
    requires
        imm < 0x1000,
    ensures
        ({
            let i = Instruction::SType { opcode: OP_STORE, funct3, rs1, rs2, imm };
            let a = reg_value(regs, rs1);
            let b = reg_value(regs, rs2);
            let addr = ((a as int + offset12(imm)) % word_modulus()) as u32;
            &&& funct3 == 0 ==> effect(i, regs, pc) == Effect::Store {
                addr,
                width: 1,
                value: b & 0xFF,
            }
            &&& funct3 == 1 ==> effect(i, regs, pc) == Effect::Store {
                addr,
                width: 2,
                value: b & 0xFFFF,
            }
            &&& funct3 == 2 ==> effect(i, regs, pc) == Effect::Store { addr, width: 4, value: b }
            &&& funct3 > 2 ==> effect(i, regs, pc) == Effect::Fail(Fault::InvalidInstruction(i))
            &&& funct3 <= 2 && imm == 0xFFC ==> effect(i, regs, pc)->Store_addr == ((a as int - 4)
                % word_modulus()) as u32
        }),
{
    let a = reg_value(regs, rs1);
    lemma_offsets(imm);
    lemma_wrap_multiple(a + offset12(imm), if imm < 0x800 {
        0
    } else {
        1
    });
}

/// Loads: the address is `rs1` plus the sign-extended 12-bit offset, wrapping around; LB
/// and LBU read one byte, LH and LHU two, LW four; `funct3` 3, 6 and 7 name no load. LB
/// and LH sign-extend what they read, LBU and LHU zero-extend it.
pub proof fn law_loads(regs: Seq<u32>, pc: u32, rd: Regs, funct3: u8, rs1: Regs, imm: u32, raw: u32)
    requires
        imm < 0x1000,
    ensures
        ({
            let i = Instruction::IType { opcode: OP_LOAD, rd, funct3, rs1, imm };
            let addr = ((reg_value(regs, rs1) as int + offset12(imm)) % word_modulus()) as u32;
            &&& (funct3 == 0 || funct3 == 4) ==> effect(i, regs, pc) == Effect::Load {
                addr,
                width: 1,
                funct3,
                rd,
            }
            &&& (funct3 == 1 || funct3 == 5) ==> effect(i, regs, pc) == Effect::Load {
                addr,
                width: 2,
                funct3,
                rd,
            }
            &&& funct3 == 2 ==> effect(i, regs, pc) == Effect::Load { addr, width: 4, funct3, rd }
            &&& (funct3 == 3 || funct3 > 5) ==> effect(i, regs, pc) == Effect::Fail(
                Fault::InvalidInstruction(i),
            )
        }),
        raw < 0x100 ==> load_value(0, raw) == (raw as u8 as i8) as u32 && load_value(4, raw)
            == raw,
        raw < 0x1_0000 ==> load_value(1, raw) == (raw as u16 as i16) as u32 && load_value(5, raw)
            == raw,
        load_value(2, raw) == raw,
{
    let a = reg_value(regs, rs1);
    lemma_offsets(imm);
    lemma_wrap_multiple(a + offset12(imm), if imm < 0x800 {
        0
    } else {
        1
    });
    assert(raw < 0x100 ==> sign_extend_spec(raw, 8) == (raw as u8 as i8) as u32) by (bit_vector);
    assert(raw < 0x1_0000 ==> sign_extend_spec(raw, 16) == (raw as u16 as i16) as u32)
        by (bit_vector);
}

/// Upper immediates and system calls: LUI writes the immediate to `rd`, AUIPC writes `pc`
/// plus the immediate (wrapping around). ECALL halts when `a0` holds 1 and otherwise does
/// nothing; EBREAK halts; any other SYSTEM immediate names no instruction.
pub proof fn law_upper_and_system(regs: Seq<u32>, pc: u32, rd: Regs, funct3: u8, rs1: Regs, imm: u32)
    ensures
        ({
            let lui = Instruction::UType { opcode: OP_LUI, rd, imm };
            let auipc = Instruction::UType { opcode: OP_AUIPC, rd, imm };
            let sys = Instruction::IType { opcode: OP_SYSTEM, rd, funct3, rs1, imm };
            &&& effect(lui, regs, pc) == Effect::Next { rd, value: imm, target: None }
            &&& effect(auipc, regs, pc) == Effect::Next {
                rd,
                value: ((pc as int + imm as int) % word_modulus()) as u32,
                target: None,
            }
            &&& imm == 0 && reg_value(regs, Regs::A0) == 1 ==> effect(sys, regs, pc)
                == Effect::Fail(Fault::Halt)
            &&& imm == 0 && reg_value(regs, Regs::A0) != 1 ==> effect(sys, regs, pc)
                == Effect::Next { rd: Regs::Zero, value: 0, target: None }
            &&& imm == 1 ==> effect(sys, regs, pc) == Effect::Fail(Fault::Halt)
            &&& imm > 1 ==> effect(sys, regs, pc) == Effect::Fail(Fault::InvalidInstruction(sys))
        }),
{
}

/// Where a step goes on: at the target of a jump or a taken branch, at the following word
/// (`pc` + 4, wrapping around) after any other instruction, and nowhere after a fault.
pub proof fn law_next_pc(pc: u32, target: u32, f: Fault)
    ensures
        next_pc(pc, Ok(Some(target))) == target,
        next_pc(pc, Ok(None)) == ((pc as int + 4) % word_modulus()) as u32,
        next_pc(pc, Err(f)) == pc,
{
}

} // verus!
