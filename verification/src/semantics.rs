//! What each instruction does to the registers, the program counter and memory.

use vstd::prelude::*;

use crate::bits::{bit, sign_extend_spec};
use crate::decode::decode_spec;
use crate::isa::{Fault, Instruction, Regs, OP_IMM, OP_JALR, OP_LOAD, OP_LUI};
use crate::memory::AddressSpace;

verus! {

/// `x` reduced to a 32-bit word (two's-complement wrap-around).
pub open spec fn wrap(x: int) -> u32 {
    (x % 0x1_0000_0000) as u32
}

/// The two's-complement value of a 32-bit word.
pub open spec fn signed(x: u32) -> int {
    if x < 0x8000_0000 {
        x as int
    } else {
        x as int - 0x1_0000_0000
    }
}

/// Arithmetic right shift: the vacated high bits take the value of the sign bit.
pub open spec fn sra(a: u32, sh: u32) -> u32 {
    if bit(a, 31) {
        !((!a) >> sh)
    } else {
        a >> sh
    }
}

/// A comparison result as a word: 1 or 0.
pub open spec fn flag(c: bool) -> u32 {
    if c {
        1
    } else {
        0
    }
}

/// Register-register operations (`OP`), selected by `funct3` and `funct7`.
pub open spec fn alu_rr(funct3: u8, funct7: u8, a: u32, b: u32) -> u32 {
    let sh = b % 32;
    if funct3 == 0 {
        if funct7 == 0x20 {
            wrap(a - b)
        } else {
            wrap(a + b)
        }
    } else if funct3 == 1 {
        a << sh
    } else if funct3 == 2 {
        flag(signed(a) < signed(b))
    } else if funct3 == 3 {
        flag(a < b)
    } else if funct3 == 4 {
        a ^ b
    } else if funct3 == 5 {
        if funct7 == 0x20 {
            sra(a, sh)
        } else {
            a >> sh
        }
    } else if funct3 == 6 {
        a | b
    } else {
        a & b
    }
}

/// Register-immediate operations (`OP-IMM`); the 12-bit immediate is sign-extended, and
/// bit 10 of it selects the arithmetic right shift.
pub open spec fn alu_ri(funct3: u8, imm: u32, a: u32) -> u32 {
    let s = sign_extend_spec(imm, 12);
    let sh = imm % 32;
    if funct3 == 0 {
        wrap(a + s)
    } else if funct3 == 1 {
        a << sh
    } else if funct3 == 2 {
        flag(signed(a) < signed(s))
    } else if funct3 == 3 {
        flag(a < s)
    } else if funct3 == 4 {
        a ^ s
    } else if funct3 == 5 {
        if bit(imm, 10) {
            sra(a, sh)
        } else {
            a >> sh
        }
    } else if funct3 == 6 {
        a | s
    } else {
        a & s
    }
}

/// Whether a branch is taken; `None` for the two `funct3` values that name no branch.
pub open spec fn branch_taken(funct3: u8, a: u32, b: u32) -> Option<bool> {
    if funct3 == 0 {
        Some(a == b)
    } else if funct3 == 1 {
        Some(a != b)
    } else if funct3 == 4 {
        Some(signed(a) < signed(b))
    } else if funct3 == 5 {
        Some(signed(a) >= signed(b))
    } else if funct3 == 6 {
        Some(a < b)
    } else if funct3 == 7 {
        Some(a >= b)
    } else {
        None
    }
}

/// The number of bytes that a load reads (`LB`, `LH`, `LW`, `LBU`, `LHU`); 0 for the
/// `funct3` values that name no load.
pub open spec fn load_width(funct3: u8) -> u32 {
    if funct3 == 0 || funct3 == 4 {
        1
    } else if funct3 == 1 || funct3 == 5 {
        2
    } else if funct3 == 2 {
        4
    } else {
        0
    }
}

/// The register value of a load from the bytes read: `LB` and `LH` sign-extend, the others
/// zero-extend.
pub open spec fn load_value(funct3: u8, raw: u32) -> u32 {
    if funct3 == 0 {
        sign_extend_spec(raw, 8)
    } else if funct3 == 1 {
        sign_extend_spec(raw, 16)
    } else {
        raw
    }
}

/// The number of bytes that a store writes (`SB`, `SH`, `SW`); 0 for the `funct3` values
/// that name no store.
pub open spec fn store_width(funct3: u8) -> u32 {
    if funct3 == 0 {
        1
    } else if funct3 == 1 {
        2
    } else if funct3 == 2 {
        4
    } else {
        0
    }
}

/// The bytes that a store writes, zero-extended: the low byte (`SB`), the low halfword
/// (`SH`) or the whole word (`SW`).
pub open spec fn store_value(funct3: u8, v: u32) -> u32 {
    if funct3 == 0 {
        v & 0xFF
    } else if funct3 == 1 {
        v & 0xFFFF
    } else {
        v
    }
}

/// The value of a register: `Zero` always reads 0.
pub open spec fn reg_value(regs: Seq<u32>, r: Regs) -> u32 {
    if r == Regs::Zero {
        0
    } else {
        regs[r.spec_index() as int]
    }
}

/// The registers after writing `v` to `r`: writes to `Zero` are discarded.
pub open spec fn with_reg(regs: Seq<u32>, r: Regs, v: u32) -> Seq<u32> {
    if r == Regs::Zero {
        regs
    } else {
        regs.update(r.spec_index() as int, v)
    }
}

/// What executing a decoded instruction asks for.
pub enum Effect {
    /// Write `value` to `rd` (nothing is written when `rd` is `Zero`); a jump or a taken
    /// branch names its `target`.
    Next { rd: Regs, value: u32, target: Option<u32> },
    /// Stop with this fault; nothing changes.
    Fail(Fault),
    /// Read `width` bytes at `addr` into `rd`, extended as `funct3` says.
    Load { addr: u32, width: u32, funct3: u8, rd: Regs },
    /// Write the low `width` bytes of `value` at `addr`.
    Store { addr: u32, width: u32, value: u32 },
}

/// The effect of `i` on a hart with registers `regs` at program counter `pc`.
pub open spec fn effect(i: Instruction, regs: Seq<u32>, pc: u32) -> Effect {
    match i {
        Instruction::RType { rd, funct3, rs1, rs2, funct7, .. } => Effect::Next {
            rd,
            value: alu_rr(funct3, funct7, reg_value(regs, rs1), reg_value(regs, rs2)),
            target: None,
        },
        Instruction::IType { opcode, rd, funct3, rs1, imm } => {
            let s = sign_extend_spec(imm, 12);
            if opcode == OP_IMM {
                Effect::Next { rd, value: alu_ri(funct3, imm, reg_value(regs, rs1)), target: None }
            } else if opcode == OP_LOAD {
                if load_width(funct3) == 0 {
                    Effect::Fail(Fault::InvalidInstruction(i))
                } else {
                    Effect::Load {
                        addr: wrap(reg_value(regs, rs1) + s),
                        width: load_width(funct3),
                        funct3,
                        rd,
                    }
                }
            } else if opcode == OP_JALR {
                // The base register is read before the link is written.
                let target = wrap(reg_value(regs, rs1) + s) & !1u32;
                Effect::Next { rd, value: wrap(pc + 4), target: Some(target) }
            } else {
                // SYSTEM: ECALL halts when a0 is 1 and otherwise does nothing; EBREAK halts.
                if imm == 0 {
                    if reg_value(regs, Regs::A0) == 1 {
                        Effect::Fail(Fault::Halt)
                    } else {
                        Effect::Next { rd: Regs::Zero, value: 0, target: None }
                    }
                } else if imm == 1 {
                    Effect::Fail(Fault::Halt)
                } else {
                    Effect::Fail(Fault::InvalidInstruction(i))
                }
            }
        },
        Instruction::SType { funct3, rs1, rs2, imm, .. } => {
            if store_width(funct3) == 0 {
                Effect::Fail(Fault::InvalidInstruction(i))
            } else {
                Effect::Store {
                    addr: wrap(reg_value(regs, rs1) + sign_extend_spec(imm, 12)),
                    width: store_width(funct3),
                    value: store_value(funct3, reg_value(regs, rs2)),
                }
            }
        },
        Instruction::BType { funct3, rs1, rs2, imm, .. } => {
            match branch_taken(funct3, reg_value(regs, rs1), reg_value(regs, rs2)) {
                None => Effect::Fail(Fault::InvalidInstruction(i)),
                Some(taken) => Effect::Next {
                    rd: Regs::Zero,
                    value: 0,
                    target: if taken {
                        Some(wrap(pc + sign_extend_spec(imm, 13)))
                    } else {
                        None
                    },
                },
            }
        },
        Instruction::UType { opcode, rd, imm } => {
            if opcode == OP_LUI {
                Effect::Next { rd, value: imm, target: None }
            } else {
                Effect::Next { rd, value: wrap(pc + imm), target: None }
            }
        },
        Instruction::JType { rd, imm, .. } => Effect::Next {
            rd,
            value: wrap(pc + 4),
            target: Some(wrap(pc + sign_extend_spec(imm, 21))),
        },
    }
}

/// The registers after a load returned `v`, and what the load gives: on success `rd` gets
/// the extended value; on a fault nothing changes.
pub open spec fn load_done(
    v: Result<u32, Fault>,
    funct3: u8,
    rd: Regs,
    regs: Seq<u32>,
    regs2: Seq<u32>,
    r: Result<Option<u32>, Fault>,
) -> bool {
    match v {
        Ok(x) => regs2 == with_reg(regs, rd, load_value(funct3, x)) && r == Ok::<Option<u32>, Fault>(None),
        Err(f) => regs2 == regs && r == Err::<Option<u32>, Fault>(f),
    }
}

/// What a store gives, from what its write returned.
pub open spec fn store_result(w: Result<(), Fault>) -> Result<Option<u32>, Fault> {
    match w {
        Ok(_) => Ok(None),
        Err(f) => Err(f),
    }
}

/// A load of `width` bytes at `addr` into `rd` may end in `(regs2, mem2)` and give `r`.
pub open spec fn load_post<M: AddressSpace>(
    mem: M,
    mem2: M,
    addr: u32,
    width: u32,
    funct3: u8,
    rd: Regs,
    regs: Seq<u32>,
    regs2: Seq<u32>,
    r: Result<Option<u32>, Fault>,
) -> bool {
    exists|v: Result<u32, Fault>|
        #[trigger] mem.read_outcome(mem2, addr, width, v) && load_done(v, funct3, rd, regs, regs2, r)
}

/// A store of the low `width` bytes of `value` at `addr` may end in `(regs2, mem2)` and give
/// `r`; the registers do not change.
pub open spec fn store_post<M: AddressSpace>(
    mem: M,
    mem2: M,
    addr: u32,
    width: u32,
    value: u32,
    regs: Seq<u32>,
    regs2: Seq<u32>,
    r: Result<Option<u32>, Fault>,
) -> bool {
    exists|w: Result<(), Fault>|
        #[trigger] mem.write_outcome(mem2, addr, width, value, w) && regs2 == regs && r
            == store_result(w)
}

/// Executing `i` at `(regs, pc, mem)` may end in `(regs2, mem2)` and give `r`: the target
/// of a jump or a taken branch, `None` for an instruction that goes on to the next one, or
/// a fault (after which nothing has changed but what a failed access did to the memory).
/// Executing leaves the program counter to the step.
pub open spec fn exec_post<M: AddressSpace>(
    i: Instruction,
    regs: Seq<u32>,
    pc: u32,
    mem: M,
    regs2: Seq<u32>,
    mem2: M,
    r: Result<Option<u32>, Fault>,
) -> bool {
    match effect(i, regs, pc) {
        Effect::Next { rd, value, target } => mem2 == mem && regs2 == with_reg(regs, rd, value)
            && r == Ok::<Option<u32>, Fault>(target),
        Effect::Fail(f) => mem2 == mem && regs2 == regs && r == Err::<Option<u32>, Fault>(f),
        Effect::Load { addr, width, funct3, rd } => load_post(mem, mem2, addr, width, funct3, rd, regs, regs2, r),
        Effect::Store { addr, width, value } => store_post(mem, mem2, addr, width, value, regs, regs2, r),
    }
}

/// The memory accesses that executing `i` makes are ones that `mem` serves.
pub open spec fn access_served<M: AddressSpace>(
    i: Instruction,
    regs: Seq<u32>,
    pc: u32,
    mem: M,
) -> bool {
    match effect(i, regs, pc) {
        Effect::Load { addr, width, .. } => mem.serves_read(addr, width),
        Effect::Store { addr, width, .. } => mem.serves_write(addr, width),
        _ => true,
    }
}

/// Where a step goes on after executing gave `x`: at the target of a jump or a taken
/// branch, at the next word otherwise, and nowhere after a fault.
pub open spec fn next_pc(pc: u32, x: Result<Option<u32>, Fault>) -> u32 {
    match x {
        Ok(Some(t)) => t,
        Ok(None) => wrap(pc + 4),
        Err(_) => pc,
    }
}

/// What a step returns after executing gave `x`.
pub open spec fn step_result(x: Result<Option<u32>, Fault>) -> Result<(), Fault> {
    match x {
        Ok(_) => Ok(()),
        Err(f) => Err(f),
    }
}

/// One step from `(regs, pc, mem)` may end in `(regs2, pc2, mem2)` with result `r`: fetch
/// the word at `pc`, decode it, execute it, and go on where the execution says. A fault at
/// any point leaves the registers and the program counter as they were.
pub open spec fn step_post<M: AddressSpace>(
    regs: Seq<u32>,
    pc: u32,
    mem: M,
    regs2: Seq<u32>,
    pc2: u32,
    mem2: M,
    r: Result<(), Fault>,
) -> bool {
    exists|fetched: Result<u32, Fault>, m1: M|
        #[trigger] mem.read_outcome(m1, pc, 4, fetched) && match fetched {
            Err(f) => regs2 == regs && pc2 == pc && mem2 == m1 && r == Err::<(), Fault>(f),
            Ok(w) => match decode_spec(w) {
                Err(f) => regs2 == regs && pc2 == pc && mem2 == m1 && r == Err::<(), Fault>(f),
                Ok(i) => exists|x: Result<Option<u32>, Fault>|
                    #[trigger] exec_post(i, regs, pc, m1, regs2, mem2, x) && pc2 == next_pc(pc, x)
                        && r == step_result(x),
            },
        }
}

/// Every access that a step from `(regs, pc, mem)` makes is one that the memory serves.
pub open spec fn step_served<M: AddressSpace>(regs: Seq<u32>, pc: u32, mem: M) -> bool {
    &&& mem.serves_read(pc, 4)
    &&& forall|w: u32, m1: M| #[trigger]
        mem.read_outcome(m1, pc, 4, Ok(w)) ==> match decode_spec(w) {
            Ok(i) => access_served(i, regs, pc, m1),
            Err(_) => true,
        }
}

} // verus!
