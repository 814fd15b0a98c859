//! The register file and the execution of decoded instructions on a hart.

use vstd::prelude::*;

use crate::bits::{sign_extend32, sign_extend_spec};
use crate::decode::{decode, decode_spec};
use crate::isa::{Fault, Instruction, Regs, OP_IMM, OP_JALR, OP_LOAD, OP_LUI, OP_SYSTEM};
use crate::memory::{widen16, widen8, AddressSpace};
use crate::semantics::{
    access_served, alu_ri, alu_rr, branch_taken, exec_post, reg_value, signed, step_post,
    step_served, store_result, store_value, with_reg, wrap, effect, Effect,
};

verus! {

/// The 32 integer registers. Register `Zero` reads as 0 whatever is stored for it.
#[derive(Debug, Clone, Copy)]
pub struct RegArray(pub [u32; 32]);

impl View for RegArray {
    type V = Seq<u32>;

    open spec fn view(&self) -> Seq<u32> {
        self.0@
    }
}

impl Default for RegArray {
    fn default() -> (r: Self)
        ensures
            r@ == Seq::new(32, |i: int| 0u32),
    {
        RegArray::new()
    }
}

impl RegArray {
    /// All registers zero.
    pub fn new() -> (r: Self)
        ensures
            r@ == Seq::new(32, |i: int| 0u32),
    {
        let r = RegArray([0u32; 32]);
        assert(r@ =~= Seq::new(32, |i: int| 0u32));
        r
    }

    /// The value of `reg`.
    pub fn read(&self, reg: Regs) -> (r: u32)
        ensures
            r == reg_value(self@, reg),
    {
        if reg == Regs::Zero {
            0
        } else {
            self.0[reg.index()]
        }
    }

    /// Writes `value` to `reg`; a write to `Zero` is discarded.
    pub fn write(&mut self, reg: Regs, value: u32)
        ensures
            final(self)@ == with_reg(old(self)@, reg, value),
    {
        if reg != Regs::Zero {
            self.0[reg.index()] = value;
        }
    }
}

/// The signed comparison of two words, read as two's-complement numbers.
fn signed_lt(a: u32, b: u32) -> (r: bool)
    ensures
        r == (signed(a) < signed(b)),
{
    proof {
        lemma_signed(a);
        lemma_signed(b);
    }
    (a as i32) < (b as i32)
}

proof fn lemma_signed(a: u32)
    ensures
        (a as i32) as int == signed(a),
{
    assert((a as i32) as int == if a < 0x8000_0000 {
        a as int
    } else {
        a as int - 0x1_0000_0000
    }) by (bit_vector);
}

fn flag(c: bool) -> (r: u32)
    ensures
        r == crate::semantics::flag(c),
{
    if c {
        1
    } else {
        0
    }
}

fn shift_right_arith(a: u32, shamt: u32) -> (r: u32)
    requires
        shamt < 32,
    ensures
        r == crate::semantics::sra(a, shamt),
{
    let r = ((a as i32) >> shamt) as u32;
    assert(r == crate::semantics::sra(a, shamt)) by (bit_vector)
        requires
            shamt < 32,
            r == ((a as i32) >> shamt) as u32,
    ;
    r
}

fn add_wrap(a: u32, b: u32) -> (r: u32)
    ensures
        r == wrap(a + b),
{
    a.wrapping_add(b)
}

fn sub_wrap(a: u32, b: u32) -> (r: u32)
    ensures
        r == wrap(a - b),
{
    a.wrapping_sub(b)
}

proof fn lemma_low5(b: u32)
    ensures
        b & 0x1F == b % 32,
        b & 0x1F < 32,
{
    assert(b & 0x1F == b % 32 && b & 0x1F < 32) by (bit_vector);
}

fn execute_arith_reg_reg<M: AddressSpace>(
    regs: &mut RegArray,
    pc: u32,
    mem: &mut M,
    instr: Instruction,
) -> (r: Result<Option<u32>, Fault>)
    requires
        instr is RType,
        instr.wf(),
    ensures
        exec_post(instr, old(regs)@, pc, *old(mem), final(regs)@, *final(mem), r),
{
    let Instruction::RType { opcode: _, rd, funct3, rs1, rs2, funct7 } = instr else {
        return Err(Fault::InvalidInstruction(instr));
    };
    let a = regs.read(rs1);
    let b = regs.read(rs2);
    proof {
        lemma_low5(b);
    }
    let result = if funct3 == 0x0 {
        if funct7 == 0x20 {
            // SUB
            sub_wrap(a, b)
        } else {
            // ADD
            add_wrap(a, b)
        }
    } else if funct3 == 0x4 {
        // XOR
        a ^ b
    } else if funct3 == 0x6 {
        // OR
        a | b
    } else if funct3 == 0x7 {
        // AND
        a & b
    } else if funct3 == 0x1 {
        // SLL
        a << (b & 0x1F)
    } else if funct3 == 0x5 {
        if funct7 == 0x20 {
            // SRA
            shift_right_arith(a, b & 0x1F)
        } else {
            // SRL
            a >> (b & 0x1F)
        }
    } else if funct3 == 0x2 {
        // SLT
        flag(signed_lt(a, b))
    } else {
        // SLTU
        flag(a < b)
    };
    assert(result == alu_rr(funct3, funct7, a, b));
    regs.write(rd, result);
    Ok(None)
}

fn execute_arith_reg_imm<M: AddressSpace>(
    regs: &mut RegArray,
    pc: u32,
    mem: &mut M,
    instr: Instruction,
) -> (r: Result<Option<u32>, Fault>)
    requires
        instr matches Instruction::IType { opcode, .. } && opcode == OP_IMM,
        instr.wf(),
    ensures
        exec_post(instr, old(regs)@, pc, *old(mem), final(regs)@, *final(mem), r),
{
    let Instruction::IType { opcode: _, rd, funct3, rs1, imm } = instr else {
        return Err(Fault::InvalidInstruction(instr));
    };
    let a = regs.read(rs1);
    let s = sign_extend32(imm, 12);
    proof {
        lemma_low5(imm);
    }
    let shamt = imm & 0x1F;
    let result = if funct3 == 0x0 {
        // ADDI
        add_wrap(a, s)
    } else if funct3 == 0x4 {
        // XORI
        a ^ s
    } else if funct3 == 0x6 {
        // ORI
        a | s
    } else if funct3 == 0x7 {
        // ANDI
        a & s
    } else if funct3 == 0x1 {
        // SLLI
        a << shamt
    } else if funct3 == 0x5 {
        if (imm >> 10) & 0x1 == 0 {
            // SRLI
            a >> shamt
        } else {
            // SRAI
            assert((imm >> 10) & 0x1 == 1) by (bit_vector)
                requires
                    (imm >> 10) & 0x1 != 0,
            ;
            shift_right_arith(a, shamt)
        }
    } else if funct3 == 0x2 {
        // SLTI
        flag(signed_lt(a, s))
    } else {
        // SLTIU
        flag(a < s)
    };
    assert(result == alu_ri(funct3, imm, a));
    regs.write(rd, result);
    Ok(None)
}

fn execute_load<M: AddressSpace>(
    regs: &mut RegArray,
    pc: u32,
    mem: &mut M,
    instr: Instruction,
) -> (r: Result<Option<u32>, Fault>)
    requires
        instr matches Instruction::IType { opcode, .. } && opcode == OP_LOAD,
        instr.wf(),
        access_served(instr, old(regs)@, pc, *old(mem)),
    ensures
        exec_post(instr, old(regs)@, pc, *old(mem), final(regs)@, *final(mem), r),
{
    let Instruction::IType { opcode: _, rd, funct3, rs1, imm } = instr else {
        return Err(Fault::InvalidInstruction(instr));
    };
    let addr = add_wrap(regs.read(rs1), sign_extend32(imm, 12));
    let ghost m0 = *mem;
    if funct3 == 0x0 {
        // LB: the byte is sign-extended
        match mem.read_8(addr) {
            Ok(v) => {
                let value = v as i8 as i32 as u32;
                assert(value == sign_extend_spec(v as u32, 8)) by (bit_vector)
                    requires
                        value == v as i8 as i32 as u32,
                ;
                regs.write(rd, value);
                assert(m0.read_outcome(*mem, addr, 1, Ok(v as u32)));
                Ok(None)
            },
            Err(f) => {
                assert(m0.read_outcome(*mem, addr, 1, Err(f)));
                Err(f)
            },
        }
    } else if funct3 == 0x1 {
        // LH: the halfword is sign-extended
        match mem.read_16(addr) {
            Ok(v) => {
                let value = v as i16 as i32 as u32;
                assert(value == sign_extend_spec(v as u32, 16)) by (bit_vector)
                    requires
                        value == v as i16 as i32 as u32,
                ;
                regs.write(rd, value);
                assert(m0.read_outcome(*mem, addr, 2, Ok(v as u32)));
                Ok(None)
            },
            Err(f) => {
                assert(m0.read_outcome(*mem, addr, 2, Err(f)));
                Err(f)
            },
        }
    } else if funct3 == 0x2 {
        // LW
        match mem.read_32(addr) {
            Ok(v) => {
                regs.write(rd, v);
                assert(m0.read_outcome(*mem, addr, 4, Ok(v)));
                Ok(None)
            },
            Err(f) => {
                assert(m0.read_outcome(*mem, addr, 4, Err(f)));
                Err(f)
            },
        }
    } else if funct3 == 0x4 {
        // LBU: the byte is zero-extended
        match mem.read_8(addr) {
            Ok(v) => {
                regs.write(rd, v as u32);
                assert(m0.read_outcome(*mem, addr, 1, Ok(v as u32)));
                Ok(None)
            },
            Err(f) => {
                assert(m0.read_outcome(*mem, addr, 1, Err(f)));
                Err(f)
            },
        }
    } else if funct3 == 0x5 {
        // LHU: the halfword is zero-extended
        match mem.read_16(addr) {
            Ok(v) => {
                regs.write(rd, v as u32);
                assert(m0.read_outcome(*mem, addr, 2, Ok(v as u32)));
                Ok(None)
            },
            Err(f) => {
                assert(m0.read_outcome(*mem, addr, 2, Err(f)));
                Err(f)
            },
        }
    } else {
        Err(Fault::InvalidInstruction(instr))
    }
}

proof fn lemma_store_post<M: AddressSpace>(
    i: Instruction,
    regs: Seq<u32>,
    pc: u32,
    mem: M,
    mem2: M,
    addr: u32,
    width: u32,
    value: u32,
    w: Result<(), Fault>,
)
    requires
        effect(i, regs, pc) == (Effect::Store { addr, width, value }),
        mem.write_outcome(mem2, addr, width, value, w),
    ensures
        exec_post(i, regs, pc, mem, regs, mem2, store_result(w)),
{
    assert(mem.write_outcome(mem2, addr, width, value, w));
}

fn execute_store<M: AddressSpace>(
    regs: &mut RegArray,
    pc: u32,
    mem: &mut M,
    instr: Instruction,
) -> (r: Result<Option<u32>, Fault>)
    requires
        instr is SType,
        instr.wf(),
        access_served(instr, old(regs)@, pc, *old(mem)),
    ensures
        exec_post(instr, old(regs)@, pc, *old(mem), final(regs)@, *final(mem), r),
{
    let Instruction::SType { opcode: _, funct3, rs1, rs2, imm } = instr else {
        return Err(Fault::InvalidInstruction(instr));
    };
    let addr = add_wrap(regs.read(rs1), sign_extend32(imm, 12));
    let b = regs.read(rs2);
    let ghost m0 = *mem;
    let w = if funct3 == 0x0 {
        // SB
        let value = (#[verifier::truncate] ((b & 0xFF) as u8));
        assert(value as u32 == b & 0xFF) by (bit_vector)
            requires
                value == (b & 0xFF) as u8,
        ;
        let w = mem.write_8(addr, value);
        proof {
            lemma_store_post(instr, regs@, pc, m0, *mem, addr, 1, store_value(funct3, b), w);
        }
        w
    } else if funct3 == 0x1 {
        // SH
        let value = (#[verifier::truncate] ((b & 0xFFFF) as u16));
        assert(value as u32 == b & 0xFFFF) by (bit_vector)
            requires
                value == (b & 0xFFFF) as u16,
        ;
        let w = mem.write_16(addr, value);
        proof {
            lemma_store_post(instr, regs@, pc, m0, *mem, addr, 2, store_value(funct3, b), w);
        }
        w
    } else if funct3 == 0x2 {
        // SW
        let w = mem.write_32(addr, b);
        proof {
            lemma_store_post(instr, regs@, pc, m0, *mem, addr, 4, store_value(funct3, b), w);
        }
        w
    } else {
        return Err(Fault::InvalidInstruction(instr));
    };
    let x = match w {
        Ok(_) => Ok(None),
        Err(f) => Err(f),
    };
    assert(x == store_result(w));
    x
}

/// Whether a branch is taken, by `funct3`; `None` for the values that name no branch.
fn branch_decision(funct3: u8, a: u32, b: u32) -> (r: Option<bool>)
    ensures
        r == branch_taken(funct3, a, b),
{
    if funct3 == 0x0 {
        Some(a == b)  // BEQ
    } else if funct3 == 0x1 {
        Some(a != b)  // BNE
    } else if funct3 == 0x4 {
        Some(signed_lt(a, b))  // BLT
    } else if funct3 == 0x5 {
        Some(!signed_lt(a, b))  // BGE
    } else if funct3 == 0x6 {
        Some(a < b)  // BLTU
    } else if funct3 == 0x7 {
        Some(a >= b)  // BGEU
    } else {
        None
    }
}

fn execute_branch<M: AddressSpace>(
    regs: &mut RegArray,
    pc: u32,
    mem: &mut M,
    instr: Instruction,
) -> (r: Result<Option<u32>, Fault>)
    requires
        instr is BType,
        instr.wf(),
    ensures
        exec_post(instr, old(regs)@, pc, *old(mem), final(regs)@, *final(mem), r),
{
    let Instruction::BType { opcode: _, funct3, rs1, rs2, imm } = instr else {
        return Err(Fault::InvalidInstruction(instr));
    };
    let take_branch = match branch_decision(funct3, regs.read(rs1), regs.read(rs2)) {
        Some(taken) => taken,
        None => return Err(Fault::InvalidInstruction(instr)),
    };
    Ok(if take_branch {
        Some(add_wrap(pc, sign_extend32(imm, 13)))
    } else {
        None
    })
}

fn execute_jal<M: AddressSpace>(
    regs: &mut RegArray,
    pc: u32,
    mem: &mut M,
    instr: Instruction,
) -> (r: Result<Option<u32>, Fault>)
    requires
        instr is JType,
        instr.wf(),
    ensures
        exec_post(instr, old(regs)@, pc, *old(mem), final(regs)@, *final(mem), r),
{
    let Instruction::JType { opcode: _, rd, imm } = instr else {
        return Err(Fault::InvalidInstruction(instr));
    };
    regs.write(rd, add_wrap(pc, 4));
    Ok(Some(add_wrap(pc, sign_extend32(imm, 21))))
}

fn execute_jalr<M: AddressSpace>(
    regs: &mut RegArray,
    pc: u32,
    mem: &mut M,
    instr: Instruction,
) -> (r: Result<Option<u32>, Fault>)
    requires
        instr matches Instruction::IType { opcode, .. } && opcode == OP_JALR,
        instr.wf(),
    ensures
        exec_post(instr, old(regs)@, pc, *old(mem), final(regs)@, *final(mem), r),
{
    let Instruction::IType { opcode: _, rd, funct3: _, rs1, imm } = instr else {
        return Err(Fault::InvalidInstruction(instr));
    };
    let link = add_wrap(pc, 4);
    // The base register is read before the link is written.
    let base = regs.read(rs1);
    regs.write(rd, link);
    let target_address = add_wrap(base, sign_extend32(imm, 12));
    Ok(Some(target_address & !1u32))  // Clear the least significant bit
}

fn execute_lui<M: AddressSpace>(
    regs: &mut RegArray,
    pc: u32,
    mem: &mut M,
    instr: Instruction,
) -> (r: Result<Option<u32>, Fault>)
    requires
        instr matches Instruction::UType { opcode, .. } && opcode == OP_LUI,
        instr.wf(),
    ensures
        exec_post(instr, old(regs)@, pc, *old(mem), final(regs)@, *final(mem), r),
{
    let Instruction::UType { opcode: _, rd, imm } = instr else {
        return Err(Fault::InvalidInstruction(instr));
    };
    // The immediate already has its low 12 bits cleared by the decoder.
    regs.write(rd, imm);
    Ok(None)
}

fn execute_auipc<M: AddressSpace>(
    regs: &mut RegArray,
    pc: u32,
    mem: &mut M,
    instr: Instruction,
) -> (r: Result<Option<u32>, Fault>)
    requires
        instr matches Instruction::UType { opcode, .. } && opcode != OP_LUI,
        instr.wf(),
    ensures
        exec_post(instr, old(regs)@, pc, *old(mem), final(regs)@, *final(mem), r),
{
    let Instruction::UType { opcode: _, rd, imm } = instr else {
        return Err(Fault::InvalidInstruction(instr));
    };
    regs.write(rd, add_wrap(pc, imm));
    Ok(None)
}

fn execute_envops<M: AddressSpace>(
    regs: &mut RegArray,
    pc: u32,
    mem: &mut M,
    instr: Instruction,
) -> (r: Result<Option<u32>, Fault>)
    requires
        instr matches Instruction::IType { opcode, .. } && opcode == OP_SYSTEM,
        instr.wf(),
    ensures
        exec_post(instr, old(regs)@, pc, *old(mem), final(regs)@, *final(mem), r),
{
    let Instruction::IType { opcode: _, rd: _, funct3: _, rs1: _, imm } = instr else {
        return Err(Fault::InvalidInstruction(instr));
    };
    if imm == 0x000 {
        // ECALL: halts when a0 is 1, and otherwise does nothing
        if regs.read(Regs::A0) == 1 {
            return Err(Fault::Halt);
        }
        Ok(None)
    } else if imm == 0x001 {
        // EBREAK
        Err(Fault::Halt)
    } else {
        Err(Fault::InvalidInstruction(instr))
    }
}

/// Executes a decoded instruction; it gives the target of a jump or a taken branch, and
/// leaves the program counter to the step.
fn execute<M: AddressSpace>(
    regs: &mut RegArray,
    pc: u32,
    mem: &mut M,
    instr: Instruction,
) -> (r: Result<Option<u32>, Fault>)
    requires
        instr.wf(),
        access_served(instr, old(regs)@, pc, *old(mem)),
    ensures
        exec_post(instr, old(regs)@, pc, *old(mem), final(regs)@, *final(mem), r),
{
    match instr {
        Instruction::RType { .. } => execute_arith_reg_reg(regs, pc, mem, instr),
        Instruction::IType { opcode, .. } => {
            if opcode == OP_IMM {
                execute_arith_reg_imm(regs, pc, mem, instr)
            } else if opcode == OP_LOAD {
                execute_load(regs, pc, mem, instr)
            } else if opcode == OP_JALR {
                execute_jalr(regs, pc, mem, instr)
            } else {
                execute_envops(regs, pc, mem, instr)
            }
        },
        Instruction::SType { .. } => execute_store(regs, pc, mem, instr),
        Instruction::BType { .. } => execute_branch(regs, pc, mem, instr),
        Instruction::UType { opcode, .. } => {
            if opcode == OP_LUI {
                execute_lui(regs, pc, mem, instr)
            } else {
                execute_auipc(regs, pc, mem, instr)
            }
        },
        Instruction::JType { .. } => execute_jal(regs, pc, mem, instr),
    }
}

/// One step of a hart: fetch the word at `pc`, decode it, execute it, and go on at the
/// target of a jump or a taken branch, or at the next word.
pub fn step_hart<M: AddressSpace>(regs: &mut RegArray, pc: &mut u32, mem: &mut M) -> (r: Result<
    (),
    Fault,
>)
    requires
        step_served(old(regs)@, *old(pc), *old(mem)),
    ensures
        step_post(old(regs)@, *old(pc), *old(mem), final(regs)@, *final(pc), *final(mem), r),
{
    let ghost regs0 = regs@;
    let ghost pc0 = *pc;
    let ghost mem0 = *mem;
    let fetched = mem.read_32(*pc);
    let ghost m1 = *mem;
    match fetched {
        Err(f) => {
            assert(mem0.read_outcome(m1, pc0, 4, fetched));
            Err(f)
        },
        Ok(word) => {
            assert(mem0.read_outcome(m1, pc0, 4, Ok(word)));
            match decode(word) {
                Err(f) => Err(f),
                Ok(instr) => {
                    let x = execute(regs, *pc, mem, instr);
                    assert(exec_post(instr, regs0, pc0, m1, regs@, *mem, x));
                    match x {
                        Ok(Some(target)) => {
                            *pc = target;
                            Ok(())
                        },
                        Ok(None) => {
                            *pc = add_wrap(*pc, 4);
                            Ok(())
                        },
                        Err(f) => Err(f),
                    }
                },
            }
        },
    }
}

} // verus!
