//! A fixed board: 1 KiB of read-only instruction memory at `0x1000_0000` and 1 KiB of data
//! memory at `0x2000_0000`, both little-endian, and a CPU that borrows its registers and
//! this memory.

use vstd::prelude::*;

use crate::hart::{step_hart, RegArray};
use crate::isa::{Fault, Regs};
use crate::le::{
    from_le, le_bytes, lemma_from_le_small, splice, u16_from_le, u16_to_le, u32_from_le,
    u32_to_le,
};
use crate::memory::{widen16, widen8};
use crate::run::{
    lemma_run_post_extend, lemma_run_post_stopped, lemma_served_after, run_post, served_for,
    stop_of,
};
use crate::semantics::{reg_value, step_post, with_reg};

verus! {

pub const INSTR_MEM_SIZE: u32 = 1024;

pub const DATA_MEM_SIZE: u32 = 1024;

pub const INSTR_MEM_BASE: u32 = 0x1000_0000;

pub const DATA_MEM_BASE: u32 = 0x2000_0000;

pub const INSTR_MEM_END: u32 = INSTR_MEM_BASE + INSTR_MEM_SIZE;

pub const DATA_MEM_END: u32 = DATA_MEM_BASE + DATA_MEM_SIZE;

/// The memory of the fixed board.
#[derive(Debug, Clone, Copy)]
pub struct AddressSpace {
    instr: [u8; 1024],
    data: [u8; 1024],
}

/// Whether `addr` lies in `[base, end)`.
pub open spec fn in_region(addr: u32, base: u32, end: u32) -> bool {
    base <= addr && addr < end
}

impl AddressSpace {
    /// The bytes of instruction memory.
    pub closed spec fn instr_bytes(&self) -> Seq<u8> {
        self.instr@
    }

    /// The bytes of data memory.
    pub closed spec fn data_bytes(&self) -> Seq<u8> {
        self.data@
    }

    pub broadcast proof fn lemma_instr_len(m: AddressSpace)
        ensures
            #[trigger] m.instr_bytes().len() == INSTR_MEM_SIZE,
    {
    }

    /// Two boards with the same bytes are the same board.
    pub proof fn lemma_bytes_determine(a: AddressSpace, b: AddressSpace)
        requires
            a.instr_bytes() == b.instr_bytes(),
            a.data_bytes() == b.data_bytes(),
        ensures
            a == b,
    {
        broadcast use vstd::array::group_array_axioms;

        assert(a.instr =~= b.instr);
        assert(a.data =~= b.data);
    }

    pub broadcast proof fn lemma_data_len(m: AddressSpace)
        ensures
            #[trigger] m.data_bytes().len() == DATA_MEM_SIZE,
    {
    }

    /// Whether all `width` bytes from `addr` lie in `[base, end)`.
    pub open spec fn fits(addr: u32, width: u32, base: u32, end: u32) -> bool {
        in_region(addr, base, end) && addr + width <= end
    }

    /// Reading `width` bytes at `addr`: the little-endian value of the bytes of the region
    /// that holds them all, or a fault when none does (an access that runs past the end of
    /// a region included).
    pub open spec fn read_spec(&self, addr: u32, width: u32) -> Result<u32, Fault> {
        if Self::fits(addr, width, INSTR_MEM_BASE, INSTR_MEM_END) {
            let i = addr - INSTR_MEM_BASE;
            Ok(from_le(self.instr_bytes().subrange(i, i + width)) as u32)
        } else if Self::fits(addr, width, DATA_MEM_BASE, DATA_MEM_END) {
            let i = addr - DATA_MEM_BASE;
            Ok(from_le(self.data_bytes().subrange(i, i + width)) as u32)
        } else {
            Err(Fault::InvalidMemoryAccess(addr))
        }
    }

    /// Writing the low `width` bytes of `value` at `addr`: only data memory takes writes, and
    /// only when it holds all the bytes; anywhere else the write faults and nothing changes.
    pub open spec fn write_spec(
        &self,
        after: AddressSpace,
        addr: u32,
        width: u32,
        value: u32,
        r: Result<(), Fault>,
    ) -> bool {
        &&& after.instr_bytes() == self.instr_bytes()
        &&& if Self::fits(addr, width, DATA_MEM_BASE, DATA_MEM_END) {
            &&& r is Ok
            &&& after.data_bytes() == splice(
                self.data_bytes(),
                addr - DATA_MEM_BASE,
                le_bytes(value as nat, width as nat),
            )
        } else {
            &&& r == Err::<(), Fault>(Fault::InvalidMemoryAccess(addr))
            &&& after.data_bytes() == self.data_bytes()
        }
    }

    /// Both memories zeroed.
    pub fn new() -> (r: Self)
        ensures
            r.instr_bytes() == Seq::new(1024, |i: int| 0u8),
            r.data_bytes() == Seq::new(1024, |i: int| 0u8),
    {
        let r = AddressSpace { instr: [0u8; 1024], data: [0u8; 1024] };
        assert(r.instr_bytes() =~= Seq::new(1024, |i: int| 0u8));
        assert(r.data_bytes() =~= Seq::new(1024, |i: int| 0u8));
        r
    }

    pub fn read_8(&self, addr: u32) -> (r: Result<u8, Fault>)
        ensures
            widen8(r) == self.read_spec(addr, 1),
    {
        proof {
            lemma_from_le_small(self.instr_bytes().subrange(addr - INSTR_MEM_BASE, addr - INSTR_MEM_BASE + 1));
            lemma_from_le_small(self.data_bytes().subrange(addr - DATA_MEM_BASE, addr - DATA_MEM_BASE + 1));
        }
        if addr >= INSTR_MEM_BASE && addr < INSTR_MEM_END {
            Ok(self.instr[(addr - INSTR_MEM_BASE) as usize])
        } else if addr >= DATA_MEM_BASE && addr < DATA_MEM_END {
            Ok(self.data[(addr - DATA_MEM_BASE) as usize])
        } else {
            Err(Fault::InvalidMemoryAccess(addr))
        }
    }

    pub fn read_16(&self, addr: u32) -> (r: Result<u16, Fault>)
        ensures
            widen16(r) == self.read_spec(addr, 2),
    {
        if addr >= INSTR_MEM_BASE && addr < INSTR_MEM_END - 1 {
            let index = (addr - INSTR_MEM_BASE) as usize;
            proof {
                let s = self.instr_bytes().subrange(index as int, index + 2);
                assert(s =~= seq![self.instr[index as int], self.instr[index + 1]]);
            }
            Ok(u16_from_le(self.instr[index], self.instr[index + 1]))
        } else if addr >= DATA_MEM_BASE && addr < DATA_MEM_END - 1 {
            let index = (addr - DATA_MEM_BASE) as usize;
            proof {
                let s = self.data_bytes().subrange(index as int, index + 2);
                assert(s =~= seq![self.data[index as int], self.data[index + 1]]);
            }
            Ok(u16_from_le(self.data[index], self.data[index + 1]))
        } else {
            Err(Fault::InvalidMemoryAccess(addr))
        }
    }

    pub fn read_32(&self, addr: u32) -> (r: Result<u32, Fault>)
        ensures
            r == self.read_spec(addr, 4),
    {
        if addr >= INSTR_MEM_BASE && addr < INSTR_MEM_END - 3 {
            let index = (addr - INSTR_MEM_BASE) as usize;
            proof {
                let s = self.instr_bytes().subrange(index as int, index + 4);
                assert(s =~= seq![
                    self.instr[index as int],
                    self.instr[index + 1],
                    self.instr[index + 2],
                    self.instr[index + 3],
                ]);
            }
            Ok(
                u32_from_le(
                    self.instr[index],
                    self.instr[index + 1],
                    self.instr[index + 2],
                    self.instr[index + 3],
                ),
            )
        } else if addr >= DATA_MEM_BASE && addr < DATA_MEM_END - 3 {
            let index = (addr - DATA_MEM_BASE) as usize;
            proof {
                let s = self.data_bytes().subrange(index as int, index + 4);
                assert(s =~= seq![
                    self.data[index as int],
                    self.data[index + 1],
                    self.data[index + 2],
                    self.data[index + 3],
                ]);
            }
            Ok(
                u32_from_le(
                    self.data[index],
                    self.data[index + 1],
                    self.data[index + 2],
                    self.data[index + 3],
                ),
            )
        } else {
            Err(Fault::InvalidMemoryAccess(addr))
        }
    }

    pub fn write_8(&mut self, addr: u32, value: u8) -> (r: Result<(), Fault>)
        ensures
            old(self).write_spec(*final(self), addr, 1, value as u32, r),
    {
        proof {
            crate::le::lemma_le_bytes_small(value as nat);
        }
        if addr >= INSTR_MEM_BASE && addr < INSTR_MEM_END {
            // Instruction memory is read-only.
            Err(Fault::InvalidMemoryAccess(addr))
        } else if addr >= DATA_MEM_BASE && addr < DATA_MEM_END {
            let index = (addr - DATA_MEM_BASE) as usize;
            self.data[index] = value;
            assert(self.data@ =~= splice(old(self).data@, index as int, seq![value]));
            Ok(())
        } else {
            Err(Fault::InvalidMemoryAccess(addr))
        }
    }

    pub fn write_16(&mut self, addr: u32, value: u16) -> (r: Result<(), Fault>)
        ensures
            old(self).write_spec(*final(self), addr, 2, value as u32, r),
    {
        if addr >= INSTR_MEM_BASE && addr < INSTR_MEM_END {
            // Instruction memory is read-only.
            Err(Fault::InvalidMemoryAccess(addr))
        } else if addr >= DATA_MEM_BASE && addr < DATA_MEM_END - 1 {
            let index = (addr - DATA_MEM_BASE) as usize;
            let (b0, b1) = u16_to_le(value);
            self.data[index] = b0;
            self.data[index + 1] = b1;
            assert(self.data@ =~= splice(old(self).data@, index as int, seq![b0, b1]));
            Ok(())
        } else {
            Err(Fault::InvalidMemoryAccess(addr))
        }
    }

    pub fn write_32(&mut self, addr: u32, value: u32) -> (r: Result<(), Fault>)
        ensures
            old(self).write_spec(*final(self), addr, 4, value, r),
    {
        if addr >= INSTR_MEM_BASE && addr < INSTR_MEM_END {
            // Instruction memory is read-only.
            Err(Fault::InvalidMemoryAccess(addr))
        } else if addr >= DATA_MEM_BASE && addr < DATA_MEM_END - 3 {
            let index = (addr - DATA_MEM_BASE) as usize;
            let (b0, b1, b2, b3) = u32_to_le(value);
            self.data[index] = b0;
            self.data[index + 1] = b1;
            self.data[index + 2] = b2;
            self.data[index + 3] = b3;
            assert(self.data@ =~= splice(old(self).data@, index as int, seq![b0, b1, b2, b3]));
            Ok(())
        } else {
            Err(Fault::InvalidMemoryAccess(addr))
        }
    }
}

impl AddressSpace {
    /// Copies `program` to the start of instruction memory.
    fn load_program(&mut self, program: &[u8])
        requires
            program@.len() <= INSTR_MEM_SIZE,
        ensures
            final(self).instr_bytes() == splice(old(self).instr_bytes(), 0, program@),
            final(self).data_bytes() == old(self).data_bytes(),
    {
        let mut i: usize = 0;
        while i < program.len()
            invariant
                i <= program@.len() <= 1024,
                self.data@ == old(self).data@,
                self.instr@ == splice(old(self).instr@, 0, program@.subrange(0, i as int)),
            decreases program@.len() - i,
        {
            self.instr[i] = program[i];
            i += 1;
            assert(self.instr@ =~= splice(old(self).instr@, 0, program@.subrange(0, i as int)));
        }
        assert(program@.subrange(0, i as int) =~= program@);
    }
}

impl AddressSpace {
    /// Every run on the board is served, for any number of steps.
    pub proof fn lemma_served_for(regs: Seq<u32>, pc: u32, m: AddressSpace, n: nat)
        ensures
            served_for(regs, pc, m, n),
    {
        let p = |m: AddressSpace| true;
        crate::run::lemma_served_for_under(p, regs, pc, m, n);
    }
}

impl Default for AddressSpace {
    fn default() -> (r: Self)
        ensures
            r.instr_bytes() == Seq::new(1024, |i: int| 0u8),
            r.data_bytes() == Seq::new(1024, |i: int| 0u8),
    {
        Self::new()
    }
}

impl crate::memory::AddressSpace for AddressSpace {
    open spec fn spec_instr_start(&self) -> u32 {
        INSTR_MEM_BASE
    }

    open spec fn spec_stack_top(&self) -> u32 {
        DATA_MEM_END
    }

    open spec fn serves_read(&self, addr: u32, width: u32) -> bool {
        true
    }

    open spec fn serves_write(&self, addr: u32, width: u32) -> bool {
        true
    }

    open spec fn read_outcome(&self, after: Self, addr: u32, width: u32, r: Result<u32, Fault>) -> bool {
        after == *self && r == self.read_spec(addr, width)
    }

    open spec fn write_outcome(
        &self,
        after: Self,
        addr: u32,
        width: u32,
        value: u32,
        r: Result<(), Fault>,
    ) -> bool {
        self.write_spec(after, addr, width, value, r)
    }

    fn instr_start(&self) -> (r: u32) {
        INSTR_MEM_BASE
    }

    fn stack_top(&self) -> (r: u32) {
        DATA_MEM_END
    }

    fn read_8(&mut self, addr: u32) -> (r: Result<u8, Fault>) {
        AddressSpace::read_8(&*self, addr)
    }

    fn read_16(&mut self, addr: u32) -> (r: Result<u16, Fault>) {
        AddressSpace::read_16(&*self, addr)
    }

    fn read_32(&mut self, addr: u32) -> (r: Result<u32, Fault>) {
        AddressSpace::read_32(&*self, addr)
    }

    fn write_8(&mut self, addr: u32, value: u8) -> (r: Result<(), Fault>) {
        AddressSpace::write_8(self, addr, value)
    }

    fn write_16(&mut self, addr: u32, value: u16) -> (r: Result<(), Fault>) {
        AddressSpace::write_16(self, addr, value)
    }

    fn write_32(&mut self, addr: u32, value: u32) -> (r: Result<(), Fault>) {
        AddressSpace::write_32(self, addr, value)
    }
}

/// A CPU of the fixed board; it borrows its registers and its memory.
#[derive(Debug)]
pub struct Cpu<'a> {
    pub regs: &'a mut RegArray,
    pub pc: u32,
    pub memory: &'a mut AddressSpace,
}

impl<'a> Cpu<'a> {
    pub fn new(regs: &'a mut RegArray, memory: &'a mut AddressSpace) -> (r: Self)
        ensures
            r.pc == 0,
            *r.regs == *old(regs),
            *r.memory == *old(memory),
    {
        Cpu { regs, pc: 0, memory }
    }

    /// The values of the registers.
    pub open spec fn reg_file(&self) -> Seq<u32> {
        self.regs@
    }

    /// The value of `reg`.
    pub fn read_reg(&self, reg: Regs) -> (r: u32)
        ensures
            r == reg_value(self.reg_file(), reg),
    {
        self.regs.read(reg)
    }

    /// Writes `value` to `reg` (writes to `Zero` are discarded).
    pub fn write_reg(&mut self, reg: Regs, value: u32)
        ensures
            final(self).regs@ == with_reg(old(self).regs@, reg, value),
            final(self).pc == old(self).pc,
            *final(self).memory == *old(self).memory,
    {
        self.regs.write(reg, value);
    }

    /// Puts the CPU at its entry point (the base of instruction memory unless `entry_point`
    /// names another), points the stack pointer at the end of data memory, and copies
    /// `program`, if given, to the start of instruction memory.
    ///
    /// Meant to be called once on a new CPU, as in `Cpu::new(..)` followed by `reset(..)`.
    pub fn reset(&mut self, entry_point: Option<u32>, program: Option<&[u8]>)
        requires
            program matches Some(p) ==> p@.len() <= INSTR_MEM_SIZE,
        ensures
            final(self).pc == match entry_point {
                Some(e) => e,
                None => INSTR_MEM_BASE,
            },
            final(self).regs@ == with_reg(old(self).regs@, Regs::Sp, DATA_MEM_END),
            final(self).memory.instr_bytes() == match program {
                Some(p) => splice(old(self).memory.instr_bytes(), 0, p@),
                None => old(self).memory.instr_bytes(),
            },
            final(self).memory.data_bytes() == old(self).memory.data_bytes(),
    {
        self.pc = match entry_point {
            Some(e) => e,
            None => INSTR_MEM_BASE,
        };
        // The stack grows down from the end of data memory.
        self.regs.write(Regs::Sp, DATA_MEM_END);
        if let Some(program) = program {
            self.memory.load_program(program);
        }
    }

    /// Fetches, decodes and executes one instruction.
    pub fn step(&mut self) -> (r: Result<(), Fault>)
        ensures
            step_post(old(self).regs@,
                old(self).pc,
                *old(self).memory,
                final(self).regs@,
                final(self).pc,
                *final(self).memory,
                r,
            ),
    {
        proof {
            AddressSpace::lemma_served_for(self.regs@, self.pc, *self.memory, 1);
        }
        step_hart(&mut *self.regs, &mut self.pc, &mut *self.memory)
    }

    /// Runs at most `max_steps` steps, until a halt (`EBREAK`, or `ECALL` with `a0` = 1) or a
    /// fault: a halt gives `Ok(())`, a fault is handed back, and `None` means that all
    /// `max_steps` steps succeeded.
    pub fn run_for(&mut self, max_steps: u64) -> (out: Option<Result<(), Fault>>)
        ensures
            run_post(old(self).regs@,
                old(self).pc,
                *old(self).memory,
                max_steps as nat,
                final(self).regs@,
                final(self).pc,
                *final(self).memory,
                stop_of_board_outcome(out),
            ),
            out != Some(Err::<(), Fault>(Fault::Halt)),
    {
        let ghost regs0 = self.regs@;
        let ghost pc0 = self.pc;
        let ghost mem0 = *self.memory;
        let mut k: u64 = 0;
        proof {
            AddressSpace::lemma_served_for(regs0, pc0, mem0, max_steps as nat);
        }
        assert(run_post(regs0, pc0, mem0, 0, self.regs@, self.pc, *self.memory, None));
        while k < max_steps
            invariant
                k <= max_steps,
                regs0 == old(self).regs@,
                pc0 == old(self).pc,
                mem0 == *old(self).memory,
                served_for(regs0, pc0, mem0, max_steps as nat),
                run_post(regs0, pc0, mem0, k as nat, self.regs@, self.pc, *self.memory, None),
            decreases max_steps - k,
        {
            proof {
                lemma_served_after(regs0,
                    pc0,
                    mem0,
                    max_steps as nat,
                    k as nat,
                    self.regs@,
                    self.pc,
                    *self.memory,
                );
            }
            let ghost regs_b = self.regs@;
            let ghost pc_b = self.pc;
            let ghost mem_b = *self.memory;
            let r = self.step();
            proof {
                lemma_run_post_extend(regs0,
                    pc0,
                    mem0,
                    k as nat,
                    regs_b,
                    pc_b,
                    mem_b,
                    self.regs@,
                    self.pc,
                    *self.memory,
                    r,
                );
                if r is Err {
                    lemma_run_post_stopped(regs0,
                        pc0,
                        mem0,
                        (k + 1) as nat,
                        max_steps as nat,
                        self.regs@,
                        self.pc,
                        *self.memory,
                        stop_of(r),
                    );
                }
            }
            match r {
                Ok(_) => {},
                Err(Fault::Halt) => {
                    return Some(Ok(()));
                },
                Err(e) => {
                    return Some(Err(e));
                },
            }
            k += 1;
        }
        None
    }
}

/// The fault that ends a run, read back from what `run_for` returns.
pub open spec fn stop_of_board_outcome(out: Option<Result<(), Fault>>) -> Option<Fault> {
    match out {
        None => None,
        Some(Ok(_)) => Some(Fault::Halt),
        Some(Err(e)) => Some(e),
    }
}

} // verus!
