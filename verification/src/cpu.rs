//! A CPU over any address space: its own registers and program counter, and a borrowed
//! memory.

use vstd::prelude::*;

use crate::hart::{step_hart, RegArray};
use crate::isa::{Fault, Regs};
use crate::memory::AddressSpace;
use crate::run::{lemma_run_post_extend, lemma_served_after, run_post, served_for};
use crate::semantics::{reg_value, step_post, step_served, with_reg};

verus! {

/// The fault that ends a run, read back from what `run_for` returns.
pub open spec fn stop_of_outcome(out: Option<Result<(u32, u32), Fault>>) -> Option<Fault> {
    match out {
        None => None,
        Some(Ok(_)) => Some(Fault::Halt),
        Some(Err(e)) => Some(e),
    }
}

/// A CPU with a standard hart over the memory `M`.
#[derive(Debug)]
pub struct Cpu<'m, M: AddressSpace> {
    pub regs: RegArray,
    pub pc: u32,
    pub memory: &'m mut M,
}

impl<'m, M: AddressSpace> Cpu<'m, M> {
    /// A CPU with all registers and the program counter zero.
    pub fn new(memory: &'m mut M) -> (r: Self)
        ensures
            r.regs@ == Seq::new(32, |i: int| 0u32),
            r.pc == 0,
            *r.memory == *old(memory),
    {
        Cpu { regs: RegArray::new(), pc: 0, memory }
    }

    /// The value of `reg`.
    pub fn read_reg(&self, reg: Regs) -> (r: u32)
        ensures
            r == reg_value(self.regs@, reg),
    {
        self.regs.read(reg)
    }

    /// Writes `value` to `reg` (writes to `Zero` are discarded).
    pub fn write_reg(&mut self, reg: Regs, value: u32)
        ensures
            final(self).regs@ == with_reg(old(self).regs@, reg, value),
            final(self).pc == old(self).pc,
            *final(self).memory == *old(self).memory,
    {
        self.regs.write(reg, value);
    }

    /// Puts the program counter at `entry_point`, or at the start of instruction memory
    /// when none is given, and the stack pointer at the top of the stack.
    pub fn reset(&mut self, entry_point: Option<u32>) -> (r: Result<(), Fault>)
        ensures
            r is Ok,
            final(self).pc == match entry_point {
                Some(e) => e,
                None => old(self).memory.spec_instr_start(),
            },
            final(self).regs@ == with_reg(old(self).regs@, Regs::Sp, old(self).memory.spec_stack_top()),
            *final(self).memory == *old(self).memory,
    {
        self.pc = match entry_point {
            Some(e) => e,
            None => self.memory.instr_start(),
        };
        let top = self.memory.stack_top();
        self.regs.write(Regs::Sp, top);
        Ok(())
    }

    /// Fetches, decodes and executes one instruction.
    pub fn step(&mut self) -> (r: Result<(), Fault>)
        requires
            step_served(old(self).regs@, old(self).pc, *old(self).memory),
        ensures
            step_post(old(self).regs@,
                old(self).pc,
                *old(self).memory,
                final(self).regs@,
                final(self).pc,
                *final(self).memory,
                r,
            ),
    {
        step_hart(&mut self.regs, &mut self.pc, &mut *self.memory)
    }

    /// Runs at most `max_steps` steps, until a halt (`EBREAK`, or `ECALL` with `a0` = 1) or a
    /// fault. A halt gives `a0` and `a1`; a fault is handed back; `None` means that all
    /// `max_steps` steps succeeded.
    pub fn run_for(&mut self, max_steps: u64) -> (out: Option<Result<(u32, u32), Fault>>)
        requires
            served_for(old(self).regs@, old(self).pc, *old(self).memory, max_steps as nat),
        ensures
            run_post(old(self).regs@,
                old(self).pc,
                *old(self).memory,
                max_steps as nat,
                final(self).regs@,
                final(self).pc,
                *final(self).memory,
                stop_of_outcome(out),
            ),
            out matches Some(Ok((a0, a1))) ==> a0 == reg_value(final(self).regs@, Regs::A0) && a1
                == reg_value(final(self).regs@, Regs::A1),
            out != Some(Err::<(u32, u32), Fault>(Fault::Halt)),
    {
        let ghost regs0 = self.regs@;
        let ghost pc0 = self.pc;
        let ghost mem0 = *self.memory;
        let mut k: u64 = 0;
        assert(run_post(regs0, pc0, mem0, 0, self.regs@, self.pc, *self.memory, None));
        while k < max_steps
            invariant
                k <= max_steps,
                regs0 == old(self).regs@,
                pc0 == old(self).pc,
                mem0 == *old(self).memory,
                served_for(regs0, pc0, mem0, max_steps as nat),
                run_post(regs0, pc0, mem0, k as nat, self.regs@, self.pc, *self.memory, None),
            decreases max_steps - k,
        {
            proof {
                lemma_served_after(regs0,
                    pc0,
                    mem0,
                    max_steps as nat,
                    k as nat,
                    self.regs@,
                    self.pc,
                    *self.memory,
                );
            }
            let ghost regs_b = self.regs@;
            let ghost pc_b = self.pc;
            let ghost mem_b = *self.memory;
            let r = self.step();
            proof {
                lemma_run_post_extend(regs0,
                    pc0,
                    mem0,
                    k as nat,
                    regs_b,
                    pc_b,
                    mem_b,
                    self.regs@,
                    self.pc,
                    *self.memory,
                    r,
                );
            }
            proof {
                if r is Err {
                    crate::run::lemma_run_post_stopped(regs0,
                        pc0,
                        mem0,
                        (k + 1) as nat,
                        max_steps as nat,
                        self.regs@,
                        self.pc,
                        *self.memory,
                        crate::run::stop_of(r),
                    );
                }
            }
            match r {
                Ok(_) => {},
                Err(Fault::Halt) => {
                    let a0 = self.read_reg(Regs::A0);
                    let a1 = self.read_reg(Regs::A1);
                    return Some(Ok((a0, a1)));
                },
                Err(e) => {
                    return Some(Err(e));
                },
            }
            k += 1;
        }
        None
    }
}

} // verus!
