//! The standard input/output device, whose byte registers sit at `0xA000_0000`:
//!
//! | Offset | Name   | Description       | Access |
//! |:------:|:-------|:------------------|:------:|
//! | 0x0    | INPUT  | Input characters  | read   |
//! | 0x1    | OUTPUT | Output characters | write  |
//! | 0x2    | FLAGS  | Flags register    | both   |
//!
//! FLAGS: bit 0 is the input lock and bit 1 the output lock (1 while held; write 1 to take
//! it, 0 to let it go), and writing 1 to bit 2 flushes the output. This module decides what
//! each access does; the streams themselves are read and written through `StdStreams`.

use vstd::prelude::*;

use crate::isa::Fault;
use crate::memory::MMIO;

verus! {

pub const STDIO_BASE: u32 = 0xA000_0000;

pub const INPUT_OFFSET: u32 = 0x0;

pub const OUTPUT_OFFSET: u32 = 0x1;

pub const FLAGS_OFFSET: u32 = 0x2;

/// What a read of a register of the device asks for.
#[derive(Debug, Clone, Copy, PartialEq, Eq, Structural)]
pub enum StdioRead {
    /// Read one byte of input.
    Input,
    /// This value, with nothing else to do.
    Value(u8),
    /// This fault.
    Refused(Fault),
}

/// What a write to FLAGS does to one lock.
#[derive(Debug, Clone, Copy, PartialEq, Eq, Structural)]
pub enum LockChange {
    Keep,
    Acquire,
    Release,
}

/// What a write to a register of the device asks for.
#[derive(Debug, Clone, Copy, PartialEq, Eq, Structural)]
pub enum StdioWrite {
    /// Write this byte to the output.
    Output(u8),
    /// Change the input and the output lock, then flush the output if `flush`.
    Flags { input: LockChange, output: LockChange, flush: bool },
    /// This fault.
    Refused(Fault),
}

/// The standard streams that the device reads and writes. Nothing is assumed of what they
/// do: each call may succeed or fail.
pub trait StdStreams: Sized {
    /// The process's standard input and output.
    fn open() -> Self;

    /// One byte of input; `None` when it cannot be read.
    fn read_input(&mut self) -> Option<u8>;

    /// Writes one byte of output; `false` when that fails.
    fn write_output(&mut self, byte: u8) -> bool;

    /// Takes the lock on the input.
    fn lock_input(&mut self);

    /// Lets the lock on the input go.
    fn unlock_input(&mut self);

    /// Takes the lock on the output.
    fn lock_output(&mut self);

    /// Lets the lock on the output go.
    fn unlock_output(&mut self);

    /// Flushes the output; `false` when that fails.
    fn flush_output(&mut self) -> bool;
}

/// The standard input/output device: the state of its locks and its streams.
#[derive(Debug)]
pub struct Stdio<S: StdStreams> {
    pub input_locked: bool,
    pub output_locked: bool,
    pub streams: S,
}

/// The register offset of `addr`, if `addr` is at or above the device's base.
pub open spec fn offset_of(addr: u32) -> Option<u32> {
    if addr >= STDIO_BASE {
        Some((addr - STDIO_BASE) as u32)
    } else {
        None
    }
}

/// What to do to a lock that is `held` when the program wants it held or not.
pub open spec fn lock_change(held: bool, wanted: bool) -> LockChange {
    if wanted && !held {
        LockChange::Acquire
    } else if !wanted && held {
        LockChange::Release
    } else {
        LockChange::Keep
    }
}

fn change_lock(held: bool, wanted: bool) -> (r: LockChange)
    ensures
        r == lock_change(held, wanted),
{
    if wanted && !held {
        LockChange::Acquire
    } else if !wanted && held {
        LockChange::Release
    } else {
        LockChange::Keep
    }
}

impl<S: StdStreams> Stdio<S> {
    /// The device over the opened standard streams, with both locks free.
    pub fn new() -> (r: Self)
        ensures
            !r.input_locked,
            !r.output_locked,
    {
        Stdio { input_locked: false, output_locked: false, streams: S::open() }
    }

    /// The value of FLAGS: bit 1 the output lock, bit 0 the input lock.
    pub open spec fn flags_spec(&self) -> u8 {
        ((if self.output_locked {
            2int
        } else {
            0int
        }) + (if self.input_locked {
            1int
        } else {
            0int
        })) as u8
    }

    /// What a read at `addr` asks for: INPUT reads a byte, OUTPUT is write-only, FLAGS
    /// gives the locks, and any other address faults.
    pub open spec fn read_decision(&self, addr: u32) -> StdioRead {
        match offset_of(addr) {
            Some(o) => if o == INPUT_OFFSET {
                StdioRead::Input
            } else if o == OUTPUT_OFFSET {
                StdioRead::Refused(Fault::WriteOnlyRegister)
            } else if o == FLAGS_OFFSET {
                StdioRead::Value(self.flags_spec())
            } else {
                StdioRead::Refused(Fault::InvalidAddress(addr))
            },
            None => StdioRead::Refused(Fault::InvalidAddress(addr)),
        }
    }

    /// What a write of `value` at `addr` asks for: INPUT is read-only, OUTPUT writes the
    /// byte, FLAGS takes or lets go of the input lock as bit 0 says and of the output lock as
    /// bit 1 says, and flushes when bit 2 is set; the other bits are ignored. Any other
    /// address faults.
    pub open spec fn write_decision(&self, addr: u32, value: u8) -> StdioWrite {
        match offset_of(addr) {
            Some(o) => if o == INPUT_OFFSET {
                StdioWrite::Refused(Fault::ReadOnlyRegister)
            } else if o == OUTPUT_OFFSET {
                StdioWrite::Output(value)
            } else if o == FLAGS_OFFSET {
                StdioWrite::Flags {
                    input: lock_change(self.input_locked, value & 1 != 0),
                    output: lock_change(self.output_locked, value & 2 != 0),
                    flush: value & 4 != 0,
                }
            } else {
                StdioWrite::Refused(Fault::InvalidAddress(addr))
            },
            None => StdioWrite::Refused(Fault::InvalidAddress(addr)),
        }
    }

    /// The state of the input lock after a write of `value` at `addr`.
    pub open spec fn input_locked_after(&self, addr: u32, value: u8) -> bool {
        if offset_of(addr) == Some(FLAGS_OFFSET) {
            value & 1 != 0
        } else {
            self.input_locked
        }
    }

    /// The state of the output lock after a write of `value` at `addr`.
    pub open spec fn output_locked_after(&self, addr: u32, value: u8) -> bool {
        if offset_of(addr) == Some(FLAGS_OFFSET) {
            value & 2 != 0
        } else {
            self.output_locked
        }
    }

    /// The first address of the device.
    pub fn first(&self) -> (r: u32)
        ensures
            r == STDIO_BASE,
    {
        STDIO_BASE
    }

    /// The last address of the device.
    pub fn last(&self) -> (r: u32)
        ensures
            r == STDIO_BASE + FLAGS_OFFSET,
    {
        STDIO_BASE + FLAGS_OFFSET
    }

    /// What a read at `addr` asks for.
    pub fn read_register(&self, addr: u32) -> (r: StdioRead)
        ensures
            r == self.read_decision(addr),
    {
        match addr.checked_sub(STDIO_BASE) {
            Some(o) => if o == INPUT_OFFSET {
                StdioRead::Input
            } else if o == OUTPUT_OFFSET {
                StdioRead::Refused(Fault::WriteOnlyRegister)
            } else if o == FLAGS_OFFSET {
                let out: u8 = if self.output_locked {
                    2
                } else {
                    0
                };
                let inp: u8 = if self.input_locked {
                    1
                } else {
                    0
                };
                StdioRead::Value(out + inp)
            } else {
                StdioRead::Refused(Fault::InvalidAddress(addr))
            },
            None => StdioRead::Refused(Fault::InvalidAddress(addr)),
        }
    }

    /// What a write of `value` at `addr` asks for; the locks are updated here, the streams
    /// are left alone.
    pub fn write_register(&mut self, addr: u32, value: u8) -> (r: StdioWrite)
        ensures
            r == old(self).write_decision(addr, value),
            final(self).input_locked == old(self).input_locked_after(addr, value),
            final(self).output_locked == old(self).output_locked_after(addr, value),
            final(self).streams == old(self).streams,
    {
        match addr.checked_sub(STDIO_BASE) {
            Some(o) => if o == INPUT_OFFSET {
                StdioWrite::Refused(Fault::ReadOnlyRegister)
            } else if o == OUTPUT_OFFSET {
                StdioWrite::Output(value)
            } else if o == FLAGS_OFFSET {
                let want_input = value & 1 != 0;
                let want_output = value & 2 != 0;
                let input = change_lock(self.input_locked, want_input);
                let output = change_lock(self.output_locked, want_output);
                self.input_locked = want_input;
                self.output_locked = want_output;
                StdioWrite::Flags { input, output, flush: value & 4 != 0 }
            } else {
                StdioWrite::Refused(Fault::InvalidAddress(addr))
            },
            None => StdioWrite::Refused(Fault::InvalidAddress(addr)),
        }
    }
}

impl<S: StdStreams> MMIO for Stdio<S> {
    open spec fn spec_first(&self) -> u32 {
        STDIO_BASE
    }

    open spec fn spec_last(&self) -> u32 {
        (STDIO_BASE + FLAGS_OFFSET) as u32
    }

    /// The locks stay; reading INPUT gives a byte or `IOError`, whatever the input does;
    /// anything else gives what `read_decision` says and changes nothing.
    open spec fn read_outcome(&self, after: Self, addr: u32, r: Result<u8, Fault>) -> bool {
        &&& after.input_locked == self.input_locked
        &&& after.output_locked == self.output_locked
        &&& match self.read_decision(addr) {
            StdioRead::Input => r is Ok || r == Err::<u8, Fault>(Fault::IOError),
            StdioRead::Value(v) => r == Ok::<u8, Fault>(v) && after.streams == self.streams,
            StdioRead::Refused(f) => r == Err::<u8, Fault>(f) && after.streams == self.streams,
        }
    }

    /// The locks change as `input_locked_after` and `output_locked_after` say; writing
    /// OUTPUT, or FLAGS with a flush, may fail with `IOError`; a refused write changes
    /// nothing.
    open spec fn write_outcome(&self, after: Self, addr: u32, value: u8, r: Result<(), Fault>) -> bool {
        &&& after.input_locked == self.input_locked_after(addr, value)
        &&& after.output_locked == self.output_locked_after(addr, value)
        &&& match self.write_decision(addr, value) {
            StdioWrite::Output(_) => r is Ok || r == Err::<(), Fault>(Fault::IOError),
            StdioWrite::Flags { flush, .. } => r is Ok || (flush && r == Err::<(), Fault>(
                Fault::IOError,
            )),
            StdioWrite::Refused(f) => r == Err::<(), Fault>(f) && after.streams == self.streams,
        }
    }

    fn range(&self) -> (r: core::ops::RangeInclusive<u32>) {
        STDIO_BASE..=STDIO_BASE + FLAGS_OFFSET
    }

    fn read_8(&mut self, addr: u32) -> (r: Result<u8, Fault>) {
        match self.read_register(addr) {
            StdioRead::Input => match self.streams.read_input() {
                Some(b) => Ok(b),
                None => Err(Fault::IOError),
            },
            StdioRead::Value(v) => Ok(v),
            StdioRead::Refused(f) => Err(f),
        }
    }

    fn write_8(&mut self, addr: u32, value: u8) -> (r: Result<(), Fault>) {
        match self.write_register(addr, value) {
            StdioWrite::Output(b) => if self.streams.write_output(b) {
                Ok(())
            } else {
                Err(Fault::IOError)
            },
            StdioWrite::Flags { input, output, flush } => {
                match input {
                    LockChange::Acquire => self.streams.lock_input(),
                    LockChange::Release => self.streams.unlock_input(),
                    LockChange::Keep => {},
                }
                match output {
                    LockChange::Acquire => self.streams.lock_output(),
                    LockChange::Release => self.streams.unlock_output(),
                    LockChange::Keep => {},
                }
                if flush && !self.streams.flush_output() {
                    Err(Fault::IOError)
                } else {
                    Ok(())
                }
            },
            StdioWrite::Refused(f) => Err(f),
        }
    }
}

impl<S: StdStreams> Default for Stdio<S> {
    fn default() -> (r: Self)
        ensures
            !r.input_locked,
            !r.output_locked,
    {
        Self::new()
    }
}

} // verus!
