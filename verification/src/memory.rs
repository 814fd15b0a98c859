//! The memory interface of the emulator, and the memories that serve it.

use vstd::prelude::*;

use crate::isa::Fault;
use crate::le::{from_le, le_bytes, lemma_from_le_small, splice, u16_from_le, u16_to_le, u32_from_le, u32_to_le};

verus! {

/// A read result widened to a 32-bit word.
pub open spec fn widen8(r: Result<u8, Fault>) -> Result<u32, Fault> {
    match r {
        Ok(v) => Ok(v as u32),
        Err(f) => Err(f),
    }
}

/// A read result widened to a 32-bit word.
pub open spec fn widen16(r: Result<u16, Fault>) -> Result<u32, Fault> {
    match r {
        Ok(v) => Ok(v as u32),
        Err(f) => Err(f),
    }
}

/// The address space that a hart sees. All accesses are little-endian, and instruction and
/// data memory may overlap.
///
/// The stack pointer is initialised to `stack_top` (the end of data memory) and the program
/// counter to `instr_start` (the base of instruction memory), unless another entry point is
/// given.
///
/// Each implementation says, through the spec functions below, which accesses it serves and
/// what an access may return and leave behind; reads may change the space (a device register
/// may consume input).
pub trait AddressSpace: Sized {
    /// The first instruction address.
    spec fn spec_instr_start(&self) -> u32;

    /// The first address above the stack.
    spec fn spec_stack_top(&self) -> u32;

    /// Whether a read of `width` bytes at `addr` is within what this space serves.
    spec fn serves_read(&self, addr: u32, width: u32) -> bool;

    /// Whether a write of `width` bytes at `addr` is within what this space serves.
    spec fn serves_write(&self, addr: u32, width: u32) -> bool;

    /// Reading `width` bytes at `addr` may return `r` (zero-extended) and leave `after`.
    spec fn read_outcome(&self, after: Self, addr: u32, width: u32, r: Result<u32, Fault>) -> bool;

    /// Writing the low `width` bytes of `value` at `addr` may return `r` and leave `after`.
    spec fn write_outcome(
        &self,
        after: Self,
        addr: u32,
        width: u32,
        value: u32,
        r: Result<(), Fault>,
    ) -> bool;

    /// First instruction address (base of instruction memory).
    fn instr_start(&self) -> (r: u32)
        ensures
            r == self.spec_instr_start(),
    ;

    /// Stack top: the first address above the stack (end of data memory).
    fn stack_top(&self) -> (r: u32)
        ensures
            r == self.spec_stack_top(),
    ;

    fn read_8(&mut self, addr: u32) -> (r: Result<u8, Fault>)
        requires
            old(self).serves_read(addr, 1),
        ensures
            old(self).read_outcome(*final(self), addr, 1, widen8(r)),
    ;

    fn read_16(&mut self, addr: u32) -> (r: Result<u16, Fault>)
        requires
            old(self).serves_read(addr, 2),
        ensures
            old(self).read_outcome(*final(self), addr, 2, widen16(r)),
    ;

    fn read_32(&mut self, addr: u32) -> (r: Result<u32, Fault>)
        requires
            old(self).serves_read(addr, 4),
        ensures
            old(self).read_outcome(*final(self), addr, 4, r),
    ;

    fn write_8(&mut self, addr: u32, value: u8) -> (r: Result<(), Fault>)
        requires
            old(self).serves_write(addr, 1),
        ensures
            old(self).write_outcome(*final(self), addr, 1, value as u32, r),
    ;

    fn write_16(&mut self, addr: u32, value: u16) -> (r: Result<(), Fault>)
        requires
            old(self).serves_write(addr, 2),
        ensures
            old(self).write_outcome(*final(self), addr, 2, value as u32, r),
    ;

    fn write_32(&mut self, addr: u32, value: u32) -> (r: Result<(), Fault>)
        requires
            old(self).serves_write(addr, 4),
        ensures
            old(self).write_outcome(*final(self), addr, 4, value, r),
    ;
}

/// A memory-mapped device with byte-wide registers.
pub trait MMIO: Sized {
    /// The first address of the device.
    spec fn spec_first(&self) -> u32;

    /// The last address of the device.
    spec fn spec_last(&self) -> u32;

    /// Reading the register at `addr` may return `r` and leave `after`.
    spec fn read_outcome(&self, after: Self, addr: u32, r: Result<u8, Fault>) -> bool;

    /// Writing `value` to the register at `addr` may return `r` and leave `after`.
    spec fn write_outcome(&self, after: Self, addr: u32, value: u8, r: Result<(), Fault>) -> bool;

    /// The addresses that the device answers.
    fn range(&self) -> (r: core::ops::RangeInclusive<u32>)
        ensures
            r@.start == self.spec_first(),
            r@.end == self.spec_last(),
            !r@.exhausted,
    ;

    fn read_8(&mut self, addr: u32) -> (r: Result<u8, Fault>)
        ensures
            old(self).read_outcome(*final(self), addr, r),
    ;

    fn write_8(&mut self, addr: u32, value: u8) -> (r: Result<(), Fault>)
        ensures
            old(self).write_outcome(*final(self), addr, value, r),
    ;
}

/// Whether device `d` answers `addr`.
pub open spec fn answers<D: MMIO>(d: D, addr: u32) -> bool {
    d.spec_first() <= addr <= d.spec_last()
}

/// `k` is the first of `devs` that answers `addr`.
pub open spec fn is_first_answer<D: MMIO>(devs: Seq<D>, addr: u32, k: int) -> bool {
    &&& 0 <= k < devs.len()
    &&& answers(devs[k], addr)
    &&& forall|j: int| 0 <= j < k ==> !answers(#[trigger] devs[j], addr)
}

/// The first of `devs` that answers `addr`, if any does.
pub open spec fn device_for<D: MMIO>(devs: Seq<D>, addr: u32) -> Option<int> {
    if exists|k: int| is_first_answer(devs, addr, k) {
        Some(choose|k: int| is_first_answer(devs, addr, k))
    } else {
        None
    }
}

pub proof fn lemma_first_answer_unique<D: MMIO>(devs: Seq<D>, addr: u32, k: int)
    requires
        is_first_answer(devs, addr, k),
    ensures
        device_for(devs, addr) == Some(k),
{
    let c = choose|k: int| is_first_answer(devs, addr, k);
    assert(is_first_answer(devs, addr, c));
    if c < k {
        assert(!answers(devs[c], addr));
    } else if k < c {
        assert(!answers(devs[k], addr));
    }
}

/// The device of a memory that has none.
#[derive(Debug, Clone, Copy)]
pub struct NoMmio;

impl MMIO for NoMmio {
    open spec fn spec_first(&self) -> u32 {
        1
    }

    open spec fn spec_last(&self) -> u32 {
        0
    }

    open spec fn read_outcome(&self, after: Self, addr: u32, r: Result<u8, Fault>) -> bool {
        r == Err::<u8, Fault>(Fault::InvalidAddress(addr))
    }

    open spec fn write_outcome(&self, after: Self, addr: u32, value: u8, r: Result<(), Fault>) -> bool {
        r == Err::<(), Fault>(Fault::InvalidAddress(addr))
    }

    fn range(&self) -> (r: core::ops::RangeInclusive<u32>) {
        1..=0
    }

    fn read_8(&mut self, addr: u32) -> (r: Result<u8, Fault>) {
        Err(Fault::InvalidAddress(addr))
    }

    fn write_8(&mut self, addr: u32, value: u8) -> (r: Result<(), Fault>) {
        Err(Fault::InvalidAddress(addr))
    }
}

/// A byte read that the first device answering `addr` served: the other devices are as
/// they were, and the answering one may return `r` and become what it is in `devs2`.
pub open spec fn device_read<D: MMIO>(devs: Seq<D>, devs2: Seq<D>, addr: u32, r: Result<u32, Fault>) -> bool {
    let k = device_for(devs, addr)->0;
    &&& devs2.len() == devs.len()
    &&& forall|j: int| 0 <= j < devs.len() && j != k ==> #[trigger] devs2[j] == devs[j]
    &&& exists|d: Result<u8, Fault>| #[trigger] devs[k].read_outcome(devs2[k], addr, d) && r == widen8(d)
}

/// A byte write that the first device answering `addr` served.
pub open spec fn device_write<D: MMIO>(devs: Seq<D>, devs2: Seq<D>, addr: u32, value: u8, r: Result<(), Fault>) -> bool {
    let k = device_for(devs, addr)->0;
    &&& devs2.len() == devs.len()
    &&& forall|j: int| 0 <= j < devs.len() && j != k ==> #[trigger] devs2[j] == devs[j]
    &&& devs[k].write_outcome(devs2[k], addr, value, r)
}

/// Asks the first of `devs` that answers `addr` to read it; `None` when none does.
pub fn dispatch_read_8<D: MMIO>(devs: &mut Vec<D>, addr: u32) -> (r: Option<Result<u8, Fault>>)
    ensures
        device_for(old(devs)@, addr) is None ==> r is None && final(devs)@ == old(devs)@,
        device_for(old(devs)@, addr) is Some ==> (r matches Some(v) && device_read(
            old(devs)@,
            final(devs)@,
            addr,
            widen8(v),
        )),
{
    let ghost d0 = devs@;
    let mut i: usize = 0;
    while i < devs.len()
        invariant
            i <= d0.len(),
            devs@ == d0,
            d0 == old(devs)@,
            forall|j: int| 0 <= j < i ==> !answers(#[trigger] d0[j], addr),
        decreases d0.len() - i,
    {
        if devs[i].range().contains(&addr) {
            proof {
                lemma_first_answer_unique(d0, addr, i as int);
            }
            let r = devs[i].read_8(addr);
            assert(devs@ =~= d0.update(i as int, devs@[i as int]));
            assert(d0[i as int].read_outcome(devs@[i as int], addr, r));
            assert(forall|j: int| 0 <= j < d0.len() && j != i ==> #[trigger] devs@[j] == d0[j]);
            assert(device_for(d0, addr)->0 == i);
            assert(device_read(d0, devs@, addr, widen8(r)));
            return Some(r);
        }
        i += 1;
    }
    assert(device_for(d0, addr) is None) by {
        if exists|k: int| is_first_answer(d0, addr, k) {
            let k = choose|k: int| is_first_answer(d0, addr, k);
            assert(!answers(d0[k], addr));
        }
    }
    None
}

/// Asks the first of `devs` that answers `addr` to write it; `None` when none does.
pub fn dispatch_write_8<D: MMIO>(devs: &mut Vec<D>, addr: u32, value: u8) -> (r: Option<Result<(), Fault>>)
    ensures
        device_for(old(devs)@, addr) is None ==> r is None && final(devs)@ == old(devs)@,
        device_for(old(devs)@, addr) is Some ==> (r matches Some(w) && device_write(
            old(devs)@,
            final(devs)@,
            addr,
            value,
            w,
        )),
{
    let ghost d0 = devs@;
    let mut i: usize = 0;
    while i < devs.len()
        invariant
            i <= d0.len(),
            devs@ == d0,
            d0 == old(devs)@,
            forall|j: int| 0 <= j < i ==> !answers(#[trigger] d0[j], addr),
        decreases d0.len() - i,
    {
        if devs[i].range().contains(&addr) {
            proof {
                lemma_first_answer_unique(d0, addr, i as int);
            }
            let r = devs[i].write_8(addr, value);
            assert(devs@ =~= d0.update(i as int, devs@[i as int]));
            assert(forall|j: int| 0 <= j < d0.len() && j != i ==> #[trigger] devs@[j] == d0[j]);
            return Some(r);
        }
        i += 1;
    }
    assert(device_for(d0, addr) is None) by {
        if exists|k: int| is_first_answer(d0, addr, k) {
            let k = choose|k: int| is_first_answer(d0, addr, k);
            assert(!answers(d0[k], addr));
        }
    }
    None
}

pub const INSTR_MEM_BASE: u32 = 0x1000_0000;

pub const DATA_MEM_BASE: u32 = 0x2000_0000;

/// Whether all `width` bytes from `addr` lie in `[base, base + len)`.
pub open spec fn in_span(addr: u32, width: u32, base: u32, len: nat) -> bool {
    base <= addr && addr + width <= base + len
}

/// A memory made of a read-only instruction slice at `0x1000_0000`, a data slice at
/// `0x2000_0000` and memory-mapped devices that answer byte accesses elsewhere.
#[derive(Debug)]
pub struct SliceMemory<'instr, 'data, D: MMIO> {
    instr: &'instr [u8],
    data: &'data mut [u8],
    mmio: Vec<D>,
}

impl<'instr, 'data, D: MMIO> SliceMemory<'instr, 'data, D> {
    /// The bytes of instruction memory.
    pub closed spec fn instr_view(&self) -> Seq<u8> {
        self.instr@
    }

    /// The bytes of data memory.
    pub closed spec fn data_view(&self) -> Seq<u8> {
        self.data@
    }

    /// The devices, in the order in which they are asked.
    pub closed spec fn devices(&self) -> Seq<D> {
        self.mmio@
    }

    /// The sizes of the two regions keep their ends within the address space, and
    /// instruction memory ends at or below the base of data memory.
    pub open spec fn wf(&self) -> bool {
        &&& self.instr_view().len() <= DATA_MEM_BASE - INSTR_MEM_BASE
        &&& self.data_view().len() <= u32::MAX - DATA_MEM_BASE
    }

    /// Reading `width` bytes (1, 2 or 4) at `addr`: instruction memory first, then data
    /// memory, each only when the whole access fits; byte reads elsewhere go to the first
    /// device that answers the address; anything else faults.
    pub open spec fn read_spec(&self, after: Self, addr: u32, width: u32, r: Result<u32, Fault>) -> bool {
        if in_span(addr, width, INSTR_MEM_BASE, self.instr_view().len()) {
            let i = addr - INSTR_MEM_BASE;
            &&& r == Ok::<u32, Fault>(from_le(self.instr_view().subrange(i, i + width)) as u32)
            &&& after.same_as(*self)
        } else if in_span(addr, width, DATA_MEM_BASE, self.data_view().len()) {
            let i = addr - DATA_MEM_BASE;
            &&& r == Ok::<u32, Fault>(from_le(self.data_view().subrange(i, i + width)) as u32)
            &&& after.same_as(*self)
        } else if width == 1 && device_for(self.devices(), addr) is Some {
            &&& after.instr_view() == self.instr_view()
            &&& after.data_view() == self.data_view()
            &&& device_read(self.devices(), after.devices(), addr, r)
        } else {
            &&& r == Err::<u32, Fault>(Fault::InvalidAddress(addr))
            &&& after.same_as(*self)
        }
    }

    /// Writing the low `width` bytes (1, 2 or 4) of `value` at `addr`: instruction memory
    /// refuses writes, data memory takes them when the whole access fits, byte writes
    /// elsewhere go to the first device that answers the address, and anything else faults.
    pub open spec fn write_spec(
        &self,
        after: Self,
        addr: u32,
        width: u32,
        value: u32,
        r: Result<(), Fault>,
    ) -> bool {
        if in_span(addr, width, INSTR_MEM_BASE, self.instr_view().len()) {
            &&& r == Err::<(), Fault>(Fault::ReadOnlyAddress(addr))
            &&& after.same_as(*self)
        } else if in_span(addr, width, DATA_MEM_BASE, self.data_view().len()) {
            &&& r is Ok
            &&& after.instr_view() == self.instr_view()
            &&& after.data_view() == splice(self.data_view(), addr - DATA_MEM_BASE, le_bytes(value as nat, width as nat))
            &&& after.devices() == self.devices()
        } else if width == 1 && device_for(self.devices(), addr) is Some {
            &&& after.instr_view() == self.instr_view()
            &&& after.data_view() == self.data_view()
            &&& device_write(self.devices(), after.devices(), addr, value as u8, r)
        } else {
            &&& r == Err::<(), Fault>(Fault::InvalidAddress(addr))
            &&& after.same_as(*self)
        }
    }

    #[verifier::type_invariant]
    closed spec fn inv(&self) -> bool {
        self.wf()
    }

    /// Same contents and devices.
    pub open spec fn same_as(&self, other: Self) -> bool {
        &&& self.instr_view() == other.instr_view()
        &&& self.data_view() == other.data_view()
        &&& self.devices() == other.devices()
    }

    /// A memory over `instr` and `data` whose devices are `mmio`; it fails when the
    /// instruction memory would reach into data memory.
    pub fn with_mmio(instr: &'instr [u8], data: &'data mut [u8], mmio: Vec<D>) -> (r: Result<
        Self,
        Fault,
    >)
        requires
            instr@.len() <= u32::MAX - INSTR_MEM_BASE,
            old(data)@.len() <= u32::MAX - DATA_MEM_BASE,
        ensures
            instr@.len() <= DATA_MEM_BASE - INSTR_MEM_BASE <==> r is Ok,
            r is Err ==> r == Err::<Self, Fault>(Fault::MemoryTooSmall),
            r matches Ok(m) ==> m.wf() && m.instr_view() == instr@ && m.data_view() == old(data)@
                && m.devices() == mmio@ && m.spec_instr_start() == INSTR_MEM_BASE
                && m.spec_stack_top() == DATA_MEM_BASE + old(data)@.len(),
    {
        if INSTR_MEM_BASE + instr.len() as u32 <= DATA_MEM_BASE {
            Ok(SliceMemory { instr, data, mmio })
        } else {
            Err(Fault::MemoryTooSmall)
        }
    }

    /// Asks the first device that answers `addr` to write it.
    fn mmio_write_8(&mut self, addr: u32, value: u8) -> (r: Result<(), Fault>)
        requires
            !in_span(addr, 1, INSTR_MEM_BASE, old(self).instr_view().len()),
            !in_span(addr, 1, DATA_MEM_BASE, old(self).data_view().len()),
        ensures
            old(self).write_spec(*final(self), addr, 1, value as u32, r),
    {
        proof {
            use_type_invariant(&*self);
        }
        let mut mmio: Vec<D> = Vec::new();
        core::mem::swap(&mut mmio, &mut self.mmio);
        let r = dispatch_write_8(&mut mmio, addr, value);
        core::mem::swap(&mut mmio, &mut self.mmio);
        match r {
            Some(v) => v,
            None => Err(Fault::InvalidAddress(addr)),
        }
    }

    /// The devices, handed back.
    pub fn into_mmio(self) -> (r: Vec<D>)
        ensures
            r@ == self.devices(),
    {
        self.mmio
    }

    #[inline(always)]
    fn instr_mem_end(&self) -> (r: u32)
        ensures
            r == INSTR_MEM_BASE + self.instr_view().len(),
            self.wf(),
    {
        proof {
            use_type_invariant(self);
        }
        INSTR_MEM_BASE + self.instr.len() as u32
    }

    #[inline(always)]
    fn data_mem_end(&self) -> (r: u32)
        ensures
            r == DATA_MEM_BASE + self.data_view().len(),
            self.wf(),
    {
        proof {
            use_type_invariant(self);
        }
        DATA_MEM_BASE + self.data.len() as u32
    }

    /// Asks the first device that answers `addr` to read it.
    fn mmio_read_8(&mut self, addr: u32) -> (r: Result<u8, Fault>)
        requires
            !in_span(addr, 1, INSTR_MEM_BASE, old(self).instr_view().len()),
            !in_span(addr, 1, DATA_MEM_BASE, old(self).data_view().len()),
        ensures
            old(self).read_spec(*final(self), addr, 1, widen8(r)),
    {
        proof {
            use_type_invariant(&*self);
        }
        let mut mmio: Vec<D> = Vec::new();
        core::mem::swap(&mut mmio, &mut self.mmio);
        let r = dispatch_read_8(&mut mmio, addr);
        core::mem::swap(&mut mmio, &mut self.mmio);
        match r {
            Some(v) => v,
            None => Err(Fault::InvalidAddress(addr)),
        }
    }
}

impl<'instr, 'data, D: MMIO> SliceMemory<'instr, 'data, D> {
    /// Every run over a slice memory is served, for any number of steps.
    pub proof fn lemma_served_for(regs: Seq<u32>, pc: u32, m: Self, n: nat)
        ensures
            crate::run::served_for(regs, pc, m, n),
    {
        let p = |m: Self| true;
        crate::run::lemma_served_for_under(p, regs, pc, m, n);
    }
}

impl<'instr, 'data> SliceMemory<'instr, 'data, NoMmio> {
    /// A memory over `instr` and `data` with no devices; it fails when the instruction
    /// memory would reach into data memory.
    pub fn new(instr: &'instr [u8], data: &'data mut [u8]) -> (r: Result<Self, Fault>)
        requires
            instr@.len() <= u32::MAX - INSTR_MEM_BASE,
            old(data)@.len() <= u32::MAX - DATA_MEM_BASE,
        ensures
            instr@.len() <= DATA_MEM_BASE - INSTR_MEM_BASE <==> r is Ok,
            r is Err ==> r == Err::<Self, Fault>(Fault::MemoryTooSmall),
            r matches Ok(m) ==> m.wf() && m.instr_view() == instr@ && m.data_view() == old(data)@
                && m.devices().len() == 0 && m.spec_instr_start() == INSTR_MEM_BASE
                && m.spec_stack_top() == DATA_MEM_BASE + old(data)@.len(),
    {
        Self::with_mmio(instr, data, Vec::new())
    }
}

/// `Vec::into_boxed_slice`: the same elements in a box of exactly their number.
#[verifier::external_body]
fn into_boxed_slice(v: Vec<u8>) -> (r: Box<[u8]>)
    ensures
        r@ == v@,
{
    v.into_boxed_slice()
}

/// `Box<[u8; N]>::try_from(Box<[u8]>)`: the same box seen as an array when its length is
/// `N`, and nothing otherwise.
#[verifier::external_body]
fn boxed_slice_as_array<const N: usize>(b: Box<[u8]>) -> (r: Option<Box<[u8; N]>>)
    ensures
        r is Some <==> b@.len() == N,
        r matches Some(a) ==> a@ == b@,
{
    b.try_into().ok()
}

/// `size` zero bytes on the heap.
#[inline(always)]
pub fn create_boxed_slice(size: usize) -> (r: Box<[u8]>)
    ensures
        r@ == Seq::new(size as nat, |i: int| 0u8),
{
    into_boxed_slice(vec![0u8; size])
}

/// `N` zero bytes on the heap, as an array; they are never on the stack.
#[inline(always)]
pub fn create_boxed_array<const N: usize>() -> (r: Box<[u8; N]>)
    ensures
        r@ == Seq::new(N as nat, |i: int| 0u8),
{
    let b = create_boxed_slice(N);
    boxed_slice_as_array::<N>(b).unwrap()
}

impl<'instr, 'data, D: MMIO> AddressSpace for SliceMemory<'instr, 'data, D> {
    open spec fn spec_instr_start(&self) -> u32 {
        INSTR_MEM_BASE
    }

    open spec fn spec_stack_top(&self) -> u32 {
        (DATA_MEM_BASE + self.data_view().len()) as u32
    }

    open spec fn serves_read(&self, addr: u32, width: u32) -> bool {
        true
    }

    open spec fn serves_write(&self, addr: u32, width: u32) -> bool {
        true
    }

    open spec fn read_outcome(&self, after: Self, addr: u32, width: u32, r: Result<u32, Fault>) -> bool {
        self.read_spec(after, addr, width, r)
    }

    open spec fn write_outcome(
        &self,
        after: Self,
        addr: u32,
        width: u32,
        value: u32,
        r: Result<(), Fault>,
    ) -> bool {
        self.write_spec(after, addr, width, value, r)
    }

    #[inline(always)]
    fn instr_start(&self) -> (r: u32) {
        INSTR_MEM_BASE
    }

    #[inline(always)]
    fn stack_top(&self) -> (r: u32) {
        self.data_mem_end()
    }

    fn read_8(&mut self, addr: u32) -> (r: Result<u8, Fault>) {
        let instr_end = self.instr_mem_end();
        let data_end = self.data_mem_end();
        if addr >= INSTR_MEM_BASE && addr < instr_end {
            let i = (addr - INSTR_MEM_BASE) as usize;
            proof {
                lemma_from_le_small(self.instr_view().subrange(i as int, i + 1));
            }
            Ok(self.instr[i])
        } else if addr >= DATA_MEM_BASE && addr < data_end {
            let i = (addr - DATA_MEM_BASE) as usize;
            proof {
                lemma_from_le_small(self.data_view().subrange(i as int, i + 1));
            }
            Ok(self.data[i])
        } else {
            self.mmio_read_8(addr)
        }
    }

    fn read_16(&mut self, addr: u32) -> (r: Result<u16, Fault>) {
        let instr_end = self.instr_mem_end();
        let data_end = self.data_mem_end();
        if addr >= INSTR_MEM_BASE && addr < instr_end - 1 {
            // -1 because 2 bytes are read
            let i = (addr - INSTR_MEM_BASE) as usize;
            assert(self.instr_view().subrange(i as int, i + 2) =~= seq![self.instr@[i as int], self.instr@[i + 1]]);
            Ok(u16_from_le(self.instr[i], self.instr[i + 1]))
        } else if addr >= DATA_MEM_BASE && addr < data_end - 1 {
            let i = (addr - DATA_MEM_BASE) as usize;
            assert(self.data_view().subrange(i as int, i + 2) =~= seq![self.data@[i as int], self.data@[i + 1]]);
            Ok(u16_from_le(self.data[i], self.data[i + 1]))
        } else {
            Err(Fault::InvalidAddress(addr))
        }
    }

    fn read_32(&mut self, addr: u32) -> (r: Result<u32, Fault>) {
        let instr_end = self.instr_mem_end();
        let data_end = self.data_mem_end();
        if addr >= INSTR_MEM_BASE && addr < instr_end - 3 {
            // -3 because 4 bytes are read
            let i = (addr - INSTR_MEM_BASE) as usize;
            assert(self.instr_view().subrange(i as int, i + 4) =~= seq![
                self.instr@[i as int],
                self.instr@[i + 1],
                self.instr@[i + 2],
                self.instr@[i + 3],
            ]);
            Ok(u32_from_le(self.instr[i], self.instr[i + 1], self.instr[i + 2], self.instr[i + 3]))
        } else if addr >= DATA_MEM_BASE && addr < data_end - 3 {
            let i = (addr - DATA_MEM_BASE) as usize;
            assert(self.data_view().subrange(i as int, i + 4) =~= seq![
                self.data@[i as int],
                self.data@[i + 1],
                self.data@[i + 2],
                self.data@[i + 3],
            ]);
            Ok(u32_from_le(self.data[i], self.data[i + 1], self.data[i + 2], self.data[i + 3]))
        } else {
            Err(Fault::InvalidAddress(addr))
        }
    }

    fn write_8(&mut self, addr: u32, value: u8) -> (r: Result<(), Fault>) {
        let instr_end = self.instr_mem_end();
        let data_end = self.data_mem_end();
        if addr >= INSTR_MEM_BASE && addr < instr_end {
            // Instruction memory is read-only.
            Err(Fault::ReadOnlyAddress(addr))
        } else if addr >= DATA_MEM_BASE && addr < data_end {
            let i = (addr - DATA_MEM_BASE) as usize;
            proof {
                crate::le::lemma_le_bytes_small(value as nat);
            }
            self.data[i] = value;
            assert(self.data_view() =~= splice(old(self).data_view(), i as int, seq![value]));
            Ok(())
        } else {
            self.mmio_write_8(addr, value)
        }
    }

    fn write_16(&mut self, addr: u32, value: u16) -> (r: Result<(), Fault>) {
        let instr_end = self.instr_mem_end();
        let data_end = self.data_mem_end();
        if addr >= INSTR_MEM_BASE && addr < instr_end - 1 {
            // Instruction memory is read-only.
            Err(Fault::ReadOnlyAddress(addr))
        } else if addr >= DATA_MEM_BASE && addr < data_end - 1 {
            let i = (addr - DATA_MEM_BASE) as usize;
            let (b0, b1) = u16_to_le(value);
            self.data[i] = b0;
            self.data[i + 1] = b1;
            assert(self.data_view() =~= splice(old(self).data_view(), i as int, seq![b0, b1]));
            Ok(())
        } else {
            Err(Fault::InvalidAddress(addr))
        }
    }

    fn write_32(&mut self, addr: u32, value: u32) -> (r: Result<(), Fault>) {
        let instr_end = self.instr_mem_end();
        let data_end = self.data_mem_end();
        if addr >= INSTR_MEM_BASE && addr < instr_end - 3 {
            // Instruction memory is read-only.
            Err(Fault::ReadOnlyAddress(addr))
        } else if addr >= DATA_MEM_BASE && addr < data_end - 3 {
            let i = (addr - DATA_MEM_BASE) as usize;
            let (b0, b1, b2, b3) = u32_to_le(value);
            self.data[i] = b0;
            self.data[i + 1] = b1;
            self.data[i + 2] = b2;
            self.data[i + 3] = b3;
            assert(self.data_view() =~= splice(old(self).data_view(), i as int, seq![b0, b1, b2, b3]));
            Ok(())
        } else {
            Err(Fault::InvalidAddress(addr))
        }
    }
}

} // verus!
