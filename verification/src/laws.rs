//! Properties of the emulator as a whole: of the register file, of steps and runs, of the
//! memories, and of the byte order.

use vstd::prelude::*;

use crate::bits::{bit, low_mask, sign_extend_spec};
use crate::decode::decode_spec;
use crate::isa::{Fault, Regs};
use crate::board;
use crate::cli::reverse_words;
use crate::object_memory::{first_hit, search_ok, segment_spans, writable_spans, ObjectMemory, Place, STACK_MEM_BASE};
use crate::le::{from_le, le_bytes, lemma_from_le_bytes, lemma_from_le_small, splice};
use crate::memory::{in_span, AddressSpace, SliceMemory, DATA_MEM_BASE, INSTR_MEM_BASE, MMIO};
use vstd::arithmetic::power::pow;
use crate::run::{run_post, stop_of};
use crate::stdio::{StdStreams, Stdio, StdioRead, FLAGS_OFFSET, STDIO_BASE};
use crate::semantics::{
    effect, exec_post, load_done, next_pc, store_result, reg_value, step_post, step_result, with_reg, Effect,
};

verus! {

/// Register `Zero` reads 0 whatever is written to it; any other register reads back the
/// last value written to it, and a write to one register leaves the others as they were.
pub proof fn law_register_read_after_write(regs: Seq<u32>, r: Regs, v: u32, other: Regs)
    requires
        regs.len() == 32,
    ensures
        reg_value(with_reg(regs, r, v), Regs::Zero) == 0,
        r != Regs::Zero ==> reg_value(with_reg(regs, r, v), r) == v,
        other != r ==> reg_value(with_reg(regs, r, v), other) == reg_value(regs, other),
{
    if other != r && other != Regs::Zero && r != Regs::Zero {
        assert(other.spec_index() != r.spec_index());
    }
}

/// Register numbers and register names correspond one to one.
pub proof fn law_register_numbers(r: Regs, n: u32)
    ensures
        Regs::spec_from(r.spec_index() as u32) == r,
        r.spec_index() < 32,
        n < 32 ==> Regs::spec_from(n).spec_index() == n,
{
}

/// A step that faults (including a halt) leaves the registers and the program counter as
/// they were.
pub proof fn law_fault_keeps_hart<M: AddressSpace>(
    regs: Seq<u32>,
    pc: u32,
    mem: M,
    regs2: Seq<u32>,
    pc2: u32,
    mem2: M,
    f: Fault,
)
    requires
        step_post(regs, pc, mem, regs2, pc2, mem2, Err(f)),
    ensures
        regs2 == regs,
        pc2 == pc,
{
    let r = Err::<(), Fault>(f);
    let (f1, m1) = choose|fetched: Result<u32, Fault>, m1: M|
        #[trigger] mem.read_outcome(m1, pc, 4, fetched) && match fetched {
            Err(e) => regs2 == regs && pc2 == pc && mem2 == m1 && r == Err::<(), Fault>(e),
            Ok(w) => match decode_spec(w) {
                Err(e) => regs2 == regs && pc2 == pc && mem2 == m1 && r == Err::<(), Fault>(e),
                Ok(i) => exists|x: Result<Option<u32>, Fault>|
                    #[trigger] exec_post(i, regs, pc, m1, regs2, mem2, x) && pc2 == next_pc(pc, x)
                        && r == step_result(x),
            },
        };
    if let Ok(w) = f1 {
        if let Ok(i) = decode_spec(w) {
            let x1 = choose|x: Result<Option<u32>, Fault>|
                #[trigger] exec_post(i, regs, pc, m1, regs2, mem2, x) && pc2 == next_pc(pc, x)
                    && r == step_result(x);
            match effect(i, regs, pc) {
                Effect::Load { addr, width, funct3, rd } => {
                    let v1 = choose|v: Result<u32, Fault>|
                        #[trigger] m1.read_outcome(mem2, addr, width, v) && load_done(
                            v,
                            funct3,
                            rd,
                            regs,
                            regs2,
                            x1,
                        );
                    assert(m1.read_outcome(mem2, addr, width, v1));
                },
                Effect::Store { addr, width, value } => {
                    let w1 = choose|wr: Result<(), Fault>|
                        #[trigger] m1.write_outcome(mem2, addr, width, value, wr) && regs2 == regs
                            && x1 == store_result(wr);
                    assert(m1.write_outcome(mem2, addr, width, value, w1));
                },
                _ => {},
            }
        }
    }
}

/// Sign-extending all 32 bits changes nothing; sign-extending twice is sign-extending once;
/// and a value whose sign bit is clear keeps only its low bits.
pub proof fn law_sign_extend(data: u32, size: u32)
    requires
        0 < size <= 32,
    ensures
        sign_extend_spec(data, 32) == data,
        sign_extend_spec(sign_extend_spec(data, size), size) == sign_extend_spec(data, size),
        !bit(data, (size - 1) as u32) ==> sign_extend_spec(data, size) == data & low_mask(size),
{
    assert(sign_extend_spec(data, 32) == data) by (bit_vector);
    assert(sign_extend_spec(sign_extend_spec(data, size), size) == sign_extend_spec(data, size))
        by (bit_vector)
        requires
            0 < size <= 32,
    ;
}

/// The bytes of a splice at its own position are the bytes spliced in.
proof fn lemma_splice_at(s: Seq<u8>, i: int, t: Seq<u8>)
    requires
        0 <= i,
        i + t.len() <= s.len(),
    ensures
        splice(s, i, t).len() == s.len(),
        splice(s, i, t).subrange(i, i + t.len()) == t,
        forall|k: int| 0 <= k < s.len() && !(i <= k < i + t.len()) ==> #[trigger] splice(s, i, t)[k] == s[k],
{
    assert(splice(s, i, t).subrange(i, i + t.len()) =~= t);
}

/// A write of `width` bytes to data memory succeeds, and reading the same bytes back gives
/// the value written (reduced to those bytes).
pub proof fn law_slice_read_after_write<D: MMIO>(
    m: SliceMemory<D>,
    m2: SliceMemory<D>,
    addr: u32,
    width: u32,
    value: u32,
    r: Result<(), Fault>,
)
    requires
        m.wf(),
        width == 1 || width == 2 || width == 4,
        in_span(addr, width, DATA_MEM_BASE, m.data_view().len()),
        m.write_spec(m2, addr, width, value, r),
    ensures
        r is Ok,
        m2.read_spec(m2, addr, width, Ok((value as int % pow(256, width as nat)) as u32)),
{
    let i = addr - DATA_MEM_BASE;
    lemma_from_le_bytes(value as nat, width as nat);
    lemma_splice_at(m.data_view(), i, le_bytes(value as nat, width as nat));
}

/// A write to data memory leaves every byte outside the written ones as it was, and so
/// what reads of those bytes give.
pub proof fn law_slice_write_frame<D: MMIO>(
    m: SliceMemory<D>,
    m2: SliceMemory<D>,
    addr: u32,
    width: u32,
    value: u32,
    r: Result<(), Fault>,
    addr2: u32,
    width2: u32,
)
    requires
        m.wf(),
        width == 1 || width == 2 || width == 4,
        in_span(addr, width, DATA_MEM_BASE, m.data_view().len()),
        in_span(addr2, width2, DATA_MEM_BASE, m.data_view().len()),
        addr2 + width2 <= addr || addr + width <= addr2,
        m.write_spec(m2, addr, width, value, r),
    ensures
        m2.data_view().subrange(addr2 - DATA_MEM_BASE, addr2 - DATA_MEM_BASE + width2)
            == m.data_view().subrange(addr2 - DATA_MEM_BASE, addr2 - DATA_MEM_BASE + width2),
        m2.read_spec(
            m2,
            addr2,
            width2,
            Ok(from_le(m.data_view().subrange(addr2 - DATA_MEM_BASE, addr2 - DATA_MEM_BASE + width2)) as u32),
        ),
{
    let i = addr - DATA_MEM_BASE;
    let i2 = addr2 - DATA_MEM_BASE;
    lemma_from_le_bytes(value as nat, width as nat);
    lemma_splice_at(m.data_view(), i, le_bytes(value as nat, width as nat));
    assert(m2.data_view().subrange(i2, i2 + width2) =~= m.data_view().subrange(i2, i2 + width2));
}

/// Instruction memory is read-only: a write to it is refused and changes nothing.
pub proof fn law_slice_instr_read_only<D: MMIO>(
    m: SliceMemory<D>,
    m2: SliceMemory<D>,
    addr: u32,
    width: u32,
    value: u32,
    r: Result<(), Fault>,
)
    requires
        in_span(addr, width, INSTR_MEM_BASE, m.instr_view().len()),
        m.write_spec(m2, addr, width, value, r),
    ensures
        r == Err::<(), Fault>(Fault::ReadOnlyAddress(addr)),
        m2.same_as(m),
{
}

/// Accesses are little-endian: a word read from data memory is its four bytes, least
/// significant first, each of which a byte read gives.
pub proof fn law_slice_little_endian<D: MMIO>(m: SliceMemory<D>, addr: u32)
    requires
        m.wf(),
        in_span(addr, 4, DATA_MEM_BASE, m.data_view().len()),
    ensures
        ({
            let d = m.data_view();
            let i = addr - DATA_MEM_BASE;
            &&& m.read_spec(
                m,
                addr,
                4,
                Ok((d[i] + 256 * d[i + 1] + 65536 * d[i + 2] + 16777216 * d[i + 3]) as u32),
            )
            &&& forall|k: int| 0 <= k < 4 ==> m.read_spec(m, (addr + k) as u32, 1, Ok(#[trigger] d[i + k] as u32))
        }),
{
    let d = m.data_view();
    let i = addr - DATA_MEM_BASE;
    lemma_from_le_small(d.subrange(i, i + 4));
    assert forall|k: int| 0 <= k < 4 implies m.read_spec(m, (addr + k) as u32, 1, Ok(#[trigger] d[i + k] as u32)) by {
        lemma_from_le_small(d.subrange(i + k, i + k + 1));
    }
}

/// On the fixed board, a write to data memory succeeds and reading the same bytes back gives
/// the value written (reduced to those bytes).
pub proof fn law_board_read_after_write(
    m: board::AddressSpace,
    m2: board::AddressSpace,
    addr: u32,
    width: u32,
    value: u32,
    r: Result<(), Fault>,
)
    requires
        width == 1 || width == 2 || width == 4,
        board::in_region(addr, board::DATA_MEM_BASE, board::DATA_MEM_END),
        addr + width <= board::DATA_MEM_END,
        m.write_spec(m2, addr, width, value, r),
    ensures
        r is Ok,
        m2.read_spec(addr, width) == Ok::<u32, Fault>((value as int % pow(256, width as nat)) as u32),
{
    broadcast use board::AddressSpace::lemma_data_len;
    let i = addr - board::DATA_MEM_BASE;
    lemma_from_le_bytes(value as nat, width as nat);
    lemma_splice_at(m.data_bytes(), i, le_bytes(value as nat, width as nat));
}

/// On the fixed board, instruction memory is read-only: a write to it is refused and changes
/// nothing.
pub proof fn law_board_instr_read_only(
    m: board::AddressSpace,
    m2: board::AddressSpace,
    addr: u32,
    width: u32,
    value: u32,
    r: Result<(), Fault>,
)
    requires
        board::in_region(addr, board::INSTR_MEM_BASE, board::INSTR_MEM_END),
        m.write_spec(m2, addr, width, value, r),
    ensures
        r == Err::<(), Fault>(Fault::InvalidMemoryAccess(addr)),
        m2.instr_bytes() == m.instr_bytes(),
        m2.data_bytes() == m.data_bytes(),
{
}

/// In the memory of an executable, a write to a writable segment, or to the stack where no
/// segment of the executable holds the bytes, succeeds; a read of the same bytes can then be
/// made, goes where the write went, and gives the value written (reduced to those bytes).
/// For the stack, the search of the executable's segments must stay within the address
/// space, as a read needs it to.
/// (`ObjectMemory::writable_segment_count` gives `wf` and the bound on the segments.)
pub proof fn law_object_read_after_write<D: MMIO>(
    m: ObjectMemory<D>,
    m2: ObjectMemory<D>,
    addr: u32,
    width: u32,
    value: u32,
    r: Result<(), Fault>,
)
    requires
        m.wf(),
        m.writable().len() <= usize::MAX,
        width == 1 || width == 2 || width == 4,
        m.serves_write_spec(addr, width),
        m.write_place(addr, width) is Writable || (m.write_place(addr, width) is Stack
            && first_hit(segment_spans(m.image().1), addr, width) is None && search_ok(
            segment_spans(m.image().1),
            addr,
            width,
        )),
        m.write_spec(m2, addr, width, value, r),
    ensures
        r is Ok,
        m2.serves_read_spec(addr, width),
        m2.read_place(addr, width) == m.write_place(addr, width),
        m2.read_spec(m2, addr, width, Ok((value as int % pow(256, width as nat)) as u32)),
{
    lemma_from_le_bytes(value as nat, width as nat);
    let bytes = le_bytes(value as nat, width as nat);
    crate::object_memory::lemma_first_hit_some(writable_spans(m.writable()), addr, width);
    if let Place::Writable(j) = m.write_place(addr, width) {
        let w = m.writable()[j as int];
        lemma_splice_at(w.2, addr - w.0, bytes);
        assert(writable_spans(m2.writable()) =~= writable_spans(m.writable()));
    } else {
        lemma_splice_at(m.stack_view(), addr - STACK_MEM_BASE, bytes);
        assert(m2.writable() == m.writable());
    }
}

/// A step on the fixed board, whatever it returns, leaves instruction memory as it was, and
/// never writes register `Zero`, which reads 0.
pub proof fn law_board_step_keeps_code_and_zero(
    regs: Seq<u32>,
    pc: u32,
    mem: board::AddressSpace,
    regs2: Seq<u32>,
    pc2: u32,
    mem2: board::AddressSpace,
    r: Result<(), Fault>,
)
    requires
        regs.len() == 32,
        step_post(regs, pc, mem, regs2, pc2, mem2, r),
    ensures
        mem2.instr_bytes() == mem.instr_bytes(),
        regs2.len() == 32,
        regs2[0] == regs[0],
        reg_value(regs2, Regs::Zero) == 0,
{
    let (f1, m1) = choose|fetched: Result<u32, Fault>, m1: board::AddressSpace|
        #[trigger] mem.read_outcome(m1, pc, 4, fetched) && match fetched {
            Err(e) => regs2 == regs && pc2 == pc && mem2 == m1 && r == Err::<(), Fault>(e),
            Ok(w) => match decode_spec(w) {
                Err(e) => regs2 == regs && pc2 == pc && mem2 == m1 && r == Err::<(), Fault>(e),
                Ok(i) => exists|x: Result<Option<u32>, Fault>|
                    #[trigger] exec_post(i, regs, pc, m1, regs2, mem2, x) && pc2 == next_pc(pc, x)
                        && r == step_result(x),
            },
        };
    assert forall|rd: Regs, v: u32| #[trigger] with_reg(regs, rd, v)[0] == regs[0] && with_reg(regs, rd, v).len() == 32 by {
        if rd != Regs::Zero {
            assert(rd.spec_index() != 0);
        }
    }
    if let Ok(w) = f1 {
        if let Ok(i) = decode_spec(w) {
            let x1 = choose|x: Result<Option<u32>, Fault>|
                #[trigger] exec_post(i, regs, pc, m1, regs2, mem2, x) && pc2 == next_pc(pc, x)
                    && r == step_result(x);
            match effect(i, regs, pc) {
                Effect::Load { addr, width, funct3, rd } => {
                    let v1 = choose|v: Result<u32, Fault>|
                        #[trigger] m1.read_outcome(mem2, addr, width, v) && load_done(
                            v,
                            funct3,
                            rd,
                            regs,
                            regs2,
                            x1,
                        );
                    assert(m1.read_outcome(mem2, addr, width, v1));
                },
                Effect::Store { addr, width, value } => {
                    let w1 = choose|wr: Result<(), Fault>|
                        #[trigger] m1.write_outcome(mem2, addr, width, value, wr) && regs2 == regs
                            && x1 == store_result(wr);
                    assert(m1.write_outcome(mem2, addr, width, value, w1));
                },
                _ => {},
            }
        }
    }
}

/// A run that stops stops right after the first step that faults (a halt included): every
/// earlier step succeeded, and the run ends in the state that the faulting step left.
pub proof fn law_run_stops_at_first_fault<M: AddressSpace>(
    regs: Seq<u32>,
    pc: u32,
    mem: M,
    n: nat,
    regs2: Seq<u32>,
    pc2: u32,
    mem2: M,
    f: Fault,
)
    requires
        run_post(regs, pc, mem, n, regs2, pc2, mem2, Some(f)),
    ensures
        exists|k: nat, regs1: Seq<u32>, pc1: u32, mem1: M|
            #![trigger run_post(regs, pc, mem, k, regs1, pc1, mem1, None::<Fault>)]
            k < n && run_post(regs, pc, mem, k, regs1, pc1, mem1, None::<Fault>) && step_post(
                regs1,
                pc1,
                mem1,
                regs2,
                pc2,
                mem2,
                Err(f),
            ),
    decreases n,
{
    let (ra, pca, ma, r) = choose|ra: Seq<u32>, pca: u32, ma: M, r: Result<(), Fault>|
        #[trigger] step_post(regs, pc, mem, ra, pca, ma, r) && if r is Ok {
            run_post(ra, pca, ma, (n - 1) as nat, regs2, pc2, mem2, Some(f))
        } else {
            regs2 == ra && pc2 == pca && mem2 == ma && Some(f) == stop_of(r)
        };
    if r is Ok {
        law_run_stops_at_first_fault(ra, pca, ma, (n - 1) as nat, regs2, pc2, mem2, f);
        let (k, regs1, pc1, mem1) = choose|k: nat, regs1: Seq<u32>, pc1: u32, mem1: M|
            #![trigger run_post(ra, pca, ma, k, regs1, pc1, mem1, None::<Fault>)]
            k < n - 1 && run_post(ra, pca, ma, k, regs1, pc1, mem1, None::<Fault>) && step_post(
                regs1,
                pc1,
                mem1,
                regs2,
                pc2,
                mem2,
                Err(f),
            );
        assert(step_post(regs, pc, mem, ra, pca, ma, r));
        assert(run_post(regs, pc, mem, k + 1, regs1, pc1, mem1, None::<Fault>));
    } else {
        assert(r == Err::<(), Fault>(f));
        assert(run_post(regs, pc, mem, 0, regs, pc, mem, None::<Fault>));
    }
}

/// Reversing each group of four bytes twice gives the bytes back.
pub proof fn law_reverse_words_twice(b: Seq<u8>)
    ensures
        reverse_words(reverse_words(b)) == b,
{
    let rb = reverse_words(b);
    assert forall|i: int| 0 <= i < b.len() implies #[trigger] reverse_words(rb)[i] == b[i] by {
        let start = i - i % 4;
        let end = if start + 4 <= b.len() { start + 4 } else { b.len() as int };
        let j = start + end - 1 - i;
        assert(j - j % 4 == start);
    }
    assert(reverse_words(rb) =~= b);
}

/// On the fixed board a step is deterministic: two outcomes of a step from the same state
/// agree on the registers, the program counter, the memory and the result.
pub proof fn law_board_step_deterministic(
    regs: Seq<u32>,
    pc: u32,
    mem: board::AddressSpace,
    regs2: Seq<u32>,
    pc2: u32,
    mem2: board::AddressSpace,
    r2: Result<(), Fault>,
    regs3: Seq<u32>,
    pc3: u32,
    mem3: board::AddressSpace,
    r3: Result<(), Fault>,
)
    requires
        step_post(regs, pc, mem, regs2, pc2, mem2, r2),
        step_post(regs, pc, mem, regs3, pc3, mem3, r3),
    ensures
        regs2 == regs3,
        pc2 == pc3,
        r2 is Ok <==> r3 is Ok,
        r2 matches Err(f) ==> r3 == Err::<(), Fault>(f),
        mem2 == mem3,
{
    let (f2, m2) = choose|fetched: Result<u32, Fault>, m1: board::AddressSpace|
        #[trigger] mem.read_outcome(m1, pc, 4, fetched) && match fetched {
            Err(e) => regs2 == regs && pc2 == pc && mem2 == m1 && r2 == Err::<(), Fault>(e),
            Ok(w) => match decode_spec(w) {
                Err(e) => regs2 == regs && pc2 == pc && mem2 == m1 && r2 == Err::<(), Fault>(e),
                Ok(i) => exists|x: Result<Option<u32>, Fault>|
                    #[trigger] exec_post(i, regs, pc, m1, regs2, mem2, x) && pc2 == next_pc(pc, x)
                        && r2 == step_result(x),
            },
        };
    let (f3, m3) = choose|fetched: Result<u32, Fault>, m1: board::AddressSpace|
        #[trigger] mem.read_outcome(m1, pc, 4, fetched) && match fetched {
            Err(e) => regs3 == regs && pc3 == pc && mem3 == m1 && r3 == Err::<(), Fault>(e),
            Ok(w) => match decode_spec(w) {
                Err(e) => regs3 == regs && pc3 == pc && mem3 == m1 && r3 == Err::<(), Fault>(e),
                Ok(i) => exists|x: Result<Option<u32>, Fault>|
                    #[trigger] exec_post(i, regs, pc, m1, regs3, mem3, x) && pc3 == next_pc(pc, x)
                        && r3 == step_result(x),
            },
        };
    assert(f2 == f3 && m2 == m3);
    if let Ok(w) = f2 {
        if let Ok(i) = decode_spec(w) {
            let x2 = choose|x: Result<Option<u32>, Fault>|
                #[trigger] exec_post(i, regs, pc, m2, regs2, mem2, x) && pc2 == next_pc(pc, x) && r2
                    == step_result(x);
            let x3 = choose|x: Result<Option<u32>, Fault>|
                #[trigger] exec_post(i, regs, pc, m3, regs3, mem3, x) && pc3 == next_pc(pc, x) && r3
                    == step_result(x);
            match effect(i, regs, pc) {
                Effect::Load { addr, width, funct3, rd } => {
                    let v2 = choose|v: Result<u32, Fault>|
                        #[trigger] m2.read_outcome(mem2, addr, width, v) && load_done(
                            v,
                            funct3,
                            rd,
                            regs,
                            regs2,
                            x2,
                        );
                    let v3 = choose|v: Result<u32, Fault>|
                        #[trigger] m3.read_outcome(mem3, addr, width, v) && load_done(
                            v,
                            funct3,
                            rd,
                            regs,
                            regs3,
                            x3,
                        );
                    assert(v2 == v3);
                },
                Effect::Store { addr, width, value } => {
                    let w2 = choose|wr: Result<(), Fault>|
                        #[trigger] m2.write_outcome(mem2, addr, width, value, wr) && regs2 == regs
                            && x2 == store_result(wr);
                    let w3 = choose|wr: Result<(), Fault>|
                        #[trigger] m3.write_outcome(mem3, addr, width, value, wr) && regs3 == regs
                            && x3 == store_result(wr);
                    assert(m2.write_outcome(mem2, addr, width, value, w2));
                    assert(m3.write_outcome(mem3, addr, width, value, w3));
                },
                _ => {},
            }
        }
    }
    board::AddressSpace::lemma_bytes_determine(mem2, mem3);
}

/// On the fixed board a run is deterministic: two outcomes of a run of at most `n` steps
/// from the same state are the same, and stop for the same reason.
pub proof fn law_board_run_deterministic(
    regs: Seq<u32>,
    pc: u32,
    mem: board::AddressSpace,
    n: nat,
    regs2: Seq<u32>,
    pc2: u32,
    mem2: board::AddressSpace,
    stop2: Option<Fault>,
    regs3: Seq<u32>,
    pc3: u32,
    mem3: board::AddressSpace,
    stop3: Option<Fault>,
)
    requires
        run_post(regs, pc, mem, n, regs2, pc2, mem2, stop2),
        run_post(regs, pc, mem, n, regs3, pc3, mem3, stop3),
    ensures
        regs2 == regs3,
        pc2 == pc3,
        mem2 == mem3,
        stop2 == stop3,
    decreases n,
{
    if n > 0 {
        let (ra, pca, ma, r2) = choose|ra: Seq<u32>, pca: u32, ma: board::AddressSpace, r: Result<(), Fault>|
            #[trigger] step_post(regs, pc, mem, ra, pca, ma, r) && if r is Ok {
                run_post(ra, pca, ma, (n - 1) as nat, regs2, pc2, mem2, stop2)
            } else {
                regs2 == ra && pc2 == pca && mem2 == ma && stop2 == stop_of(r)
            };
        let (rb, pcb, mb, r3) = choose|ra: Seq<u32>, pca: u32, ma: board::AddressSpace, r: Result<(), Fault>|
            #[trigger] step_post(regs, pc, mem, ra, pca, ma, r) && if r is Ok {
                run_post(ra, pca, ma, (n - 1) as nat, regs3, pc3, mem3, stop3)
            } else {
                regs3 == ra && pc3 == pca && mem3 == ma && stop3 == stop_of(r)
            };
        law_board_step_deterministic(regs, pc, mem, ra, pca, ma, r2, rb, pcb, mb, r3);
        if r2 is Ok {
            law_board_run_deterministic(
                ra,
                pca,
                ma,
                (n - 1) as nat,
                regs2,
                pc2,
                mem2,
                stop2,
                regs3,
                pc3,
                mem3,
                stop3,
            );
        }
    }
}

/// Running `n` steps that all succeed and then `m` more is a run of `n + m` steps: two calls
/// of `run_for` in a row are one call with the sum of their budgets.
pub proof fn law_runs_compose<M: AddressSpace>(
    regs0: Seq<u32>,
    pc0: u32,
    mem0: M,
    n: nat,
    regs1: Seq<u32>,
    pc1: u32,
    mem1: M,
    m: nat,
    regs2: Seq<u32>,
    pc2: u32,
    mem2: M,
    stop: Option<Fault>,
)
    requires
        run_post(regs0, pc0, mem0, n, regs1, pc1, mem1, None),
        run_post(regs1, pc1, mem1, m, regs2, pc2, mem2, stop),
    ensures
        run_post(regs0, pc0, mem0, n + m, regs2, pc2, mem2, stop),
    decreases n,
{
    if n > 0 {
        let (ra, pca, ma, r0) = choose|ra: Seq<u32>, pca: u32, ma: M, r: Result<(), Fault>|
            #[trigger] step_post(regs0, pc0, mem0, ra, pca, ma, r) && if r is Ok {
                run_post(ra, pca, ma, (n - 1) as nat, regs1, pc1, mem1, None)
            } else {
                regs1 == ra && pc1 == pca && mem1 == ma && None::<Fault> == stop_of(r)
            };
        law_runs_compose(ra, pca, ma, (n - 1) as nat, regs1, pc1, mem1, m, regs2, pc2, mem2, stop);
        assert(((n - 1) as nat + m) as nat == (n + m - 1) as nat);
        assert(step_post(regs0, pc0, mem0, ra, pca, ma, r0));
    }
}

/// The FLAGS register of the standard input/output device reads back its two lock bits
/// (bit 0 the input lock, bit 1 the output lock) as they were last written.
pub proof fn law_stdio_flags_read_back<S: StdStreams>(
    dev: Stdio<S>,
    after: Stdio<S>,
    value: u8,
    r: Result<(), Fault>,
)
    requires
        dev.write_outcome(after, (STDIO_BASE + FLAGS_OFFSET) as u32, value, r),
    ensures
        after.read_decision((STDIO_BASE + FLAGS_OFFSET) as u32) == StdioRead::Value(value & 3),
{
    let i = value & 1 != 0;
    let o = value & 2 != 0;
    assert(value & 3 == ((if o {
        2int
    } else {
        0int
    }) + (if i {
        1int
    } else {
        0int
    })) as u8) by (bit_vector)
        requires
            i == (value & 1 != 0),
            o == (value & 2 != 0),
    ;
}

} // verus!
