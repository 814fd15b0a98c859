//! Runs of several steps: what they may end in, and the accesses they make.

use vstd::prelude::*;

use crate::decode::decode_spec;
use crate::isa::Fault;
use crate::memory::AddressSpace;
use crate::semantics::{
    access_served, effect, exec_post, load_done, next_pc, store_result, step_post, step_result, step_served, Effect,
};

verus! {

/// How a step ends a run: a successful step does not; a fault (including `Halt`) does.
pub open spec fn stop_of(r: Result<(), Fault>) -> Option<Fault> {
    match r {
        Ok(_) => None,
        Err(f) => Some(f),
    }
}

/// A run of at most `n` steps from `(regs, pc, mem)` may end in
/// `(regs2, pc2, mem2)`, stopped by the fault `stop`, or, with `stop == None`, after `n`
/// successful steps.
pub open spec fn run_post<M: AddressSpace>(
    regs: Seq<u32>,
    pc: u32,
    mem: M,
    n: nat,
    regs2: Seq<u32>,
    pc2: u32,
    mem2: M,
    stop: Option<Fault>,
) -> bool
    decreases n,
{
    if n == 0 {
        stop is None && regs2 == regs && pc2 == pc && mem2 == mem
    } else {
        exists|ra: Seq<u32>, pca: u32, ma: M, r: Result<(), Fault>|
            #[trigger] step_post(regs, pc, mem, ra, pca, ma, r) && if r is Ok {
                run_post(ra, pca, ma, (n - 1) as nat, regs2, pc2, mem2, stop)
            } else {
                regs2 == ra && pc2 == pca && mem2 == ma && stop == stop_of(r)
            }
    }
}

/// Every access made in the first `n` steps of any run from
/// `(regs, pc, mem)` is served.
pub open spec fn served_for<M: AddressSpace>(
    regs: Seq<u32>,
    pc: u32,
    mem: M,
    n: nat,
) -> bool
    decreases n,
{
    n == 0 || (step_served(regs, pc, mem) && forall|
        ra: Seq<u32>,
        pca: u32,
        ma: M,
        r: Result<(), Fault>,
    |
        #[trigger] step_post(regs, pc, mem, ra, pca, ma, r) && r is Ok ==> served_for(
            ra,
            pca,
            ma,
            (n - 1) as nat,
        ))
}

/// A run of `k` successful steps followed by one more step is a run of `k + 1` steps.
pub proof fn lemma_run_post_extend<M: AddressSpace>(
    regs0: Seq<u32>,
    pc0: u32,
    mem0: M,
    k: nat,
    regs: Seq<u32>,
    pc: u32,
    mem: M,
    regs2: Seq<u32>,
    pc2: u32,
    mem2: M,
    r: Result<(), Fault>,
)
    requires
        run_post(regs0, pc0, mem0, k, regs, pc, mem, None),
        step_post(regs, pc, mem, regs2, pc2, mem2, r),
    ensures
        run_post(regs0, pc0, mem0, k + 1, regs2, pc2, mem2, stop_of(r)),
    decreases k,
{
    if k == 0 {
        assert(run_post(regs2, pc2, mem2, 0, regs2, pc2, mem2, None));
        assert(step_post(regs0, pc0, mem0, regs2, pc2, mem2, r));
    } else {
        let (ra, pca, ma, r0) = choose|ra: Seq<u32>, pca: u32, ma: M, r0: Result<(), Fault>|
            #[trigger] step_post(regs0, pc0, mem0, ra, pca, ma, r0) && if r0 is Ok {
                run_post(ra, pca, ma, (k - 1) as nat, regs, pc, mem, None)
            } else {
                regs == ra && pc == pca && mem == ma && None::<Fault> == stop_of(r0)
            };
        lemma_run_post_extend(ra, pca, ma, (k - 1) as nat, regs, pc, mem, regs2, pc2, mem2, r);
        assert(step_post(regs0, pc0, mem0, ra, pca, ma, r0));
    }
}

/// A run that stopped within `j` steps is also a run of any `n >= j` steps.
pub proof fn lemma_run_post_stopped<M: AddressSpace>(
    regs: Seq<u32>,
    pc: u32,
    mem: M,
    j: nat,
    n: nat,
    regs2: Seq<u32>,
    pc2: u32,
    mem2: M,
    stop: Option<Fault>,
)
    requires
        run_post(regs, pc, mem, j, regs2, pc2, mem2, stop),
        stop is Some,
        j <= n,
    ensures
        run_post(regs, pc, mem, n, regs2, pc2, mem2, stop),
    decreases j,
{
    if j > 0 {
        let (ra, pca, ma, r0) = choose|ra: Seq<u32>, pca: u32, ma: M, r0: Result<(), Fault>|
            #[trigger] step_post(regs, pc, mem, ra, pca, ma, r0) && if r0 is Ok {
                run_post(ra, pca, ma, (j - 1) as nat, regs2, pc2, mem2, stop)
            } else {
                regs2 == ra && pc2 == pca && mem2 == ma && stop == stop_of(r0)
            };
        if r0 is Ok {
            lemma_run_post_stopped(
                ra,
                pca,
                ma,
                (j - 1) as nat,
                (n - 1) as nat,
                regs2,
                pc2,
                mem2,
                stop,
            );
        }
        assert(step_post(regs, pc, mem, ra, pca, ma, r0));
    }
}

/// After `k` successful steps of a run that is served for `n > k` steps, the next step is
/// served too, and so are the `n - k` steps from there.
pub proof fn lemma_served_after<M: AddressSpace>(
    regs0: Seq<u32>,
    pc0: u32,
    mem0: M,
    n: nat,
    k: nat,
    regs: Seq<u32>,
    pc: u32,
    mem: M,
)
    requires
        served_for(regs0, pc0, mem0, n),
        run_post(regs0, pc0, mem0, k, regs, pc, mem, None),
        k <= n,
    ensures
        served_for(regs, pc, mem, (n - k) as nat),
    decreases k,
{
    if k > 0 {
        let (ra, pca, ma, r0) = choose|ra: Seq<u32>, pca: u32, ma: M, r0: Result<(), Fault>|
            #[trigger] step_post(regs0, pc0, mem0, ra, pca, ma, r0) && if r0 is Ok {
                run_post(ra, pca, ma, (k - 1) as nat, regs, pc, mem, None)
            } else {
                regs == ra && pc == pca && mem == ma && None::<Fault> == stop_of(r0)
            };
        assert(r0 is Ok);
        assert(served_for(ra, pca, ma, (n - 1) as nat));
        lemma_served_after(ra, pca, ma, (n - 1) as nat, (k - 1) as nat, regs, pc, mem);
    }
}

/// A property of memories that every read and every write keeps.
pub open spec fn kept_by_accesses<M: AddressSpace>(p: spec_fn(M) -> bool) -> bool {
    &&& forall|m: M, m2: M, a: u32, w: u32, v: Result<u32, Fault>|
        p(m) && #[trigger] m.read_outcome(m2, a, w, v) ==> p(m2)
    &&& forall|m: M, m2: M, a: u32, w: u32, x: u32, r: Result<(), Fault>|
        p(m) && #[trigger] m.write_outcome(m2, a, w, x, r) ==> p(m2)
}

/// A property of memories under which every access of one, two or four bytes is served.
pub open spec fn serves_under<M: AddressSpace>(p: spec_fn(M) -> bool) -> bool {
    forall|m: M, a: u32, w: u32|
        #![trigger m.serves_read(a, w)]
        #![trigger m.serves_write(a, w)]
        p(m) && (w == 1 || w == 2 || w == 4) ==> m.serves_read(a, w) && m.serves_write(a, w)
}

/// A property that every access keeps holds of the memory after a step.
pub proof fn lemma_step_keeps<M: AddressSpace>(
    p: spec_fn(M) -> bool,
    regs: Seq<u32>,
    pc: u32,
    mem: M,
    regs2: Seq<u32>,
    pc2: u32,
    mem2: M,
    r: Result<(), Fault>,
)
    requires
        kept_by_accesses(p),
        p(mem),
        step_post(regs, pc, mem, regs2, pc2, mem2, r),
    ensures
        p(mem2),
{
    let (f, m1) = choose|fetched: Result<u32, Fault>, m1: M|
        #[trigger] mem.read_outcome(m1, pc, 4, fetched) && match fetched {
            Err(e) => regs2 == regs && pc2 == pc && mem2 == m1 && r == Err::<(), Fault>(e),
            Ok(w) => match decode_spec(w) {
                Err(e) => regs2 == regs && pc2 == pc && mem2 == m1 && r == Err::<(), Fault>(e),
                Ok(i) => exists|x: Result<Option<u32>, Fault>|
                    #[trigger] exec_post(i, regs, pc, m1, regs2, mem2, x) && pc2 == next_pc(pc, x)
                        && r == step_result(x),
            },
        };
    assert(p(m1));
    if let Ok(w) = f {
        if let Ok(i) = decode_spec(w) {
            let x = choose|x: Result<Option<u32>, Fault>|
                #[trigger] exec_post(i, regs, pc, m1, regs2, mem2, x) && pc2 == next_pc(pc, x) && r
                    == step_result(x);
            match effect(i, regs, pc) {
                Effect::Load { addr, width, funct3, rd } => {
                    let v = choose|v: Result<u32, Fault>|
                        #[trigger] m1.read_outcome(mem2, addr, width, v) && load_done(
                            v,
                            funct3,
                            rd,
                            regs,
                            regs2,
                            x,
                        );
                    assert(m1.read_outcome(mem2, addr, width, v));
                },
                Effect::Store { addr, width, value } => {
                    let wr = choose|wr: Result<(), Fault>|
                        #[trigger] m1.write_outcome(mem2, addr, width, value, wr) && regs2 == regs
                            && x == store_result(wr);
                    assert(m1.write_outcome(mem2, addr, width, value, wr));
                },
                _ => {},
            }
        }
    }
}

/// Every run from a memory of a kind that is served whenever a property holds that every
/// access keeps is served, for any number of steps.
pub proof fn lemma_served_for_under<M: AddressSpace>(
    p: spec_fn(M) -> bool,
    regs: Seq<u32>,
    pc: u32,
    mem: M,
    n: nat,
)
    requires
        kept_by_accesses(p),
        serves_under(p),
        p(mem),
    ensures
        served_for(regs, pc, mem, n),
    decreases n,
{
    if n > 0 {
        assert(mem.serves_read(pc, 4));
        assert forall|w: u32, m1: M| #[trigger]
            mem.read_outcome(m1, pc, 4, Ok(w)) implies match decode_spec(w) {
            Ok(i) => access_served(i, regs, pc, m1),
            Err(_) => true,
        } by {
            assert(p(m1));
            if let Ok(i) = decode_spec(w) {
                match effect(i, regs, pc) {
                    Effect::Load { addr, width, .. } => {
                        assert(m1.serves_read(addr, width));
                    },
                    Effect::Store { addr, width, .. } => {
                        assert(m1.serves_write(addr, width));
                    },
                    _ => {},
                }
            }
        }
        assert forall|ra: Seq<u32>, pca: u32, ma: M, r: Result<(), Fault>|
            #[trigger] step_post(regs, pc, mem, ra, pca, ma, r) && r is Ok implies served_for(
            ra,
            pca,
            ma,
            (n - 1) as nat,
        ) by {
            lemma_step_keeps(p, regs, pc, mem, ra, pca, ma, r);
            lemma_served_for_under(p, ra, pca, ma, (n - 1) as nat);
        }
    }
}

} // verus!
