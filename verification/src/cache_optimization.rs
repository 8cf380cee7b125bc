//! The peephole pass over generated code: dead-store elimination. A `Write`
//! to a backing-store cell that no `Load` in the stream ever reads is
//! dropped; everything else passes through unchanged.

use vstd::prelude::*;
use crate::types::{Inst, InstV, MemAddr, insts_model};

verus! {

/// The backing-store addresses that some `Load` of the stream reads.
pub open spec fn load_addresses(insts: Seq<InstV>) -> Set<MemAddr> {
    Set::new(
        |a: MemAddr|
            exists|k: int|
                0 <= k < insts.len() && (#[trigger] insts[k]) is Load && insts[k]->Load_0 == a,
    )
}

/// Whether the cache optimization keeps an instruction of the stream.
pub open spec fn keeps_inst(insts: Seq<InstV>, inst: InstV) -> bool {
    match inst {
        InstV::Write(_, addr) => load_addresses(insts).contains(addr),
        _ => true,
    }
}

/// What the cache optimization produces: the same stream with every `Write`
/// to a never-loaded address removed.
pub open spec fn cache_opt_model(insts: Seq<InstV>) -> Seq<InstV> {
    insts.filter(|inst: InstV| keeps_inst(insts, inst))
}

proof fn lemma_filter_push<A>(s: Seq<A>, x: A, p: spec_fn(A) -> bool)
    ensures
        s.push(x).filter(p) == if p(x) {
            s.filter(p).push(x)
        } else {
            s.filter(p)
        },
{
    reveal(Seq::filter);
    assert(s.push(x).drop_last() =~= s);
}

/// Whether an address occurs in a list of addresses.
fn contains_addr(addrs: &Vec<usize>, a: usize) -> (r: bool)
    ensures
        r == addrs@.contains(a),
{
    let mut i: usize = 0;
    while i < addrs.len()
        invariant
            i <= addrs@.len(),
            forall|k: int| 0 <= k < i ==> addrs@[k] != a,
        decreases addrs@.len() - i,
    {
        if addrs[i] == a {
            return true;
        }
        i = i + 1;
    }
    false
}

/// Removes every `Write` whose target cell is never read by a `Load`.
pub fn run_cache_optimization(instructions: Vec<Inst>) -> (r: Vec<Inst>)
    ensures
        insts_model(r@) == cache_opt_model(insts_model(instructions@)),
{
    let ghost m = insts_model(instructions@);

    let mut loaded_lines: Vec<usize> = Vec::new();
    let mut i: usize = 0;
    while i < instructions.len()
        invariant
            m == insts_model(instructions@),
            m.len() == instructions@.len(),
            i <= instructions@.len(),
            forall|a: usize|
                loaded_lines@.contains(a) <==> exists|k: int|
                    0 <= k < i && (#[trigger] m[k]) is Load && m[k]->Load_0 == a,
        decreases instructions@.len() - i,
    {
        proof {
            assert(m[i as int] == instructions@[i as int].model());
            crate::types::lemma_inst_model(&instructions@[i as int]);
        }
        let ghost old_lines = loaded_lines@;
        if let Inst::Load(addr, _) = &instructions[i] {
            loaded_lines.push(*addr);
            proof {
                assert(m[i as int] is Load && m[i as int]->Load_0 == *addr);
                assert forall|a: usize| loaded_lines@.contains(a) implies (exists|k: int|
                    0 <= k < i + 1 && (#[trigger] m[k]) is Load && m[k]->Load_0 == a) by {
                    let idx = choose|idx: int| 0 <= idx < loaded_lines@.len()
                        && loaded_lines@[idx] == a;
                    if idx < old_lines.len() {
                        assert(old_lines.contains(a));
                        let k = choose|k: int| 0 <= k < i && (#[trigger] m[k]) is Load
                            && m[k]->Load_0 == a;
                        assert(0 <= k < i + 1 && m[k] is Load && m[k]->Load_0 == a);
                    } else {
                        assert(a == *addr);
                        assert(0 <= i < i + 1 && m[i as int] is Load
                            && m[i as int]->Load_0 == a);
                    }
                }
                assert forall|a: usize| (exists|k: int|
                    0 <= k < i + 1 && (#[trigger] m[k]) is Load && m[k]->Load_0 == a) implies
                    loaded_lines@.contains(a) by {
                    let k = choose|k: int| 0 <= k < i + 1 && (#[trigger] m[k]) is Load
                        && m[k]->Load_0 == a;
                    if k < i {
                        assert(old_lines.contains(a));
                        let idx = choose|idx: int| 0 <= idx < old_lines.len()
                            && old_lines[idx] == a;
                        assert(loaded_lines@[idx] == a);
                    } else {
                        assert(loaded_lines@[old_lines.len() as int] == a);
                    }
                }
            }
        } else {
            proof {
                assert(!(m[i as int] is Load));
            }
        }
        i = i + 1;
    }
    proof {
        assert(forall|a: usize|
            loaded_lines@.contains(a) <==> load_addresses(m).contains(a));
    }

    let ghost keep = |inst: InstV| keeps_inst(m, inst);
    let mut result: Vec<Inst> = Vec::new();
    let mut j: usize = 0;
    while j < instructions.len()
        invariant
            m == insts_model(instructions@),
            m.len() == instructions@.len(),
            j <= instructions@.len(),
            keep == (|inst: InstV| keeps_inst(m, inst)),
            forall|a: usize|
                loaded_lines@.contains(a) <==> load_addresses(m).contains(a),
            insts_model(result@) == m.take(j as int).filter(keep),
        decreases instructions@.len() - j,
    {
        proof {
            assert(m[j as int] == instructions@[j as int].model());
            assert(m.take(j as int + 1) =~= m.take(j as int).push(m[j as int]));
            lemma_filter_push(m.take(j as int), m[j as int], keep);
        }
        let keep_it: bool = match &instructions[j] {
            Inst::Write(_, target_addr) => contains_addr(&loaded_lines, *target_addr),
            _ => true,
        };
        if keep_it {
            let ghost before = insts_model(result@);
            result.push(instructions[j].duplicate());
            proof {
                assert(insts_model(result@) =~= before.push(m[j as int]));
            }
        }
        j = j + 1;
    }
    proof {
        assert(m.take(instructions@.len() as int) =~= m);
    }
    result
}

} // verus!
