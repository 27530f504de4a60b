//! Laws relating the dependency sorter's outcomes to dependency
//! cycles: statements that block each other contain a cycle, and a
//! fully ordered output rules every cycle out.

use vstd::prelude::*;
use crate::ast::{Statement, spec_stm_name};
use crate::dependency_sorter::{is_cycle, stm_deps};

verus! {

// ---------------------------------------------------------------------
// From mutual blocking to a cycle.
// ---------------------------------------------------------------------
/// A sequence longer than its value range repeats a value.
proof fn lemma_pigeonhole(s: Seq<int>, n: int)
    requires
        n >= 0,
        s.len() > n,
        forall|k: int| 0 <= k < s.len() ==> 0 <= #[trigger] s[k] < n,
    ensures
        exists|p: int, q: int| 0 <= p < q < s.len() && s[p] == s[q],
{
    if !(exists|p: int, q: int| 0 <= p < q < s.len() && s[p] == s[q]) {
        assert forall|p: int, q: int| p != q && 0 <= p < s.len() && 0 <= q < s.len() implies s[p]
            != s[q] by {
            if p < q {
                assert(!(s[p] == s[q]));
            } else {
                assert(!(s[q] == s[p]));
            }
        }
        assert(s.no_duplicates());
        s.unique_seq_to_set();
        let range = vstd::set_lib::set_int_range(0, n);
        vstd::set_lib::lemma_int_range(0, n);
        assert forall|x: int| s.to_set().contains(x) implies range.contains(x) by {
            assert(s.contains(x));
        }
        assert(s.to_set().subset_of(range));
        vstd::set_lib::lemma_len_subset(s.to_set(), range);
        assert(false);
    }
}

/// Some statement whose name lies in `blocked` that `stms[j]` depends
/// on.
spec fn succ_in(stms: Seq<Statement>, blocked: Set<Seq<char>>, j: int) -> int {
    choose|j2: int|
        0 <= j2 < stms.len() && blocked.contains(spec_stm_name(&stms[j2])) && stm_deps(
            stms[j],
        ).contains(spec_stm_name(&stms[j2]))
}

/// The chain obtained by following `succ_in` from `j0`.
spec fn chain(stms: Seq<Statement>, blocked: Set<Seq<char>>, j0: int, k: nat) -> int
    decreases k,
{
    if k == 0 {
        j0
    } else {
        succ_in(stms, blocked, chain(stms, blocked, j0, (k - 1) as nat))
    }
}

/// Every link of the chain stays inside the blocked set and depends on
/// the next link.
#[verifier::rlimit(60)]
#[verifier::spinoff_prover]
proof fn lemma_chain_props(stms: Seq<Statement>, blocked: Set<Seq<char>>, j0: int, k: nat)
    requires
        0 <= j0 < stms.len(),
        blocked.contains(spec_stm_name(&stms[j0])),
        forall|j: int|
            0 <= j < stms.len() && blocked.contains(spec_stm_name(&stms[j])) ==> exists|j2: int|
                0 <= j2 < stms.len() && blocked.contains(spec_stm_name(&stms[j2]))
                    && #[trigger] stm_deps(stms[j]).contains(spec_stm_name(&stms[j2])),
    ensures
        0 <= chain(stms, blocked, j0, k) < stms.len(),
        blocked.contains(spec_stm_name(&stms[chain(stms, blocked, j0, k)])),
        k > 0 ==> stm_deps(stms[chain(stms, blocked, j0, (k - 1) as nat)]).contains(
            spec_stm_name(&stms[chain(stms, blocked, j0, k)]),
        ),
    decreases k,
{
    if k > 0 {
        lemma_chain_props(stms, blocked, j0, (k - 1) as nat);
        let prev = chain(stms, blocked, j0, (k - 1) as nat);
        assert(exists|j2: int|
            0 <= j2 < stms.len() && blocked.contains(spec_stm_name(&stms[j2]))
                && stm_deps(stms[prev]).contains(spec_stm_name(&stms[j2])));
        assert(chain(stms, blocked, j0, k) == succ_in(stms, blocked, prev));
    }
}

/// When some statement's name lies in `blocked` and every statement
/// named there depends on another statement named there, the module
/// has a dependency cycle.
#[verifier::rlimit(100)]
#[verifier::spinoff_prover]
pub proof fn lemma_blocked_has_cycle(stms: Seq<Statement>, blocked: Set<Seq<char>>, j0: int)
    requires
        0 <= j0 < stms.len(),
        blocked.contains(spec_stm_name(&stms[j0])),
        forall|j: int|
            0 <= j < stms.len() && blocked.contains(spec_stm_name(&stms[j])) ==> exists|j2: int|
                0 <= j2 < stms.len() && blocked.contains(spec_stm_name(&stms[j2]))
                    && #[trigger] stm_deps(stms[j]).contains(spec_stm_name(&stms[j2])),
    ensures
        exists|c: Seq<int>| is_cycle(stms, c),
{
    let n = stms.len() as int;
    let ps = Seq::new((n + 1) as nat, |k: int| chain(stms, blocked, j0, k as nat));
    assert forall|k: int| 0 <= k < ps.len() implies 0 <= #[trigger] ps[k] < n by {
        lemma_chain_props(stms, blocked, j0, k as nat);
    }
    lemma_pigeonhole(ps, n);
    let (p, q) = choose|p: int, q: int| 0 <= p < q < ps.len() && ps[p] == ps[q];
    let c = Seq::new((q - p) as nat, |k: int| chain(stms, blocked, j0, (p + k) as nat));
    assert(c.len() == q - p);
    assert(ps[p] == chain(stms, blocked, j0, p as nat));
    assert(ps[q] == chain(stms, blocked, j0, q as nat));
    assert forall|k: int| 0 <= k < c.len() implies 0 <= #[trigger] c[k] < stms.len() by {
        lemma_chain_props(stms, blocked, j0, (p + k) as nat);
    }
    assert forall|k: int| 0 <= k < c.len() implies stm_deps(stms[#[trigger] c[k]]).contains(
        spec_stm_name(&stms[c[(k + 1) % (c.len() as int)]]),
    ) by {
        lemma_chain_props(stms, blocked, j0, (p + k + 1) as nat);
        assert(c[k] == chain(stms, blocked, j0, (p + k) as nat));
        assert((p + k + 1) as nat - 1 == (p + k) as nat);
        assert(stm_deps(stms[chain(stms, blocked, j0, (p + k) as nat)]).contains(
            spec_stm_name(&stms[chain(stms, blocked, j0, (p + k + 1) as nat)]),
        ));
        if k + 1 < c.len() {
            vstd::arithmetic::div_mod::lemma_small_mod((k + 1) as nat, c.len());
            assert((k + 1) % (c.len() as int) == k + 1);
            assert(c[k + 1] == chain(stms, blocked, j0, (p + k + 1) as nat));
        } else {
            assert(p + k + 1 == q);
            assert((k + 1) % (c.len() as int) == 0) by {
                assert(k + 1 == c.len());
                assert((c.len() as int) % (c.len() as int) == 0) by (nonlinear_arith)
                    requires c.len() >= 1;
            }
            assert(c[0] == chain(stms, blocked, j0, (p + 0) as nat));
            assert(chain(stms, blocked, j0, (p + k + 1) as nat) == ps[q]);
            assert(ps[q] == ps[p]);
            assert(spec_stm_name(&stms[chain(stms, blocked, j0, (p + k + 1) as nat)])
                == spec_stm_name(&stms[c[0]]));
        }
    }
    assert(is_cycle(stms, c));
}

} // verus!
