//! The general laws the engine guarantees, stated over the same
//! specification functions its contracts use and proved once and for all.

use vstd::prelude::*;

verus! {

use crate::interpreter::{afor_items, afor_one, wspec, StackV};
use crate::plan::NodeV;
use crate::resolver::ValueResolver;
use crate::value::{NodeResV, NodeValV, and_spec, res_and};

/// Result algebra: an error absorbs anything, a bare success adopts a
/// value, and two values combine with the value conjunction.
pub proof fn lemma_result_algebra(
    e: Seq<char>,
    x: Option<NodeResV>,
    v: NodeValV,
    a: NodeValV,
    b: NodeValV,
)
    ensures
        res_and(NodeResV::Error(e), x) == NodeResV::Error(e),
        res_and(NodeResV::Okay, Some(NodeResV::Value(v))) == NodeResV::Value(v),
        res_and(NodeResV::Value(a), Some(NodeResV::Value(b))) == NodeResV::Value(
            and_spec(a, b),
        ),
{
}

/// Idempotence: executing a plan twice against the same resolver and the
/// same starting state yields identical result trees and identical final
/// states. The walk is a function of the resolver's answers, the stack and
/// the plan alone, and `walk_tree` provably computes it.
pub proof fn lemma_walk_idempotent<R: ValueResolver>(r: &R, st: StackV, n: NodeV, fuel: nat)
    ensures
        ({
            let (s1, a) = wspec(r, st, n, fuel);
            let (s2, b) = wspec(r, st, n, fuel);
            s1 == s2 && a == b
        }),
{
}

/// Non-mutation: one compiled plan executed against two resolvers produces
/// two outcomes that each depend only on their own resolver; neither
/// execution affects the other, and the plan itself is never changed
/// (`walk_tree` only borrows it).
pub proof fn lemma_walk_independent<R1: ValueResolver, R2: ValueResolver>(
    r1: &R1,
    r2: &R2,
    st: StackV,
    n: NodeV,
    fuel: nat,
)
    ensures
        ({
            let (_, a) = wspec(r1, st, n, fuel);
            let (s2x, b) = wspec(r2, st, n, fuel);
            wspec(r2, st, n, fuel) == (s2x, b) && wspec(r1, st, n, fuel).1 == a
        }),
{
}

/// `for-each` exhaustiveness: every iteration runs every template child,
/// whatever earlier iterations produced — the result list has exactly one
/// node per template per item.
pub proof fn lemma_for_each_exhaustive<R: ValueResolver>(
    r: &R,
    st: StackV,
    templates: Seq<NodeV>,
    count: int,
    index: int,
    folded: NodeResV,
    fuel: nat,
)
    requires
        0 <= index <= count,
    ensures
        afor_items(r, st, templates, count, index, folded, fuel).1.len() == (count - index)
            * templates.len(),
    decreases count - index,
{
    if index < count {
        let (st1, rs1, f1) = afor_one(
            r,
            st,
            templates,
            templates.len() as int,
            0,
            index,
            folded,
            fuel,
        );
        lemma_for_one_exhaustive(r, st, templates, templates.len() as int, 0, index, folded, fuel);
        lemma_for_each_exhaustive(r, st1, templates, count, index + 1, f1, fuel);
        assert((count - index) * templates.len() == templates.len() + (count - index - 1)
            * templates.len()) by (nonlinear_arith);
    } else {
        assert((count - index) * templates.len() == 0) by (nonlinear_arith)
            requires
                index == count,
        ;
    }
}

/// One iteration of `for-each` walks exactly the templates from `k` on.
pub proof fn lemma_for_one_exhaustive<R: ValueResolver>(
    r: &R,
    st: StackV,
    templates: Seq<NodeV>,
    count: int,
    k: int,
    index: int,
    folded: NodeResV,
    fuel: nat,
)
    requires
        0 <= k,
        count == templates.len(),
    ensures
        afor_one(r, st, templates, count, k, index, folded, fuel).1.len() == (if k
            <= templates.len() {
            templates.len() - k
        } else {
            0
        }),
    decreases count - k,
{
    if k < count && k < templates.len() {
        let injected = crate::interpreter::inject_spec(templates[k], index);
        let (st1, one) = if fuel == 0 {
            (st, Err::<NodeV, Seq<char>>(crate::interpreter::depth_msg()))
        } else {
            let (s, rr) = wspec(r, st, injected, (fuel - 1) as nat);
            (s, rr)
        };
        match one {
            Ok(v) => {
                let folded2 = res_and(
                    folded,
                    match v.result {
                        Some(x) => Some(x),
                        None => None,
                    },
                );
                lemma_for_one_exhaustive(r, st1, templates, count, k + 1, index, folded2, fuel);
            },
            Err(e) => {
                let folded2 = res_and(folded, Some(NodeResV::Error(e)));
                lemma_for_one_exhaustive(r, st1, templates, count, k + 1, index, folded2, fuel);
            },
        }
    }
}

} // verus!
