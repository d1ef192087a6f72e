//! Merging decisions made at different scopes: the most restrictive
//! decision wins, and among equally restrictive ones the widest scope wins.

use vstd::prelude::*;
use crate::decision::{Decision, DecisionRecord, ScopeLevel};

verus! {

/// A decision together with the scope it was made at.
pub struct ScopedDecision {
    pub decision: Decision,
    pub scope: ScopeLevel,
    pub record: DecisionRecord,
}

impl Clone for ScopedDecision {
    fn clone(&self) -> (res: Self)
        ensures
            res == *self,
    {
        ScopedDecision { decision: self.decision, scope: self.scope, record: self.record.clone() }
    }
}

/// Merge the decisions that several scopes produced for one key.
///
/// The result is one of the inputs; its decision is at least as restrictive
/// as every input's, and among inputs with that same decision its scope is
/// at least as wide. `None` exactly when there is nothing to merge. The
/// exact cache's seeding applies the same order per key when the loaded
/// store holds decisions at several scopes.
pub fn merge_decisions(decisions: &Vec<ScopedDecision>) -> (r: Option<ScopedDecision>)
    ensures
        r is Some <==> decisions@.len() > 0,
        r is Some ==> exists|i: int|
            0 <= i < decisions@.len() && decisions@[i] == r.unwrap(),
        r is Some ==> forall|i: int|
            0 <= i < decisions@.len()
                ==> (#[trigger] decisions@[i].decision).precedence_spec()
                <= r.unwrap().decision.precedence_spec(),
        r is Some ==> forall|i: int|
            0 <= i < decisions@.len() && (#[trigger] decisions@[i].decision)
                == r.unwrap().decision ==> decisions@[i].scope.rank_spec()
                <= r.unwrap().scope.rank_spec(),
{
    if decisions.len() == 0 {
        return None;
    }
    let mut best: usize = 0;
    let mut k: usize = 1;
    while k < decisions.len()
        invariant
            0 <= best < k <= decisions@.len(),
            forall|i: int|
                0 <= i < k ==> (#[trigger] decisions@[i].decision).precedence_spec()
                    <= decisions@[best as int].decision.precedence_spec(),
            forall|i: int|
                0 <= i < k && (#[trigger] decisions@[i].decision)
                    == decisions@[best as int].decision ==> decisions@[i].scope.rank_spec()
                    <= decisions@[best as int].scope.rank_spec(),
        decreases decisions@.len() - k,
    {
        let cand = &decisions[k];
        let cur = &decisions[best];
        let cp = cand.decision.precedence();
        let bp = cur.decision.precedence();
        if cp > bp || (cp == bp && cand.scope.rank() > cur.scope.rank()) {
            best = k;
        }
        k = k + 1;
    }
    Some(decisions[best].clone())
}

} // verus!
