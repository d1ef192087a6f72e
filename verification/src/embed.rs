//! Tier 3: embedding similarity. The encoder is an external model; what
//! the library verifies is the vote resolution over nearest neighbours:
//! a hit needs cosine similarity at or over the threshold, and when the
//! qualifying neighbours disagree the most restrictive majority wins.
//! Without an encoder the tier is a constant fall-through, the behaviour
//! the design prescribes when the encoder fails to initialise.

use vstd::prelude::*;
use crate::decision::Decision;

verus! {

/// How many neighbours at or over the threshold vote for `d`.
pub open spec fn votes(ns: Seq<(Decision, u32)>, threshold_milli: u32, d: Decision) -> int
    decreases ns.len(),
{
    if ns.len() == 0 {
        0
    } else {
        (if ns[0].1 >= threshold_milli && ns[0].0 == d {
            1int
        } else {
            0int
        }) + votes(ns.drop_first(), threshold_milli, d)
    }
}

/// The winning decision for given vote counts: the most votes win, and
/// the more restrictive decision wins a tied count. No votes at all fall
/// through.
pub open spec fn vote_winner(va: int, vk: int, vd: int) -> Option<Decision> {
    if vd > 0 && vd >= va && vd >= vk {
        Some(Decision::Deny)
    } else if vk > 0 && vk >= va {
        Some(Decision::Ask)
    } else if va > 0 {
        Some(Decision::Allow)
    } else {
        None
    }
}

/// Count the qualifying votes for one decision.
fn count_votes(ns: &Vec<(Decision, u32)>, threshold_milli: u32, d: Decision) -> (r: usize)
    ensures
        r as int == votes(ns@, threshold_milli, d),
{
    let ghost nv = ns@;
    proof {
        assert(nv.skip(0) =~= nv);
    }
    let mut r: usize = 0;
    let mut i: usize = 0;
    while i < ns.len()
        invariant
            0 <= i <= nv.len(),
            nv == ns@,
            r <= i,
            votes(nv, threshold_milli, d) == r + votes(nv.skip(i as int), threshold_milli, d),
        decreases nv.len() - i,
    {
        proof {
            assert(nv.skip(i as int)[0] == nv[i as int]);
            assert(nv.skip(i as int).drop_first() =~= nv.skip(i + 1));
        }
        let (nd, sim) = ns[i];
        if sim >= threshold_milli && nd == d {
            r = r + 1;
        }
        i = i + 1;
    }
    proof {
        assert(votes(nv.skip(i as int), threshold_milli, d) == 0);
    }
    r
}

/// Resolve the votes of the nearest neighbours, each a decision with its
/// cosine similarity in thousandths: the most restrictive majority wins.
pub fn resolve_votes(ns: &Vec<(Decision, u32)>, threshold_milli: u32) -> (r: Option<Decision>)
    ensures
        r == vote_winner(
            votes(ns@, threshold_milli, Decision::Allow),
            votes(ns@, threshold_milli, Decision::Ask),
            votes(ns@, threshold_milli, Decision::Deny),
        ),
{
    let va = count_votes(ns, threshold_milli, Decision::Allow);
    let vk = count_votes(ns, threshold_milli, Decision::Ask);
    let vd = count_votes(ns, threshold_milli, Decision::Deny);
    if vd > 0 && vd >= va && vd >= vk {
        Some(Decision::Deny)
    } else if vk > 0 && vk >= va {
        Some(Decision::Ask)
    } else if va > 0 {
        Some(Decision::Allow)
    } else {
        None
    }
}

/// Tier 3 state: the threshold and whether an encoder is available.
pub struct EmbeddingSimilarity {
    /// Cosine similarity threshold in thousandths.
    pub threshold_milli: u32,
    /// Whether an encoder backs the tier; without one it falls through.
    pub enabled: bool,
}

impl EmbeddingSimilarity {
    /// Build the tier. No encoder is linked into this build, so the tier
    /// starts disabled and behaves as a constant fall-through.
    pub fn new(_model: &str, threshold_milli: u32) -> (r: Result<
        EmbeddingSimilarity,
        crate::error::CaptainHookError,
    >)
        ensures
            r matches Ok(t) ==> t.threshold_milli == threshold_milli && !t.enabled,
    {
        Ok(EmbeddingSimilarity { threshold_milli, enabled: false })
    }

    /// A tier that always falls through.
    pub fn new_noop() -> (r: EmbeddingSimilarity)
        ensures
            !r.enabled,
    {
        EmbeddingSimilarity { threshold_milli: 0, enabled: false }
    }

    /// Evaluate the tier; disabled, it falls through.
    pub fn evaluate(&self) -> (r: Option<Decision>)
        ensures
            !self.enabled ==> r is None,
    {
        if !self.enabled {
            return None;
        }
        None
    }

    /// Record a decision in the index; without an encoder there is
    /// nothing to store.
    pub fn insert(&self, _record: &crate::decision::DecisionRecord) -> (r: Result<
        (),
        crate::error::CaptainHookError,
    >)
        ensures
            r is Ok,
    {
        Ok(())
    }
}

} // verus!
