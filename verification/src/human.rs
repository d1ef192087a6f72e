//! Tier 5: human review. A pending decision is queued for out-of-band
//! review; the evaluation waits until a response arrives or the timeout
//! expires, and a timeout leaves no pending entry behind. The polling
//! loop and the shared file live outside the library; the library keeps
//! the queue's state and its transitions.

use vstd::prelude::*;
use crate::decision::{CacheKey, Decision, DecisionMetadata, DecisionRecord, DecisionTier,
    ScopeLevel};
use crate::error::CaptainHookError;
use crate::text;

verus! {

/// The supervisor's recommendation shown with a human prompt; the
/// confidence is in hundredths.
pub struct SupervisorRecommendation {
    pub decision: Decision,
    pub confidence: u32,
    pub reason: String,
}

impl Clone for SupervisorRecommendation {
    fn clone(&self) -> (res: Self)
        ensures
            res == *self,
    {
        SupervisorRecommendation {
            decision: self.decision,
            confidence: self.confidence,
            reason: self.reason.clone(),
        }
    }
}

/// A human's response to a pending decision.
#[derive(Clone, Copy)]
pub struct HumanResponse {
    pub decision: Decision,
    /// Cache the decision as `ask`, so every recurrence prompts again.
    pub always_ask: bool,
    /// Promote the decision into the persistent rules.
    pub add_rule: bool,
    /// The scope a promoted rule persists at.
    pub rule_scope: Option<ScopeLevel>,
}

/// A decision waiting for a human response.
pub struct PendingDecision {
    pub id: String,
    pub session_id: String,
    pub role: String,
    pub tool_name: String,
    pub sanitized_input: String,
    pub file_path: Option<String>,
    pub recommendation: Option<SupervisorRecommendation>,
    pub is_ask_reprompt: bool,
    pub ask_reason: Option<String>,
    /// Milliseconds since the Unix epoch.
    pub queued_at: u64,
}

impl Clone for PendingDecision {
    fn clone(&self) -> (res: Self)
        ensures
            res == *self,
    {
        PendingDecision {
            id: self.id.clone(),
            session_id: self.session_id.clone(),
            role: self.role.clone(),
            tool_name: self.tool_name.clone(),
            sanitized_input: self.sanitized_input.clone(),
            file_path: match &self.file_path {
                Some(p) => Some(p.clone()),
                None => None,
            },
            recommendation: match &self.recommendation {
                Some(rec) => Some(rec.clone()),
                None => None,
            },
            is_ask_reprompt: self.is_ask_reprompt,
            ask_reason: match &self.ask_reason {
                Some(rr) => Some(rr.clone()),
                None => None,
            },
            queued_at: self.queued_at,
        }
    }
}

/// Some pending entry carries this id.
pub open spec fn pending_has(s: Seq<PendingDecision>, id: Seq<char>) -> bool {
    exists|i: int| 0 <= i < s.len() && (#[trigger] s[i]).id@ == id
}

/// The list holds this exact pending decision.
pub open spec fn pending_mem(s: Seq<PendingDecision>, p: PendingDecision) -> bool {
    exists|j: int| 0 <= j < s.len() && #[trigger] s[j] == p
}

/// Some completed entry carries this id.
pub open spec fn completed_has(s: Seq<(String, HumanResponse)>, id: Seq<char>) -> bool {
    exists|i: int| 0 <= i < s.len() && (#[trigger] s[i]).0@ == id
}

/// The queue of pending decisions and of responses not yet consumed.
/// Ids are unique within each list.
pub struct DecisionQueue {
    pub pending: Vec<PendingDecision>,
    pub completed: Vec<(String, HumanResponse)>,
}

impl DecisionQueue {
    /// Ids unique in both lists.
    pub open spec fn wf(&self) -> bool {
        &&& forall|i: int, j: int|
            #![trigger self.pending@[i], self.pending@[j]]
            0 <= i < j < self.pending@.len() ==> self.pending@[i].id@ != self.pending@[j].id@
        &&& forall|i: int, j: int|
            #![trigger self.completed@[i], self.completed@[j]]
            0 <= i < j < self.completed@.len() ==> self.completed@[i].0@ != self.completed@[j].0@
    }

    /// An empty queue.
    pub fn new() -> (r: DecisionQueue)
        ensures
            r.wf(),
            r.pending@.len() == 0,
            r.completed@.len() == 0,
    {
        DecisionQueue { pending: Vec::new(), completed: Vec::new() }
    }

    /// Remove the pending entry with this id, if one exists. Every other
    /// entry stays.
    pub fn remove_pending(&mut self, id: &str)
        requires
            old(self).wf(),
        ensures
            final(self).wf(),
            !pending_has(final(self).pending@, id@),
            forall|i: int|
                0 <= i < final(self).pending@.len() ==> pending_mem(
                    old(self).pending@,
                    #[trigger] final(self).pending@[i],
                ),
            forall|j: int|
                0 <= j < old(self).pending@.len() && (#[trigger] old(self).pending@[j]).id@ != id@
                    ==> pending_mem(final(self).pending@, old(self).pending@[j]),
            final(self).completed@ == old(self).completed@,
    {
        let ghost prev = self.pending@;
        let id_s = text::chars_to_string(&text::str_to_chars(id));
        let mut m: usize = 0;
        let n = self.pending.len();
        let mut found = false;
        while m < n && !found
            invariant
                0 <= m <= n,
                n == self.pending@.len(),
                self.pending@ == prev,
                id_s@ == id@,
                !found ==> forall|t: int| 0 <= t < m ==> (#[trigger] prev[t]).id@ != id@,
                found ==> m < n && prev[m as int].id@ == id@,
            decreases n - m + (if found {
                0int
            } else {
                1int
            }),
        {
            if self.pending[m].id == id_s {
                found = true;
            } else {
                m = m + 1;
            }
        }
        if found {
            let _gone = self.pending.remove(m);
            proof {
                assert(self.pending@ == prev.remove(m as int));
                assert(prev == old(self).pending@);
                assert forall|i: int|
                    0 <= i < self.pending@.len() implies !((#[trigger] self.pending@[i]).id@
                    == id@) && pending_mem(old(self).pending@, self.pending@[i]) by {
                    if i < m {
                        assert(self.pending@[i] == prev[i]);
                        assert(old(self).pending@[i] == self.pending@[i]);
                    } else {
                        assert(self.pending@[i] == prev[i + 1]);
                        assert(old(self).pending@[i + 1] == self.pending@[i]);
                    }
                }
                assert forall|i: int, j: int|
                    #![trigger self.pending@[i], self.pending@[j]]
                    0 <= i < j < self.pending@.len() implies self.pending@[i].id@
                    != self.pending@[j].id@ by {
                    let i0 = if i < m {
                        i
                    } else {
                        i + 1
                    };
                    let j0 = if j < m {
                        j
                    } else {
                        j + 1
                    };
                    assert(self.pending@[i] == prev[i0]);
                    assert(self.pending@[j] == prev[j0]);
                }
                assert forall|j: int|
                    0 <= j < old(self).pending@.len() && (#[trigger] old(self).pending@[j]).id@
                    != id@ implies pending_mem(self.pending@, old(self).pending@[j]) by {
                    assert(old(self).pending@[j] == prev[j]);
                    if j < m {
                        assert(self.pending@[j] == old(self).pending@[j]);
                    } else if j > m {
                        assert(self.pending@[j - 1] == old(self).pending@[j]);
                    }
                }
            }
        } else {
            proof {
                assert(prev == old(self).pending@);
                assert forall|j: int|
                    0 <= j < old(self).pending@.len() && (#[trigger] old(self).pending@[j]).id@
                    != id@ implies pending_mem(self.pending@, old(self).pending@[j]) by {
                    assert(self.pending@[j] == old(self).pending@[j]);
                }
                assert forall|i: int|
                    0 <= i < self.pending@.len() implies pending_mem(
                    old(self).pending@,
                    #[trigger] self.pending@[i],
                ) by {
                    assert(old(self).pending@[i] == self.pending@[i]);
                }
            }
        }
    }

    /// Queue a decision for review, replacing any pending entry with the
    /// same id, and hand back the id.
    pub fn enqueue(&mut self, decision: PendingDecision) -> (r: String)
        requires
            old(self).wf(),
        ensures
            final(self).wf(),
            r@ == decision.id@,
            pending_has(final(self).pending@, decision.id@),
            final(self).pending@.last() == decision,
            final(self).completed@ == old(self).completed@,
    {
        let id = decision.id.clone();
        self.remove_pending(id.as_str());
        let ghost mid = self.pending@;
        self.pending.push(decision);
        proof {
            assert(self.pending@ == mid.push(decision));
            assert(self.pending@[mid.len() as int] == decision);
            assert forall|i: int, j: int|
                #![trigger self.pending@[i], self.pending@[j]]
                0 <= i < j < self.pending@.len() implies self.pending@[i].id@
                != self.pending@[j].id@ by {
                if j < mid.len() {
                    assert(self.pending@[i] == mid[i]);
                    assert(self.pending@[j] == mid[j]);
                } else {
                    assert(self.pending@[i] == mid[i]);
                    assert(!pending_has(mid, decision.id@));
                }
            }
        }
        id
    }

    /// The pending decisions, in queue order.
    pub fn list_pending(&self) -> (r: Vec<PendingDecision>)
        ensures
            r@.len() == self.pending@.len(),
            forall|i: int| 0 <= i < r@.len() ==> #[trigger] r@[i] == self.pending@[i],
    {
        let mut r: Vec<PendingDecision> = Vec::new();
        let mut i: usize = 0;
        while i < self.pending.len()
            invariant
                0 <= i <= self.pending@.len(),
                r@.len() == i,
                forall|t: int| 0 <= t < i ==> #[trigger] r@[t] == self.pending@[t],
            decreases self.pending@.len() - i,
        {
            r.push(self.pending[i].clone());
            i = i + 1;
        }
        r
    }

    /// The pending decision with this id, if any.
    pub fn get_pending(&self, id: &str) -> (r: Option<PendingDecision>)
        ensures
            match r {
                Some(p) => p.id@ == id@ && exists|i: int|
                    0 <= i < self.pending@.len() && p == #[trigger] self.pending@[i],
                None => !pending_has(self.pending@, id@),
            },
    {
        let id_s = text::chars_to_string(&text::str_to_chars(id));
        let mut i: usize = 0;
        while i < self.pending.len()
            invariant
                0 <= i <= self.pending@.len(),
                id_s@ == id@,
                forall|t: int| 0 <= t < i ==> (#[trigger] self.pending@[t]).id@ != id@,
            decreases self.pending@.len() - i,
        {
            if self.pending[i].id == id_s {
                return Some(self.pending[i].clone());
            }
            i = i + 1;
        }
        None
    }

    /// Record a human response: the pending entry goes away and the
    /// response is kept until the waiting evaluation takes it.
    pub fn respond(&mut self, id: &str, response: HumanResponse) -> (r: Result<
        (),
        CaptainHookError,
    >)
        requires
            old(self).wf(),
        ensures
            r is Ok,
            final(self).wf(),
            !pending_has(final(self).pending@, id@),
            completed_has(final(self).completed@, id@),
            forall|i: int|
                0 <= i < final(self).completed@.len() && (#[trigger] final(self).completed@[
                    i
                ]).0@ == id@ ==> final(self).completed@[i].1 == response,
    {
        self.remove_pending(id);
        self.remove_completed(id);
        let ghost mid = self.completed@;
        let id_s = text::chars_to_string(&text::str_to_chars(id));
        self.completed.push((id_s, response));
        proof {
            assert(self.completed@ == mid.push((id_s, response)));
            assert(self.completed@[mid.len() as int].0@ == id@);
            assert forall|i: int, j: int|
                #![trigger self.completed@[i], self.completed@[j]]
                0 <= i < j < self.completed@.len() implies self.completed@[i].0@
                != self.completed@[j].0@ by {
                if j < mid.len() {
                    assert(self.completed@[i] == mid[i]);
                    assert(self.completed@[j] == mid[j]);
                } else {
                    assert(self.completed@[i] == mid[i]);
                    assert(!completed_has(mid, id@));
                }
            }
            assert forall|i: int|
                0 <= i < self.completed@.len() && (#[trigger] self.completed@[i]).0@ == id@
                implies self.completed@[i].1 == response by {
                if i < mid.len() {
                    assert(self.completed@[i] == mid[i]);
                    assert(!completed_has(mid, id@));
                }
            }
        }
        Ok(())
    }

    /// Remove the completed entry with this id, if one exists.
    pub fn remove_completed(&mut self, id: &str)
        requires
            old(self).wf(),
        ensures
            final(self).wf(),
            !completed_has(final(self).completed@, id@),
            final(self).pending@ == old(self).pending@,
    {
        let ghost prev = self.completed@;
        let id_s = text::chars_to_string(&text::str_to_chars(id));
        let mut m: usize = 0;
        let n = self.completed.len();
        let mut found = false;
        while m < n && !found
            invariant
                0 <= m <= n,
                n == self.completed@.len(),
                self.completed@ == prev,
                id_s@ == id@,
                !found ==> forall|t: int| 0 <= t < m ==> (#[trigger] prev[t]).0@ != id@,
                found ==> m < n && prev[m as int].0@ == id@,
            decreases n - m + (if found {
                0int
            } else {
                1int
            }),
        {
            if self.completed[m].0 == id_s {
                found = true;
            } else {
                m = m + 1;
            }
        }
        if found {
            let _gone = self.completed.remove(m);
            proof {
                assert(self.completed@ == prev.remove(m as int));
                assert forall|i: int|
                    0 <= i < self.completed@.len() implies !((#[trigger] self.completed@[i]).0@
                    == id@) by {
                    if i < m {
                        assert(self.completed@[i] == prev[i]);
                    } else {
                        assert(self.completed@[i] == prev[i + 1]);
                    }
                }
                assert forall|i: int, j: int|
                    #![trigger self.completed@[i], self.completed@[j]]
                    0 <= i < j < self.completed@.len() implies self.completed@[i].0@
                    != self.completed@[j].0@ by {
                    let i0 = if i < m {
                        i
                    } else {
                        i + 1
                    };
                    let j0 = if j < m {
                        j
                    } else {
                        j + 1
                    };
                    assert(self.completed@[i] == prev[i0]);
                    assert(self.completed@[j] == prev[j0]);
                }
            }
        }
    }

    /// Take the response for this id, removing it; the same response is
    /// handed out only once.
    pub fn take_response(&mut self, id: &str) -> (r: Option<HumanResponse>)
        requires
            old(self).wf(),
        ensures
            final(self).wf(),
            match r {
                Some(resp) => completed_has(old(self).completed@, id@) && (forall|i: int|
                    0 <= i < old(self).completed@.len() && (#[trigger] old(self).completed@[
                        i
                    ]).0@ == id@ ==> old(self).completed@[i].1 == resp),
                None => !completed_has(old(self).completed@, id@),
            },
            !completed_has(final(self).completed@, id@),
            final(self).pending@ == old(self).pending@,
    {
        let ghost prev = self.completed@;
        let id_s = text::chars_to_string(&text::str_to_chars(id));
        let mut m: usize = 0;
        let n = self.completed.len();
        let mut found = false;
        while m < n && !found
            invariant
                0 <= m <= n,
                n == self.completed@.len(),
                self == old(self),
                self.completed@ == prev,
                id_s@ == id@,
                !found ==> forall|t: int| 0 <= t < m ==> (#[trigger] prev[t]).0@ != id@,
                found ==> m < n && prev[m as int].0@ == id@,
            decreases n - m + (if found {
                0int
            } else {
                1int
            }),
        {
            if self.completed[m].0 == id_s {
                found = true;
            } else {
                m = m + 1;
            }
        }
        if found {
            let resp = self.completed[m].1;
            proof {
                assert forall|t: int|
                    0 <= t < prev.len() && (#[trigger] prev[t]).0@ == id@ implies prev[t].1
                    == resp by {
                    if t != m {
                        assert(prev[m as int].0@ != prev[t].0@);
                    }
                }
            }
            self.remove_completed(id);
            Some(resp)
        } else {
            None
        }
    }
}

/// Tier 5 configuration: how long to wait for a human.
pub struct HumanTier {
    pub timeout_secs: u64,
}

impl HumanTier {
    /// Remember the timeout.
    pub fn new(timeout_secs: u64) -> (r: HumanTier)
        ensures
            r.timeout_secs == timeout_secs,
    {
        HumanTier { timeout_secs }
    }

    /// Build the pending decision for one call: the id is role, tool and
    /// timestamp, joined by dashes.
    pub fn make_pending(
        &self,
        role: &str,
        tool_name: &str,
        sanitized_input: &str,
        file_path: &Option<String>,
        now: u64,
    ) -> (r: PendingDecision)
        ensures
            r.id@ == role@ + seq!['-'] + tool_name@ + seq!['-'] + text::dec_digits(now as nat),
            r.role@ == role@,
            r.tool_name@ == tool_name@,
            r.sanitized_input@ == sanitized_input@,
            r.queued_at == now,
            r.recommendation is None,
            !r.is_ask_reprompt,
            r.ask_reason is None,
            match (file_path, r.file_path) {
                (Some(p), Some(q)) => p@ == q@,
                (None, None) => true,
                _ => false,
            },
    {
        let mut idv: Vec<char> = Vec::new();
        text::push_str_chars(&mut idv, role);
        idv.push('-');
        text::push_str_chars(&mut idv, tool_name);
        idv.push('-');
        let digits = text::u64_digits(now);
        text::push_all(&mut idv, &digits);
        proof {
            assert(idv@ =~= role@ + seq!['-'] + tool_name@ + seq!['-'] + text::dec_digits(
                now as nat,
            ));
        }
        PendingDecision {
            id: text::chars_to_string(&idv),
            session_id: String::new(),
            role: text::chars_to_string(&text::str_to_chars(role)),
            tool_name: text::chars_to_string(&text::str_to_chars(tool_name)),
            sanitized_input: text::chars_to_string(&text::str_to_chars(sanitized_input)),
            file_path: match file_path {
                Some(p) => Some(p.clone()),
                None => None,
            },
            recommendation: None,
            is_ask_reprompt: false,
            ask_reason: None,
            queued_at: now,
        }
    }
}

/// Turn a human response into a decision record: `always_ask` caches the
/// decision as `ask`, a promoted rule keeps its chosen scope, everything
/// else persists at project scope.
pub fn human_record(
    key: CacheKey,
    file_path: Option<String>,
    response: &HumanResponse,
    reason: String,
    now: u64,
) -> (r: DecisionRecord)
    ensures
        r.key == key,
        r.decision == (if response.always_ask {
            Decision::Ask
        } else {
            response.decision
        }),
        r.metadata.tier is Human,
        r.metadata.confidence == 100,
        r.metadata.reason == reason,
        r.timestamp == now,
        r.scope == (match response.rule_scope {
            Some(sc) => sc,
            None => ScopeLevel::Project,
        }),
        r.file_path == file_path,
        r.session_id@ == Seq::<char>::empty(),
{
    let effective = if response.always_ask {
        Decision::Ask
    } else {
        response.decision
    };
    DecisionRecord {
        key,
        decision: effective,
        metadata: DecisionMetadata {
            tier: DecisionTier::Human,
            confidence: 100,
            reason,
            matched_key: None,
            similarity_score: None,
        },
        timestamp: now,
        scope: match response.rule_scope {
            Some(sc) => sc,
            None => ScopeLevel::Project,
        },
        file_path,
        session_id: String::new(),
    }
}

} // verus!
