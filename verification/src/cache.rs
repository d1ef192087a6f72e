//! Tier 1: the exact decision cache. A constant-time-in-spirit lookup by
//! cache key, holding at most one record per key; inserting a key again
//! replaces the stored record.

use vstd::prelude::*;
use crate::decision::{CacheKey, CacheKeyView, Decision, DecisionRecord};

verus! {

/// The list holds some record stored under `k`.
pub open spec fn cache_has(s: Seq<DecisionRecord>, k: CacheKeyView) -> bool {
    exists|i: int| 0 <= i < s.len() && (#[trigger] s[i]).key@ == k
}

/// Every record stored under `k` carries decision `d`.
pub open spec fn cache_decided(s: Seq<DecisionRecord>, k: CacheKeyView, d: Decision) -> bool {
    forall|i: int| 0 <= i < s.len() && (#[trigger] s[i]).key@ == k ==> s[i].decision == d
}

/// The list holds this exact record.
pub open spec fn cache_mem(s: Seq<DecisionRecord>, x: DecisionRecord) -> bool {
    exists|j: int| 0 <= j < s.len() && #[trigger] s[j] == x
}

/// The merge order over decisions for one key: a record displaces a
/// stored one exactly when it is more restrictive, or equally
/// restrictive at a wider scope.
pub open spec fn displaces(incoming: DecisionRecord, stored: DecisionRecord) -> bool {
    incoming.decision.precedence_spec() > stored.decision.precedence_spec() || (
    incoming.decision.precedence_spec() == stored.decision.precedence_spec()
        && incoming.scope.rank_spec() > stored.scope.rank_spec())
}

/// Displacement is a strict order: asymmetric and transitive.
pub proof fn lemma_displaces_strict(a: DecisionRecord, b: DecisionRecord, c: DecisionRecord)
    ensures
        displaces(a, b) ==> !displaces(b, a),
        displaces(a, b) && displaces(b, c) ==> displaces(a, c),
        !displaces(a, a),
{
}

/// Counts of cached decisions.
pub struct CacheStats {
    pub total_entries: usize,
    pub allow_entries: usize,
    pub deny_entries: usize,
    pub ask_entries: usize,
}

/// The in-memory exact cache: one record per cache key.
pub struct ExactCache {
    /// The stored records; kept one-per-key by the methods.
    pub records: Vec<DecisionRecord>,
}

impl ExactCache {
    /// The stored records.
    pub open spec fn view_spec(&self) -> Seq<DecisionRecord> {
        self.records@
    }

    /// At most one record per key.
    pub open spec fn wf(&self) -> bool {
        forall|i: int, j: int|
            #![trigger self.records@[i], self.records@[j]]
            0 <= i < j < self.records@.len() ==> self.records@[i].key@ != self.records@[j].key@
    }

    /// An empty cache.
    pub fn new() -> (r: ExactCache)
        ensures
            r.wf(),
            r.view_spec().len() == 0,
    {
        ExactCache { records: Vec::new() }
    }

    /// The number of cached records.
    pub fn len(&self) -> (r: usize)
        ensures
            r == self.view_spec().len(),
    {
        self.records.len()
    }

    /// The record stored under the key, if any.
    pub fn lookup(&self, key: &CacheKey) -> (r: Option<&DecisionRecord>)
        ensures
            match r {
                Some(rec) => cache_has(self.view_spec(), key@) && rec.key@ == key@ && exists|
                    i: int,
                |
                    0 <= i < self.view_spec().len() && *rec == #[trigger] self.view_spec()[i],
                None => !cache_has(self.view_spec(), key@),
            },
    {
        let mut i: usize = 0;
        while i < self.records.len()
            invariant
                0 <= i <= self.records@.len(),
                forall|t: int| 0 <= t < i ==> (#[trigger] self.records@[t]).key@ != key@,
            decreases self.records@.len() - i,
        {
            if self.records[i].key.same_key(key) {
                return Some(&self.records[i]);
            }
            i = i + 1;
        }
        None
    }

    /// Store a record under its key, replacing any record already stored
    /// under that key. Other keys are untouched.
    pub fn insert(&mut self, record: DecisionRecord)
        requires
            old(self).wf(),
        ensures
            final(self).wf(),
            cache_has(final(self).records@, record.key@),
            cache_decided(final(self).records@, record.key@, record.decision),
            exists|i: int|
                0 <= i < final(self).records@.len() && #[trigger] final(self).records@[i]
                    == record,
            forall|k: CacheKeyView|
                k != record.key@ ==> (cache_has(final(self).records@, k) == cache_has(
                    old(self).records@,
                    k,
                )),
            forall|i: int|
                0 <= i < final(self).records@.len() && (#[trigger] final(self).records@[i]).key@
                    != record.key@ ==> exists|j: int|
                    0 <= j < old(self).records@.len() && final(self).records@[i] == #[trigger] old(
                        self,
                    ).records@[j],
    {
        let ghost prev = self.records@;
        let mut m: usize = 0;
        let n = self.records.len();
        let mut found = false;
        while m < n && !found
            invariant
                0 <= m <= n,
                n == self.records@.len(),
                self.records@ == prev,
                !found ==> forall|t: int| 0 <= t < m ==> (#[trigger] prev[t]).key@ != record.key@,
                found ==> m < n && prev[m as int].key@ == record.key@,
            decreases n - m + (if found {
                0int
            } else {
                1int
            }),
        {
            if self.records[m].key.same_key(&record.key) {
                found = true;
            } else {
                m = m + 1;
            }
        }
        if found {
            let _old_rec = self.records.remove(m);
            proof {
                assert(self.records@ == prev.remove(m as int));
                assert forall|i: int, j: int|
                    #![trigger self.records@[i], self.records@[j]]
                    0 <= i < j < self.records@.len() implies self.records@[i].key@
                    != self.records@[j].key@ by {
                    let i0 = if i < m {
                        i
                    } else {
                        i + 1
                    };
                    let j0 = if j < m {
                        j
                    } else {
                        j + 1
                    };
                    assert(self.records@[i] == prev[i0]);
                    assert(self.records@[j] == prev[j0]);
                }
                assert forall|i: int|
                    0 <= i < self.records@.len() implies (#[trigger] self.records@[i]).key@
                    != record.key@ by {
                    if i < m {
                        assert(self.records@[i] == prev[i]);
                    } else {
                        assert(self.records@[i] == prev[i + 1]);
                    }
                }
            }
        }
        let ghost mid = self.records@;
        self.records.push(record);
        proof {
            assert(self.records@ == mid.push(record));
            assert(self.records@[mid.len() as int] == record);
            if !found {
                assert(mid == prev);
                assert(forall|t: int| 0 <= t < mid.len() ==> (#[trigger] mid[t]).key@ != record.key@);
            }
            assert forall|i: int, j: int|
                #![trigger self.records@[i], self.records@[j]]
                0 <= i < j < self.records@.len() implies self.records@[i].key@
                != self.records@[j].key@ by {
                if j < mid.len() {
                    assert(self.records@[i] == mid[i]);
                    assert(self.records@[j] == mid[j]);
                } else {
                    assert(self.records@[i] == mid[i]);
                    assert(self.records@[j] == record);
                }
            }
            assert forall|i: int|
                0 <= i < self.records@.len() && (#[trigger] self.records@[i]).key@ == record.key@
                implies self.records@[i].decision == record.decision by {
                if i < mid.len() {
                    assert(self.records@[i] == mid[i]);
                    assert(mid[i].key@ != record.key@);
                }
            }
            assert forall|k: CacheKeyView|
                k != record.key@ implies (cache_has(self.records@, k) == cache_has(
                prev,
                k,
            )) by {
                if cache_has(self.records@, k) {
                    let i = choose|i: int|
                        0 <= i < self.records@.len() && (#[trigger] self.records@[i]).key@ == k;
                    assert(i < mid.len());
                    assert(self.records@[i] == mid[i]);
                    if found {
                        let i0 = if i < m {
                            i
                        } else {
                            i + 1
                        };
                        assert(mid[i] == prev[i0]);
                        assert(cache_has(prev, k));
                    } else {
                        assert(cache_has(prev, k));
                    }
                }
                if cache_has(prev, k) {
                    let i = choose|i: int|
                        0 <= i < prev.len() && (#[trigger] prev[i]).key@ == k;
                    if found {
                        if i < m {
                            assert(mid[i] == prev[i]);
                            assert(self.records@[i] == prev[i]);
                        } else if i == m {
                            assert(prev[i].key@ == record.key@);
                        } else {
                            assert(mid[i - 1] == prev[i]);
                            assert(self.records@[i - 1] == prev[i]);
                        }
                    } else {
                        assert(self.records@[i] == prev[i]);
                    }
                }
            }
            assert(prev == old(self).records@);
            assert forall|i: int|
                0 <= i < self.records@.len() && (#[trigger] self.records@[i]).key@ != record.key@
                implies exists|j: int|
                0 <= j < old(self).records@.len() && self.records@[i] == #[trigger] old(
                self,
            ).records@[j] by {
                assert(i < mid.len());
                assert(self.records@[i] == mid[i]);
                if found {
                    let j0 = if i < m {
                        i
                    } else {
                        i + 1
                    };
                    assert(mid[i] == prev[j0]);
                    assert(prev[j0] == old(self).records@[j0]);
                } else {
                    assert(mid[i] == prev[i]);
                    assert(prev[i] == old(self).records@[i]);
                }
            }
        }
    }

    /// Store a record under its key by the merge rule: it replaces the
    /// stored record only when it displaces it — more restrictive wins,
    /// the wider scope breaks a tie — and is dropped otherwise.
    pub fn insert_restrictive(&mut self, record: DecisionRecord)
        requires
            old(self).wf(),
        ensures
            final(self).wf(),
            cache_has(final(self).records@, record.key@),
            forall|i: int|
                0 <= i < final(self).records@.len() && (#[trigger] final(self).records@[i]).key@
                    == record.key@ ==> (final(self).records@[i] == record || cache_mem(
                    old(self).records@,
                    final(self).records@[i],
                )),
            forall|i: int|
                0 <= i < final(self).records@.len() && (#[trigger] final(self).records@[i]).key@
                    == record.key@ ==> !displaces(record, final(self).records@[i]),
            forall|i: int|
                0 <= i < final(self).records@.len() && (#[trigger] final(self).records@[i]).key@
                    == record.key@ && final(self).records@[i] == record ==> (forall|j: int|
                    0 <= j < old(self).records@.len() && (#[trigger] old(self).records@[j]).key@
                        == record.key@ ==> displaces(record, old(self).records@[j]) || old(
                        self,
                    ).records@[j] == record),
            forall|k: CacheKeyView|
                k != record.key@ ==> (cache_has(final(self).records@, k) == cache_has(
                    old(self).records@,
                    k,
                )),
            forall|i: int|
                0 <= i < final(self).records@.len() && (#[trigger] final(self).records@[i]).key@
                    != record.key@ ==> cache_mem(old(self).records@, final(self).records@[i]),
    {
        let ghost prev = self.records@;
        let mut m: usize = 0;
        let n = self.records.len();
        let mut found = false;
        while m < n && !found
            invariant
                0 <= m <= n,
                n == self.records@.len(),
                self.records@ == prev,
                !found ==> forall|t: int| 0 <= t < m ==> (#[trigger] prev[t]).key@ != record.key@,
                found ==> m < n && prev[m as int].key@ == record.key@,
            decreases n - m + (if found {
                0int
            } else {
                1int
            }),
        {
            if self.records[m].key.same_key(&record.key) {
                found = true;
            } else {
                m = m + 1;
            }
        }
        if found {
            let stored_prec = self.records[m].decision.precedence();
            let stored_rank = self.records[m].scope.rank();
            let new_prec = record.decision.precedence();
            let new_rank = record.scope.rank();
            let should_replace = new_prec > stored_prec || (new_prec == stored_prec && new_rank
                > stored_rank);
            proof {
                assert(should_replace == displaces(record, prev[m as int]));
            }
            if should_replace {
                let _gone = self.records.remove(m);
                proof {
                    assert(self.records@ == prev.remove(m as int));
                    assert forall|i: int|
                        0 <= i < self.records@.len() implies (#[trigger] self.records@[i]).key@
                        != record.key@ && cache_mem(prev, self.records@[i]) by {
                        if i < m {
                            assert(self.records@[i] == prev[i]);
                        } else {
                            assert(self.records@[i] == prev[i + 1]);
                        }
                    }
                    assert forall|i: int, j: int|
                        #![trigger self.records@[i], self.records@[j]]
                        0 <= i < j < self.records@.len() implies self.records@[i].key@
                        != self.records@[j].key@ by {
                        let i0 = if i < m {
                            i
                        } else {
                            i + 1
                        };
                        let j0 = if j < m {
                            j
                        } else {
                            j + 1
                        };
                        assert(self.records@[i] == prev[i0]);
                        assert(self.records@[j] == prev[j0]);
                    }
                }
                let ghost mid = self.records@;
                self.records.push(record);
                proof {
                    assert(self.records@ == mid.push(record));
                    assert(self.records@[mid.len() as int] == record);
                    assert forall|i: int, j: int|
                        #![trigger self.records@[i], self.records@[j]]
                        0 <= i < j < self.records@.len() implies self.records@[i].key@
                        != self.records@[j].key@ by {
                        if j < mid.len() {
                            assert(self.records@[i] == mid[i]);
                            assert(self.records@[j] == mid[j]);
                        } else {
                            assert(self.records@[i] == mid[i]);
                        }
                    }
                    assert forall|i: int|
                        0 <= i < self.records@.len() && (#[trigger] self.records@[i]).key@
                        == record.key@ implies self.records@[i] == record by {
                        if i < mid.len() {
                            assert(self.records@[i] == mid[i]);
                        }
                    }
                    lemma_displaces_strict(record, record, record);
                    assert forall|k: CacheKeyView|
                        k != record.key@ implies (cache_has(self.records@, k) == cache_has(
                        prev,
                        k,
                    )) by {
                        if cache_has(self.records@, k) {
                            let i = choose|i: int|
                                0 <= i < self.records@.len() && (#[trigger] self.records@[
                                    i
                                ]).key@ == k;
                            assert(i < mid.len());
                            assert(cache_mem(prev, self.records@[i]));
                            let j = choose|j: int|
                                0 <= j < prev.len() && #[trigger] prev[j] == self.records@[i];
                            assert(cache_has(prev, k));
                        }
                        if cache_has(prev, k) {
                            let i = choose|i: int|
                                0 <= i < prev.len() && (#[trigger] prev[i]).key@ == k;
                            if i < m {
                                assert(self.records@[i] == prev[i]);
                            } else if i == m {
                            } else {
                                assert(self.records@[i - 1] == prev[i]);
                            }
                        }
                    }
                }
            } else {
                proof {
                    assert(cache_has(self.records@, record.key@));
                    assert forall|i: int|
                        0 <= i < self.records@.len() && (#[trigger] self.records@[i]).key@
                        == record.key@ implies self.records@[i] == prev[m as int] by {
                        if i != m {
                            assert(prev[i].key@ != prev[m as int].key@);
                        }
                    }
                    assert forall|i: int|
                        0 <= i < self.records@.len() implies cache_mem(
                        prev,
                        #[trigger] self.records@[i],
                    ) by {
                        assert(prev[i] == self.records@[i]);
                    }
                }
            }
        } else {
            let ghost mid = self.records@;
            self.records.push(record);
            proof {
                assert(self.records@ == mid.push(record));
                assert(self.records@[mid.len() as int] == record);
                assert(mid == prev);
                assert forall|i: int, j: int|
                    #![trigger self.records@[i], self.records@[j]]
                    0 <= i < j < self.records@.len() implies self.records@[i].key@
                    != self.records@[j].key@ by {
                    if j < mid.len() {
                        assert(self.records@[i] == mid[i]);
                        assert(self.records@[j] == mid[j]);
                    } else {
                        assert(self.records@[i] == mid[i]);
                    }
                }
                assert forall|i: int|
                    0 <= i < self.records@.len() && (#[trigger] self.records@[i]).key@
                    == record.key@ implies self.records@[i] == record by {
                    if i < mid.len() {
                        assert(self.records@[i] == mid[i]);
                        assert(mid[i].key@ != record.key@);
                    }
                }
                lemma_displaces_strict(record, record, record);
                assert forall|i: int|
                    0 <= i < self.records@.len() && (#[trigger] self.records@[i]).key@
                    != record.key@ implies cache_mem(prev, self.records@[i]) by {
                    assert(i < mid.len());
                    assert(self.records@[i] == prev[i]);
                }
                assert forall|k: CacheKeyView|
                    k != record.key@ implies (cache_has(self.records@, k) == cache_has(
                    prev,
                    k,
                )) by {
                    if cache_has(self.records@, k) {
                        let i = choose|i: int|
                            0 <= i < self.records@.len() && (#[trigger] self.records@[i]).key@
                                == k;
                        assert(i < mid.len());
                        assert(self.records@[i] == prev[i]);
                    }
                    if cache_has(prev, k) {
                        let i = choose|i: int| 0 <= i < prev.len() && (#[trigger] prev[i]).key@ == k;
                        assert(self.records@[i] == prev[i]);
                    }
                }
            }
        }
    }

    /// Seed the cache from loaded records by the scope-merge rule: for
    /// every key, the stored record is a participant — one of the loaded
    /// records under that key, or the record already cached — that no
    /// other participant displaces: the most restrictive decision wins,
    /// and the wider scope wins a restrictiveness tie. Newest-first
    /// reconciliation within one key and scope happens before loading.
    pub fn load_from(&mut self, records: Vec<DecisionRecord>)
        requires
            old(self).wf(),
        ensures
            final(self).wf(),
            forall|t: int|
                0 <= t < records@.len() ==> cache_has(
                    final(self).records@,
                    (#[trigger] records@[t]).key@,
                ),
            forall|j: int|
                0 <= j < old(self).records@.len() ==> cache_has(
                    final(self).records@,
                    (#[trigger] old(self).records@[j]).key@,
                ),
            forall|i: int|
                0 <= i < final(self).records@.len() ==> cache_mem(
                    records@,
                    #[trigger] final(self).records@[i],
                ) || cache_mem(old(self).records@, final(self).records@[i]),
            forall|i: int, t: int|
                #![trigger final(self).records@[i], records@[t]]
                0 <= i < final(self).records@.len() && 0 <= t < records@.len() && records@[
                    t
                ].key@ == final(self).records@[i].key@ ==> !displaces(
                    records@[t],
                    final(self).records@[i],
                ),
            forall|i: int, j: int|
                #![trigger final(self).records@[i], old(self).records@[j]]
                0 <= i < final(self).records@.len() && 0 <= j < old(self).records@.len() && old(
                    self,
                ).records@[j].key@ == final(self).records@[i].key@ ==> !displaces(
                    old(self).records@[j],
                    final(self).records@[i],
                ),
    {
        let n = records.len();
        let mut k: usize = 0;
        while k < n
            invariant
                self.wf(),
                n == records@.len(),
                0 <= k <= n,
                forall|t: int|
                    0 <= t < k ==> cache_has(self.records@, (#[trigger] records@[t]).key@),
                forall|j: int|
                    0 <= j < old(self).records@.len() ==> cache_has(
                        self.records@,
                        (#[trigger] old(self).records@[j]).key@,
                    ),
                forall|i: int|
                    0 <= i < self.records@.len() ==> cache_mem(
                        records@.take(k as int),
                        #[trigger] self.records@[i],
                    ) || cache_mem(old(self).records@, self.records@[i]),
                forall|i: int, t: int|
                    #![trigger self.records@[i], records@[t]]
                    0 <= i < self.records@.len() && 0 <= t < k && records@[t].key@
                        == self.records@[i].key@ ==> !displaces(records@[t], self.records@[i]),
                forall|i: int, j: int|
                    #![trigger self.records@[i], old(self).records@[j]]
                    0 <= i < self.records@.len() && 0 <= j < old(self).records@.len() && old(
                        self,
                    ).records@[j].key@ == self.records@[i].key@ ==> !displaces(
                        old(self).records@[j],
                        self.records@[i],
                    ),
            decreases n - k,
        {
            let rec = records[k].clone();
            let ghost prev = self.records@;
            self.insert_restrictive(rec);
            proof {
                let rk = records@[k as int].key@;
                let ghost tk = records@.take(k as int);
                let ghost tk1 = records@.take(k + 1);
                assert(tk1.drop_last() =~= tk);
                assert(tk1[k as int] == records@[k as int]);
                assert(forall|t: int| 0 <= t < k ==> tk1[t] == #[trigger] tk[t]);
                assert forall|t: int|
                    0 <= t < k + 1 implies cache_has(
                    self.records@,
                    (#[trigger] records@[t]).key@,
                ) by {
                    if t < k && records@[t].key@ != rk {
                        assert(cache_has(prev, records@[t].key@));
                    }
                }
                assert forall|j: int|
                    0 <= j < old(self).records@.len() implies cache_has(
                    self.records@,
                    (#[trigger] old(self).records@[j]).key@,
                ) by {
                    if old(self).records@[j].key@ != rk {
                        assert(cache_has(prev, old(self).records@[j].key@));
                    }
                }
                assert forall|i: int|
                    0 <= i < self.records@.len() implies cache_mem(
                    tk1,
                    #[trigger] self.records@[i],
                ) || cache_mem(old(self).records@, self.records@[i]) by {
                    if self.records@[i].key@ == rk {
                        if self.records@[i] == records@[k as int] {
                            assert(tk1[k as int] == self.records@[i]);
                            assert(cache_mem(tk1, self.records@[i]));
                        } else {
                            let jx = choose|jx: int|
                                0 <= jx < prev.len() && #[trigger] prev[jx] == self.records@[i];
                            if cache_mem(tk, prev[jx]) {
                                let tx = choose|tx: int|
                                    0 <= tx < tk.len() && #[trigger] tk[tx] == prev[jx];
                                assert(tk1[tx] == prev[jx]);
                                assert(cache_mem(tk1, self.records@[i]));
                            }
                        }
                    } else {
                        let jx = choose|jx: int|
                            0 <= jx < prev.len() && #[trigger] prev[jx] == self.records@[i];
                        if cache_mem(tk, prev[jx]) {
                            let tx = choose|tx: int|
                                0 <= tx < tk.len() && #[trigger] tk[tx] == prev[jx];
                            assert(tk1[tx] == prev[jx]);
                            assert(cache_mem(tk1, self.records@[i]));
                        }
                    }
                }
                assert forall|i: int, t: int|
                    #![trigger self.records@[i], records@[t]]
                    0 <= i < self.records@.len() && 0 <= t < k + 1 && records@[t].key@
                        == self.records@[i].key@ implies !displaces(
                    records@[t],
                    self.records@[i],
                ) by {
                    let cur = self.records@[i];
                    if cur.key@ == rk {
                        if t == k {
                            assert(!displaces(records@[k as int], cur));
                        } else {
                            // The stored record is the incoming one or the
                            // previously stored one; either way nothing
                            // earlier displaces it.
                            if cur == records@[k as int] {
                                if cache_has(prev, rk) {
                                    let jx = choose|jx: int|
                                        0 <= jx < prev.len() && (#[trigger] prev[jx]).key@ == rk;
                                    assert(displaces(records@[k as int], prev[jx]) || prev[jx]
                                        == records@[k as int]);
                                    assert(!displaces(records@[t], prev[jx]));
                                    lemma_displaces_strict(
                                        records@[t],
                                        records@[k as int],
                                        prev[jx],
                                    );
                                }
                            } else {
                                let jx = choose|jx: int|
                                    0 <= jx < prev.len() && #[trigger] prev[jx] == cur;
                                assert(!displaces(records@[t], prev[jx]));
                            }
                        }
                    } else {
                        let jx = choose|jx: int|
                            0 <= jx < prev.len() && #[trigger] prev[jx] == cur;
                        assert(!displaces(records@[t], prev[jx]));
                    }
                }
                assert forall|i: int, j: int|
                    #![trigger self.records@[i], old(self).records@[j]]
                    0 <= i < self.records@.len() && 0 <= j < old(self).records@.len() && old(
                        self,
                    ).records@[j].key@ == self.records@[i].key@ implies !displaces(
                    old(self).records@[j],
                    self.records@[i],
                ) by {
                    let cur = self.records@[i];
                    let oldrec = old(self).records@[j];
                    if cur.key@ == rk && cur == records@[k as int] {
                        if cache_has(prev, rk) {
                            let jx = choose|jx: int|
                                0 <= jx < prev.len() && (#[trigger] prev[jx]).key@ == rk;
                            assert(displaces(records@[k as int], prev[jx]) || prev[jx]
                                == records@[k as int]);
                            assert(!displaces(oldrec, prev[jx]));
                            lemma_displaces_strict(oldrec, records@[k as int], prev[jx]);
                        } else {
                            assert(!cache_has(prev, oldrec.key@));
                            assert(false);
                        }
                    } else {
                        let jx = choose|jx: int|
                            0 <= jx < prev.len() && #[trigger] prev[jx] == cur;
                        assert(!displaces(oldrec, prev[jx]));
                    }
                }
            }
            k = k + 1;
        }
        proof {
            assert(records@.take(n as int) =~= records@);
        }
    }

    /// Decision counts over the cached records.
    pub fn stats(&self) -> (r: CacheStats)
        ensures
            r.total_entries == self.view_spec().len(),
    {
        let mut allow: usize = 0;
        let mut deny: usize = 0;
        let mut ask: usize = 0;
        let mut i: usize = 0;
        while i < self.records.len()
            invariant
                0 <= i <= self.records@.len(),
                allow <= i && deny <= i && ask <= i,
            decreases self.records@.len() - i,
        {
            match self.records[i].decision {
                Decision::Allow => { allow = allow + 1; },
                Decision::Deny => { deny = deny + 1; },
                Decision::Ask => { ask = ask + 1; },
            }
            i = i + 1;
        }
        CacheStats {
            total_entries: self.records.len(),
            allow_entries: allow,
            deny_entries: deny,
            ask_entries: ask,
        }
    }
}

} // verus!
