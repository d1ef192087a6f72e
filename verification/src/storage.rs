//! Scoped persistence: decision records rendered as JSON lines for the
//! append-only per-scope logs, and load-time reconciliation where the
//! newest record wins per key and scope.

use vstd::prelude::*;
use crate::decision::{Decision, DecisionRecord, DecisionTier, ScopeLevel};
use crate::text;

verus! {

/// The JSON escape of one character: quotes and backslashes are escaped,
/// the common control characters become their short escapes, everything
/// else passes through.
pub open spec fn esc_char(c: char) -> Seq<char> {
    if c == '"' {
        seq!['\\', '"']
    } else if c == '\\' {
        seq!['\\', '\\']
    } else if c == '\n' {
        seq!['\\', 'n']
    } else if c == '\r' {
        seq!['\\', 'r']
    } else if c == '\t' {
        seq!['\\', 't']
    } else {
        seq![c]
    }
}

/// The JSON escape of a string.
pub open spec fn escape_spec(s: Seq<char>) -> Seq<char>
    decreases s.len(),
{
    if s.len() == 0 {
        Seq::empty()
    } else {
        esc_char(s[0]) + escape_spec(s.drop_first())
    }
}

/// Escape a string for embedding in a JSON string literal.
pub fn escape_json(s: &str) -> (r: String)
    ensures
        r@ == escape_spec(s@),
{
    let v = text::str_to_chars(s);
    let ghost sv = s@;
    proof {
        assert(sv.skip(0) =~= sv);
    }
    let mut out: Vec<char> = Vec::new();
    let mut i: usize = 0;
    while i < v.len()
        invariant
            0 <= i <= sv.len(),
            v@ == sv,
            escape_spec(sv) == out@ + escape_spec(sv.skip(i as int)),
        decreases sv.len() - i,
    {
        proof {
            assert(sv.skip(i as int)[0] == sv[i as int]);
            assert(sv.skip(i as int).drop_first() =~= sv.skip(i + 1));
        }
        let c = v[i];
        let ghost before = out@;
        if c == '"' {
            out.push('\\');
            out.push('"');
        } else if c == '\\' {
            out.push('\\');
            out.push('\\');
        } else if c == '\n' {
            out.push('\\');
            out.push('n');
        } else if c == '\r' {
            out.push('\\');
            out.push('r');
        } else if c == '\t' {
            out.push('\\');
            out.push('t');
        } else {
            out.push(c);
        }
        proof {
            assert(out@ =~= before + esc_char(sv[i as int]));
        }
        i = i + 1;
    }
    proof {
        assert(escape_spec(sv.skip(i as int)) =~= Seq::<char>::empty());
        assert(out@ =~= out@ + escape_spec(sv.skip(i as int)));
    }
    text::chars_to_string(&out)
}

/// The name a tier is persisted under.
pub open spec fn tier_text(t: DecisionTier) -> Seq<char> {
    match t {
        DecisionTier::PathPolicy => "path_policy"@,
        DecisionTier::ExactCache => "exact_cache"@,
        DecisionTier::TokenJaccard => "token_jaccard"@,
        DecisionTier::EmbeddingSimilarity => "embedding_similarity"@,
        DecisionTier::Supervisor => "supervisor"@,
        DecisionTier::Human => "human"@,
        DecisionTier::Default => "default"@,
    }
}

/// The persisted tier name.
pub fn tier_str(t: DecisionTier) -> (r: String)
    ensures
        r@ == tier_text(t),
{
    match t {
        DecisionTier::PathPolicy => text::chars_to_string(&text::str_to_chars("path_policy")),
        DecisionTier::ExactCache => text::chars_to_string(&text::str_to_chars("exact_cache")),
        DecisionTier::TokenJaccard => text::chars_to_string(
            &text::str_to_chars("token_jaccard"),
        ),
        DecisionTier::EmbeddingSimilarity => text::chars_to_string(
            &text::str_to_chars("embedding_similarity"),
        ),
        DecisionTier::Supervisor => text::chars_to_string(&text::str_to_chars("supervisor")),
        DecisionTier::Human => text::chars_to_string(&text::str_to_chars("human")),
        DecisionTier::Default => text::chars_to_string(&text::str_to_chars("default")),
    }
}

/// The rendered JSON line of one record. Confidence is in hundredths and
/// similarity in thousandths, kept as integers.
pub open spec fn record_line_spec(r: DecisionRecord) -> Seq<char> {
    "{\"key\":{\"sanitized_input\":\""@ + escape_spec(r.key.sanitized_input@)
        + "\",\"tool\":\""@ + escape_spec(r.key.tool@) + "\",\"role\":\""@ + escape_spec(
        r.key.role@,
    ) + "\"},\"decision\":\""@ + crate::hook_io::decision_text(r.decision) + "\",\"tier\":\""@
        + tier_text(r.metadata.tier) + "\",\"confidence\":"@ + text::dec_digits(
        r.metadata.confidence as nat,
    ) + ",\"reason\":\""@ + escape_spec(r.metadata.reason@) + "\",\"timestamp\":"@
        + text::dec_digits(r.timestamp as nat) + ",\"scope\":\""@ + scope_text(r.scope)
        + "\",\"session_id\":\""@ + escape_spec(r.session_id@) + "\"}"@
}

/// The name a scope is persisted under.
pub open spec fn scope_text(s: ScopeLevel) -> Seq<char> {
    match s {
        ScopeLevel::Org => "org"@,
        ScopeLevel::Project => "project"@,
        ScopeLevel::User => "user"@,
        ScopeLevel::Role => "role"@,
    }
}

/// Render one record as one JSON line for the append-only log. Every
/// text field is JSON-escaped; in particular the key's sanitized input
/// is persisted exactly as sanitized.
pub fn record_to_jsonl(r: &DecisionRecord) -> (line: String)
    ensures
        line@ == record_line_spec(*r),
{
    let mut out: Vec<char> = Vec::new();
    text::push_str_chars(&mut out, "{\"key\":{\"sanitized_input\":\"");
    let e1 = escape_json(r.key.sanitized_input.as_str());
    text::push_str_chars(&mut out, e1.as_str());
    text::push_str_chars(&mut out, "\",\"tool\":\"");
    let e2 = escape_json(r.key.tool.as_str());
    text::push_str_chars(&mut out, e2.as_str());
    text::push_str_chars(&mut out, "\",\"role\":\"");
    let e3 = escape_json(r.key.role.as_str());
    text::push_str_chars(&mut out, e3.as_str());
    text::push_str_chars(&mut out, "\"},\"decision\":\"");
    let d = crate::hook_io::decision_str(r.decision);
    text::push_str_chars(&mut out, d.as_str());
    text::push_str_chars(&mut out, "\",\"tier\":\"");
    let t = tier_str(r.metadata.tier);
    text::push_str_chars(&mut out, t.as_str());
    text::push_str_chars(&mut out, "\",\"confidence\":");
    let c = text::u64_digits(r.metadata.confidence as u64);
    text::push_all(&mut out, &c);
    text::push_str_chars(&mut out, ",\"reason\":\"");
    let e4 = escape_json(r.metadata.reason.as_str());
    text::push_str_chars(&mut out, e4.as_str());
    text::push_str_chars(&mut out, "\",\"timestamp\":");
    let ts = text::u64_digits(r.timestamp);
    text::push_all(&mut out, &ts);
    text::push_str_chars(&mut out, ",\"scope\":\"");
    text::push_str_chars(&mut out, r.scope.as_str());
    text::push_str_chars(&mut out, "\",\"session_id\":\"");
    let e5 = escape_json(r.session_id.as_str());
    text::push_str_chars(&mut out, e5.as_str());
    text::push_str_chars(&mut out, "\"}");
    proof {
        assert(out@ =~= record_line_spec(*r));
    }
    text::chars_to_string(&out)
}

/// Two records address the same rule slot: same key at the same scope.
pub open spec fn same_slot(a: DecisionRecord, b: DecisionRecord) -> bool {
    a.key@ == b.key@ && a.scope == b.scope
}

/// The list holds this exact record.
pub open spec fn rec_mem(s: Seq<DecisionRecord>, x: DecisionRecord) -> bool {
    exists|j: int| 0 <= j < s.len() && #[trigger] s[j] == x
}

/// Some list record covers this record's slot with an equal or newer
/// timestamp.
pub open spec fn slot_covered(s: Seq<DecisionRecord>, x: DecisionRecord) -> bool {
    exists|i: int|
        0 <= i < s.len() && same_slot(x, #[trigger] s[i]) && x.timestamp <= s[i].timestamp
}

/// Load-time reconciliation of an append-only log: one record per key
/// and scope survives, the one with the newest timestamp; first seen
/// wins a timestamp tie among later duplicates.
pub fn reconcile(records: Vec<DecisionRecord>) -> (r: Vec<DecisionRecord>)
    ensures
        forall|i: int, j: int|
            #![trigger r@[i], r@[j]]
            0 <= i < j < r@.len() ==> !same_slot(r@[i], r@[j]),
        forall|i: int| 0 <= i < r@.len() ==> rec_mem(records@, #[trigger] r@[i]),
        forall|t: int| 0 <= t < records@.len() ==> slot_covered(r@, #[trigger] records@[t]),
{
    let mut out: Vec<DecisionRecord> = Vec::new();
    let mut t: usize = 0;
    while t < records.len()
        invariant
            0 <= t <= records@.len(),
            forall|i: int, j: int|
                #![trigger out@[i], out@[j]]
                0 <= i < j < out@.len() ==> !same_slot(out@[i], out@[j]),
            forall|i: int| 0 <= i < out@.len() ==> rec_mem(records@, #[trigger] out@[i]),
            forall|u: int| 0 <= u < t ==> slot_covered(out@, #[trigger] records@[u]),
        decreases records@.len() - t,
    {
        let rec = &records[t];
        // Look for an existing record in the same slot.
        let mut m: usize = 0;
        let n = out.len();
        let mut found = false;
        while m < n && !found
            invariant
                0 <= m <= n,
                0 <= t < records@.len(),
                n == out@.len(),
                *rec == records@[t as int],
                !found ==> forall|x: int|
                    0 <= x < m ==> !same_slot(#[trigger] out@[x], records@[t as int]),
                found ==> m < n && same_slot(out@[m as int], records@[t as int]),
            decreases n - m + (if found {
                0int
            } else {
                1int
            }),
        {
            let keys_match = out[m].key.same_key(&rec.key);
            let scopes_match = out[m].scope == rec.scope;
            if keys_match && scopes_match {
                proof {
                    assert(out@[m as int].key@ == records@[t as int].key@);
                    assert(out@[m as int].scope == records@[t as int].scope);
                    assert(same_slot(out@[m as int], records@[t as int]));
                }
                found = true;
            } else {
                proof {
                    assert(!same_slot(out@[m as int], records@[t as int]));
                }
                m = m + 1;
            }
        }
        let ghost prev = out@;
        if found {
            if rec.timestamp > out[m].timestamp {
                // The newer record replaces the stored one.
                let _gone = out.remove(m);
                proof {
                    assert(out@ == prev.remove(m as int));
                }
                let ghost mid = out@;
                out.push(rec.clone());
                proof {
                    assert(out@ == mid.push(records@[t as int]));
                    assert(out@[mid.len() as int] == records@[t as int]);
                    assert forall|i: int, j: int|
                        #![trigger out@[i], out@[j]]
                        0 <= i < j < out@.len() implies !same_slot(out@[i], out@[j]) by {
                        let i0 = if i < m {
                            i
                        } else {
                            i + 1
                        };
                        if j < mid.len() {
                            let j0 = if j < m {
                                j
                            } else {
                                j + 1
                            };
                            assert(out@[i] == prev[i0]);
                            assert(out@[j] == prev[j0]);
                        } else {
                            assert(out@[i] == prev[i0]);
                            assert(!same_slot(prev[i0], prev[m as int]));
                        }
                    }
                    assert forall|i: int|
                        0 <= i < out@.len() implies rec_mem(records@, #[trigger] out@[i]) by {
                        if i < mid.len() {
                            let i0 = if i < m {
                                i
                            } else {
                                i + 1
                            };
                            assert(out@[i] == prev[i0]);
                            assert(rec_mem(records@, prev[i0]));
                        } else {
                            assert(records@[t as int] == out@[i]);
                        }
                    }
                    assert forall|u: int|
                        0 <= u < t + 1 implies slot_covered(out@, #[trigger] records@[u]) by {
                        if u < t {
                            let i1 = choose|i1: int|
                                0 <= i1 < prev.len() && same_slot(records@[u], #[trigger] prev[i1])
                                    && records@[u].timestamp <= prev[i1].timestamp;
                            if i1 == m {
                                assert(out@[mid.len() as int] == records@[t as int]);
                                assert(same_slot(records@[u], out@[mid.len() as int]));
                                assert(records@[u].timestamp <= out@[mid.len() as int].timestamp);
                            } else if i1 < m {
                                assert(out@[i1] == prev[i1]);
                                assert(same_slot(records@[u], out@[i1]));
                            } else {
                                assert(out@[i1 - 1] == prev[i1]);
                                assert(same_slot(records@[u], out@[i1 - 1]));
                            }
                        } else {
                            assert(out@[mid.len() as int] == records@[t as int]);
                            assert(same_slot(records@[u], out@[mid.len() as int]));
                        }
                    }
                }
            } else {
                proof {
                    assert forall|u: int|
                        0 <= u < t + 1 implies slot_covered(out@, #[trigger] records@[u]) by {
                        if u == t {
                            assert(same_slot(records@[t as int], out@[m as int]));
                            assert(records@[t as int].timestamp <= out@[m as int].timestamp);
                        }
                    }
                }
            }
        } else {
            out.push(rec.clone());
            proof {
                assert(out@ == prev.push(records@[t as int]));
                assert(out@[prev.len() as int] == records@[t as int]);
                assert forall|i: int, j: int|
                    #![trigger out@[i], out@[j]]
                    0 <= i < j < out@.len() implies !same_slot(out@[i], out@[j]) by {
                    if j < prev.len() {
                        assert(out@[i] == prev[i]);
                        assert(out@[j] == prev[j]);
                    } else {
                        assert(out@[i] == prev[i]);
                    }
                }
                assert forall|i: int|
                    0 <= i < out@.len() implies rec_mem(records@, #[trigger] out@[i]) by {
                    if i < prev.len() {
                        assert(out@[i] == prev[i]);
                        assert(rec_mem(records@, prev[i]));
                    } else {
                        assert(records@[t as int] == out@[i]);
                    }
                }
                assert forall|u: int|
                    0 <= u < t + 1 implies slot_covered(out@, #[trigger] records@[u]) by {
                    if u < t {
                        let i1 = choose|i1: int|
                            0 <= i1 < prev.len() && same_slot(records@[u], #[trigger] prev[i1])
                                && records@[u].timestamp <= prev[i1].timestamp;
                        assert(out@[i1] == prev[i1]);
                        assert(same_slot(records@[u], out@[i1]));
                    } else {
                        assert(out@[prev.len() as int] == records@[t as int]);
                        assert(same_slot(records@[u], out@[prev.len() as int]));
                    }
                }
            }
        }
        t = t + 1;
    }
    out
}

} // verus!
