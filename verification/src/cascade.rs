//! The cascade runner: one tool call resolved through the ordered tiers.
//! Path policy, exact cache and token similarity are evaluated inside
//! the library; the outside tiers — embedding neighbours, the remote
//! supervisor and the human queue — hand their outcomes in, and the
//! runner decides from them. Whichever tier resolves first wins; if none
//! does, the terminal default is deny.
//!
//! Persistence follows the tier: an exact-cache hit persists nothing, a
//! similarity hit is written into the exact cache only — so the same
//! fingerprint short-circuits at the cache from then on — and every
//! other resolution is written through to the cache, the token index and
//! the append-only log.

use vstd::prelude::*;
use crate::cache::{cache_decided, cache_has, ExactCache};
use crate::decision::{CacheKey, CacheKeyView, Decision, DecisionMetadata, DecisionRecord,
    DecisionTier, ScopeLevel};
use crate::embed::EmbeddingSimilarity;
use crate::error::CaptainHookError;
use crate::human::HumanResponse;
use crate::path_policy::{evaluate_paths, extract_bash_paths, relativize, PathPolicyEngine};
use crate::policy::PolicyConfig;
use crate::roles::{CompiledPathPolicy, RoleDefinition};
use crate::sanitize::{sanitize_spec, SanitizePipeline};
use crate::supervisor::SupervisorOutcome;
use crate::text;
use crate::token_sim::TokenJaccard;

verus! {

use vstd::string::StringExecFns;

/// What the host sends as the tool input, reduced to the fields the
/// cascade reads: the raw serialised payload for fingerprinting, and the
/// path-bearing fields by tool kind.
pub struct ToolInput {
    /// The raw serialised payload.
    pub raw: String,
    /// `file_path` for file tools.
    pub file_path: Option<String>,
    /// `path` for search tools.
    pub path: Option<String>,
    /// `command` for shell tools.
    pub command: Option<String>,
    /// `notebook_path` for notebook tools.
    pub notebook_path: Option<String>,
}

/// The session a tool call arrives in.
pub struct SessionContext {
    pub user: String,
    pub org: String,
    pub project: String,
    pub team: Option<String>,
    /// The registered role, if any.
    pub role: Option<RoleDefinition>,
    /// The role's compiled path policy, if any.
    pub path_policy: Option<CompiledPathPolicy>,
    pub agent_prompt_hash: Option<String>,
    pub agent_prompt_path: Option<String>,
    pub task_description: Option<String>,
    /// Milliseconds since the Unix epoch, when registered.
    pub registered_at: Option<u64>,
    pub disabled: bool,
}

/// The role name a session acts under; `*` when none is declared.
pub open spec fn role_name_spec(session: &SessionContext) -> Seq<char> {
    match session.role {
        Some(role) => role.name@,
        None => "*"@,
    }
}

/// The cache key a call is decided under.
pub open spec fn input_key_view(
    session: &SessionContext,
    tool_name: Seq<char>,
    tool_input: &ToolInput,
) -> CacheKeyView {
    CacheKeyView {
        sanitized_input: sanitize_spec(tool_input.raw@),
        tool: tool_name,
        role: role_name_spec(session),
    }
}

/// The reason text a path-policy record carries: the worst offending
/// path and the rule family it matched.
pub open spec fn path_reason_spec(d: Decision, p: Seq<char>) -> Seq<char> {
    match d {
        Decision::Deny => "path '"@ + p + "' denied by role path policy"@,
        Decision::Ask => "path '"@ + p + "' matches sensitive path pattern"@,
        Decision::Allow => "path '"@ + p + "' allowed by role path policy"@,
    }
}

/// The session identifier written on records: `org/project/user`.
pub open spec fn session_id_spec(session: &SessionContext) -> Seq<char> {
    session.org@ + seq!['/'] + session.project@ + seq!['/'] + session.user@
}

/// How the human tier answered, as the outside loop reports it.
pub enum HumanOutcome {
    /// A response arrived in time.
    Answered(HumanResponse),
    /// The timeout expired with no response.
    TimedOut,
    /// The tier was not consulted.
    Skipped,
}

/// The primary file path of a tool call: the fixed field of each named
/// file tool; shell commands carry none here.
pub open spec fn extract_file_path_spec(tool: Seq<char>, ti: &ToolInput) -> Option<Seq<char>> {
    if tool == "Write"@ || tool == "Edit"@ || tool == "Read"@ {
        match ti.file_path {
            Some(p) => Some(p@),
            None => None,
        }
    } else if tool == "Glob"@ || tool == "Grep"@ {
        match ti.path {
            Some(p) => Some(p@),
            None => None,
        }
    } else if tool == "NotebookEdit"@ {
        match ti.notebook_path {
            Some(p) => Some(p@),
            None => None,
        }
    } else {
        None
    }
}

/// Extract the primary file path for audit and prompts.
pub fn extract_file_path(tool_name: &str, tool_input: &ToolInput) -> (r: Option<String>)
    ensures
        match (r, extract_file_path_spec(tool_name@, tool_input)) {
            (Some(a), Some(b)) => a@ == b,
            (None, None) => true,
            _ => false,
        },
{
    if text::str_eq(tool_name, "Write") || text::str_eq(tool_name, "Edit") || text::str_eq(
        tool_name,
        "Read",
    ) {
        match &tool_input.file_path {
            Some(p) => Some(p.clone()),
            None => None,
        }
    } else if text::str_eq(tool_name, "Glob") || text::str_eq(tool_name, "Grep") {
        match &tool_input.path {
            Some(p) => Some(p.clone()),
            None => None,
        }
    } else if text::str_eq(tool_name, "NotebookEdit") {
        match &tool_input.notebook_path {
            Some(p) => Some(p.clone()),
            None => None,
        }
    } else {
        None
    }
}

/// The working directory as a value.
pub open spec fn cwd_view(cwd: Option<&String>) -> Option<Seq<char>> {
    match cwd {
        Some(c) => Some(c@),
        None => None,
    }
}

/// A path rebased against the working directory, when one is given.
pub open spec fn rel_opt_spec(p: Seq<char>, cv: Option<Seq<char>>) -> Seq<char> {
    match cv {
        Some(c) => crate::path_policy::relativize_spec(p, c),
        None => p,
    }
}

/// Whether a tool only reads.
pub open spec fn read_only_spec(tool: Seq<char>) -> bool {
    tool == "Read"@ || tool == "Glob"@ || tool == "Grep"@
}

/// The paths a call touches, before rebasing: the extraction battery
/// over the shell command, or the named file tool's fixed field.
pub open spec fn raw_paths_spec(tool: Seq<char>, ti: &ToolInput) -> Seq<Seq<char>> {
    if tool == "Bash"@ {
        match ti.command {
            Some(c) => crate::path_policy::bash_kept(c@),
            None => crate::path_policy::bash_kept(sanitize_spec(ti.raw@)),
        }
    } else {
        match extract_file_path_spec(tool, ti) {
            Some(p) => seq![p],
            None => Seq::empty(),
        }
    }
}

/// The executable path list and the path set hold the same values.
pub open spec fn path_set_matches(exec_paths: Seq<String>, spec_paths: Seq<Seq<char>>) -> bool {
    &&& forall|k: int|
        0 <= k < exec_paths.len() ==> crate::path_policy::seq_mem(
            spec_paths,
            (#[trigger] exec_paths[k])@,
        )
    &&& forall|t: int|
        0 <= t < spec_paths.len() ==> crate::path_policy::view_mem(
            exec_paths,
            #[trigger] spec_paths[t],
        )
}

/// Whether the path tier resolves: the session has a compiled policy and
/// some extracted, rebased path draws a verdict.
pub open spec fn tier0_resolves(
    session: &SessionContext,
    tool: Seq<char>,
    ti: &ToolInput,
    cv: Option<Seq<char>>,
) -> bool {
    match session.path_policy {
        Some(pol) => exists|t: int|
            0 <= t < raw_paths_spec(tool, ti).len() && crate::path_policy::path_verdict_spec(
                &pol,
                read_only_spec(tool),
                rel_opt_spec(#[trigger] raw_paths_spec(tool, ti)[t], cv),
            ) is Some,
        None => false,
    }
}

/// What the path tier decides: `wp` is an extracted, rebased path whose
/// verdict is `d`, and no extracted path draws a more restrictive
/// verdict.
pub open spec fn path_tier_outcome(
    session: &SessionContext,
    tool: Seq<char>,
    ti: &ToolInput,
    cv: Option<Seq<char>>,
    d: Decision,
    wp: Seq<char>,
) -> bool {
    match session.path_policy {
        Some(pol) => {
            let raw = raw_paths_spec(tool, ti);
            let ro = read_only_spec(tool);
            &&& (exists|t: int|
                0 <= t < raw.len() && rel_opt_spec(#[trigger] raw[t], cv) == wp
                    && crate::path_policy::path_verdict_spec(&pol, ro, wp) == Some(d))
            &&& (forall|t: int|
                0 <= t < raw.len() ==> (match crate::path_policy::path_verdict_spec(
                    &pol,
                    ro,
                    rel_opt_spec(#[trigger] raw[t], cv),
                ) {
                    Some(d2) => d2.precedence_spec() <= d.precedence_spec(),
                    None => true,
                }))
        },
        None => false,
    }
}

/// What a path-tier record says: its file path carries the worst
/// offending path and its decision that path's verdict.
pub open spec fn path_tier_exact(
    session: &SessionContext,
    tool: Seq<char>,
    ti: &ToolInput,
    cv: Option<Seq<char>>,
    rec: DecisionRecord,
) -> bool {
    match rec.file_path {
        Some(wp) => path_tier_outcome(session, tool, ti, cv, rec.decision, wp@),
        None => false,
    }
}

/// The tier selection law: exactly one tier resolves, the first whose
/// condition holds — the path tier when it draws a verdict, the exact
/// cache on a cached key, the token tier on a similar stored decision,
/// the supervisor at or over the confidence gate, the human on an
/// answer; a timeout is the error, and silence ends in the default.
pub open spec fn tier_selection(
    pre: CascadeRunner,
    session: &SessionContext,
    tool: Seq<char>,
    ti: &ToolInput,
    cv: Option<Seq<char>>,
    supervisor: Option<&SupervisorOutcome>,
    human: &HumanOutcome,
    r: Result<DecisionRecord, CaptainHookError>,
) -> bool {
    let t0 = tier0_resolves(session, tool, ti, cv);
    let cached = cache_has(pre.exact_cache.records@, input_key_view(session, tool, ti));
    let tok = crate::token_sim::token_resolves(
        pre.token_jaccard.entries@,
        tool,
        sanitize_spec(ti.raw@),
        pre.token_jaccard.threshold_milli,
        pre.token_jaccard.min_tokens as int,
    );
    let sup = match supervisor {
        Some(o) => o.confidence >= pre.policy.confidence.project,
        None => false,
    };
    &&& (r matches Ok(rec) ==> (rec.metadata.tier is PathPolicy <==> t0))
    &&& (r matches Ok(rec) ==> (rec.metadata.tier is ExactCache <==> !t0 && cached))
    &&& (r matches Ok(rec) ==> (rec.metadata.tier is TokenJaccard <==> !t0 && !cached && tok))
    &&& (r matches Ok(rec) ==> (rec.metadata.tier is Supervisor <==> !t0 && !cached && !tok
        && sup))
    &&& (r matches Ok(rec) ==> (rec.metadata.tier is Human <==> !t0 && !cached && !tok && !sup
        && human is Answered))
    &&& (r matches Ok(rec) ==> (rec.metadata.tier is Default <==> !t0 && !cached && !tok && !sup
        && human is Skipped))
    &&& ((r is Err) <==> (!t0 && !cached && !tok && !sup && human is TimedOut))
}

/// The complete cascade runner for one process: the sanitizer, the
/// deterministic tiers' state, the policy knobs and the log of records
/// waiting to be appended to the persistent store.
pub struct CascadeRunner {
    pub sanitizer: SanitizePipeline,
    pub path_policy: PathPolicyEngine,
    pub exact_cache: ExactCache,
    pub token_jaccard: TokenJaccard,
    pub embedding_similarity: EmbeddingSimilarity,
    pub policy: PolicyConfig,
    /// Records to be appended to the JSONL store, in order.
    pub log: Vec<DecisionRecord>,
}

impl CascadeRunner {
    /// The runner's structural invariant: the cache holds one record per
    /// key.
    pub open spec fn wf(&self) -> bool {
        self.exact_cache.wf()
    }

    /// Run the cascade for one tool call, with no working directory.
    /// The contract is that of `evaluate_with_cwd`.
    pub fn evaluate(
        &mut self,
        session: &SessionContext,
        tool_name: &str,
        tool_input: &ToolInput,
        supervisor: Option<&SupervisorOutcome>,
        human: &HumanOutcome,
        now: u64,
    ) -> (r: Result<DecisionRecord, CaptainHookError>)
        requires
            old(self).wf(),
        ensures
            final(self).wf(),
            r matches Ok(rec) ==> rec.key@ == input_key_view(session, tool_name@, tool_input)
                && rec.timestamp == now && rec.session_id@ == session_id_spec(session),
            r matches Ok(rec) ==> (cache_has(
                old(self).exact_cache.records@,
                input_key_view(session, tool_name@, tool_input),
            ) ==> rec.metadata.tier is PathPolicy || rec.metadata.tier is ExactCache),
            r matches Ok(rec) ==> (rec.metadata.tier is ExactCache ==> cache_has(
                old(self).exact_cache.records@,
                input_key_view(session, tool_name@, tool_input),
            ) && exists|i: int|
                0 <= i < old(self).exact_cache.records@.len() && (#[trigger] old(
                    self,
                ).exact_cache.records@[i]).key@ == input_key_view(session, tool_name@, tool_input)
                    && rec.decision == old(self).exact_cache.records@[i].decision),
            r matches Ok(rec) ==> (rec.metadata.tier is Default ==> rec.decision is Deny
                && rec.scope is Project && rec.metadata.confidence == 100
                && rec.metadata.reason@ == "no cascade tier resolved; default deny"@),
            r matches Ok(rec) ==> (rec.metadata.tier is Supervisor ==> (match supervisor {
                Some(o) => o.confidence >= old(self).policy.confidence.project && rec.decision
                    == o.decision && rec.scope is Project && rec.metadata.confidence
                    == o.confidence && rec.metadata.reason == o.reason,
                None => false,
            })),
            r matches Ok(rec) ==> (rec.metadata.tier is Human ==> (match human {
                HumanOutcome::Answered(resp) => rec.decision == (if resp.always_ask {
                    Decision::Ask
                } else {
                    resp.decision
                }) && rec.scope == (match resp.rule_scope {
                    Some(sc) => sc,
                    None => ScopeLevel::Project,
                }) && rec.metadata.confidence == 100 && rec.metadata.reason@
                    == "human decision: "@ + crate::hook_io::decision_text(resp.decision),
                _ => false,
            })),
            r matches Ok(rec) ==> (rec.metadata.tier is PathPolicy ==> rec.scope is Role
                && rec.metadata.confidence == 100 && session.path_policy is Some && (match
            rec.file_path {
                Some(wp) => rec.metadata.reason@ == path_reason_spec(rec.decision, wp@),
                None => false,
            })),
            r matches Ok(rec) ==> !(rec.metadata.tier is EmbeddingSimilarity),
            tier_selection(
                *old(self),
                session,
                tool_name@,
                tool_input,
                Option::<Seq<char>>::None,
                supervisor,
                human,
                r,
            ),
            r matches Ok(rec) ==> (rec.metadata.tier is PathPolicy ==> path_tier_exact(
                session,
                tool_name@,
                tool_input,
                Option::<Seq<char>>::None,
                rec,
            )),
            r matches Ok(rec) ==> (rec.metadata.tier is TokenJaccard ==> old(
                self,
            ).token_jaccard.entries_spec().len() > 0 && rec.metadata.similarity_score is Some),
            r matches Err(e) ==> e is HumanTimeout && human is TimedOut,
            r matches Err(e) ==> (e matches CaptainHookError::HumanTimeout { timeout_secs }
                ==> timeout_secs == old(self).policy.human_timeout_secs),
            final(self).policy == old(self).policy,
            r matches Ok(rec) ==> (!(rec.metadata.tier is PathPolicy) ==> (match (
                rec.file_path,
                extract_file_path_spec(tool_name@, tool_input),
            ) {
                (Some(a), Some(b)) => a@ == b,
                (None, None) => true,
                _ => false,
            })),
            human is TimedOut ==> r is Err || (r matches Ok(rec) && !(rec.metadata.tier
                is Human) && !(rec.metadata.tier is Default)),
            r matches Ok(rec) ==> (!(rec.metadata.tier is ExactCache) ==> cache_has(
                final(self).exact_cache.records@,
                input_key_view(session, tool_name@, tool_input),
            ) && cache_decided(
                final(self).exact_cache.records@,
                input_key_view(session, tool_name@, tool_input),
                rec.decision,
            )),
            r matches Ok(rec) ==> (rec.metadata.tier is ExactCache ==> final(self).exact_cache
                == old(self).exact_cache && final(self).log@ == old(self).log@),
            r matches Ok(rec) ==> ((rec.metadata.tier is PathPolicy || rec.metadata.tier
                is Supervisor || rec.metadata.tier is Human || rec.metadata.tier is Default)
                ==> final(self).log@ == old(self).log@.push(rec)),
            r matches Ok(rec) ==> ((rec.metadata.tier is TokenJaccard || rec.metadata.tier
                is EmbeddingSimilarity) ==> final(self).log@ == old(self).log@),
            r matches Ok(rec) ==> ((rec.metadata.tier is PathPolicy || rec.metadata.tier
                is Supervisor || rec.metadata.tier is Human || rec.metadata.tier is Default)
                ==> {
                &&& final(self).token_jaccard.entries_spec().len()
                    == old(self).token_jaccard.entries_spec().len() + 1
                &&& final(self).token_jaccard.entries_spec().last().record == rec
                &&& crate::token_sim::token_set_of(
                    final(self).token_jaccard.entries_spec().last().tokens@,
                    rec.key.sanitized_input@,
                )
                &&& forall|i: int|
                    0 <= i < old(self).token_jaccard.entries_spec().len()
                        ==> #[trigger] final(self).token_jaccard.entries_spec()[i]
                        == old(self).token_jaccard.entries_spec()[i]
            }),
            r matches Ok(rec) ==> ((rec.metadata.tier is ExactCache || rec.metadata.tier
                is TokenJaccard || rec.metadata.tier is EmbeddingSimilarity)
                ==> final(self).token_jaccard == old(self).token_jaccard),
            r is Err ==> final(self).exact_cache == old(self).exact_cache
                && final(self).token_jaccard == old(self).token_jaccard && final(self).log@
                == old(self).log@,
    {
        self.evaluate_with_cwd(session, tool_name, tool_input, None, supervisor, human, now)
    }

    /// Run the cascade for one tool call.
    ///
    /// The record's key is always the sanitized fingerprint, the tool
    /// and the role. A key already decided in the exact cache resolves
    /// there — with that decision — unless the path policy resolves
    /// first. The supervisor resolves only at or over the project
    /// confidence threshold; a human answer resolves as given, with
    /// `always_ask` cached as ask; a human timeout is the only error.
    /// Every resolution except an exact-cache hit leaves the key decided
    /// in the cache; similarity hits are cached but not logged, and
    /// path-policy, supervisor, human and default resolutions are
    /// appended to the log.
    #[verifier::rlimit(100)]
    pub fn evaluate_with_cwd(
        &mut self,
        session: &SessionContext,
        tool_name: &str,
        tool_input: &ToolInput,
        cwd: Option<&String>,
        supervisor: Option<&SupervisorOutcome>,
        human: &HumanOutcome,
        now: u64,
    ) -> (r: Result<DecisionRecord, CaptainHookError>)
        requires
            old(self).wf(),
        ensures
            final(self).wf(),
            r matches Ok(rec) ==> rec.key@ == input_key_view(session, tool_name@, tool_input)
                && rec.timestamp == now && rec.session_id@ == session_id_spec(session),
            r matches Ok(rec) ==> (cache_has(
                old(self).exact_cache.records@,
                input_key_view(session, tool_name@, tool_input),
            ) ==> rec.metadata.tier is PathPolicy || rec.metadata.tier is ExactCache),
            r matches Ok(rec) ==> (rec.metadata.tier is ExactCache ==> cache_has(
                old(self).exact_cache.records@,
                input_key_view(session, tool_name@, tool_input),
            ) && exists|i: int|
                0 <= i < old(self).exact_cache.records@.len() && (#[trigger] old(
                    self,
                ).exact_cache.records@[i]).key@ == input_key_view(session, tool_name@, tool_input)
                    && rec.decision == old(self).exact_cache.records@[i].decision),
            r matches Ok(rec) ==> (rec.metadata.tier is Default ==> rec.decision is Deny
                && rec.scope is Project && rec.metadata.confidence == 100
                && rec.metadata.reason@ == "no cascade tier resolved; default deny"@),
            r matches Ok(rec) ==> (rec.metadata.tier is Supervisor ==> (match supervisor {
                Some(o) => o.confidence >= old(self).policy.confidence.project && rec.decision
                    == o.decision && rec.scope is Project && rec.metadata.confidence
                    == o.confidence && rec.metadata.reason == o.reason,
                None => false,
            })),
            r matches Ok(rec) ==> (rec.metadata.tier is Human ==> (match human {
                HumanOutcome::Answered(resp) => rec.decision == (if resp.always_ask {
                    Decision::Ask
                } else {
                    resp.decision
                }) && rec.scope == (match resp.rule_scope {
                    Some(sc) => sc,
                    None => ScopeLevel::Project,
                }) && rec.metadata.confidence == 100 && rec.metadata.reason@
                    == "human decision: "@ + crate::hook_io::decision_text(resp.decision),
                _ => false,
            })),
            r matches Ok(rec) ==> (rec.metadata.tier is PathPolicy ==> rec.scope is Role
                && rec.metadata.confidence == 100 && session.path_policy is Some && (match
            rec.file_path {
                Some(wp) => rec.metadata.reason@ == path_reason_spec(rec.decision, wp@),
                None => false,
            })),
            r matches Ok(rec) ==> !(rec.metadata.tier is EmbeddingSimilarity),
            tier_selection(
                *old(self),
                session,
                tool_name@,
                tool_input,
                cwd_view(cwd),
                supervisor,
                human,
                r,
            ),
            r matches Ok(rec) ==> (rec.metadata.tier is PathPolicy ==> path_tier_exact(
                session,
                tool_name@,
                tool_input,
                cwd_view(cwd),
                rec,
            )),
            r matches Ok(rec) ==> (rec.metadata.tier is TokenJaccard ==> old(
                self,
            ).token_jaccard.entries_spec().len() > 0 && rec.metadata.similarity_score is Some),
            r matches Err(e) ==> e is HumanTimeout && human is TimedOut,
            r matches Err(e) ==> (e matches CaptainHookError::HumanTimeout { timeout_secs }
                ==> timeout_secs == old(self).policy.human_timeout_secs),
            final(self).policy == old(self).policy,
            r matches Ok(rec) ==> (!(rec.metadata.tier is PathPolicy) ==> (match (
                rec.file_path,
                extract_file_path_spec(tool_name@, tool_input),
            ) {
                (Some(a), Some(b)) => a@ == b,
                (None, None) => true,
                _ => false,
            })),
            human is TimedOut ==> r is Err || (r matches Ok(rec) && !(rec.metadata.tier
                is Human) && !(rec.metadata.tier is Default)),
            r matches Ok(rec) ==> (!(rec.metadata.tier is ExactCache) ==> cache_has(
                final(self).exact_cache.records@,
                input_key_view(session, tool_name@, tool_input),
            ) && cache_decided(
                final(self).exact_cache.records@,
                input_key_view(session, tool_name@, tool_input),
                rec.decision,
            )),
            r matches Ok(rec) ==> (rec.metadata.tier is ExactCache ==> final(self).exact_cache
                == old(self).exact_cache && final(self).log@ == old(self).log@),
            r matches Ok(rec) ==> ((rec.metadata.tier is PathPolicy || rec.metadata.tier
                is Supervisor || rec.metadata.tier is Human || rec.metadata.tier is Default)
                ==> final(self).log@ == old(self).log@.push(rec)),
            r matches Ok(rec) ==> ((rec.metadata.tier is TokenJaccard || rec.metadata.tier
                is EmbeddingSimilarity) ==> final(self).log@ == old(self).log@),
            r matches Ok(rec) ==> ((rec.metadata.tier is PathPolicy || rec.metadata.tier
                is Supervisor || rec.metadata.tier is Human || rec.metadata.tier is Default)
                ==> {
                &&& final(self).token_jaccard.entries_spec().len()
                    == old(self).token_jaccard.entries_spec().len() + 1
                &&& final(self).token_jaccard.entries_spec().last().record == rec
                &&& crate::token_sim::token_set_of(
                    final(self).token_jaccard.entries_spec().last().tokens@,
                    rec.key.sanitized_input@,
                )
                &&& forall|i: int|
                    0 <= i < old(self).token_jaccard.entries_spec().len()
                        ==> #[trigger] final(self).token_jaccard.entries_spec()[i]
                        == old(self).token_jaccard.entries_spec()[i]
            }),
            r matches Ok(rec) ==> ((rec.metadata.tier is ExactCache || rec.metadata.tier
                is TokenJaccard || rec.metadata.tier is EmbeddingSimilarity)
                ==> final(self).token_jaccard == old(self).token_jaccard),
            r is Err ==> final(self).exact_cache == old(self).exact_cache
                && final(self).token_jaccard == old(self).token_jaccard && final(self).log@
                == old(self).log@,
    {
        let ghost kv = input_key_view(session, tool_name@, tool_input);
        // Sanitize the raw payload into the fingerprint.
        let sanitized = self.sanitizer.sanitize(tool_input.raw.as_str());
        let role_name = match &session.role {
            Some(role) => role.name.clone(),
            None => String::from_str("*"),
        };
        let key = CacheKey {
            sanitized_input: sanitized.clone(),
            tool: text::chars_to_string(&text::str_to_chars(tool_name)),
            role: role_name.clone(),
        };
        proof {
            assert(key@ == kv);
        }
        let file_path = extract_file_path(tool_name, tool_input);
        let mut sid: Vec<char> = Vec::new();
        text::push_str_chars(&mut sid, session.org.as_str());
        sid.push('/');
        text::push_str_chars(&mut sid, session.project.as_str());
        sid.push('/');
        text::push_str_chars(&mut sid, session.user.as_str());
        proof {
            assert(sid@ =~= session_id_spec(session));
        }
        let session_id = text::chars_to_string(&sid);

        // Tier 0: path policy.
        match Self::run_path_tier(session, tool_name, tool_input, &sanitized, &file_path, cwd) {
            Some((decision, worst_path)) => {
                let mut reason: Vec<char> = Vec::new();
                text::push_str_chars(&mut reason, "path '");
                text::push_str_chars(&mut reason, worst_path.as_str());
                match decision {
                    Decision::Deny => {
                        text::push_str_chars(&mut reason, "' denied by role path policy");
                    },
                    Decision::Ask => {
                        text::push_str_chars(&mut reason, "' matches sensitive path pattern");
                    },
                    Decision::Allow => {
                        text::push_str_chars(&mut reason, "' allowed by role path policy");
                    },
                }
                proof {
                    assert(reason@ =~= path_reason_spec(decision, worst_path@));
                }
                let record = DecisionRecord {
                    key,
                    decision,
                    metadata: DecisionMetadata {
                        tier: DecisionTier::PathPolicy,
                        confidence: 100,
                        reason: text::chars_to_string(&reason),
                        matched_key: None,
                        similarity_score: None,
                    },
                    timestamp: now,
                    scope: ScopeLevel::Role,
                    file_path: Some(worst_path),
                    session_id,
                };
                self.persist_full(&record);
                return Ok(record);
            },
            None => {},
        }

        // Tier 1: exact cache.
        match self.exact_cache.lookup(&key) {
            Some(cached) => {
                let cached_decision = cached.decision;
                let cached_key = cached.key.clone();
                let cached_scope = cached.scope;
                proof {
                    assert(cache_has(self.exact_cache.records@, kv));
                }
                let record = DecisionRecord {
                    key,
                    decision: cached_decision,
                    metadata: DecisionMetadata {
                        tier: DecisionTier::ExactCache,
                        confidence: 100,
                        reason: text::chars_to_string(&text::str_to_chars("exact cache hit")),
                        matched_key: Some(cached_key),
                        similarity_score: None,
                    },
                    timestamp: now,
                    scope: cached_scope,
                    file_path,
                    session_id,
                };
                return Ok(record);
            },
            None => {},
        }

        // Tier 2: token-set similarity.
        let tokens = crate::token_sim::tokenize(sanitized.as_str());
        let ghost fp_spec = sanitize_spec(tool_input.raw@);
        proof {
            assert(crate::token_sim::token_set_of(tokens@, fp_spec));
        }
        match self.token_jaccard.evaluate(tool_name, &tokens) {
            Some((matched, score)) => {
                proof {
                    assert(crate::token_sim::token_resolves(
                        self.token_jaccard.entries@,
                        tool_name@,
                        fp_spec,
                        self.token_jaccard.threshold_milli,
                        self.token_jaccard.min_tokens as int,
                    ));
                }
                let record = DecisionRecord {
                    key,
                    decision: matched.decision,
                    metadata: DecisionMetadata {
                        tier: DecisionTier::TokenJaccard,
                        confidence: 100,
                        reason: text::chars_to_string(
                            &text::str_to_chars("token similarity match"),
                        ),
                        matched_key: Some(matched.key.clone()),
                        similarity_score: Some(score),
                    },
                    timestamp: now,
                    scope: ScopeLevel::Project,
                    file_path,
                    session_id,
                };
                // Prevent ask drift: a similarity hit is written into the
                // exact cache so the same fingerprint hits tier 1 next time.
                self.exact_cache.insert(record.clone());
                return Ok(record);
            },
            None => {
                proof {
                    crate::token_sim::lemma_token_resolves_agrees(
                        self.token_jaccard.entries@,
                        tool_name@,
                        fp_spec,
                        self.token_jaccard.threshold_milli,
                        self.token_jaccard.min_tokens as int,
                        tokens@,
                    );
                    assert(!crate::token_sim::token_resolves(
                        self.token_jaccard.entries@,
                        tool_name@,
                        fp_spec,
                        self.token_jaccard.threshold_milli,
                        self.token_jaccard.min_tokens as int,
                    ));
                }
            },
        }

        // Tier 3: embedding similarity. Without an encoder the tier is a
        // constant fall-through; its vote logic lives with the embed tier.
        let _embedding = self.embedding_similarity.evaluate();

        // Tier 4: the remote supervisor, behind the confidence gate.
        if let Some(o) = supervisor {
            if o.confidence >= self.policy.confidence.project {
                let record = DecisionRecord {
                    key,
                    decision: o.decision,
                    metadata: DecisionMetadata {
                        tier: DecisionTier::Supervisor,
                        confidence: o.confidence,
                        reason: o.reason.clone(),
                        matched_key: None,
                        similarity_score: None,
                    },
                    timestamp: now,
                    scope: ScopeLevel::Project,
                    file_path,
                    session_id,
                };
                self.persist_full(&record);
                return Ok(record);
            }
        }

        // Tier 5: the human queue's outcome.
        match human {
            HumanOutcome::Answered(resp) => {
                let mut hreason: Vec<char> = Vec::new();
                text::push_str_chars(&mut hreason, "human decision: ");
                let word = crate::hook_io::decision_str(resp.decision);
                text::push_str_chars(&mut hreason, word.as_str());
                let record = crate::human::human_record(
                    key,
                    file_path,
                    resp,
                    text::chars_to_string(&hreason),
                    now,
                );
                let record = DecisionRecord { session_id, ..record };
                self.persist_full(&record);
                return Ok(record);
            },
            HumanOutcome::TimedOut => {
                return Err(
                    CaptainHookError::HumanTimeout {
                        timeout_secs: self.policy.human_timeout_secs,
                    },
                );
            },
            HumanOutcome::Skipped => {},
        }

        // No tier resolved: the terminal default denies.
        let record = DecisionRecord {
            key,
            decision: Decision::Deny,
            metadata: DecisionMetadata {
                tier: DecisionTier::Default,
                confidence: 100,
                reason: text::chars_to_string(
                    &text::str_to_chars("no cascade tier resolved; default deny"),
                ),
                matched_key: None,
                similarity_score: None,
            },
            timestamp: now,
            scope: ScopeLevel::Project,
            file_path,
            session_id,
        };
        self.persist_full(&record);
        Ok(record)
    }

    /// Extract the paths a call touches, before rebasing: the shell
    /// battery for commands, the fixed field for file tools. The result
    /// holds exactly the values of the call's path set.
    #[verifier::rlimit(50)]
    fn extract_call_paths(
        tool_name: &str,
        tool_input: &ToolInput,
        sanitized: &String,
        file_path: &Option<String>,
    ) -> (r: Vec<String>)
        requires
            sanitized@ == sanitize_spec(tool_input.raw@),
            (match (file_path, extract_file_path_spec(tool_name@, tool_input)) {
                (Some(a), Some(b)) => a@ == b,
                (None, None) => true,
                _ => false,
            }),
        ensures
            path_set_matches(r@, raw_paths_spec(tool_name@, tool_input)),
    {
        if text::str_eq(tool_name, "Bash") {
            match &tool_input.command {
                Some(cmdline) => {
                    let r0 = extract_bash_paths(cmdline.as_str());
                    proof {
                        assert(path_set_matches(
                            r0@,
                            crate::path_policy::bash_kept(cmdline@),
                        ));
                        assert(raw_paths_spec(tool_name@, tool_input)
                            == crate::path_policy::bash_kept(cmdline@));
                    }
                    r0
                },
                None => {
                    let r0 = extract_bash_paths(sanitized.as_str());
                    proof {
                        assert(path_set_matches(
                            r0@,
                            crate::path_policy::bash_kept(sanitized@),
                        ));
                        assert(raw_paths_spec(tool_name@, tool_input)
                            == crate::path_policy::bash_kept(sanitized@));
                    }
                    r0
                },
            }
        } else {
            match file_path {
                Some(fp) => {
                    let mut v: Vec<String> = Vec::new();
                    v.push(fp.clone());
                    proof {
                        let rawspec = raw_paths_spec(tool_name@, tool_input);
                        assert(v@[0]@ == rawspec[0]);
                        assert forall|k: int|
                            0 <= k < v@.len() implies crate::path_policy::seq_mem(
                            rawspec,
                            (#[trigger] v@[k])@,
                        ) by {
                            assert(rawspec[0] == v@[k]@);
                        }
                        assert forall|t: int|
                            0 <= t < rawspec.len() implies crate::path_policy::view_mem(
                            v@,
                            #[trigger] rawspec[t],
                        ) by {
                            assert(v@[0]@ == rawspec[t]);
                        }
                        assert(path_set_matches(v@, rawspec));
                    }
                    v
                },
                None => {
                    let v: Vec<String> = Vec::new();
                    proof {
                        assert(raw_paths_spec(tool_name@, tool_input).len() == 0);
                        assert(path_set_matches(v@, raw_paths_spec(tool_name@, tool_input)));
                    }
                    v
                },
            }
        }
    }

    /// Rebase each path against the working directory.
    fn rebase_paths(raw_paths: &Vec<String>, cwd: Option<&String>) -> (r: Vec<String>)
        ensures
            r@.len() == raw_paths@.len(),
            forall|j: int|
                0 <= j < r@.len() ==> (#[trigger] r@[j])@ == rel_opt_spec(
                    raw_paths@[j]@,
                    cwd_view(cwd),
                ),
    {
        let mut paths: Vec<String> = Vec::new();
        let mut i: usize = 0;
        while i < raw_paths.len()
            invariant
                0 <= i <= raw_paths@.len(),
                paths@.len() == i,
                forall|j: int|
                    0 <= j < i ==> (#[trigger] paths@[j])@ == rel_opt_spec(
                        raw_paths@[j]@,
                        cwd_view(cwd),
                    ),
            decreases raw_paths@.len() - i,
        {
            match cwd {
                Some(c) => {
                    paths.push(relativize(raw_paths[i].as_str(), c.as_str()));
                },
                None => {
                    paths.push(raw_paths[i].clone());
                },
            }
            i = i + 1;
        }
        paths
    }

    /// Tier 0 by itself: extract the call's paths, rebase them and apply
    /// the role's policy. Resolves exactly when some path draws a
    /// verdict, handing back the most restrictive verdict and its path.
    #[verifier::rlimit(100)]
    #[verifier::spinoff_prover]
    fn run_path_tier(
        session: &SessionContext,
        tool_name: &str,
        tool_input: &ToolInput,
        sanitized: &String,
        file_path: &Option<String>,
        cwd: Option<&String>,
    ) -> (r: Option<(Decision, String)>)
        requires
            sanitized@ == sanitize_spec(tool_input.raw@),
            (match (file_path, extract_file_path_spec(tool_name@, tool_input)) {
                (Some(a), Some(b)) => a@ == b,
                (None, None) => true,
                _ => false,
            }),
        ensures
            r is Some <==> tier0_resolves(session, tool_name@, tool_input, cwd_view(cwd)),
            r matches Some((d, wp)) ==> path_tier_outcome(
                session,
                tool_name@,
                tool_input,
                cwd_view(cwd),
                d,
                wp@,
            ),
    {
        let ghost cvv = cwd_view(cwd);
        let ghost rawspec = raw_paths_spec(tool_name@, tool_input);
        if let Some(policy) = &session.path_policy {
            let read_only = text::str_eq(tool_name, "Read") || text::str_eq(tool_name, "Glob")
                || text::str_eq(tool_name, "Grep");
            proof {
                assert(read_only == read_only_spec(tool_name@));
            }
            let raw_paths = Self::extract_call_paths(tool_name, tool_input, sanitized, file_path);
            let paths = Self::rebase_paths(&raw_paths, cwd);
            let ghost pol = session.path_policy->Some_0;
            proof {
                assert(*policy == pol);
                assert(path_set_matches(raw_paths@, rawspec));
                // Each rebased path answers for one spec path and back.
                assert forall|j: int| 0 <= j < paths@.len() implies exists|t: int|
                    0 <= t < rawspec.len() && (#[trigger] paths@[j])@ == rel_opt_spec(
                        rawspec[t],
                        cvv,
                    ) by {
                    assert(crate::path_policy::seq_mem(rawspec, raw_paths@[j]@));
                    let tx = choose|tx: int|
                        0 <= tx < rawspec.len() && #[trigger] rawspec[tx] == raw_paths@[j]@;
                    assert(paths@[j]@ == rel_opt_spec(rawspec[tx], cvv));
                }
                assert forall|t: int| 0 <= t < rawspec.len() implies exists|j: int|
                    0 <= j < paths@.len() && rel_opt_spec(#[trigger] rawspec[t], cvv)
                        == paths@[j]@ by {
                    assert(crate::path_policy::view_mem(raw_paths@, rawspec[t]));
                    let kx = choose|kx: int|
                        0 <= kx < raw_paths@.len() && (#[trigger] raw_paths@[kx])@ == rawspec[t];
                    assert(paths@[kx]@ == rel_opt_spec(rawspec[t], cvv));
                }
            }
            match evaluate_paths(policy, read_only, &paths) {
                Some((decision, worst_path)) => {
                    proof {
                        let kx = choose|kx: int|
                            0 <= kx < paths@.len() && crate::path_policy::path_verdict_spec(
                                &pol,
                                read_only_spec(tool_name@),
                                (#[trigger] paths@[kx])@,
                            ) == Some(decision) && worst_path@ == paths@[kx]@;
                        let tx = choose|tx: int|
                            0 <= tx < rawspec.len() && (#[trigger] paths@[kx])@ == rel_opt_spec(
                                rawspec[tx],
                                cvv,
                            );
                        assert(tier0_resolves(session, tool_name@, tool_input, cvv));
                        assert forall|t: int|
                            0 <= t < rawspec.len() implies (match
                        crate::path_policy::path_verdict_spec(
                            &pol,
                            read_only_spec(tool_name@),
                            rel_opt_spec(#[trigger] rawspec[t], cvv),
                        ) {
                            Some(d2) => d2.precedence_spec() <= decision.precedence_spec(),
                            None => true,
                        }) by {
                            let jx = choose|jx: int|
                                0 <= jx < paths@.len() && rel_opt_spec(
                                    #[trigger] rawspec[t],
                                    cvv,
                                ) == paths@[jx]@;
                        }
                    }
                    Some((decision, worst_path))
                },
                None => {
                    proof {
                        assert forall|t: int|
                            0 <= t < rawspec.len() implies !(
                        crate::path_policy::path_verdict_spec(
                            &pol,
                            read_only_spec(tool_name@),
                            rel_opt_spec(#[trigger] rawspec[t], cvv),
                        ) is Some) by {
                            let jx = choose|jx: int|
                                0 <= jx < paths@.len() && rel_opt_spec(
                                    #[trigger] rawspec[t],
                                    cvv,
                                ) == paths@[jx]@;
                        }
                        assert(!tier0_resolves(session, tool_name@, tool_input, cvv));
                    }
                    None
                },
            }
        } else {
            None
        }
    }

    /// Write-through persistence: the record goes to the exact cache,
    /// the token index and the log.
    fn persist_full(&mut self, record: &DecisionRecord)
        requires
            old(self).wf(),
        ensures
            final(self).wf(),
            cache_has(final(self).exact_cache.records@, record.key@),
            cache_decided(final(self).exact_cache.records@, record.key@, record.decision),
            final(self).log@ == old(self).log@.push(*record),
            final(self).policy == old(self).policy,
            final(self).token_jaccard.entries_spec().len()
                == old(self).token_jaccard.entries_spec().len() + 1,
            final(self).token_jaccard.entries_spec().last().record == *record,
            crate::token_sim::token_set_of(
                final(self).token_jaccard.entries_spec().last().tokens@,
                record.key.sanitized_input@,
            ),
            forall|i: int|
                0 <= i < old(self).token_jaccard.entries_spec().len()
                    ==> #[trigger] final(self).token_jaccard.entries_spec()[i]
                    == old(self).token_jaccard.entries_spec()[i],
    {
        self.exact_cache.insert(record.clone());
        self.token_jaccard.insert(record);
        match self.embedding_similarity.insert(record) {
            Ok(()) => {},
            Err(_) => {},
        }
        self.log.push(record.clone());
    }
}

/// A cache warmed by a similarity hit answers the next identical
/// fingerprint at the exact tier, with the same decision: the similarity
/// tiers' write-through prevents ask drift.
pub proof fn lemma_similarity_hit_warms_cache(
    first: DecisionRecord,
    cache_after: Seq<DecisionRecord>,
    second: DecisionRecord,
    kv: CacheKeyView,
)
    requires
        // What the first evaluation guarantees after a similarity hit on
        // key `kv`:
        first.metadata.tier is TokenJaccard || first.metadata.tier is EmbeddingSimilarity,
        cache_has(cache_after, kv),
        cache_decided(cache_after, kv, first.decision),
        // What the second evaluation on the same key guarantees when the
        // path tier does not fire, given it starts from that cache:
        !(second.metadata.tier is PathPolicy),
        cache_has(cache_after, kv) ==> second.metadata.tier is PathPolicy
            || second.metadata.tier is ExactCache,
        second.metadata.tier is ExactCache ==> exists|i: int|
            0 <= i < cache_after.len() && (#[trigger] cache_after[i]).key@ == kv
                && second.decision == cache_after[i].decision,
    ensures
        second.metadata.tier is ExactCache,
        second.decision == first.decision,
{
    let i = choose|i: int|
        0 <= i < cache_after.len() && (#[trigger] cache_after[i]).key@ == kv && second.decision
            == cache_after[i].decision;
    assert(cache_after[i].decision == first.decision);
}

} // verus!
