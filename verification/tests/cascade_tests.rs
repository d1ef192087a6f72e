//! End-to-end cascade scenarios: sanitization, path policy, exact cache,
//! token similarity, supervisor gate, human outcomes and the default deny.

use captain_hook::cascade::{CascadeRunner, HumanOutcome, SessionContext, ToolInput};
use captain_hook::cache::ExactCache;
use captain_hook::decision::{
    CacheKey, Decision, DecisionMetadata, DecisionRecord, DecisionTier, ScopeLevel,
};
use captain_hook::embed::EmbeddingSimilarity;
use captain_hook::error::CaptainHookError;
use captain_hook::human::HumanResponse;
use captain_hook::path_policy::PathPolicyEngine;
use captain_hook::policy::PolicyConfig;
use captain_hook::roles::{CompiledPathPolicy, PathPolicyConfig, RoleDefinition};
use captain_hook::sanitize::SanitizePipeline;
use captain_hook::supervisor::SupervisorOutcome;
use captain_hook::token_sim::TokenJaccard;

fn strings(items: &[&str]) -> Vec<String> {
    items.iter().map(|s| s.to_string()).collect()
}

fn make_session(role_name: &str) -> SessionContext {
    let path_config = PathPolicyConfig {
        allow_write: strings(&["src/**", "Cargo.toml"]),
        deny_write: strings(&["tests/**", "docs/**"]),
        allow_read: strings(&["**"]),
    };
    let sensitive = strings(&[".assistant/**", ".env*"]);
    let compiled = CompiledPathPolicy::compile(&path_config, &sensitive).ok().unwrap();
    SessionContext {
        user: "test-user".to_string(),
        org: "test-org".to_string(),
        project: "test-project".to_string(),
        team: None,
        role: Some(RoleDefinition {
            name: role_name.to_string(),
            description: "test role".to_string(),
            paths: path_config,
        }),
        path_policy: Some(compiled),
        agent_prompt_hash: None,
        agent_prompt_path: None,
        task_description: None,
        registered_at: Some(1000),
        disabled: false,
    }
}

fn make_runner() -> CascadeRunner {
    CascadeRunner {
        sanitizer: SanitizePipeline::default_pipeline(),
        path_policy: PathPolicyEngine::new().ok().unwrap(),
        exact_cache: ExactCache::new(),
        token_jaccard: TokenJaccard::new(700, 3),
        embedding_similarity: EmbeddingSimilarity::new("default", 850).ok().unwrap(),
        policy: PolicyConfig::default(),
        log: Vec::new(),
    }
}

fn allow_supervisor() -> SupervisorOutcome {
    SupervisorOutcome {
        decision: Decision::Allow,
        confidence: 95,
        reason: "test supervisor allows".to_string(),
    }
}

fn write_input(file_path: &str, content: &str) -> ToolInput {
    ToolInput {
        raw: format!("{{\"content\":\"{}\",\"file_path\":\"{}\"}}", content, file_path),
        file_path: Some(file_path.to_string()),
        path: None,
        command: None,
        notebook_path: None,
    }
}

fn bash_input(command: &str) -> ToolInput {
    ToolInput {
        raw: format!("{{\"command\":\"{}\"}}", command),
        file_path: None,
        path: None,
        command: Some(command.to_string()),
        notebook_path: None,
    }
}

#[test]
fn cascade_denies_write_to_denied_path() {
    let mut runner = make_runner();
    let session = make_session("coder");
    let tool_input = write_input("tests/unit.rs", "test");
    let record = runner
        .evaluate(&session, "Write", &tool_input, None, &HumanOutcome::Skipped, 1)
        .unwrap();
    assert_eq!(record.decision, Decision::Deny);
    assert_eq!(record.metadata.tier, DecisionTier::PathPolicy);
}

#[test]
fn cascade_allows_write_to_allowed_path() {
    let mut runner = make_runner();
    let session = make_session("coder");
    let tool_input = write_input("src/main.rs", "fn main() {}");
    let supervisor = allow_supervisor();
    let record = runner
        .evaluate(&session, "Write", &tool_input, Some(&supervisor), &HumanOutcome::Skipped, 1)
        .unwrap();
    assert_eq!(record.decision, Decision::Allow);
}

#[test]
fn cascade_asks_for_sensitive_path() {
    let mut runner = make_runner();
    let session = make_session("coder");
    let tool_input = write_input(".env", "SECRET=x");
    let record = runner
        .evaluate(&session, "Write", &tool_input, None, &HumanOutcome::Skipped, 1)
        .unwrap();
    assert_eq!(record.decision, Decision::Ask);
    assert_eq!(record.metadata.tier, DecisionTier::PathPolicy);
}

#[test]
fn cascade_exact_cache_hit() {
    let mut runner = make_runner();
    let session = make_session("coder");
    let tool_input = bash_input("cargo build --release");
    let supervisor = allow_supervisor();
    let first = runner
        .evaluate(&session, "Bash", &tool_input, Some(&supervisor), &HumanOutcome::Skipped, 1)
        .unwrap();
    assert_eq!(first.decision, Decision::Allow);
    let second = runner
        .evaluate(&session, "Bash", &tool_input, Some(&supervisor), &HumanOutcome::Skipped, 2)
        .unwrap();
    assert_eq!(second.decision, Decision::Allow);
    assert_eq!(second.metadata.tier, DecisionTier::ExactCache);
}

#[test]
fn cascade_default_deny_when_no_tier_resolves() {
    let mut runner = make_runner();
    let session = make_session("coder");
    let tool_input = bash_input("echo hello");
    let record = runner
        .evaluate(&session, "Bash", &tool_input, None, &HumanOutcome::Skipped, 1)
        .unwrap();
    assert_eq!(record.decision, Decision::Deny);
    assert_eq!(record.metadata.tier, DecisionTier::Default);
}

#[test]
fn cascade_sanitizes_secrets_before_caching() {
    let mut runner = make_runner();
    let session = make_session("coder");
    let tool_input = bash_input("git push ghp_secret123456789");
    let supervisor = allow_supervisor();
    let record = runner
        .evaluate(&session, "Bash", &tool_input, Some(&supervisor), &HumanOutcome::Skipped, 1)
        .unwrap();
    assert!(!record.key.sanitized_input.contains("ghp_secret123456789"));
    assert!(record.key.sanitized_input.contains("<REDACTED>"));
}

#[test]
fn cascade_deny_wins_over_ask() {
    let mut runner = make_runner();
    let path_config = PathPolicyConfig {
        allow_write: strings(&["**"]),
        deny_write: strings(&[".env*"]),
        allow_read: strings(&["**"]),
    };
    let sensitive = strings(&[".env*"]);
    let compiled = CompiledPathPolicy::compile(&path_config, &sensitive).ok().unwrap();
    let session = SessionContext {
        user: "test".to_string(),
        org: "test".to_string(),
        project: "test".to_string(),
        team: None,
        role: Some(RoleDefinition {
            name: "custom".to_string(),
            description: "test".to_string(),
            paths: path_config,
        }),
        path_policy: Some(compiled),
        agent_prompt_hash: None,
        agent_prompt_path: None,
        task_description: None,
        registered_at: Some(1000),
        disabled: false,
    };
    // Within a single path, sensitive is checked before deny on purpose:
    // a path matching both reports ask.
    let tool_input = write_input(".env.local", "x");
    let record = runner
        .evaluate(&session, "Write", &tool_input, None, &HumanOutcome::Skipped, 1)
        .unwrap();
    assert_eq!(record.decision, Decision::Ask);
}

#[test]
fn cascade_read_always_allowed_for_read_tools() {
    let mut runner = make_runner();
    let session = make_session("coder");
    let tool_input = ToolInput {
        raw: "{\"file_path\":\"tests/unit.rs\"}".to_string(),
        file_path: Some("tests/unit.rs".to_string()),
        path: None,
        command: None,
        notebook_path: None,
    };
    let supervisor = allow_supervisor();
    let record = runner
        .evaluate(&session, "Read", &tool_input, Some(&supervisor), &HumanOutcome::Skipped, 1)
        .unwrap();
    assert_ne!(record.metadata.tier, DecisionTier::PathPolicy);
}

#[test]
fn cascade_persists_decisions() {
    let mut runner = make_runner();
    let session = make_session("coder");
    let tool_input = bash_input("cargo test");
    let supervisor = allow_supervisor();
    let record = runner
        .evaluate(&session, "Bash", &tool_input, Some(&supervisor), &HumanOutcome::Skipped, 1)
        .unwrap();
    assert_eq!(record.decision, Decision::Allow);
    assert!(!runner.log.is_empty(), "decision should be persisted to JSONL");
    let line = captain_hook::storage::record_to_jsonl(&runner.log[0]);
    assert!(line.contains("\"decision\":\"allow\""));
}

#[test]
fn cascade_token_similarity_auto_approves() {
    let mut runner = make_runner();
    let session = make_session("coder");
    let supervisor = allow_supervisor();
    let first_input = bash_input("cargo build --release --target x86_64-unknown-linux");
    let first = runner
        .evaluate(&session, "Bash", &first_input, Some(&supervisor), &HumanOutcome::Skipped, 1)
        .unwrap();
    assert_eq!(first.decision, Decision::Allow);
    let second_input = bash_input("cargo build --release --target aarch64-unknown-linux");
    let second = runner
        .evaluate(&session, "Bash", &second_input, Some(&supervisor), &HumanOutcome::Skipped, 2)
        .unwrap();
    assert_eq!(second.decision, Decision::Allow);
}

#[test]
fn cascade_similarity_hit_then_exact_cache() {
    // A token-similarity hit is written into the exact cache, so the
    // same raw input afterwards resolves at the exact tier with the same
    // decision.
    let mut runner = make_runner();
    let session = make_session("coder");
    let supervisor = allow_supervisor();
    let seed = bash_input("cargo build --release --locked --verbose --target x86_64-unknown-linux");
    runner
        .evaluate(&session, "Bash", &seed, Some(&supervisor), &HumanOutcome::Skipped, 1)
        .unwrap();
    let similar = bash_input("cargo build --release --locked --verbose --target aarch64-unknown-linux");
    let hit = runner
        .evaluate(&session, "Bash", &similar, None, &HumanOutcome::Skipped, 2)
        .unwrap();
    assert_eq!(hit.metadata.tier, DecisionTier::TokenJaccard);
    assert_eq!(hit.decision, Decision::Allow);
    let again = runner
        .evaluate(&session, "Bash", &similar, None, &HumanOutcome::Skipped, 3)
        .unwrap();
    assert_eq!(again.metadata.tier, DecisionTier::ExactCache);
    assert_eq!(again.decision, Decision::Allow);
}

#[test]
fn cascade_most_restrictive_path_wins() {
    // One shell command touches an allowed and a denied path; the
    // reported decision is the most restrictive per-path verdict.
    let mut runner = make_runner();
    let session = make_session("coder");
    let tool_input = bash_input("touch src/a.rs; touch tests/b.rs");
    let record = runner
        .evaluate(&session, "Bash", &tool_input, None, &HumanOutcome::Skipped, 1)
        .unwrap();
    assert_eq!(record.decision, Decision::Deny);
    assert_eq!(record.metadata.tier, DecisionTier::PathPolicy);
    assert_eq!(record.file_path.as_deref(), Some("tests/b.rs"));
}

fn scoped_record(key: &CacheKey, decision: Decision, scope: ScopeLevel) -> DecisionRecord {
    DecisionRecord {
        key: CacheKey {
            sanitized_input: key.sanitized_input.clone(),
            tool: key.tool.clone(),
            role: key.role.clone(),
        },
        decision,
        metadata: DecisionMetadata {
            tier: DecisionTier::Human,
            confidence: 100,
            reason: "stored rule".to_string(),
            matched_key: None,
            similarity_score: None,
        },
        timestamp: 1,
        scope,
        file_path: None,
        session_id: "seed".to_string(),
    }
}

fn bash_key(tool_input: &ToolInput, role: &str) -> CacheKey {
    CacheKey {
        sanitized_input: captain_hook::sanitize::sanitize_str(&tool_input.raw),
        tool: "Bash".to_string(),
        role: role.to_string(),
    }
}

#[test]
fn cascade_scope_merge_deny_wins_on_load() {
    // Two scopes decided the same key: allow at user, deny at org. The
    // seeded cache merges by restrictiveness, so the call resolves at
    // the exact tier with deny.
    let mut runner = make_runner();
    let session = make_session("coder");
    let tool_input = bash_input("echo hello");
    let key = bash_key(&tool_input, "coder");
    runner.exact_cache.load_from(vec![
        scoped_record(&key, Decision::Allow, ScopeLevel::User),
        scoped_record(&key, Decision::Deny, ScopeLevel::Org),
    ]);
    let record = runner
        .evaluate(&session, "Bash", &tool_input, None, &HumanOutcome::Skipped, 5)
        .unwrap();
    assert_eq!(record.metadata.tier, DecisionTier::ExactCache);
    assert_eq!(record.decision, Decision::Deny);
}

#[test]
fn cascade_scope_merge_ask_wins_on_load() {
    // Allow at user against ask at project: ask is more restrictive and
    // wins the merge, whatever order the store was read in.
    let mut runner = make_runner();
    let session = make_session("coder");
    let tool_input = bash_input("echo hello");
    let key = bash_key(&tool_input, "coder");
    runner.exact_cache.load_from(vec![
        scoped_record(&key, Decision::Ask, ScopeLevel::Project),
        scoped_record(&key, Decision::Allow, ScopeLevel::User),
    ]);
    let record = runner
        .evaluate(&session, "Bash", &tool_input, None, &HumanOutcome::Skipped, 5)
        .unwrap();
    assert_eq!(record.metadata.tier, DecisionTier::ExactCache);
    assert_eq!(record.decision, Decision::Ask);
}

#[test]
fn cascade_human_answer_resolves() {
    let mut runner = make_runner();
    let session = make_session("coder");
    let tool_input = bash_input("terraform apply");
    let response = HumanResponse {
        decision: Decision::Allow,
        always_ask: false,
        add_rule: false,
        rule_scope: None,
    };
    let record = runner
        .evaluate(
            &session,
            "Bash",
            &tool_input,
            None,
            &HumanOutcome::Answered(response),
            1,
        )
        .unwrap();
    assert_eq!(record.decision, Decision::Allow);
    assert_eq!(record.metadata.tier, DecisionTier::Human);
}

#[test]
fn cascade_human_always_ask_caches_ask() {
    let mut runner = make_runner();
    let session = make_session("coder");
    let tool_input = bash_input("terraform destroy");
    let response = HumanResponse {
        decision: Decision::Allow,
        always_ask: true,
        add_rule: false,
        rule_scope: None,
    };
    let record = runner
        .evaluate(
            &session,
            "Bash",
            &tool_input,
            None,
            &HumanOutcome::Answered(response),
            1,
        )
        .unwrap();
    assert_eq!(record.decision, Decision::Ask);
}

#[test]
fn cascade_human_timeout_is_error() {
    let mut runner = make_runner();
    let session = make_session("coder");
    let tool_input = bash_input("rm -rf build");
    let result = runner.evaluate(
        &session,
        "Bash",
        &tool_input,
        None,
        &HumanOutcome::TimedOut,
        1,
    );
    match result {
        Err(CaptainHookError::HumanTimeout { timeout_secs }) => {
            assert_eq!(timeout_secs, 60);
        },
        _ => panic!("a human timeout must surface as HumanTimeout"),
    }
}

#[test]
fn cascade_supervisor_below_threshold_falls_through() {
    let mut runner = make_runner();
    let session = make_session("coder");
    let tool_input = bash_input("echo hello");
    let weak = SupervisorOutcome {
        decision: Decision::Allow,
        confidence: 50,
        reason: "unsure".to_string(),
    };
    let record = runner
        .evaluate(&session, "Bash", &tool_input, Some(&weak), &HumanOutcome::Skipped, 1)
        .unwrap();
    assert_eq!(record.metadata.tier, DecisionTier::Default);
    assert_eq!(record.decision, Decision::Deny);
}
