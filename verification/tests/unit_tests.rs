//! Unit-level behaviour: the sanitizer, scope merging, the decision
//! queue, hook output, token similarity, vote resolution, path
//! extraction and the persistence line format.

use captain_hook::decision::{
    CacheKey, Decision, DecisionMetadata, DecisionRecord, DecisionTier, ScopeLevel,
};
use captain_hook::embed::resolve_votes;
use captain_hook::error::CaptainHookError;
use captain_hook::hook_io::{deny_exit_code, truncate, GeminiHookOutput, HookFormat, HookOutput};
use captain_hook::human::{DecisionQueue, HumanResponse, PendingDecision};
use captain_hook::path_policy::extract_bash_paths;
use captain_hook::roles::{CompiledPathPolicy, PathPolicyConfig};
use captain_hook::sanitize::{sanitize_str, SanitizePipeline};
use captain_hook::scope::{merge_decisions, ScopedDecision};
use captain_hook::storage::{escape_json, reconcile, record_to_jsonl};
use captain_hook::supervisor::extract_json_span;
use captain_hook::token_sim::tokenize;

fn strings(items: &[&str]) -> Vec<String> {
    items.iter().map(|s| s.to_string()).collect()
}

fn record(decision: Decision, scope: ScopeLevel, reason: &str, timestamp: u64) -> DecisionRecord {
    DecisionRecord {
        key: CacheKey {
            sanitized_input: "test".to_string(),
            tool: "Bash".to_string(),
            role: "coder".to_string(),
        },
        decision,
        metadata: DecisionMetadata {
            tier: DecisionTier::Human,
            confidence: 100,
            reason: reason.to_string(),
            matched_key: None,
            similarity_score: None,
        },
        timestamp,
        scope,
        file_path: None,
        session_id: "test".to_string(),
    }
}

// --- Sanitization ---

#[test]
fn sanitize_is_idempotent_on_samples() {
    let samples = [
        "git push ghp_secret123456789",
        "  echo   hello   world  ",
        "{\"command\":\"cargo build\"}",
        "token sk-abcdefghijklmnop123 done",
        "SECRET-REDACTED",
        "eyJhbGciOiJIUzI1NiJ9.eyJzdWIiOiIxIn0",
        "",
        "plain",
    ];
    for s in &samples {
        let once = sanitize_str(s);
        let twice = sanitize_str(&once);
        assert_eq!(once, twice);
    }
}

#[test]
fn sanitize_redacts_github_token() {
    let out = sanitize_str("git push ghp_secret123456789");
    assert!(!out.contains("ghp_secret123456789"));
    assert!(out.contains("<REDACTED>"));
    assert_eq!(out, "git push <REDACTED>");
}

#[test]
fn sanitize_normalises_whitespace() {
    let pipeline = SanitizePipeline::default_pipeline();
    assert_eq!(pipeline.sanitize("  a \t b \n c  "), "a b c");
}

#[test]
fn sanitize_redacts_volatile_numbers() {
    let out = sanitize_str("kill 1234567890123");
    assert_eq!(out, "kill <REDACTED>");
}

#[test]
fn sanitize_keeps_ordinary_words() {
    assert_eq!(sanitize_str("cargo build --release"), "cargo build --release");
}

// --- Scope merge ---

#[test]
fn scope_merge_deny_wins_over_allow() {
    let decisions = vec![
        ScopedDecision {
            decision: Decision::Allow,
            scope: ScopeLevel::User,
            record: record(Decision::Allow, ScopeLevel::User, "user allowed", 1),
        },
        ScopedDecision {
            decision: Decision::Deny,
            scope: ScopeLevel::Org,
            record: record(Decision::Deny, ScopeLevel::Org, "org denied", 1),
        },
    ];
    let result = merge_decisions(&decisions).unwrap();
    assert_eq!(result.decision, Decision::Deny);
}

#[test]
fn scope_merge_ask_wins_over_allow() {
    let decisions = vec![
        ScopedDecision {
            decision: Decision::Allow,
            scope: ScopeLevel::User,
            record: record(Decision::Allow, ScopeLevel::User, "allowed", 1),
        },
        ScopedDecision {
            decision: Decision::Ask,
            scope: ScopeLevel::Project,
            record: record(Decision::Ask, ScopeLevel::Project, "sensitive", 1),
        },
    ];
    let result = merge_decisions(&decisions).unwrap();
    assert_eq!(result.decision, Decision::Ask);
}

#[test]
fn scope_merge_ties_break_to_wider_scope() {
    let decisions = vec![
        ScopedDecision {
            decision: Decision::Deny,
            scope: ScopeLevel::User,
            record: record(Decision::Deny, ScopeLevel::User, "user", 1),
        },
        ScopedDecision {
            decision: Decision::Deny,
            scope: ScopeLevel::Org,
            record: record(Decision::Deny, ScopeLevel::Org, "org", 1),
        },
    ];
    let result = merge_decisions(&decisions).unwrap();
    assert_eq!(result.scope, ScopeLevel::Org);
}

#[test]
fn scope_merge_empty_is_none() {
    assert!(merge_decisions(&Vec::new()).is_none());
}

// --- Decision queue ---

fn pending(id: &str, input: &str) -> PendingDecision {
    PendingDecision {
        id: id.to_string(),
        session_id: "session-1".to_string(),
        role: "coder".to_string(),
        tool_name: "Bash".to_string(),
        sanitized_input: input.to_string(),
        file_path: None,
        recommendation: None,
        is_ask_reprompt: false,
        ask_reason: None,
        queued_at: 1,
    }
}

#[test]
fn decision_queue_enqueue_and_list() {
    let mut queue = DecisionQueue::new();
    queue.enqueue(pending("test-1", "echo hello"));
    let list = queue.list_pending();
    assert!(
        list.iter().any(|p| p.id == "test-1"),
        "enqueued item should appear in pending list"
    );
}

#[test]
fn decision_queue_respond_removes_pending() {
    let mut queue = DecisionQueue::new();
    queue.enqueue(pending("test-2", "rm -rf /"));
    queue
        .respond(
            "test-2",
            HumanResponse {
                decision: Decision::Deny,
                always_ask: false,
                add_rule: true,
                rule_scope: Some(ScopeLevel::Project),
            },
        )
        .unwrap();
    assert!(queue.list_pending().is_empty());
    let resp = queue.take_response("test-2");
    assert!(resp.is_some());
    assert_eq!(resp.unwrap().decision, Decision::Deny);
}

#[test]
fn decision_queue_timeout_removes_pending() {
    let mut queue = DecisionQueue::new();
    queue.enqueue(pending("test-3", "echo hi"));
    queue.remove_pending("test-3");
    assert!(queue.list_pending().is_empty());
    assert!(queue.get_pending("test-3").is_none());
}

#[test]
fn decision_queue_take_response_is_once() {
    let mut queue = DecisionQueue::new();
    queue.enqueue(pending("test-4", "ls"));
    queue
        .respond(
            "test-4",
            HumanResponse {
                decision: Decision::Allow,
                always_ask: false,
                add_rule: false,
                rule_scope: None,
            },
        )
        .unwrap();
    assert!(queue.take_response("test-4").is_some());
    assert!(queue.take_response("test-4").is_none());
}

// --- Hook output ---

#[test]
fn hook_output_serialization() {
    let output = HookOutput::new(Decision::Allow);
    let json = output.to_json();
    assert!(json.contains("\"permissionDecision\":\"allow\""));
    let output = HookOutput::new(Decision::Deny);
    let json = output.to_json();
    assert!(json.contains("\"permissionDecision\":\"deny\""));
    let output = HookOutput::new(Decision::Ask);
    let json = output.to_json();
    assert!(json.contains("\"permissionDecision\":\"ask\""));
}

#[test]
fn gemini_output_serialization() {
    let output = GeminiHookOutput::new(Decision::Deny, Some("bad \"path\"".to_string()));
    let json = output.to_json();
    assert_eq!(json, "{\"decision\":\"deny\",\"reason\":\"bad \\\"path\\\"\"}");
    let output = GeminiHookOutput::new(Decision::Allow, None);
    assert_eq!(output.to_json(), "{\"decision\":\"allow\"}");
}

#[test]
fn deny_exit_codes_differ_by_format() {
    assert_eq!(deny_exit_code(HookFormat::Claude), 1);
    assert_eq!(deny_exit_code(HookFormat::Gemini), 2);
}

#[test]
fn truncate_marks_the_cut() {
    assert_eq!(truncate("hello", 10), "hello");
    assert_eq!(truncate("hello world", 5), "hello...");
}

// --- Token similarity ---

#[test]
fn tokenize_lowers_sorts_and_dedups() {
    let tokens = tokenize("Cargo BUILD build --release");
    assert_eq!(tokens, strings(&["build", "cargo", "release"]));
}

#[test]
fn tokenize_drops_stop_tokens() {
    let tokens = tokenize("push to the remote");
    assert_eq!(tokens, strings(&["push", "remote"]));
}

#[test]
fn jaccard_score_exact_value() {
    // |A ∩ B| = 3, |A ∪ B| = 5: similarity 3/5, reported as 600 thousandths.
    let mut index = captain_hook::token_sim::TokenJaccard::new(500, 1);
    index.insert_entry(
        strings(&["a", "b", "c", "d"]),
        record(Decision::Allow, ScopeLevel::Project, "seed", 1),
    );
    let (matched, score) = index.evaluate("Bash", &strings(&["a", "b", "c", "e"])).unwrap();
    assert_eq!(score, 600);
    assert_eq!(matched.decision, Decision::Allow);
}

#[test]
fn jaccard_below_threshold_is_no_match() {
    // Similarity 3/5 = 600 does not exceed a 600-thousandths threshold.
    let mut index = captain_hook::token_sim::TokenJaccard::new(600, 1);
    index.insert_entry(
        strings(&["a", "b", "c", "d"]),
        record(Decision::Allow, ScopeLevel::Project, "seed", 1),
    );
    assert!(index.evaluate("Bash", &strings(&["a", "b", "c", "e"])).is_none());
}

// --- Vote resolution ---

#[test]
fn votes_most_restrictive_majority_wins() {
    let neighbours = vec![
        (Decision::Allow, 900),
        (Decision::Deny, 900),
        (Decision::Deny, 860),
        (Decision::Allow, 100),
    ];
    assert_eq!(resolve_votes(&neighbours, 850), Some(Decision::Deny));
}

#[test]
fn votes_below_threshold_fall_through() {
    let neighbours = vec![(Decision::Allow, 700), (Decision::Deny, 100)];
    assert_eq!(resolve_votes(&neighbours, 850), None);
}

#[test]
fn votes_tie_goes_to_more_restrictive() {
    let neighbours = vec![(Decision::Allow, 900), (Decision::Ask, 900)];
    assert_eq!(resolve_votes(&neighbours, 850), Some(Decision::Ask));
}

// --- Bash path extraction ---

#[test]
fn bash_paths_from_rm_and_redirect() {
    let paths = extract_bash_paths("rm -rf build/out; echo hi > log.txt");
    assert_eq!(paths, strings(&["build/out", "log.txt"]));
}

#[test]
fn bash_paths_ignore_dev_null() {
    let paths = extract_bash_paths("echo hi > /dev/null");
    assert!(paths.is_empty());
}

#[test]
fn bash_paths_mv_takes_both_operands() {
    let paths = extract_bash_paths("mv -f a.txt b.txt");
    assert_eq!(paths, strings(&["a.txt", "b.txt"]));
}

#[test]
fn bash_paths_quoted_and_deduped() {
    let paths = extract_bash_paths("touch \"a b.txt\"; touch 'a b.txt'");
    assert_eq!(paths, strings(&["a b.txt"]));
}

#[test]
fn bash_paths_dd_of_target() {
    let paths = extract_bash_paths("dd if=/dev/zero of=disk.img bs=1M");
    assert_eq!(paths, strings(&["disk.img"]));
}

// --- Supervisor reply parsing ---

#[test]
fn json_span_found_in_prose() {
    let got = extract_json_span("Sure! {\"decision\":\"allow\"} hope that helps");
    assert_eq!(got.unwrap(), "{\"decision\":\"allow\"}");
}

#[test]
fn json_span_missing_braces_is_none() {
    assert!(extract_json_span("no json here").is_none());
    assert!(extract_json_span("} backwards {").is_none());
}

// --- Glob compilation errors ---

#[test]
fn bad_glob_pattern_is_fatal() {
    let config = PathPolicyConfig {
        allow_write: strings(&["src/[unclosed"]),
        deny_write: Vec::new(),
        allow_read: Vec::new(),
    };
    let result = CompiledPathPolicy::compile(&config, &Vec::new());
    match result {
        Err(CaptainHookError::GlobPattern { pattern, .. }) => {
            assert_eq!(pattern, "src/[unclosed");
        },
        _ => panic!("a bad glob must fail compilation"),
    }
}

// --- Persistence ---

#[test]
fn record_line_has_escaped_fields() {
    let mut rec = record(Decision::Allow, ScopeLevel::Project, "said \"ok\"", 42);
    rec.key.sanitized_input = "git push <REDACTED>".to_string();
    let line = record_to_jsonl(&rec);
    assert!(line.contains("\"sanitized_input\":\"git push <REDACTED>\""));
    assert!(line.contains("\"reason\":\"said \\\"ok\\\"\""));
    assert!(line.contains("\"timestamp\":42"));
    assert!(line.contains("\"scope\":\"project\""));
}

#[test]
fn escape_json_handles_specials() {
    assert_eq!(escape_json("a\"b\\c\nd"), "a\\\"b\\\\c\\nd");
}

#[test]
fn reconcile_keeps_newest_per_slot() {
    let older = record(Decision::Allow, ScopeLevel::Project, "old", 10);
    let newer = record(Decision::Deny, ScopeLevel::Project, "new", 20);
    let other_scope = record(Decision::Ask, ScopeLevel::Org, "org", 5);
    let merged = reconcile(vec![older, newer, other_scope]);
    assert_eq!(merged.len(), 2);
    let project = merged.iter().find(|r| r.scope == ScopeLevel::Project).unwrap();
    assert_eq!(project.decision, Decision::Deny);
    assert_eq!(project.timestamp, 20);
}

// --- Errors ---

#[test]
fn error_messages_name_the_cause() {
    let e = CaptainHookError::HumanTimeout { timeout_secs: 60 };
    assert_eq!(e.message(), "human decision timed out after 60s");
    let e = CaptainHookError::RegistrationRequired;
    assert!(e.message().contains("not registered"));
}
