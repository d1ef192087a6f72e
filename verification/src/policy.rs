//! Project policy knobs consumed by the cascade: sensitive paths, the
//! supervisor confidence gate, similarity thresholds and timeouts.
//!
//! Ratios are stored as integers: confidences in hundredths (90 stands for
//! 0.90) and similarity thresholds in thousandths (700 stands for 0.700).

use vstd::prelude::*;

verus! {

use vstd::string::StringExecFns;

/// Confidence thresholds per scope, in hundredths.
pub struct ConfidenceConfig {
    pub org: u32,
    pub project: u32,
    pub user: u32,
}

/// Similarity tier thresholds.
pub struct SimilarityConfig {
    /// Token-set similarity threshold, in thousandths.
    pub jaccard_threshold: u32,
    /// Embedding cosine similarity threshold, in thousandths.
    pub embedding_threshold: u32,
    /// Minimum token count before the token tier applies.
    pub jaccard_min_tokens: usize,
}

/// Globs that force human review on write, from project policy.
pub struct SensitivePathsConfig {
    pub ask_write: Vec<String>,
}

/// Which supervisor backend to use.
pub enum SupervisorConfig {
    /// A co-resident process behind a Unix domain socket.
    Socket { socket_path: Option<String> },
    /// A synchronous LLM messages API.
    Api { api_base_url: Option<String>, model: Option<String>, max_tokens: Option<u32> },
}

/// The whole project policy.
pub struct PolicyConfig {
    pub sensitive_paths: SensitivePathsConfig,
    pub confidence: ConfidenceConfig,
    pub similarity: SimilarityConfig,
    pub human_timeout_secs: u64,
    pub registration_timeout_secs: u64,
    pub supervisor: SupervisorConfig,
}

/// The default sensitive-path globs.
pub open spec fn default_sensitive_patterns() -> Seq<Seq<char>> {
    seq![
        ".assistant/**"@,
        ".captain-hook/**"@,
        ".env*"@,
        "**/.env*"@,
        ".git/hooks/**"@,
        "**/secrets/**"@,
        "~/.assistant/**"@,
        "~/.config/**"@,
    ]
}

impl Default for PolicyConfig {
    /// The policy a fresh project starts with.
    fn default() -> (r: Self)
        ensures
            r.sensitive_paths.ask_write.deep_view() == default_sensitive_patterns(),
            r.confidence.org == 90 && r.confidence.project == 70 && r.confidence.user == 60,
            r.similarity.jaccard_threshold == 700,
            r.similarity.embedding_threshold == 850,
            r.similarity.jaccard_min_tokens == 3,
            r.human_timeout_secs == 60,
            r.registration_timeout_secs == 5,
            r.supervisor matches SupervisorConfig::Socket { socket_path: p } && p is None,
    {
        let mut ask_write: Vec<String> = Vec::new();
        ask_write.push(String::from_str(".assistant/**"));
        ask_write.push(String::from_str(".captain-hook/**"));
        ask_write.push(String::from_str(".env*"));
        ask_write.push(String::from_str("**/.env*"));
        ask_write.push(String::from_str(".git/hooks/**"));
        ask_write.push(String::from_str("**/secrets/**"));
        ask_write.push(String::from_str("~/.assistant/**"));
        ask_write.push(String::from_str("~/.config/**"));
        assert(ask_write.deep_view() =~= default_sensitive_patterns());
        PolicyConfig {
            sensitive_paths: SensitivePathsConfig { ask_write },
            confidence: ConfidenceConfig { org: 90, project: 70, user: 60 },
            similarity: SimilarityConfig {
                jaccard_threshold: 700,
                embedding_threshold: 850,
                jaccard_min_tokens: 3,
            },
            human_timeout_secs: 60,
            registration_timeout_secs: 5,
            supervisor: SupervisorConfig::Socket { socket_path: None },
        }
    }
}

} // verus!
