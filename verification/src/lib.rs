//! Permission gateway for AI coding assistants.
//!
//! The host assistant invokes the gateway before executing each tool call;
//! the gateway resolves the call to one of `allow`, `deny` or `ask` through
//! an ordered cascade of evaluation tiers: role path policy, exact decision
//! cache, token-set similarity, embedding similarity, remote supervisor and
//! human review, with a terminal default of deny.

use vstd::prelude::*;

pub mod cache;
pub mod cascade;
pub mod decision;
pub mod embed;
pub mod error;
pub mod globs;
pub mod hook_io;
pub mod human;
pub mod mcp;
pub mod path_policy;
pub mod policy;
pub mod roles;
pub mod sanitize;
pub mod scope;
pub mod storage;
pub mod supervisor;
pub mod text;
pub mod token_sim;

pub use cascade::CascadeRunner;
pub use decision::{CacheKey, Decision, DecisionMetadata, DecisionRecord, DecisionTier};
pub use error::CaptainHookError;
pub use hook_io::{HookFormat, HookOutput};
pub use policy::PolicyConfig;
pub use roles::{CompiledPathPolicy, RoleDefinition};

verus! {

/// The gateway's command surface, as the host's command line offers it.
pub enum Commands {
    /// Evaluate a tool call: read the call, run the cascade, answer.
    Check { format: hook_io::HookFormat },
    /// Check whether the session is registered.
    SessionCheck { format: hook_io::HookFormat },
    /// Register a session with a role.
    Register { session_id: String, role: String, task: Option<String>, prompt_file: Option<String> },
    /// Disable gating for a session.
    Disable { session_id: String },
    /// Re-enable gating for a disabled session.
    Enable { session_id: String },
    /// List pending permission decisions.
    Queue,
    /// Approve a pending decision.
    Approve { id: String, always_ask: bool, add_rule: bool, scope: String },
    /// Deny a pending decision.
    Deny { id: String, always_ask: bool, add_rule: bool, scope: String },
    /// Rebuild the similarity indexes from the persisted rules.
    Build,
    /// Clear cached decisions.
    Invalidate { role: Option<String>, scope: Option<String>, all: bool },
    /// Set an explicit permission override.
    Override {
        role: String,
        command: Option<String>,
        tool: Option<String>,
        file: Option<String>,
        allow: bool,
        deny: bool,
        ask: bool,
        scope: String,
    },
    /// Stream decisions in real time.
    Monitor,
    /// Show cache hit rates and decision distribution.
    Stats,
    /// Pre-commit secret scan on staged files.
    Scan { staged: bool, path: Option<String> },
    /// Initialise the gateway's directory in the current repository.
    Init,
    /// View or edit the global configuration.
    Config,
    /// Pull the latest organisation-level rules.
    Sync,
    /// Start the management server over stdio.
    McpServer,
    /// Check for and install binary updates.
    SelfUpdate { check: bool },
}

} // verus!
