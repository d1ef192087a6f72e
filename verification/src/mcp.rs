//! Parameter shapes of the management surface: registering sessions and
//! answering pending decisions. The transport lives outside the library.

use vstd::prelude::*;

verus! {

use vstd::string::StringExecFns;

/// Parameters for registering a session with a role.
pub struct RegisterParams {
    /// Session id to register.
    pub session_id: String,
    /// Role name, e.g. `coder`.
    pub role: String,
    /// Optional task description.
    pub task: Option<String>,
}

/// Parameters naming just a session.
pub struct SessionIdParams {
    pub session_id: String,
}

/// Parameters for approving a pending decision.
pub struct ApproveParams {
    /// The pending decision id.
    pub id: String,
    /// Cache as `ask` so it always prompts.
    pub always_ask: bool,
    /// Add as a persistent rule.
    pub add_rule: bool,
    /// Rule scope: `project`, `user` or `org`.
    pub scope: String,
}

/// Parameters for denying a pending decision.
pub struct DenyParams {
    /// The pending decision id.
    pub id: String,
    /// Cache as `ask` so it always prompts.
    pub always_ask: bool,
    /// Add as a persistent rule.
    pub add_rule: bool,
    /// Rule scope: `project`, `user` or `org`.
    pub scope: String,
}

/// The scope promoted rules default to.
pub fn default_scope() -> (r: String)
    ensures
        r@ == "project"@,
{
    String::from_str("project")
}

} // verus!
