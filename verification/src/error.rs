//! The error taxonomy: configuration errors are fatal at startup, backend
//! hiccups make a tier fall through, and timeouts surface to the caller.

use vstd::prelude::*;
use crate::text;

verus! {

/// Everything that can go wrong in the gateway.
#[derive(Debug)]
pub enum CaptainHookError {
    /// A policy or roles file is malformed; fatal at startup.
    ConfigParse { path: String, reason: String },
    /// A user-supplied glob does not compile; fatal at session construction.
    GlobPattern { pattern: String, reason: String },
    /// An I/O failure; becomes `deny` at the hook boundary.
    Io { reason: String },
    /// The supervisor socket misbehaved; the tier falls through.
    Ipc { reason: String },
    /// The supervisor socket does not exist; the tier falls through.
    SocketNotFound { path: String },
    /// The supervisor API answered non-2xx; the tier falls through.
    Api { status: u16, body: String },
    /// The supervisor answer could not be understood; the tier falls through.
    Supervisor { reason: String },
    /// The supervisor did not answer in time; the tier falls through.
    SupervisorTimeout { timeout_secs: u64 },
    /// No human answered in time; the hook writes `deny` and exits non-zero.
    HumanTimeout { timeout_secs: u64 },
    /// The session has no role; immediate `deny`.
    RegistrationRequired,
}

impl CaptainHookError {
    /// A human-readable description of the error.
    pub fn message(&self) -> String {
        let mut out: Vec<char> = Vec::new();
        match self {
            CaptainHookError::ConfigParse { path, reason } => {
                text::push_str_chars(&mut out, "config parse error in ");
                text::push_str_chars(&mut out, path.as_str());
                text::push_str_chars(&mut out, ": ");
                text::push_str_chars(&mut out, reason.as_str());
            },
            CaptainHookError::GlobPattern { pattern, reason } => {
                text::push_str_chars(&mut out, "invalid glob pattern '");
                text::push_str_chars(&mut out, pattern.as_str());
                text::push_str_chars(&mut out, "': ");
                text::push_str_chars(&mut out, reason.as_str());
            },
            CaptainHookError::Io { reason } => {
                text::push_str_chars(&mut out, "io error: ");
                text::push_str_chars(&mut out, reason.as_str());
            },
            CaptainHookError::Ipc { reason } => {
                text::push_str_chars(&mut out, "ipc error: ");
                text::push_str_chars(&mut out, reason.as_str());
            },
            CaptainHookError::SocketNotFound { path } => {
                text::push_str_chars(&mut out, "supervisor socket not found: ");
                text::push_str_chars(&mut out, path.as_str());
            },
            CaptainHookError::Api { status, body } => {
                text::push_str_chars(&mut out, "api error (status ");
                let digits = text::u64_digits(*status as u64);
                text::push_all(&mut out, &digits);
                text::push_str_chars(&mut out, "): ");
                text::push_str_chars(&mut out, body.as_str());
            },
            CaptainHookError::Supervisor { reason } => {
                text::push_str_chars(&mut out, "supervisor error: ");
                text::push_str_chars(&mut out, reason.as_str());
            },
            CaptainHookError::SupervisorTimeout { timeout_secs } => {
                text::push_str_chars(&mut out, "supervisor timed out after ");
                let digits = text::u64_digits(*timeout_secs);
                text::push_all(&mut out, &digits);
                text::push_str_chars(&mut out, "s");
            },
            CaptainHookError::HumanTimeout { timeout_secs } => {
                text::push_str_chars(&mut out, "human decision timed out after ");
                let digits = text::u64_digits(*timeout_secs);
                text::push_all(&mut out, &digits);
                text::push_str_chars(&mut out, "s");
            },
            CaptainHookError::RegistrationRequired => {
                text::push_str_chars(&mut out, "session is not registered with a role");
            },
        }
        text::chars_to_string(&out)
    }
}

} // verus!
