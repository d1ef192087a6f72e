//! The hook boundary: the decision payloads written back to the host, in
//! the nested form one ecosystem expects or the flat form of the other,
//! and the exit code that accompanies a deny.

use vstd::prelude::*;
use crate::decision::Decision;
use crate::text;

verus! {

/// Hook output format selector.
#[derive(Clone, Copy, PartialEq, Eq, Structural, Debug)]
pub enum HookFormat {
    Claude,
    Gemini,
}

impl Default for HookFormat {
    /// The nested format is the default.
    fn default() -> (r: Self)
        ensures
            r is Claude,
    {
        HookFormat::Claude
    }
}

/// The decision word written into hook output.
pub open spec fn decision_text(d: Decision) -> Seq<char> {
    match d {
        Decision::Allow => "allow"@,
        Decision::Deny => "deny"@,
        Decision::Ask => "ask"@,
    }
}

/// The decision as the word the host reads.
pub fn decision_str(decision: Decision) -> (r: String)
    ensures
        r@ == decision_text(decision),
{
    match decision {
        Decision::Allow => text::chars_to_string(&text::str_to_chars("allow")),
        Decision::Deny => text::chars_to_string(&text::str_to_chars("deny")),
        Decision::Ask => text::chars_to_string(&text::str_to_chars("ask")),
    }
}

/// The permission decision inside the nested hook output.
pub struct HookSpecificOutput {
    pub permission_decision: String,
}

/// Nested hook output: `hookSpecificOutput.permissionDecision`.
pub struct HookOutput {
    pub hook_specific_output: HookSpecificOutput,
}

/// The rendered nested output for a decision.
pub open spec fn claude_json(d: Decision) -> Seq<char> {
    "{\"hookSpecificOutput\":{\"permissionDecision\":\""@ + decision_text(d) + "\"}}"@
}

impl HookOutput {
    /// Nested output carrying the decision word.
    pub fn new(decision: Decision) -> (r: HookOutput)
        ensures
            r.hook_specific_output.permission_decision@ == decision_text(decision),
    {
        HookOutput {
            hook_specific_output: HookSpecificOutput {
                permission_decision: decision_str(decision),
            },
        }
    }

    /// Render the output as one JSON object.
    pub fn to_json(&self) -> (r: String)
        ensures
            r@ == "{\"hookSpecificOutput\":{\"permissionDecision\":\""@
                + self.hook_specific_output.permission_decision@ + "\"}}"@,
    {
        let mut out: Vec<char> = Vec::new();
        text::push_str_chars(&mut out, "{\"hookSpecificOutput\":{\"permissionDecision\":\"");
        text::push_str_chars(&mut out, self.hook_specific_output.permission_decision.as_str());
        text::push_str_chars(&mut out, "\"}}");
        text::chars_to_string(&out)
    }
}

/// Flat hook output: a `decision` field and an optional `reason`.
pub struct GeminiHookOutput {
    pub decision: String,
    pub reason: Option<String>,
}

impl GeminiHookOutput {
    /// Flat output carrying the decision word.
    pub fn new(decision: Decision, reason: Option<String>) -> (r: GeminiHookOutput)
        ensures
            r.decision@ == decision_text(decision),
            r.reason == reason,
    {
        GeminiHookOutput { decision: decision_str(decision), reason }
    }

    /// Render the output as one JSON object; the reason is included only
    /// when present, JSON-escaped.
    pub fn to_json(&self) -> (r: String)
        ensures
            match self.reason {
                Some(re) => r@ == "{\"decision\":\""@ + self.decision@ + "\",\"reason\":\""@
                    + crate::storage::escape_spec(re@) + "\"}"@,
                None => r@ == "{\"decision\":\""@ + self.decision@ + "\"}"@,
            },
    {
        let mut out: Vec<char> = Vec::new();
        text::push_str_chars(&mut out, "{\"decision\":\"");
        text::push_str_chars(&mut out, self.decision.as_str());
        match &self.reason {
            Some(re) => {
                text::push_str_chars(&mut out, "\",\"reason\":\"");
                let esc = crate::storage::escape_json(re.as_str());
                text::push_str_chars(&mut out, esc.as_str());
                text::push_str_chars(&mut out, "\"}");
            },
            None => {
                text::push_str_chars(&mut out, "\"}");
            },
        }
        text::chars_to_string(&out)
    }
}

/// The process exit code a deny carries: 1 in the nested ecosystem, 2 in
/// the flat one.
pub fn deny_exit_code(format: HookFormat) -> (r: i32)
    ensures
        format is Claude ==> r == 1,
        format is Gemini ==> r == 2,
{
    match format {
        HookFormat::Claude => 1,
        HookFormat::Gemini => 2,
    }
}

/// Shorten a string to at most `max` characters, marking the cut.
pub fn truncate(s: &str, max: usize) -> (r: String)
    ensures
        s@.len() <= max ==> r@ == s@,
        s@.len() > max ==> r@ == s@.take(max as int) + "..."@,
{
    let v = text::str_to_chars(s);
    if v.len() <= max {
        return text::chars_to_string(&v);
    }
    let mut out: Vec<char> = Vec::new();
    let mut i: usize = 0;
    while i < max
        invariant
            0 <= i <= max,
            max < v@.len(),
            v@ == s@,
            out@ == s@.subrange(0, i as int),
        decreases max - i,
    {
        out.push(v[i]);
        assert(out@ =~= s@.subrange(0, i + 1));
        i = i + 1;
    }
    proof {
        assert(out@ =~= s@.take(max as int));
    }
    text::push_str_chars(&mut out, "...");
    text::chars_to_string(&out)
}

} // verus!
