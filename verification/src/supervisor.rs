//! Tier 4: the remote supervisor. The transports — a Unix domain socket
//! to a co-resident process, or an HTTP messages API — live outside the
//! library; the library states what is sent, how the reply's JSON object
//! is located inside surrounding prose, and how the confidence gate
//! decides whether the tier resolves.

use vstd::prelude::*;
use crate::decision::Decision;
use crate::policy::PolicyConfig;
use crate::text;

verus! {

/// What is sent to the supervisor for evaluation.
pub struct SupervisorRequest {
    pub session_id: String,
    pub role: String,
    pub role_description: String,
    pub tool_name: String,
    pub sanitized_input: String,
    pub file_path: Option<String>,
    pub task_description: Option<String>,
    pub agent_prompt_path: Option<String>,
    pub cwd: String,
}

/// What the supervisor answered: a decision, a confidence in hundredths,
/// and a reason.
pub struct SupervisorOutcome {
    pub decision: Decision,
    pub confidence: u32,
    pub reason: String,
}

/// The socket-backed supervisor: a co-resident process behind a Unix
/// domain socket, answering one length-bounded JSON line per request.
pub struct UnixSocketSupervisor {
    pub socket_path: String,
    pub timeout_secs: u64,
}

impl UnixSocketSupervisor {
    /// Remember where the socket lives and how long to wait.
    pub fn new(socket_path: String, timeout_secs: u64) -> (r: UnixSocketSupervisor)
        ensures
            r.socket_path == socket_path,
            r.timeout_secs == timeout_secs,
    {
        UnixSocketSupervisor { socket_path, timeout_secs }
    }
}

/// The API-backed supervisor's settings; the HTTP client lives outside
/// the library.
pub struct ApiSupervisorConfig {
    pub api_base_url: String,
    pub model: String,
    pub max_tokens: u32,
}

/// The supervisor tier: whatever the backend, a decision below the
/// project confidence threshold does not resolve.
pub struct SupervisorTier {
    /// The confidence the tier demands, in hundredths.
    pub confidence_threshold: u32,
}

impl SupervisorTier {
    /// Build the tier from the project policy.
    pub fn new(policy: &PolicyConfig) -> (r: SupervisorTier)
        ensures
            r.confidence_threshold == policy.confidence.project,
    {
        SupervisorTier { confidence_threshold: policy.confidence.project }
    }

    /// The confidence gate: the backend's answer resolves the tier only
    /// at or over the threshold; everything else falls through, and a
    /// missing answer — unreachable backend, bad reply, timeout — always
    /// falls through.
    pub fn gate(&self, outcome: Option<&SupervisorOutcome>) -> (r: Option<Decision>)
        ensures
            match outcome {
                Some(o) => if o.confidence >= self.confidence_threshold {
                    r == Some(o.decision)
                } else {
                    r is None
                },
                None => r is None,
            },
    {
        match outcome {
            Some(o) => {
                if o.confidence >= self.confidence_threshold {
                    Some(o.decision)
                } else {
                    None
                }
            },
            None => None,
        }
    }
}

/// The first index at or after `i` holding `c`, or the length.
pub open spec fn first_at(s: Seq<char>, c: char, i: int) -> int
    decreases s.len() - i,
{
    if i < 0 || i >= s.len() {
        s.len() as int
    } else if s[i] == c {
        i
    } else {
        first_at(s, c, i + 1)
    }
}

/// The last index before `i` holding `c`, or -1.
pub open spec fn last_before(s: Seq<char>, c: char, i: int) -> int
    decreases i,
{
    if i <= 0 || i > s.len() {
        -1
    } else if s[i - 1] == c {
        i - 1
    } else {
        last_before(s, c, i - 1)
    }
}

/// Locate the JSON object inside a supervisor reply: the span from the
/// first `{` to the last `}`, tolerating surrounding prose. No such span
/// means the reply cannot be understood.
pub fn extract_json_span(s: &str) -> (r: Option<String>)
    ensures
        ({
            let a = first_at(s@, '{', 0);
            let b = last_before(s@, '}', s@.len() as int);
            match r {
                Some(sub) => a < s@.len() && b >= 0 && a < b && sub@ == s@.subrange(a, b + 1),
                None => !(a < s@.len() && b >= 0 && a < b),
            }
        }),
{
    let v = text::str_to_chars(s);
    let n = v.len();
    let ghost sv = s@;
    // Find the first `{`.
    let mut a: usize = 0;
    while a < n && v[a] != '{'
        invariant
            0 <= a <= n,
            n == sv.len(),
            v@ == sv,
            first_at(sv, '{', 0) == first_at(sv, '{', a as int),
        decreases n - a,
    {
        a = a + 1;
    }
    // Find the last `}`.
    let mut b: usize = n;
    while b > 0 && v[b - 1] != '}'
        invariant
            0 <= b <= n,
            n == sv.len(),
            v@ == sv,
            last_before(sv, '}', sv.len() as int) == last_before(sv, '}', b as int),
        decreases b,
    {
        b = b - 1;
    }
    if a < n && b > 0 && a < b - 1 + 1 && a + 1 <= b {
        if a < b - 1 {
            let mut out: Vec<char> = Vec::new();
            let mut t = a;
            while t < b
                invariant
                    a <= t <= b <= n,
                    n == sv.len(),
                    v@ == sv,
                    out@ == sv.subrange(a as int, t as int),
                decreases b - t,
            {
                out.push(v[t]);
                assert(out@ =~= sv.subrange(a as int, t + 1));
                t = t + 1;
            }
            proof {
                assert(first_at(sv, '{', a as int) == a);
                assert(last_before(sv, '}', b as int) == b - 1);
            }
            return Some(text::chars_to_string(&out));
        }
    }
    proof {
        if a >= n {
            assert(first_at(sv, '{', a as int) == sv.len());
        } else {
            assert(first_at(sv, '{', a as int) == a);
        }
        if b == 0 {
            assert(last_before(sv, '}', 0) == -1);
        } else {
            assert(last_before(sv, '}', b as int) == b - 1);
        }
    }
    None
}


/// Pattern lists joined with comma-space, as shown to the supervisor.
pub open spec fn join_comma(ps: Seq<Seq<char>>) -> Seq<char>
    decreases ps.len(),
{
    if ps.len() == 0 {
        Seq::empty()
    } else if ps.len() == 1 {
        ps[0]
    } else {
        ps[0] + ", "@ + join_comma(ps.drop_first())
    }
}

/// Join string items with comma-space.
fn join_comma_exec(items: &Vec<String>, from: usize) -> (r: String)
    requires
        from <= items@.len(),
    ensures
        r@ == join_comma(items.deep_view().skip(from as int)),
    decreases items@.len() - from,
{
    let ghost m = items.deep_view();
    let n = items.len();
    if from >= n {
        proof {
            assert(m.skip(from as int) =~= Seq::<Seq<char>>::empty());
        }
        let out: Vec<char> = Vec::new();
        text::chars_to_string(&out)
    } else if from == n - 1 {
        proof {
            assert(m.skip(from as int).len() == 1);
            assert(m.skip(from as int)[0] == m[from as int]);
        }
        let mut out: Vec<char> = Vec::new();
        text::push_str_chars(&mut out, items[from].as_str());
        text::chars_to_string(&out)
    } else {
        let mut out: Vec<char> = Vec::new();
        text::push_str_chars(&mut out, items[from].as_str());
        text::push_str_chars(&mut out, ", ");
        let rest = join_comma_exec(items, from + 1);
        text::push_str_chars(&mut out, rest.as_str());
        proof {
            assert(m.skip(from as int)[0] == m[from as int]);
            assert(m.skip(from as int).drop_first() =~= m.skip(from as int + 1));
            assert(out@ =~= m[from as int] + ", "@ + join_comma(m.skip(from as int + 1)));
        }
        text::chars_to_string(&out)
    }
}

/// The system prompt the API-backed supervisor receives: the policy
/// summary with sensitive paths and the confidence thresholds in
/// hundredths.
pub open spec fn system_prompt_spec(policy: &PolicyConfig) -> Seq<char> {
    "You are a permission supervisor. Evaluate whether a tool call should be allowed, denied, or escalated to a human.\nPolicy:\n- Sensitive paths: "@
        + join_comma(policy.sensitive_paths.ask_write.deep_view())
        + "\n- Confidence thresholds in hundredths: org="@ + text::dec_digits(
        policy.confidence.org as nat,
    ) + ", project="@ + text::dec_digits(policy.confidence.project as nat) + ", user="@
        + text::dec_digits(policy.confidence.user as nat)
        + "\nRespond with JSON: {\"decision\": \"allow\"|\"deny\"|\"ask\", \"confidence\": 0.0-1.0, \"reason\": \"...\"}"@
}

/// Build the supervisor's system prompt.
pub fn build_system_prompt(policy: &PolicyConfig) -> (r: String)
    ensures
        r@ == system_prompt_spec(policy),
{
    let mut out: Vec<char> = Vec::new();
    text::push_str_chars(
        &mut out,
        "You are a permission supervisor. Evaluate whether a tool call should be allowed, denied, or escalated to a human.\nPolicy:\n- Sensitive paths: ",
    );
    let joined = join_comma_exec(&policy.sensitive_paths.ask_write, 0);
    text::push_str_chars(&mut out, joined.as_str());
    text::push_str_chars(&mut out, "\n- Confidence thresholds in hundredths: org=");
    let d1 = text::u64_digits(policy.confidence.org as u64);
    text::push_all(&mut out, &d1);
    text::push_str_chars(&mut out, ", project=");
    let d2 = text::u64_digits(policy.confidence.project as u64);
    text::push_all(&mut out, &d2);
    text::push_str_chars(&mut out, ", user=");
    let d3 = text::u64_digits(policy.confidence.user as u64);
    text::push_all(&mut out, &d3);
    text::push_str_chars(
        &mut out,
        "\nRespond with JSON: {\"decision\": \"allow\"|\"deny\"|\"ask\", \"confidence\": 0.0-1.0, \"reason\": \"...\"}",
    );
    proof {
        let ghost g = policy.sensitive_paths.ask_write.deep_view();
        assert(g.skip(0) =~= g);
        assert(out@ =~= system_prompt_spec(policy));
    }
    text::chars_to_string(&out)
}

/// The user message the supervisor receives: role, tool, sanitized
/// input and working directory, with the file path and task when known.
pub open spec fn user_message_spec(request: &SupervisorRequest) -> Seq<char> {
    "Role: "@ + request.role@ + " ("@ + request.role_description@ + ")\nTool: "@
        + request.tool_name@ + "\nInput: "@ + request.sanitized_input@ + "\nCWD: "@
        + request.cwd@ + (match request.file_path {
        Some(fp) => "\nFile path: "@ + fp@,
        None => Seq::<char>::empty(),
    }) + (match request.task_description {
        Some(task) => "\nTask: "@ + task@,
        None => Seq::<char>::empty(),
    })
}

/// Build the supervisor's user message.
pub fn build_user_message(request: &SupervisorRequest) -> (r: String)
    ensures
        r@ == user_message_spec(request),
{
    let mut out: Vec<char> = Vec::new();
    text::push_str_chars(&mut out, "Role: ");
    text::push_str_chars(&mut out, request.role.as_str());
    text::push_str_chars(&mut out, " (");
    text::push_str_chars(&mut out, request.role_description.as_str());
    text::push_str_chars(&mut out, ")\nTool: ");
    text::push_str_chars(&mut out, request.tool_name.as_str());
    text::push_str_chars(&mut out, "\nInput: ");
    text::push_str_chars(&mut out, request.sanitized_input.as_str());
    text::push_str_chars(&mut out, "\nCWD: ");
    text::push_str_chars(&mut out, request.cwd.as_str());
    match &request.file_path {
        Some(fp) => {
            text::push_str_chars(&mut out, "\nFile path: ");
            text::push_str_chars(&mut out, fp.as_str());
        },
        None => {},
    }
    match &request.task_description {
        Some(task) => {
            text::push_str_chars(&mut out, "\nTask: ");
            text::push_str_chars(&mut out, task.as_str());
        },
        None => {},
    }
    proof {
        assert(out@ =~= user_message_spec(request));
    }
    text::chars_to_string(&out)
}

} // verus!
