//! The decision data model: decisions, tiers, scopes, cache keys and the
//! immutable decision records that the cascade produces and persists.

use vstd::prelude::*;

verus! {

/// A permission decision, ordered by restrictiveness: `allow < ask < deny`.
#[derive(Clone, Copy, PartialEq, Eq, Structural, Debug)]
pub enum Decision {
    Allow,
    Ask,
    Deny,
}

impl Decision {
    /// Restrictiveness rank: `allow` is 0, `ask` is 1, `deny` is 2.
    pub open spec fn precedence_spec(self) -> int {
        match self {
            Decision::Allow => 0,
            Decision::Ask => 1,
            Decision::Deny => 2,
        }
    }

    /// Executable restrictiveness rank.
    pub fn precedence(&self) -> (r: u8)
        ensures
            r as int == self.precedence_spec(),
    {
        match self {
            Decision::Allow => 0,
            Decision::Ask => 1,
            Decision::Deny => 2,
        }
    }

    /// The more restrictive of two decisions.
    pub open spec fn most_restrictive_spec(self, other: Decision) -> Decision {
        if other.precedence_spec() > self.precedence_spec() {
            other
        } else {
            self
        }
    }

    /// Executable most-restrictive combination; when several sub-decisions
    /// combine for one request, the most restrictive wins.
    pub fn most_restrictive(self, other: Decision) -> (r: Decision)
        ensures
            r == self.most_restrictive_spec(other),
            r.precedence_spec() >= self.precedence_spec(),
            r.precedence_spec() >= other.precedence_spec(),
    {
        if other.precedence() > self.precedence() {
            other
        } else {
            self
        }
    }
}

/// The breadth over which a decision applies: `org` is widest, then
/// `project`, then `user`, then `role`.
#[derive(Clone, Copy, PartialEq, Eq, Structural, Debug)]
pub enum ScopeLevel {
    Org,
    Project,
    User,
    Role,
}

impl ScopeLevel {
    /// Width rank: higher means wider. `org` is 3, `role` is 0.
    pub open spec fn rank_spec(self) -> int {
        match self {
            ScopeLevel::Org => 3,
            ScopeLevel::Project => 2,
            ScopeLevel::User => 1,
            ScopeLevel::Role => 0,
        }
    }

    /// Executable width rank.
    pub fn rank(&self) -> (r: u8)
        ensures
            r as int == self.rank_spec(),
    {
        match self {
            ScopeLevel::Org => 3,
            ScopeLevel::Project => 2,
            ScopeLevel::User => 1,
            ScopeLevel::Role => 0,
        }
    }

    /// The scope's name as it is persisted.
    pub fn as_str(&self) -> (r: &'static str)
        ensures
            self is Org ==> r@ == "org"@,
            self is Project ==> r@ == "project"@,
            self is User ==> r@ == "user"@,
            self is Role ==> r@ == "role"@,
    {
        match self {
            ScopeLevel::Org => "org",
            ScopeLevel::Project => "project",
            ScopeLevel::User => "user",
            ScopeLevel::Role => "role",
        }
    }
}

/// The cascade tier that resolved a decision.
#[derive(Clone, Copy, PartialEq, Eq, Structural, Debug)]
pub enum DecisionTier {
    PathPolicy,
    ExactCache,
    TokenJaccard,
    EmbeddingSimilarity,
    Supervisor,
    Human,
    Default,
}

/// The lookup key for cached decisions: two calls with the same key must
/// receive the same cached decision. `role == "*"` means no role declared.
pub struct CacheKey {
    /// The sanitized fingerprint of the tool input.
    pub sanitized_input: String,
    /// The tool name, e.g. `Bash` or `Write`.
    pub tool: String,
    /// The role name, or `*` when no role is declared.
    pub role: String,
}

/// The mathematical value of a [`CacheKey`]: three character sequences.
pub struct CacheKeyView {
    pub sanitized_input: Seq<char>,
    pub tool: Seq<char>,
    pub role: Seq<char>,
}

impl View for CacheKey {
    type V = CacheKeyView;

    open spec fn view(&self) -> CacheKeyView {
        CacheKeyView {
            sanitized_input: self.sanitized_input@,
            tool: self.tool@,
            role: self.role@,
        }
    }
}

impl Clone for CacheKey {
    fn clone(&self) -> (res: Self)
        ensures
            res == *self,
    {
        CacheKey {
            sanitized_input: self.sanitized_input.clone(),
            tool: self.tool.clone(),
            role: self.role.clone(),
        }
    }
}

impl CacheKey {
    /// Whether two keys are the same lookup key.
    pub fn same_key(&self, other: &CacheKey) -> (r: bool)
        ensures
            r == (self@ == other@),
    {
        let r = self.sanitized_input == other.sanitized_input && self.tool == other.tool
            && self.role == other.role;
        proof {
            if r {
                assert(self@ == other@);
            } else {
                assert(self@ != other@);
            }
        }
        r
    }
}

/// How and how confidently a decision was made.
pub struct DecisionMetadata {
    /// The tier that resolved.
    pub tier: DecisionTier,
    /// Confidence in hundredths: 0 to 100 stands for 0.0 to 1.0.
    pub confidence: u32,
    /// Human-readable reason for the decision.
    pub reason: String,
    /// For similarity hits, the key of the stored record that matched.
    pub matched_key: Option<CacheKey>,
    /// For similarity hits, the similarity in thousandths: 0 to 1000.
    pub similarity_score: Option<u32>,
}

impl Clone for DecisionMetadata {
    fn clone(&self) -> (res: Self)
        ensures
            res == *self,
    {
        DecisionMetadata {
            tier: self.tier,
            confidence: self.confidence,
            reason: self.reason.clone(),
            matched_key: match &self.matched_key {
                Some(k) => Some(k.clone()),
                None => None,
            },
            similarity_score: self.similarity_score,
        }
    }
}

/// One decision, immutable once written.
pub struct DecisionRecord {
    /// The cache key the decision is stored under.
    pub key: CacheKey,
    /// The decision itself.
    pub decision: Decision,
    /// How the decision was made.
    pub metadata: DecisionMetadata,
    /// Milliseconds since the Unix epoch; newest wins on load.
    pub timestamp: u64,
    /// The scope the decision applies at.
    pub scope: ScopeLevel,
    /// The file path the call targeted, when one was extracted.
    pub file_path: Option<String>,
    /// Identifier of the session that produced the record.
    pub session_id: String,
}

impl Clone for DecisionRecord {
    fn clone(&self) -> (res: Self)
        ensures
            res == *self,
    {
        DecisionRecord {
            key: self.key.clone(),
            decision: self.decision,
            metadata: self.metadata.clone(),
            timestamp: self.timestamp,
            scope: self.scope,
            file_path: match &self.file_path {
                Some(p) => Some(p.clone()),
                None => None,
            },
            session_id: self.session_id.clone(),
        }
    }
}

} // verus!
