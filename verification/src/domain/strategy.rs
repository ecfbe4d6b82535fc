//! The persisted strategy tree: strategies, their versions, and agent submissions.
use crate::domain::dsl::equality::{
    law_equality_is_reflexive, law_equality_is_symmetric, same_strategy,
};
use crate::domain::dsl::schema_version::SchemaVersion;
use crate::domain::dsl::strategy::StrategyDsl;
use crate::domain::market::Timestamp;
use crate::text::{
    chars_of, concat2, concat3, control, digits, is_control, law_trimming_twice_is_trimming_once,
    lower, lower_char, trim, trimmed, usize_text,
};
use vstd::prelude::*;
use vstd::string::*;

verus! {

/// Identifier of a strategy.
#[derive(Clone, Debug, PartialEq, Eq, Hash, PartialOrd, Ord)]
pub struct StrategyId(String);

impl View for StrategyId {
    type V = Seq<char>;

    closed spec fn view(&self) -> Seq<char> {
        self.0@
    }
}

impl StrategyId {
    /// Wraps an id.
    pub fn new(id: &str) -> (r: StrategyId)
        ensures
            r@ == id@,
    {
        StrategyId(id.to_owned())
    }

    /// The id.
    pub fn as_str(&self) -> (r: &str)
        ensures
            r@ == self@,
    {
        self.0.as_str()
    }
}

/// Identifier of a strategy version.
#[derive(Clone, Debug, PartialEq, Eq, Hash, PartialOrd, Ord)]
pub struct VersionId(String);

impl View for VersionId {
    type V = Seq<char>;

    closed spec fn view(&self) -> Seq<char> {
        self.0@
    }
}

impl VersionId {
    /// Wraps an id.
    pub fn new(id: &str) -> (r: VersionId)
        ensures
            r@ == id@,
    {
        VersionId(id.to_owned())
    }

    /// The id.
    pub fn as_str(&self) -> (r: &str)
        ensures
            r@ == self@,
    {
        self.0.as_str()
    }

    /// Whether two ids are the same.
    pub fn same(&self, other: &VersionId) -> (r: bool)
        ensures
            r == (self@ == other@),
    {
        self.0 == other.0
    }
}

/// Who or what wrote a version.
#[derive(Clone, Copy, Debug, PartialEq, Eq, Structural)]
pub enum CreatedBy {
    /// The user.
    Human,
    /// The composer model.
    ComposerLlm,
    /// The coach model.
    CoachLlm,
    /// The optimizer.
    AutoOptimizer,
    /// A migration of the document format.
    Migration,
    /// An external coding agent.
    ExternalAgent,
}

/// The mutable record of a strategy.
#[derive(Clone, Debug, PartialEq, Eq)]
pub struct Strategy {
    /// The id.
    pub id: StrategyId,
    /// The name.
    pub name: String,
    /// Free-form tags.
    pub tags: Vec<String>,
    /// The owner, if any.
    pub owner: Option<String>,
    /// The pinned version, if any.
    pub pinned_version_id: Option<VersionId>,
    /// Whether the strategy is archived.
    pub archived: bool,
    /// When it was created.
    pub created_at: Timestamp,
}

/// The immutable record of a version.
#[derive(Clone, Debug, PartialEq, Eq)]
pub struct StrategyVersion {
    /// The id.
    pub id: VersionId,
    /// The strategy that the version belongs to.
    pub strategy_id: StrategyId,
    /// The version that this one was cloned from, if any.
    pub parent_version_id: Option<VersionId>,
    /// The version of the document format.
    pub dsl_schema_version: SchemaVersion,
    /// The document at the current format.
    pub dsl: StrategyDsl,
    /// The document as it was received, verbatim.
    pub dsl_original: String,
    /// The content hash, in hex.
    pub version_hash: String,
    /// Who or what wrote it.
    pub created_by: CreatedBy,
    /// The model calls that produced it.
    pub creating_llm_call_ids: Vec<String>,
    /// When it was created.
    pub created_at: Timestamp,
}

/// A request to create a version. A clone names its parent.
#[derive(Clone, Debug, PartialEq, Eq)]
pub struct NewVersion {
    /// The strategy that the version belongs to.
    pub strategy_id: StrategyId,
    /// The version that it is cloned from, if any.
    pub parent_version_id: Option<VersionId>,
    /// The document as it was received.
    pub dsl_json: String,
    /// Who or what wrote it.
    pub created_by: CreatedBy,
    /// The model calls that produced it.
    pub creating_llm_call_ids: Vec<String>,
}

/// Identifier of an agent submission.
#[derive(Clone, Debug, PartialEq, Eq, Hash, PartialOrd, Ord)]
pub struct AgentSubmissionId(String);

impl View for AgentSubmissionId {
    type V = Seq<char>;

    closed spec fn view(&self) -> Seq<char> {
        self.0@
    }
}

impl AgentSubmissionId {
    /// Wraps an id.
    pub fn new(id: &str) -> (r: AgentSubmissionId)
        ensures
            r@ == id@,
    {
        AgentSubmissionId(id.to_owned())
    }

    /// The id.
    pub fn as_str(&self) -> (r: &str)
        ensures
            r@ == self@,
    {
        self.0.as_str()
    }
}

// ---------------------------------------------------------------------------
// Agent names.
// ---------------------------------------------------------------------------

/// Why an agent name was refused.
#[derive(Clone, Debug, PartialEq, Eq)]
pub struct AgentNameError {
    /// The field at fault.
    pub path: String,
    /// What is wrong with it.
    pub message: String,
}

impl AgentNameError {
    /// The text of the error.
    pub fn to_string(&self) -> (r: String)
        ensures
            r@ == self.path@ + ": "@ + self.message@,
    {
        concat3(self.path.as_str(), ": ", self.message.as_str())
    }
}

/// Whether a character may stand in an agent name.
pub open spec fn is_name_char(c: char) -> bool {
    ||| 'A' <= c <= 'Z'
    ||| 'a' <= c <= 'z'
    ||| '0' <= c <= '9'
    ||| c == '.'
    ||| c == '_'
    ||| c == '-'
}

/// Whether every character of a text may stand in an agent name.
pub open spec fn all_name_chars(s: Seq<char>) -> bool {
    forall|i: int| 0 <= i < s.len() ==> is_name_char(#[trigger] s[i])
}

/// A text with its ASCII letters in lower case.
pub open spec fn lowercased(s: Seq<char>) -> Seq<char> {
    s.map_values(|c: char| lower(c))
}

/// Whether a text is a stored agent name.
pub open spec fn is_agent_name(s: Seq<char>) -> bool {
    1 <= s.len() <= 64 && all_name_chars(s) && lowercased(s) == s
}

/// The message about the length of an agent name.
pub open spec fn name_length_text(len: nat) -> Seq<char> {
    "agent_name must be 1-64 characters, got "@ + digits(len)
}

/// The message about a character of an agent name.
pub open spec fn name_chars_text() -> Seq<char> {
    "agent_name may contain only ASCII letters, digits, '.', '_' and '-'"@
}

/// The name of a submitting agent: 1 to 64 letters, digits, full stops, underscores and
/// hyphens, in lower case.
#[derive(Debug, PartialEq, Eq)]
pub struct AgentName(String);

impl Clone for AgentName {
    fn clone(&self) -> (r: AgentName)
        ensures
            r@ == self@,
    {
        proof {
            use_type_invariant(self);
        }
        AgentName(self.0.clone())
    }
}

impl View for AgentName {
    type V = Seq<char>;

    closed spec fn view(&self) -> Seq<char> {
        self.0@
    }
}

impl AgentName {
    #[verifier::type_invariant]
    spec fn inv(&self) -> bool {
        is_agent_name(self.0@)
    }

    /// Checks a name and puts it in lower case.
    pub fn parse(raw: &str) -> (r: Result<AgentName, AgentNameError>)
        ensures
            r is Ok <==> 1 <= raw@.len() <= 64 && all_name_chars(raw@),
            r matches Ok(name) ==> name@ == lowercased(raw@) && is_agent_name(name@),
            r is Ok <==> 1 <= raw@.len() <= 64 && forall|i: int|
                0 <= i < raw@.len() ==> {
                    let u = (#[trigger] raw@[i]) as int;
                    65 <= u <= 90 || 97 <= u <= 122 || 48 <= u <= 57 || u == 46 || u == 95 || u
                        == 45
                },
            r matches Ok(name) ==> name@.len() == raw@.len() && forall|i: int|
                0 <= i < raw@.len() ==> (#[trigger] name@[i]) as int == if 65 <= raw@[i] as int
                    <= 90 {
                    raw@[i] as int + 32
                } else {
                    raw@[i] as int
                },
            r matches Err(e) ==> e.path@ == "agent_name"@ && e.message@ == if 1 <= raw@.len()
                <= 64 {
                name_chars_text()
            } else {
                name_length_text(raw@.len())
            },
    {
        let chars = chars_of(raw);
        let len = chars.len();
        if !(1 <= len && len <= 64) {
            return Err(
                AgentNameError {
                    path: "agent_name".to_owned(),
                    message: concat2(
                        "agent_name must be 1-64 characters, got ",
                        usize_text(len).as_str(),
                    ),
                },
            );
        }
        let mut name = String::new();
        let ghost low = lowercased(raw@);
        for i in 0..len
            invariant
                len == chars@.len(),
                chars@ == raw@,
                1 <= len <= 64,
                low == lowercased(raw@),
                name@ == low.take(i as int),
                forall|j: int| 0 <= j < i ==> is_name_char(#[trigger] raw@[j]),
        {
            let c = chars[i];
            let allowed = ('A' <= c && c <= 'Z') || ('a' <= c && c <= 'z') || ('0' <= c && c
                <= '9') || c == '.' || c == '_' || c == '-';
            if !allowed {
                assert(!is_name_char(raw@[i as int]));
                return Err(
                    AgentNameError {
                        path: "agent_name".to_owned(),
                        message:
                            "agent_name may contain only ASCII letters, digits, '.', '_' and '-'".to_owned(),
                    },
                );
            }
            name.push(lower_char(c));
            assert(name@ =~= low.take(i as int + 1));
        }
        assert(low.take(len as int) =~= low);
        proof {
            law_agent_names_are_stable(raw@);
        }
        Ok(AgentName(name))
    }

    /// The name.
    pub fn as_str(&self) -> (r: &str)
        ensures
            r@ == self@,
            is_agent_name(r@),
    {
        proof {
            use_type_invariant(self);
        }
        self.0.as_str()
    }
}

/// What is stored of an accepted name is itself an accepted name, and stays as it is.
pub proof fn law_agent_names_are_stable(raw: Seq<char>)
    requires
        1 <= raw.len() <= 64,
        all_name_chars(raw),
    ensures
        is_agent_name(lowercased(raw)),
        lowercased(lowercased(raw)) == lowercased(raw),
{
    let low = lowercased(raw);
    assert forall|i: int| 0 <= i < low.len() implies is_name_char(#[trigger] low[i]) && lower(
        low[i],
    ) == low[i] by {
        assert(is_name_char(raw[i]));
    }
    assert(lowercased(low) =~= low);
}

// ---------------------------------------------------------------------------
// Hypotheses.
// ---------------------------------------------------------------------------

/// Why a hypothesis was refused.
#[derive(Clone, Debug, PartialEq, Eq)]
pub struct HypothesisError {
    /// The field at fault.
    pub path: String,
    /// What is wrong with it.
    pub message: String,
}

impl HypothesisError {
    /// The text of the error.
    pub fn to_string(&self) -> (r: String)
        ensures
            r@ == self.path@ + ": "@ + self.message@,
    {
        concat3(self.path.as_str(), ": ", self.message.as_str())
    }
}

/// Whether a text holds no control characters but line feeds.
pub open spec fn printable_lines(s: Seq<char>) -> bool {
    forall|i: int| 0 <= i < s.len() ==> !is_control(#[trigger] s[i]) || s[i] == '\n'
}

/// Whether a text is a stored hypothesis.
pub open spec fn is_hypothesis(s: Seq<char>) -> bool {
    1 <= s.len() <= 2000 && printable_lines(s) && trimmed(s) == s
}

/// The message about the length of a hypothesis.
pub open spec fn hypothesis_length_text(len: nat) -> Seq<char> {
    "hypothesis must be 1-2000 characters after trimming, got "@ + digits(len)
}

/// The message about a character of a hypothesis.
pub open spec fn hypothesis_chars_text() -> Seq<char> {
    "hypothesis may not contain control characters other than '\\n'"@
}

/// What an agent expects of a version: 1 to 2000 characters, trimmed, without control
/// characters but line feeds.
#[derive(Debug, PartialEq, Eq)]
pub struct Hypothesis(String);

impl Clone for Hypothesis {
    fn clone(&self) -> (r: Hypothesis)
        ensures
            r@ == self@,
    {
        proof {
            use_type_invariant(self);
        }
        Hypothesis(self.0.clone())
    }
}

impl View for Hypothesis {
    type V = Seq<char>;

    closed spec fn view(&self) -> Seq<char> {
        self.0@
    }
}

impl Hypothesis {
    #[verifier::type_invariant]
    spec fn inv(&self) -> bool {
        is_hypothesis(self.0@)
    }

    /// Trims a hypothesis and checks it.
    pub fn parse(raw: &str) -> (r: Result<Hypothesis, HypothesisError>)
        ensures
            r is Ok <==> 1 <= trimmed(raw@).len() <= 2000 && printable_lines(trimmed(raw@)),
            r matches Ok(h) ==> h@ == trimmed(raw@) && is_hypothesis(h@),
            r is Ok <==> 1 <= trimmed(raw@).len() <= 2000 && forall|i: int|
                0 <= i < trimmed(raw@).len() ==> {
                    let u = (#[trigger] trimmed(raw@)[i]) as int;
                    u == 10 || 32 <= u <= 126 || 160 <= u
                },
            r matches Err(e) ==> e.path@ == "hypothesis"@ && e.message@ == if 1 <= trimmed(
                raw@,
            ).len() <= 2000 {
                hypothesis_chars_text()
            } else {
                hypothesis_length_text(trimmed(raw@).len())
            },
    {
        let text = trim(raw);
        let chars = chars_of(text.as_str());
        let len = chars.len();
        if !(1 <= len && len <= 2000) {
            return Err(
                HypothesisError {
                    path: "hypothesis".to_owned(),
                    message: concat2(
                        "hypothesis must be 1-2000 characters after trimming, got ",
                        usize_text(len).as_str(),
                    ),
                },
            );
        }
        for i in 0..len
            invariant
                len == chars@.len(),
                chars@ == text@,
                text@ == trimmed(raw@),
                1 <= len <= 2000,
                forall|j: int|
                    0 <= j < i ==> !is_control(#[trigger] text@[j]) || text@[j] == '\n',
        {
            let c = chars[i];
            if control(c) && c != '\n' {
                assert(is_control(text@[i as int]));
                return Err(
                    HypothesisError {
                        path: "hypothesis".to_owned(),
                        message:
                            "hypothesis may not contain control characters other than '\\n'".to_owned(),
                    },
                );
            }
        }
        proof {
            law_trimming_twice_is_trimming_once(raw@);
        }
        Ok(Hypothesis(text))
    }

    /// The text.
    pub fn as_str(&self) -> (r: &str)
        ensures
            r@ == self@,
            is_hypothesis(r@),
    {
        proof {
            use_type_invariant(self);
        }
        self.0.as_str()
    }
}

/// The audit record of a version that an external agent submitted.
#[derive(Clone, Debug, PartialEq, Eq)]
pub struct AgentSubmission {
    /// The id.
    pub id: AgentSubmissionId,
    /// The version that was submitted.
    pub version_id: VersionId,
    /// The agent.
    pub agent_name: AgentName,
    /// What the agent expects of the version.
    pub hypothesis: Hypothesis,
    /// When it was created.
    pub created_at: Timestamp,
}

/// What an agent submits beside a new version.
#[derive(Clone, Debug, PartialEq, Eq)]
pub struct NewAgentSubmission {
    /// The agent.
    pub agent_name: AgentName,
    /// What the agent expects of the version.
    pub hypothesis: Hypothesis,
}

// ---------------------------------------------------------------------------
// Comparing versions.
// ---------------------------------------------------------------------------

/// What differs between two versions. Neither the owning strategy nor the time counts.
#[derive(Clone, Copy, Debug, PartialEq, Eq, Structural)]
pub struct VersionDiff {
    /// The two are one version.
    pub same_version: bool,
    /// The versions of the document format differ.
    pub dsl_schema_version_changed: bool,
    /// The documents differ.
    pub dsl_changed: bool,
    /// The texts that were received differ.
    pub dsl_original_changed: bool,
    /// The content hashes differ.
    pub version_hash_changed: bool,
    /// The authors differ.
    pub created_by_changed: bool,
    /// The parents differ.
    pub parent_changed: bool,
}

/// Whether two optional ids are the same.
pub open spec fn same_parent(a: Option<VersionId>, b: Option<VersionId>) -> bool {
    match (a, b) {
        (Some(x), Some(y)) => x@ == y@,
        (None, None) => true,
        _ => false,
    }
}

fn parents_equal(a: &Option<VersionId>, b: &Option<VersionId>) -> (r: bool)
    ensures
        r == same_parent(*a, *b),
{
    match (a, b) {
        (Some(x), Some(y)) => x.same(y),
        (None, None) => true,
        _ => false,
    }
}

/// What differs between two versions.
pub open spec fn version_diff(a: StrategyVersion, b: StrategyVersion) -> VersionDiff {
    VersionDiff {
        same_version: a.id@ == b.id@,
        dsl_schema_version_changed: a.dsl_schema_version != b.dsl_schema_version,
        dsl_changed: !same_strategy(a.dsl@, b.dsl@),
        dsl_original_changed: a.dsl_original@ != b.dsl_original@,
        version_hash_changed: a.version_hash@ != b.version_hash@,
        created_by_changed: a.created_by != b.created_by,
        parent_changed: !same_parent(a.parent_version_id, b.parent_version_id),
    }
}

/// Compares two versions field by field.
pub fn diff_versions(a: &StrategyVersion, b: &StrategyVersion) -> (r: VersionDiff)
    ensures
        r == version_diff(*a, *b),
        r.same_version <==> a.id@ == b.id@,
        r.dsl_schema_version_changed <==> a.dsl_schema_version != b.dsl_schema_version,
        r.dsl_changed <==> !same_strategy(a.dsl@, b.dsl@),
        r.dsl_original_changed <==> a.dsl_original@ != b.dsl_original@,
        r.version_hash_changed <==> a.version_hash@ != b.version_hash@,
        r.created_by_changed <==> a.created_by != b.created_by,
        a.parent_version_id is None && b.parent_version_id is None ==> !r.parent_changed,
        a.parent_version_id is Some != b.parent_version_id is Some ==> r.parent_changed,
        a.parent_version_id matches Some(x) && b.parent_version_id is Some ==> (r.parent_changed
            <==> a.parent_version_id->0@ != b.parent_version_id->0@),
{
    VersionDiff {
        same_version: a.id.same(&b.id),
        dsl_schema_version_changed: a.dsl_schema_version != b.dsl_schema_version,
        dsl_changed: !a.dsl.equals(&b.dsl),
        dsl_original_changed: !(a.dsl_original == b.dsl_original),
        version_hash_changed: !(a.version_hash == b.version_hash),
        created_by_changed: a.created_by != b.created_by,
        parent_changed: !parents_equal(&a.parent_version_id, &b.parent_version_id),
    }
}

/// A version does not differ from itself.
pub proof fn law_no_diff_with_itself(a: StrategyVersion)
    ensures
        version_diff(a, a) == (VersionDiff {
            same_version: true,
            dsl_schema_version_changed: false,
            dsl_changed: false,
            dsl_original_changed: false,
            version_hash_changed: false,
            created_by_changed: false,
            parent_changed: false,
        }),
{
    law_equality_is_reflexive(a.dsl@);
}

/// Two versions differ the same way whichever comes first.
pub proof fn law_diff_is_symmetric(a: StrategyVersion, b: StrategyVersion)
    ensures
        version_diff(a, b) == version_diff(b, a),
{
    law_equality_is_symmetric(a.dsl@, b.dsl@);
}

/// The owning strategy, the model calls and the time have no part in a comparison.
pub proof fn law_diff_ignores_provenance(
    a: StrategyVersion,
    b: StrategyVersion,
    other: StrategyVersion,
)
    requires
        other == (StrategyVersion {
            strategy_id: other.strategy_id,
            creating_llm_call_ids: other.creating_llm_call_ids,
            created_at: other.created_at,
            ..b
        }),
    ensures
        version_diff(a, other) == version_diff(a, b),
{
}

} // verus!
