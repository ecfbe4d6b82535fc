//! Coaching sessions: what a turn proposes, what became of it, and how a turn fails.
use crate::domain::backtest::result::BacktestResult;
use crate::domain::backtest::run::{BacktestInputs, BacktestRunId};
use crate::domain::backtest::stats::SummaryStats;
use crate::domain::backtest::walk_forward::{WalkForwardRunDraft, WalkForwardRunId};
use crate::decimal::Decimal;
use crate::domain::dsl::mutate::{mutation_error_text, Mutation, MutationError};
use crate::domain::dsl::strategy::StrategyDsl;
use crate::domain::llm_call::LlmCallId;
use crate::domain::strategy::VersionId;
use crate::text::{
    concat2, concat3, digits, is_blank, law_trimming_twice_is_trimming_once, lemma_blank_trimmed,
    blank, trim, trimmed, u64_text,
};
use vstd::prelude::*;
use vstd::string::*;

verus! {

/// Identifier of a coaching session.
#[derive(Clone, Debug, PartialEq, Eq, Hash, PartialOrd, Ord)]
pub struct CoachingSessionId(String);

impl View for CoachingSessionId {
    type V = Seq<char>;

    closed spec fn view(&self) -> Seq<char> {
        self.0@
    }
}

impl CoachingSessionId {
    /// Wraps an id.
    pub fn new(id: &str) -> (r: CoachingSessionId)
        ensures
            r@ == id@,
    {
        CoachingSessionId(id.to_owned())
    }

    /// The id.
    pub fn as_str(&self) -> (r: &str)
        ensures
            r@ == self@,
    {
        self.0.as_str()
    }
}

/// The state of a proposal, without what it carries.
#[derive(Clone, Copy, Debug, PartialEq, Eq, Structural)]
pub enum DispositionKind {
    /// Nobody has acted on it yet.
    Proposed,
    /// Accepted.
    Accepted,
    /// Rejected.
    Rejected,
    /// Edited, and still open.
    Modified,
}

/// The text of a state.
pub open spec fn disposition_text(kind: DispositionKind) -> Seq<char> {
    match kind {
        DispositionKind::Proposed => "proposed"@,
        DispositionKind::Accepted => "accepted"@,
        DispositionKind::Rejected => "rejected"@,
        DispositionKind::Modified => "modified"@,
    }
}

impl DispositionKind {
    /// The text of the state.
    pub fn to_string(&self) -> (t: String)
        ensures
            t@ == disposition_text(*self),
    {
        match self {
            DispositionKind::Proposed => "proposed".to_owned(),
            DispositionKind::Accepted => "accepted".to_owned(),
            DispositionKind::Rejected => "rejected".to_owned(),
            DispositionKind::Modified => "modified".to_owned(),
        }
    }
}

/// What can go wrong in coaching itself.
#[derive(Clone, Copy, Debug, PartialEq, Eq, Structural)]
pub enum CoachingError {
    /// A hypothesis without text.
    EmptyHypothesis,
    /// A request fingerprint without text.
    EmptyRequestFingerprint,
    /// A move that the states do not allow.
    IllegalTransition {
        /// The state before.
        from: DispositionKind,
        /// The state asked for.
        to: DispositionKind,
    },
}

/// The text of a coaching error.
pub open spec fn coaching_error_text(e: CoachingError) -> Seq<char> {
    match e {
        CoachingError::EmptyHypothesis =>
            "a proposal's hypothesis must not be empty or whitespace-only"@,
        CoachingError::EmptyRequestFingerprint =>
            "a coach request fingerprint must not be empty or whitespace-only"@,
        CoachingError::IllegalTransition { from, to } => "illegal disposition transition "@
            + disposition_text(from) + " -> "@ + disposition_text(to),
    }
}

impl CoachingError {
    /// The text of the error.
    pub fn to_string(&self) -> (t: String)
        ensures
            t@ == coaching_error_text(*self),
    {
        match self {
            CoachingError::EmptyHypothesis =>
                "a proposal's hypothesis must not be empty or whitespace-only".to_owned(),
            CoachingError::EmptyRequestFingerprint =>
                "a coach request fingerprint must not be empty or whitespace-only".to_owned(),
            CoachingError::IllegalTransition { from, to } => {
                let mut t = concat3(
                    "illegal disposition transition ",
                    from.to_string().as_str(),
                    " -> ",
                );
                t.append(to.to_string().as_str());
                t
            },
        }
    }
}

/// Whether a text is trimmed and not empty.
pub open spec fn is_stated(s: Seq<char>) -> bool {
    s.len() > 0 && trimmed(s) == s
}

proof fn lemma_stated(s: Seq<char>)
    ensures
        !is_blank(s) ==> is_stated(trimmed(s)),
{
    lemma_blank_trimmed(s);
    law_trimming_twice_is_trimming_once(s);
}

/// What the coach expects of a proposal: a trimmed text, never empty.
#[derive(Debug, PartialEq, Eq)]
pub struct Hypothesis(String);

impl View for Hypothesis {
    type V = Seq<char>;

    closed spec fn view(&self) -> Seq<char> {
        self.0@
    }
}

impl Clone for Hypothesis {
    fn clone(&self) -> (r: Hypothesis)
        ensures
            r == *self,
    {
        proof {
            use_type_invariant(self);
        }
        Hypothesis(self.0.clone())
    }
}

impl Hypothesis {
    #[verifier::type_invariant]
    spec fn inv(&self) -> bool {
        is_stated(self.0@)
    }

    /// Trims a text; a blank one is refused.
    pub fn new(text: &str) -> (r: Result<Hypothesis, CoachingError>)
        ensures
            r is Ok <==> !is_blank(text@),
            r matches Ok(h) ==> h@ == trimmed(text@),
            r matches Err(e) ==> e == CoachingError::EmptyHypothesis,
    {
        proof {
            lemma_stated(text@);
        }
        if blank(text) {
            return Err(CoachingError::EmptyHypothesis);
        }
        Ok(Hypothesis(trim(text)))
    }

    /// The text.
    pub fn as_str(&self) -> (r: &str)
        ensures
            r@ == self@,
            is_stated(r@),
    {
        proof {
            use_type_invariant(self);
        }
        self.0.as_str()
    }
}

/// An opaque digest of a coach request: a trimmed text, never empty.
///
/// It tells a repeated request from a different one under the same session id.
#[derive(Debug, PartialEq, Eq, Hash, PartialOrd, Ord)]
pub struct CoachRequestFingerprint(String);

impl View for CoachRequestFingerprint {
    type V = Seq<char>;

    closed spec fn view(&self) -> Seq<char> {
        self.0@
    }
}

impl Clone for CoachRequestFingerprint {
    fn clone(&self) -> (r: CoachRequestFingerprint)
        ensures
            r == *self,
    {
        proof {
            use_type_invariant(self);
        }
        CoachRequestFingerprint(self.0.clone())
    }
}

impl CoachRequestFingerprint {
    #[verifier::type_invariant]
    spec fn inv(&self) -> bool {
        is_stated(self.0@)
    }

    /// Trims a digest; a blank one is refused.
    pub fn new(digest: &str) -> (r: Result<CoachRequestFingerprint, CoachingError>)
        ensures
            r is Ok <==> !is_blank(digest@),
            r matches Ok(f) ==> f@ == trimmed(digest@),
            r matches Err(e) ==> e == CoachingError::EmptyRequestFingerprint,
    {
        proof {
            lemma_stated(digest@);
        }
        if blank(digest) {
            return Err(CoachingError::EmptyRequestFingerprint);
        }
        Ok(CoachRequestFingerprint(trim(digest)))
    }

    /// The digest.
    pub fn as_str(&self) -> (r: &str)
        ensures
            r@ == self@,
            is_stated(r@),
    {
        proof {
            use_type_invariant(self);
        }
        self.0.as_str()
    }
}

// ---------------------------------------------------------------------------
// Proposals.
// ---------------------------------------------------------------------------

/// What has become of a proposal. Only an accepted one names a child and its run.
#[derive(Clone, Debug, PartialEq, Eq)]
pub enum Disposition {
    /// Nobody has acted on it yet.
    Proposed,
    /// Accepted.
    Accepted {
        /// The version that came of it.
        child_version_id: VersionId,
        /// The run of that version.
        accepted_run_id: BacktestRunId,
    },
    /// Rejected.
    Rejected,
    /// Edited, and still open.
    Modified,
}

/// The state of a disposition.
pub open spec fn kind_of(d: Disposition) -> DispositionKind {
    match d {
        Disposition::Proposed => DispositionKind::Proposed,
        Disposition::Accepted { .. } => DispositionKind::Accepted,
        Disposition::Rejected => DispositionKind::Rejected,
        Disposition::Modified => DispositionKind::Modified,
    }
}

impl Disposition {
    /// The state, without what it carries.
    pub fn kind(&self) -> (r: DispositionKind)
        ensures
            r == kind_of(*self),
            self is Proposed <==> r == DispositionKind::Proposed,
            self is Accepted <==> r == DispositionKind::Accepted,
            self is Rejected <==> r == DispositionKind::Rejected,
            self is Modified <==> r == DispositionKind::Modified,
    {
        match self {
            Disposition::Proposed => DispositionKind::Proposed,
            Disposition::Accepted { .. } => DispositionKind::Accepted,
            Disposition::Rejected => DispositionKind::Rejected,
            Disposition::Modified => DispositionKind::Modified,
        }
    }

    /// The version that came of an accepted proposal.
    pub fn child_version_id(&self) -> (r: Option<&VersionId>)
        ensures
            r is Some <==> kind_of(*self) == DispositionKind::Accepted,
            r is Some <==> self is Accepted,
            r matches Some(id) ==> *id == self->child_version_id,
    {
        match self {
            Disposition::Accepted { child_version_id, .. } => Some(child_version_id),
            Disposition::Proposed | Disposition::Rejected | Disposition::Modified => None,
        }
    }

    /// The run of the version that came of an accepted proposal.
    pub fn accepted_run_id(&self) -> (r: Option<&BacktestRunId>)
        ensures
            r is Some <==> kind_of(*self) == DispositionKind::Accepted,
            r is Some <==> self is Accepted,
            r matches Some(id) ==> *id == self->accepted_run_id,
    {
        match self {
            Disposition::Accepted { accepted_run_id, .. } => Some(accepted_run_id),
            Disposition::Proposed | Disposition::Rejected | Disposition::Modified => None,
        }
    }
}

/// Where an accept stopped.
#[derive(Clone, Copy, Debug, PartialEq, Eq, Structural)]
pub enum AcceptFailureStage {
    /// Applying the mutation.
    Apply,
    /// Loading the inputs of the parent run.
    LoadInputs,
    /// Loading the candle snapshots.
    LoadSnapshots,
    /// Compiling the child.
    Compile,
    /// Running the backtest.
    Backtest,
    /// Walking the child forward under the scheme that certified its parent.
    WalkForward,
    /// The final write.
    Persist,
}

/// The tag of a stage.
pub open spec fn stage_tag(stage: AcceptFailureStage) -> Seq<char> {
    match stage {
        AcceptFailureStage::Apply => "apply"@,
        AcceptFailureStage::LoadInputs => "load_inputs"@,
        AcceptFailureStage::LoadSnapshots => "load_snapshots"@,
        AcceptFailureStage::Compile => "compile"@,
        AcceptFailureStage::Backtest => "backtest"@,
        AcceptFailureStage::WalkForward => "walk_forward"@,
        AcceptFailureStage::Persist => "persist"@,
    }
}

impl AcceptFailureStage {
    /// The tag that is stored.
    pub fn tag(self) -> (r: &'static str)
        ensures
            r@ == stage_tag(self),
    {
        match self {
            AcceptFailureStage::Apply => "apply",
            AcceptFailureStage::LoadInputs => "load_inputs",
            AcceptFailureStage::LoadSnapshots => "load_snapshots",
            AcceptFailureStage::Compile => "compile",
            AcceptFailureStage::Backtest => "backtest",
            AcceptFailureStage::WalkForward => "walk_forward",
            AcceptFailureStage::Persist => "persist",
        }
    }

    /// The text of the stage: its tag.
    pub fn to_string(&self) -> (t: String)
        ensures
            t@ == stage_tag(*self),
    {
        self.tag().to_owned()
    }
}

/// Why an accept failed.
#[derive(Debug, PartialEq, Eq)]
pub struct CoachAcceptFailure {
    /// Where it stopped.
    pub stage: AcceptFailureStage,
    /// What went wrong.
    pub message: String,
    /// What the failure is about, where it is about one thing.
    pub subject: Option<String>,
}

impl Clone for CoachAcceptFailure {
    fn clone(&self) -> (r: CoachAcceptFailure)
        ensures
            r == *self,
    {
        CoachAcceptFailure {
            stage: self.stage,
            message: self.message.clone(),
            subject: match &self.subject {
                Some(s) => Some(s.clone()),
                None => None,
            },
        }
    }
}

impl CoachAcceptFailure {
    /// The text of the failure.
    pub fn to_string(&self) -> (t: String)
        ensures
            t@ == "the accept failed at the `"@ + stage_tag(self.stage) + "` stage: "@
                + self.message@,
    {
        let mut t = concat3("the accept failed at the `", self.stage.tag(), "` stage: ");
        t.append(self.message.as_str());
        t
    }
}

/// The one proposal of a turn.
#[derive(Clone, Debug, PartialEq, Eq)]
pub struct Proposal {
    /// What is to change.
    pub mutation: Mutation,
    /// What is expected of it.
    pub hypothesis: Hypothesis,
    /// What has become of it.
    pub disposition: Disposition,
    /// Why the latest accept failed, if it did.
    pub accept_failure: Option<CoachAcceptFailure>,
}

/// Whether a proposal may move from one state to another: it must still be open, and
/// nothing returns to the initial state.
pub open spec fn may_move(from: DispositionKind, to: DispositionKind) -> bool {
    (from == DispositionKind::Proposed || from == DispositionKind::Modified) && to
        != DispositionKind::Proposed
}

impl Proposal {
    /// Moves the proposal to another disposition. Nothing else about it changes.
    pub fn transition(&self, next: Disposition) -> (r: Result<Proposal, CoachingError>)
        ensures
            r is Ok <==> may_move(kind_of(self.disposition), kind_of(next)),
            r is Ok <==> (self.disposition is Proposed || self.disposition is Modified) && !(
            next is Proposed),
            r matches Ok(p) ==> p.disposition == next && p.mutation == self.mutation
                && p.hypothesis == self.hypothesis && p.accept_failure == self.accept_failure,
            r matches Err(e) ==> e == (CoachingError::IllegalTransition {
                from: kind_of(self.disposition),
                to: kind_of(next),
            }),
    {
        let from = self.disposition.kind();
        let to = next.kind();
        let legal = match (from, to) {
            (_, DispositionKind::Proposed) => false,
            (DispositionKind::Accepted, _) => false,
            (DispositionKind::Rejected, _) => false,
            (DispositionKind::Proposed, _) => true,
            (DispositionKind::Modified, _) => true,
        };
        if !legal {
            return Err(CoachingError::IllegalTransition { from, to });
        }
        Ok(
            Proposal {
                mutation: self.mutation.clone(),
                hypothesis: self.hypothesis.clone(),
                disposition: next,
                accept_failure: match &self.accept_failure {
                    Some(f) => Some(f.clone()),
                    None => None,
                },
            },
        )
    }
}

/// Whether a state can be reached from another by any number of moves.
pub open spec fn reachable(from: DispositionKind, to: DispositionKind, moves: nat) -> bool
    decreases moves,
{
    if moves == 0 {
        from == to
    } else {
        exists|mid: DispositionKind| #[trigger]
            may_move(from, mid) && reachable(mid, to, (moves - 1) as nat)
    }
}

/// A settled proposal stays settled: no number of moves leads on from an accepted or a
/// rejected one.
pub proof fn law_settled_proposals_stay_settled(
    from: DispositionKind,
    to: DispositionKind,
    moves: nat,
)
    requires
        from == DispositionKind::Accepted || from == DispositionKind::Rejected,
        reachable(from, to, moves),
    ensures
        to == from,
        moves == 0,
{
}

/// Nothing returns to the initial state.
pub proof fn law_nothing_becomes_proposed_again(from: DispositionKind, moves: nat)
    requires
        moves > 0,
    ensures
        !reachable(from, DispositionKind::Proposed, moves),
    decreases moves,
{
    if reachable(from, DispositionKind::Proposed, moves) {
        let mid = choose|mid: DispositionKind| #[trigger]
            may_move(from, mid) && reachable(
                mid,
                DispositionKind::Proposed,
                (moves - 1) as nat,
            );
        if moves > 1 {
            law_nothing_becomes_proposed_again(mid, (moves - 1) as nat);
        }
    }
}

/// An open proposal can be accepted and can be rejected, edited before or not.
pub proof fn law_open_proposals_can_be_settled(from: DispositionKind, to: DispositionKind)
    requires
        from == DispositionKind::Proposed || from == DispositionKind::Modified,
        to == DispositionKind::Accepted || to == DispositionKind::Rejected,
    ensures
        may_move(from, to),
        may_move(from, DispositionKind::Modified),
{
}

// ---------------------------------------------------------------------------
// Failures and outcomes.
// ---------------------------------------------------------------------------

/// Why a turn produced no proposal.
#[derive(Clone, Debug, PartialEq, Eq)]
pub enum CoachFailure {
    /// The model made no call.
    ZeroCalls,
    /// The model made several calls.
    SeveralCalls {
        /// How many in all.
        count: u32,
        /// How many of them proposed a mutation.
        propose_mutation_count: u32,
    },
    /// A call could not be understood.
    MalformedArguments {
        /// What was wrong.
        detail: String,
    },
    /// The mutation does not apply to the document.
    InapplicableMutation {
        /// What was proposed.
        mutation: Mutation,
        /// Why it does not apply.
        error: MutationError,
    },
    /// The provider did not answer in time.
    ProviderTimeout {
        /// How long the turn waited.
        elapsed_ms: u64,
    },
    /// The context does not fit; no call was made.
    ContextOverflow {
        /// What was measured.
        detail: String,
    },
    /// The call failed on the way.
    TransportFailure {
        /// What the provider said.
        detail: String,
    },
    /// The coach advises a structural change, which no mutation expresses.
    InapplicableAdvice {
        /// What it would change.
        intent: String,
        /// What led it there.
        evidence: String,
    },
    /// The inputs of the parent run are gone.
    MissingBacktestInputs {
        /// Which input.
        detail: String,
    },
    /// The turn was claimed and never finished.
    Interrupted {
        /// What is known of it.
        detail: String,
    },
}

/// The text of a failure.
pub open spec fn coach_failure_text(f: CoachFailure) -> Seq<char> {
    match f {
        CoachFailure::ZeroCalls => "the coach turn ended with no propose_mutation call"@,
        CoachFailure::SeveralCalls { count, propose_mutation_count } => "the coach turn made "@
            + digits(count as nat) + " tool calls, "@ + digits(propose_mutation_count as nat)
            + " of them propose_mutation; exactly one propose_mutation call ends a turn"@,
        CoachFailure::MalformedArguments { detail } => "the coach's tool call was malformed: "@
            + detail@,
        CoachFailure::InapplicableMutation { error, .. } =>
            "the proposed mutation does not apply: "@ + mutation_error_text(error@),
        CoachFailure::ProviderTimeout { elapsed_ms } => "the provider did not answer within "@
            + digits(elapsed_ms as nat) + " ms"@,
        CoachFailure::ContextOverflow { detail } =>
            "the coach context does not fit the model's window: "@ + detail@,
        CoachFailure::TransportFailure { detail } => "the coach's provider call failed: "@
            + detail@,
        CoachFailure::InapplicableAdvice { intent, evidence } =>
            "the coach answered with structural advice this release cannot apply: "@ + intent@
            + " (evidence: "@ + evidence@ + ")"@,
        CoachFailure::MissingBacktestInputs { detail } =>
            "the parent run's backtest inputs are not available: "@ + detail@,
        CoachFailure::Interrupted { detail } => "the coach turn was claimed and never finished: "@
            + detail@,
    }
}

impl CoachFailure {
    /// The text of the failure.
    pub fn to_string(&self) -> (t: String)
        ensures
            t@ == coach_failure_text(*self),
    {
        match self {
            CoachFailure::ZeroCalls =>
                "the coach turn ended with no propose_mutation call".to_owned(),
            CoachFailure::SeveralCalls { count, propose_mutation_count } => {
                let mut t = concat3(
                    "the coach turn made ",
                    u64_text(*count as u64).as_str(),
                    " tool calls, ",
                );
                t.append(u64_text(*propose_mutation_count as u64).as_str());
                t.append(
                    " of them propose_mutation; exactly one propose_mutation call ends a turn",
                );
                t
            },
            CoachFailure::MalformedArguments { detail } => concat2(
                "the coach's tool call was malformed: ",
                detail.as_str(),
            ),
            CoachFailure::InapplicableMutation { error, .. } => concat2(
                "the proposed mutation does not apply: ",
                error.to_string().as_str(),
            ),
            CoachFailure::ProviderTimeout { elapsed_ms } => concat3(
                "the provider did not answer within ",
                u64_text(*elapsed_ms).as_str(),
                " ms",
            ),
            CoachFailure::ContextOverflow { detail } => concat2(
                "the coach context does not fit the model's window: ",
                detail.as_str(),
            ),
            CoachFailure::TransportFailure { detail } => concat2(
                "the coach's provider call failed: ",
                detail.as_str(),
            ),
            CoachFailure::InapplicableAdvice { intent, evidence } => {
                let mut t = concat3(
                    "the coach answered with structural advice this release cannot apply: ",
                    intent.as_str(),
                    " (evidence: ",
                );
                t.append(evidence.as_str());
                t.append(")");
                t
            },
            CoachFailure::MissingBacktestInputs { detail } => concat2(
                "the parent run's backtest inputs are not available: ",
                detail.as_str(),
            ),
            CoachFailure::Interrupted { detail } => concat2(
                "the coach turn was claimed and never finished: ",
                detail.as_str(),
            ),
        }
    }
}

/// What a turn came to: a proposal or a failure, or nothing yet.
#[derive(Clone, Debug, PartialEq, Eq)]
pub enum SessionOutcome {
    /// Claimed and not finished.
    Pending,
    /// The turn produced a proposal.
    Proposed {
        /// The proposal.
        proposal: Proposal,
    },
    /// The turn failed.
    Failed {
        /// Why.
        failure: CoachFailure,
    },
}

/// One recorded turn.
#[derive(Clone, Debug, PartialEq, Eq)]
pub struct CoachingSession {
    /// The id.
    pub id: CoachingSessionId,
    /// The run that the coach read.
    pub backtest_run_id: BacktestRunId,
    /// The version that a proposal would change.
    pub strategy_version_id: VersionId,
    /// When the turn was recorded, RFC 3339 text.
    pub created_at: String,
    /// The ledger entry of its call, where one is known.
    pub llm_call_id: Option<LlmCallId>,
    /// What it came to.
    pub outcome: SessionOutcome,
}

/// What is reserved for a turn before its call.
#[derive(Clone, Debug, PartialEq, Eq)]
pub struct CoachSessionClaim {
    /// The session.
    pub session_id: CoachingSessionId,
    /// The run that the turn is about.
    pub backtest_run_id: BacktestRunId,
    /// The version that a proposal would change.
    pub strategy_version_id: VersionId,
    /// The digest of the request.
    pub request_fingerprint: CoachRequestFingerprint,
    /// When the turn began, RFC 3339 text.
    pub created_at: String,
}

/// What a claim found.
#[derive(Clone, Debug, PartialEq, Eq)]
pub enum CoachSessionClaimResult {
    /// The claim is this caller's.
    Claimed,
    /// The same request is finished.
    Existing(CoachingSession),
    /// The same request is not finished.
    ExistingPending(CoachingSession),
}

/// What finishes a claimed turn.
#[derive(Clone, Debug, PartialEq, Eq)]
pub struct InitialCoachOutcome {
    /// The ledger entry of its call, where one is known.
    pub llm_call_id: Option<LlmCallId>,
    /// What it came to.
    pub outcome: SessionOutcome,
}

/// A computed run that is not persisted yet.
#[derive(Clone, Debug, PartialEq)]
pub struct PreparedBacktest {
    /// What it consumed.
    pub inputs: BacktestInputs,
    /// Its result.
    pub result: BacktestResult,
    /// Its summary.
    pub summary: SummaryStats,
    /// The equity that it started from.
    pub starting_equity: Decimal,
}

/// What the final write of an accept needs. It carries no identity: ids and times are
/// minted by the write.
#[derive(Debug)]
pub struct PreparedCoachAcceptance {
    /// The session whose proposal is accepted.
    pub session_id: CoachingSessionId,
    /// The mutation that the child came of; the write refuses another one.
    pub expected_mutation: Mutation,
    /// The child.
    pub child_dsl: StrategyDsl,
    /// The run of the child.
    pub prepared_run: PreparedBacktest,
    /// The walk-forward run that certifies the child, where its parent was certified.
    pub walk_forward: Option<WalkForwardRunDraft>,
}

/// What an accept produced.
#[derive(Clone, Debug, PartialEq, Eq)]
pub struct AcceptedCoachOutcome {
    /// The child.
    pub child_version_id: VersionId,
    /// The run of the child.
    pub accepted_run_id: BacktestRunId,
    /// The walk-forward run that certifies the child, if there is one.
    pub walk_forward_run_id: Option<WalkForwardRunId>,
}

} // verus!
