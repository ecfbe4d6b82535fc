//! The identity of the engine build that produced a run.
use crate::canonical::is_lower_hex;
use crate::text::chars_of;
use vstd::prelude::*;
use vstd::string::*;

verus! {

/// The identity of a backtest engine build: a SHA-256 digest in lowercase hex.
///
/// Runs with different fingerprints are not directly comparable.
#[derive(Clone, Debug, PartialEq, Eq)]
pub struct EngineFingerprint(String);

impl View for EngineFingerprint {
    type V = Seq<char>;

    closed spec fn view(&self) -> Seq<char> {
        self.0@
    }
}

/// Whether a text is a SHA-256 digest in lowercase hex.
pub open spec fn is_digest(hex: Seq<char>) -> bool {
    hex.len() == 64 && forall|i: int| 0 <= i < 64 ==> is_lower_hex(#[trigger] hex[i])
}

/// Whether a target triple leads with an architecture.
pub open spec fn names_architecture(target: Seq<char>) -> bool {
    target.len() > 0 && target[0] != '-'
}

/// What a build passes to the engine about itself: the digest over its inputs, and its
/// target triple. Whoever compiles the engine reads them from the build.
#[derive(Debug, PartialEq, Eq)]
pub struct BuildIdentity {
    fingerprint: String,
    target: &'static str,
}

impl BuildIdentity {
    #[verifier::type_invariant]
    spec fn inv(&self) -> bool {
        is_digest(self.fingerprint@) && names_architecture(self.target@)
    }

    /// The digest of the build.
    pub closed spec fn digest(&self) -> Seq<char> {
        self.fingerprint@
    }

    /// The target triple of the build.
    pub closed spec fn triple(&self) -> Seq<char> {
        self.target@
    }

    /// Takes what a build passes in; `None` where it is no digest or no target triple.
    pub fn new(fingerprint: &str, target: &'static str) -> (r: Option<BuildIdentity>)
        ensures
            r is Some <==> is_digest(fingerprint@) && names_architecture(target@),
            r matches Some(build) ==> build.digest() == fingerprint@ && build.triple() == target@,
    {
        let triple = chars_of(target);
        if triple.len() == 0 || triple[0] == '-' {
            return None;
        }
        let hex = chars_of(fingerprint);
        if hex.len() != 64 {
            return None;
        }
        for i in 0..hex.len()
            invariant
                hex@.len() == 64,
                hex@ == fingerprint@,
                forall|j: int| 0 <= j < i ==> is_lower_hex(#[trigger] hex@[j]),
        {
            let c = hex[i];
            if !('0' <= c && c <= '9' || 'a' <= c && c <= 'f') {
                assert(!is_lower_hex(hex@[i as int]));
                return None;
            }
        }
        Some(BuildIdentity { fingerprint: fingerprint.to_owned(), target })
    }
}

/// The warning about two builds that differ.
pub open spec fn mismatch_text(a: Seq<char>, b: Seq<char>) -> Seq<char> {
    "engine fingerprint mismatch: comparing runs from different engine builds ("@ + a + " vs "@ + b
        + "); results may not be directly comparable"@
}

impl EngineFingerprint {
    /// The fingerprint of this build, as the build passes it in.
    pub fn current(build: &BuildIdentity) -> (r: EngineFingerprint)
        ensures
            r@ == build.digest(),
            is_digest(r@),
    {
        proof {
            use_type_invariant(build);
        }
        EngineFingerprint(build.fingerprint.clone())
    }

    /// The fingerprint as its hex text.
    pub fn as_str(&self) -> (r: &str)
        ensures
            r@ == self@,
    {
        self.0.as_str()
    }

    /// The target triple that the engine is compiled for, as the build passes it in.
    pub fn target(build: &BuildIdentity) -> (r: &'static str)
        ensures
            r@ == build.triple(),
            names_architecture(r@),
    {
        proof {
            use_type_invariant(build);
        }
        build.target
    }

    /// The fingerprint that a stored run carries.
    pub fn from_stored(hex: &str) -> (r: EngineFingerprint)
        ensures
            r@ == hex@,
    {
        EngineFingerprint(hex.to_owned())
    }

    /// A warning where the two fingerprints differ, and only there.
    pub fn compare(&self, other: &EngineFingerprint) -> (r: Option<String>)
        ensures
            r is None <==> self@ == other@,
            r matches Some(text) ==> text@ == mismatch_text(self@, other@),
    {
        if self.0 == other.0 {
            None
        } else {
            let mut text =
                "engine fingerprint mismatch: comparing runs from different engine builds (".to_owned();
            text.append(self.0.as_str());
            text.append(" vs ");
            text.append(other.0.as_str());
            text.append("); results may not be directly comparable");
            Some(text)
        }
    }
}

} // verus!
