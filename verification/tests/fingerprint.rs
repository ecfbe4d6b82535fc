//! Engine fingerprints.
use pulse::domain::fingerprint::{BuildIdentity, EngineFingerprint};

const DIGEST: &str = "9f86d081884c7d659a2feaa0c55ad015a3bf4f1b2b0b822cd15d6c15b0f00a08";

fn build() -> BuildIdentity {
    BuildIdentity::new(DIGEST, "x86_64-unknown-linux-gnu").expect("a digest and a triple")
}

#[test]
fn current_is_non_empty() {
    let fp = EngineFingerprint::current(&build());
    assert!(
        !fp.as_str().is_empty(),
        "engine fingerprint must be a non-empty hex digest"
    );
}

#[test]
fn current_is_sha256_hex() {
    let fp = EngineFingerprint::current(&build());
    let hex = fp.as_str();
    assert_eq!(hex.len(), 64, "sha2-256 hex digest is 64 chars");
    assert!(
        hex.chars()
            .all(|c| c.is_ascii_hexdigit() && !c.is_ascii_uppercase()),
        "fingerprint must be lowercase hex, got {hex:?}"
    );
}

#[test]
fn target_embeds_arch() {
    let triple = EngineFingerprint::target(&build());
    assert!(!triple.is_empty(), "target triple must be non-empty");
    let arch = triple.split('-').next().unwrap_or("");
    assert!(
        !arch.is_empty(),
        "target triple must lead with an arch component, got {triple:?}"
    );
}

#[test]
fn compare_none_on_equal() {
    let a = EngineFingerprint::current(&build());
    let b = EngineFingerprint::current(&build());
    assert_eq!(a, b, "two current() values are byte-equal within a build");
    assert!(
        a.compare(&b).is_none(),
        "compare() of equal fingerprints must be None"
    );
}

#[test]
fn compare_some_on_differ() {
    let current = EngineFingerprint::current(&build());
    let other = EngineFingerprint::from_stored(&"0".repeat(64));
    assert_ne!(current, other);
    let warning = current
        .compare(&other)
        .expect("compare() of differing fingerprints must be Some");
    assert!(
        !warning.is_empty(),
        "the cross-fingerprint warning must be non-empty"
    );
    assert_eq!(
        EngineFingerprint::from_stored("aa")
            .compare(&EngineFingerprint::from_stored("bb"))
            .unwrap(),
        "engine fingerprint mismatch: comparing runs from different engine builds (aa vs bb); \
         results may not be directly comparable"
    );
}

#[test]
fn current_is_stable_within_build() {
    let first = EngineFingerprint::current(&build());
    let second = EngineFingerprint::current(&build());
    assert_eq!(
        first, second,
        "current() must be stable within a single build"
    );
}

#[test]
fn a_build_passes_a_digest_and_a_triple() {
    assert_eq!(EngineFingerprint::current(&build()).as_str(), DIGEST);
    assert_eq!(EngineFingerprint::target(&build()), "x86_64-unknown-linux-gnu");
    let other = BuildIdentity::new(&"0".repeat(64), "aarch64-apple-darwin").expect("another build");
    assert_ne!(
        EngineFingerprint::current(&build()),
        EngineFingerprint::current(&other)
    );
    assert_ne!(
        EngineFingerprint::target(&build()),
        EngineFingerprint::target(&other)
    );
    assert!(BuildIdentity::new("", "x86_64").is_none());
    assert!(BuildIdentity::new(&"0".repeat(63), "x86_64").is_none());
    assert!(BuildIdentity::new(&"A".repeat(64), "x86_64").is_none());
    assert!(BuildIdentity::new(&"g".repeat(64), "x86_64").is_none());
    assert!(BuildIdentity::new(&"0".repeat(64), "").is_none());
    assert!(BuildIdentity::new(&"0".repeat(64), "-linux").is_none());
}
