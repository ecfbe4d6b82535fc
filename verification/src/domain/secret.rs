//! Where a credential came from.
use vstd::prelude::*;

verus! {

/// The source that supplied a credential: a label, never the credential.
#[derive(Clone, Copy, Debug, PartialEq, Eq, Structural)]
pub enum CredentialSource {
    /// The environment.
    Env,
    /// The configuration directory.
    ConfigDir,
    /// A `.env` file in the working directory.
    CwdDotenv,
    /// The application data directory.
    AppDataDir,
    /// The keychain.
    Keychain,
}

} // verus!
