use vstd::prelude::*;

verus! {

/// Every failure the vault core can report.  The taxonomy keeps user input
/// mistakes, authentication failure, corruption and cryptographic limits
/// apart, so a host can choose retry policy and messaging per class.
#[derive(Clone, Copy, Debug, PartialEq, Eq, Structural)]
pub enum Error {
    /// A vault or secret name was empty.
    EmptyName,
    /// A password or secret value was empty.
    EmptyPassword,
    /// `insert` was asked to overwrite an existing secret name.
    AlreadyExists,
    /// The requested secret name is not present.
    NotFound,
    /// The supplied master password did not match the stored verifier.
    WrongPassword,
    /// The nonce counter would wrap; a key rotation is required first.
    NonceExhausted,
    /// Authenticated decryption failed: wrong key or corrupted ciphertext.
    DecryptionFailure,
    /// The persisted record could not be decoded.
    CorruptOrIncompatibleStore,
    /// The platform's secure random generator refused to produce bytes.
    RandomUnavailable,
    /// The encoded secret map outgrew what one sealed record may hold.
    StoreTooLarge,
}

impl Error {
    /// The description each failure carries.
    pub open spec fn spec_describe(self) -> Seq<char> {
        match self {
            Error::EmptyName => "a name is required"@,
            Error::EmptyPassword => "a password is required"@,
            Error::AlreadyExists => "that name is already in use"@,
            Error::NotFound => "no entry of that name found"@,
            Error::WrongPassword => "incorrect password"@,
            Error::NonceExhausted => "nonce counter exhausted; rotate the key"@,
            Error::DecryptionFailure => "decryption failed"@,
            Error::CorruptOrIncompatibleStore => "incompatible or corrupted store"@,
            Error::RandomUnavailable => "secure randomness unavailable"@,
            Error::StoreTooLarge => "the store is too large to seal"@,
        }
    }

    /// A short human-readable description of the failure.
    pub fn describe(&self) -> (m: &'static str)
        ensures
            m@ == self.spec_describe(),
    {
        match self {
            Error::EmptyName => "a name is required",
            Error::EmptyPassword => "a password is required",
            Error::AlreadyExists => "that name is already in use",
            Error::NotFound => "no entry of that name found",
            Error::WrongPassword => "incorrect password",
            Error::NonceExhausted => "nonce counter exhausted; rotate the key",
            Error::DecryptionFailure => "decryption failed",
            Error::CorruptOrIncompatibleStore => "incompatible or corrupted store",
            Error::RandomUnavailable => "secure randomness unavailable",
            Error::StoreTooLarge => "the store is too large to seal",
        }
    }
}

/// An authentication failure is reported apart from corruption: the
/// message for a wrong password differs from those for a corrupted store
/// and for a failed decryption, so a host cannot conflate them.
pub proof fn lemma_error_classes_distinct()
    ensures
        Error::WrongPassword.spec_describe() != Error::CorruptOrIncompatibleStore.spec_describe(),
        Error::WrongPassword.spec_describe() != Error::DecryptionFailure.spec_describe(),
{
    reveal_strlit("incorrect password");
    reveal_strlit("incompatible or corrupted store");
    reveal_strlit("decryption failed");
    assert("incorrect password"@.len() == 18);
    assert("incompatible or corrupted store"@.len() == 31);
    assert("decryption failed"@.len() == 17);
}

/// Outcome of refreshing a vault from persisted bytes.
#[derive(Clone, Copy, Debug, PartialEq, Eq, Structural)]
pub enum RetrieveResult {
    Success,
    Failure,
}

} // verus!
