use vstd::prelude::*;

use crate::codec::{encode_map, zero_bytes};
use crate::encrypted_password::EncryptedPasswords;
use crate::rng::random_bytes;

pub use crate::errors::Error;

verus! {

/// Length in bytes of the persisted random salt.
pub const SALT_LEN: usize = 128;

/// Length in bytes of the random verifier identifier.
pub const VERIFIER_ID_LEN: usize = 128;

/// Length in bytes of a derived credential and of the symmetric key.
pub const CREDENTIAL_LEN: usize = 32;

/// Iteration count for real vaults: deliberately slow, to resist offline
/// brute force.
pub const DEFAULT_ITERATIONS: u32 = 600000;

/// Iteration count for freshly constructed, never-persisted components.
pub const PENDING_ITERATIONS: u32 = 100;

/// The UTF-8 bytes of a password, as key-derivation input.
pub open spec fn password_bytes(s: Seq<char>) -> Seq<u8> {
    vstd::utf8::encode_utf8(s)
}

/// The output of PBKDF2-HMAC-SHA512 for the given iteration count, salt,
/// password and output length.  The algorithm is a pure function of these
/// inputs; its value is only named here, and the trusted wrappers below
/// relate it to ring's calls.
pub uninterp spec fn pbkdf2_hmac_sha512(
    iterations: u32,
    salt: Seq<u8>,
    password: Seq<u8>,
    out_len: nat,
) -> Seq<u8>;

/// Relies on ring's `pbkdf2::derive` with `PBKDF2_HMAC_SHA512`: fills the
/// output buffer with the derivation, a deterministic function of the
/// iteration count, salt, secret and output length.  Its internal error
/// paths need inputs beyond what fits in memory (the digest's input limit)
/// or an output of more than 2^32 blocks, which the fixed output length
/// rules out.
#[verifier::external_body]
fn pbkdf2_derive(iterations: u32, salt: &[u8], password: &[u8], out: &mut Vec<u8>)
    requires
        iterations >= 1,
        old(out)@.len() == CREDENTIAL_LEN,
    ensures
        final(out)@ == pbkdf2_hmac_sha512(iterations, salt@, password@, old(out)@.len()),
        final(out)@.len() == old(out)@.len(),
{
    let n = core::num::NonZeroU32::new(iterations).unwrap();
    ring::pbkdf2::derive(ring::pbkdf2::PBKDF2_HMAC_SHA512, n, salt, password, out.as_mut_slice());
}

/// Relies on ring's `pbkdf2::verify` with `PBKDF2_HMAC_SHA512`: re-derives
/// a value of the stored length from the candidate secret and compares in
/// constant time, succeeding exactly when they match.
#[verifier::external_body]
fn pbkdf2_verify(iterations: u32, salt: &[u8], password: &[u8], previously_derived: &[u8]) -> (r:
    bool)
    requires
        iterations >= 1,
        previously_derived@.len() == CREDENTIAL_LEN,
    ensures
        r == (previously_derived@ == pbkdf2_hmac_sha512(
            iterations,
            salt@,
            password@,
            previously_derived@.len(),
        )),
{
    let n = core::num::NonZeroU32::new(iterations).unwrap();
    ring::pbkdf2::verify(ring::pbkdf2::PBKDF2_HMAC_SHA512, n, salt, password, previously_derived)
        .is_ok()
}

/// The master-password material of one vault: the iteration count, the
/// persisted salt, the persisted verifier pair (random identifier and the
/// credential derived over salt-and-identifier), the transient symmetric
/// key (never persisted), and the sealed secret-map envelope.
pub struct Pbkdf2Component {
    pub pbkdf2_iterations: u32,
    pub db_salt_component: Vec<u8>,
    pub master_password: (Vec<u8>, Vec<u8>),
    pub derived_key: Vec<u8>,
    pub encrypted_passwords: EncryptedPasswords,
}

impl Pbkdf2Component {
    /// Shapes that every component holds, persisted or live.
    pub open spec fn wf(self) -> bool {
        &&& self.pbkdf2_iterations >= 1
        &&& self.db_salt_component@.len() == SALT_LEN
        &&& self.master_password.0@.len() == VERIFIER_ID_LEN
        &&& self.master_password.1@.len() == CREDENTIAL_LEN
        &&& self.encrypted_passwords.wf()
    }

    /// The credential that `password` yields against this component's salt
    /// and verifier identifier.
    pub open spec fn spec_credential_for(self, password: Seq<char>) -> Seq<u8> {
        pbkdf2_hmac_sha512(
            self.pbkdf2_iterations,
            self.db_salt_component@ + self.master_password.0@,
            password_bytes(password),
            CREDENTIAL_LEN as nat,
        )
    }

    /// The stored verifier accepts `password`.
    pub open spec fn verifies(self, password: Seq<char>) -> bool {
        self.master_password.1@ == self.spec_credential_for(password)
    }

    /// The symmetric key that `password` yields against this component's
    /// salt alone; independent of the verifier, so a stolen verifier does
    /// not give the key.
    pub open spec fn spec_key_for(self, password: Seq<char>) -> Seq<u8> {
        pbkdf2_hmac_sha512(
            self.pbkdf2_iterations,
            self.db_salt_component@,
            password_bytes(password),
            CREDENTIAL_LEN as nat,
        )
    }

    /// The live key field holds exactly the key for `password`.
    pub open spec fn key_derived_for(self, password: Seq<char>) -> bool {
        self.derived_key@ == self.spec_key_for(password)
    }

    /// Everything that reaches the persisted record: all fields but the
    /// transient derived key.
    pub open spec fn persisted_eq(self, other: Pbkdf2Component) -> bool {
        &&& self.pbkdf2_iterations == other.pbkdf2_iterations
        &&& self.db_salt_component@ == other.db_salt_component@
        &&& self.master_password.0@ == other.master_password.0@
        &&& self.master_password.1@ == other.master_password.1@
        &&& self.encrypted_passwords.aad@ == other.encrypted_passwords.aad@
        &&& self.encrypted_passwords.nonce_sequence.nonce_bytes@
            == other.encrypted_passwords.nonce_sequence.nonce_bytes@
        &&& self.encrypted_passwords.nonce_sequence.index
            == other.encrypted_passwords.nonce_sequence.index
        &&& self.encrypted_passwords.index == other.encrypted_passwords.index
        &&& self.encrypted_passwords.data@ == other.encrypted_passwords.data@
    }

    /// The key-derivation salt for a verifier identifier: the persisted
    /// salt followed by the identifier.
    pub fn salt(&self, username: &[u8]) -> (r: Vec<u8>)
        ensures
            r@ == self.db_salt_component@ + username@,
    {
        let mut salt: Vec<u8> = Vec::new();
        crate::codec::append_bytes(&mut salt, self.db_salt_component.as_slice());
        crate::codec::append_bytes(&mut salt, username);
        proof {
            assert(salt@ =~= self.db_salt_component@ + username@);
        }
        salt
    }

    /// Installs a fresh verifier for `password`: a new random identifier
    /// and the credential derived over salt-and-identifier.  Runs once, at
    /// vault creation; everything else is left untouched.
    fn create_password(&mut self, password: &str) -> (r: Result<(), Error>)
        requires
            old(self).wf(),
        ensures
            r is Ok ==> {
                &&& final(self).wf()
                &&& final(self).verifies(password@)
                &&& final(self).pbkdf2_iterations == old(self).pbkdf2_iterations
                &&& final(self).db_salt_component == old(self).db_salt_component
                &&& final(self).derived_key == old(self).derived_key
                &&& final(self).encrypted_passwords == old(self).encrypted_passwords
            },
            r is Err ==> r->Err_0 == Error::RandomUnavailable && *final(self) == *old(self),
    {
        let username = random_bytes(VERIFIER_ID_LEN)?;
        let salt = self.salt(username.as_slice());
        let mut to_store = zero_bytes(CREDENTIAL_LEN);
        pbkdf2_derive(
            self.pbkdf2_iterations,
            salt.as_slice(),
            password.as_bytes(),
            &mut to_store,
        );
        self.master_password = (username, to_store);
        Ok(())
    }

    /// Re-derives the credential for the candidate password over the
    /// stored salt and identifier and compares it against the stored
    /// credential in constant time: success exactly on a match, and the
    /// answer reveals nothing about where a mismatch occurred.
    pub fn verify_password(&self, attempted_password: &str) -> (r: Result<(), Error>)
        requires
            self.wf(),
        ensures
            r is Ok <==> self.verifies(attempted_password@),
            r is Err ==> r->Err_0 == Error::WrongPassword,
    {
        let salt = self.salt(self.master_password.0.as_slice());
        let ok = pbkdf2_verify(
            self.pbkdf2_iterations,
            salt.as_slice(),
            attempted_password.as_bytes(),
            self.master_password.1.as_slice(),
        );
        if ok {
            Ok(())
        } else {
            Err(Error::WrongPassword)
        }
    }

    /// Installs the symmetric key for `password`, derived from the stored
    /// salt and iteration count alone: the same inputs give the same key
    /// at every unlock.
    pub fn derive_key(&mut self, password: &str)
        requires
            old(self).wf(),
        ensures
            final(self).wf(),
            final(self).key_derived_for(password@),
            final(self).derived_key@.len() == CREDENTIAL_LEN,
            final(self).persisted_eq(*old(self)),
    {
        let mut out = zero_bytes(CREDENTIAL_LEN);
        pbkdf2_derive(
            self.pbkdf2_iterations,
            self.db_salt_component.as_slice(),
            password.as_bytes(),
            &mut out,
        );
        self.derived_key = out;
    }

    /// The component with its transient key replaced by zeroes: the shape
    /// that may reach persistence.
    pub fn sanitise(self) -> (r: Pbkdf2Component)
        ensures
            r.persisted_eq(self),
            r.derived_key@.len() == CREDENTIAL_LEN,
            forall|i: int| 0 <= i < CREDENTIAL_LEN ==> r.derived_key@[i] == 0,
    {
        Pbkdf2Component { derived_key: zero_bytes(CREDENTIAL_LEN), ..self }
    }
}

/// Everything that determines the verifier, the key derivation and the
/// envelope identity, compared by contents.
pub open spec fn same_credentials(a: Pbkdf2Component, b: Pbkdf2Component) -> bool {
    &&& a.pbkdf2_iterations == b.pbkdf2_iterations
    &&& a.db_salt_component@ == b.db_salt_component@
    &&& a.master_password.0@ == b.master_password.0@
    &&& a.master_password.1@ == b.master_password.1@
    &&& a.derived_key@ == b.derived_key@
    &&& a.encrypted_passwords.aad@ == b.encrypted_passwords.aad@
    &&& a.encrypted_passwords.nonce_sequence.nonce_bytes@
        == b.encrypted_passwords.nonce_sequence.nonce_bytes@
}

/// The symmetric key for `password` against this component's stored salt
/// and iteration count, written into a caller-held buffer; the component
/// itself is left untouched.
pub fn derive_key_into(c: &Pbkdf2Component, password: &str, out: &mut Vec<u8>)
    requires
        c.wf(),
        old(out)@.len() == CREDENTIAL_LEN,
    ensures
        final(out)@ == c.spec_key_for(password@),
        final(out)@.len() == CREDENTIAL_LEN,
{
    pbkdf2_derive(c.pbkdf2_iterations, c.db_salt_component.as_slice(), password.as_bytes(), out);
}

/// Fresh master-password material for a new vault: a new random salt, a
/// verifier and symmetric key for `password` at the chosen iteration
/// count, and the empty secret map already sealed under that key.
pub fn init_master_password_with(password: &str, iterations: u32) -> (r: Result<
    Pbkdf2Component,
    Error,
>)
    requires
        iterations >= 1,
    ensures
        r is Ok ==> {
            &&& r->Ok_0.wf()
            &&& r->Ok_0.pbkdf2_iterations == iterations
            &&& r->Ok_0.verifies(password@)
            &&& r->Ok_0.key_derived_for(password@)
            &&& r->Ok_0.derived_key@.len() == CREDENTIAL_LEN
            &&& r->Ok_0.encrypted_passwords.sealed_with(
                r->Ok_0.derived_key@,
                crate::codec::spec_map_bytes(Seq::<(String, String)>::empty()),
            )
            &&& r->Ok_0.encrypted_passwords.index
                == r->Ok_0.encrypted_passwords.nonce_sequence.index
        },
        r is Err ==> r->Err_0 == Error::RandomUnavailable,
{
    let db_salt_component = random_bytes(SALT_LEN)?;
    let encrypted_passwords = EncryptedPasswords::new()?;
    let mut pass = Pbkdf2Component {
        pbkdf2_iterations: iterations,
        db_salt_component,
        master_password: (zero_bytes(VERIFIER_ID_LEN), zero_bytes(CREDENTIAL_LEN)),
        derived_key: zero_bytes(CREDENTIAL_LEN),
        encrypted_passwords,
    };
    pass.create_password(password)?;
    pass.derive_key(password);
    let empty: Vec<(String, String)> = Vec::new();
    let payload = encode_map(&empty);
    proof {
        crate::codec::lemma_entries_bytes_min_len(Seq::<(String, String)>::empty());
        vstd::bytes::lemma_auto_spec_u64_to_from_le_bytes();
    }
    let sealed = pass.encrypted_passwords.initialise_data(
        pass.derived_key.as_slice(),
        payload,
    )?;
    pass.encrypted_passwords = sealed;
    Ok(pass)
}

/// Fresh material at the default, deliberately slow iteration count.
pub fn init_master_password(password: &str) -> (r: Result<Pbkdf2Component, Error>)
    ensures
        r is Ok ==> {
            &&& r->Ok_0.wf()
            &&& r->Ok_0.pbkdf2_iterations == DEFAULT_ITERATIONS
            &&& r->Ok_0.verifies(password@)
            &&& r->Ok_0.key_derived_for(password@)
            &&& r->Ok_0.derived_key@.len() == CREDENTIAL_LEN
            &&& r->Ok_0.encrypted_passwords.sealed_with(
                r->Ok_0.derived_key@,
                crate::codec::spec_map_bytes(Seq::<(String, String)>::empty()),
            )
            &&& r->Ok_0.encrypted_passwords.index
                == r->Ok_0.encrypted_passwords.nonce_sequence.index
        },
        r is Err ==> r->Err_0 == Error::RandomUnavailable,
{
    init_master_password_with(password, DEFAULT_ITERATIONS)
}

/// Placeholder material for a vault that was constructed but never given
/// a password: a random salt, an all-zero verifier, no key, nothing
/// sealed.
pub fn empty_master_password() -> (r: Result<Pbkdf2Component, Error>)
    ensures
        r is Ok ==> {
            &&& r->Ok_0.wf()
            &&& r->Ok_0.pbkdf2_iterations == PENDING_ITERATIONS
            &&& (forall|i: int|
                0 <= i < VERIFIER_ID_LEN ==> r->Ok_0.master_password.0@[i] == 0)
            &&& (forall|i: int|
                0 <= i < CREDENTIAL_LEN ==> r->Ok_0.master_password.1@[i] == 0)
            &&& r->Ok_0.derived_key@.len() == CREDENTIAL_LEN
            &&& (forall|i: int| 0 <= i < CREDENTIAL_LEN ==> r->Ok_0.derived_key@[i] == 0)
            &&& r->Ok_0.encrypted_passwords.data@.len() == 0
            &&& r->Ok_0.encrypted_passwords.nonce_sequence.index == 0
            &&& r->Ok_0.encrypted_passwords.index == 0
        },
        r is Err ==> r->Err_0 == Error::RandomUnavailable,
{
    let db_salt_component = random_bytes(SALT_LEN)?;
    let encrypted_passwords = EncryptedPasswords::new()?;
    Ok(
        Pbkdf2Component {
            pbkdf2_iterations: PENDING_ITERATIONS,
            db_salt_component,
            master_password: (zero_bytes(VERIFIER_ID_LEN), zero_bytes(CREDENTIAL_LEN)),
            derived_key: zero_bytes(CREDENTIAL_LEN),
            encrypted_passwords,
        },
    )
}

} // verus!
