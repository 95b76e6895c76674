use vstd::prelude::*;

use core::marker::PhantomData;

use crate::codec::{
    decode_map, decode_record, encode_map, encode_record, entries_views, spec_map_bytes,
    spec_record_bytes, unique_keys,
};
pub use crate::errors::{Error, RetrieveResult};
use crate::encrypted_password::MAX_PLAINTEXT_LEN;
use crate::master_password::{
    empty_master_password, init_master_password_with, same_credentials, Pbkdf2Component,
    CREDENTIAL_LEN, DEFAULT_ITERATIONS, PENDING_ITERATIONS, VERIFIER_ID_LEN,
};
use crate::wipe::{wipe_bytes, wipe_string};

verus! {

/// Marker for a vault loaded from storage whose password has not been
/// proven: the secret map is inaccessible.
pub struct Locked;

/// Marker for a vault whose password has been verified: the derived key
/// is held and the secret map is decrypted and mutable.
pub struct Unlocked;

/// Marker for a freshly constructed vault that has never been persisted.
pub struct Pending;

/// The lifecycle stage, readable from the type.
pub trait LockState {
    /// Whether this stage still withholds the secret map.
    spec fn locked() -> bool;

    fn is_locked() -> (b: bool)
        ensures
            b == Self::locked(),
    ;
}

impl LockState for Locked {
    open spec fn locked() -> bool {
        true
    }

    fn is_locked() -> bool {
        true
    }
}

impl LockState for Unlocked {
    open spec fn locked() -> bool {
        false
    }

    fn is_locked() -> bool {
        false
    }
}

/// A name holds at most one entry.
pub open spec fn spec_contains_name(s: Seq<(String, String)>, name: Seq<char>) -> bool {
    exists|i: int| 0 <= i < s.len() && s[i].0@ == name
}

/// The index of the entry holding `name`.
pub open spec fn spec_index_of(s: Seq<(String, String)>, name: Seq<char>) -> int {
    choose|i: int| 0 <= i < s.len() && s[i].0@ == name
}

/// The secret map as a mathematical map from names to values.
pub open spec fn map_of_entries(s: Seq<(String, String)>) -> Map<Seq<char>, Seq<char>> {
    Map::new(
        |k: Seq<char>| spec_contains_name(s, k),
        |k: Seq<char>| s[spec_index_of(s, k)].1@,
    )
}

/// With unique names, each entry is exactly the map's binding for its
/// name.
pub proof fn lemma_map_entry(s: Seq<(String, String)>, i: int)
    requires
        unique_keys(s),
        0 <= i < s.len(),
    ensures
        map_of_entries(s).contains_key(s[i].0@),
        map_of_entries(s)[s[i].0@] == s[i].1@,
{
    let k = s[i].0@;
    assert(spec_contains_name(s, k));
    let j = spec_index_of(s, k);
    assert(0 <= j < s.len() && s[j].0@ == k);
}

/// Whether two strings hold the same characters, decided byte by byte
/// over their UTF-8 forms.
pub fn str_eq(a: &str, b: &str) -> (r: bool)
    ensures
        r == (a@ == b@),
{
    let ab = a.as_bytes();
    let bb = b.as_bytes();
    if ab.len() != bb.len() {
        proof {
            if a@ == b@ {
                assert(ab@ == bb@);
            }
        }
        return false;
    }
    let mut i: usize = 0;
    while i < ab.len()
        invariant
            ab@ == vstd::utf8::encode_utf8(a@),
            bb@ == vstd::utf8::encode_utf8(b@),
            ab@.len() == bb@.len(),
            i <= ab@.len(),
            forall|j: int| 0 <= j < i ==> ab@[j] == bb@[j],
        decreases ab@.len() - i,
    {
        let x = *vstd::slice::slice_index_get(ab, i);
        let y = *vstd::slice::slice_index_get(bb, i);
        if x != y {
            proof {
                if a@ == b@ {
                    assert(ab@ == bb@);
                }
            }
            return false;
        }
        i = i + 1;
    }
    proof {
        assert(ab@ =~= bb@);
        vstd::utf8::encode_utf8_decode_utf8(a@);
        vstd::utf8::encode_utf8_decode_utf8(b@);
    }
    true
}

/// The vault: the in-memory secret map (empty unless unlocked), the
/// master-password material with the sealed envelope, and the lifecycle
/// stage in the type.
pub struct Vault<State = Pending> {
    pub passwords: Vec<(String, String)>,
    pub pbkdf2_component: Pbkdf2Component,
    pub state: PhantomData<State>,
}

impl<State: LockState> Vault<State> {
    /// Whether this vault's stage still withholds the secret map.
    pub fn check_lock(&self) -> (b: bool)
        ensures
            b == State::locked(),
    {
        State::is_locked()
    }
}

impl Vault<Pending> {
    /// A fresh, never-persisted vault: no secrets, placeholder material.
    pub fn new() -> (r: Result<Vault<Pending>, Error>)
        ensures
            r is Ok ==> {
                let c = r->Ok_0.pbkdf2_component;
                &&& r->Ok_0.passwords@.len() == 0
                &&& c.wf()
                &&& c.pbkdf2_iterations == PENDING_ITERATIONS
                &&& (forall|i: int| 0 <= i < VERIFIER_ID_LEN ==> c.master_password.0@[i] == 0)
                &&& (forall|i: int| 0 <= i < CREDENTIAL_LEN ==> c.master_password.1@[i] == 0)
                &&& c.derived_key@.len() == CREDENTIAL_LEN
                &&& (forall|i: int| 0 <= i < CREDENTIAL_LEN ==> c.derived_key@[i] == 0)
                &&& c.encrypted_passwords.data@.len() == 0
                &&& c.encrypted_passwords.nonce_sequence.index == 0
                &&& c.encrypted_passwords.index == 0
            },
            r is Err ==> r->Err_0 == Error::RandomUnavailable,
    {
        let pbkdf2_component = empty_master_password()?;
        Ok(Vault { passwords: Vec::new(), pbkdf2_component, state: PhantomData })
    }

    /// Seals this pending vault under `password` at the chosen iteration
    /// count and hands back the unlocked vault together with the record
    /// bytes to persist.  The record holds no plaintext secret and no
    /// derived key; rejects an empty vault name or password.
    pub fn create_new_with_iterations(
        self,
        password: &str,
        vault_name: &str,
        iterations: u32,
    ) -> (r: Result<(Vault<Unlocked>, Vec<u8>), Error>)
        requires
            iterations >= 1,
        ensures
            vault_name@.len() == 0 ==> r is Err && r->Err_0 == Error::EmptyName,
            vault_name@.len() > 0 && password@.len() == 0 ==> r is Err && r->Err_0
                == Error::EmptyPassword,
            vault_name@.len() > 0 && password@.len() > 0 ==> (r is Ok || (r is Err && r->Err_0
                == Error::RandomUnavailable)),
            r is Ok ==> {
                let v = (r->Ok_0).0;
                &&& v.wf()
                &&& v.passwords@.len() == 0
                &&& v.map_view() =~= Map::<Seq<char>, Seq<char>>::empty()
                &&& v.pbkdf2_component.pbkdf2_iterations == iterations
                &&& v.pbkdf2_component.verifies(password@)
                &&& v.pbkdf2_component.key_derived_for(password@)
                &&& v.sealed_current()
                &&& (r->Ok_0).1@ == spec_record_bytes(v.pbkdf2_component)
            },
    {
        if vault_name.unicode_len() == 0 {
            return Err(Error::EmptyName);
        }
        if password.unicode_len() == 0 {
            return Err(Error::EmptyPassword);
        }
        let pbkdf2_component = init_master_password_with(password, iterations)?;
        let vault = Vault::<Unlocked> {
            passwords: Vec::new(),
            pbkdf2_component,
            state: PhantomData,
        };
        let record = encode_record(&vault.pbkdf2_component);
        proof {
            assert(vault.passwords@ =~= Seq::<(String, String)>::empty());
            assert(vault.map_view() =~= Map::<Seq<char>, Seq<char>>::empty());
        }
        Ok((vault, record))
    }

    /// As above, at the default deliberately slow iteration count.
    pub fn create_new(self, password: &str, vault_name: &str) -> (r: Result<
        (Vault<Unlocked>, Vec<u8>),
        Error,
    >)
        ensures
            vault_name@.len() == 0 ==> r is Err && r->Err_0 == Error::EmptyName,
            vault_name@.len() > 0 && password@.len() == 0 ==> r is Err && r->Err_0
                == Error::EmptyPassword,
            vault_name@.len() > 0 && password@.len() > 0 ==> (r is Ok || (r is Err && r->Err_0
                == Error::RandomUnavailable)),
            r is Ok ==> {
                let v = (r->Ok_0).0;
                &&& v.wf()
                &&& v.passwords@.len() == 0
                &&& v.map_view() =~= Map::<Seq<char>, Seq<char>>::empty()
                &&& v.pbkdf2_component.pbkdf2_iterations == DEFAULT_ITERATIONS
                &&& v.pbkdf2_component.verifies(password@)
                &&& v.pbkdf2_component.key_derived_for(password@)
                &&& v.sealed_current()
                &&& (r->Ok_0).1@ == spec_record_bytes(v.pbkdf2_component)
            },
    {
        self.create_new_with_iterations(password, vault_name, DEFAULT_ITERATIONS)
    }

    /// This vault as a locked one, its secret map still withheld.
    pub fn retrieved(self) -> (r: Vault<Locked>)
        ensures
            r.passwords@ == self.passwords@,
            r.pbkdf2_component == self.pbkdf2_component,
    {
        Vault { passwords: self.passwords, pbkdf2_component: self.pbkdf2_component, state: PhantomData }
    }
}

impl Vault<Locked> {
    /// Shapes of a locked vault: sound material, no decrypted secrets.
    pub open spec fn wf(self) -> bool {
        &&& self.pbkdf2_component.wf()
        &&& self.passwords@.len() == 0
    }

    /// Replaces this vault's contents with the record decoded from
    /// `file`.  On failure nothing changes; decrypted secrets never enter
    /// a locked vault.
    pub fn retrieve_from_file(&mut self, file: &[u8]) -> (r: RetrieveResult)
        requires
            old(self).wf(),
        ensures
            final(self).wf(),
            r == RetrieveResult::Failure ==> *final(self) == *old(self),
            r == RetrieveResult::Success ==> {
                &&& file@ == spec_record_bytes(final(self).pbkdf2_component)
                &&& final(self).pbkdf2_component.derived_key@.len() == 0
            },
            (forall|c: Pbkdf2Component|
                c.wf() && file@ == #[trigger] spec_record_bytes(c) ==> r
                    == RetrieveResult::Success && final(self).pbkdf2_component.persisted_eq(c)),
    {
        match decode_record(file) {
            Some(component) => {
                self.pbkdf2_component = component;
                RetrieveResult::Success
            },
            None => RetrieveResult::Failure,
        }
    }

    /// Proves `password` against the stored verifier and, on success,
    /// re-derives the symmetric key from the stored salt and iteration
    /// count, opens the sealed envelope and decodes the secret map: the
    /// only path by which secrets enter memory.  Every failure returns
    /// the locked vault unchanged; a wrong password is reported apart
    /// from corruption.
    pub fn unlock(self, password: &str) -> (r: Result<Vault<Unlocked>, (Vault<Locked>, Error)>)
        requires
            self.wf(),
        ensures
            r is Err ==> (r->Err_0).0 == self,
            r is Err ==> ((r->Err_0).1 == Error::WrongPassword || (r->Err_0).1
                == Error::DecryptionFailure || (r->Err_0).1 == Error::CorruptOrIncompatibleStore),
            !self.pbkdf2_component.verifies(password@) <==> (r is Err && (r->Err_0).1
                == Error::WrongPassword),
            r is Ok ==> {
                let v = r->Ok_0;
                &&& v.wf()
                &&& v.pbkdf2_component.persisted_eq(self.pbkdf2_component)
                &&& v.pbkdf2_component.key_derived_for(password@)
                &&& v.sealed_current()
            },
            forall|m: Seq<(String, String)>|
                (self.pbkdf2_component.verifies(password@) && unique_keys(m)
                    && self.pbkdf2_component.encrypted_passwords.sealed_with(
                    self.pbkdf2_component.spec_key_for(password@),
                    #[trigger] spec_map_bytes(m),
                )) ==> r is Ok && entries_views((r->Ok_0).passwords@) == entries_views(m),
    {
        if let Err(_) = self.pbkdf2_component.verify_password(password) {
            return Err((self, Error::WrongPassword));
        }
        let mut key = crate::codec::zero_bytes(CREDENTIAL_LEN);
        crate::master_password::derive_key_into(&self.pbkdf2_component, password, &mut key);
        let plaintext = match self.pbkdf2_component.encrypted_passwords.decrypt(key.as_slice()) {
            Ok(p) => p,
            Err(_) => {
                return Err((self, Error::DecryptionFailure));
            },
        };
        let entries = match decode_map(plaintext.as_slice()) {
            Some(e) => e,
            None => {
                return Err((self, Error::CorruptOrIncompatibleStore));
            },
        };
        let mut component = self.pbkdf2_component;
        component.derived_key = key;
        Ok(Vault { passwords: entries, pbkdf2_component: component, state: PhantomData })
    }
}

/// Attempts to open a locked vault with a candidate password; on failure
/// the untouched locked vault comes back with the reason.
pub fn attempt_unlock(pass: Vault<Locked>, password: &str) -> (r: Result<
    Vault<Unlocked>,
    (Vault<Locked>, Error),
>)
    requires
        pass.wf(),
    ensures
        r is Err ==> (r->Err_0).0 == pass,
        r is Err ==> ((r->Err_0).1 == Error::WrongPassword || (r->Err_0).1
            == Error::DecryptionFailure || (r->Err_0).1 == Error::CorruptOrIncompatibleStore),
        !pass.pbkdf2_component.verifies(password@) <==> (r is Err && (r->Err_0).1
            == Error::WrongPassword),
        r is Ok ==> {
            let v = r->Ok_0;
            &&& v.wf()
            &&& v.pbkdf2_component.persisted_eq(pass.pbkdf2_component)
            &&& v.pbkdf2_component.key_derived_for(password@)
            &&& v.sealed_current()
        },
        forall|m: Seq<(String, String)>|
            (pass.pbkdf2_component.verifies(password@) && unique_keys(m)
                && pass.pbkdf2_component.encrypted_passwords.sealed_with(
                pass.pbkdf2_component.spec_key_for(password@),
                #[trigger] spec_map_bytes(m),
            )) ==> r is Ok && entries_views((r->Ok_0).passwords@) == entries_views(m),
{
    pass.unlock(password)
}

/// Decodes persisted record bytes into a locked vault; anything that does
/// not decode is reported as corrupt, never replaced with a guess.
pub fn init(file: &[u8]) -> (r: Result<Vault<Locked>, Error>)
    ensures
        r is Err ==> r->Err_0 == Error::CorruptOrIncompatibleStore,
        r is Ok ==> {
            let v = r->Ok_0;
            &&& v.wf()
            &&& file@ == spec_record_bytes(v.pbkdf2_component)
            &&& v.pbkdf2_component.derived_key@.len() == 0
        },
        forall|c: Pbkdf2Component|
            c.wf() && file@ == #[trigger] spec_record_bytes(c) ==> r is Ok
                && (r->Ok_0).pbkdf2_component.persisted_eq(c),
{
    match decode_record(file) {
        Some(component) => Ok(
            Vault { passwords: Vec::new(), pbkdf2_component: component, state: PhantomData },
        ),
        None => Err(Error::CorruptOrIncompatibleStore),
    }
}


/// Appending a fresh name inserts its binding into the map.
pub proof fn lemma_map_insert(s: Seq<(String, String)>, e: (String, String))
    requires
        unique_keys(s),
        !spec_contains_name(s, e.0@),
    ensures
        unique_keys(s.push(e)),
        map_of_entries(s.push(e)) =~= map_of_entries(s).insert(e.0@, e.1@),
{
    let s2 = s.push(e);
    assert(s2[s.len() as int] == e);
    assert forall|i: int, j: int| 0 <= i < j < s2.len() implies s2[i].0@ != s2[j].0@ by {
        if j == s.len() {
            assert(s2[i] == s[i]);
            if s2[i].0@ == e.0@ {
                assert(spec_contains_name(s, e.0@));
            }
        } else {
            assert(s2[i] == s[i] && s2[j] == s[j]);
        }
    }
    let m1 = map_of_entries(s2);
    let m2 = map_of_entries(s).insert(e.0@, e.1@);
    assert forall|k: Seq<char>|
        #![trigger m1.contains_key(k)]
        #![trigger m2.contains_key(k)]
        m1.contains_key(k) == m2.contains_key(k) by {
        if spec_contains_name(s2, k) {
            let i = choose|i: int| 0 <= i < s2.len() && s2[i].0@ == k;
            if i < s.len() {
                assert(s[i].0@ == k);
                assert(spec_contains_name(s, k));
            } else {
                assert(k == e.0@);
            }
        }
        if spec_contains_name(s, k) {
            let i = choose|i: int| 0 <= i < s.len() && s[i].0@ == k;
            assert(s2[i].0@ == k);
            assert(spec_contains_name(s2, k));
        }
        if k == e.0@ {
            assert(s2[s.len() as int].0@ == k);
            assert(spec_contains_name(s2, k));
        }
    }
    assert forall|k: Seq<char>| #[trigger] m1.contains_key(k) implies m1[k] == m2[k] by {
        let i = spec_index_of(s2, k);
        assert(0 <= i < s2.len() && s2[i].0@ == k);
        if k == e.0@ {
            if i < s.len() {
                assert(s[i].0@ == e.0@);
                assert(spec_contains_name(s, e.0@));
            }
            assert(i == s.len());
        } else {
            assert(i < s.len());
            assert(s[i].0@ == k);
            assert(spec_contains_name(s, k));
            let j = spec_index_of(s, k);
            assert(0 <= j < s.len() && s[j].0@ == k);
            assert(j == i);
        }
    }
    assert(m1 =~= m2);
}

/// Removing an entry removes its binding from the map.
pub proof fn lemma_map_remove(s: Seq<(String, String)>, i: int)
    requires
        unique_keys(s),
        0 <= i < s.len(),
    ensures
        unique_keys(s.remove(i)),
        map_of_entries(s.remove(i)) =~= map_of_entries(s).remove(s[i].0@),
{
    let s2 = s.remove(i);
    s.remove_ensures(i);
    assert forall|a: int, b: int| 0 <= a < b < s2.len() implies s2[a].0@ != s2[b].0@ by {
        let a0: int = if a < i { a } else { a + 1 };
        let b0: int = if b < i { b } else { b + 1 };
        assert(s2[a] == s[a0] && s2[b] == s[b0]);
    }
    let m1 = map_of_entries(s2);
    let m2 = map_of_entries(s).remove(s[i].0@);
    assert forall|k: Seq<char>|
        #![trigger m1.contains_key(k)]
        #![trigger m2.contains_key(k)]
        m1.contains_key(k) == m2.contains_key(k) by {
        if spec_contains_name(s2, k) {
            let a = choose|a: int| 0 <= a < s2.len() && s2[a].0@ == k;
            let a0: int = if a < i { a } else { a + 1 };
            assert(s[a0].0@ == k);
            assert(spec_contains_name(s, k));
            assert(k != s[i].0@);
        }
        if spec_contains_name(s, k) && k != s[i].0@ {
            let a = choose|a: int| 0 <= a < s.len() && s[a].0@ == k;
            assert(a != i);
            let a2: int = if a < i { a } else { a - 1 };
            assert(s2[a2].0@ == k);
            assert(spec_contains_name(s2, k));
        }
    }
    assert forall|k: Seq<char>| #[trigger] m1.contains_key(k) implies m1[k] == m2[k] by {
        let a = spec_index_of(s2, k);
        assert(0 <= a < s2.len() && s2[a].0@ == k);
        let a0: int = if a < i { a } else { a + 1 };
        assert(s[a0].0@ == k);
        assert(spec_contains_name(s, k));
        let j = spec_index_of(s, k);
        assert(0 <= j < s.len() && s[j].0@ == k);
        assert(j == a0);
    }
    assert(m1 =~= m2);
}

impl Vault<Unlocked> {
    /// Shapes of an unlocked vault: sound material, a live 32-byte key,
    /// and no two secrets under one name.
    pub open spec fn wf(self) -> bool {
        &&& self.pbkdf2_component.wf()
        &&& self.pbkdf2_component.derived_key@.len() == CREDENTIAL_LEN
        &&& unique_keys(self.passwords@)
    }

    /// The secret map this vault holds.
    pub open spec fn map_view(self) -> Map<Seq<char>, Seq<char>> {
        map_of_entries(self.passwords@)
    }

    /// The envelope holds exactly this vault's secret map, sealed under
    /// this vault's key.
    pub open spec fn sealed_current(self) -> bool {
        self.pbkdf2_component.encrypted_passwords.sealed_with(
            self.pbkdf2_component.derived_key@,
            spec_map_bytes(self.passwords@),
        )
    }

    /// Position of `name` among the entries, if it holds one.
    fn find_entry(&self, name: &str) -> (r: Option<usize>)
        ensures
            r is Some ==> r->0 < self.passwords@.len() && self.passwords@[r->0 as int].0@
                == name@,
            r is None ==> !spec_contains_name(self.passwords@, name@),
    {
        let mut i: usize = 0;
        while i < self.passwords.len()
            invariant
                i <= self.passwords@.len(),
                forall|j: int| 0 <= j < i ==> self.passwords@[j].0@ != name@,
            decreases self.passwords@.len() - i,
        {
            if str_eq(self.passwords[i].0.as_str(), name) {
                return Some(i);
            }
            i = i + 1;
        }
        None
    }

    /// The secret stored under `name`, or `NotFound`.
    pub fn retrieve_password(&self, name: &str) -> (r: Result<String, Error>)
        requires
            self.wf(),
        ensures
            r is Ok <==> self.map_view().contains_key(name@),
            r is Ok ==> r->Ok_0@ == self.map_view()[name@],
            r is Err ==> r->Err_0 == Error::NotFound,
    {
        match self.find_entry(name) {
            Some(i) => {
                proof {
                    lemma_map_entry(self.passwords@, i as int);
                }
                Ok(self.passwords[i].1.clone())
            },
            None => Err(Error::NotFound),
        }
    }

    /// The record bytes for the current state, ready to persist.  The
    /// derived key and the plaintext map take no part in the encoding:
    /// the only secret bytes in a record are inside the sealed
    /// ciphertext.
    pub fn save_record(&self) -> (out: Vec<u8>)
        requires
            self.pbkdf2_component.wf(),
        ensures
            out@ == spec_record_bytes(self.pbkdf2_component),
    {
        encode_record(&self.pbkdf2_component)
    }

    /// Adds a secret under a fresh name, reseals the whole map under a
    /// new nonce and hands back the record bytes to persist.  A name
    /// already present, an overgrown map or an exhausted nonce counter
    /// each refuse and leave the vault unchanged.
    pub fn insert_password(&mut self, name: String, password: String) -> (r: Result<
        Vec<u8>,
        Error,
    >)
        requires
            old(self).wf(),
        ensures
            final(self).wf(),
            name@.len() == 0 ==> r is Err && r->Err_0 == Error::EmptyName,
            name@.len() > 0 && password@.len() == 0 ==> r is Err && r->Err_0
                == Error::EmptyPassword,
            name@.len() > 0 && password@.len() > 0 && spec_contains_name(
                old(self).passwords@,
                name@,
            ) ==> r is Err && r->Err_0 == Error::AlreadyExists,
            r is Err ==> final(self).passwords@ == old(self).passwords@ && final(self).pbkdf2_component == old(self).pbkdf2_component && final(self).map_view() == old(self).map_view(),
            r is Err ==> (r->Err_0 == Error::EmptyName || r->Err_0 == Error::EmptyPassword
                || r->Err_0 == Error::AlreadyExists || r->Err_0 == Error::StoreTooLarge
                || r->Err_0 == Error::NonceExhausted),
            r is Err && r->Err_0 == Error::EmptyName ==> name@.len() == 0,
            r is Err && r->Err_0 == Error::EmptyPassword ==> password@.len() == 0,
            r is Err && r->Err_0 == Error::AlreadyExists ==> spec_contains_name(
                old(self).passwords@,
                name@,
            ),
            (name@.len() > 0 && password@.len() > 0 && !spec_contains_name(
                old(self).passwords@,
                name@,
            ) && spec_map_bytes(
                old(self).passwords@.push((name, password)),
            ).len() <= MAX_PLAINTEXT_LEN
                && old(self).pbkdf2_component.encrypted_passwords.nonce_sequence.index
                < u64::MAX) ==> r is Ok,
            r is Ok ==> {
                &&& !spec_contains_name(old(self).passwords@, name@)
                &&& final(self).passwords@ == old(self).passwords@.push((name, password))
                &&& final(self).map_view() == old(self).map_view().insert(name@, password@)
                &&& final(self).sealed_current()
                &&& same_credentials(final(self).pbkdf2_component, old(self).pbkdf2_component)
                &&& final(self).pbkdf2_component.encrypted_passwords.nonce_sequence.index == old(self).pbkdf2_component.encrypted_passwords.nonce_sequence.index + 1
                &&& r->Ok_0@ == spec_record_bytes(final(self).pbkdf2_component)
            },
    {
        let ghost old_entries = self.passwords@;
        if name.as_str().unicode_len() == 0 {
            return Err(Error::EmptyName);
        }
        if password.as_str().unicode_len() == 0 {
            return Err(Error::EmptyPassword);
        }
        if let Some(_) = self.find_entry(name.as_str()) {
            return Err(Error::AlreadyExists);
        }
        let ghost entry = (name, password);
        self.passwords.push((name, password));
        let payload = encode_map(&self.passwords);
        if payload.len() > MAX_PLAINTEXT_LEN {
            let _ = self.passwords.pop();
            proof {
                assert(self.passwords@ =~= old_entries);
            }
            return Err(Error::StoreTooLarge);
        }
        let sealed = self.pbkdf2_component.encrypted_passwords.encrypt_data(
            self.pbkdf2_component.derived_key.as_slice(),
            payload,
        );
        if let Err(_) = sealed {
            let _ = self.passwords.pop();
            proof {
                assert(self.passwords@ =~= old_entries);
            }
            return Err(Error::NonceExhausted);
        }
        proof {
            lemma_map_insert(old_entries, entry);
        }
        let out = encode_record(&self.pbkdf2_component);
        Ok(out)
    }

    /// Removes the secret under `name`, reseals the remaining map and
    /// hands back the record bytes to persist; an absent name refuses
    /// and leaves the vault unchanged.
    pub fn delete_password(&mut self, name: String) -> (r: Result<Vec<u8>, Error>)
        requires
            old(self).wf(),
        ensures
            final(self).wf(),
            !spec_contains_name(old(self).passwords@, name@) ==> r is Err && r->Err_0
                == Error::NotFound,
            r is Err ==> final(self).passwords@ == old(self).passwords@ && final(self).pbkdf2_component == old(self).pbkdf2_component && final(self).map_view() == old(self).map_view(),
            r is Err ==> (r->Err_0 == Error::NotFound || r->Err_0 == Error::StoreTooLarge
                || r->Err_0 == Error::NonceExhausted),
            r is Err && r->Err_0 == Error::NotFound ==> !spec_contains_name(
                old(self).passwords@,
                name@,
            ),
            (spec_contains_name(old(self).passwords@, name@) && spec_map_bytes(
                old(self).passwords@.remove(spec_index_of(old(self).passwords@, name@)),
            ).len() <= MAX_PLAINTEXT_LEN
                && old(self).pbkdf2_component.encrypted_passwords.nonce_sequence.index
                < u64::MAX) ==> r is Ok,
            r is Ok ==> {
                &&& spec_contains_name(old(self).passwords@, name@)
                &&& final(self).passwords@ == old(self).passwords@.remove(
                    spec_index_of(old(self).passwords@, name@),
                )
                &&& final(self).map_view() == old(self).map_view().remove(name@)
                &&& !final(self).map_view().contains_key(name@)
                &&& final(self).sealed_current()
                &&& same_credentials(final(self).pbkdf2_component, old(self).pbkdf2_component)
                &&& final(self).pbkdf2_component.encrypted_passwords.nonce_sequence.index == old(self).pbkdf2_component.encrypted_passwords.nonce_sequence.index + 1
                &&& r->Ok_0@ == spec_record_bytes(final(self).pbkdf2_component)
            },
    {
        let ghost old_entries = self.passwords@;
        let i = match self.find_entry(name.as_str()) {
            Some(i) => i,
            None => {
                return Err(Error::NotFound);
            },
        };
        proof {
            lemma_index_unique(old_entries, i as int);
        }
        let removed = self.passwords.remove(i);
        let payload = encode_map(&self.passwords);
        if payload.len() > MAX_PLAINTEXT_LEN {
            self.passwords.insert(i, removed);
            proof {
                assert(self.passwords@ =~= old_entries);
            }
            return Err(Error::StoreTooLarge);
        }
        let sealed = self.pbkdf2_component.encrypted_passwords.encrypt_data(
            self.pbkdf2_component.derived_key.as_slice(),
            payload,
        );
        if let Err(_) = sealed {
            self.passwords.insert(i, removed);
            proof {
                assert(self.passwords@ =~= old_entries);
            }
            return Err(Error::NonceExhausted);
        }
        proof {
            lemma_map_remove(old_entries, i as int);
            assert(!map_of_entries(old_entries).remove(name@).contains_key(name@));
        }
        let out = encode_record(&self.pbkdf2_component);
        Ok(out)
    }

    /// All secret names, in storage order.
    pub fn list_password(&self) -> (r: Vec<String>)
        ensures
            r@.len() == self.passwords@.len(),
            forall|i: int| 0 <= i < r@.len() ==> r@[i]@ == self.passwords@[i].0@,
    {
        let mut out: Vec<String> = Vec::new();
        let mut i: usize = 0;
        while i < self.passwords.len()
            invariant
                i <= self.passwords@.len(),
                out@.len() == i,
                forall|j: int| 0 <= j < i ==> out@[j]@ == self.passwords@[j].0@,
            decreases self.passwords@.len() - i,
        {
            out.push(self.passwords[i].0.clone());
            i = i + 1;
        }
        out
    }

    /// Overwrites every secret byte this vault holds in memory: the map
    /// values, the derived key and the sealed bytes.
    pub fn zeroize(&mut self)
        ensures
            final(self).passwords@.len() == old(self).passwords@.len(),
            forall|i: int|
                0 <= i < final(self).passwords@.len() ==> final(self).passwords@[i].1@.len() == 0,
            final(self).pbkdf2_component.derived_key@.len() == 0,
            final(self).pbkdf2_component.encrypted_passwords.data@.len() == 0,
    {
        let ghost n = self.passwords@.len();
        let mut wiped: Vec<(String, String)> = Vec::new();
        while self.passwords.len() > 0
            invariant
                wiped@.len() + self.passwords@.len() == n,
                forall|i: int| 0 <= i < wiped@.len() ==> wiped@[i].1@.len() == 0,
            decreases self.passwords@.len(),
        {
            if let Some((entry_name, mut value)) = self.passwords.pop() {
                wipe_string(&mut value);
                wiped.push((entry_name, value));
            }
        }
        self.passwords = wiped;
        wipe_bytes(&mut self.pbkdf2_component.derived_key);
        wipe_bytes(&mut self.pbkdf2_component.encrypted_passwords.data);
    }

    /// Discards this vault: the map values, the derived key, the sealed
    /// bytes and the verifier credential are all overwritten before the
    /// empty locked shell is returned.  Nothing secret survives where a
    /// later read could find it.
    pub fn lock(self) -> (r: Vault<Locked>)
        ensures
            r.passwords@.len() == 0,
            r.pbkdf2_component.derived_key@.len() == CREDENTIAL_LEN,
            forall|i: int|
                0 <= i < CREDENTIAL_LEN ==> r.pbkdf2_component.derived_key@[i] == 0,
            r.pbkdf2_component.master_password.1@.len() == CREDENTIAL_LEN,
            forall|i: int|
                0 <= i < CREDENTIAL_LEN ==> r.pbkdf2_component.master_password.1@[i] == 0,
            r.pbkdf2_component.encrypted_passwords.data@.len() == 0,
    {
        let mut v = self;
        v.zeroize();
        let mut component = v.pbkdf2_component.sanitise();
        let (id, mut credential) = component.master_password;
        wipe_bytes(&mut credential);
        component.master_password = (id, crate::codec::zero_bytes(CREDENTIAL_LEN));
        Vault { passwords: Vec::new(), pbkdf2_component: component, state: PhantomData }
    }
}

/// The printable characters from which generated secrets are drawn.
pub open spec fn spec_charset() -> Seq<char> {
    "abcdefghijklmnopqrstuvwxyzABCDEFGHIJKLMNOPQRSTUVWXYZ1234567890!@#$%^&*()-=_+[]\\{}|;:'\"<>?,./`~"@
}

/// Length of an auto-generated secret value.
pub const GENERATED_SECRET_LEN: usize = 18;

impl Vault<Unlocked> {
    /// Draws a fresh secret of eighteen characters from the fixed
    /// printable alphabet, stores it under `name` and reseals: the vault
    /// refuses an empty or already-present name and hands back both the
    /// generated value and the record bytes to persist.
    pub fn generate_secret(&mut self, name: String) -> (r: Result<(String, Vec<u8>), Error>)
        requires
            old(self).wf(),
        ensures
            final(self).wf(),
            name@.len() == 0 ==> r is Err && r->Err_0 == Error::EmptyName,
            name@.len() > 0 && spec_contains_name(old(self).passwords@, name@) ==> r is Err
                && r->Err_0 == Error::AlreadyExists,
            r is Err ==> final(self).passwords@ == old(self).passwords@ && final(self).pbkdf2_component == old(self).pbkdf2_component,
            r is Err ==> (r->Err_0 == Error::EmptyName || r->Err_0 == Error::AlreadyExists
                || r->Err_0 == Error::RandomUnavailable || r->Err_0 == Error::StoreTooLarge
                || r->Err_0 == Error::NonceExhausted),
            r is Err && r->Err_0 == Error::EmptyName ==> name@.len() == 0,
            r is Err && r->Err_0 == Error::AlreadyExists ==> spec_contains_name(
                old(self).passwords@,
                name@,
            ),
            (name@.len() > 0 && !spec_contains_name(old(self).passwords@, name@)
                && old(self).pbkdf2_component.encrypted_passwords.nonce_sequence.index < u64::MAX
                && spec_map_bytes(old(self).passwords@).len() + 16 + 4 * name@.len() + 4
                * GENERATED_SECRET_LEN <= MAX_PLAINTEXT_LEN) ==> (r is Ok || (r is Err && r->Err_0
                == Error::RandomUnavailable)),
            r is Ok ==> {
                let value = (r->Ok_0).0;
                &&& value@.len() == GENERATED_SECRET_LEN
                &&& (forall|j: int|
                    0 <= j < value@.len() ==> spec_charset().contains(#[trigger] value@[j]))
                &&& final(self).map_view() == old(self).map_view().insert(name@, value@)
                &&& final(self).sealed_current()
                &&& same_credentials(final(self).pbkdf2_component, old(self).pbkdf2_component)
                &&& (r->Ok_0).1@ == spec_record_bytes(final(self).pbkdf2_component)
            },
    {
        if name.as_str().unicode_len() == 0 {
            return Err(Error::EmptyName);
        }
        if let Some(_) = self.find_entry(name.as_str()) {
            return Err(Error::AlreadyExists);
        }
        let randoms = crate::rng::random_bytes(GENERATED_SECRET_LEN)?;
        let cs = "abcdefghijklmnopqrstuvwxyzABCDEFGHIJKLMNOPQRSTUVWXYZ1234567890!@#$%^&*()-=_+[]\\{}|;:'\"<>?,./`~";
        proof {
            reveal_strlit(
                "abcdefghijklmnopqrstuvwxyzABCDEFGHIJKLMNOPQRSTUVWXYZ1234567890!@#$%^&*()-=_+[]\\{}|;:'\"<>?,./`~",
            );
        }
        let mut chars: Vec<char> = Vec::new();
        let mut i: usize = 0;
        while i < GENERATED_SECRET_LEN
            invariant
                i <= GENERATED_SECRET_LEN,
                chars@.len() == i,
                randoms@.len() == GENERATED_SECRET_LEN,
                cs@ == spec_charset(),
                cs@.len() == 94,
                forall|j: int| 0 <= j < i ==> spec_charset().contains(#[trigger] chars@[j]),
            decreases GENERATED_SECRET_LEN - i,
        {
            let b = randoms[i];
            let idx = (b % 94) as usize;
            let c = cs.get_char(idx);
            proof {
                assert(spec_charset()[idx as int] == c);
            }
            chars.push(c);
            i = i + 1;
        }
        let value = crate::codec::chars_to_string(&chars);
        let cloned = value.clone();
        proof {
            // The map grown by this entry takes exactly 16 bytes of length
            // fields plus four bytes per character more than the old one.
            let pushed = self.passwords@.push((name, cloned));
            crate::codec::lemma_entries_bytes_snoc(pushed);
            assert(pushed.drop_last() =~= self.passwords@);
            crate::codec::lemma_chars_bytes_len(name@);
            crate::codec::lemma_chars_bytes_len(cloned@);
            vstd::bytes::lemma_auto_spec_u64_to_from_le_bytes();
            assert(spec_map_bytes(pushed).len() == spec_map_bytes(self.passwords@).len() + 16 + 4
                * name@.len() + 4 * cloned@.len());
        }
        let record = self.insert_password(name, cloned)?;
        Ok((value, record))
    }
}

/// With unique names, the entry found for a name is the only one.
pub proof fn lemma_index_unique(s: Seq<(String, String)>, i: int)
    requires
        unique_keys(s),
        0 <= i < s.len(),
    ensures
        spec_index_of(s, s[i].0@) == i,
{
    assert(spec_contains_name(s, s[i].0@));
    let j = spec_index_of(s, s[i].0@);
    assert(0 <= j < s.len() && s[j].0@ == s[i].0@);
}

} // verus!
