use vstd::prelude::*;

use crate::errors::Error;
use crate::rng::random_bytes;

verus! {

/// Length in bytes of the random domain-separation tag bound into every
/// seal and open call as associated data.
pub const AAD_LEN: usize = 128;

/// Length in bytes of the random per-vault nonce prefix.
pub const NONCE_PREFIX_LEN: usize = 4;

/// Length in bytes of a complete AEAD nonce: the prefix followed by the
/// big-endian counter.
pub const NONCE_LEN: usize = 12;

/// Length in bytes of the authentication tag that sealing appends.
pub const TAG_LEN: usize = 16;

/// Upper bound accepted for a plaintext handed to `seal`; far below the
/// algorithm's own input limit, so sealing never fails for length reasons.
pub const MAX_PLAINTEXT_LEN: usize = 0x3FFF_FFFF;

/// The ciphertext-and-tag bytes that ChaCha20-Poly1305 produces for the
/// given key, nonce, associated data and plaintext.  The algorithm is a
/// pure function of these four inputs; its value is not axiomatized here,
/// only named, and the trusted wrappers below relate it to ring's calls.
pub uninterp spec fn chacha20_poly1305_seal_bytes(
    key: Seq<u8>,
    nonce: Seq<u8>,
    aad: Seq<u8>,
    plaintext: Seq<u8>,
) -> Seq<u8>;

/// Relies on ring's `LessSafeKey::seal_in_place_append_tag` with
/// `CHACHA20_POLY1305`: encrypts the buffer in place and appends the
/// 16-byte tag.  With a 32-byte key, a 12-byte nonce and a plaintext under
/// the length cap, ring's error paths are unreachable, so the call always
/// succeeds; the result is the deterministic function of key, nonce,
/// associated data and plaintext named above.
#[verifier::external_body]
fn chacha_seal(key: &[u8], nonce: &[u8], aad: &[u8], data: &mut Vec<u8>)
    requires
        key@.len() == 32,
        nonce@.len() == NONCE_LEN,
        aad@.len() <= MAX_PLAINTEXT_LEN,
        old(data)@.len() <= MAX_PLAINTEXT_LEN,
    ensures
        final(data)@ == chacha20_poly1305_seal_bytes(key@, nonce@, aad@, old(data)@),
        final(data)@.len() == old(data)@.len() + TAG_LEN,
{
    let unbound = ring::aead::UnboundKey::new(&ring::aead::CHACHA20_POLY1305, key).unwrap();
    let sealing = ring::aead::LessSafeKey::new(unbound);
    let n = ring::aead::Nonce::try_assume_unique_for_key(nonce).unwrap();
    sealing.seal_in_place_append_tag(n, ring::aead::Aad::from(aad), data).unwrap();
}

/// Relies on ring's `LessSafeKey::open_in_place` with `CHACHA20_POLY1305`:
/// authenticates the buffer against the key, nonce and associated data and
/// returns the original plaintext exactly when the buffer was produced by
/// sealing under the same parameters; anything else is rejected.
#[verifier::external_body]
fn chacha_open(key: &[u8], nonce: &[u8], aad: &[u8], data: &[u8]) -> (r: Result<Vec<u8>, Error>)
    requires
        key@.len() == 32,
        nonce@.len() == NONCE_LEN,
    ensures
        forall|p: Seq<u8>|
            data@ == #[trigger] chacha20_poly1305_seal_bytes(key@, nonce@, aad@, p)
                ==> r is Ok && r->Ok_0@ == p,
        r is Ok ==> data@ == chacha20_poly1305_seal_bytes(key@, nonce@, aad@, r->Ok_0@),
        r is Err ==> r->Err_0 == Error::DecryptionFailure,
{
    let unbound = ring::aead::UnboundKey::new(&ring::aead::CHACHA20_POLY1305, key).unwrap();
    let opening = ring::aead::LessSafeKey::new(unbound);
    let n = ring::aead::Nonce::try_assume_unique_for_key(nonce).unwrap();
    let mut buf = vstd::slice::slice_to_vec(data);
    match opening.open_in_place(n, ring::aead::Aad::from(aad), buf.as_mut_slice()) {
        Ok(plaintext) => Ok(plaintext.to_vec()),
        Err(_) => Err(Error::DecryptionFailure),
    }
}

/// The eight bytes of `x` in big-endian order.
pub open spec fn spec_u64_to_be_bytes(x: u64) -> Seq<u8> {
    seq![
        ((x >> 56) & 0xff) as u8,
        ((x >> 48) & 0xff) as u8,
        ((x >> 40) & 0xff) as u8,
        ((x >> 32) & 0xff) as u8,
        ((x >> 24) & 0xff) as u8,
        ((x >> 16) & 0xff) as u8,
        ((x >> 8) & 0xff) as u8,
        (x & 0xff) as u8,
    ]
}

/// Big-endian byte strings determine their source value.
pub proof fn lemma_u64_be_bytes_injective(x: u64, y: u64)
    requires
        spec_u64_to_be_bytes(x) == spec_u64_to_be_bytes(y),
    ensures
        x == y,
{
    let bx = spec_u64_to_be_bytes(x);
    let by = spec_u64_to_be_bytes(y);
    assert(bx[0] == by[0] && bx[1] == by[1] && bx[2] == by[2] && bx[3] == by[3] && bx[4]
        == by[4] && bx[5] == by[5] && bx[6] == by[6] && bx[7] == by[7]);
    assert(x == y) by (bit_vector)
        requires
            ((x >> 56) & 0xff) as u8 == ((y >> 56) & 0xff) as u8,
            ((x >> 48) & 0xff) as u8 == ((y >> 48) & 0xff) as u8,
            ((x >> 40) & 0xff) as u8 == ((y >> 40) & 0xff) as u8,
            ((x >> 32) & 0xff) as u8 == ((y >> 32) & 0xff) as u8,
            ((x >> 24) & 0xff) as u8 == ((y >> 24) & 0xff) as u8,
            ((x >> 16) & 0xff) as u8 == ((y >> 16) & 0xff) as u8,
            ((x >> 8) & 0xff) as u8 == ((y >> 8) & 0xff) as u8,
            (x & 0xff) as u8 == (y & 0xff) as u8,
    ;
}

/// The 96-bit nonce built from a prefix and a counter value.
pub open spec fn spec_nonce_of(prefix: Seq<u8>, counter: u64) -> Seq<u8> {
    prefix + spec_u64_to_be_bytes(counter)
}

/// Distinct counter values under the same prefix give distinct nonces, so a
/// counter that only grows can never repeat a (prefix, counter) pair.
pub proof fn lemma_nonce_distinct(prefix: Seq<u8>, c1: u64, c2: u64)
    requires
        c1 != c2,
    ensures
        spec_nonce_of(prefix, c1) != spec_nonce_of(prefix, c2),
{
    let n1 = spec_nonce_of(prefix, c1);
    let n2 = spec_nonce_of(prefix, c2);
    if n1 == n2 {
        let p = prefix.len() as int;
        assert forall|i: int| 0 <= i < 8 implies spec_u64_to_be_bytes(c1)[i] == spec_u64_to_be_bytes(
            c2,
        )[i] by {
            assert(n1[p + i] == n2[p + i]);
        }
        assert(spec_u64_to_be_bytes(c1) =~= spec_u64_to_be_bytes(c2));
        lemma_u64_be_bytes_injective(c1, c2);
    }
}

/// The nonce generator: a random per-vault prefix and a counter that only
/// ever increases while the key is unchanged.
pub struct CounterNonce {
    pub nonce_bytes: Vec<u8>,
    pub index: u64,
}

impl CounterNonce {
    pub open spec fn wf(self) -> bool {
        self.nonce_bytes@.len() == NONCE_PREFIX_LEN
    }

    /// A fresh generator: random prefix, counter at zero.
    pub fn new() -> (r: Result<CounterNonce, Error>)
        ensures
            r is Ok ==> r->Ok_0.wf() && r->Ok_0.index == 0,
            r is Err ==> r->Err_0 == Error::RandomUnavailable,
    {
        let nonce_bytes = random_bytes(NONCE_PREFIX_LEN)?;
        Ok(CounterNonce { nonce_bytes, index: 0 })
    }

    /// Steps the counter and hands out the next nonce.  At the end of the
    /// counter's range the generator refuses and stays unchanged: the pair
    /// must never wrap around to a value used before.
    pub fn advance(&mut self) -> (r: Result<Vec<u8>, Error>)
        requires
            old(self).wf(),
        ensures
            final(self).wf(),
            final(self).nonce_bytes == old(self).nonce_bytes,
            old(self).index == u64::MAX ==> r is Err && r->Err_0 == Error::NonceExhausted
                && *final(self) == *old(self),
            old(self).index < u64::MAX ==> r is Ok && final(self).index == old(self).index + 1
                && r->Ok_0@ == spec_nonce_of(old(self).nonce_bytes@, (old(self).index + 1) as u64),
    {
        if self.index == u64::MAX {
            return Err(Error::NonceExhausted);
        }
        self.index = self.index + 1;
        Ok(make_nonce(&self.nonce_bytes, self.index))
    }
}

/// The concrete nonce bytes for a prefix and a counter value.
pub fn make_nonce(prefix: &Vec<u8>, counter: u64) -> (v: Vec<u8>)
    requires
        prefix@.len() == NONCE_PREFIX_LEN,
    ensures
        v@ == spec_nonce_of(prefix@, counter),
        v@.len() == NONCE_LEN,
{
    let mut v: Vec<u8> = Vec::new();
    let mut i: usize = 0;
    while i < 4
        invariant
            prefix@.len() == 4,
            i <= 4,
            v@ =~= prefix@.take(i as int),
        decreases 4 - i,
    {
        v.push(prefix[i]);
        i = i + 1;
    }
    let x = counter;
    assert((x >> 56) & 0xff < 256 && (x >> 48) & 0xff < 256 && (x >> 40) & 0xff < 256 && (x >> 32)
        & 0xff < 256 && (x >> 24) & 0xff < 256 && (x >> 16) & 0xff < 256 && (x >> 8) & 0xff < 256
        && x & 0xff < 256) by (bit_vector);
    v.push(((x >> 56) & 0xff) as u8);
    v.push(((x >> 48) & 0xff) as u8);
    v.push(((x >> 40) & 0xff) as u8);
    v.push(((x >> 32) & 0xff) as u8);
    v.push(((x >> 24) & 0xff) as u8);
    v.push(((x >> 16) & 0xff) as u8);
    v.push(((x >> 8) & 0xff) as u8);
    v.push((x & 0xff) as u8);
    proof {
        assert(prefix@.take(4) =~= prefix@);
        assert(v@ =~= spec_nonce_of(prefix@, counter));
    }
    v
}

/// The authenticated-encryption envelope around the serialized secret map:
/// a fixed random domain tag used as associated data, the nonce generator,
/// the current ciphertext-and-tag bytes, and the counter value that was
/// used to produce them.
pub struct EncryptedPasswords {
    pub aad: Vec<u8>,
    pub nonce_sequence: CounterNonce,
    pub data: Vec<u8>,
    pub index: u64,
}

impl EncryptedPasswords {
    pub open spec fn wf(self) -> bool {
        &&& self.aad@.len() == AAD_LEN
        &&& self.nonce_sequence.wf()
        &&& self.index <= self.nonce_sequence.index
    }

    /// The stored bytes are exactly what sealing `plaintext` under `key`
    /// with this envelope's own nonce and domain tag produces.
    pub open spec fn sealed_with(self, key: Seq<u8>, plaintext: Seq<u8>) -> bool {
        self.data@ == chacha20_poly1305_seal_bytes(
            key,
            spec_nonce_of(self.nonce_sequence.nonce_bytes@, self.index),
            self.aad@,
            plaintext,
        )
    }

    /// All fields that persist across seal calls: the domain tag and the
    /// nonce prefix are generated once per vault and never change after.
    pub open spec fn same_envelope(self, other: EncryptedPasswords) -> bool {
        &&& self.aad == other.aad
        &&& self.nonce_sequence.nonce_bytes == other.nonce_sequence.nonce_bytes
    }

    /// A fresh envelope: random domain tag and nonce prefix, counter at
    /// zero, no ciphertext yet.
    pub fn new() -> (r: Result<EncryptedPasswords, Error>)
        ensures
            r is Ok ==> {
                &&& r->Ok_0.wf()
                &&& r->Ok_0.nonce_sequence.index == 0
                &&& r->Ok_0.index == 0
                &&& r->Ok_0.data@.len() == 0
            },
            r is Err ==> r->Err_0 == Error::RandomUnavailable,
    {
        let nonce_sequence = CounterNonce::new()?;
        let aad = random_bytes(AAD_LEN)?;
        Ok(EncryptedPasswords { aad, nonce_sequence, data: Vec::new(), index: 0 })
    }

    /// Seals `data` under `key` with the next nonce: the counter strictly
    /// increases, and the new ciphertext is recorded together with the
    /// counter value that produced it.  When the counter has reached the
    /// end of its range the envelope refuses and nothing is mutated.
    pub fn encrypt_data(&mut self, key: &[u8], data: Vec<u8>) -> (r: Result<(), Error>)
        requires
            old(self).wf(),
            key@.len() == 32,
            data@.len() <= MAX_PLAINTEXT_LEN,
        ensures
            final(self).same_envelope(*old(self)),
            old(self).nonce_sequence.index == u64::MAX ==> r is Err && r->Err_0
                == Error::NonceExhausted && *final(self) == *old(self),
            old(self).nonce_sequence.index < u64::MAX ==> {
                &&& r is Ok
                &&& final(self).wf()
                &&& final(self).nonce_sequence.index == old(self).nonce_sequence.index + 1
                &&& final(self).index == final(self).nonce_sequence.index
                &&& final(self).sealed_with(key@, data@)
                &&& final(self).data@.len() == data@.len() + TAG_LEN
            },
    {
        let nonce = self.nonce_sequence.advance()?;
        let mut buf = data;
        chacha_seal(key, nonce.as_slice(), self.aad.as_slice(), &mut buf);
        self.data = buf;
        self.index = self.nonce_sequence.index;
        Ok(())
    }

    /// The first seal of a fresh envelope, consuming and returning it.
    pub fn initialise_data(self, key: &[u8], data: Vec<u8>) -> (r: Result<EncryptedPasswords, Error>)
        requires
            self.wf(),
            key@.len() == 32,
            data@.len() <= MAX_PLAINTEXT_LEN,
            self.nonce_sequence.index < u64::MAX,
        ensures
            r is Ok,
            r->Ok_0.wf(),
            r->Ok_0.same_envelope(self),
            r->Ok_0.nonce_sequence.index == self.nonce_sequence.index + 1,
            r->Ok_0.index == r->Ok_0.nonce_sequence.index,
            r->Ok_0.sealed_with(key@, data@),
    {
        let mut envelope = self;
        envelope.encrypt_data(key, data)?;
        Ok(envelope)
    }

    /// Opens the stored ciphertext under `key`, rebuilding the nonce from
    /// the stored prefix and counter.  Succeeds with the original bytes
    /// exactly when the ciphertext was sealed under this key and envelope;
    /// a wrong key or corrupted bytes give a decryption failure.
    pub fn decrypt(&self, key: &[u8]) -> (r: Result<Vec<u8>, Error>)
        requires
            self.wf(),
            key@.len() == 32,
        ensures
            forall|p: Seq<u8>| #[trigger] self.sealed_with(key@, p) ==> r is Ok && r->Ok_0@ == p,
            r is Ok ==> self.sealed_with(key@, r->Ok_0@),
            r is Err ==> r->Err_0 == Error::DecryptionFailure,
    {
        let nonce = make_nonce(&self.nonce_sequence.nonce_bytes, self.index);
        chacha_open(key, nonce.as_slice(), self.aad.as_slice(), self.data.as_slice())
    }
}

} // verus!
