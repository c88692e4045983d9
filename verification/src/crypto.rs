//! Deterministic keypairs for testing signature checks.
//!
//! A keypair is generated from a numeric seed, so that a test gets the same key
//! on every run and every machine: an Ed25519 key from 32 seed bytes derived from
//! the number, a secp256k1 or secp256r1 key drawn from a ChaCha8 generator
//! seeded with it. Keys are held as plain bytes: an ECDSA public key as its
//! 64-byte `X || Y` coordinates.
//!
//! The key arithmetic and the signatures come from `ed25519-dalek`, `k256` and
//! `p256`; what this module states of them is only which bytes go in and that
//! the same bytes come out for the same inputs.
use vstd::prelude::*;
use crate::text::push_char;

verus! {

/// Supported curves for mock signature generation.
#[derive(Debug, Clone, Copy, PartialEq, Eq, Structural, Hash)]
pub enum CryptoCurve {
    Ed25519,
    Secp256k1,
    Secp256r1,
}

/// A deterministic keypair for mock crypto testing.
#[derive(Debug, Clone)]
pub struct MockKeyPair {
    pub curve: CryptoCurve,
    pub seed: u64,
    pub public_key_bytes: Vec<u8>,
    pub secret_key_bytes: Vec<u8>,
}

// ── What the curve crates compute ───────────────────────────────────────────

pub open spec fn sig_view(r: Option<[u8; 64]>) -> Option<Seq<u8>> {
    match r {
        Some(s) => Some(s@),
        None => None,
    }
}

pub open spec fn recoverable_view(r: Option<([u8; 64], u8)>) -> Option<(Seq<u8>, u8)> {
    match r {
        Some(p) => Some((p.0@, p.1)),
        None => None,
    }
}

/// The Ed25519 public key of a 32-byte secret key.
pub uninterp spec fn ed25519_public_key_of(secret: Seq<u8>) -> Seq<u8>;

/// The Ed25519 signature of `message` under a 32-byte secret key.
pub uninterp spec fn ed25519_signature_of(secret: Seq<u8>, message: Seq<u8>) -> Seq<u8>;

/// The secp256k1 secret key (32 bytes) and SEC1 uncompressed public key
/// (65 bytes) drawn from a ChaCha8 generator seeded with `seed`.
pub uninterp spec fn secp256k1_key_from_seed(seed: u64) -> (Seq<u8>, Seq<u8>);

/// The same for secp256r1.
pub uninterp spec fn secp256r1_key_from_seed(seed: u64) -> (Seq<u8>, Seq<u8>);

/// The secp256k1 signature of `message` under `secret`; `None` when the bytes
/// are not a valid secret key.
pub uninterp spec fn secp256k1_signature_of(secret: Seq<u8>, message: Seq<u8>) -> Option<Seq<u8>>;

/// The secp256k1 signature of a 32-byte digest with its recovery id; `None`
/// when the bytes are not a valid secret key or signing fails.
pub uninterp spec fn secp256k1_recoverable_of(secret: Seq<u8>, digest: Seq<u8>) -> Option<
    (Seq<u8>, u8),
>;

/// The secp256r1 signature of `message` under `secret`; `None` when the bytes
/// are not a valid secret key.
pub uninterp spec fn secp256r1_signature_of(secret: Seq<u8>, message: Seq<u8>) -> Option<Seq<u8>>;

/// The secp256r1 signature of a 32-byte digest; `None` when the bytes are not
/// a valid secret key or signing fails.
pub uninterp spec fn secp256r1_prehash_signature_of(secret: Seq<u8>, digest: Seq<u8>) -> Option<
    Seq<u8>,
>;

/// `ed25519_dalek::SigningKey::from_bytes`, read back through
/// `verifying_key().to_bytes()` and `to_bytes()`: the public key, named, and
/// the secret key, which the crate's source shows is the bytes it was made from.
#[verifier::external_body]
fn ed25519_signing_key(secret: [u8; 32]) -> (r: ([u8; 32], [u8; 32]))
    ensures
        r.0@ == ed25519_public_key_of(secret@),
        r.1@ == secret@,
{
    let key = ed25519_dalek::SigningKey::from_bytes(&secret);
    (key.verifying_key().to_bytes(), key.to_bytes())
}

/// `ed25519_dalek::Signer::sign` with the key made from `secret`: the 64-byte
/// signature, named.
#[verifier::external_body]
fn ed25519_sign(secret: [u8; 32], message: &[u8]) -> (r: [u8; 64])
    ensures
        r@ == ed25519_signature_of(secret@, message@),
{
    let key = ed25519_dalek::SigningKey::from_bytes(&secret);
    ed25519_dalek::Signer::sign(&key, message).to_bytes()
}

/// `k256::ecdsa::SigningKey::random` with a `ChaCha8Rng` seeded by
/// `seed_from_u64(seed)`: the secret key (`to_bytes`) and the SEC1 uncompressed
/// encoding of its public key (`to_encoded_point(false)`), named. The source
/// shows the encoding is 65 bytes with the tag `0x04` first.
#[verifier::external_body]
fn secp256k1_random_key(seed: u64) -> (r: ([u8; 32], [u8; 65]))
    ensures
        (r.0@, r.1@) == secp256k1_key_from_seed(seed),
        r.1[0] == 4,
{
    let mut rng = <rand_chacha::ChaCha8Rng as rand::SeedableRng>::seed_from_u64(seed);
    let key = k256::ecdsa::SigningKey::random(&mut rng);
    let point = k256::ecdsa::VerifyingKey::from(&key).to_encoded_point(false);
    let mut public = [0u8; 65];
    public.copy_from_slice(point.as_bytes());
    (key.to_bytes().into(), public)
}

/// `p256::ecdsa::SigningKey::random`, as for secp256k1.
#[verifier::external_body]
fn secp256r1_random_key(seed: u64) -> (r: ([u8; 32], [u8; 65]))
    ensures
        (r.0@, r.1@) == secp256r1_key_from_seed(seed),
        r.1[0] == 4,
{
    let mut rng = <rand_chacha::ChaCha8Rng as rand::SeedableRng>::seed_from_u64(seed);
    let key = p256::ecdsa::SigningKey::random(&mut rng);
    let point = p256::ecdsa::VerifyingKey::from(&key).to_encoded_point(false);
    let mut public = [0u8; 65];
    public.copy_from_slice(point.as_bytes());
    (key.to_bytes().into(), public)
}

/// `k256::ecdsa::SigningKey::from_slice` and `Signer::sign`: the 64-byte
/// signature, or `None` when `from_slice` refuses the key; named.
#[verifier::external_body]
fn secp256k1_sign(secret: &[u8], message: &[u8]) -> (r: Option<[u8; 64]>)
    ensures
        sig_view(r) == secp256k1_signature_of(secret@, message@),
{
    match k256::ecdsa::SigningKey::from_slice(secret) {
        Ok(key) => {
            let sig: k256::ecdsa::Signature = k256::ecdsa::signature::Signer::sign(&key, message);
            Some(sig.to_bytes().into())
        },
        Err(_) => None,
    }
}

/// `k256::ecdsa::SigningKey::sign_prehash_recoverable`: the 64-byte signature
/// and the recovery id's byte, or `None` when the key or the signing is
/// refused; named. The source shows a recovery id is below 4.
#[verifier::external_body]
fn secp256k1_sign_recoverable(secret: &[u8], digest: &[u8; 32]) -> (r: Option<([u8; 64], u8)>)
    ensures
        recoverable_view(r) == secp256k1_recoverable_of(secret@, digest@),
        r matches Some(p) ==> p.1 < 4,
{
    match k256::ecdsa::SigningKey::from_slice(secret) {
        Ok(key) => match key.sign_prehash_recoverable(digest) {
            Ok((sig, id)) => Some((sig.to_bytes().into(), id.to_byte())),
            Err(_) => None,
        },
        Err(_) => None,
    }
}

/// `p256::ecdsa::SigningKey::from_slice` and `Signer::sign`, as for secp256k1.
#[verifier::external_body]
fn secp256r1_sign(secret: &[u8], message: &[u8]) -> (r: Option<[u8; 64]>)
    ensures
        sig_view(r) == secp256r1_signature_of(secret@, message@),
{
    match p256::ecdsa::SigningKey::from_slice(secret) {
        Ok(key) => {
            let sig: p256::ecdsa::Signature = p256::ecdsa::signature::Signer::sign(&key, message);
            Some(sig.to_bytes().into())
        },
        Err(_) => None,
    }
}

/// `p256::ecdsa::SigningKey::sign_prehash`: the 64-byte signature of a digest,
/// or `None` when the key or the signing is refused; named.
#[verifier::external_body]
fn secp256r1_sign_prehash(secret: &[u8], digest: &[u8; 32]) -> (r: Option<[u8; 64]>)
    ensures
        sig_view(r) == secp256r1_prehash_signature_of(secret@, digest@),
{
    match p256::ecdsa::SigningKey::from_slice(secret) {
        Ok(key) => match p256::ecdsa::signature::hazmat::PrehashSigner::<
            p256::ecdsa::Signature,
        >::sign_prehash(&key, digest) {
            Ok(sig) => Some(sig.to_bytes().into()),
            Err(_) => None,
        },
        Err(_) => None,
    }
}

// ── Seeds and byte layouts ──────────────────────────────────────────────────

pub open spec fn pow256(k: nat) -> nat
    decreases k,
{
    if k == 0 {
        1
    } else {
        256 * pow256((k - 1) as nat)
    }
}

/// Byte `k` (0 to 7) of `seed` in little-endian order.
pub open spec fn le_byte(seed: u64, k: nat) -> u8 {
    ((seed as nat / pow256(k)) % 256) as u8
}

/// Byte `i` of the 32-byte Ed25519 secret derived from `seed`: the seed's
/// eight little-endian bytes, then each later byte the one eight places back
/// plus its own position, wrapping.
pub open spec fn ed25519_seed_byte(seed: u64, i: nat) -> u8 {
    if i < 8 {
        le_byte(seed, i)
    } else {
        ((le_byte(seed, i % 8) + i) % 256) as u8
    }
}

pub open spec fn ed25519_seed_bytes(seed: u64) -> Seq<u8> {
    Seq::new(32, |i: int| ed25519_seed_byte(seed, i as nat))
}

/// The 32 bytes an Ed25519 key is made from for `seed`.
pub fn ed25519_seed(seed: u64) -> (r: [u8; 32])
    ensures
        r@ == ed25519_seed_bytes(seed),
{
    let mut bytes = [0u8; 32];
    let mut d: u64 = 1;
    let mut k: usize = 0;
    while k < 8
        invariant
            k <= 8,
            d >= 1,
            k < 8 ==> d == pow256(k as nat),
            bytes@.len() == 32,
            forall|j: int| 0 <= j < k ==> bytes@[j] == le_byte(seed, j as nat),
        decreases 8 - k,
    {
        bytes[k] = ((seed / d) % 256) as u8;
        if k < 7 {
            proof {
                assert(pow256((k + 1) as nat) == 256 * pow256(k as nat));
                lemma_pow256_small(k as nat);
            }
            d = d * 256;
        }
        k = k + 1;
    }
    let mut i: usize = 8;
    while i < 32
        invariant
            8 <= i <= 32,
            bytes@.len() == 32,
            forall|j: int| 0 <= j < 8 ==> bytes@[j] == le_byte(seed, j as nat),
            forall|j: int| 8 <= j < i ==> bytes@[j] == ed25519_seed_byte(seed, j as nat),
        decreases 32 - i,
    {
        let prev = bytes[i % 8];
        bytes[i] = prev.wrapping_add(i as u8);
        i = i + 1;
    }
    proof {
        assert(bytes@ =~= ed25519_seed_bytes(seed));
    }
    bytes
}

proof fn lemma_pow256_small(k: nat)
    requires
        k < 7,
    ensures
        256 * pow256(k) <= u64::MAX,
    decreases k,
{
    reveal_with_fuel(pow256, 8);
    if k > 0 {
        lemma_pow256_small((k - 1) as nat);
    }
}

/// `bytes` without its first element, as a new vector.
fn drop_first(bytes: &[u8]) -> (r: Vec<u8>)
    requires
        bytes@.len() >= 1,
    ensures
        r@ == bytes@.drop_first(),
{
    let mut out: Vec<u8> = Vec::new();
    let mut i: usize = 1;
    while i < bytes.len()
        invariant
            1 <= i <= bytes@.len(),
            out@ == bytes@.subrange(1, i as int),
        decreases bytes@.len() - i,
    {
        out.push(bytes[i]);
        proof {
            assert(bytes@.subrange(1, i + 1) =~= bytes@.subrange(1, i as int).push(bytes@[i as int]));
        }
        i = i + 1;
    }
    proof {
        assert(bytes@.subrange(1, bytes@.len() as int) =~= bytes@.drop_first());
    }
    out
}

fn to_vec(bytes: &[u8]) -> (r: Vec<u8>)
    ensures
        r@ == bytes@,
{
    let mut out: Vec<u8> = Vec::new();
    let mut i: usize = 0;
    while i < bytes.len()
        invariant
            i <= bytes@.len(),
            out@ == bytes@.take(i as int),
        decreases bytes@.len() - i,
    {
        out.push(bytes[i]);
        proof {
            assert(bytes@.take(i + 1) =~= bytes@.take(i as int).push(bytes@[i as int]));
        }
        i = i + 1;
    }
    proof {
        assert(bytes@.take(bytes@.len() as int) =~= bytes@);
    }
    out
}

/// The 32 bytes of a vector that holds exactly 32.
fn to_array32(bytes: &Vec<u8>) -> (r: [u8; 32])
    requires
        bytes@.len() == 32,
    ensures
        r@ == bytes@,
{
    let mut out = [0u8; 32];
    let mut i: usize = 0;
    while i < 32
        invariant
            i <= 32,
            bytes@.len() == 32,
            out@.len() == 32,
            forall|j: int| 0 <= j < i ==> out@[j] == bytes@[j],
        decreases 32 - i,
    {
        out[i] = bytes[i];
        i = i + 1;
    }
    proof {
        assert(out@ =~= bytes@);
    }
    out
}

/// A signature with its last byte inverted: one that no valid signature
/// equals, for negative tests.
pub open spec fn corrupted_bytes(sig: Seq<u8>) -> Seq<u8> {
    sig.update(63, sig[63] ^ 0xffu8)
}

/// Inverts the last byte of a signature.
pub fn corrupted(signature: [u8; 64]) -> (r: [u8; 64])
    ensures
        r@ == corrupted_bytes(signature@),
{
    let mut out = signature;
    out[63] = out[63] ^ 0xff;
    proof {
        assert(out@ =~= corrupted_bytes(signature@));
    }
    out
}

/// A corrupted signature never equals the signature it came from, and
/// corrupting it again gives the original back.
pub proof fn lemma_corruption_flips_last_byte(sig: Seq<u8>)
    requires
        sig.len() == 64,
    ensures
        corrupted_bytes(sig) != sig,
        corrupted_bytes(corrupted_bytes(sig)) == sig,
{
    let b = sig[63];
    assert(b ^ 0xffu8 != b) by (bit_vector);
    assert((b ^ 0xffu8) ^ 0xffu8 == b) by (bit_vector);
    assert(corrupted_bytes(sig)[63] != sig[63]);
    assert(corrupted_bytes(corrupted_bytes(sig)) =~= sig);
}

// ── Keypairs ────────────────────────────────────────────────────────────────

/// The SEC1 uncompressed encoding of 64 coordinate bytes: the tag `0x04`, then
/// the coordinates.
pub open spec fn sec1_of(coords: Seq<u8>) -> Seq<u8> {
    seq![4u8] + coords
}

/// `kp` is the keypair generated on `curve` from `seed`.
pub open spec fn generated(curve: CryptoCurve, seed: u64, kp: MockKeyPair) -> bool {
    &&& kp.curve == curve
    &&& kp.seed == seed
    &&& match curve {
        CryptoCurve::Ed25519 => kp.secret_key_bytes@ == ed25519_seed_bytes(seed)
            && kp.public_key_bytes@ == ed25519_public_key_of(ed25519_seed_bytes(seed)),
        CryptoCurve::Secp256k1 => kp.secret_key_bytes@ == secp256k1_key_from_seed(seed).0
            && kp.public_key_bytes@ == secp256k1_key_from_seed(seed).1.drop_first(),
        CryptoCurve::Secp256r1 => kp.secret_key_bytes@ == secp256r1_key_from_seed(seed).0
            && kp.public_key_bytes@ == secp256r1_key_from_seed(seed).1.drop_first(),
    }
}

/// A keypair's signature of `message`, as the curve crate computes it;
/// `None` when its secret bytes are not a key of its curve.
pub open spec fn signature_spec(kp: MockKeyPair, message: Seq<u8>) -> Option<Seq<u8>> {
    match kp.curve {
        CryptoCurve::Ed25519 => if kp.secret_key_bytes@.len() == 32 {
            Some(ed25519_signature_of(kp.secret_key_bytes@, message))
        } else {
            None
        },
        CryptoCurve::Secp256k1 => secp256k1_signature_of(kp.secret_key_bytes@, message),
        CryptoCurve::Secp256r1 => secp256r1_signature_of(kp.secret_key_bytes@, message),
    }
}

/// A keypair's signature of a 32-byte digest; Ed25519 signs whole messages
/// only, so it has none.
pub open spec fn prehash_signature_spec(kp: MockKeyPair, digest: Seq<u8>) -> Option<Seq<u8>> {
    match kp.curve {
        CryptoCurve::Ed25519 => None,
        CryptoCurve::Secp256k1 => match secp256k1_recoverable_of(kp.secret_key_bytes@, digest) {
            Some(p) => Some(p.0),
            None => None,
        },
        CryptoCurve::Secp256r1 => secp256r1_prehash_signature_of(kp.secret_key_bytes@, digest),
    }
}

impl MockKeyPair {
    /// A deterministic Ed25519 keypair from a numeric seed.
    pub fn generate_ed25519(seed: u64) -> (r: Self)
        ensures
            generated(CryptoCurve::Ed25519, seed, r),
    {
        let seed_bytes = ed25519_seed(seed);
        let (public, secret) = ed25519_signing_key(seed_bytes);
        MockKeyPair {
            curve: CryptoCurve::Ed25519,
            seed,
            public_key_bytes: to_vec(&public),
            secret_key_bytes: to_vec(&secret),
        }
    }

    /// A deterministic secp256k1 keypair from a numeric seed; the public key
    /// is held as its 64 coordinate bytes.
    pub fn generate_secp256k1(seed: u64) -> (r: Self)
        ensures
            generated(CryptoCurve::Secp256k1, seed, r),
            sec1_of(r.public_key_bytes@) == secp256k1_key_from_seed(seed).1,
    {
        let (secret, public) = secp256k1_random_key(seed);
        let coords = drop_first(&public);
        proof {
            assert(sec1_of(coords@) =~= public@);
        }
        MockKeyPair {
            curve: CryptoCurve::Secp256k1,
            seed,
            public_key_bytes: coords,
            secret_key_bytes: to_vec(&secret),
        }
    }

    /// A deterministic secp256r1 keypair from a numeric seed; the public key
    /// is held as its 64 coordinate bytes.
    pub fn generate_secp256r1(seed: u64) -> (r: Self)
        ensures
            generated(CryptoCurve::Secp256r1, seed, r),
            sec1_of(r.public_key_bytes@) == secp256r1_key_from_seed(seed).1,
    {
        let (secret, public) = secp256r1_random_key(seed);
        let coords = drop_first(&public);
        proof {
            assert(sec1_of(coords@) =~= public@);
        }
        MockKeyPair {
            curve: CryptoCurve::Secp256r1,
            seed,
            public_key_bytes: coords,
            secret_key_bytes: to_vec(&secret),
        }
    }

    /// A deterministic keypair on `curve` from a numeric seed.
    pub fn generate(curve: CryptoCurve, seed: u64) -> (r: Self)
        ensures
            generated(curve, seed, r),
    {
        match curve {
            CryptoCurve::Ed25519 => MockKeyPair::generate_ed25519(seed),
            CryptoCurve::Secp256k1 => MockKeyPair::generate_secp256k1(seed),
            CryptoCurve::Secp256r1 => MockKeyPair::generate_secp256r1(seed),
        }
    }

    /// The public key in SEC1 uncompressed form: `0x04`, then the 64
    /// coordinate bytes.
    pub fn public_key_sec1(&self) -> (r: Vec<u8>)
        requires
            self.public_key_bytes@.len() == 64,
        ensures
            r@ == sec1_of(self.public_key_bytes@),
    {
        let mut out: Vec<u8> = Vec::new();
        out.push(4u8);
        let mut i: usize = 0;
        while i < self.public_key_bytes.len()
            invariant
                i <= self.public_key_bytes@.len(),
                out@ == seq![4u8] + self.public_key_bytes@.take(i as int),
            decreases self.public_key_bytes@.len() - i,
        {
            out.push(self.public_key_bytes[i]);
            proof {
                assert(self.public_key_bytes@.take(i + 1) =~= self.public_key_bytes@.take(
                    i as int,
                ).push(self.public_key_bytes@[i as int]));
            }
            i = i + 1;
        }
        proof {
            assert(self.public_key_bytes@.take(self.public_key_bytes@.len() as int)
                =~= self.public_key_bytes@);
        }
        out
    }

    /// The 64-byte signature of `message`; `None` when the secret bytes are
    /// not a key of the keypair's curve.
    pub fn signature(&self, message: &[u8]) -> (r: Option<[u8; 64]>)
        ensures
            sig_view(r) == signature_spec(*self, message@),
    {
        match self.curve {
            CryptoCurve::Ed25519 => {
                if self.secret_key_bytes.len() == 32 {
                    let secret = to_array32(&self.secret_key_bytes);
                    Some(ed25519_sign(secret, message))
                } else {
                    None
                }
            },
            CryptoCurve::Secp256k1 => secp256k1_sign(self.secret_key_bytes.as_slice(), message),
            CryptoCurve::Secp256r1 => secp256r1_sign(self.secret_key_bytes.as_slice(), message),
        }
    }

    /// The 64-byte signature of a pre-computed digest, signed as it is; `None`
    /// for Ed25519, which signs whole messages, or when the secret bytes are
    /// refused.
    pub fn prehash_signature(&self, message_digest: &[u8; 32]) -> (r: Option<[u8; 64]>)
        ensures
            sig_view(r) == prehash_signature_spec(*self, message_digest@),
    {
        match self.curve {
            CryptoCurve::Ed25519 => None,
            CryptoCurve::Secp256k1 => {
                match secp256k1_sign_recoverable(self.secret_key_bytes.as_slice(), message_digest) {
                    Some(p) => Some(p.0),
                    None => None,
                }
            },
            CryptoCurve::Secp256r1 => secp256r1_sign_prehash(
                self.secret_key_bytes.as_slice(),
                message_digest,
            ),
        }
    }

    /// The secp256k1 signature of a digest with its recovery id; `None` for
    /// other curves, or when the secret bytes are refused.
    pub fn prehash_recoverable_signature(&self, message_digest: &[u8; 32]) -> (r: Option<
        ([u8; 64], u32),
    >)
        ensures
            self.curve != CryptoCurve::Secp256k1 ==> r is None,
            self.curve == CryptoCurve::Secp256k1 ==> match r { Some(p) => Some((p.0@, p.1 as u8)), None => None }
                == secp256k1_recoverable_of(self.secret_key_bytes@, message_digest@),
            r matches Some(p) ==> p.1 < 4,
    {
        if self.curve != CryptoCurve::Secp256k1 {
            return None;
        }
        match secp256k1_sign_recoverable(self.secret_key_bytes.as_slice(), message_digest) {
            Some(p) => Some((p.0, p.1 as u32)),
            None => None,
        }
    }
}

/// The SEC1 form rebuilt from a generated ECDSA keypair's coordinates is the
/// encoding the curve crate produced.
pub proof fn lemma_sec1_round_trip(encoded: Seq<u8>)
    requires
        encoded.len() == 65,
        encoded[0] == 4,
    ensures
        sec1_of(encoded.drop_first()) == encoded,
{
    assert(sec1_of(encoded.drop_first()) =~= encoded);
}

// ── A registry of named keypairs ────────────────────────────────────────────

/// Named keypairs, each name at most once.
#[derive(Debug, Clone)]
pub struct MockCryptoRegistry {
    keypairs: Vec<(String, MockKeyPair)>,
}

/// The map from name to keypair that a list of entries with distinct names holds.
pub open spec fn entries_map(s: Seq<(String, MockKeyPair)>) -> Map<Seq<char>, MockKeyPair>
    decreases s.len(),
{
    if s.len() == 0 {
        Map::empty()
    } else {
        entries_map(s.drop_last()).insert(s.last().0@, s.last().1)
    }
}

pub open spec fn distinct_names(s: Seq<(String, MockKeyPair)>) -> bool {
    forall|i: int, j: int| 0 <= i < j < s.len() ==> s[i].0@ != s[j].0@
}

proof fn lemma_entries_map_dom(s: Seq<(String, MockKeyPair)>, k: Seq<char>)
    ensures
        entries_map(s).dom().contains(k) <==> exists|i: int| 0 <= i < s.len() && #[trigger] s[i].0@ == k,
    decreases s.len(),
{
    if s.len() > 0 {
        let init = s.drop_last();
        lemma_entries_map_dom(init, k);
        if exists|i: int| 0 <= i < s.len() && #[trigger] s[i].0@ == k {
            let i = choose|i: int| 0 <= i < s.len() && #[trigger] s[i].0@ == k;
            if i < s.len() - 1 {
                assert(init[i].0@ == k);
            }
        }
        if exists|i: int| 0 <= i < init.len() && #[trigger] init[i].0@ == k {
            let i = choose|i: int| 0 <= i < init.len() && #[trigger] init[i].0@ == k;
            assert(s[i].0@ == k);
        }
    }
}

proof fn lemma_entries_map_get(s: Seq<(String, MockKeyPair)>, i: int)
    requires
        distinct_names(s),
        0 <= i < s.len(),
    ensures
        entries_map(s).dom().contains(s[i].0@),
        entries_map(s)[s[i].0@] == s[i].1,
    decreases s.len(),
{
    let init = s.drop_last();
    if i < s.len() - 1 {
        lemma_entries_map_get(init, i);
        assert(init[i] == s[i]);
    }
}

proof fn lemma_entries_map_update(
    s: Seq<(String, MockKeyPair)>,
    i: int,
    e: (String, MockKeyPair),
)
    requires
        distinct_names(s),
        0 <= i < s.len(),
        e.0@ == s[i].0@,
    ensures
        entries_map(s.update(i, e)) == entries_map(s).insert(e.0@, e.1),
        distinct_names(s.update(i, e)),
    decreases s.len(),
{
    let t = s.update(i, e);
    let init = s.drop_last();
    assert(t.drop_last() =~= if i < s.len() - 1 {
        init.update(i, e)
    } else {
        init
    });
    if i < s.len() - 1 {
        lemma_entries_map_update(init, i, e);
        assert(entries_map(t) =~= entries_map(s).insert(e.0@, e.1));
    } else {
        lemma_entries_map_dom(init, e.0@);
        assert(!entries_map(init).dom().contains(e.0@));
        assert(entries_map(t) =~= entries_map(s).insert(e.0@, e.1));
    }
}

fn same_name(a: &String, b: &str) -> (r: bool)
    ensures
        r == (a@ == b@),
{
    let owned = String::from_str(b);
    *a == owned
}

impl MockCryptoRegistry {
    /// The keypairs by name.
    pub closed spec fn view_map(self) -> Map<Seq<char>, MockKeyPair> {
        entries_map(self.keypairs@)
    }

    pub closed spec fn wf(self) -> bool {
        distinct_names(self.keypairs@)
    }

    /// An empty registry.
    pub fn new() -> (r: Self)
        ensures
            r.wf(),
            r.view_map() == Map::<Seq<char>, MockKeyPair>::empty(),
    {
        MockCryptoRegistry { keypairs: Vec::new() }
    }

    /// The position of `name`, if registered.
    fn find(&self, name: &str) -> (r: Option<usize>)
        requires
            self.wf(),
        ensures
            r is None <==> !self.view_map().dom().contains(name@),
            r matches Some(i) ==> i < self.keypairs@.len() && self.keypairs@[i as int].0@ == name@,
    {
        let mut i: usize = 0;
        while i < self.keypairs.len()
            invariant
                i <= self.keypairs@.len(),
                self.wf(),
                forall|k: int| 0 <= k < i ==> self.keypairs@[k].0@ != name@,
            decreases self.keypairs@.len() - i,
        {
            if same_name(&self.keypairs[i].0, name) {
                proof {
                    lemma_entries_map_get(self.keypairs@, i as int);
                }
                return Some(i);
            }
            i = i + 1;
        }
        proof {
            lemma_entries_map_dom(self.keypairs@, name@);
        }
        None
    }

    /// Registers `keypair` under `name`, replacing any keypair of that name.
    pub fn register(&mut self, name: &str, keypair: MockKeyPair)
        requires
            old(self).wf(),
        ensures
            final(self).wf(),
            final(self).view_map() == old(self).view_map().insert(name@, keypair),
    {
        let ghost before = self.keypairs@;
        let entry = (String::from_str(name), keypair);
        match self.find(name) {
            Some(i) => {
                proof {
                    lemma_entries_map_update(before, i as int, entry);
                }
                self.keypairs.set(i, entry);
            },
            None => {
                proof {
                    lemma_entries_map_dom(before, name@);
                    assert(before.push(entry).drop_last() =~= before);
                }
                self.keypairs.push(entry);
                proof {
                    assert forall|a: int, b: int| 0 <= a < b < self.keypairs@.len() implies self.keypairs@[a].0@
                        != self.keypairs@[b].0@ by {
                        if b == before.len() {
                            assert(before[a].0@ != name@);
                        }
                    }
                }
            },
        }
    }

    /// The keypair registered under `name`.
    pub fn get(&self, name: &str) -> (r: Option<&MockKeyPair>)
        requires
            self.wf(),
        ensures
            r is Some <==> self.view_map().dom().contains(name@),
            r matches Some(kp) ==> *kp == self.view_map()[name@],
    {
        match self.find(name) {
            Some(i) => {
                proof {
                    lemma_entries_map_get(self.keypairs@, i as int);
                }
                Some(&self.keypairs[i].1)
            },
            None => None,
        }
    }

    /// The keypair registered under `name`, generating one on `curve` from
    /// `seed` and registering it first when there is none.
    fn get_or_generate(&mut self, name: &str, curve: CryptoCurve, seed: u64) -> (r: &MockKeyPair)
        requires
            old(self).wf(),
        ensures
            final(self).wf(),
            old(self).view_map().dom().contains(name@) ==> final(self).view_map() == old(
                self,
            ).view_map() && *r == old(self).view_map()[name@],
            !old(self).view_map().dom().contains(name@) ==> generated(curve, seed, *r)
                && final(self).view_map() == old(self).view_map().insert(name@, *r),
    {
        if self.find(name).is_none() {
            let kp = MockKeyPair::generate(curve, seed);
            self.register(name, kp);
        }
        let i = self.find(name).unwrap();
        proof {
            lemma_entries_map_get(self.keypairs@, i as int);
        }
        &self.keypairs[i].1
    }

    /// The Ed25519 keypair named `name`, generated from `seed` and registered
    /// if there is none yet.
    pub fn ed25519_keypair(&mut self, name: &str, seed: u64) -> (r: &MockKeyPair)
        requires
            old(self).wf(),
        ensures
            final(self).wf(),
            old(self).view_map().dom().contains(name@) ==> final(self).view_map() == old(
                self,
            ).view_map() && *r == old(self).view_map()[name@],
            !old(self).view_map().dom().contains(name@) ==> generated(CryptoCurve::Ed25519, seed, *r)
                && final(self).view_map() == old(self).view_map().insert(name@, *r),
    {
        self.get_or_generate(name, CryptoCurve::Ed25519, seed)
    }

    /// The secp256k1 keypair named `name`, generated from `seed` and
    /// registered if there is none yet.
    pub fn secp256k1_keypair(&mut self, name: &str, seed: u64) -> (r: &MockKeyPair)
        requires
            old(self).wf(),
        ensures
            final(self).wf(),
            old(self).view_map().dom().contains(name@) ==> final(self).view_map() == old(
                self,
            ).view_map() && *r == old(self).view_map()[name@],
            !old(self).view_map().dom().contains(name@) ==> generated(CryptoCurve::Secp256k1, seed, *r)
                && final(self).view_map() == old(self).view_map().insert(name@, *r),
    {
        self.get_or_generate(name, CryptoCurve::Secp256k1, seed)
    }

    /// The secp256r1 keypair named `name`, generated from `seed` and
    /// registered if there is none yet.
    pub fn secp256r1_keypair(&mut self, name: &str, seed: u64) -> (r: &MockKeyPair)
        requires
            old(self).wf(),
        ensures
            final(self).wf(),
            old(self).view_map().dom().contains(name@) ==> final(self).view_map() == old(
                self,
            ).view_map() && *r == old(self).view_map()[name@],
            !old(self).view_map().dom().contains(name@) ==> generated(CryptoCurve::Secp256r1, seed, *r)
                && final(self).view_map() == old(self).view_map().insert(name@, *r),
    {
        self.get_or_generate(name, CryptoCurve::Secp256r1, seed)
    }
}

} // verus!
