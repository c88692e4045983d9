//! The zero-knowledge proof verifier contract: its errors, its input checks,
//! its pairing check and its storage.
use vstd::prelude::*;
use crate::zk::{lemma_wrapping_add, read_le, read_u64_le, wadd, wmul};

verus! {

/// Why a verifier call was refused.
#[derive(Copy, Clone, Debug, PartialEq, Eq, Structural, PartialOrd, Ord)]
pub enum ZkError {
    NotAdmin,
    CircuitNotFound,
    InvalidProofFormat,
    InvalidPublicInputs,
    VerificationFailed,
    AlreadyInitialized,
}

impl ZkError {
    /// The contract error code the host reports for this error.
    pub fn code(&self) -> (r: u32)
        ensures
            r == match *self {
                ZkError::NotAdmin => 1u32,
                ZkError::CircuitNotFound => 2,
                ZkError::InvalidProofFormat => 3,
                ZkError::InvalidPublicInputs => 4,
                ZkError::VerificationFailed => 5,
                ZkError::AlreadyInitialized => 6,
            },
    {
        match self {
            ZkError::NotAdmin => 1,
            ZkError::CircuitNotFound => 2,
            ZkError::InvalidProofFormat => 3,
            ZkError::InvalidPublicInputs => 4,
            ZkError::VerificationFailed => 5,
            ZkError::AlreadyInitialized => 6,
        }
    }
}

/// A contract that stores verification keys and checks proofs against them.
pub struct ZkVerifier;

/// The shape check a proof and its public inputs must pass before the pairing
/// check: every proof point at least 32 bytes, and one more IC element than
/// public inputs.
pub open spec fn proof_shape_spec(
    a_len: u32,
    b_len: u32,
    c_len: u32,
    ic_len: u32,
    input_count: u32,
) -> Result<(), ZkError> {
    if a_len < 32 || b_len < 32 || c_len < 32 {
        Err(ZkError::InvalidProofFormat)
    } else if ic_len as int != input_count as int + 1 {
        Err(ZkError::InvalidPublicInputs)
    } else {
        Ok(())
    }
}

/// Checks the lengths of a proof's points and of the verification key's IC
/// vector against the number of public inputs.
pub fn check_proof_shape(a_len: u32, b_len: u32, c_len: u32, ic_len: u32, input_count: u32) -> (r:
    Result<(), ZkError>)
    requires
        a_len >= 32 && b_len >= 32 && c_len >= 32 ==> input_count < u32::MAX,
    ensures
        r == proof_shape_spec(a_len, b_len, c_len, ic_len, input_count),
{
    if a_len < 32 || b_len < 32 || c_len < 32 {
        Err(ZkError::InvalidProofFormat)
    } else if ic_len != input_count + 1 {
        Err(ZkError::InvalidPublicInputs)
    } else {
        Ok(())
    }
}

/// A verification key must carry at least one IC element.
pub fn check_verification_key(ic_len: u32) -> (r: Result<(), ZkError>)
    ensures
        r == (if ic_len == 0 {
            Err(ZkError::InvalidPublicInputs)
        } else {
            Ok(())
        }),
{
    if ic_len == 0 {
        Err(ZkError::InvalidPublicInputs)
    } else {
        Ok(())
    }
}

// ── Proofs, keys and the pairing check ─────────────────────────────────────

/// A Groth16 proof as the verifier takes it: two encoded G1 points and an
/// encoded G2 point.
pub struct Proof {
    pub a: Vec<u8>,
    pub b: Vec<u8>,
    pub c: Vec<u8>,
}

/// A verification key as the verifier stores it, with one IC point per
/// public input plus one.
pub struct VerificationKey {
    pub alpha_g1: Vec<u8>,
    pub beta_g2: Vec<u8>,
    pub gamma_g2: Vec<u8>,
    pub delta_g2: Vec<u8>,
    pub ic: Vec<Vec<u8>>,
}

/// The leading little-endian word of a buffer, missing bytes read as zero.
pub open spec fn word(b: Vec<u8>) -> u64 {
    read_le(b@, 0)
}

/// The IC combination of the check: the first IC point's word plus, for each
/// of the first `k` public inputs, the input's word times the next IC point's,
/// all wrapping.
pub open spec fn ic_combination(ic: Seq<Vec<u8>>, inputs: Seq<Vec<u8>>, k: int) -> u64
    decreases k,
{
    if k <= 0 {
        word(ic[0])
    } else {
        wadd(
            ic_combination(ic, inputs, k - 1) as int,
            wmul(word(inputs[k - 1]) as int, word(ic[k]) as int) as int,
        )
    }
}

/// The verifier's pairing equation over the points' leading words, with
/// wrapping arithmetic: `a·b == α·β + L·γ + c·δ`, where `L` is the IC
/// combination. A proof with an empty point, or an empty public input, fails.
pub open spec fn pairing_equation(proof: Proof, vk: VerificationKey, inputs: Seq<Vec<u8>>) -> bool {
    &&& proof.a@.len() > 0
    &&& proof.b@.len() > 0
    &&& proof.c@.len() > 0
    &&& forall|i: int| 0 <= i < inputs.len() ==> (#[trigger] inputs[i])@.len() > 0
    &&& wmul(word(proof.a) as int, word(proof.b) as int) == wadd(
        wadd(
            wmul(word(vk.alpha_g1) as int, word(vk.beta_g2) as int) as int,
            wmul(ic_combination(vk.ic@, inputs, inputs.len() as int) as int, word(vk.gamma_g2) as int)
                as int,
        ) as int,
        wmul(word(proof.c) as int, word(vk.delta_g2) as int) as int,
    )
}

/// Checks `proof` against `vk` and the public inputs, as `pairing_equation`
/// says.
pub fn groth16_pairing_check(proof: &Proof, vk: &VerificationKey, public_inputs: &Vec<Vec<u8>>) -> (r:
    bool)
    requires
        vk.ic@.len() == public_inputs@.len() + 1,
    ensures
        r == pairing_equation(*proof, *vk, public_inputs@),
{
    if proof.a.len() == 0 || proof.b.len() == 0 || proof.c.len() == 0 {
        return false;
    }
    let n = public_inputs.len();
    let mut i: usize = 0;
    while i < n
        invariant
            n == public_inputs@.len(),
            i <= n,
            forall|j: int| 0 <= j < i ==> (#[trigger] public_inputs@[j])@.len() > 0,
        decreases n - i,
    {
        if public_inputs[i].len() == 0 {
            return false;
        }
        i = i + 1;
    }
    let a_x = read_u64_le(proof.a.as_slice(), 0);
    let b_x0 = read_u64_le(proof.b.as_slice(), 0);
    let c_x = read_u64_le(proof.c.as_slice(), 0);
    let alpha_x = read_u64_le(vk.alpha_g1.as_slice(), 0);
    let beta_x0 = read_u64_le(vk.beta_g2.as_slice(), 0);
    let gamma_x0 = read_u64_le(vk.gamma_g2.as_slice(), 0);
    let delta_x0 = read_u64_le(vk.delta_g2.as_slice(), 0);
    let mut l_x = read_u64_le(vk.ic[0].as_slice(), 0);
    let mut k: usize = 0;
    while k < n
        invariant
            n == public_inputs@.len(),
            vk.ic@.len() == n + 1,
            k <= n,
            l_x == ic_combination(vk.ic@, public_inputs@, k as int),
        decreases n - k,
    {
        let input = read_u64_le(public_inputs[k].as_slice(), 0);
        let ic_x = read_u64_le(vk.ic[k + 1].as_slice(), 0);
        let product = input.wrapping_mul(ic_x);
        proof {
            lemma_wrapping_add(l_x, product);
        }
        l_x = l_x.wrapping_add(product);
        k = k + 1;
    }
    let lhs = a_x.wrapping_mul(b_x0);
    let first = alpha_x.wrapping_mul(beta_x0);
    let second = l_x.wrapping_mul(gamma_x0);
    let third = c_x.wrapping_mul(delta_x0);
    proof {
        lemma_wrapping_add(first, second);
        lemma_wrapping_add(first.wrapping_add(second), third);
    }
    let rhs = first.wrapping_add(second).wrapping_add(third);
    lhs == rhs
}

// ── The contract's storage ─────────────────────────────────────────────────

/// The key registered for `circuit_id` in `keys`: the latest, if any.
pub open spec fn key_in(keys: Seq<(u64, VerificationKey)>, circuit_id: u64) -> Option<
    VerificationKey,
>
    decreases keys.len(),
{
    if keys.len() == 0 {
        None
    } else if keys.last().0 == circuit_id {
        Some(keys.last().1)
    } else {
        key_in(keys.drop_last(), circuit_id)
    }
}

/// What `verify_proof` answers for a circuit whose key is `key`: refused
/// without a key, for a point shorter than 32 bytes, or for a number of public
/// inputs the key does not take; else whether the pairing equation holds.
pub open spec fn verify_outcome(key: Option<VerificationKey>, proof: Proof, inputs: Seq<Vec<u8>>) -> Result<
    bool,
    ZkError,
> {
    match key {
        None => Err(ZkError::CircuitNotFound),
        Some(vk) => if proof.a@.len() < 32 || proof.b@.len() < 32
            || proof.c@.len() < 32 {
            Err(ZkError::InvalidProofFormat)
        } else if vk.ic@.len() != inputs.len() + 1 {
            Err(ZkError::InvalidPublicInputs)
        } else {
            Ok(pairing_equation(proof, vk, inputs))
        },
    }
}

/// The verifier contract's storage: its admin once initialized, the keys
/// registered by circuit, and how many proofs it has accepted.
///
/// `register_vk` needs the admin's authorization, which is the caller's to
/// check against `registrar` first; a call whose authorization fails changes
/// nothing.
pub struct ZkVerifierState {
    admin: Option<String>,
    keys: Vec<(u64, VerificationKey)>,
    proof_count: u64,
}

impl ZkVerifierState {
    pub closed spec fn admin_of(&self) -> Option<Seq<char>> {
        match self.admin {
            Some(a) => Some(a@),
            None => None,
        }
    }

    /// The key registered for `circuit_id`, if any.
    pub closed spec fn key_of(&self, circuit_id: u64) -> Option<VerificationKey> {
        key_in(self.keys@, circuit_id)
    }

    /// How many proofs have been accepted.
    pub closed spec fn count(&self) -> u64 {
        self.proof_count
    }

    /// A verifier that has not been initialized: no admin, no keys.
    pub fn new() -> (r: Self)
        ensures
            r.admin_of() is None,
            r.count() == 0,
            forall|id: u64| #[trigger] r.key_of(id) is None,
    {
        ZkVerifierState { admin: None, keys: Vec::new(), proof_count: 0 }
    }

    /// Sets the admin and clears the proof count; refused once initialized.
    pub fn initialize(&mut self, admin: &str) -> (r: Result<(), ZkError>)
        ensures
            old(self).admin_of() is Some ==> r == Err::<(), ZkError>(ZkError::AlreadyInitialized)
                && *final(self) == *old(self),
            old(self).admin_of() is None ==> r is Ok && final(self).admin_of() == Some(admin@)
                && final(self).count() == 0 && forall|id: u64| #[trigger] final(self).key_of(id)
                == old(self).key_of(id),
    {
        if self.admin.is_some() {
            return Err(ZkError::AlreadyInitialized);
        }
        self.admin = Some(String::from_str(admin));
        self.proof_count = 0;
        Ok(())
    }

    /// The admin whose authorization registering a key needs; `NotAdmin`
    /// before initialization.
    pub fn registrar(&self) -> (r: Result<String, ZkError>)
        ensures
            match self.admin_of() {
                Some(a) => r matches Ok(s) && s@ == a,
                None => r == Err::<String, ZkError>(ZkError::NotAdmin),
            },
    {
        match &self.admin {
            Some(a) => Ok(a.clone()),
            None => Err(ZkError::NotAdmin),
        }
    }

    /// Registers `vk` for `circuit_id`, replacing any earlier key: refused
    /// before initialization and for a key without IC points.
    pub fn register_vk(&mut self, circuit_id: u64, vk: VerificationKey) -> (r: Result<(), ZkError>)
        ensures
            old(self).admin_of() is None ==> r == Err::<(), ZkError>(ZkError::NotAdmin),
            old(self).admin_of() is Some && vk.ic@.len() == 0 ==> r == Err::<(), ZkError>(
                ZkError::InvalidPublicInputs,
            ),
            old(self).admin_of() is Some && vk.ic@.len() > 0 ==> r is Ok,
            r is Err ==> *final(self) == *old(self),
            r is Ok ==> {
                &&& final(self).key_of(circuit_id) == Some(vk)
                &&& forall|id: u64| id != circuit_id ==> #[trigger] final(self).key_of(id) == old(
                    self,
                ).key_of(id)
                &&& final(self).admin_of() == old(self).admin_of()
                &&& final(self).count() == old(self).count()
            },
    {
        if self.admin.is_none() {
            return Err(ZkError::NotAdmin);
        }
        if vk.ic.len() == 0 {
            return Err(ZkError::InvalidPublicInputs);
        }
        let ghost before = self.keys@;
        let ghost registered = vk;
        self.keys.push((circuit_id, vk));
        proof {
            assert(self.keys@.drop_last() =~= before);
            assert(self.keys@.last() == (circuit_id, registered));
        }
        Ok(())
    }

    /// Checks `proof` for `circuit_id` as `verify_outcome` says, and counts it
    /// when it is accepted.
    pub fn verify_proof(&mut self, circuit_id: u64, proof: &Proof, public_inputs: &Vec<Vec<u8>>) -> (r:
        Result<bool, ZkError>)
        requires
            public_inputs@.len() <= u32::MAX,
            old(self).key_of(circuit_id) is Some && proof.a@.len() >= 32
                && proof.b@.len() >= 32 && proof.c@.len() >= 32
                ==> public_inputs@.len() < u32::MAX,
            verify_outcome(old(self).key_of(circuit_id), *proof, public_inputs@) == Ok::<
                bool,
                ZkError,
            >(true) ==> old(self).count() < u64::MAX,
        ensures
            r == verify_outcome(old(self).key_of(circuit_id), *proof, public_inputs@),
            final(self).count() == (if r == Ok::<bool, ZkError>(true) {
                old(self).count() + 1
            } else {
                old(self).count() as int
            }),
            final(self).admin_of() == old(self).admin_of(),
            forall|id: u64| #[trigger] final(self).key_of(id) == old(self).key_of(id),
    {
        let n = self.keys.len();
        let mut i: usize = n;
        let ghost keys = self.keys@;
        proof {
            assert(keys.take(n as int) =~= keys);
        }
        while i > 0
            invariant
                i <= n,
                n == keys.len(),
                keys == self.keys@,
                key_in(keys, circuit_id) == key_in(keys.take(i as int), circuit_id),
            ensures
                i <= n,
                keys == self.keys@,
                key_in(keys, circuit_id) == key_in(keys.take(i as int), circuit_id),
                i == 0 || keys[i - 1].0 == circuit_id,
            decreases i,
        {
            proof {
                assert(keys.take(i as int).drop_last() =~= keys.take(i - 1));
                assert(keys.take(i as int).last() == keys[i - 1]);
            }
            if self.keys[i - 1].0 == circuit_id {
                break;
            }
            i = i - 1;
        }
        if i == 0 {
            proof {
                assert(keys.take(0) =~= Seq::<(u64, VerificationKey)>::empty());
            }
            return Err(ZkError::CircuitNotFound);
        }
        let vk = &self.keys[i - 1].1;
        proof {
            assert(keys.take(i as int).last() == keys[i - 1]);
            assert(key_in(keys, circuit_id) == Some(*vk));
        }
        if proof.a.len() < 32 || proof.b.len() < 32 || proof.c.len() < 32 {
            return Err(ZkError::InvalidProofFormat);
        }
        if vk.ic.len() != public_inputs.len() + 1 {
            return Err(ZkError::InvalidPublicInputs);
        }
        let valid = groth16_pairing_check(proof, vk, public_inputs);
        if !valid {
            return Ok(false);
        }
        self.proof_count = self.proof_count + 1;
        Ok(true)
    }

    /// How many proofs have been accepted.
    pub fn get_proof_count(&self) -> (r: u64)
        ensures
            r == self.count(),
    {
        self.proof_count
    }
}

} // verus!
