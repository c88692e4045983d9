//! Mock pairing arithmetic for BN254 / BLS12-381, with Groth16 and Plonk checks.
//!
//! These types stand in for Soroban's pairing-curve host functions so that
//! privacy-preserving contracts can be unit-tested without a cryptographic
//! backend. The arithmetic is bilinear over wrapping `u64` values; it is not the
//! real group law of either curve.
use vstd::prelude::*;
use vstd::arithmetic::div_mod::*;

verus! {

/// `2^64`, the modulus of the mock field.
pub open spec fn modulus() -> int {
    0x1_0000_0000_0000_0000
}

/// Wrapping sum.
pub open spec fn wadd(a: int, b: int) -> u64 {
    ((a + b) % modulus()) as u64
}

/// Wrapping product.
pub open spec fn wmul(a: int, b: int) -> u64 {
    ((a * b) % modulus()) as u64
}

/// Wrapping negation.
pub open spec fn wneg(a: int) -> u64 {
    ((modulus() - a) % modulus()) as u64
}

pub(crate) proof fn lemma_wrapping_add(x: u64, y: u64)
    ensures
        vstd::wrapping::u64_specs::wrapping_add(x, y) == wadd(x as int, y as int),
{
    if x + y > u64::MAX {
        lemma_fundamental_div_mod_converse(x + y, modulus(), 1, x + y - modulus());
    } else {
        lemma_fundamental_div_mod_converse(x + y, modulus(), 0, x + y);
    }
}

proof fn lemma_wrapping_neg(x: u64)
    ensures
        vstd::wrapping::u64_specs::wrapping_sub(0, x) == wneg(x as int),
{
    if x == 0 {
        lemma_fundamental_div_mod_converse(modulus(), modulus(), 1, 0);
    } else {
        lemma_fundamental_div_mod_converse(modulus() - x, modulus(), 0, modulus() - x);
    }
}

/// Pairing-friendly curves exposed by the mock harness.
#[derive(Clone, Copy, Debug, PartialEq, Eq, Structural, Hash)]
pub enum PairingCurve {
    /// BN254 (alt_bn128), the Ethereum-compatible Groth16 curve.
    Bn254,
    /// BLS12-381, used by many Plonk and Groth16 circuits.
    Bls12_381,
}

/// The byte that marks a serialized point as belonging to `curve`.
pub open spec fn curve_tag(curve: PairingCurve) -> u8 {
    match curve {
        PairingCurve::Bn254 => 0xB1,
        PairingCurve::Bls12_381 => 0xB2,
    }
}

impl PairingCurve {
    /// Discriminator written into serialized points so that proofs cannot be mixed
    /// across curves.
    pub fn tag(self) -> (r: u8)
        ensures
            r == curve_tag(self),
    {
        match self {
            PairingCurve::Bn254 => 0xB1,
            PairingCurve::Bls12_381 => 0xB2,
        }
    }
}

/// Affine G1 point (mock).
#[derive(Clone, Copy, Debug, PartialEq, Eq)]
pub struct G1 {
    pub x: u64,
    pub y: u64,
    pub inf: bool,
}

/// Affine G2 point over a mock Fp2 (two `u64` coordinates each).
#[derive(Clone, Copy, Debug, PartialEq, Eq)]
pub struct G2 {
    pub x: [u64; 2],
    pub y: [u64; 2],
    pub inf: bool,
}

/// Target group element, written additively: the identity is `exp == 0`.
#[derive(Clone, Copy, Debug, PartialEq, Eq, Default)]
pub struct Gt {
    pub exp: u64,
}

pub open spec fn g1_identity() -> G1 {
    G1 { x: 0, y: 0, inf: true }
}

pub open spec fn g1_generator() -> G1 {
    G1 { x: 1, y: 2, inf: false }
}

pub open spec fn g2_identity() -> G2 {
    G2 { x: [0, 0], y: [0, 0], inf: true }
}

pub open spec fn g2_generator() -> G2 {
    G2 { x: [1, 0], y: [0, 1], inf: false }
}

/// Sum of two G1 points.
pub open spec fn g1_sum(p: G1, q: G1) -> G1 {
    if p.inf {
        q
    } else if q.inf {
        p
    } else {
        G1 { x: wadd(p.x as int, q.x as int), y: wadd(p.y as int, q.y as int), inf: false }
    }
}

/// A G1 point multiplied by a scalar.
pub open spec fn g1_scaled(p: G1, scalar: u64) -> G1 {
    if p.inf || scalar == 0 {
        g1_identity()
    } else {
        G1 { x: wmul(p.x as int, scalar as int), y: wmul(p.y as int, scalar as int), inf: false }
    }
}

/// The negation of a G1 point.
pub open spec fn g1_negated(p: G1) -> G1 {
    if p.inf {
        p
    } else {
        G1 { x: wneg(p.x as int), y: wneg(p.y as int), inf: false }
    }
}

/// Sum of two G2 points.
pub open spec fn g2_sum(p: G2, q: G2) -> G2 {
    if p.inf {
        q
    } else if q.inf {
        p
    } else {
        G2 {
            x: [wadd(p.x[0] as int, q.x[0] as int), wadd(p.x[1] as int, q.x[1] as int)],
            y: [wadd(p.y[0] as int, q.y[0] as int), wadd(p.y[1] as int, q.y[1] as int)],
            inf: false,
        }
    }
}

/// A G2 point multiplied by a scalar.
pub open spec fn g2_scaled(p: G2, scalar: u64) -> G2 {
    if p.inf || scalar == 0 {
        g2_identity()
    } else {
        G2 {
            x: [wmul(p.x[0] as int, scalar as int), wmul(p.x[1] as int, scalar as int)],
            y: [wmul(p.y[0] as int, scalar as int), wmul(p.y[1] as int, scalar as int)],
            inf: false,
        }
    }
}

/// The negation of a G2 point.
pub open spec fn g2_negated(p: G2) -> G2 {
    if p.inf {
        p
    } else {
        G2 {
            x: [wneg(p.x[0] as int), wneg(p.x[1] as int)],
            y: [wneg(p.y[0] as int), wneg(p.y[1] as int)],
            inf: false,
        }
    }
}

/// The target-group identity.
pub open spec fn gt_one() -> Gt {
    Gt { exp: 0 }
}

/// The target-group product.
pub open spec fn gt_product(a: Gt, b: Gt) -> Gt {
    Gt { exp: wadd(a.exp as int, b.exp as int) }
}

/// The target-group inverse.
pub open spec fn gt_inverse(a: Gt) -> Gt {
    Gt { exp: wneg(a.exp as int) }
}

/// The mock pairing `e: G1 x G2 -> GT`.
pub open spec fn pairing_of(p: G1, q: G2) -> Gt {
    if p.inf || q.inf {
        gt_one()
    } else {
        Gt { exp: wmul(p.x as int, q.x[0] as int) }
    }
}

/// Product of the pairings of a sequence of pairs.
pub open spec fn pairings_product(pairs: Seq<(G1, G2)>) -> Gt
    decreases pairs.len(),
{
    if pairs.len() == 0 {
        gt_one()
    } else {
        gt_product(
            pairings_product(pairs.drop_last()),
            pairing_of(pairs.last().0, pairs.last().1),
        )
    }
}

impl G1 {
    /// The point at infinity.
    pub fn identity() -> (r: Self)
        ensures
            r == g1_identity(),
    {
        Self { x: 0, y: 0, inf: true }
    }

    /// The fixed generator `(1, 2)`.
    pub fn generator() -> (r: Self)
        ensures
            r == g1_generator(),
    {
        Self { x: 1, y: 2, inf: false }
    }

    /// `true` for the point at infinity.
    pub fn is_identity(&self) -> (r: bool)
        ensures
            r == self.inf,
    {
        self.inf
    }
}

impl G2 {
    /// The point at infinity.
    pub fn identity() -> (r: Self)
        ensures
            r == g2_identity(),
    {
        Self { x: [0, 0], y: [0, 0], inf: true }
    }

    /// The fixed generator `([1, 0], [0, 1])`.
    pub fn generator() -> (r: Self)
        ensures
            r == g2_generator(),
    {
        Self { x: [1, 0], y: [0, 1], inf: false }
    }
}

impl Gt {
    /// The identity of the target group.
    pub fn one() -> (r: Self)
        ensures
            r == gt_one(),
    {
        Self { exp: 0 }
    }

    /// The group product (wrapping sum of exponents).
    pub fn mul(self, other: Self) -> (r: Self)
        ensures
            r == gt_product(self, other),
    {
        proof {
            lemma_wrapping_add(self.exp, other.exp);
        }
        Self { exp: self.exp.wrapping_add(other.exp) }
    }

    /// The group inverse (wrapping negation of the exponent).
    pub fn inverse(self) -> (r: Self)
        ensures
            r == gt_inverse(self),
    {
        proof {
            lemma_wrapping_neg(self.exp);
        }
        Self { exp: 0u64.wrapping_sub(self.exp) }
    }

    /// `true` for the identity.
    pub fn is_one(self) -> (r: bool)
        ensures
            r == (self == gt_one()),
    {
        self.exp == 0
    }
}

/// Sum of two G1 points.
pub fn g1_add(p: G1, q: G1) -> (r: G1)
    ensures
        r == g1_sum(p, q),
{
    if p.inf {
        return q;
    }
    if q.inf {
        return p;
    }
    proof {
        lemma_wrapping_add(p.x, q.x);
        lemma_wrapping_add(p.y, q.y);
    }
    G1 { x: p.x.wrapping_add(q.x), y: p.y.wrapping_add(q.y), inf: false }
}

/// Scalar multiple of a G1 point.
pub fn g1_mul(p: G1, scalar: u64) -> (r: G1)
    ensures
        r == g1_scaled(p, scalar),
{
    if p.inf || scalar == 0 {
        return G1::identity();
    }
    G1 { x: p.x.wrapping_mul(scalar), y: p.y.wrapping_mul(scalar), inf: false }
}

/// Negation of a G1 point.
pub fn g1_neg(p: G1) -> (r: G1)
    ensures
        r == g1_negated(p),
{
    if p.inf {
        return p;
    }
    proof {
        lemma_wrapping_neg(p.x);
        lemma_wrapping_neg(p.y);
    }
    G1 { x: 0u64.wrapping_sub(p.x), y: 0u64.wrapping_sub(p.y), inf: false }
}

/// Sum of two G2 points.
pub fn g2_add(p: G2, q: G2) -> (r: G2)
    ensures
        r == g2_sum(p, q),
{
    if p.inf {
        return q;
    }
    if q.inf {
        return p;
    }
    proof {
        lemma_wrapping_add(p.x[0], q.x[0]);
        lemma_wrapping_add(p.x[1], q.x[1]);
        lemma_wrapping_add(p.y[0], q.y[0]);
        lemma_wrapping_add(p.y[1], q.y[1]);
    }
    G2 {
        x: [p.x[0].wrapping_add(q.x[0]), p.x[1].wrapping_add(q.x[1])],
        y: [p.y[0].wrapping_add(q.y[0]), p.y[1].wrapping_add(q.y[1])],
        inf: false,
    }
}

/// Scalar multiple of a G2 point.
pub fn g2_mul(p: G2, scalar: u64) -> (r: G2)
    ensures
        r == g2_scaled(p, scalar),
{
    if p.inf || scalar == 0 {
        return G2::identity();
    }
    G2 {
        x: [p.x[0].wrapping_mul(scalar), p.x[1].wrapping_mul(scalar)],
        y: [p.y[0].wrapping_mul(scalar), p.y[1].wrapping_mul(scalar)],
        inf: false,
    }
}

/// Negation of a G2 point.
pub fn g2_neg(p: G2) -> (r: G2)
    ensures
        r == g2_negated(p),
{
    if p.inf {
        return p;
    }
    proof {
        lemma_wrapping_neg(p.x[0]);
        lemma_wrapping_neg(p.x[1]);
        lemma_wrapping_neg(p.y[0]);
        lemma_wrapping_neg(p.y[1]);
    }
    G2 {
        x: [0u64.wrapping_sub(p.x[0]), 0u64.wrapping_sub(p.x[1])],
        y: [0u64.wrapping_sub(p.y[0]), 0u64.wrapping_sub(p.y[1])],
        inf: false,
    }
}

/// The bilinear mock pairing `e: G1 x G2 -> GT`.
///
/// `e(sP, Q) = e(P, Q)^s` and `e(P, tQ) = e(P, Q)^t` hold under wrapping `u64`
/// arithmetic, which is enough to exercise Groth16 and Plonk pairing checks.
pub fn pairing(p: G1, q: G2) -> (r: Gt)
    ensures
        r == pairing_of(p, q),
{
    if p.inf || q.inf {
        return Gt::one();
    }
    Gt { exp: p.x.wrapping_mul(q.x[0]) }
}

/// The product of the pairings is `1` iff the wrapped exponents sum to zero.
pub fn pairing_check(pairs: &[(G1, G2)]) -> (r: bool)
    ensures
        r == (pairings_product(pairs@) == gt_one()),
{
    let mut acc = Gt::one();
    let mut i: usize = 0;
    while i < pairs.len()
        invariant
            i <= pairs@.len(),
            acc == pairings_product(pairs@.take(i as int)),
        decreases pairs@.len() - i,
    {
        let (p, q) = pairs[i];
        acc = acc.mul(pairing(p, q));
        proof {
            assert(pairs@.take(i + 1).drop_last() =~= pairs@.take(i as int));
        }
        i = i + 1;
    }
    proof {
        assert(pairs@.take(pairs@.len() as int) =~= pairs@);
    }
    acc.is_one()
}


/// Groth16 verification key (mock).
#[derive(Clone, Debug, PartialEq, Eq)]
pub struct Groth16VerifyingKey {
    pub curve: PairingCurve,
    pub alpha_g1: G1,
    pub beta_g2: G2,
    pub gamma_g2: G2,
    pub delta_g2: G2,
    pub ic: Vec<G1>,
}

/// Groth16 proof (`A` in G1, `B` in G2, `C` in G1).
#[derive(Clone, Copy, Debug, PartialEq, Eq)]
pub struct Groth16Proof {
    pub curve: PairingCurve,
    pub a: G1,
    pub b: G2,
    pub c: G1,
}

/// Simplified Plonk proof: two G1 openings and a G2 quotient commitment.
#[derive(Clone, Copy, Debug, PartialEq, Eq)]
pub struct PlonkProof {
    pub curve: PairingCurve,
    pub a: G1,
    pub b: G1,
    pub c: G2,
}

/// `IC[0] + input_0 * IC[1] + ... + input_(k-1) * IC[k]`.
pub open spec fn ic_combination(ic: Seq<G1>, inputs: Seq<u64>, k: int) -> G1
    decreases k,
{
    if k <= 0 {
        ic[0]
    } else {
        g1_sum(ic_combination(ic, inputs, k - 1), g1_scaled(ic[k], inputs[k - 1]))
    }
}

/// The public-input commitment `L`, defined when there is one IC point per input
/// plus the constant one.
pub open spec fn groth16_lc(ic: Seq<G1>, inputs: Seq<u64>) -> Option<G1> {
    if ic.len() == 0 || ic.len() != inputs.len() + 1 {
        None
    } else {
        Some(ic_combination(ic, inputs, inputs.len() as int))
    }
}

/// The right-hand side `e(alpha, beta) * e(L, gamma) * e(C, delta)` of the
/// Groth16 equation.
pub open spec fn groth16_rhs(vk: Groth16VerifyingKey, l: G1, c: G1) -> Gt {
    gt_product(
        gt_product(pairing_of(vk.alpha_g1, vk.beta_g2), pairing_of(l, vk.gamma_g2)),
        pairing_of(c, vk.delta_g2),
    )
}

/// The proof satisfies `e(A, B) = e(alpha, beta) * e(L, gamma) * e(C, delta)` on
/// the key's curve, with no point at infinity in the proof.
pub open spec fn groth16_accepts(vk: Groth16VerifyingKey, proof: Groth16Proof, inputs: Seq<u64>) -> bool {
    &&& proof.curve == vk.curve
    &&& !proof.a.inf && !proof.b.inf && !proof.c.inf
    &&& groth16_lc(vk.ic@, inputs) is Some
    &&& pairing_of(proof.a, proof.b) == groth16_rhs(vk, groth16_lc(vk.ic@, inputs)->0, proof.c)
}

/// The proof the generator produces: `A = G`, `C = 7G`, and `B` solved so that the
/// equation holds.
pub open spec fn groth16_generated(vk: Groth16VerifyingKey, l: G1) -> Groth16Proof {
    let c = g1_scaled(g1_generator(), 7);
    Groth16Proof {
        curve: vk.curve,
        a: g1_generator(),
        b: G2 { x: [groth16_rhs(vk, l, c).exp, 0], y: [0, 1], inf: false },
        c,
    }
}

/// The proof with `A.x` moved by one.
pub open spec fn groth16_tampered(proof: Groth16Proof) -> Groth16Proof {
    Groth16Proof { a: G1 { x: wadd(proof.a.x as int, 1), ..proof.a }, ..proof }
}

/// The Plonk equation `e(A + x * G, C) = e(B, H)` on `curve`, `H` the G2 generator.
pub open spec fn plonk_accepts(curve: PairingCurve, proof: PlonkProof, public_input: u64) -> bool {
    &&& proof.curve == curve
    &&& pairing_of(g1_sum(proof.a, g1_scaled(g1_generator(), public_input)), proof.c)
        == pairing_of(proof.b, g2_generator())
}

/// The Plonk proof the generator produces for `public_input`.
pub open spec fn plonk_generated(curve: PairingCurve, public_input: u64) -> PlonkProof {
    let a = g1_scaled(g1_generator(), 3);
    let shifted = g1_sum(a, g1_scaled(g1_generator(), public_input));
    PlonkProof { curve, a, b: G1 { x: shifted.x, y: shifted.y, inf: false }, c: g2_generator() }
}

/// The Plonk proof with `A.x` moved by one.
pub open spec fn plonk_tampered(proof: PlonkProof) -> PlonkProof {
    PlonkProof { a: G1 { x: wadd(proof.a.x as int, 1), ..proof.a }, ..proof }
}

proof fn lemma_wadd_value(p: int, q: int)
    requires
        0 <= p < modulus(),
        0 <= q < modulus(),
    ensures
        wadd(p, q) as int == if p + q >= modulus() {
            p + q - modulus()
        } else {
            p + q
        },
{
    if p + q >= modulus() {
        lemma_fundamental_div_mod_converse(p + q, modulus(), 1, p + q - modulus());
    } else {
        lemma_fundamental_div_mod_converse(p + q, modulus(), 0, p + q);
    }
}

proof fn lemma_wneg_value(p: int)
    requires
        0 <= p < modulus(),
    ensures
        wneg(p) as int == if p == 0 {
            0
        } else {
            modulus() - p
        },
{
    if p == 0 {
        lemma_fundamental_div_mod_converse(modulus(), modulus(), 1, 0);
    } else {
        lemma_fundamental_div_mod_converse(modulus() - p, modulus(), 0, modulus() - p);
    }
}

proof fn lemma_wmul_wneg(x: int, q: int)
    requires
        0 <= x < modulus(),
        0 <= q < modulus(),
    ensures
        wmul(wneg(x) as int, q) == wneg(wmul(x, q) as int),
{
    let m = modulus();
    lemma_wneg_value(x);
    let t = x * q;
    assert(t >= 0) by (nonlinear_arith)
        requires
            x >= 0,
            q >= 0,
            t == x * q,
    ;
    lemma_fundamental_div_mod(t, m);
    lemma_mod_bound(t, m);
    let k = t / m;
    let r = t % m;
    lemma_wneg_value(r);
    if x == 0 {
        assert(t == 0) by (nonlinear_arith)
            requires
                x == 0,
                t == x * q,
        ;
        lemma_fundamental_div_mod_converse(0, m, 0, 0);
    } else if r == 0 {
        assert((m - x) * q == m * (q - k) + 0) by (nonlinear_arith)
            requires
                t == x * q,
                t == m * k + r,
                r == 0,
        ;
        lemma_fundamental_div_mod_converse((m - x) * q, m, q - k, 0);
    } else {
        assert((m - x) * q == (q - k - 1) * m + (m - r)) by (nonlinear_arith)
            requires
                t == x * q,
                t == m * k + r,
        ;
        lemma_fundamental_div_mod_converse((m - x) * q, m, q - k - 1, m - r);
    }
}

/// A G1 point whose point-at-infinity flag, when set, comes with zero
/// coordinates: the only form in which the identity is built.
pub open spec fn g1_canonical(p: G1) -> bool {
    p.inf ==> p == g1_identity()
}

proof fn lemma_wadd_assoc(a: u64, b: u64, c: u64)
    ensures
        wadd(wadd(a as int, b as int) as int, c as int) == wadd(a as int, wadd(b as int, c as int) as int),
{
    let m = modulus();
    lemma_add_mod_noop(a + b, c as int, m);
    lemma_add_mod_noop(a as int, b + c, m);
    lemma_small_mod(c as nat, m as nat);
    lemma_small_mod(a as nat, m as nat);
    lemma_mod_bound(a + b, m);
    lemma_mod_bound(b + c, m);
    assert(((a + b) + c) == (a + (b + c)));
}

/// G1 addition is a commutative group operation whose identity is the point
/// at infinity, on canonical points; sums of canonical points are canonical.
pub proof fn lemma_g1_add_laws(p: G1, q: G1, r: G1)
    requires
        g1_canonical(p),
        g1_canonical(q),
        g1_canonical(r),
    ensures
        g1_sum(g1_identity(), q) == q,
        g1_sum(p, g1_identity()) == p,
        g1_sum(p, q) == g1_sum(q, p),
        g1_sum(g1_sum(p, q), r) == g1_sum(p, g1_sum(q, r)),
        g1_canonical(g1_sum(p, q)),
{
    if !p.inf && !q.inf && !r.inf {
        lemma_wadd_assoc(p.x, q.x, r.x);
        lemma_wadd_assoc(p.y, q.y, r.y);
    }
}

/// Pairing a negated point gives the inverse of the pairing.
pub proof fn lemma_pairing_negated(p: G1, q: G2)
    ensures
        pairing_of(g1_negated(p), q) == gt_inverse(pairing_of(p, q)),
{
    lemma_wneg_value(0);
    if !p.inf && !q.inf {
        lemma_wmul_wneg(p.x as int, q.x[0] as int);
    }
}

proof fn lemma_four_term_check(a: int, x: int, y: int, z: int)
    requires
        0 <= a < modulus(),
        0 <= x < modulus(),
        0 <= y < modulus(),
        0 <= z < modulus(),
    ensures
        (wadd(wadd(wadd(a, wneg(x) as int) as int, wneg(y) as int) as int, wneg(z) as int) == 0)
            == (a == wadd(wadd(x, y) as int, z) as int),
{
    lemma_wneg_value(x);
    lemma_wneg_value(y);
    lemma_wneg_value(z);
    lemma_wadd_value(a, wneg(x) as int);
    lemma_wadd_value(wadd(a, wneg(x) as int) as int, wneg(y) as int);
    lemma_wadd_value(
        wadd(wadd(a, wneg(x) as int) as int, wneg(y) as int) as int,
        wneg(z) as int,
    );
    lemma_wadd_value(x, y);
    lemma_wadd_value(wadd(x, y) as int, z);
}

proof fn lemma_two_term_check(a: int, b: int)
    requires
        0 <= a < modulus(),
        0 <= b < modulus(),
    ensures
        (wadd(a, wneg(b) as int) == 0) == (a == b),
{
    lemma_wneg_value(b);
    lemma_wadd_value(a, wneg(b) as int);
}

/// Linear combination `IC[0] + sum(input_i * IC[i+1])`, or `None` when the key's
/// IC length does not match the number of inputs.
pub fn groth16_linear_combination(vk: &Groth16VerifyingKey, public_inputs: &[u64]) -> (r: Option<G1>)
    ensures
        r == groth16_lc(vk.ic@, public_inputs@),
{
    if vk.ic.len() == 0 || vk.ic.len() - 1 != public_inputs.len() {
        return None;
    }
    let mut acc = vk.ic[0];
    let mut i: usize = 0;
    while i < public_inputs.len()
        invariant
            vk.ic@.len() == public_inputs@.len() + 1,
            i <= public_inputs@.len(),
            acc == ic_combination(vk.ic@, public_inputs@, i as int),
        decreases public_inputs@.len() - i,
    {
        acc = g1_add(acc, g1_mul(vk.ic[i + 1], public_inputs[i]));
        i = i + 1;
    }
    Some(acc)
}

/// Groth16 verification: `e(A, B) = e(alpha, beta) * e(L, gamma) * e(C, delta)`.
pub fn verify_groth16(vk: &Groth16VerifyingKey, proof: &Groth16Proof, public_inputs: &[u64]) -> (r:
    bool)
    ensures
        r == groth16_accepts(*vk, *proof, public_inputs@),
{
    if proof.curve != vk.curve {
        return false;
    }
    if proof.a.inf || proof.b.inf || proof.c.inf {
        return false;
    }
    let l = match groth16_linear_combination(vk, public_inputs) {
        Some(p) => p,
        None => return false,
    };
    let pairs = [
        (proof.a, proof.b),
        (g1_neg(vk.alpha_g1), vk.beta_g2),
        (g1_neg(l), vk.gamma_g2),
        (g1_neg(proof.c), vk.delta_g2),
    ];
    let ok = pairing_check(&pairs);
    proof {
        let s = pairs@;
        reveal_with_fuel(pairings_product, 5);
        assert(s.drop_last().drop_last().drop_last().drop_last() =~= Seq::<(G1, G2)>::empty());
        lemma_pairing_negated(vk.alpha_g1, vk.beta_g2);
        lemma_pairing_negated(l, vk.gamma_g2);
        lemma_pairing_negated(proof.c, vk.delta_g2);
        lemma_wadd_value(0, pairing_of(proof.a, proof.b).exp as int);
        lemma_four_term_check(
            pairing_of(proof.a, proof.b).exp as int,
            pairing_of(vk.alpha_g1, vk.beta_g2).exp as int,
            pairing_of(l, vk.gamma_g2).exp as int,
            pairing_of(proof.c, vk.delta_g2).exp as int,
        );
    }
    ok
}

/// Produces a proof that satisfies the Groth16 equation for `vk`, or `None` when
/// the key's IC length does not match the number of inputs.
pub fn generate_groth16_proof(vk: &Groth16VerifyingKey, public_inputs: &[u64]) -> (r: Option<
    Groth16Proof,
>)
    ensures
        r == (match groth16_lc(vk.ic@, public_inputs@) {
            Some(l) => Some(groth16_generated(*vk, l)),
            None => None,
        }),
{
    let l = match groth16_linear_combination(vk, public_inputs) {
        Some(p) => p,
        None => return None,
    };
    // A = G, so B can be solved without a field inverse.
    let a = G1::generator();
    let c = g1_mul(G1::generator(), 7);
    let rhs = pairing(vk.alpha_g1, vk.beta_g2).mul(pairing(l, vk.gamma_g2)).mul(
        pairing(c, vk.delta_g2),
    );
    let b = G2 { x: [rhs.exp, 0], y: [0, 1], inf: false };
    Some(Groth16Proof { curve: vk.curve, a, b, c })
}

/// Moves `A` so that the pairing equation fails (a negative test fixture).
pub fn tamper_groth16_proof(proof: Groth16Proof) -> (r: Groth16Proof)
    ensures
        r == groth16_tampered(proof),
{
    let mut tampered = proof;
    proof {
        lemma_wrapping_add(proof.a.x, 1);
    }
    tampered.a.x = proof.a.x.wrapping_add(1);
    tampered
}

/// Plonk mock: `e(A + x * G, C) = e(B, H)`, `H` the G2 generator.
pub fn verify_plonk(curve: PairingCurve, proof: &PlonkProof, public_input: u64) -> (r: bool)
    ensures
        r == plonk_accepts(curve, *proof, public_input),
{
    if proof.curve != curve {
        return false;
    }
    let shifted = g1_add(proof.a, g1_mul(G1::generator(), public_input));
    let pairs = [(shifted, proof.c), (g1_neg(proof.b), G2::generator())];
    let ok = pairing_check(&pairs);
    proof {
        let s = pairs@;
        reveal_with_fuel(pairings_product, 3);
        assert(s.drop_last().drop_last() =~= Seq::<(G1, G2)>::empty());
        lemma_pairing_negated(proof.b, g2_generator());
        lemma_wadd_value(0, pairing_of(shifted, proof.c).exp as int);
        lemma_two_term_check(
            pairing_of(shifted, proof.c).exp as int,
            pairing_of(proof.b, g2_generator()).exp as int,
        );
    }
    ok
}

/// Produces a Plonk proof that satisfies the equation for `public_input`.
pub fn generate_plonk_proof(curve: PairingCurve, public_input: u64) -> (r: PlonkProof)
    ensures
        r == plonk_generated(curve, public_input),
{
    let a = g1_mul(G1::generator(), 3);
    let shifted = g1_add(a, g1_mul(G1::generator(), public_input));
    let c = G2::generator();
    // e(shifted, C) = shifted.x; e(B, H) = B.x must equal it.
    let b = G1 { x: shifted.x, y: shifted.y, inf: false };
    PlonkProof { curve, a, b, c }
}

/// Moves `A` so that the Plonk equation fails.
pub fn tamper_plonk_proof(proof: PlonkProof) -> (r: PlonkProof)
    ensures
        r == plonk_tampered(proof),
{
    let mut tampered = proof;
    proof {
        lemma_wrapping_add(proof.a.x, 1);
    }
    tampered.a.x = proof.a.x.wrapping_add(1);
    tampered
}

/// A deterministic verification key for `n_public` public inputs:
/// `alpha = 3G`, `beta = 5H`, `gamma = 17H`, `delta = 19H`, `IC = [11G, 13G, 14G, ...]`.
pub fn sample_verifying_key(curve: PairingCurve, n_public: usize) -> (r: Groth16VerifyingKey)
    requires
        n_public < usize::MAX,
        n_public + 13 <= u64::MAX,
    ensures
        r.curve == curve,
        r.alpha_g1 == g1_scaled(g1_generator(), 3),
        r.beta_g2 == g2_scaled(g2_generator(), 5),
        r.gamma_g2 == g2_scaled(g2_generator(), 17),
        r.delta_g2 == g2_scaled(g2_generator(), 19),
        r.ic@.len() == n_public + 1,
        r.ic@[0] == g1_scaled(g1_generator(), 11),
        forall|i: int| 0 <= i < n_public ==> #[trigger] r.ic@[i + 1] == g1_scaled(g1_generator(), (13 + i) as u64),
{
    let mut ic: Vec<G1> = Vec::with_capacity(n_public + 1);
    ic.push(g1_mul(G1::generator(), 11));
    let mut i: usize = 0;
    while i < n_public
        invariant
            i <= n_public,
            n_public + 13 <= u64::MAX,
            ic@.len() == i + 1,
            ic@[0] == g1_scaled(g1_generator(), 11),
            forall|j: int| 0 <= j < i ==> #[trigger] ic@[j + 1] == g1_scaled(g1_generator(), (13 + j) as u64),
        decreases n_public - i,
    {
        ic.push(g1_mul(G1::generator(), 13 + i as u64));
        i = i + 1;
    }
    Groth16VerifyingKey {
        curve,
        alpha_g1: g1_mul(G1::generator(), 3),
        beta_g2: g2_mul(G2::generator(), 5),
        gamma_g2: g2_mul(G2::generator(), 17),
        delta_g2: g2_mul(G2::generator(), 19),
        ic,
    }
}

// ── Laws ───────────────────────────────────────────────────────────────────
/// The pairing is bilinear in the scalar: `e(sP, Q) = e(P, sQ)`.
pub proof fn lemma_pairing_scalar_bilinear(p: G1, q: G2, s: u64)
    ensures
        pairing_of(g1_scaled(p, s), q) == pairing_of(p, g2_scaled(q, s)),
{
    if !p.inf && !q.inf && s != 0 {
        let m = modulus();
        let a = p.x as int;
        let b = q.x[0] as int;
        let c = s as int;
        lemma_mul_mod_noop_left(a * c, b, m);
        lemma_mul_mod_noop_right(a, b * c, m);
        assert((a * c) * b == a * (b * c)) by (nonlinear_arith);
    }
}

/// The pairing is additive in its first argument: `e(P + R, Q) = e(P, Q) * e(R, Q)`.
pub proof fn lemma_pairing_additive(p: G1, r: G1, q: G2)
    ensures
        pairing_of(g1_sum(p, r), q) == gt_product(pairing_of(p, q), pairing_of(r, q)),
{
    let m = modulus();
    lemma_fundamental_div_mod_converse(0, m, 0, 0);
    if !q.inf {
        if p.inf {
            lemma_fundamental_div_mod_converse(pairing_of(r, q).exp as int, m, 0, pairing_of(r, q).exp as int);
        } else if r.inf {
            lemma_fundamental_div_mod_converse(pairing_of(p, q).exp as int, m, 0, pairing_of(p, q).exp as int);
        } else {
            let a = p.x as int;
            let c = r.x as int;
            let b = q.x[0] as int;
            lemma_mul_mod_noop_left(a + c, b, m);
            lemma_add_mod_noop(a * b, c * b, m);
            assert((a + c) * b == a * b + c * b) by (nonlinear_arith);
        }
    }
}

/// The identity of either group pairs to the identity.
pub proof fn lemma_pairing_identity(p: G1, q: G2)
    ensures
        pairing_of(g1_identity(), q) == gt_one(),
        pairing_of(p, g2_identity()) == gt_one(),
{
}

/// An element times its inverse is the identity.
pub proof fn lemma_gt_inverse(g: Gt)
    ensures
        gt_product(g, gt_inverse(g)) == gt_one(),
{
    lemma_two_term_check(g.exp as int, g.exp as int);
}

/// Every generated Groth16 proof verifies against its key and inputs, and a
/// proof is generated exactly when the key's IC length matches the inputs.
pub proof fn lemma_groth16_complete(vk: Groth16VerifyingKey, inputs: Seq<u64>)
    requires
        groth16_lc(vk.ic@, inputs) is Some,
    ensures
        groth16_accepts(vk, groth16_generated(vk, groth16_lc(vk.ic@, inputs)->0), inputs),
{
    let l = groth16_lc(vk.ic@, inputs)->0;
    let rhs = groth16_rhs(vk, l, g1_scaled(g1_generator(), 7));
    lemma_fundamental_div_mod_converse(rhs.exp as int, modulus(), 0, rhs.exp as int);
}

/// A proof whose `A` was tampered with is rejected, unless the right-hand side of
/// the equation happens to be the identity.
pub proof fn lemma_groth16_tamper_rejected(vk: Groth16VerifyingKey, inputs: Seq<u64>)
    requires
        groth16_lc(vk.ic@, inputs) is Some,
        groth16_rhs(vk, groth16_lc(vk.ic@, inputs)->0, g1_scaled(g1_generator(), 7)) != gt_one(),
    ensures
        !groth16_accepts(
            vk,
            groth16_tampered(groth16_generated(vk, groth16_lc(vk.ic@, inputs)->0)),
            inputs,
        ),
{
    let l = groth16_lc(vk.ic@, inputs)->0;
    let e = groth16_rhs(vk, l, g1_scaled(g1_generator(), 7)).exp as int;
    lemma_fundamental_div_mod_converse(2, modulus(), 0, 2);
    if e + e >= modulus() {
        lemma_fundamental_div_mod_converse(2 * e, modulus(), 1, 2 * e - modulus());
    } else {
        lemma_fundamental_div_mod_converse(2 * e, modulus(), 0, 2 * e);
    }
}

/// A proof checked against another curve than its own is rejected.
pub proof fn lemma_groth16_cross_curve_rejected(
    vk: Groth16VerifyingKey,
    proof: Groth16Proof,
    inputs: Seq<u64>,
)
    requires
        proof.curve != vk.curve,
    ensures
        !groth16_accepts(vk, proof, inputs),
{
}

/// Every generated Plonk proof verifies; its tampered form and any other curve
/// are rejected.
pub proof fn lemma_plonk_complete_and_sound(curve: PairingCurve, other: PairingCurve, x: u64)
    requires
        other != curve,
    ensures
        plonk_accepts(curve, plonk_generated(curve, x), x),
        !plonk_accepts(curve, plonk_tampered(plonk_generated(curve, x)), x),
        !plonk_accepts(other, plonk_generated(curve, x), x),
{
    let m = modulus();
    let p = plonk_generated(curve, x);
    let t = plonk_tampered(p);
    let gx = g1_scaled(g1_generator(), x);
    lemma_fundamental_div_mod_converse(3, m, 0, 3);
    lemma_fundamental_div_mod_converse(6, m, 0, 6);
    lemma_fundamental_div_mod_converse(4, m, 0, 4);
    let sx = g1_sum(p.a, gx).x as int;
    lemma_fundamental_div_mod_converse(sx, m, 0, sx);
    if x != 0 {
        lemma_fundamental_div_mod_converse(x as int, m, 0, x as int);
        lemma_wadd_value(3, x as int);
        lemma_wadd_value(4, x as int);
        let tx = g1_sum(t.a, gx).x as int;
        lemma_fundamental_div_mod_converse(tx, m, 0, tx);
    }
}


// ── Byte encodings ──────────────────────────────────────────────────────────
/// Byte `i` (0 to 7) of `x` in little-endian order.
pub open spec fn le_byte(x: u64, i: int) -> u8 {
    ((x >> (8 * i) as u64) & 0xff) as u8
}

/// The eight little-endian bytes of `x`.
pub open spec fn le_bytes(x: u64) -> Seq<u8> {
    Seq::new(8, |i: int| le_byte(x, i))
}

/// The byte at `i`, or zero past either end.
pub open spec fn byte_or_zero(bs: Seq<u8>, i: int) -> u64 {
    if 0 <= i < bs.len() {
        bs[i] as u64
    } else {
        0
    }
}

/// The little-endian value of the first `k` bytes at `off`, missing bytes read as zero.
pub open spec fn le_prefix(bs: Seq<u8>, off: int, k: int) -> u64
    decreases k,
{
    if k <= 0 {
        0
    } else {
        le_prefix(bs, off, k - 1) | (byte_or_zero(bs, off + k - 1) << (8 * (k - 1)) as u64)
    }
}

/// The little-endian `u64` at `off`, missing bytes read as zero.
pub open spec fn read_le(bs: Seq<u8>, off: int) -> u64 {
    le_prefix(bs, off, 8)
}

/// `n` zero bytes.
pub open spec fn zeros(n: nat) -> Seq<u8> {
    Seq::new(n, |i: int| 0u8)
}

/// The 64-byte mock encoding of a G1 point: `[x le | y le | tag | inf | zeros]`.
pub open spec fn g1_encoding(p: G1, curve: PairingCurve) -> Seq<u8> {
    le_bytes(p.x) + le_bytes(p.y) + seq![curve_tag(curve), if p.inf { 1u8 } else { 0u8 }] + zeros(46)
}

/// The 128-byte mock encoding of a G2 point:
/// `[x0 le | x1 le | y0 le | y1 le | tag | inf | zeros]`.
pub open spec fn g2_encoding(p: G2, curve: PairingCurve) -> Seq<u8> {
    le_bytes(p.x[0]) + le_bytes(p.x[1]) + le_bytes(p.y[0]) + le_bytes(p.y[1]) + seq![
        curve_tag(curve),
        if p.inf { 1u8 } else { 0u8 },
    ] + zeros(94)
}

/// The G1 point a byte string decodes to; fewer than 18 bytes decode to the identity.
pub open spec fn g1_decoded(bs: Seq<u8>) -> G1 {
    if bs.len() < 18 {
        g1_identity()
    } else {
        G1 { x: read_le(bs, 0), y: read_le(bs, 8), inf: bs[17] != 0 }
    }
}

/// The G2 point a byte string decodes to; fewer than 34 bytes decode to the identity.
pub open spec fn g2_decoded(bs: Seq<u8>) -> G2 {
    if bs.len() < 34 {
        g2_identity()
    } else {
        G2 {
            x: [read_le(bs, 0), read_le(bs, 8)],
            y: [read_le(bs, 16), read_le(bs, 24)],
            inf: bs[33] != 0,
        }
    }
}

/// The 32-byte encoding of a scalar: its little-endian bytes, then zeros.
pub open spec fn scalar_encoding(scalar: u64) -> Seq<u8> {
    le_bytes(scalar) + zeros(24)
}

fn push_le_u64(raw: &mut Vec<u8>, v: u64)
    ensures
        final(raw)@ == old(raw)@ + le_bytes(v),
{
    let ghost start = raw@;
    let mut i: u64 = 0;
    while i < 8
        invariant
            i <= 8,
            raw@ == start + le_bytes(v).take(i as int),
        decreases 8 - i,
    {
        raw.push(((v >> (8 * i)) & 0xff) as u8);
        proof {
            assert(le_bytes(v).take(i + 1) =~= le_bytes(v).take(i as int).push(le_byte(v, i as int)));
        }
        i = i + 1;
    }
    proof {
        assert(le_bytes(v).take(8) =~= le_bytes(v));
    }
}

fn push_zeros(raw: &mut Vec<u8>, n: usize)
    ensures
        final(raw)@ == old(raw)@ + zeros(n as nat),
{
    let ghost start = raw@;
    let mut i: usize = 0;
    while i < n
        invariant
            i <= n,
            raw@ == start + zeros(i as nat),
        decreases n - i,
    {
        raw.push(0u8);
        proof {
            assert(zeros((i + 1) as nat) =~= zeros(i as nat).push(0u8));
        }
        i = i + 1;
    }
}

proof fn lemma_le_bytes_value(x: u64)
    ensures
        read_le(le_bytes(x), 0) == x,
{
    let bs = le_bytes(x);
    reveal_with_fuel(le_prefix, 9);
    let b0 = (x & 0xff);
    let b1 = ((x >> 8u64) & 0xff);
    let b2 = ((x >> 16u64) & 0xff);
    let b3 = ((x >> 24u64) & 0xff);
    let b4 = ((x >> 32u64) & 0xff);
    let b5 = ((x >> 40u64) & 0xff);
    let b6 = ((x >> 48u64) & 0xff);
    let b7 = ((x >> 56u64) & 0xff);
    assert(b0 < 256 && b1 < 256 && b2 < 256 && b3 < 256 && b4 < 256 && b5 < 256 && b6 < 256 && b7
        < 256) by (bit_vector)
        requires
            b0 == (x & 0xff),
            b1 == ((x >> 8u64) & 0xff),
            b2 == ((x >> 16u64) & 0xff),
            b3 == ((x >> 24u64) & 0xff),
            b4 == ((x >> 32u64) & 0xff),
            b5 == ((x >> 40u64) & 0xff),
            b6 == ((x >> 48u64) & 0xff),
            b7 == ((x >> 56u64) & 0xff),
    ;
    assert(x >> 0u64 == x) by (bit_vector);
    assert(byte_or_zero(bs, 0) == b0);
    assert(byte_or_zero(bs, 1) == b1);
    assert(byte_or_zero(bs, 2) == b2);
    assert(byte_or_zero(bs, 3) == b3);
    assert(byte_or_zero(bs, 4) == b4);
    assert(byte_or_zero(bs, 5) == b5);
    assert(byte_or_zero(bs, 6) == b6);
    assert(byte_or_zero(bs, 7) == b7);
    assert(0u64 | (b0 << 0u64) | (b1 << 8u64) | (b2 << 16u64) | (b3 << 24u64) | (b4 << 32u64) | (b5
        << 40u64) | (b6 << 48u64) | (b7 << 56u64) == x) by (bit_vector)
        requires
            b0 == (x & 0xff),
            b1 == ((x >> 8u64) & 0xff),
            b2 == ((x >> 16u64) & 0xff),
            b3 == ((x >> 24u64) & 0xff),
            b4 == ((x >> 32u64) & 0xff),
            b5 == ((x >> 40u64) & 0xff),
            b6 == ((x >> 48u64) & 0xff),
            b7 == ((x >> 56u64) & 0xff),
    ;
}

proof fn lemma_le_prefix_window(a: Seq<u8>, b: Seq<u8>, off: int, k: int)
    requires
        0 <= k,
        forall|i: int| 0 <= i < k ==> byte_or_zero(a, off + i) == byte_or_zero(b, i),
    ensures
        le_prefix(a, off, k) == le_prefix(b, 0, k),
    decreases k,
{
    if k > 0 {
        lemma_le_prefix_window(a, b, off, k - 1);
        assert(byte_or_zero(a, off + k - 1) == byte_or_zero(b, k - 1));
    }
}

proof fn lemma_read_le_at(bs: Seq<u8>, off: int, x: u64)
    requires
        0 <= off,
        off + 8 <= bs.len(),
        bs.subrange(off, off + 8) == le_bytes(x),
    ensures
        read_le(bs, off) == x,
{
    let w = le_bytes(x);
    assert forall|i: int| 0 <= i < 8 implies byte_or_zero(bs, off + i) == byte_or_zero(w, i) by {
        assert(bs.subrange(off, off + 8)[i] == bs[off + i]);
    }
    lemma_le_prefix_window(bs, w, off, 8);
    lemma_le_bytes_value(x);
}

pub(crate) fn read_u64_le(bytes: &[u8], offset: usize) -> (r: u64)
    requires
        offset <= 24,
    ensures
        r == read_le(bytes@, offset as int),
{
    let ghost bs = bytes@;
    let mut out: u64 = 0;
    let mut i: usize = 0;
    while i < 8
        invariant
            i <= 8,
            offset <= 24,
            bs == bytes@,
            out == le_prefix(bs, offset as int, i as int),
        decreases 8 - i,
    {
        let b: u8 = if offset + i < bytes.len() {
            bytes[offset + i]
        } else {
            0u8
        };
        proof {
            assert(b as u64 == byte_or_zero(bs, (offset + i) as int));
        }
        out = out | ((b as u64) << (8 * i as u64));
        i = i + 1;
    }
    out
}

impl G1 {
    /// 64-byte compressed mock encoding: `[x le | y le | tag | inf | zeros]`.
    pub fn to_bytes(&self, curve: PairingCurve) -> (r: Vec<u8>)
        ensures
            r@ == g1_encoding(*self, curve),
    {
        let mut raw: Vec<u8> = Vec::new();
        push_le_u64(&mut raw, self.x);
        push_le_u64(&mut raw, self.y);
        raw.push(curve.tag());
        raw.push(if self.inf { 1u8 } else { 0u8 });
        push_zeros(&mut raw, 46);
        proof {
            assert(raw@ =~= g1_encoding(*self, curve));
        }
        raw
    }

    /// Decodes the mock encoding; fewer than 18 bytes decode to the identity.
    pub fn from_bytes(bytes: &[u8]) -> (r: Self)
        ensures
            r == g1_decoded(bytes@),
    {
        if bytes.len() < 18 {
            return Self::identity();
        }
        let inf_byte = bytes[17];
        Self { x: read_u64_le(bytes, 0), y: read_u64_le(bytes, 8), inf: inf_byte != 0 }
    }
}

impl G2 {
    /// 128-byte mock encoding: `[x0 le | x1 le | y0 le | y1 le | tag | inf | zeros]`.
    pub fn to_bytes(&self, curve: PairingCurve) -> (r: Vec<u8>)
        ensures
            r@ == g2_encoding(*self, curve),
    {
        let mut raw: Vec<u8> = Vec::new();
        push_le_u64(&mut raw, self.x[0]);
        push_le_u64(&mut raw, self.x[1]);
        push_le_u64(&mut raw, self.y[0]);
        push_le_u64(&mut raw, self.y[1]);
        raw.push(curve.tag());
        raw.push(if self.inf { 1u8 } else { 0u8 });
        push_zeros(&mut raw, 94);
        proof {
            assert(raw@ =~= g2_encoding(*self, curve));
        }
        raw
    }

    /// Decodes the mock encoding; fewer than 34 bytes decode to the identity.
    pub fn from_bytes(bytes: &[u8]) -> (r: Self)
        ensures
            r == g2_decoded(bytes@),
    {
        if bytes.len() < 34 {
            return Self::identity();
        }
        let inf_byte = bytes[33];
        Self {
            x: [read_u64_le(bytes, 0), read_u64_le(bytes, 8)],
            y: [read_u64_le(bytes, 16), read_u64_le(bytes, 24)],
            inf: inf_byte != 0,
        }
    }
}

/// 32-byte encoding of a scalar: its little-endian bytes, then zeros.
pub fn encode_scalar(scalar: u64) -> (r: Vec<u8>)
    ensures
        r@ == scalar_encoding(scalar),
{
    let mut raw: Vec<u8> = Vec::new();
    push_le_u64(&mut raw, scalar);
    push_zeros(&mut raw, 24);
    raw
}

/// The little-endian `u64` in the first eight bytes, missing bytes read as zero.
pub fn decode_scalar(bytes: &[u8]) -> (r: u64)
    ensures
        r == read_le(bytes@, 0),
{
    read_u64_le(bytes, 0)
}

/// The curve tag of an encoded G1 point: byte 16, if present.
pub fn curve_tag_from_g1_bytes(bytes: &[u8]) -> (r: Option<u8>)
    ensures
        bytes@.len() > 16 ==> r == Some(bytes@[16]),
        bytes@.len() <= 16 ==> r is None,
{
    if bytes.len() > 16 {
        Some(bytes[16])
    } else {
        None
    }
}

/// Decoding an encoded G1 point gives back the point; its tag names the curve.
pub proof fn lemma_g1_encoding_round_trip(p: G1, curve: PairingCurve)
    ensures
        g1_decoded(g1_encoding(p, curve)) == p,
        g1_encoding(p, curve)[16] == curve_tag(curve),
{
    let e = g1_encoding(p, curve);
    assert(e.subrange(0, 8) =~= le_bytes(p.x));
    assert(e.subrange(8, 16) =~= le_bytes(p.y));
    lemma_read_le_at(e, 0, p.x);
    lemma_read_le_at(e, 8, p.y);
}

/// Decoding an encoded G2 point gives back the point.
pub proof fn lemma_g2_encoding_round_trip(p: G2, curve: PairingCurve)
    ensures
        g2_decoded(g2_encoding(p, curve)) == p,
{
    let e = g2_encoding(p, curve);
    assert(e.subrange(0, 8) =~= le_bytes(p.x[0]));
    assert(e.subrange(8, 16) =~= le_bytes(p.x[1]));
    assert(e.subrange(16, 24) =~= le_bytes(p.y[0]));
    assert(e.subrange(24, 32) =~= le_bytes(p.y[1]));
    lemma_read_le_at(e, 0, p.x[0]);
    lemma_read_le_at(e, 8, p.x[1]);
    lemma_read_le_at(e, 16, p.y[0]);
    lemma_read_le_at(e, 24, p.y[1]);
    let d = g2_decoded(e);
    assert(d.x =~= p.x);
    assert(d.y =~= p.y);
}

/// Decoding an encoded scalar gives back the scalar.
pub proof fn lemma_scalar_encoding_round_trip(scalar: u64)
    ensures
        read_le(scalar_encoding(scalar), 0) == scalar,
{
    let e = scalar_encoding(scalar);
    assert(e.subrange(0, 8) =~= le_bytes(scalar));
    lemma_read_le_at(e, 0, scalar);
}

} // verus!
