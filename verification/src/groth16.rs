//! A simulated Groth16 trusted setup over the BN128 scalar field: the
//! secret "toxic waste", curve points derived from scalars, the common
//! reference string built from the waste, further contributions to it by
//! other participants, and its byte encodings.
//!
//! Curve arithmetic is simulated: a point for a scalar is derived from the
//! scalar reduced modulo the field prime and a 64-bit hash of a label and
//! that reduced scalar.

use vstd::arithmetic::power::pow;
use vstd::prelude::*;
use vstd::utf8::encode_utf8;

use crate::natural::{be_bytes, decimal_text, usize_to_decimal, Natural};
use crate::r1cs::{bn128_modulus, bn128_prime};
use crate::secure_memory::{SecureBox, Wipe};
use crate::serializer::{le_u64, push_bytes, write_u64};

verus! {

/// `h * k + b`, wrapping at 2^64.
pub open spec fn hash_step(h: u64, k: u64, b: u8) -> u64 {
    vstd::wrapping::u64_specs::wrapping_add(vstd::wrapping::u64_specs::wrapping_mul(h, k), b as u64)
}

/// The 64-bit hash of some bytes with multiplier `k`: starting from 0, each
/// byte in turn gives `h * k + b`, wrapping at 2^64.
pub open spec fn seed_hash(bytes: Seq<u8>, k: u64) -> u64
    decreases bytes.len(),
{
    if bytes.len() == 0 {
        0
    } else {
        hash_step(seed_hash(bytes.drop_last(), k), k, bytes.last())
    }
}

/// The bytes that are hashed for a point: the label followed by the reduced
/// scalar in decimal, as UTF-8.
pub open spec fn seed_bytes(label: Seq<char>, reduced: nat) -> Seq<u8> {
    encode_utf8(label + decimal_text(reduced))
}

/// `h + c`, wrapping at 2^64.
pub open spec fn wrap_add(h: u64, c: u64) -> u64 {
    vstd::wrapping::u64_specs::wrapping_add(h, c)
}

/// A point of the first group, by value.
pub ghost struct G1Model {
    pub x: nat,
    pub y: nat,
    pub infinity: bool,
}

/// A point of the second group, by value.
pub ghost struct G2Model {
    pub x_c0: nat,
    pub x_c1: nat,
    pub y_c0: nat,
    pub y_c1: nat,
    pub infinity: bool,
}

/// The point at infinity of the first group, as written for an entry that
/// has no scalar.
pub open spec fn g1_infinity() -> G1Model {
    G1Model { x: 0, y: 0, infinity: true }
}

/// The point at infinity of the second group, as written for an entry that
/// has no scalar.
pub open spec fn g2_infinity() -> G2Model {
    G2Model { x_c0: 0, x_c1: 0, y_c0: 0, y_c1: 0, infinity: true }
}

/// The simulated first-group point for `scalar` under `label`: with `r` the
/// scalar modulo the prime and `h` the hash (multiplier 31) of the label and
/// `r`, it is `((h + r) mod p, ((h + 7919) + r) mod p)`, at infinity when
/// `r` is zero.
pub open spec fn g1_point(scalar: nat, label: Seq<char>) -> G1Model {
    let p = bn128_modulus();
    let r = scalar % p;
    let h = seed_hash(seed_bytes(label, r), 31);
    G1Model { x: (h as nat + r) % p, y: (wrap_add(h, 7919) as nat + r) % p, infinity: r == 0 }
}

/// The simulated second-group point for `scalar` under `label`: as for the
/// first group, with multiplier 37 and the offsets 0, 104729, 15485863 and
/// 32452843 for its four coordinates.
pub open spec fn g2_point(scalar: nat, label: Seq<char>) -> G2Model {
    let p = bn128_modulus();
    let r = scalar % p;
    let h = seed_hash(seed_bytes(label, r), 37);
    G2Model {
        x_c0: (h as nat + r) % p,
        x_c1: (wrap_add(h, 104729) as nat + r) % p,
        y_c0: (wrap_add(h, 15485863) as nat + r) % p,
        y_c1: (wrap_add(h, 32452843) as nat + r) % p,
        infinity: r == 0,
    }
}

/// A point of the first group.
#[derive(Debug)]
pub struct G1Point {
    pub x: Natural,
    pub y: Natural,
    pub infinity: bool,
}

impl View for G1Point {
    type V = G1Model;

    open spec fn view(&self) -> G1Model {
        G1Model { x: self.x@, y: self.y@, infinity: self.infinity }
    }
}

impl Clone for G1Point {
    fn clone(&self) -> (r: Self)
        ensures
            r@ == self@,
    {
        G1Point { x: self.x.clone(), y: self.y.clone(), infinity: self.infinity }
    }
}

/// A point of the second group, over the quadratic extension.
#[derive(Debug)]
pub struct G2Point {
    pub x_c0: Natural,
    pub x_c1: Natural,
    pub y_c0: Natural,
    pub y_c1: Natural,
    pub infinity: bool,
}

impl View for G2Point {
    type V = G2Model;

    open spec fn view(&self) -> G2Model {
        G2Model {
            x_c0: self.x_c0@,
            x_c1: self.x_c1@,
            y_c0: self.y_c0@,
            y_c1: self.y_c1@,
            infinity: self.infinity,
        }
    }
}

impl Clone for G2Point {
    fn clone(&self) -> (r: Self)
        ensures
            r@ == self@,
    {
        G2Point {
            x_c0: self.x_c0.clone(),
            x_c1: self.x_c1.clone(),
            y_c0: self.y_c0.clone(),
            y_c1: self.y_c1.clone(),
            infinity: self.infinity,
        }
    }
}

/// The hash of `label` followed by `reduced` in decimal, with multiplier `k`.
fn hash_seed(label: &str, reduced: &Natural, k: u64) -> (h: u64)
    ensures
        h == seed_hash(seed_bytes(label@, reduced@), k),
{
    let mut seed = String::from_str(label);
    let digits = reduced.to_decimal_string();
    seed.append(digits.as_str());
    let bytes = seed.as_str().as_bytes();
    let mut h: u64 = 0;
    assert(bytes@.take(0) =~= Seq::<u8>::empty());
    for i in 0..bytes.len()
        invariant
            bytes@ == seed_bytes(label@, reduced@),
            h == seed_hash(bytes@.take(i as int), k),
    {
        assert(bytes@.take(i + 1).drop_last() =~= bytes@.take(i as int));
        h = h.wrapping_mul(k).wrapping_add(bytes[i] as u64);
    }
    assert(bytes@.take(bytes@.len() as int) =~= bytes@);
    h
}

/// `(h + c) mod p` for a hash value `h` and the reduced scalar `r`.
fn coordinate(h: u64, r: &Natural, prime: &Natural) -> (c: Natural)
    requires
        prime@ > 0,
    ensures
        c@ == (h as nat + r@) % prime@,
{
    Natural::from_u64(h).add(r).rem(prime)
}

/// A label followed by an index in decimal.
fn indexed_label(prefix: &str, i: usize) -> (r: String)
    ensures
        r@ == prefix@ + decimal_text(i as nat),
{
    let mut label = String::from_str(prefix);
    let digits = usize_to_decimal(i);
    label.append(digits.as_str());
    label
}

impl G1Point {
    /// The generator `(1, 2)` of the first group.
    pub fn generator() -> (r: G1Point)
        ensures
            r@ == (G1Model { x: 1, y: 2, infinity: false }),
    {
        let one_text: [u8; 1] = [0x31u8];
        let two_text: [u8; 1] = [0x32u8];
        let x = match Natural::parse_hex(&one_text) {
            Some(v) => v,
            None => Natural::one(),
        };
        let y = match Natural::parse_hex(&two_text) {
            Some(v) => v,
            None => Natural::from_u64(2),
        };
        proof {
            reveal_with_fuel(crate::natural::hex_value, 2);
            assert(one_text@.drop_last() =~= Seq::<u8>::empty());
            assert(two_text@.drop_last() =~= Seq::<u8>::empty());
        }
        G1Point { x, y, infinity: false }
    }

    /// The simulated point for `scalar` under `label` (see `g1_point`).
    pub fn simulated_scalar_mul(scalar: &Natural, label: &str) -> (r: G1Point)
        ensures
            r@ == g1_point(scalar@, label@),
    {
        let prime = bn128_prime();
        let reduced = scalar.rem(&prime);
        let h = hash_seed(label, &reduced, 31);
        let x = coordinate(h, &reduced, &prime);
        let y = coordinate(h.wrapping_add(7919), &reduced, &prime);
        G1Point { x, y, infinity: reduced.is_zero() }
    }

    /// The point at infinity, as written for an entry that has no scalar.
    fn infinity() -> (r: G1Point)
        ensures
            r@ == g1_infinity(),
    {
        G1Point { x: Natural::zero(), y: Natural::zero(), infinity: true }
    }
}

impl G2Point {
    /// The simulated point for `scalar` under `label` (see `g2_point`).
    pub fn simulated_scalar_mul(scalar: &Natural, label: &str) -> (r: G2Point)
        ensures
            r@ == g2_point(scalar@, label@),
    {
        let prime = bn128_prime();
        let reduced = scalar.rem(&prime);
        let h = hash_seed(label, &reduced, 37);
        G2Point {
            x_c0: coordinate(h, &reduced, &prime),
            x_c1: coordinate(h.wrapping_add(104729), &reduced, &prime),
            y_c0: coordinate(h.wrapping_add(15485863), &reduced, &prime),
            y_c1: coordinate(h.wrapping_add(32452843), &reduced, &prime),
            infinity: reduced.is_zero(),
        }
    }

    /// The point at infinity, as written for an entry that has no scalar.
    fn infinity() -> (r: G2Point)
        ensures
            r@ == g2_infinity(),
    {
        G2Point {
            x_c0: Natural::zero(),
            x_c1: Natural::zero(),
            y_c0: Natural::zero(),
            y_c1: Natural::zero(),
            infinity: true,
        }
    }
}

/// The five secret scalars of a setup, by value.
pub ghost struct WasteModel {
    pub tau: nat,
    pub alpha: nat,
    pub beta: nat,
    pub gamma: nat,
    pub delta: nat,
}

/// The secret scalars of a setup; whoever knows them can forge proofs.
pub struct ToxicWaste {
    pub tau: Natural,
    pub alpha: Natural,
    pub beta: Natural,
    pub gamma: Natural,
    pub delta: Natural,
}

impl View for ToxicWaste {
    type V = WasteModel;

    open spec fn view(&self) -> WasteModel {
        WasteModel {
            tau: self.tau@,
            alpha: self.alpha@,
            beta: self.beta@,
            gamma: self.gamma@,
            delta: self.delta@,
        }
    }
}

/// Whether each secret lies in `[2, prime)`.
pub open spec fn waste_in_range(w: WasteModel, prime: nat) -> bool {
    &&& 2 <= w.tau < prime
    &&& 2 <= w.alpha < prime
    &&& 2 <= w.beta < prime
    &&& 2 <= w.gamma < prime
    &&& 2 <= w.delta < prime
}

impl ToxicWaste {
    /// The waste whose secrets are the five draws from `[0, prime - 2)`,
    /// each moved up by two into `[2, prime)`.
    pub fn from_draws(
        tau: &Natural,
        alpha: &Natural,
        beta: &Natural,
        gamma: &Natural,
        delta: &Natural,
    ) -> (r: ToxicWaste)
        ensures
            r@ == (WasteModel {
                tau: tau@ + 2,
                alpha: alpha@ + 2,
                beta: beta@ + 2,
                gamma: gamma@ + 2,
                delta: delta@ + 2,
            }),
    {
        let two = Natural::from_u64(2);
        ToxicWaste {
            tau: tau.add(&two),
            alpha: alpha.add(&two),
            beta: beta.add(&two),
            gamma: gamma.add(&two),
            delta: delta.add(&two),
        }
    }

    /// Fresh secrets, each drawn at random from `[2, prime)`.
    pub fn random(prime: &Natural) -> (r: ToxicWaste)
        requires
            prime@ > 2,
        ensures
            waste_in_range(r@, prime@),
    {
        let two = Natural::from_u64(2);
        let range = prime.sub(&two);
        let tau = Natural::random_below(&range);
        let alpha = Natural::random_below(&range);
        let beta = Natural::random_below(&range);
        let gamma = Natural::random_below(&range);
        let delta = Natural::random_below(&range);
        ToxicWaste::from_draws(&tau, &alpha, &beta, &gamma, &delta)
    }

    /// Fresh random secrets (as `random`), held in a secure box.
    pub fn secure_random(prime: &Natural) -> (r: Result<SecureBox<ToxicWaste>, String>)
        requires
            prime@ > 2,
        ensures
            r is Ok <==> vstd::layout::size_of::<ToxicWaste>() != 0,
            match r {
                Ok(b) => b.is_live() && !b.is_locked() && waste_in_range(b.content()@, prime@),
                Err(e) => e@ == "SecureBox: zero-sized type"@,
            },
    {
        let waste = ToxicWaste::random(prime);
        SecureBox::new(waste)
    }

    /// Overwrites every secret with zero, in place.
    pub fn zero_out(&mut self)
        ensures
            final(self)@ == (WasteModel { tau: 0, alpha: 0, beta: 0, gamma: 0, delta: 0 }),
    {
        self.tau.wipe();
        self.alpha.wipe();
        self.beta.wipe();
        self.gamma.wipe();
        self.delta.wipe();
    }
}

impl Wipe for ToxicWaste {
    open spec fn is_wiped(&self) -> bool {
        self@ == (WasteModel { tau: 0, alpha: 0, beta: 0, gamma: 0, delta: 0 })
    }

    fn wipe(&mut self) {
        self.zero_out();
    }
}

/// `tau^i` modulo the prime.
pub open spec fn tau_power(tau: nat, i: nat) -> nat {
    (pow(tau as int, i) % bn128_modulus() as int) as nat
}

/// The inverse of `a` modulo the prime, if it has one.
pub open spec fn mod_inverse(a: nat) -> Option<nat> {
    let p = bn128_modulus();
    if exists|x: nat| x < p && #[trigger] ((a * x) % p) == 1 {
        Some(choose|x: nat| x < p && #[trigger] ((a * x) % p) == 1)
    } else {
        None
    }
}

/// The label of entry `i` of a query: a prefix and the index in decimal.
pub open spec fn indexed(prefix: Seq<char>, i: nat) -> Seq<char> {
    prefix + decimal_text(i)
}

/// Entry `i` of the A query: `alpha * tau^i`.
pub open spec fn a_entry(w: WasteModel, i: nat) -> G1Model {
    g1_point(w.alpha * tau_power(w.tau, i) % bn128_modulus(), indexed("a_q_"@, i))
}

/// Entry `i` of the B query in the first group: `beta * tau^i`.
pub open spec fn b_g1_entry(w: WasteModel, i: nat) -> G1Model {
    g1_point(w.beta * tau_power(w.tau, i) % bn128_modulus(), indexed("bg1_q_"@, i))
}

/// Entry `i` of the B query in the second group: `beta * tau^i`.
pub open spec fn b_g2_entry(w: WasteModel, i: nat) -> G2Model {
    g2_point(w.beta * tau_power(w.tau, i) % bn128_modulus(), indexed("bg2_q_"@, i))
}

/// Entry `i` of the L query: `tau^i * beta * alpha / gamma`, at infinity
/// when gamma has no inverse.
pub open spec fn l_entry(w: WasteModel, i: nat) -> G1Model {
    let p = bn128_modulus();
    match mod_inverse(w.gamma) {
        Some(gi) => g1_point(
            ((tau_power(w.tau, i) * w.beta % p) * w.alpha % p) * gi % p,
            indexed("l_q_"@, i),
        ),
        None => g1_infinity(),
    }
}

/// Entry `i` of the H query for degree `n`: only the first entry,
/// `tau^n / delta`, has a scalar (when delta has an inverse); the others are
/// at infinity.
pub open spec fn h_entry(w: WasteModel, n: nat, i: nat) -> G1Model {
    let p = bn128_modulus();
    match mod_inverse(w.delta) {
        Some(di) => if i == 0 {
            g1_point(tau_power(w.tau, n) * di % p, indexed("h_q_"@, i))
        } else {
            g1_infinity()
        },
        None => g1_infinity(),
    }
}

/// Entry `i` of the verification key's IC: `tau^i * beta / (beta * gamma)`,
/// plus `alpha * beta / (beta * gamma)` for the first; at infinity when
/// `beta * gamma` has no inverse.
pub open spec fn ic_entry(w: WasteModel, i: nat) -> G1Model {
    let p = bn128_modulus();
    match mod_inverse(w.beta * w.gamma % p) {
        Some(bgi) => {
            let c = (tau_power(w.tau, i) * w.beta % p) * bgi % p;
            if i == 0 {
                g1_point((c + (w.alpha * w.beta % p) * bgi % p) % p, indexed("ic_"@, i))
            } else {
                g1_point(c, indexed("ic_"@, i))
            }
        },
        None => g1_infinity(),
    }
}

/// A proving key, by value.
pub ghost struct PkModel {
    pub alpha_g1: G1Model,
    pub beta_g1: G1Model,
    pub beta_g2: G2Model,
    pub delta_g2: G2Model,
    pub a_query: Seq<G1Model>,
    pub b_g1_query: Seq<G1Model>,
    pub b_g2_query: Seq<G2Model>,
    pub l_query: Seq<G1Model>,
    pub h_query: Seq<G1Model>,
}

/// A verification key, by value.
pub ghost struct VkModel {
    pub alpha_g1: G1Model,
    pub beta_g2: G2Model,
    pub gamma_g2: G2Model,
    pub delta_g2: G2Model,
    pub ic: Seq<G1Model>,
}

/// A common reference string, by value.
pub ghost struct CrsModel {
    pub pk: PkModel,
    pub vk: VkModel,
    pub num_constraints: nat,
    pub num_variables: nat,
    pub participant_count: nat,
}

/// The points of a vector of first-group points.
pub open spec fn g1_points(v: Seq<G1Point>) -> Seq<G1Model> {
    v.map_values(|q: G1Point| q@)
}

/// The points of a vector of second-group points.
pub open spec fn g2_points(v: Seq<G2Point>) -> Seq<G2Model> {
    v.map_values(|q: G2Point| q@)
}

/// The key a prover uses.
#[derive(Debug)]
pub struct ProvingKey {
    pub alpha_g1: G1Point,
    pub beta_g1: G1Point,
    pub beta_g2: G2Point,
    pub delta_g2: G2Point,
    pub a_query: Vec<G1Point>,
    pub b_g1_query: Vec<G1Point>,
    pub b_g2_query: Vec<G2Point>,
    pub l_query: Vec<G1Point>,
    pub h_query: Vec<G1Point>,
}

impl View for ProvingKey {
    type V = PkModel;

    open spec fn view(&self) -> PkModel {
        PkModel {
            alpha_g1: self.alpha_g1@,
            beta_g1: self.beta_g1@,
            beta_g2: self.beta_g2@,
            delta_g2: self.delta_g2@,
            a_query: g1_points(self.a_query@),
            b_g1_query: g1_points(self.b_g1_query@),
            b_g2_query: g2_points(self.b_g2_query@),
            l_query: g1_points(self.l_query@),
            h_query: g1_points(self.h_query@),
        }
    }
}

/// The key a verifier uses.
#[derive(Debug)]
pub struct VerificationKey {
    pub alpha_g1: G1Point,
    pub beta_g2: G2Point,
    pub gamma_g2: G2Point,
    pub delta_g2: G2Point,
    pub ic: Vec<G1Point>,
}

impl View for VerificationKey {
    type V = VkModel;

    open spec fn view(&self) -> VkModel {
        VkModel {
            alpha_g1: self.alpha_g1@,
            beta_g2: self.beta_g2@,
            gamma_g2: self.gamma_g2@,
            delta_g2: self.delta_g2@,
            ic: g1_points(self.ic@),
        }
    }
}

/// The common reference string: both keys, the circuit's size and how many
/// participants have contributed.
#[derive(Debug)]
pub struct CRS {
    pub proving_key: ProvingKey,
    pub verification_key: VerificationKey,
    pub num_constraints: usize,
    pub num_variables: usize,
    pub participant_count: usize,
}

impl View for CRS {
    type V = CrsModel;

    open spec fn view(&self) -> CrsModel {
        CrsModel {
            pk: self.proving_key@,
            vk: self.verification_key@,
            num_constraints: self.num_constraints as nat,
            num_variables: self.num_variables as nat,
            participant_count: self.participant_count as nat,
        }
    }
}

/// The larger of the constraint and variable counts: the degree of the
/// setup.
pub open spec fn setup_degree(num_constraints: nat, num_variables: nat) -> nat {
    if num_constraints > num_variables {
        num_constraints
    } else {
        num_variables
    }
}

/// The reference string derived from the waste `w` for a circuit of the
/// given size: one participant, `num_variables + 1` entries in the A, B, L
/// and IC queries, and as many H entries as the degree.
pub open spec fn crs_from_waste(w: WasteModel, num_constraints: nat, num_variables: nat) -> CrsModel {
    let m = num_variables + 1;
    let n = setup_degree(num_constraints, num_variables);
    let alpha_g1 = g1_point(w.alpha, "alpha_g1"@);
    let beta_g2 = g2_point(w.beta, "beta_g2"@);
    let delta_g2 = g2_point(w.delta, "delta_g2"@);
    CrsModel {
        pk: PkModel {
            alpha_g1,
            beta_g1: g1_point(w.beta, "beta_g1"@),
            beta_g2,
            delta_g2,
            a_query: Seq::new(m, |i: int| a_entry(w, i as nat)),
            b_g1_query: Seq::new(m, |i: int| b_g1_entry(w, i as nat)),
            b_g2_query: Seq::new(m, |i: int| b_g2_entry(w, i as nat)),
            l_query: Seq::new(m, |i: int| l_entry(w, i as nat)),
            h_query: Seq::new(n, |i: int| h_entry(w, n, i as nat)),
        },
        vk: VkModel {
            alpha_g1,
            beta_g2,
            gamma_g2: g2_point(w.gamma, "gamma_g2"@),
            delta_g2,
            ic: Seq::new(m, |i: int| ic_entry(w, i as nat)),
        },
        num_constraints,
        num_variables,
        participant_count: 1,
    }
}

/// One more power of tau: `(tau^i mod p) * tau mod p` is `tau^(i+1) mod p`.
proof fn lemma_tau_power_step(tau: nat, i: nat)
    ensures
        tau_power(tau, i) * tau % bn128_modulus() == tau_power(tau, i + 1),
{
    let p = bn128_modulus() as int;
    vstd::arithmetic::div_mod::lemma_mul_mod_noop_left(pow(tau as int, i), tau as int, p);
    reveal(pow);
    assert(pow(tau as int, (i + 1) as nat) == tau * pow(tau as int, i));
    vstd::arithmetic::mul::lemma_mul_is_commutative(tau as int, pow(tau as int, i));
}

/// An inverse modulo the prime in `[0, p)` is the only one there.
proof fn lemma_inverse_unique(a: nat, x: nat, y: nat)
    requires
        x < bn128_modulus(),
        y < bn128_modulus(),
        (a * x) % bn128_modulus() == 1,
        (a * y) % bn128_modulus() == 1,
    ensures
        x == y,
{
    let p = bn128_modulus() as int;
    // x = x * (a * y) = (a * x) * y = y, all modulo p.
    vstd::arithmetic::div_mod::lemma_mul_mod_noop_right(x as int, (a * y) as int, p);
    vstd::arithmetic::div_mod::lemma_mul_mod_noop_left((a * x) as int, y as int, p);
    vstd::arithmetic::mul::lemma_mul_is_associative(x as int, a as int, y as int);
    vstd::arithmetic::mul::lemma_mul_is_commutative(x as int, a as int);
    vstd::arithmetic::div_mod::lemma_small_mod(x, p as nat);
    vstd::arithmetic::div_mod::lemma_small_mod(y, p as nat);
    assert(x * (a * y) == (a * x) * y) by (nonlinear_arith);
}

/// The inverse of `a` modulo the prime, as `mod_inverse` states it.
fn inverse_mod_prime(a: &Natural, prime: &Natural) -> (r: Option<Natural>)
    requires
        prime@ == bn128_modulus(),
    ensures
        match r {
            Some(x) => mod_inverse(a@) == Some(x@),
            None => mod_inverse(a@) is None,
        },
{
    let r = a.modinv(prime);
    proof {
        let p = bn128_modulus();
        match &r {
            Some(x) => {
                assert(x@ < p && (a@ * x@) % p == 1);
                let y = choose|y: nat| y < p && #[trigger] ((a@ * y) % p) == 1;
                lemma_inverse_unique(a@, x@, y);
            },
            None => {
                if exists|x: nat| x < p && #[trigger] ((a@ * x) % p) == 1 {
                    let x = choose|x: nat| x < p && #[trigger] ((a@ * x) % p) == 1;
                    assert((a@ * x) % p == 1nat % p);
                    assert(crate::natural::has_inverse(a@, p));
                }
            },
        }
    }
    r
}

/// `tau^0, ..., tau^n` modulo the prime.
fn tau_powers(tau: &Natural, n: usize, prime: &Natural) -> (r: Vec<Natural>)
    requires
        prime@ == bn128_modulus(),
        n < usize::MAX,
    ensures
        r@.len() == n + 1,
        forall|j: int| 0 <= j <= n ==> (#[trigger] r@[j])@ == tau_power(tau@, j as nat),
{
    let mut powers: Vec<Natural> = Vec::new();
    let mut acc = Natural::one();
    proof {
        reveal(pow);
    }
    for k in 0..n + 1
        invariant
            prime@ == bn128_modulus(),
            powers@.len() == k,
            acc@ == tau_power(tau@, k as nat),
            forall|j: int| 0 <= j < k ==> (#[trigger] powers@[j])@ == tau_power(tau@, j as nat),
    {
        let val = acc.clone();
        acc = val.mul(tau).rem(prime);
        proof {
            lemma_tau_power_step(tau@, k as nat);
        }
        powers.push(val);
    }
    powers
}

/// Whether `powers` holds `tau^0, ..., tau^n` modulo the prime.
pub open spec fn are_tau_powers(powers: Seq<Natural>, tau: nat, n: nat) -> bool {
    &&& powers.len() == n + 1
    &&& forall|j: int| 0 <= j <= n ==> (#[trigger] powers[j])@ == tau_power(tau, j as nat)
}

/// The A query: `m` entries.
fn a_query_points(w: &ToxicWaste, powers: &Vec<Natural>, n: usize, m: usize, prime: &Natural) -> (r: Vec<G1Point>)
    requires
        prime@ == bn128_modulus(),
        are_tau_powers(powers@, w.tau@, n as nat),
        m <= n + 1,
    ensures
        g1_points(r@) == Seq::new(m as nat, |i: int| a_entry(w@, i as nat)),
{
    let mut q: Vec<G1Point> = Vec::new();
    for i in 0..m
        invariant
            prime@ == bn128_modulus(),
            are_tau_powers(powers@, w.tau@, n as nat),
            m <= n + 1,
            q@.len() == i,
            forall|j: int| 0 <= j < i ==> (#[trigger] q@[j])@ == a_entry(w@, j as nat),
    {
        let scalar = w.alpha.mul(&powers[i]).rem(prime);
        let label = indexed_label("a_q_", i);
        q.push(G1Point::simulated_scalar_mul(&scalar, label.as_str()));
    }
    assert(g1_points(q@) =~= Seq::new(m as nat, |i: int| a_entry(w@, i as nat)));
    q
}

/// The B query in the first group: `m` entries.
fn b_g1_query_points(w: &ToxicWaste, powers: &Vec<Natural>, n: usize, m: usize, prime: &Natural) -> (r: Vec<G1Point>)
    requires
        prime@ == bn128_modulus(),
        are_tau_powers(powers@, w.tau@, n as nat),
        m <= n + 1,
    ensures
        g1_points(r@) == Seq::new(m as nat, |i: int| b_g1_entry(w@, i as nat)),
{
    let mut q: Vec<G1Point> = Vec::new();
    for i in 0..m
        invariant
            prime@ == bn128_modulus(),
            are_tau_powers(powers@, w.tau@, n as nat),
            m <= n + 1,
            q@.len() == i,
            forall|j: int| 0 <= j < i ==> (#[trigger] q@[j])@ == b_g1_entry(w@, j as nat),
    {
        let scalar = w.beta.mul(&powers[i]).rem(prime);
        let label = indexed_label("bg1_q_", i);
        q.push(G1Point::simulated_scalar_mul(&scalar, label.as_str()));
    }
    assert(g1_points(q@) =~= Seq::new(m as nat, |i: int| b_g1_entry(w@, i as nat)));
    q
}

/// The B query in the second group: `m` entries.
fn b_g2_query_points(w: &ToxicWaste, powers: &Vec<Natural>, n: usize, m: usize, prime: &Natural) -> (r: Vec<G2Point>)
    requires
        prime@ == bn128_modulus(),
        are_tau_powers(powers@, w.tau@, n as nat),
        m <= n + 1,
    ensures
        g2_points(r@) == Seq::new(m as nat, |i: int| b_g2_entry(w@, i as nat)),
{
    let mut q: Vec<G2Point> = Vec::new();
    for i in 0..m
        invariant
            prime@ == bn128_modulus(),
            are_tau_powers(powers@, w.tau@, n as nat),
            m <= n + 1,
            q@.len() == i,
            forall|j: int| 0 <= j < i ==> (#[trigger] q@[j])@ == b_g2_entry(w@, j as nat),
    {
        let scalar = w.beta.mul(&powers[i]).rem(prime);
        let label = indexed_label("bg2_q_", i);
        q.push(G2Point::simulated_scalar_mul(&scalar, label.as_str()));
    }
    assert(g2_points(q@) =~= Seq::new(m as nat, |i: int| b_g2_entry(w@, i as nat)));
    q
}

/// The L query: `m` entries.
fn l_query_points(w: &ToxicWaste, powers: &Vec<Natural>, n: usize, m: usize, prime: &Natural) -> (r: Vec<G1Point>)
    requires
        prime@ == bn128_modulus(),
        are_tau_powers(powers@, w.tau@, n as nat),
        m <= n + 1,
    ensures
        g1_points(r@) == Seq::new(m as nat, |i: int| l_entry(w@, i as nat)),
{
    let mut q: Vec<G1Point> = Vec::new();
    for i in 0..m
        invariant
            prime@ == bn128_modulus(),
            are_tau_powers(powers@, w.tau@, n as nat),
            m <= n + 1,
            q@.len() == i,
            forall|j: int| 0 <= j < i ==> (#[trigger] q@[j])@ == l_entry(w@, j as nat),
    {
        let gamma_inv = inverse_mod_prime(&w.gamma, prime);
        match gamma_inv {
            Some(gi) => {
                let scalar = powers[i].mul(&w.beta).rem(prime).mul(&w.alpha).rem(prime).mul(&gi).rem(prime);
                let label = indexed_label("l_q_", i);
                q.push(G1Point::simulated_scalar_mul(&scalar, label.as_str()));
            },
            None => {
                q.push(G1Point::infinity());
            },
        }
    }
    assert(g1_points(q@) =~= Seq::new(m as nat, |i: int| l_entry(w@, i as nat)));
    q
}

/// The H query: `n` entries, of which only the first can have a scalar.
fn h_query_points(w: &ToxicWaste, powers: &Vec<Natural>, n: usize, prime: &Natural) -> (r: Vec<G1Point>)
    requires
        prime@ == bn128_modulus(),
        are_tau_powers(powers@, w.tau@, n as nat),
        n <= usize::MAX / 2 + 1,
    ensures
        g1_points(r@) == Seq::new(n as nat, |i: int| h_entry(w@, n as nat, i as nat)),
{
    let mut q: Vec<G1Point> = Vec::new();
    let delta_inv = inverse_mod_prime(&w.delta, prime);
    for i in 0..n
        invariant
            prime@ == bn128_modulus(),
            are_tau_powers(powers@, w.tau@, n as nat),
            n <= usize::MAX / 2 + 1,
            delta_inv matches Some(di) ==> mod_inverse(w.delta@) == Some(di@),
            delta_inv is None ==> mod_inverse(w.delta@) is None,
            q@.len() == i,
            forall|j: int| 0 <= j < i ==> (#[trigger] q@[j])@ == h_entry(w@, n as nat, j as nat),
    {
        if i + n < powers.len() {
            match &delta_inv {
                Some(di) => {
                    let scalar = powers[i + n].mul(di).rem(prime);
                    let label = indexed_label("h_q_", i);
                    q.push(G1Point::simulated_scalar_mul(&scalar, label.as_str()));
                },
                None => {
                    q.push(G1Point::infinity());
                },
            }
        } else {
            q.push(G1Point::infinity());
        }
    }
    assert(g1_points(q@) =~= Seq::new(n as nat, |i: int| h_entry(w@, n as nat, i as nat)));
    q
}

/// The verification key's IC: `m` entries.
fn ic_points(w: &ToxicWaste, powers: &Vec<Natural>, n: usize, m: usize, prime: &Natural) -> (r: Vec<G1Point>)
    requires
        prime@ == bn128_modulus(),
        are_tau_powers(powers@, w.tau@, n as nat),
        m <= n + 1,
    ensures
        g1_points(r@) == Seq::new(m as nat, |i: int| ic_entry(w@, i as nat)),
{
    let mut q: Vec<G1Point> = Vec::new();
    let bg = w.beta.mul(&w.gamma).rem(prime);
    let beta_gamma_inv = inverse_mod_prime(&bg, prime);
    for i in 0..m
        invariant
            prime@ == bn128_modulus(),
            are_tau_powers(powers@, w.tau@, n as nat),
            m <= n + 1,
            bg@ == w.beta@ * w.gamma@ % bn128_modulus(),
            beta_gamma_inv matches Some(bgi) ==> mod_inverse(bg@) == Some(bgi@),
            beta_gamma_inv is None ==> mod_inverse(bg@) is None,
            q@.len() == i,
            forall|j: int| 0 <= j < i ==> (#[trigger] q@[j])@ == ic_entry(w@, j as nat),
    {
        match &beta_gamma_inv {
            Some(bgi) => {
                let coeff = powers[i].mul(&w.beta).rem(prime).mul(bgi).rem(prime);
                let label = indexed_label("ic_", i);
                if i == 0 {
                    let alpha_beta_gamma = w.alpha.mul(&w.beta).rem(prime).mul(bgi).rem(prime);
                    let combined = coeff.add(&alpha_beta_gamma).rem(prime);
                    q.push(G1Point::simulated_scalar_mul(&combined, label.as_str()));
                } else {
                    q.push(G1Point::simulated_scalar_mul(&coeff, label.as_str()));
                }
            },
            None => {
                q.push(G1Point::infinity());
            },
        }
    }
    assert(g1_points(q@) =~= Seq::new(m as nat, |i: int| ic_entry(w@, i as nat)));
    q
}

/// Each point of a derived reference string is the simulated multiple of
/// its own secret: the alpha points of alpha, the beta points of beta, gamma
/// of gamma, delta of delta; entry `i` of the A and B queries is alpha or
/// beta times `tau^i` (modulo the prime) under the label `a_q_i`, `bg1_q_i`
/// or `bg2_q_i`; the queries have `num_variables + 1` entries and H as many
/// as the larger count; one participant has contributed.
pub proof fn lemma_key_points(w: WasteModel, num_constraints: nat, num_variables: nat)
    ensures
        ({
            let c = crs_from_waste(w, num_constraints, num_variables);
            let p = bn128_modulus() as int;
            &&& c.pk.alpha_g1 == g1_point(w.alpha, "alpha_g1"@)
            &&& c.pk.beta_g1 == g1_point(w.beta, "beta_g1"@)
            &&& c.pk.beta_g2 == g2_point(w.beta, "beta_g2"@)
            &&& c.pk.delta_g2 == g2_point(w.delta, "delta_g2"@)
            &&& c.vk.alpha_g1 == g1_point(w.alpha, "alpha_g1"@)
            &&& c.vk.beta_g2 == g2_point(w.beta, "beta_g2"@)
            &&& c.vk.gamma_g2 == g2_point(w.gamma, "gamma_g2"@)
            &&& c.vk.delta_g2 == g2_point(w.delta, "delta_g2"@)
            &&& c.pk.a_query.len() == num_variables + 1
            &&& c.pk.b_g1_query.len() == num_variables + 1
            &&& c.pk.b_g2_query.len() == num_variables + 1
            &&& c.pk.l_query.len() == num_variables + 1
            &&& c.vk.ic.len() == num_variables + 1
            &&& c.pk.h_query.len() == (if num_constraints > num_variables {
                num_constraints
            } else {
                num_variables
            })
            &&& c.participant_count == 1
            &&& forall|i: int|
                0 <= i <= num_variables ==> {
                    let tp = pow(w.tau as int, i as nat) % p;
                    &&& #[trigger] c.pk.a_query[i] == g1_point(
                        ((w.alpha * tp) % p) as nat,
                        "a_q_"@ + decimal_text(i as nat),
                    )
                    &&& c.pk.b_g1_query[i] == g1_point(
                        ((w.beta * tp) % p) as nat,
                        "bg1_q_"@ + decimal_text(i as nat),
                    )
                    &&& c.pk.b_g2_query[i] == g2_point(
                        ((w.beta * tp) % p) as nat,
                        "bg2_q_"@ + decimal_text(i as nat),
                    )
                }
        }),
{
}

impl CRS {
    /// The reference string derived from `waste` for a circuit with the
    /// given numbers of constraints and variables (see `crs_from_waste`).
    pub fn from_toxic_waste(waste: &ToxicWaste, num_constraints: usize, num_variables: usize) -> (r: CRS)
        requires
            num_constraints <= usize::MAX / 2 + 1,
            num_variables <= usize::MAX / 2 + 1,
        ensures
            r@ == crs_from_waste(waste@, num_constraints as nat, num_variables as nat),
            r.proving_key.alpha_g1@ == g1_point(waste.alpha@, "alpha_g1"@),
            r.proving_key.beta_g1@ == g1_point(waste.beta@, "beta_g1"@),
            r.proving_key.beta_g2@ == g2_point(waste.beta@, "beta_g2"@),
            r.proving_key.delta_g2@ == g2_point(waste.delta@, "delta_g2"@),
            r.verification_key.gamma_g2@ == g2_point(waste.gamma@, "gamma_g2"@),
    {
        proof {
            lemma_key_points(waste@, num_constraints as nat, num_variables as nat);
        }
        let prime = bn128_prime();
        let n: usize = if num_constraints > num_variables {
            num_constraints
        } else {
            num_variables
        };
        let m: usize = num_variables + 1;

        let alpha_g1 = G1Point::simulated_scalar_mul(&waste.alpha, "alpha_g1");
        let beta_g1 = G1Point::simulated_scalar_mul(&waste.beta, "beta_g1");
        let beta_g2 = G2Point::simulated_scalar_mul(&waste.beta, "beta_g2");
        let delta_g2 = G2Point::simulated_scalar_mul(&waste.delta, "delta_g2");

        let powers = tau_powers(&waste.tau, n, &prime);
        let a_query = a_query_points(waste, &powers, n, m, &prime);
        let b_g1_query = b_g1_query_points(waste, &powers, n, m, &prime);
        let b_g2_query = b_g2_query_points(waste, &powers, n, m, &prime);
        let l_query = l_query_points(waste, &powers, n, m, &prime);
        let h_query = h_query_points(waste, &powers, n, &prime);

        let gamma_g2 = G2Point::simulated_scalar_mul(&waste.gamma, "gamma_g2");
        let ic = ic_points(waste, &powers, n, m, &prime);

        let proving_key = ProvingKey {
            alpha_g1: alpha_g1.clone(),
            beta_g1,
            beta_g2: beta_g2.clone(),
            delta_g2: delta_g2.clone(),
            a_query,
            b_g1_query,
            b_g2_query,
            l_query,
            h_query,
        };
        let verification_key = VerificationKey { alpha_g1, beta_g2, gamma_g2, delta_g2, ic };
        let r = CRS {
            proving_key,
            verification_key,
            num_constraints,
            num_variables,
            participant_count: 1,
        };
        assert(r@.pk =~= crs_from_waste(waste@, num_constraints as nat, num_variables as nat).pk);
        assert(r@.vk =~= crs_from_waste(waste@, num_constraints as nat, num_variables as nat).vk);
        r
    }
}

/// The reference string after a participant with waste `w` contributes:
/// every point is derived afresh from the new secrets under an `mpc_` label
/// (tau for the A and B queries, gamma for L and IC, delta for H), the
/// queries keep their lengths, and one more participant is counted.
pub open spec fn contributed(c: CrsModel, w: WasteModel) -> CrsModel {
    CrsModel {
        pk: PkModel {
            alpha_g1: g1_point(w.alpha, "mpc_alpha_g1"@),
            beta_g1: g1_point(w.beta, "mpc_beta_g1"@),
            beta_g2: g2_point(w.beta, "mpc_beta_g2"@),
            delta_g2: g2_point(w.delta, "mpc_delta_g2"@),
            a_query: Seq::new(c.pk.a_query.len(), |i: int| g1_point(w.tau, indexed("mpc_a_"@, i as nat))),
            b_g1_query: Seq::new(
                c.pk.b_g1_query.len(),
                |i: int| g1_point(w.tau, indexed("mpc_bg1_"@, i as nat)),
            ),
            b_g2_query: Seq::new(
                c.pk.b_g2_query.len(),
                |i: int| g2_point(w.tau, indexed("mpc_bg2_"@, i as nat)),
            ),
            l_query: Seq::new(c.pk.l_query.len(), |i: int| g1_point(w.gamma, indexed("mpc_l_"@, i as nat))),
            h_query: Seq::new(c.pk.h_query.len(), |i: int| g1_point(w.delta, indexed("mpc_h_"@, i as nat))),
        },
        vk: VkModel {
            alpha_g1: g1_point(w.alpha, "mpc_vk_alpha"@),
            beta_g2: g2_point(w.beta, "mpc_vk_beta"@),
            gamma_g2: g2_point(w.gamma, "mpc_vk_gamma"@),
            delta_g2: g2_point(w.delta, "mpc_vk_delta"@),
            ic: Seq::new(c.vk.ic.len(), |i: int| g1_point(w.gamma, indexed("mpc_ic_"@, i as nat))),
        },
        num_constraints: c.num_constraints,
        num_variables: c.num_variables,
        participant_count: c.participant_count + 1,
    }
}

/// `count` first-group points for `scalar`, labelled `prefix` and their
/// index.
fn labelled_g1_points(count: usize, scalar: &Natural, prefix: &str) -> (r: Vec<G1Point>)
    ensures
        g1_points(r@) == Seq::new(count as nat, |i: int| g1_point(scalar@, indexed(prefix@, i as nat))),
{
    let mut q: Vec<G1Point> = Vec::new();
    for i in 0..count
        invariant
            q@.len() == i,
            forall|j: int| 0 <= j < i ==> (#[trigger] q@[j])@ == g1_point(scalar@, indexed(prefix@, j as nat)),
    {
        let label = indexed_label(prefix, i);
        q.push(G1Point::simulated_scalar_mul(scalar, label.as_str()));
    }
    assert(g1_points(q@) =~= Seq::new(count as nat, |i: int| g1_point(scalar@, indexed(prefix@, i as nat))));
    q
}

/// `count` second-group points for `scalar`, labelled `prefix` and their
/// index.
fn labelled_g2_points(count: usize, scalar: &Natural, prefix: &str) -> (r: Vec<G2Point>)
    ensures
        g2_points(r@) == Seq::new(count as nat, |i: int| g2_point(scalar@, indexed(prefix@, i as nat))),
{
    let mut q: Vec<G2Point> = Vec::new();
    for i in 0..count
        invariant
            q@.len() == i,
            forall|j: int| 0 <= j < i ==> (#[trigger] q@[j])@ == g2_point(scalar@, indexed(prefix@, j as nat)),
    {
        let label = indexed_label(prefix, i);
        q.push(G2Point::simulated_scalar_mul(scalar, label.as_str()));
    }
    assert(g2_points(q@) =~= Seq::new(count as nat, |i: int| g2_point(scalar@, indexed(prefix@, i as nat))));
    q
}

/// The bytes of the magic `G16CRS00`.
pub open spec fn crs_magic() -> Seq<u8> {
    seq![0x47u8, 0x31u8, 0x36u8, 0x43u8, 0x52u8, 0x53u8, 0x30u8, 0x30u8]
}

/// The bytes of the magic `G16VK000`.
pub open spec fn vk_magic() -> Seq<u8> {
    seq![0x47u8, 0x31u8, 0x36u8, 0x56u8, 0x4bu8, 0x30u8, 0x30u8, 0x30u8]
}

/// The three counts of a reference string, each a little-endian u64.
pub open spec fn counts_bytes(c: CrsModel) -> Seq<u8> {
    le_u64(c.num_constraints as u64) + le_u64(c.num_variables as u64) + le_u64(
        c.participant_count as u64,
    )
}

/// The encoding of a reference string: its magic, its counts, then the
/// minimal big-endian bytes of the proving key's alpha and beta points (x
/// and y) and of the verification key's alpha x and the first x coordinate
/// of its beta, gamma and delta points.
pub open spec fn crs_bytes(c: CrsModel) -> Seq<u8> {
    crs_magic() + counts_bytes(c) + be_bytes(c.pk.alpha_g1.x) + be_bytes(c.pk.alpha_g1.y) + be_bytes(
        c.pk.beta_g1.x,
    ) + be_bytes(c.pk.beta_g1.y) + be_bytes(c.vk.alpha_g1.x) + be_bytes(c.vk.beta_g2.x_c0) + be_bytes(
        c.vk.gamma_g2.x_c0,
    ) + be_bytes(c.vk.delta_g2.x_c0)
}

/// The encoding of a verification key: its magic, the counts, then the
/// minimal big-endian bytes of alpha (x and y), beta (first x and first y)
/// and the first x coordinate of gamma and delta.
pub open spec fn vk_bytes(c: CrsModel) -> Seq<u8> {
    vk_magic() + counts_bytes(c) + be_bytes(c.vk.alpha_g1.x) + be_bytes(c.vk.alpha_g1.y) + be_bytes(
        c.vk.beta_g2.x_c0,
    ) + be_bytes(c.vk.beta_g2.y_c0) + be_bytes(c.vk.gamma_g2.x_c0) + be_bytes(c.vk.delta_g2.x_c0)
}

/// Appends the minimal big-endian bytes of `n`.
fn push_natural(out: &mut Vec<u8>, n: &Natural)
    ensures
        final(out)@ == old(out)@ + be_bytes(n@),
{
    let bytes = n.to_bytes_be();
    push_bytes(out, bytes.as_slice());
}

impl CRS {
    /// Derives every point afresh from a participant's waste `w` (see
    /// `contributed`).
    pub fn contribute(&mut self, w: &ToxicWaste)
        requires
            old(self).participant_count < usize::MAX,
        ensures
            final(self)@ == contributed(old(self)@, w@),
    {
        let pk = &mut self.proving_key;
        pk.alpha_g1 = G1Point::simulated_scalar_mul(&w.alpha, "mpc_alpha_g1");
        pk.beta_g1 = G1Point::simulated_scalar_mul(&w.beta, "mpc_beta_g1");
        pk.beta_g2 = G2Point::simulated_scalar_mul(&w.beta, "mpc_beta_g2");
        pk.delta_g2 = G2Point::simulated_scalar_mul(&w.delta, "mpc_delta_g2");
        pk.a_query = labelled_g1_points(pk.a_query.len(), &w.tau, "mpc_a_");
        pk.b_g1_query = labelled_g1_points(pk.b_g1_query.len(), &w.tau, "mpc_bg1_");
        pk.b_g2_query = labelled_g2_points(pk.b_g2_query.len(), &w.tau, "mpc_bg2_");
        pk.l_query = labelled_g1_points(pk.l_query.len(), &w.gamma, "mpc_l_");
        pk.h_query = labelled_g1_points(pk.h_query.len(), &w.delta, "mpc_h_");

        let vk = &mut self.verification_key;
        vk.alpha_g1 = G1Point::simulated_scalar_mul(&w.alpha, "mpc_vk_alpha");
        vk.beta_g2 = G2Point::simulated_scalar_mul(&w.beta, "mpc_vk_beta");
        vk.gamma_g2 = G2Point::simulated_scalar_mul(&w.gamma, "mpc_vk_gamma");
        vk.delta_g2 = G2Point::simulated_scalar_mul(&w.delta, "mpc_vk_delta");
        vk.ic = labelled_g1_points(vk.ic.len(), &w.gamma, "mpc_ic_");

        self.participant_count = self.participant_count + 1;
        assert(self@.pk =~= contributed(old(self)@, w@).pk);
        assert(self@.vk =~= contributed(old(self)@, w@).vk);
    }

    /// One more participant's contribution: fresh random waste (as
    /// `ToxicWaste::secure_random`), from which every point is derived
    /// afresh; the waste is handed back, boxed, for the caller to destroy.
    /// When the box cannot be made, the reference string is left as it was.
    pub fn apply_mpc_contribution(&mut self) -> (r: Result<SecureBox<ToxicWaste>, String>)
        requires
            old(self).participant_count < usize::MAX,
        ensures
            r is Ok <==> vstd::layout::size_of::<ToxicWaste>() != 0,
            match r {
                Ok(b) => b.is_live() && !b.is_locked() && waste_in_range(b.content()@, bn128_modulus())
                    && final(self)@ == contributed(old(self)@, b.content()@),
                Err(e) => e@ == "SecureBox: zero-sized type"@ && final(self)@ == old(self)@,
            },
    {
        let prime = bn128_prime();
        let waste = match ToxicWaste::secure_random(&prime) {
            Ok(b) => b,
            Err(e) => return Err(e),
        };
        self.contribute(waste.get());
        Ok(waste)
    }

    /// The encoding of the whole reference string (see `crs_bytes`).
    pub fn serialize_to_bytes(&self) -> (r: Vec<u8>)
        ensures
            r@ == crs_bytes(self@),
    {
        let mut buf: Vec<u8> = Vec::new();
        buf.push(0x47u8);
        buf.push(0x31u8);
        buf.push(0x36u8);
        buf.push(0x43u8);
        buf.push(0x52u8);
        buf.push(0x53u8);
        buf.push(0x30u8);
        buf.push(0x30u8);
        assert(buf@ =~= crs_magic());
        write_u64(&mut buf, self.num_constraints as u64);
        write_u64(&mut buf, self.num_variables as u64);
        write_u64(&mut buf, self.participant_count as u64);
        assert(buf@ =~= crs_magic() + counts_bytes(self@));
        push_natural(&mut buf, &self.proving_key.alpha_g1.x);
        push_natural(&mut buf, &self.proving_key.alpha_g1.y);
        push_natural(&mut buf, &self.proving_key.beta_g1.x);
        push_natural(&mut buf, &self.proving_key.beta_g1.y);
        push_natural(&mut buf, &self.verification_key.alpha_g1.x);
        push_natural(&mut buf, &self.verification_key.beta_g2.x_c0);
        push_natural(&mut buf, &self.verification_key.gamma_g2.x_c0);
        push_natural(&mut buf, &self.verification_key.delta_g2.x_c0);
        buf
    }

    /// The encoding of the verification key (see `vk_bytes`).
    pub fn serialize_vk_to_bytes(&self) -> (r: Vec<u8>)
        ensures
            r@ == vk_bytes(self@),
    {
        let mut buf: Vec<u8> = Vec::new();
        buf.push(0x47u8);
        buf.push(0x31u8);
        buf.push(0x36u8);
        buf.push(0x56u8);
        buf.push(0x4bu8);
        buf.push(0x30u8);
        buf.push(0x30u8);
        buf.push(0x30u8);
        assert(buf@ =~= vk_magic());
        write_u64(&mut buf, self.num_constraints as u64);
        write_u64(&mut buf, self.num_variables as u64);
        write_u64(&mut buf, self.participant_count as u64);
        assert(buf@ =~= vk_magic() + counts_bytes(self@));
        push_natural(&mut buf, &self.verification_key.alpha_g1.x);
        push_natural(&mut buf, &self.verification_key.alpha_g1.y);
        push_natural(&mut buf, &self.verification_key.beta_g2.x_c0);
        push_natural(&mut buf, &self.verification_key.beta_g2.y_c0);
        push_natural(&mut buf, &self.verification_key.gamma_g2.x_c0);
        push_natural(&mut buf, &self.verification_key.delta_g2.x_c0);
        buf
    }
}

} // verus!
