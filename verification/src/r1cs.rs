//! Linear combinations over a prime field and rank-1 constraint systems.

use std::collections::BTreeMap;
use vstd::prelude::*;
use vstd::std_specs::cmp::OrdSpec;
use vstd::std_specs::iter::IteratorSpec;

use crate::natural::{
    decimal_text, decimal_value, is_decimal_text, lemma_decimal_take, usize_to_decimal, Natural,
};

verus! {

/// The decimal digits of the BN128 scalar field modulus.
pub const BN128_PRIME_HEX: &'static str = "21888242871839275222246405745257275088548364400416034343698204186575808495617";

/// The BN128 scalar field modulus.
pub open spec fn bn128_modulus() -> nat {
    21888242871839275222246405745257275088548364400416034343698204186575808495617nat
}

#[verifier::rlimit(100)]
proof fn lemma_bn128_text()
    ensures
        is_decimal_text(BN128_PRIME_HEX@),
        decimal_value(BN128_PRIME_HEX@) == bn128_modulus(),
{
    reveal_strlit("21888242871839275222246405745257275088548364400416034343698204186575808495617");
    let s = BN128_PRIME_HEX@;
    assert(s.take(0) =~= Seq::<char>::empty());
    lemma_decimal_take(s, 0);
    assert(decimal_value(s.take(1)) == 2nat);
    lemma_decimal_take(s, 1);
    assert(decimal_value(s.take(2)) == 21nat);
    lemma_decimal_take(s, 2);
    assert(decimal_value(s.take(3)) == 218nat);
    lemma_decimal_take(s, 3);
    assert(decimal_value(s.take(4)) == 2188nat);
    lemma_decimal_take(s, 4);
    assert(decimal_value(s.take(5)) == 21888nat);
    lemma_decimal_take(s, 5);
    assert(decimal_value(s.take(6)) == 218882nat);
    lemma_decimal_take(s, 6);
    assert(decimal_value(s.take(7)) == 2188824nat);
    lemma_decimal_take(s, 7);
    assert(decimal_value(s.take(8)) == 21888242nat);
    lemma_decimal_take(s, 8);
    assert(decimal_value(s.take(9)) == 218882428nat);
    lemma_decimal_take(s, 9);
    assert(decimal_value(s.take(10)) == 2188824287nat);
    lemma_decimal_take(s, 10);
    assert(decimal_value(s.take(11)) == 21888242871nat);
    lemma_decimal_take(s, 11);
    assert(decimal_value(s.take(12)) == 218882428718nat);
    lemma_decimal_take(s, 12);
    assert(decimal_value(s.take(13)) == 2188824287183nat);
    lemma_decimal_take(s, 13);
    assert(decimal_value(s.take(14)) == 21888242871839nat);
    lemma_decimal_take(s, 14);
    assert(decimal_value(s.take(15)) == 218882428718392nat);
    lemma_decimal_take(s, 15);
    assert(decimal_value(s.take(16)) == 2188824287183927nat);
    lemma_decimal_take(s, 16);
    assert(decimal_value(s.take(17)) == 21888242871839275nat);
    lemma_decimal_take(s, 17);
    assert(decimal_value(s.take(18)) == 218882428718392752nat);
    lemma_decimal_take(s, 18);
    assert(decimal_value(s.take(19)) == 2188824287183927522nat);
    lemma_decimal_take(s, 19);
    assert(decimal_value(s.take(20)) == 21888242871839275222nat);
    lemma_decimal_take(s, 20);
    assert(decimal_value(s.take(21)) == 218882428718392752222nat);
    lemma_decimal_take(s, 21);
    assert(decimal_value(s.take(22)) == 2188824287183927522224nat);
    lemma_decimal_take(s, 22);
    assert(decimal_value(s.take(23)) == 21888242871839275222246nat);
    lemma_decimal_take(s, 23);
    assert(decimal_value(s.take(24)) == 218882428718392752222464nat);
    lemma_decimal_take(s, 24);
    assert(decimal_value(s.take(25)) == 2188824287183927522224640nat);
    lemma_decimal_take(s, 25);
    assert(decimal_value(s.take(26)) == 21888242871839275222246405nat);
    lemma_decimal_take(s, 26);
    assert(decimal_value(s.take(27)) == 218882428718392752222464057nat);
    lemma_decimal_take(s, 27);
    assert(decimal_value(s.take(28)) == 2188824287183927522224640574nat);
    lemma_decimal_take(s, 28);
    assert(decimal_value(s.take(29)) == 21888242871839275222246405745nat);
    lemma_decimal_take(s, 29);
    assert(decimal_value(s.take(30)) == 218882428718392752222464057452nat);
    lemma_decimal_take(s, 30);
    assert(decimal_value(s.take(31)) == 2188824287183927522224640574525nat);
    lemma_decimal_take(s, 31);
    assert(decimal_value(s.take(32)) == 21888242871839275222246405745257nat);
    lemma_decimal_take(s, 32);
    assert(decimal_value(s.take(33)) == 218882428718392752222464057452572nat);
    lemma_decimal_take(s, 33);
    assert(decimal_value(s.take(34)) == 2188824287183927522224640574525727nat);
    lemma_decimal_take(s, 34);
    assert(decimal_value(s.take(35)) == 21888242871839275222246405745257275nat);
    lemma_decimal_take(s, 35);
    assert(decimal_value(s.take(36)) == 218882428718392752222464057452572750nat);
    lemma_decimal_take(s, 36);
    assert(decimal_value(s.take(37)) == 2188824287183927522224640574525727508nat);
    lemma_decimal_take(s, 37);
    assert(decimal_value(s.take(38)) == 21888242871839275222246405745257275088nat);
    lemma_decimal_take(s, 38);
    assert(decimal_value(s.take(39)) == 218882428718392752222464057452572750885nat);
    lemma_decimal_take(s, 39);
    assert(decimal_value(s.take(40)) == 2188824287183927522224640574525727508854nat);
    lemma_decimal_take(s, 40);
    assert(decimal_value(s.take(41)) == 21888242871839275222246405745257275088548nat);
    lemma_decimal_take(s, 41);
    assert(decimal_value(s.take(42)) == 218882428718392752222464057452572750885483nat);
    lemma_decimal_take(s, 42);
    assert(decimal_value(s.take(43)) == 2188824287183927522224640574525727508854836nat);
    lemma_decimal_take(s, 43);
    assert(decimal_value(s.take(44)) == 21888242871839275222246405745257275088548364nat);
    lemma_decimal_take(s, 44);
    assert(decimal_value(s.take(45)) == 218882428718392752222464057452572750885483644nat);
    lemma_decimal_take(s, 45);
    assert(decimal_value(s.take(46)) == 2188824287183927522224640574525727508854836440nat);
    lemma_decimal_take(s, 46);
    assert(decimal_value(s.take(47)) == 21888242871839275222246405745257275088548364400nat);
    lemma_decimal_take(s, 47);
    assert(decimal_value(s.take(48)) == 218882428718392752222464057452572750885483644004nat);
    lemma_decimal_take(s, 48);
    assert(decimal_value(s.take(49)) == 2188824287183927522224640574525727508854836440041nat);
    lemma_decimal_take(s, 49);
    assert(decimal_value(s.take(50)) == 21888242871839275222246405745257275088548364400416nat);
    lemma_decimal_take(s, 50);
    assert(decimal_value(s.take(51)) == 218882428718392752222464057452572750885483644004160nat);
    lemma_decimal_take(s, 51);
    assert(decimal_value(s.take(52)) == 2188824287183927522224640574525727508854836440041603nat);
    lemma_decimal_take(s, 52);
    assert(decimal_value(s.take(53)) == 21888242871839275222246405745257275088548364400416034nat);
    lemma_decimal_take(s, 53);
    assert(decimal_value(s.take(54)) == 218882428718392752222464057452572750885483644004160343nat);
    lemma_decimal_take(s, 54);
    assert(decimal_value(s.take(55)) == 2188824287183927522224640574525727508854836440041603434nat);
    lemma_decimal_take(s, 55);
    assert(decimal_value(s.take(56)) == 21888242871839275222246405745257275088548364400416034343nat);
    lemma_decimal_take(s, 56);
    assert(decimal_value(s.take(57)) == 218882428718392752222464057452572750885483644004160343436nat);
    lemma_decimal_take(s, 57);
    assert(decimal_value(s.take(58)) == 2188824287183927522224640574525727508854836440041603434369nat);
    lemma_decimal_take(s, 58);
    assert(decimal_value(s.take(59)) == 21888242871839275222246405745257275088548364400416034343698nat);
    lemma_decimal_take(s, 59);
    assert(decimal_value(s.take(60)) == 218882428718392752222464057452572750885483644004160343436982nat);
    lemma_decimal_take(s, 60);
    assert(decimal_value(s.take(61)) == 2188824287183927522224640574525727508854836440041603434369820nat);
    lemma_decimal_take(s, 61);
    assert(decimal_value(s.take(62)) == 21888242871839275222246405745257275088548364400416034343698204nat);
    lemma_decimal_take(s, 62);
    assert(decimal_value(s.take(63)) == 218882428718392752222464057452572750885483644004160343436982041nat);
    lemma_decimal_take(s, 63);
    assert(decimal_value(s.take(64)) == 2188824287183927522224640574525727508854836440041603434369820418nat);
    lemma_decimal_take(s, 64);
    assert(decimal_value(s.take(65)) == 21888242871839275222246405745257275088548364400416034343698204186nat);
    lemma_decimal_take(s, 65);
    assert(decimal_value(s.take(66)) == 218882428718392752222464057452572750885483644004160343436982041865nat);
    lemma_decimal_take(s, 66);
    assert(decimal_value(s.take(67)) == 2188824287183927522224640574525727508854836440041603434369820418657nat);
    lemma_decimal_take(s, 67);
    assert(decimal_value(s.take(68)) == 21888242871839275222246405745257275088548364400416034343698204186575nat);
    lemma_decimal_take(s, 68);
    assert(decimal_value(s.take(69)) == 218882428718392752222464057452572750885483644004160343436982041865758nat);
    lemma_decimal_take(s, 69);
    assert(decimal_value(s.take(70)) == 2188824287183927522224640574525727508854836440041603434369820418657580nat);
    lemma_decimal_take(s, 70);
    assert(decimal_value(s.take(71)) == 21888242871839275222246405745257275088548364400416034343698204186575808nat);
    lemma_decimal_take(s, 71);
    assert(decimal_value(s.take(72)) == 218882428718392752222464057452572750885483644004160343436982041865758084nat);
    lemma_decimal_take(s, 72);
    assert(decimal_value(s.take(73)) == 2188824287183927522224640574525727508854836440041603434369820418657580849nat);
    lemma_decimal_take(s, 73);
    assert(decimal_value(s.take(74)) == 21888242871839275222246405745257275088548364400416034343698204186575808495nat);
    lemma_decimal_take(s, 74);
    assert(decimal_value(s.take(75)) == 218882428718392752222464057452572750885483644004160343436982041865758084956nat);
    lemma_decimal_take(s, 75);
    assert(decimal_value(s.take(76)) == 2188824287183927522224640574525727508854836440041603434369820418657580849561nat);
    lemma_decimal_take(s, 76);
    assert(decimal_value(s.take(77)) == 21888242871839275222246405745257275088548364400416034343698204186575808495617nat);
    assert(s.take(77) =~= s);
}

/// The BN128 scalar field modulus, read from its decimal digits.
pub fn bn128_prime() -> (r: Natural)
    ensures
        r@ == bn128_modulus(),
{
    proof {
        lemma_bn128_text();
    }
    Natural::parse_decimal(BN128_PRIME_HEX)
}

/// The value stored for `k` in `m`, or zero when `k` has no entry.
pub open spec fn coeff_or_zero(m: Map<usize, nat>, k: usize) -> nat {
    if m.contains_key(k) {
        m[k]
    } else {
        0
    }
}

/// The terms of `a + b` with each touched coefficient reduced modulo `p`:
/// an index that only `a` has keeps `a`'s coefficient as it is; an index of
/// `b` gets `(a[k] + b[k]) % p` and disappears when that is zero.
pub open spec fn spec_lc_add(a: Map<usize, nat>, b: Map<usize, nat>, p: nat) -> Map<usize, nat> {
    Map::new(
        |k: usize|
            (a.contains_key(k) && !b.contains_key(k)) || (b.contains_key(k) && (coeff_or_zero(a, k)
                + b[k]) % p != 0),
        |k: usize|
            if b.contains_key(k) {
                (coeff_or_zero(a, k) + b[k]) % p
            } else {
                a[k]
            },
    )
}

/// Whether every coefficient in `m` is at most `p`.
pub open spec fn coeffs_bounded(m: Map<usize, nat>, p: nat) -> bool {
    forall|k: usize| #[trigger] m.contains_key(k) ==> m[k] <= p
}

/// Adding to a combination whose coefficients are at most `p` keeps them so.
pub proof fn lemma_lc_add_bounded(a: Map<usize, nat>, b: Map<usize, nat>, p: nat)
    requires
        p > 0,
        coeffs_bounded(a, p),
    ensures
        coeffs_bounded(spec_lc_add(a, b, p), p),
{
}

/// Negating coefficients that are at most `p` gives coefficients at most `p`.
pub proof fn lemma_lc_neg_bounded(b: Map<usize, nat>, p: nat)
    requires
        coeffs_bounded(b, p),
    ensures
        coeffs_bounded(spec_lc_neg(b, p), p),
{
}

/// The additive inverse of a coefficient `v <= p` in the field of order `p`,
/// written as a value in `[0, p)` (zero stays zero).
pub open spec fn neg_coeff(v: nat, p: nat) -> nat {
    if v == 0 {
        0
    } else {
        (p - v) as nat
    }
}

/// Each coefficient of `b` replaced by its additive inverse modulo `p`.
pub open spec fn spec_lc_neg(b: Map<usize, nat>, p: nat) -> Map<usize, nat> {
    b.map_values(|v: nat| neg_coeff(v, p))
}

/// The terms of `a * s`: each coefficient times `s` modulo `p`, zeros dropped.
pub open spec fn spec_lc_scale(a: Map<usize, nat>, s: nat, p: nat) -> Map<usize, nat> {
    Map::new(|k: usize| a.contains_key(k) && (a[k] * s) % p != 0, |k: usize| (a[k] * s) % p)
}

/// Iterating a map yields each of its keys once, each with its value.
pub proof fn lemma_iter_keys(m: &BTreeMap<usize, Natural>)
    ensures
        ({
            let pairs = m.iter().remaining();
            let keys = m.iter().remaining().map_values(|kv: (&usize, &Natural)| *kv.0);
            &&& keys.len() == pairs.len()
            &&& keys.no_duplicates()
            &&& forall|i: int|
                0 <= i < pairs.len() ==> m@.contains_key(#[trigger] keys[i]) && m@[keys[i]]
                    == *pairs[i].1 && keys[i] == *pairs[i].0
            &&& forall|k: usize| m@.contains_key(k) ==> keys.contains(k)
        }),
{
    let pairs = m.iter().remaining();
    let keys = m.iter().remaining().map_values(|kv: (&usize, &Natural)| *kv.0);
    assert forall|i: int| 0 <= i < pairs.len() implies m@.contains_key(#[trigger] keys[i])
        && m@[keys[i]] == *pairs[i].1 && keys[i] == *pairs[i].0 by {
        assert(m@.contains_key(*pairs[i].0));
    }
    assert forall|k: usize| m@.contains_key(k) implies keys.contains(k) by {
        assert(pairs.contains((&k, &m@[k])));
        let i = choose|i: int| 0 <= i < pairs.len() && pairs[i] == (&k, &m@[k]);
        assert(keys[i] == k);
    }
    assert(keys.to_set() =~= m@.dom()) by {
        assert forall|k: usize| #[trigger] keys.to_set().contains(k) implies m@.dom().contains(k) by {
            let i = choose|i: int| 0 <= i < keys.len() && keys[i] == k;
            assert(m@.contains_key(keys[i]));
        }
    }
    keys.lemma_no_dup_set_cardinality();
}

/// The least element of a set of indices (meaningful when it is finite and
/// not empty).
pub open spec fn least(s: Set<usize>) -> usize {
    choose|k: usize| s.contains(k) && forall|j: usize| s.contains(j) ==> k <= j
}

/// A finite non-empty set of indices has a least element.
pub proof fn lemma_least(s: Set<usize>)
    requires
        s.finite(),
        s.len() > 0,
    ensures
        s.contains(least(s)),
        forall|j: usize| s.contains(j) ==> least(s) <= j,
    decreases s.len(),
{
    let x = s.choose();
    let rest = s.remove(x);
    if rest.len() == 0 {
        assert forall|j: usize| s.contains(j) implies x <= j by {
            if j != x {
                assert(rest.contains(j));
            }
        }
    } else {
        lemma_least(rest);
        let m = least(rest);
        if m < x {
            assert forall|j: usize| s.contains(j) implies m <= j by {
                if j != x {
                    assert(rest.contains(j));
                }
            }
        } else {
            assert forall|j: usize| s.contains(j) implies x <= j by {
                if j != x {
                    assert(rest.contains(j));
                }
            }
        }
    }
}

/// The elements of a finite set of indices in increasing order.
pub open spec fn ascending(s: Set<usize>) -> Seq<usize>
    decreases s.len(),
{
    if !s.finite() || s.len() == 0 {
        Seq::empty()
    } else {
        proof {
            lemma_least(s);
        }
        seq![least(s)] + ascending(s.remove(least(s)))
    }
}

/// Whether a sequence of indices is strictly increasing.
pub open spec fn strictly_increasing(x: Seq<usize>) -> bool {
    forall|i: int, j: int| 0 <= i < j < x.len() ==> x[i] < x[j]
}

/// A strictly increasing sequence lists its own elements in ascending order.
pub proof fn lemma_ascending_unique(x: Seq<usize>)
    requires
        strictly_increasing(x),
    ensures
        ascending(x.to_set()) == x,
    decreases x.len(),
{
    let s = x.to_set();
    if x.len() == 0 {
        assert(s =~= Set::<usize>::empty());
    } else {
        assert(s.contains(x[0]));
        vstd::seq_lib::seq_to_set_is_finite(x);
        assert(s.len() > 0);
        lemma_least(s);
        let k = least(s);
        assert(k == x[0]) by {
            let i = choose|i: int| 0 <= i < x.len() && x[i] == k;
            if i > 0 {
                assert(x[0] < x[i]);
            }
        }
        let rest = x.drop_first();
        assert(rest.to_set() =~= s.remove(k)) by {
            assert forall|v: usize| #[trigger] s.remove(k).contains(v) implies rest.to_set().contains(v) by {
                let i = choose|i: int| 0 <= i < x.len() && x[i] == v;
                assert(rest[i - 1] == v);
            }
            assert forall|v: usize| #[trigger] rest.to_set().contains(v) implies s.remove(k).contains(v) by {
                let i = choose|i: int| 0 <= i < rest.len() && rest[i] == v;
                assert(x[i + 1] == v);
            }
        }
        lemma_ascending_unique(rest);
        assert(seq![k] + rest =~= x);
    }
}

/// Keys that a map iterator yields in increasing order are strictly increasing.
pub proof fn lemma_increasing_keys(keys: Seq<usize>)
    requires
        vstd::std_specs::btree::increasing_seq(keys),
    ensures
        strictly_increasing(keys),
{
    assert forall|a: int, b: int| 0 <= a < b < keys.len() implies keys[a] < keys[b] by {
        assert(keys[a].cmp_spec(&keys[b]) is Less);
    }
}

/// A key yielded at position `i` is not among those yielded before it.
proof fn lemma_fresh_key(keys: Seq<usize>, i: int)
    requires
        keys.no_duplicates(),
        0 <= i < keys.len(),
    ensures
        !keys.take(i).contains(keys[i]),
        keys.take(i + 1) =~= keys.take(i).push(keys[i]),
{
    if keys.take(i).contains(keys[i]) {
        let j = choose|j: int| 0 <= j < i && keys.take(i)[j] == keys[i];
        assert(keys[j] == keys[i]);
    }
}

/// A sum of coefficients times variables; index 0 is the constant wire `~one`.
pub struct LinearCombination {
    pub terms: BTreeMap<usize, Natural>,
}

impl LinearCombination {
    /// The coefficient of each index that has an entry.
    pub open spec fn coeffs(&self) -> Map<usize, nat> {
        self.terms@.map_values(|v: Natural| v@)
    }

    /// Whether every coefficient is at most `p`, as `sub` needs of its argument.
    pub open spec fn coeffs_at_most(&self, p: nat) -> bool {
        coeffs_bounded(self.coeffs(), p)
    }

    /// The empty combination (the constant zero).
    pub fn new() -> (r: LinearCombination)
        ensures
            r.coeffs() == Map::<usize, nat>::empty(),
    {
        let r = LinearCombination { terms: BTreeMap::new() };
        assert(r.coeffs() =~= Map::<usize, nat>::empty());
        r
    }

    /// The constant `val` (no entry at all when `val` is zero).
    pub fn from_constant(val: Natural) -> (r: LinearCombination)
        ensures
            val@ == 0 ==> r.coeffs() == Map::<usize, nat>::empty(),
            val@ != 0 ==> r.coeffs() == map![0usize => val@],
    {
        let mut lc = LinearCombination::new();
        if !val.is_zero() {
            let ghost v = val@;
            lc.terms.insert(0, val);
            assert(lc.coeffs() =~= map![0usize => v]);
        }
        lc
    }

    /// The single variable `idx` with coefficient one.
    pub fn from_var(idx: usize) -> (r: LinearCombination)
        ensures
            r.coeffs() == map![idx => 1nat],
    {
        let mut lc = LinearCombination::new();
        lc.terms.insert(idx, Natural::one());
        assert(lc.coeffs() =~= map![idx => 1nat]);
        lc
    }

    /// Whether every coefficient is zero (in particular, when there is none).
    pub fn is_zero(&self) -> (r: bool)
        ensures
            r == (forall|k: usize| #[trigger] self.coeffs().contains_key(k) ==> self.coeffs()[k] == 0),
    {
        let ghost pairs = self.terms.iter().remaining();
        let ghost keys = self.terms.iter().remaining().map_values(|kv: (&usize, &Natural)| *kv.0);
        proof {
            lemma_iter_keys(&self.terms);
        }
        for kv in it: self.terms.iter()
            invariant
                it.seq() == pairs,
                keys == self.terms.iter().remaining().map_values(|kv: (&usize, &Natural)| *kv.0),
                keys.len() == pairs.len(),
                forall|i: int|
                    0 <= i < pairs.len() ==> self.terms@.contains_key(#[trigger] keys[i])
                        && self.terms@[keys[i]] == *pairs[i].1 && keys[i] == *pairs[i].0,
                forall|k: usize| self.terms@.contains_key(k) ==> keys.contains(k),
                forall|j: int| 0 <= j < it.index() ==> (#[trigger] pairs[j]).1@ == 0,
        {
            let ghost i0 = it.index();
            let (_, coeff) = kv;
            assert(kv == pairs[i0]);
            if !coeff.is_zero() {
                assert(self.coeffs().contains_key(keys[i0]));
                return false;
            }
        }
        assert forall|k: usize| #[trigger] self.coeffs().contains_key(k) implies self.coeffs()[k] == 0 by {
            assert(keys.contains(k));
            let j = choose|j: int| 0 <= j < keys.len() && keys[j] == k;
            assert(pairs[j].1@ == 0);
        }
        true
    }

    /// The sum `self + other`, each coefficient that `other` touches reduced
    /// modulo `prime` and dropped when it becomes zero.
    pub fn add(&self, other: &LinearCombination, prime: &Natural) -> (r: LinearCombination)
        requires
            prime@ > 0,
        ensures
            r.coeffs() == spec_lc_add(self.coeffs(), other.coeffs(), prime@),
    {
        let mut result = self.terms.clone();
        let ghost a = self.coeffs();
        let ghost b = other.coeffs();
        let ghost pairs = other.terms.iter().remaining();
        let ghost keys = other.terms.iter().remaining().map_values(|kv: (&usize, &Natural)| *kv.0);
        proof {
            lemma_iter_keys(&other.terms);
        }
        for kv in it: other.terms.iter()
            invariant
                prime@ > 0,
                a == self.coeffs(),
                b == other.coeffs(),
                it.seq() == pairs,
                keys == other.terms.iter().remaining().map_values(|kv: (&usize, &Natural)| *kv.0),
                keys.len() == pairs.len(),
                keys.no_duplicates(),
                forall|i: int|
                    0 <= i < pairs.len() ==> other.terms@.contains_key(#[trigger] keys[i])
                        && other.terms@[keys[i]] == *pairs[i].1 && keys[i] == *pairs[i].0,
                forall|k: usize| other.terms@.contains_key(k) ==> keys.contains(k),
                forall|k: usize| #![trigger result@.contains_key(k)]
                    if keys.take(it.index()).contains(k) {
                        spec_lc_add(a, b, prime@).contains_key(k) == result@.contains_key(k) && (
                        result@.contains_key(k) ==> result@[k]@ == spec_lc_add(a, b, prime@)[k])
                    } else {
                        a.contains_key(k) == result@.contains_key(k) && (result@.contains_key(k)
                            ==> result@[k]@ == a[k])
                    },
        {
            let ghost i0 = it.index();
            let ghost before = result@;
            let (idx, coeff) = kv;
            assert(kv == pairs[i0]);
            proof {
                lemma_fresh_key(keys, i0);
            }
            let current = match result.get(idx) {
                Some(v) => v.clone(),
                None => Natural::zero(),
            };
            assert(current@ == coeff_or_zero(a, *idx));
            let sum = current.add(coeff).rem(prime);
            if sum.is_zero() {
                result.remove(idx);
            } else {
                result.insert(*idx, sum);
            }
            assert forall|k: usize| #![trigger result@.contains_key(k)]
                if keys.take(i0 + 1).contains(k) {
                    spec_lc_add(a, b, prime@).contains_key(k) == result@.contains_key(k) && (
                    result@.contains_key(k) ==> result@[k]@ == spec_lc_add(a, b, prime@)[k])
                } else {
                    a.contains_key(k) == result@.contains_key(k) && (result@.contains_key(k)
                        ==> result@[k]@ == a[k])
                } by {
                if k != *idx {
                    assert(keys.take(i0 + 1).contains(k) == keys.take(i0).contains(k));
                    assert(before.contains_key(k) == result@.contains_key(k));
                } else {
                    assert(keys.take(i0 + 1)[i0] == k);
                    assert(b.contains_key(k) && b[k] == coeff@);
                }
            }
        }
        assert(keys.take(keys.len() as int) =~= keys);
        assert forall|k: usize| #![trigger result@.contains_key(k)]
            spec_lc_add(a, b, prime@).contains_key(k) == result@.contains_key(k) && (
            result@.contains_key(k) ==> result@[k]@ == spec_lc_add(a, b, prime@)[k]) by {
            if !keys.contains(k) {
                assert(!b.contains_key(k));
            }
        }
        let r = LinearCombination { terms: result };
        assert(r.coeffs() =~= spec_lc_add(a, b, prime@));
        r
    }

    /// The difference `self - other`: `other`'s coefficients are negated
    /// modulo `prime` and then added. Each of them must be at most `prime`.
    pub fn sub(&self, other: &LinearCombination, prime: &Natural) -> (r: LinearCombination)
        requires
            prime@ > 0,
            other.coeffs_at_most(prime@),
        ensures
            r.coeffs() == spec_lc_add(self.coeffs(), spec_lc_neg(other.coeffs(), prime@), prime@),
    {
        let mut neg_terms: BTreeMap<usize, Natural> = BTreeMap::new();
        let ghost b = other.coeffs();
        let ghost nb = spec_lc_neg(b, prime@);
        let ghost pairs = other.terms.iter().remaining();
        let ghost keys = other.terms.iter().remaining().map_values(|kv: (&usize, &Natural)| *kv.0);
        proof {
            lemma_iter_keys(&other.terms);
        }
        for kv in it: other.terms.iter()
            invariant
                prime@ > 0,
                b == other.coeffs(),
                nb == spec_lc_neg(b, prime@),
                other.coeffs_at_most(prime@),
                it.seq() == pairs,
                keys == other.terms.iter().remaining().map_values(|kv: (&usize, &Natural)| *kv.0),
                keys.len() == pairs.len(),
                keys.no_duplicates(),
                forall|i: int|
                    0 <= i < pairs.len() ==> other.terms@.contains_key(#[trigger] keys[i])
                        && other.terms@[keys[i]] == *pairs[i].1 && keys[i] == *pairs[i].0,
                forall|k: usize| other.terms@.contains_key(k) ==> keys.contains(k),
                forall|k: usize| #![trigger neg_terms@.contains_key(k)]
                    neg_terms@.contains_key(k) == keys.take(it.index()).contains(k) && (
                    neg_terms@.contains_key(k) ==> neg_terms@[k]@ == nb[k]),
        {
            let ghost i0 = it.index();
            let ghost before = neg_terms@;
            let (idx, coeff) = kv;
            assert(kv == pairs[i0]);
            proof {
                lemma_fresh_key(keys, i0);
                assert(b.contains_key(*idx) && b[*idx] == coeff@);
            }
            let negated = if coeff.is_zero() {
                coeff.clone()
            } else {
                prime.sub(coeff)
            };
            neg_terms.insert(*idx, negated);
            assert forall|k: usize| #![trigger neg_terms@.contains_key(k)]
                neg_terms@.contains_key(k) == keys.take(i0 + 1).contains(k) && (
                neg_terms@.contains_key(k) ==> neg_terms@[k]@ == nb[k]) by {
                if k != *idx {
                    assert(keys.take(i0 + 1).contains(k) == keys.take(i0).contains(k));
                    assert(before.contains_key(k) == neg_terms@.contains_key(k));
                } else {
                    assert(keys.take(i0 + 1)[i0] == k);
                }
            }
        }
        assert(keys.take(keys.len() as int) =~= keys);
        let neg = LinearCombination { terms: neg_terms };
        assert(neg.coeffs() =~= nb) by {
            assert forall|k: usize| #[trigger] nb.contains_key(k) == neg.coeffs().contains_key(k) by {
                if b.contains_key(k) {
                    assert(keys.contains(k));
                }
            }
        }
        self.add(&neg, prime)
    }

    /// Every coefficient times `scalar` modulo `prime`, zeros dropped.
    pub fn scale(&self, scalar: &Natural, prime: &Natural) -> (r: LinearCombination)
        requires
            prime@ > 0,
        ensures
            r.coeffs() == spec_lc_scale(self.coeffs(), scalar@, prime@),
    {
        let mut result: BTreeMap<usize, Natural> = BTreeMap::new();
        let ghost a = self.coeffs();
        let ghost sa = spec_lc_scale(a, scalar@, prime@);
        let ghost pairs = self.terms.iter().remaining();
        let ghost keys = self.terms.iter().remaining().map_values(|kv: (&usize, &Natural)| *kv.0);
        proof {
            lemma_iter_keys(&self.terms);
        }
        for kv in it: self.terms.iter()
            invariant
                prime@ > 0,
                a == self.coeffs(),
                sa == spec_lc_scale(a, scalar@, prime@),
                it.seq() == pairs,
                keys == self.terms.iter().remaining().map_values(|kv: (&usize, &Natural)| *kv.0),
                keys.len() == pairs.len(),
                keys.no_duplicates(),
                forall|i: int|
                    0 <= i < pairs.len() ==> self.terms@.contains_key(#[trigger] keys[i])
                        && self.terms@[keys[i]] == *pairs[i].1 && keys[i] == *pairs[i].0,
                forall|k: usize| self.terms@.contains_key(k) ==> keys.contains(k),
                forall|k: usize| #![trigger result@.contains_key(k)]
                    result@.contains_key(k) == (keys.take(it.index()).contains(k)
                        && sa.contains_key(k)) && (result@.contains_key(k) ==> result@[k]@
                        == sa[k]),
        {
            let ghost i0 = it.index();
            let ghost before = result@;
            let (idx, coeff) = kv;
            assert(kv == pairs[i0]);
            proof {
                lemma_fresh_key(keys, i0);
                assert(a.contains_key(*idx) && a[*idx] == coeff@);
            }
            let new_coeff = coeff.mul(scalar).rem(prime);
            if !new_coeff.is_zero() {
                result.insert(*idx, new_coeff);
            }
            assert forall|k: usize| #![trigger result@.contains_key(k)]
                result@.contains_key(k) == (keys.take(i0 + 1).contains(k) && sa.contains_key(k))
                    && (result@.contains_key(k) ==> result@[k]@ == sa[k]) by {
                if k != *idx {
                    assert(keys.take(i0 + 1).contains(k) == keys.take(i0).contains(k));
                    assert(before.contains_key(k) == result@.contains_key(k));
                } else {
                    assert(keys.take(i0 + 1)[i0] == k);
                }
            }
        }
        assert(keys.take(keys.len() as int) =~= keys);
        let r = LinearCombination { terms: result };
        assert(r.coeffs() =~= sa) by {
            assert forall|k: usize| #[trigger] sa.contains_key(k) implies r.coeffs().contains_key(k) by {
                assert(keys.contains(k));
            }
        }
        r
    }
}

/// The model of one constraint `a * b = c`: the coefficients of its three sides.
pub ghost struct SpecConstraint {
    pub a: Map<usize, nat>,
    pub b: Map<usize, nat>,
    pub c: Map<usize, nat>,
}

/// The model of a constraint system.
pub ghost struct SystemModel {
    pub prime: nat,
    pub num_variables: nat,
    pub num_public_inputs: nat,
    pub num_public_outputs: nat,
    pub num_private_inputs: nat,
    pub constraints: Seq<SpecConstraint>,
    pub variable_names: Seq<Seq<char>>,
}

/// One rank-1 constraint `a * b = c`.
pub struct R1csConstraint {
    pub a: LinearCombination,
    pub b: LinearCombination,
    pub c: LinearCombination,
}

impl R1csConstraint {
    /// The model of this constraint.
    pub open spec fn model(&self) -> SpecConstraint {
        SpecConstraint { a: self.a.coeffs(), b: self.b.coeffs(), c: self.c.coeffs() }
    }
}

/// A rank-1 constraint system over the field of order `prime`. Variable 0 is
/// the constant wire `~one`.
pub struct R1csSystem {
    pub prime: Natural,
    pub num_variables: usize,
    pub num_public_inputs: usize,
    pub num_public_outputs: usize,
    pub num_private_inputs: usize,
    pub constraints: Vec<R1csConstraint>,
    pub variable_names: Vec<String>,
}

/// The name of variable 0, the constant one.
pub open spec fn one_wire_name() -> Seq<char> {
    "~one"@
}

impl R1csSystem {
    /// The model of this system.
    pub open spec fn model(&self) -> SystemModel {
        SystemModel {
            prime: self.prime@,
            num_variables: self.num_variables as nat,
            num_public_inputs: self.num_public_inputs as nat,
            num_public_outputs: self.num_public_outputs as nat,
            num_private_inputs: self.num_private_inputs as nat,
            constraints: self.constraints@.map_values(|c: R1csConstraint| c.model()),
            variable_names: self.variable_names@.map_values(|s: String| s@),
        }
    }

    /// An empty system over `prime`, holding only the constant wire `~one`.
    pub fn new(prime: Natural) -> (r: R1csSystem)
        ensures
            r.model() == (SystemModel {
                prime: prime@,
                num_variables: 1,
                num_public_inputs: 0,
                num_public_outputs: 0,
                num_private_inputs: 0,
                constraints: Seq::empty(),
                variable_names: seq![one_wire_name()],
            }),
    {
        let mut variable_names: Vec<String> = Vec::new();
        variable_names.push(String::from_str("~one"));
        let r = R1csSystem {
            prime,
            num_variables: 1,
            num_public_inputs: 0,
            num_public_outputs: 0,
            num_private_inputs: 0,
            constraints: Vec::new(),
            variable_names,
        };
        assert(r.model().variable_names =~= seq![one_wire_name()]);
        assert(r.model().constraints =~= Seq::<SpecConstraint>::empty());
        r
    }

    /// Appends a variable called `name` and returns its index.
    pub fn allocate_variable(&mut self, name: &str) -> (idx: usize)
        requires
            old(self).num_variables < usize::MAX,
        ensures
            idx == old(self).num_variables,
            final(self).model() == (SystemModel {
                num_variables: (old(self).num_variables + 1) as nat,
                variable_names: old(self).model().variable_names.push(name@),
                ..old(self).model()
            }),
    {
        let idx = self.num_variables;
        self.num_variables = self.num_variables + 1;
        self.variable_names.push(String::from_str(name));
        assert(self.model().variable_names =~= old(self).model().variable_names.push(name@));
        idx
    }

    /// Appends the constraint `a * b = c`.
    pub fn add_constraint(&mut self, a: LinearCombination, b: LinearCombination, c: LinearCombination)
        ensures
            final(self).model() == (SystemModel {
                constraints: old(self).model().constraints.push(
                    SpecConstraint { a: a.coeffs(), b: b.coeffs(), c: c.coeffs() },
                ),
                ..old(self).model()
            }),
    {
        let ghost m = SpecConstraint { a: a.coeffs(), b: b.coeffs(), c: c.coeffs() };
        self.constraints.push(R1csConstraint { a, b, c });
        assert(self.model().constraints =~= old(self).model().constraints.push(m));
    }
}

/// How one term is written: its coefficient in decimal, followed by `*v`
/// and its index unless it is the constant wire 0.
pub open spec fn term_text(c: nat, k: usize) -> Seq<char> {
    if k == 0 {
        decimal_text(c)
    } else {
        decimal_text(c) + "*v"@ + decimal_text(k as nat)
    }
}

/// Texts joined by ` + `.
pub open spec fn join_plus(parts: Seq<Seq<char>>) -> Seq<char>
    decreases parts.len(),
{
    if parts.len() == 0 {
        Seq::empty()
    } else if parts.len() == 1 {
        parts[0]
    } else {
        join_plus(parts.drop_last()) + " + "@ + parts.last()
    }
}

/// How a linear combination is written: `0` when it has no term, else its
/// terms in increasing index order joined by ` + ` (zero coefficients too).
pub open spec fn lc_text(m: Map<usize, nat>) -> Seq<char> {
    if m.is_empty() {
        "0"@
    } else {
        join_plus(ascending(m.dom()).map_values(|k: usize| term_text(m[k], k)))
    }
}

/// How a constraint is written: `(a) * (b) = (c)`.
#[verifier::opaque]
pub open spec fn constraint_text(c: SpecConstraint) -> Seq<char> {
    "("@ + lc_text(c.a) + ") * ("@ + lc_text(c.b) + ") = ("@ + lc_text(c.c) + ")"@
}

/// Appends the text of one term.
fn push_term(s: &mut String, idx: usize, coeff: &Natural)
    ensures
        final(s)@ == old(s)@ + term_text(coeff@, idx),
{
    let digits = coeff.to_decimal_string();
    s.append(digits.as_str());
    if idx != 0 {
        s.append("*v");
        let index = usize_to_decimal(idx);
        s.append(index.as_str());
    }
}

impl LinearCombination {
    /// How this combination is written (see `lc_text`).
    pub fn render(&self) -> (r: String)
        ensures
            r@ == lc_text(self.coeffs()),
    {
        if self.terms.is_empty() {
            return String::from_str("0");
        }
        let ghost m = self.coeffs();
        let ghost pairs = self.terms.iter().remaining();
        let ghost keys = pairs.map_values(|kv: (&usize, &Natural)| *kv.0);
        proof {
            lemma_iter_keys(&self.terms);
        }
        let order = self.terms.iter();
        proof {
            lemma_increasing_keys(keys);
        }
        let mut s = String::new();
        let mut first = true;
        assert(keys.take(0).map_values(|k: usize| term_text(m[k], k)) =~= Seq::<Seq<char>>::empty());
        for kv in it: order
            invariant
                m == self.coeffs(),
                it.seq() == pairs,
                keys == pairs.map_values(|kv: (&usize, &Natural)| *kv.0),
                keys.len() == pairs.len(),
                forall|i: int|
                    0 <= i < pairs.len() ==> self.terms@.contains_key(#[trigger] keys[i])
                        && self.terms@[keys[i]] == *pairs[i].1 && keys[i] == *pairs[i].0,
                first == (it.index() == 0),
                s@ == join_plus(keys.take(it.index()).map_values(|k: usize| term_text(m[k], k))),
        {
            let ghost i0 = it.index();
            let (idx, coeff) = kv;
            assert(kv == pairs[i0]);
            let ghost prev = keys.take(i0).map_values(|k: usize| term_text(m[k], k));
            let ghost next = keys.take(i0 + 1).map_values(|k: usize| term_text(m[k], k));
            assert(next.drop_last() =~= prev);
            assert(self.terms@.contains_key(keys[i0]));
            assert(m[*idx] == coeff@);
            if !first {
                s.append(" + ");
            }
            push_term(&mut s, *idx, coeff);
            first = false;
            proof {
                if i0 == 0 {
                    assert(prev.len() == 0);
                    assert(s@ =~= next[0]);
                } else {
                    assert(s@ =~= join_plus(prev) + " + "@ + next.last());
                }
            }
        }
        proof {
            assert(keys.take(keys.len() as int) =~= keys);
            assert(keys.to_set() =~= m.dom()) by {
                assert forall|k: usize| #[trigger] keys.to_set().contains(k) implies m.dom().contains(k) by {
                    let i = choose|i: int| 0 <= i < keys.len() && keys[i] == k;
                    assert(self.terms@.contains_key(keys[i]));
                }
            }
            lemma_ascending_unique(keys);
        }
        s
    }
}

impl R1csConstraint {
    /// How this constraint is written (see `constraint_text`).
    pub fn render(&self) -> (r: String)
        ensures
            r@ == constraint_text(self.model()),
    {
        let mut s = String::from_str("(");
        let a = self.a.render();
        s.append(a.as_str());
        s.append(") * (");
        let b = self.b.render();
        s.append(b.as_str());
        s.append(") = (");
        let c = self.c.render();
        s.append(c.as_str());
        s.append(")");
        proof {
            reveal(constraint_text);
        }
        s
    }
}

/// A line of text: a label, a number in decimal, and what follows.
pub open spec fn count_line(label: Seq<char>, n: nat, tail: Seq<char>) -> Seq<char> {
    label + decimal_text(n) + tail
}

/// The lines `  v{i} = {name}` of the variable map.
pub open spec fn variable_lines(names: Seq<Seq<char>>) -> Seq<char> {
    Seq::new(names.len(), |i: int| count_line("  v"@, i as nat, " = "@) + names[i] + "\n"@).flatten()
}

/// The line `  #{i}: {constraint}` of the constraint list.
pub open spec fn constraint_line(i: nat, c: SpecConstraint) -> Seq<char> {
    count_line("  #"@, i, ": "@) + constraint_text(c) + "\n"@
}

/// The lines of the constraint list, one per constraint.
pub open spec fn constraint_lines(cs: Seq<SpecConstraint>) -> Seq<char> {
    Seq::new(cs.len(), |i: int| constraint_line(i as nat, cs[i])).flatten()
}

/// Whether the signal counts leave a number of intermediate variables:
/// the constant wire and the three kinds of inputs and outputs fit in the
/// total.
pub open spec fn counts_consistent(m: SystemModel) -> bool {
    1 + m.num_public_inputs + m.num_public_outputs + m.num_private_inputs <= m.num_variables
}

/// The head of a system's summary: its prime, its variable counts by kind
/// and its constraint count.
pub open spec fn summary_head_text(m: SystemModel) -> Seq<char> {
    "=== R1CS System Summary ===\n"@ + count_line("Field prime: "@, m.prime, "\n"@) + count_line(
        "Total variables: "@,
        m.num_variables,
        " (including ~one)\n"@,
    ) + count_line("  Public inputs:  "@, m.num_public_inputs, "\n"@) + count_line(
        "  Public outputs: "@,
        m.num_public_outputs,
        "\n"@,
    ) + count_line("  Private inputs: "@, m.num_private_inputs, "\n"@) + count_line(
        "  Intermediate:   "@,
        (m.num_variables - 1 - m.num_public_inputs - m.num_public_outputs
            - m.num_private_inputs) as nat,
        "\n"@,
    ) + count_line("Total constraints: "@, m.constraints.len(), "\n"@)
}

/// The summary of a system: its head, then its variable map and its
/// constraints.
pub open spec fn summary_text(m: SystemModel) -> Seq<char> {
    summary_head_text(m) + "\n--- Variable Map ---\n"@ + variable_lines(m.variable_names)
        + "\n--- Constraints ---\n"@ + constraint_lines(m.constraints)
}

/// The summary begins with its title and the lines giving, in order, the
/// prime, the number of variables, then the number of public inputs on the
/// line labelled `Public inputs:`, of public outputs on the line labelled
/// `Public outputs:` and of private inputs on the line labelled
/// `Private inputs:`; then, when the counts are consistent, the variables
/// that are none of these on the line labelled `Intermediate:`, the number
/// of constraints, and the heading of the variable map.
#[verifier::rlimit(100)]
pub proof fn lemma_summary_count_lines(m: SystemModel)
    ensures
        ("=== R1CS System Summary ===\n"@ + "Field prime: "@ + decimal_text(m.prime) + "\n"@
            + "Total variables: "@ + decimal_text(m.num_variables) + " (including ~one)\n"@
            + "  Public inputs:  "@ + decimal_text(m.num_public_inputs) + "\n"@
            + "  Public outputs: "@ + decimal_text(m.num_public_outputs) + "\n"@
            + "  Private inputs: "@ + decimal_text(m.num_private_inputs) + "\n"@).is_prefix_of(
            summary_text(m),
        ),
        counts_consistent(m) ==> ("=== R1CS System Summary ===\n"@ + "Field prime: "@
            + decimal_text(m.prime) + "\n"@ + "Total variables: "@ + decimal_text(m.num_variables)
            + " (including ~one)\n"@ + "  Public inputs:  "@ + decimal_text(m.num_public_inputs)
            + "\n"@ + "  Public outputs: "@ + decimal_text(m.num_public_outputs) + "\n"@
            + "  Private inputs: "@ + decimal_text(m.num_private_inputs) + "\n"@
            + "  Intermediate:   "@ + decimal_text(
            (m.num_variables - 1 - m.num_public_inputs - m.num_public_outputs
                - m.num_private_inputs) as nat,
        ) + "\n"@ + "Total constraints: "@ + decimal_text(m.constraints.len()) + "\n"@
            + "\n--- Variable Map ---\n"@).is_prefix_of(summary_text(m)),
{
    let head = summary_head_text(m) + "\n--- Variable Map ---\n"@;
    let tail = variable_lines(m.variable_names) + "\n--- Constraints ---\n"@ + constraint_lines(
        m.constraints,
    );
    assert(summary_text(m) =~= head + tail);
    let expected = "=== R1CS System Summary ===\n"@ + "Field prime: "@ + decimal_text(m.prime) + "\n"@
        + "Total variables: "@ + decimal_text(m.num_variables) + " (including ~one)\n"@
        + "  Public inputs:  "@ + decimal_text(m.num_public_inputs) + "\n"@
        + "  Public outputs: "@ + decimal_text(m.num_public_outputs) + "\n"@
        + "  Private inputs: "@ + decimal_text(m.num_private_inputs) + "\n"@;
    let full = expected + "  Intermediate:   "@ + decimal_text(
        (m.num_variables - 1 - m.num_public_inputs - m.num_public_outputs - m.num_private_inputs) as nat,
    ) + "\n"@ + "Total constraints: "@ + decimal_text(m.constraints.len()) + "\n"@
        + "\n--- Variable Map ---\n"@;
    assert(head =~= full);
    assert(summary_text(m).take(full.len() as int) =~= full);
    assert(summary_text(m).take(expected.len() as int) =~= expected);
}

/// Appends a label, a count in decimal and a tail.
fn push_count_line(s: &mut String, label: &str, n: usize, tail: &str)
    ensures
        final(s)@ == old(s)@ + count_line(label@, n as nat, tail@),
{
    s.append(label);
    let digits = usize_to_decimal(n);
    s.append(digits.as_str());
    s.append(tail);
}

impl R1csSystem {
    /// The head of the summary (see `summary_head_text`).
    fn summary_head(&self) -> (r: String)
        requires
            counts_consistent(self.model()),
        ensures
            r@ == summary_head_text(self.model()),
    {
        let mut s = String::from_str("=== R1CS System Summary ===\n");
        s.append("Field prime: ");
        let prime = self.prime.to_decimal_string();
        s.append(prime.as_str());
        s.append("\n");
        push_count_line(&mut s, "Total variables: ", self.num_variables, " (including ~one)\n");
        push_count_line(&mut s, "  Public inputs:  ", self.num_public_inputs, "\n");
        push_count_line(&mut s, "  Public outputs: ", self.num_public_outputs, "\n");
        push_count_line(&mut s, "  Private inputs: ", self.num_private_inputs, "\n");
        let intermediate = self.num_variables - 1 - self.num_public_inputs - self.num_public_outputs
            - self.num_private_inputs;
        push_count_line(&mut s, "  Intermediate:   ", intermediate, "\n");
        push_count_line(&mut s, "Total constraints: ", self.constraints.len(), "\n");
        assert(s@ =~= summary_head_text(self.model()));
        s
    }

    /// A readable summary of the system (see `summary_text`).
    pub fn display_summary(&self) -> (r: String)
        requires
            counts_consistent(self.model()),
        ensures
            r@ == summary_text(self.model()),
    {
        let mut s = self.summary_head();
        s.append("\n--- Variable Map ---\n");
        let vars = variable_map_text(&self.variable_names);
        s.append(vars.as_str());
        s.append("\n--- Constraints ---\n");
        let cons = constraint_list_text(&self.constraints);
        s.append(cons.as_str());
        assert(s@ =~= summary_text(self.model()));
        s
    }
}

/// The variable map of a summary (see `variable_lines`).
fn variable_map_text(names: &Vec<String>) -> (r: String)
    ensures
        r@ == variable_lines(names@.map_values(|n: String| n@)),
{
    let ghost model = names@.map_values(|n: String| n@);
    let mut s = String::new();
    let ghost lines = Seq::new(
        model.len(),
        |i: int| count_line("  v"@, i as nat, " = "@) + model[i] + "\n"@,
    );
    assert(lines.take(0) =~= Seq::<Seq<char>>::empty());
    for i in 0..names.len()
        invariant
            model == names@.map_values(|n: String| n@),
            lines == Seq::new(
                model.len(),
                |i: int| count_line("  v"@, i as nat, " = "@) + model[i] + "\n"@,
            ),
            s@ == lines.take(i as int).flatten(),
    {
        let ghost before = s@;
        push_count_line(&mut s, "  v", i, " = ");
        s.append(names[i].as_str());
        s.append("\n");
        proof {
            assert(s@ =~= before + lines[i as int]);
            assert(lines.take(i + 1) =~= lines.take(i as int).push(lines[i as int]));
            lines.take(i as int).lemma_flatten_push(lines[i as int]);
        }
    }
    assert(lines.take(lines.len() as int) =~= lines);
    s
}

/// Appends one line of the constraint list.
fn push_constraint_line(s: &mut String, i: usize, c: &R1csConstraint)
    ensures
        final(s)@ == old(s)@ + constraint_line(i as nat, c.model()),
{
    push_count_line(s, "  #", i, ": ");
    let text = c.render();
    s.append(text.as_str());
    s.append("\n");
}

/// The constraint list of a summary (see `constraint_lines`).
fn constraint_list_text(cs: &Vec<R1csConstraint>) -> (r: String)
    ensures
        r@ == constraint_lines(cs@.map_values(|c: R1csConstraint| c.model())),
{
    let ghost model = cs@.map_values(|c: R1csConstraint| c.model());
    let mut s = String::new();
    let ghost lines = Seq::new(model.len(), |i: int| constraint_line(i as nat, model[i]));
    assert(lines.take(0) =~= Seq::<Seq<char>>::empty());
    for i in 0..cs.len()
        invariant
            model == cs@.map_values(|c: R1csConstraint| c.model()),
            lines == Seq::new(model.len(), |i: int| constraint_line(i as nat, model[i])),
            s@ == lines.take(i as int).flatten(),
    {
        push_constraint_line(&mut s, i, &cs[i]);
        proof {
            assert(lines.take(i + 1) =~= lines.take(i as int).push(lines[i as int]));
            lines.take(i as int).lemma_flatten_push(lines[i as int]);
        }
    }
    assert(lines.take(lines.len() as int) =~= lines);
    s
}

} // verus!
