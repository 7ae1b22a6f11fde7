//! Arbitrary-precision natural numbers. The library keeps them as base-2^32
//! digits (least significant first); the arithmetic itself is done by
//! `num_bigint::BigUint`, reached through the trusted functions below.

use num_bigint::BigUint;
use num_bigint::RandBigInt;
use num_traits::Zero;
use rand::rngs::OsRng;
use core::cmp::Ordering;
use vstd::prelude::*;

verus! {

/// The radix of one stored digit.
pub open spec fn digit_base() -> nat {
    0x1_0000_0000
}

/// The value of a little-endian sequence of base-2^32 digits.
pub open spec fn digits_value(d: Seq<u32>) -> nat
    decreases d.len(),
{
    if d.len() == 0 {
        0
    } else {
        d[0] as nat + digit_base() * digits_value(d.skip(1))
    }
}

/// Whether `c` is one of the ASCII digits `0` to `9`.
pub open spec fn is_decimal_digit(c: char) -> bool {
    48 <= c as int <= 57
}

/// Whether `s` is a non-empty run of ASCII decimal digits.
pub open spec fn is_decimal_text(s: Seq<char>) -> bool {
    s.len() > 0 && forall|i: int| 0 <= i < s.len() ==> is_decimal_digit(#[trigger] s[i])
}

/// The number written by a run of decimal digits.
pub open spec fn decimal_value(s: Seq<char>) -> nat
    decreases s.len(),
{
    if s.len() == 0 {
        0
    } else {
        decimal_value(s.drop_last()) * 10 + (s.last() as int - 48) as nat
    }
}

/// The character of a decimal digit `d < 10`.
pub open spec fn digit_char(d: nat) -> char {
    (d + 48) as char
}

/// The usual decimal rendering of `n`: no leading zeros, and "0" for zero.
pub open spec fn decimal_text(n: nat) -> Seq<char>
    decreases n,
{
    if n < 10 {
        seq![digit_char(n)]
    } else {
        decimal_text(n / 10).push(digit_char(n % 10))
    }
}

/// The minimal big-endian bytes of `n`; zero is the single byte 0.
pub open spec fn be_bytes(n: nat) -> Seq<u8>
    decreases n,
{
    if n < 256 {
        seq![n as u8]
    } else {
        be_bytes(n / 256).push((n % 256) as u8)
    }
}

/// The number that a sequence of big-endian bytes denotes.
pub open spec fn be_value(s: Seq<u8>) -> nat
    decreases s.len(),
{
    if s.len() == 0 {
        0
    } else {
        be_value(s.drop_last()) * 256 + s.last() as nat
    }
}

/// The value of a hexadecimal digit (either case), or 16 for any other byte.
pub open spec fn hex_digit_value(b: u8) -> nat {
    if 48 <= b <= 57 {
        (b - 48) as nat
    } else if 97 <= b <= 102 {
        (b - 87) as nat
    } else if 65 <= b <= 70 {
        (b - 55) as nat
    } else {
        16
    }
}

/// The text that is read as digits: without one leading `+`, unless a
/// second `+` follows it.
pub open spec fn hex_body(b: Seq<u8>) -> Seq<u8> {
    if b.len() > 0 && b[0] == 43 && !(b.len() > 1 && b[1] == 43) {
        b.drop_first()
    } else {
        b
    }
}

/// Whether hexadecimal text is accepted: after the sign, a non-empty run of
/// digits and underscores (`_`) that does not start with an underscore.
pub open spec fn hex_accepts(b: Seq<u8>) -> bool {
    let s = hex_body(b);
    &&& s.len() > 0
    &&& s[0] != 95
    &&& forall|i: int| 0 <= i < s.len() ==> s[i] == 95 || hex_digit_value(#[trigger] s[i]) < 16
}

/// The number written by hexadecimal digits, underscores skipped.
pub open spec fn hex_value(s: Seq<u8>) -> nat
    decreases s.len(),
{
    if s.len() == 0 {
        0
    } else if s.last() == 95 {
        hex_value(s.drop_last())
    } else {
        hex_value(s.drop_last()) * 16 + hex_digit_value(s.last())
    }
}

/// Whether some `x` is an inverse of `a` modulo `m`.
pub open spec fn has_inverse(a: nat, m: nat) -> bool {
    exists|x: nat| #[trigger] ((a * x) % m) == 1nat % m
}

/// `n.to_string()` for a `usize` (its `Display`, radix 10).
#[verifier::external_body]
pub(crate) fn usize_to_decimal(n: usize) -> (r: String)
    ensures
        r@ == decimal_text(n as nat),
{
    n.to_string()
}

/// A natural number of any size.
#[derive(Debug)]
pub struct Natural {
    digits: Vec<u32>,
}

impl View for Natural {
    type V = nat;

    closed spec fn view(&self) -> nat {
        digits_value(self.digits@)
    }
}

/// The sum of two naturals: `+` on `num_bigint::BigUint`.
#[verifier::external_body]
fn big_add(a: &Natural, b: &Natural) -> (r: Natural)
    ensures
        r@ == a@ + b@,
{
    let x = BigUint::new(a.digits.clone()) + BigUint::new(b.digits.clone());
    Natural { digits: x.to_u32_digits() }
}

/// The difference of two naturals: `-` on `num_bigint::BigUint`, which panics
/// when the result would be negative.
#[verifier::external_body]
fn big_sub(a: &Natural, b: &Natural) -> (r: Natural)
    requires
        b@ <= a@,
    ensures
        r@ == a@ - b@,
{
    let x = BigUint::new(a.digits.clone()) - BigUint::new(b.digits.clone());
    Natural { digits: x.to_u32_digits() }
}

/// The product of two naturals: `*` on `num_bigint::BigUint`.
#[verifier::external_body]
fn big_mul(a: &Natural, b: &Natural) -> (r: Natural)
    ensures
        r@ == a@ * b@,
{
    let x = BigUint::new(a.digits.clone()) * BigUint::new(b.digits.clone());
    Natural { digits: x.to_u32_digits() }
}

/// The remainder of a division: `%` on `num_bigint::BigUint`, which panics on
/// a zero divisor.
#[verifier::external_body]
fn big_rem(a: &Natural, m: &Natural) -> (r: Natural)
    requires
        m@ > 0,
    ensures
        r@ == a@ % m@,
{
    let x = BigUint::new(a.digits.clone()) % BigUint::new(m.digits.clone());
    Natural { digits: x.to_u32_digits() }
}

/// `BigUint::modinv`: the inverse of `a` modulo `m` in `[0, m)`, when one
/// exists. It panics on a zero modulus.
#[verifier::external_body]
fn big_modinv(a: &Natural, m: &Natural) -> (r: Option<Natural>)
    requires
        m@ > 0,
    ensures
        match r {
            Some(x) => x@ < m@ && (a@ * x@) % m@ == 1nat % m@,
            None => !has_inverse(a@, m@),
        },
{
    match BigUint::new(a.digits.clone()).modinv(&BigUint::new(m.digits.clone())) {
        Some(x) => Some(Natural { digits: x.to_u32_digits() }),
        None => None,
    }
}

/// `Zero::is_zero` on `BigUint`.
#[verifier::external_body]
fn big_is_zero(a: &Natural) -> (r: bool)
    ensures
        r == (a@ == 0),
{
    BigUint::new(a.digits.clone()).is_zero()
}

/// `==` on `BigUint`, which compares values.
#[verifier::external_body]
fn big_eq(a: &Natural, b: &Natural) -> (r: bool)
    ensures
        r == (a@ == b@),
{
    BigUint::new(a.digits.clone()) == BigUint::new(b.digits.clone())
}

/// `<` on `BigUint`, which compares values.
#[verifier::external_body]
fn big_lt(a: &Natural, b: &Natural) -> (r: bool)
    ensures
        r == (a@ < b@),
{
    BigUint::new(a.digits.clone()) < BigUint::new(b.digits.clone())
}

/// `str::parse::<BigUint>` (the `FromStr` impl), on a non-empty run of
/// decimal digits, which it always accepts.
#[verifier::external_body]
fn big_parse_decimal(s: &str) -> (r: Natural)
    requires
        is_decimal_text(s@),
    ensures
        r@ == decimal_value(s@),
{
    let x = s.parse::<BigUint>().unwrap();
    Natural { digits: x.to_u32_digits() }
}

/// `BigUint::parse_bytes` with radix 16: `None` unless the text, after one
/// leading `+` is dropped (when a second does not follow it), is a non-empty
/// run of hexadecimal digits and underscores that does not start with an
/// underscore; otherwise the number those digits denote.
#[verifier::external_body]
fn big_parse_hex(bytes: &[u8]) -> (r: Option<Natural>)
    ensures
        r is Some <==> hex_accepts(bytes@),
        r matches Some(x) ==> x@ == hex_value(hex_body(bytes@)),
{
    match BigUint::parse_bytes(bytes, 16) {
        Some(x) => Some(Natural { digits: x.to_u32_digits() }),
        None => None,
    }
}

/// `to_string` on `BigUint` (its `Display`, radix 10).
#[verifier::external_body]
fn big_to_decimal(a: &Natural) -> (r: String)
    ensures
        r@ == decimal_text(a@),
{
    BigUint::new(a.digits.clone()).to_string()
}

/// `BigUint::to_bytes_be`: the minimal big-endian bytes, `[0]` for zero.
#[verifier::external_body]
fn big_to_bytes_be(a: &Natural) -> (r: Vec<u8>)
    ensures
        r@ == be_bytes(a@),
{
    BigUint::new(a.digits.clone()).to_bytes_be()
}

/// `BigUint::from_bytes_be`.
#[verifier::external_body]
fn big_from_bytes_be(bytes: &[u8]) -> (r: Natural)
    ensures
        r@ == be_value(bytes@),
{
    Natural { digits: BigUint::from_bytes_be(bytes).to_u32_digits() }
}

/// `RandBigInt::gen_biguint_below` drawn from the operating system's random
/// source (`rand::rngs::OsRng`). It panics on a zero bound, and when the
/// operating system cannot supply randomness. Which value comes back is left
/// open: only that it lies below the bound is stated.
#[verifier::external_body]
fn big_random_below(bound: &Natural) -> (r: Natural)
    requires
        bound@ > 0,
    ensures
        r@ < bound@,
{
    let mut rng = OsRng;
    Natural { digits: rng.gen_biguint_below(&BigUint::new(bound.digits.clone())).to_u32_digits() }
}

proof fn lemma_two_digits(lo: u32, hi: u32)
    ensures
        digits_value(seq![lo, hi]) == lo + digit_base() * hi,
{
    reveal_with_fuel(digits_value, 3);
    assert(seq![lo, hi].skip(1) =~= seq![hi]);
    assert(seq![hi].skip(1) =~= Seq::<u32>::empty());
}

/// Digits that are all zero denote zero.
proof fn lemma_zero_digits(d: Seq<u32>)
    requires
        forall|j: int| 0 <= j < d.len() ==> d[j] == 0,
    ensures
        digits_value(d) == 0,
    decreases d.len(),
{
    if d.len() > 0 {
        lemma_zero_digits(d.skip(1));
    }
}

impl Natural {
    /// The number zero.
    pub fn zero() -> (r: Natural)
        ensures
            r@ == 0,
    {
        let r = Natural { digits: Vec::new() };
        proof {
            reveal_with_fuel(digits_value, 1);
        }
        r
    }

    /// The number one.
    pub fn one() -> (r: Natural)
        ensures
            r@ == 1,
    {
        Natural::from_u64(1)
    }

    /// The natural with the value of `n`.
    pub fn from_u64(n: u64) -> (r: Natural)
        ensures
            r@ == n,
    {
        let lo: u32 = (n % 0x1_0000_0000) as u32;
        let hi: u32 = (n / 0x1_0000_0000) as u32;
        proof {
            lemma_two_digits(lo, hi);
            assert(n == (n % 0x1_0000_0000) + 0x1_0000_0000 * (n / 0x1_0000_0000)) by (nonlinear_arith);
        }
        let mut digits: Vec<u32> = Vec::new();
        digits.push(lo);
        digits.push(hi);
        assert(digits@ =~= seq![lo, hi]);
        Natural { digits }
    }

    /// The natural whose base-2^32 digits, least significant first, are `digits`.
    pub fn from_digits(digits: Vec<u32>) -> (r: Natural)
        ensures
            r@ == digits_value(digits@),
    {
        Natural { digits }
    }

    /// Base-2^32 digits of this number, least significant first.
    pub fn to_digits(&self) -> (r: Vec<u32>)
        ensures
            digits_value(r@) == self@,
    {
        let r = self.digits.clone();
        assert(r@ =~= self.digits@);
        r
    }

    /// The sum `self + other`.
    pub fn add(&self, other: &Natural) -> (r: Natural)
        ensures
            r@ == self@ + other@,
    {
        big_add(self, other)
    }

    /// The difference `self - other`, for `other <= self`.
    pub fn sub(&self, other: &Natural) -> (r: Natural)
        requires
            other@ <= self@,
        ensures
            r@ == self@ - other@,
    {
        big_sub(self, other)
    }

    /// The product `self * other`.
    pub fn mul(&self, other: &Natural) -> (r: Natural)
        ensures
            r@ == self@ * other@,
    {
        big_mul(self, other)
    }

    /// The remainder `self % m`, for a non-zero `m`.
    pub fn rem(&self, m: &Natural) -> (r: Natural)
        requires
            m@ > 0,
        ensures
            r@ == self@ % m@,
    {
        big_rem(self, m)
    }

    /// The inverse of `self` modulo `m` in `[0, m)`, or `None` when there is none.
    pub fn modinv(&self, m: &Natural) -> (r: Option<Natural>)
        requires
            m@ > 0,
        ensures
            match r {
                Some(x) => x@ < m@ && (self@ * x@) % m@ == 1nat % m@,
                None => !has_inverse(self@, m@),
            },
    {
        big_modinv(self, m)
    }

    /// Whether this number is zero.
    pub fn is_zero(&self) -> (r: bool)
        ensures
            r == (self@ == 0),
    {
        big_is_zero(self)
    }

    /// Whether the two numbers are equal.
    pub fn equals(&self, other: &Natural) -> (r: bool)
        ensures
            r == (self@ == other@),
    {
        big_eq(self, other)
    }

    /// Whether `self < other`.
    pub fn less_than(&self, other: &Natural) -> (r: bool)
        ensures
            r == (self@ < other@),
    {
        big_lt(self, other)
    }

    /// The number written by a non-empty run of decimal digits.
    pub fn parse_decimal(s: &str) -> (r: Natural)
        requires
            is_decimal_text(s@),
        ensures
            r@ == decimal_value(s@),
    {
        big_parse_decimal(s)
    }

    /// The number written in hexadecimal by `bytes` (see `hex_accepts` for
    /// what is accepted), or `None`.
    pub fn parse_hex(bytes: &[u8]) -> (r: Option<Natural>)
        ensures
            r is Some <==> hex_accepts(bytes@),
            r matches Some(x) ==> x@ == hex_value(hex_body(bytes@)),
    {
        big_parse_hex(bytes)
    }

    /// Overwrites every stored digit with zero, in place: the number becomes
    /// zero and its old digits are gone from memory.
    pub fn wipe(&mut self)
        ensures
            final(self)@ == 0,
    {
        let n = self.digits.len();
        for i in 0..n
            invariant
                self.digits@.len() == n,
                forall|j: int| 0 <= j < i ==> self.digits@[j] == 0,
        {
            self.digits.set(i, 0);
        }
        proof {
            lemma_zero_digits(self.digits@);
        }
    }

    /// The decimal rendering of this number.
    pub fn to_decimal_string(&self) -> (r: String)
        ensures
            r@ == decimal_text(self@),
    {
        big_to_decimal(self)
    }

    /// The minimal big-endian bytes of this number (`[0]` for zero).
    pub fn to_bytes_be(&self) -> (r: Vec<u8>)
        ensures
            r@ == be_bytes(self@),
    {
        big_to_bytes_be(self)
    }

    /// The number denoted by big-endian bytes.
    pub fn from_bytes_be(bytes: &[u8]) -> (r: Natural)
        ensures
            r@ == be_value(bytes@),
    {
        big_from_bytes_be(bytes)
    }

    /// A number drawn at random from `[0, bound)`, for a non-zero `bound`.
    pub fn random_below(bound: &Natural) -> (r: Natural)
        requires
            bound@ > 0,
        ensures
            r@ < bound@,
    {
        big_random_below(bound)
    }
}

impl PartialEq for Natural {
    fn eq(&self, other: &Self) -> (r: bool) {
        big_eq(self, other)
    }
}

impl vstd::std_specs::cmp::PartialEqSpecImpl for Natural {
    open spec fn obeys_eq_spec() -> bool {
        true
    }

    open spec fn eq_spec(&self, other: &Natural) -> bool {
        self@ == other@
    }
}

impl PartialOrd for Natural {
    fn partial_cmp(&self, other: &Self) -> (r: Option<Ordering>) {
        if big_lt(self, other) {
            Some(Ordering::Less)
        } else if big_eq(self, other) {
            Some(Ordering::Equal)
        } else {
            Some(Ordering::Greater)
        }
    }
}

impl vstd::std_specs::cmp::PartialOrdSpecImpl for Natural {
    open spec fn obeys_partial_cmp_spec() -> bool {
        true
    }

    open spec fn partial_cmp_spec(&self, other: &Natural) -> Option<Ordering> {
        if self@ < other@ {
            Some(Ordering::Less)
        } else if self@ == other@ {
            Some(Ordering::Equal)
        } else {
            Some(Ordering::Greater)
        }
    }
}

impl Clone for Natural {
    fn clone(&self) -> (r: Self)
        ensures
            r@ == self@,
    {
        let digits = self.digits.clone();
        assert(digits@ =~= self.digits@);
        Natural { digits }
    }
}

/// Reading one more digit multiplies the value so far by ten and adds the digit.
pub proof fn lemma_decimal_take(s: Seq<char>, k: int)
    requires
        0 <= k < s.len(),
    ensures
        decimal_value(s.take(k + 1)) == decimal_value(s.take(k)) * 10 + ((s[k] as int - 48) as nat),
{
    assert(s.take(k + 1).drop_last() =~= s.take(k));
    assert(s.take(k + 1).last() == s[k]);
}

} // verus!
