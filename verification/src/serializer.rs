//! The binary `.r1cs` format: writing a constraint system, and reading back
//! a report of what a file holds.
//!
//! A file is the magic `r1cs`, the version 1 and the section count 4 (both
//! u32), then four sections, each a u32 type, a u64 length and its data:
//! 0 the header, 1 the constraints, 2 the wire map, 3 the labels. All
//! integers are little-endian; field elements are 32 bytes big-endian.

use vstd::prelude::*;
use vstd::std_specs::iter::IteratorSpec;
use vstd::slice::slice_subrange;
use vstd::utf8::{decode_utf8, encode_utf8, valid_utf8};

use crate::error::CompileError;
use crate::natural::{be_bytes, be_value, decimal_text, usize_to_decimal, Natural};
use crate::r1cs::{
    ascending, lemma_ascending_unique, lemma_increasing_keys, lemma_iter_keys, strictly_increasing,
    LinearCombination, R1csSystem, SpecConstraint, SystemModel,
};

verus! {

/// The little-endian bytes of a u32.
pub open spec fn le_u32(v: u32) -> Seq<u8> {
    seq![
        (v % 0x100) as u8,
        ((v / 0x100) % 0x100) as u8,
        ((v / 0x1_0000) % 0x100) as u8,
        ((v / 0x100_0000) % 0x100) as u8,
    ]
}

/// The little-endian bytes of a u64.
pub open spec fn le_u64(v: u64) -> Seq<u8> {
    le_u32((v % 0x1_0000_0000) as u32) + le_u32((v / 0x1_0000_0000) as u32)
}

/// The number of bytes in a field element.
pub open spec fn field_size() -> nat {
    32
}

/// A field element: the big-endian bytes of `n`, zero-padded to 32 bytes.
pub open spec fn field_bytes(n: nat) -> Seq<u8> {
    Seq::new((field_size() - be_bytes(n).len()) as nat, |i: int| 0u8) + be_bytes(n)
}

/// Whether `n` fits in a field element.
pub open spec fn fits_field(n: nat) -> bool {
    be_bytes(n).len() <= field_size()
}

/// Byte strings one after another.
pub open spec fn concat(parts: Seq<Seq<u8>>) -> Seq<u8>
    decreases parts.len(),
{
    if parts.len() == 0 {
        Seq::empty()
    } else {
        concat(parts.drop_last()) + parts.last()
    }
}

/// The indices whose coefficient is not zero.
pub open spec fn nonzero_keys(m: Map<usize, nat>) -> Set<usize> {
    m.dom().filter(|k: usize| m[k] != 0)
}

/// One term of a linear combination: its index (u32) and coefficient.
pub open spec fn term_bytes(m: Map<usize, nat>, k: usize) -> Seq<u8> {
    le_u32(k as u32) + field_bytes(m[k])
}

/// A linear combination: the number of non-zero terms (u32), then those
/// terms in increasing index order.
pub open spec fn lc_bytes(m: Map<usize, nat>) -> Seq<u8> {
    let ks = ascending(nonzero_keys(m));
    le_u32(ks.len() as u32) + concat(ks.map_values(|k: usize| term_bytes(m, k)))
}

/// A constraint: its three sides in order.
pub open spec fn constraint_bytes(c: SpecConstraint) -> Seq<u8> {
    lc_bytes(c.a) + lc_bytes(c.b) + lc_bytes(c.c)
}

/// The header section's data.
pub open spec fn header_bytes(m: SystemModel) -> Seq<u8> {
    le_u32(32) + field_bytes(m.prime) + le_u32(m.num_variables as u32) + le_u32(
        m.num_public_outputs as u32,
    ) + le_u32(m.num_public_inputs as u32) + le_u32(m.num_private_inputs as u32) + le_u64(
        m.num_variables as u64,
    ) + le_u32(m.constraints.len() as u32)
}

/// The wire map: the indices `0..n` as u32s.
pub open spec fn wire_bytes(n: nat) -> Seq<u8> {
    concat(Seq::new(n, |i: int| le_u32(i as u32)))
}

/// The labels: each name as its UTF-8 length (u32) and bytes.
pub open spec fn label_bytes(names: Seq<Seq<char>>) -> Seq<u8> {
    concat(
        names.map_values(
            |name: Seq<char>| le_u32(encode_utf8(name).len() as u32) + encode_utf8(name),
        ),
    )
}

/// A section: its type (u32), its length (u64) and its data.
pub open spec fn section_bytes(kind: u32, data: Seq<u8>) -> Seq<u8> {
    le_u32(kind) + le_u64(data.len() as u64) + data
}

/// The magic bytes `r1cs`.
pub open spec fn magic_bytes() -> Seq<u8> {
    seq![0x72u8, 0x31u8, 0x63u8, 0x73u8]
}

/// The whole file for a constraint system.
pub open spec fn r1cs_file_bytes(m: SystemModel) -> Seq<u8> {
    magic_bytes() + le_u32(1) + le_u32(4) + section_bytes(0, header_bytes(m)) + section_bytes(
        1,
        concat(m.constraints.map_values(|c: SpecConstraint| constraint_bytes(c))),
    ) + section_bytes(2, wire_bytes(m.num_variables)) + section_bytes(3, label_bytes(m.variable_names))
}

/// Whether every coefficient of `m` fits in a field element.
pub open spec fn lc_fits(m: Map<usize, nat>) -> bool {
    forall|k: usize| #[trigger] m.contains_key(k) ==> fits_field(m[k])
}

/// Whether a system can be written: the prime and every coefficient fit in
/// a field element.
pub open spec fn serializable(m: SystemModel) -> bool {
    &&& fits_field(m.prime)
    &&& forall|i: int| 0 <= i < m.constraints.len() ==> constraint_fits(#[trigger] m.constraints[i])
}

/// Whether every coefficient of a constraint fits in a field element.
pub open spec fn constraint_fits(c: SpecConstraint) -> bool {
    lc_fits(c.a) && lc_fits(c.b) && lc_fits(c.c)
}

pub(crate) fn write_u32(out: &mut Vec<u8>, v: u32)
    ensures
        final(out)@ == old(out)@ + le_u32(v),
{
    out.push((v % 0x100) as u8);
    out.push(((v / 0x100) % 0x100) as u8);
    out.push(((v / 0x1_0000) % 0x100) as u8);
    out.push(((v / 0x100_0000) % 0x100) as u8);
    assert(out@ =~= old(out)@ + le_u32(v));
}

pub(crate) fn write_u64(out: &mut Vec<u8>, v: u64)
    ensures
        final(out)@ == old(out)@ + le_u64(v),
{
    write_u32(out, (v % 0x1_0000_0000) as u32);
    write_u32(out, (v / 0x1_0000_0000) as u32);
    assert(out@ =~= old(out)@ + le_u64(v));
}

pub(crate) fn push_bytes(out: &mut Vec<u8>, data: &[u8])
    ensures
        final(out)@ == old(out)@ + data@,
{
    for i in 0..data.len()
        invariant
            out@ == old(out)@ + data@.take(i as int),
    {
        out.push(data[i]);
        assert(data@.take(i + 1) =~= data@.take(i as int).push(data@[i as int]));
        assert(out@ =~= old(out)@ + data@.take(i + 1));
    }
    assert(data@.take(data@.len() as int) =~= data@);
}

fn write_field_element(out: &mut Vec<u8>, val: &Natural)
    requires
        fits_field(val@),
    ensures
        final(out)@ == old(out)@ + field_bytes(val@),
{
    let bytes = val.to_bytes_be();
    let pad = 32 - bytes.len();
    let ghost start = out@;
    for i in 0..pad
        invariant
            out@ == start + Seq::new(i as nat, |j: int| 0u8),
    {
        out.push(0u8);
        assert(out@ =~= start + Seq::new((i + 1) as nat, |j: int| 0u8));
    }
    push_bytes(out, bytes.as_slice());
    assert(out@ =~= old(out)@ + field_bytes(val@));
}

/// Appending one more part to a concatenation.
proof fn lemma_concat_push(parts: Seq<Seq<u8>>, p: Seq<u8>)
    ensures
        concat(parts.push(p)) == concat(parts) + p,
{
    assert(parts.push(p).drop_last() =~= parts);
}

fn write_lc(out: &mut Vec<u8>, lc: &LinearCombination)
    requires
        lc_fits(lc.coeffs()),
    ensures
        final(out)@ == old(out)@ + lc_bytes(lc.coeffs()),
{
    let ghost m = lc.coeffs();
    let ghost pairs = lc.terms.iter().remaining();
    let ghost keys = pairs.map_values(|kv: (&usize, &Natural)| *kv.0);
    proof {
        lemma_iter_keys(&lc.terms);
    }
    let order = lc.terms.iter();
    proof {
        lemma_increasing_keys(keys);
    }
    let mut non_zero: Vec<(usize, &Natural)> = Vec::new();
    for kv in it: order
        invariant_except_break
            forall|j: int|
                0 <= j < non_zero@.len() ==> exists|i: int| 0 <= i < it.index() && keys[i] == (#[trigger] non_zero@[j]).0,
        invariant
            m == lc.coeffs(),
            it.seq() == pairs,
            keys == pairs.map_values(|kv: (&usize, &Natural)| *kv.0),
            strictly_increasing(keys),
            keys.len() == pairs.len(),
            forall|i: int|
                0 <= i < pairs.len() ==> lc.terms@.contains_key(#[trigger] keys[i])
                    && lc.terms@[keys[i]] == *pairs[i].1 && keys[i] == *pairs[i].0,
            forall|k: usize| lc.terms@.contains_key(k) ==> keys.contains(k),
            strictly_increasing(non_zero@.map_values(|e: (usize, &Natural)| e.0)),
            forall|j: int|
                0 <= j < non_zero@.len() ==> m.contains_key((#[trigger] non_zero@[j]).0) && m[non_zero@[j].0]
                    == non_zero@[j].1@ && non_zero@[j].1@ != 0,
            forall|i: int|
                0 <= i < it.index() && m[keys[i]] != 0 ==> non_zero@.map_values(|e: (usize, &Natural)| e.0).contains(#[trigger] keys[i]),
    {
        let ghost i0 = it.index();
        let ghost before = non_zero@;
        let (idx, coeff) = kv;
        assert(kv == pairs[i0]);
        if !coeff.is_zero() {
            non_zero.push((*idx, coeff));
            proof {
                let nzk = non_zero@.map_values(|e: (usize, &Natural)| e.0);
                assert forall|a: int, b: int| 0 <= a < b < nzk.len() implies nzk[a] < nzk[b] by {
                    assert(nzk[a] == non_zero@[a].0);
                    assert(nzk[b] == non_zero@[b].0);
                    if b == nzk.len() - 1 {
                        assert(non_zero@[a] == before[a]);
                        let i = choose|i: int| 0 <= i < i0 && keys[i] == (#[trigger] before[a]).0;
                        assert(keys[i] < keys[i0]);
                        assert(non_zero@[b].0 == keys[i0]);
                    } else {
                        assert(non_zero@[a] == before[a]);
                        assert(non_zero@[b] == before[b]);
                        let bk = before.map_values(|e: (usize, &Natural)| e.0);
                        assert(bk[a] < bk[b]);
                    }
                }
                assert forall|j: int| 0 <= j < non_zero@.len() implies exists|i: int| 0 <= i < i0 + 1 && keys[i] == (#[trigger] non_zero@[j]).0 by {
                    if j < before.len() {
                        assert(non_zero@[j] == before[j]);
                        let i = choose|i: int| 0 <= i < i0 && keys[i] == (#[trigger] before[j]).0;
                        assert(0 <= i < i0 + 1 && keys[i] == non_zero@[j].0);
                    } else {
                        assert(0 <= i0 < i0 + 1 && keys[i0] == non_zero@[j].0);
                    }
                }
                assert forall|i: int| 0 <= i < i0 + 1 && m[keys[i]] != 0 implies nzk.contains(#[trigger] keys[i]) by {
                    if i < i0 {
                        let bk = before.map_values(|e: (usize, &Natural)| e.0);
                        assert(bk.contains(keys[i]));
                        let j = choose|j: int| 0 <= j < bk.len() && bk[j] == keys[i];
                        assert(nzk[j] == keys[i]);
                    } else {
                        assert(nzk[nzk.len() - 1] == keys[i]);
                    }
                }
            }
        } else {
            proof {
                assert forall|j: int| 0 <= j < non_zero@.len() implies exists|i: int| 0 <= i < i0 + 1 && keys[i] == (#[trigger] non_zero@[j]).0 by {
                    let i = choose|i: int| 0 <= i < i0 && keys[i] == (#[trigger] non_zero@[j]).0;
                    assert(0 <= i < i0 + 1 && keys[i] == non_zero@[j].0);
                }
            }
        }
    }
    let ghost nzk = non_zero@.map_values(|e: (usize, &Natural)| e.0);
    proof {
        assert(nzk.to_set() =~= nonzero_keys(m)) by {
            assert forall|k: usize| #[trigger] nzk.to_set().contains(k) implies nonzero_keys(m).contains(k) by {
                let j = choose|j: int| 0 <= j < nzk.len() && nzk[j] == k;
                assert(non_zero@[j].0 == k);
            }
            assert forall|k: usize| #[trigger] nonzero_keys(m).contains(k) implies nzk.to_set().contains(k) by {
                assert(keys.contains(k));
                let i = choose|i: int| 0 <= i < keys.len() && keys[i] == k;
            }
        }
        lemma_ascending_unique(nzk);
    }
    write_u32(out, #[verifier::truncate] (non_zero.len() as u32));
    let ghost header = out@;
    for i in 0..non_zero.len()
        invariant
            header == old(out)@ + le_u32(nzk.len() as u32),
            nzk == non_zero@.map_values(|e: (usize, &Natural)| e.0),
            forall|j: int|
                0 <= j < non_zero@.len() ==> m.contains_key((#[trigger] non_zero@[j]).0) && m[non_zero@[j].0]
                    == non_zero@[j].1@,
            lc_fits(m),
            out@ == header + concat(nzk.take(i as int).map_values(|k: usize| term_bytes(m, k))),
    {
        let (idx, coeff) = non_zero[i];
        let ghost before = out@;
        assert(non_zero@[i as int].0 == idx);
        write_u32(out, #[verifier::truncate] (idx as u32));
        write_field_element(out, coeff);
        proof {
            let parts = nzk.take(i as int).map_values(|k: usize| term_bytes(m, k));
            assert(nzk.take(i + 1).map_values(|k: usize| term_bytes(m, k)) =~= parts.push(term_bytes(m, idx)));
            lemma_concat_push(parts, term_bytes(m, idx));
            assert(out@ =~= header + concat(nzk.take(i + 1).map_values(|k: usize| term_bytes(m, k))));
        }
    }
    assert(nzk.take(nzk.len() as int) =~= nzk);
}

fn push_section(out: &mut Vec<u8>, kind: u32, data: &Vec<u8>)
    ensures
        final(out)@ == old(out)@ + section_bytes(kind, data@),
{
    write_u32(out, kind);
    write_u64(out, data.len() as u64);
    push_bytes(out, data.as_slice());
    assert(out@ =~= old(out)@ + section_bytes(kind, data@));
}

fn header_data(system: &R1csSystem) -> (r: Vec<u8>)
    requires
        serializable(system.model()),
    ensures
        r@ == header_bytes(system.model()),
{
    let mut data: Vec<u8> = Vec::new();
    write_u32(&mut data, 32);
    write_field_element(&mut data, &system.prime);
    write_u32(&mut data, #[verifier::truncate] (system.num_variables as u32));
    write_u32(&mut data, #[verifier::truncate] (system.num_public_outputs as u32));
    write_u32(&mut data, #[verifier::truncate] (system.num_public_inputs as u32));
    write_u32(&mut data, #[verifier::truncate] (system.num_private_inputs as u32));
    write_u64(&mut data, system.num_variables as u64);
    write_u32(&mut data, #[verifier::truncate] (system.constraints.len() as u32));
    assert(data@ =~= header_bytes(system.model()));
    data
}

fn constraint_data(system: &R1csSystem) -> (r: Vec<u8>)
    requires
        serializable(system.model()),
    ensures
        r@ == concat(system.model().constraints.map_values(|c: SpecConstraint| constraint_bytes(c))),
{
    let ghost m = system.model();
    let mut data: Vec<u8> = Vec::new();
    let ghost parts = m.constraints.map_values(|c: SpecConstraint| constraint_bytes(c));
    assert(parts.take(0) =~= Seq::<Seq<u8>>::empty());
    for i in 0..system.constraints.len()
        invariant
            m == system.model(),
            serializable(m),
            parts == m.constraints.map_values(|c: SpecConstraint| constraint_bytes(c)),
            data@ == concat(parts.take(i as int)),
    {
        let constraint = &system.constraints[i];
        let ghost before = data@;
        proof {
            assert(m.constraints[i as int] == constraint.model());
            assert(lc_fits(m.constraints[i as int].a));
        }
        write_lc(&mut data, &constraint.a);
        write_lc(&mut data, &constraint.b);
        write_lc(&mut data, &constraint.c);
        proof {
            assert(data@ =~= before + constraint_bytes(m.constraints[i as int]));
            assert(parts.take(i + 1) =~= parts.take(i as int).push(parts[i as int]));
            lemma_concat_push(parts.take(i as int), parts[i as int]);
        }
    }
    assert(parts.take(parts.len() as int) =~= parts);
    data
}

fn wire_data(n: usize) -> (r: Vec<u8>)
    ensures
        r@ == wire_bytes(n as nat),
{
    let mut data: Vec<u8> = Vec::new();
    let ghost wires = Seq::new(n as nat, |j: int| le_u32(j as u32));
    assert(wires.take(0) =~= Seq::<Seq<u8>>::empty());
    for i in 0..n
        invariant
            wires == Seq::new(n as nat, |j: int| le_u32(j as u32)),
            data@ == concat(wires.take(i as int)),
    {
        write_u32(&mut data, #[verifier::truncate] (i as u32));
        proof {
            assert(wires.take(i + 1) =~= wires.take(i as int).push(le_u32(i as u32)));
            lemma_concat_push(wires.take(i as int), le_u32(i as u32));
        }
    }
    assert(wires.take(wires.len() as int) =~= wires);
    data
}

fn label_data(names: &Vec<String>) -> (r: Vec<u8>)
    ensures
        r@ == label_bytes(names@.map_values(|s: String| s@)),
{
    let mut data: Vec<u8> = Vec::new();
    let ghost model = names@.map_values(|s: String| s@);
    let ghost labels = model.map_values(
        |name: Seq<char>| le_u32(encode_utf8(name).len() as u32) + encode_utf8(name),
    );
    assert(labels.take(0) =~= Seq::<Seq<u8>>::empty());
    for i in 0..names.len()
        invariant
            model == names@.map_values(|s: String| s@),
            labels == model.map_values(
                |name: Seq<char>| le_u32(encode_utf8(name).len() as u32) + encode_utf8(name),
            ),
            data@ == concat(labels.take(i as int)),
    {
        let name_bytes = names[i].as_str().as_bytes();
        write_u32(&mut data, #[verifier::truncate] (name_bytes.len() as u32));
        push_bytes(&mut data, name_bytes);
        proof {
            assert(model[i as int] == names@[i as int]@);
            assert(labels.take(i + 1) =~= labels.take(i as int).push(labels[i as int]));
            lemma_concat_push(labels.take(i as int), labels[i as int]);
        }
    }
    assert(labels.take(labels.len() as int) =~= labels);
    data
}

/// Whether every coefficient of `lc` fits in a field element.
fn lc_fits_field(lc: &LinearCombination) -> (r: bool)
    ensures
        r == lc_fits(lc.coeffs()),
{
    let ghost pairs = lc.terms.iter().remaining();
    let ghost keys = pairs.map_values(|kv: (&usize, &Natural)| *kv.0);
    proof {
        lemma_iter_keys(&lc.terms);
    }
    for kv in it: lc.terms.iter()
        invariant
            it.seq() == pairs,
            keys == pairs.map_values(|kv: (&usize, &Natural)| *kv.0),
            keys.len() == pairs.len(),
            forall|i: int|
                0 <= i < pairs.len() ==> lc.terms@.contains_key(#[trigger] keys[i])
                    && lc.terms@[keys[i]] == *pairs[i].1 && keys[i] == *pairs[i].0,
            forall|k: usize| lc.terms@.contains_key(k) ==> keys.contains(k),
            forall|i: int| 0 <= i < it.index() ==> fits_field(lc.terms@[#[trigger] keys[i]]@),
    {
        let ghost i0 = it.index();
        let (_idx, coeff) = kv;
        assert(kv == pairs[i0]);
        assert(lc.terms@.contains_key(keys[i0]));
        let bytes = coeff.to_bytes_be();
        if bytes.len() > 32 {
            assert(lc.coeffs().contains_key(keys[i0]) && !fits_field(lc.coeffs()[keys[i0]]));
            return false;
        }
    }
    assert forall|k: usize| #[trigger] lc.coeffs().contains_key(k) implies fits_field(lc.coeffs()[k]) by {
        assert(keys.contains(k));
        let i = choose|i: int| 0 <= i < keys.len() && keys[i] == k;
    }
    true
}

/// Whether `system` can be written: its prime and every coefficient fit in
/// a field element (see `serializable`).
pub fn can_serialize(system: &R1csSystem) -> (r: bool)
    ensures
        r == serializable(system.model()),
{
    let prime_bytes = system.prime.to_bytes_be();
    if prime_bytes.len() > 32 {
        return false;
    }
    let ghost m = system.model();
    let mut i: usize = 0;
    while i < system.constraints.len()
        invariant
            m == system.model(),
            fits_field(m.prime),
            i <= m.constraints.len(),
            forall|j: int| 0 <= j < i ==> constraint_fits(#[trigger] m.constraints[j]),
        decreases m.constraints.len() - i,
    {
        let c = &system.constraints[i];
        assert(m.constraints[i as int] == c.model());
        let fa = lc_fits_field(&c.a);
        let fb = lc_fits_field(&c.b);
        let fc = lc_fits_field(&c.c);
        assert(constraint_fits(m.constraints[i as int]) == (fa && fb && fc));
        if !(fa && fb && fc) {
            return false;
        }
        i = i + 1;
    }
    true
}

/// The `.r1cs` bytes of `system`.
pub fn serialize(system: &R1csSystem) -> (r: Vec<u8>)
    requires
        serializable(system.model()),
    ensures
        r@ == r1cs_file_bytes(system.model()),
{
    let ghost m = system.model();
    let mut out: Vec<u8> = Vec::new();
    out.push(0x72u8);
    out.push(0x31u8);
    out.push(0x63u8);
    out.push(0x73u8);
    assert(out@ =~= magic_bytes());
    write_u32(&mut out, 1);
    write_u32(&mut out, 4);
    let ghost s0 = out@;
    let header = header_data(system);
    push_section(&mut out, 0, &header);
    let ghost s1 = out@;
    let constraints = constraint_data(system);
    push_section(&mut out, 1, &constraints);
    let ghost s2 = out@;
    let wires = wire_data(system.num_variables);
    push_section(&mut out, 2, &wires);
    let ghost s3 = out@;
    let labels = label_data(&system.variable_names);
    push_section(&mut out, 3, &labels);
    proof {
        let a = section_bytes(0, header_bytes(m));
        let b = section_bytes(1, concat(m.constraints.map_values(|c: SpecConstraint| constraint_bytes(c))));
        let c = section_bytes(2, wire_bytes(m.num_variables));
        let d = section_bytes(3, label_bytes(m.variable_names));
        assert(s1 == s0 + a);
        assert(s2 == s0 + a + b);
        assert(s3 == s0 + a + b + c);
        assert(out@ == s0 + a + b + c + d);
    }
    out
}

/// The number that four bytes at `i` denote, read little-endian.
pub open spec fn u32_at(d: Seq<u8>, i: int) -> nat {
    d[i] as nat + 0x100 * (d[i + 1] as nat) + 0x1_0000 * (d[i + 2] as nat) + 0x100_0000 * (
    d[i + 3] as nat)
}

/// The number that eight bytes at `i` denote, read little-endian.
pub open spec fn u64_at(d: Seq<u8>, i: int) -> nat {
    u32_at(d, i) + 0x1_0000_0000 * u32_at(d, i + 4)
}

/// What `String::from_utf8_lossy` makes of some bytes.
pub uninterp spec fn lossy_text(bytes: Seq<u8>) -> Seq<char>;

/// Whether a header section is long enough to be reported: its field size,
/// the prime that many bytes long, four u32 counts, a u64 and a u32.
pub open spec fn header_ok(s: Seq<u8>) -> bool {
    4 <= s.len() && 4 + u32_at(s, 0) + 28 <= s.len()
}

/// A line of the report: a label, a number in decimal, and what follows it.
pub open spec fn number_line(label: Seq<char>, n: nat, tail: Seq<char>) -> Seq<char> {
    label + decimal_text(n) + tail
}

/// The counts that a header gives after its prime, which ends at `p`.
pub open spec fn header_counts(s: Seq<u8>, p: int) -> Seq<char> {
    number_line("Total wires: "@, u32_at(s, p), "\n"@) + number_line(
        "Public outputs: "@,
        u32_at(s, p + 4),
        "\n"@,
    ) + number_line("Public inputs: "@, u32_at(s, p + 8), "\n"@) + number_line(
        "Private inputs: "@,
        u32_at(s, p + 12),
        "\n"@,
    ) + number_line("Constraints: "@, u32_at(s, p + 24), "\n"@) + "\n"@
}

/// The report of a header section: its field size, its prime and its
/// counts.
pub open spec fn header_report(s: Seq<u8>) -> Seq<char> {
    let fs = u32_at(s, 0);
    let p: int = 4 + fs as int;
    "=== Header Section ===\n"@ + number_line("Field size: "@, fs, " bytes\n"@) + number_line(
        "Prime: "@,
        be_value(s.subrange(4, p)),
        "\n"@,
    ) + header_counts(s, p)
}

/// The report of the labels from position `p` on, the next being label
/// number `idx`: each is a u32 length and that many bytes; a truncated one
/// ends the list.
pub open spec fn labels_report(s: Seq<u8>, p: nat, idx: nat) -> Seq<char>
    decreases s.len() - p,
{
    if p + 4 > s.len() {
        Seq::empty()
    } else {
        let n = u32_at(s, p as int);
        if p + 4 + n > s.len() {
            Seq::empty()
        } else {
            "  v"@ + decimal_text(idx) + " = "@ + label_text(s.subrange(p + 4int, p + 4int + n)) + "\n"@
                + labels_report(s, p + 4 + n, idx + 1)
        }
    }
}

/// The line that gives a section's size.
pub open spec fn size_line(l: nat) -> Seq<char> {
    number_line("Section size: "@, l, " bytes\n\n"@)
}

/// The report of a section of type `t` and length `l` whose data starts at
/// `start`.
pub open spec fn section_report(d: Seq<u8>, t: nat, l: nat, start: nat) -> Seq<char> {
    if t == 0 {
        header_report(d.subrange(start as int, (start + l) as int))
    } else if t == 1 {
        "=== Constraints Section ===\n"@ + size_line(l)
    } else if t == 2 {
        "=== Wire Map Section ===\n"@ + size_line(l)
    } else if t == 3 {
        "=== Label Map Section ===\n"@ + labels_report(d.subrange(start as int, (start + l) as int), 0, 0)
            + "\n"@
    } else {
        "=== Unknown Section "@ + decimal_text(t) + " ===\n"@ + size_line(l)
    }
}

/// The report of at most `remaining` sections from `offset` on; one whose
/// type and length do not fit ends it.
pub open spec fn sections_report(d: Seq<u8>, offset: nat, remaining: nat) -> Seq<char>
    decreases remaining,
{
    if remaining == 0 || offset + 12 > d.len() {
        Seq::empty()
    } else {
        let l = u64_at(d, offset + 4int);
        section_report(d, u32_at(d, offset as int), l, offset + 12) + sections_report(
            d,
            offset + 12 + l,
            (remaining - 1) as nat,
        )
    }
}

/// Whether a section can be reported: those whose data is read lie within
/// the file, and a header is long enough.
pub open spec fn section_ok(d: Seq<u8>, t: nat, l: nat, start: nat) -> bool {
    &&& (t == 0 || t == 1 || t == 3) ==> start + l <= d.len()
    &&& t == 0 ==> header_ok(d.subrange(start as int, (start + l) as int))
}

/// Whether the sections from `offset` on can be reported, with every offset
/// within the range of `usize`.
pub open spec fn sections_ok(d: Seq<u8>, offset: nat, remaining: nat) -> bool
    decreases remaining,
{
    remaining == 0 || (offset + 12 <= usize::MAX && (offset + 12 > d.len() || ({
        let l = u64_at(d, offset + 4int);
        &&& offset + 12 + l <= usize::MAX
        &&& section_ok(d, u32_at(d, offset as int), l, offset + 12)
        &&& sections_ok(d, offset + 12 + l, (remaining - 1) as nat)
    })))
}

/// Whether the first four bytes are the magic `r1cs`.
pub open spec fn has_magic(d: Seq<u8>) -> bool {
    d.subrange(0, 4) == magic_bytes()
}

/// Whether inspecting `d` stays within its bytes: a file that is too short
/// or has the wrong magic is refused before anything else is read.
pub open spec fn inspectable(d: Seq<u8>) -> bool {
    d.len() < 16 || !has_magic(d) || sections_ok(d, 12, u32_at(d, 8))
}

/// The report on a file that has the magic and at least 16 bytes.
pub open spec fn inspect_report(d: Seq<u8>) -> Seq<char> {
    "Magic: r1cs\n"@ + "Version: "@ + decimal_text(u32_at(d, 4)) + "\n"@ + "Number of sections: "@
        + decimal_text(u32_at(d, 8)) + "\n\n"@ + sections_report(d, 12, u32_at(d, 8))
}

/// Whether `r` is the compile error `SerializeError` with message `m`.
pub open spec fn is_serialize_error(r: CompileError, m: Seq<char>) -> bool {
    r matches CompileError::SerializeError { message } && message@ == m
}

/// The text of a label's bytes: valid UTF-8 decoded as it is, anything
/// else as `String::from_utf8_lossy` renders it.
pub open spec fn label_text(bytes: Seq<u8>) -> Seq<char> {
    if valid_utf8(bytes) {
        decode_utf8(bytes)
    } else {
        lossy_text(bytes)
    }
}

/// `String::from_utf8_lossy(bytes)`, as an owned string. Its documentation
/// says that valid UTF-8 comes back as the same text; what replaces invalid
/// sequences is left to the name `lossy_text`.
#[verifier::external_body]
fn utf8_lossy(bytes: &[u8]) -> (r: String)
    ensures
        r@ == (if valid_utf8(bytes@) {
            decode_utf8(bytes@)
        } else {
            lossy_text(bytes@)
        }),
{
    String::from_utf8_lossy(bytes).into_owned()
}

fn read_u32(d: &[u8], i: usize) -> (r: u32)
    requires
        i + 4 <= d@.len(),
    ensures
        r == u32_at(d@, i as int),
{
    let b0: u32 = d[i] as u32;
    let b1: u32 = d[i + 1] as u32;
    let b2: u32 = d[i + 2] as u32;
    let b3: u32 = d[i + 3] as u32;
    assert(b0 + 0x100 * b1 + 0x1_0000 * b2 + 0x100_0000 * b3 <= 0xffff_ffff) by (nonlinear_arith)
        requires
            b0 < 0x100,
            b1 < 0x100,
            b2 < 0x100,
            b3 < 0x100,
    ;
    b0 + 0x100 * b1 + 0x1_0000 * b2 + 0x100_0000 * b3
}

fn read_u64(d: &[u8], i: usize) -> (r: u64)
    requires
        i + 8 <= d@.len(),
    ensures
        r == u64_at(d@, i as int),
{
    let len: usize = d.len();
    assert(i + 4 <= len);
    let lo: u64 = read_u32(d, i) as u64;
    let hi: u64 = read_u32(d, i + 4) as u64;
    assert(lo + 0x1_0000_0000 * hi <= 0xffff_ffff_ffff_ffff) by (nonlinear_arith)
        requires
            lo <= 0xffff_ffff,
            hi <= 0xffff_ffff,
    ;
    lo + 0x1_0000_0000 * hi
}

fn append_number_line(out: &mut String, label: &str, n: usize, tail: &str)
    ensures
        final(out)@ == old(out)@ + number_line(label@, n as nat, tail@),
{
    out.append(label);
    let digits = usize_to_decimal(n);
    out.append(digits.as_str());
    out.append(tail);
}

fn append_header_counts(s: &[u8], p: usize, out: &mut String)
    requires
        p + 28 <= s@.len(),
    ensures
        final(out)@ == old(out)@ + header_counts(s@, p as int),
{
    let len: usize = s.len();
    let num_wires = read_u32(s, p);
    let num_outputs = read_u32(s, p + 4);
    let num_pub_inputs = read_u32(s, p + 8);
    let num_priv_inputs = read_u32(s, p + 12);
    let num_constraints = read_u32(s, p + 24);
    append_number_line(out, "Total wires: ", num_wires as usize, "\n");
    append_number_line(out, "Public outputs: ", num_outputs as usize, "\n");
    append_number_line(out, "Public inputs: ", num_pub_inputs as usize, "\n");
    append_number_line(out, "Private inputs: ", num_priv_inputs as usize, "\n");
    append_number_line(out, "Constraints: ", num_constraints as usize, "\n");
    out.append("\n");
    assert(out@ =~= old(out)@ + header_counts(s@, p as int));
}

fn inspect_header(s: &[u8], out: &mut String)
    requires
        header_ok(s@),
    ensures
        final(out)@ == old(out)@ + header_report(s@),
{
    let len: usize = s.len();
    out.append("=== Header Section ===\n");
    let fs = read_u32(s, 0);
    assert(4 + fs + 28 <= len);
    append_number_line(out, "Field size: ", fs as usize, " bytes\n");
    let p: usize = 4 + fs as usize;
    let prime = Natural::from_bytes_be(slice_subrange(s, 4, p));
    out.append("Prime: ");
    let digits = prime.to_decimal_string();
    out.append(digits.as_str());
    out.append("\n");
    let ghost mid = out@;
    append_header_counts(s, p, out);
    assert(mid =~= old(out)@ + "=== Header Section ===\n"@ + number_line("Field size: "@, fs as nat, " bytes\n"@)
        + number_line("Prime: "@, be_value(s@.subrange(4, p as int)), "\n"@));
    assert(out@ =~= old(out)@ + header_report(s@));
}

fn inspect_labels(s: &[u8], out: &mut String)
    ensures
        final(out)@ == old(out)@ + labels_report(s@, 0, 0),
{
    let ghost whole = old(out)@ + labels_report(s@, 0, 0);
    let mut p: usize = 0;
    let mut idx: usize = 0;
    while p < s.len()
        invariant
            p <= s@.len(),
            idx <= p,
            whole == out@ + labels_report(s@, p as nat, idx as nat),
        ensures
            whole == out@,
        decreases s@.len() - p,
    {
        if s.len() - p < 4 {
            break;
        }
        let name_len: usize = read_u32(s, p) as usize;
        let q: usize = p + 4;
        if name_len > s.len() - q {
            break;
        }
        let name = utf8_lossy(slice_subrange(s, q, q + name_len));
        let ghost before = out@;
        append_number_line(out, "  v", idx, " = ");
        out.append(name.as_str());
        out.append("\n");
        assert(out@ + labels_report(s@, (q + name_len) as nat, (idx + 1) as nat) =~= before
            + labels_report(s@, p as nat, idx as nat));
        p = q + name_len;
        idx = idx + 1;
    }
}

fn inspect_section(d: &[u8], t: u32, l: usize, start: usize, out: &mut String)
    requires
        section_ok(d@, t as nat, l as nat, start as nat),
    ensures
        final(out)@ == old(out)@ + section_report(d@, t as nat, l as nat, start as nat),
{
    let len: usize = d.len();
    if t == 0 {
        inspect_header(slice_subrange(d, start, start + l), out);
    } else if t == 1 {
        out.append("=== Constraints Section ===\n");
        append_number_line(out, "Section size: ", l, " bytes\n\n");
    } else if t == 2 {
        out.append("=== Wire Map Section ===\n");
        append_number_line(out, "Section size: ", l, " bytes\n\n");
    } else if t == 3 {
        out.append("=== Label Map Section ===\n");
        inspect_labels(slice_subrange(d, start, start + l), out);
        out.append("\n");
    } else {
        append_number_line(out, "=== Unknown Section ", t as usize, " ===\n");
        append_number_line(out, "Section size: ", l, " bytes\n\n");
    }
    assert(out@ =~= old(out)@ + section_report(d@, t as nat, l as nat, start as nat));
}

/// Whether `data` starts with the magic `r1cs`.
fn starts_with_magic(data: &[u8]) -> (r: bool)
    requires
        data@.len() >= 4,
    ensures
        r == has_magic(data@),
{
    let r = data[0] == 0x72u8 && data[1] == 0x31u8 && data[2] == 0x63u8 && data[3] == 0x73u8;
    proof {
        if has_magic(data@) {
            assert(data@[0] == data@.subrange(0, 4)[0]);
            assert(data@[1] == data@.subrange(0, 4)[1]);
            assert(data@[2] == data@.subrange(0, 4)[2]);
            assert(data@[3] == data@.subrange(0, 4)[3]);
        }
        if r {
            assert(data@.subrange(0, 4) =~= magic_bytes());
        }
    }
    r
}

/// A report on what a `.r1cs` file holds: its version, its section count,
/// then each section in turn (the header's field size, prime and counts; the
/// size of the constraints and the wire map; each label with its index).
/// A file under 16 bytes, or without the magic `r1cs`, is refused.
pub fn deserialize_and_inspect(data: &[u8]) -> (r: Result<String, CompileError>)
    requires
        inspectable(data@),
    ensures
        data@.len() < 16 ==> r is Err && is_serialize_error(r->Err_0, "file too short"@),
        data@.len() >= 16 && !has_magic(data@) ==> r is Err && is_serialize_error(
            r->Err_0,
            "invalid magic bytes"@,
        ),
        data@.len() >= 16 && has_magic(data@) ==> r is Ok && r->Ok_0@ == inspect_report(data@),
{
    if data.len() < 16 {
        return Err(CompileError::SerializeError { message: String::from_str("file too short") });
    }
    if !starts_with_magic(data) {
        return Err(CompileError::SerializeError { message: String::from_str("invalid magic bytes") });
    }
    let mut out = String::from_str("Magic: r1cs\n");
    let version = read_u32(data, 4);
    append_number_line(&mut out, "Version: ", version as usize, "\n");
    let num_sections = read_u32(data, 8);
    append_number_line(&mut out, "Number of sections: ", num_sections as usize, "\n\n");
    let ghost whole = inspect_report(data@);
    assert(whole == out@ + sections_report(data@, 12, num_sections as nat));
    let mut offset: usize = 12;
    let mut k: u32 = 0;
    while k < num_sections
        invariant
            k <= num_sections,
            sections_ok(data@, offset as nat, (num_sections - k) as nat),
            whole == out@ + sections_report(data@, offset as nat, (num_sections - k) as nat),
        ensures
            whole == out@,
        decreases num_sections - k,
    {
        if offset + 12 > data.len() {
            break;
        }
        let t = read_u32(data, offset);
        let l64 = read_u64(data, offset + 4);
        let l: usize = l64 as usize;
        let start: usize = offset + 12;
        let ghost before = out@;
        inspect_section(data, t, l, start, &mut out);
        assert(sections_report(data@, offset as nat, (num_sections - k) as nat)
            == section_report(data@, t as nat, l as nat, start as nat) + sections_report(
            data@,
            (start + l) as nat,
            (num_sections - k - 1) as nat,
        ));
        assert(whole =~= out@ + sections_report(data@, (start + l) as nat, (num_sections - k - 1) as nat));
        offset = start + l;
        k = k + 1;
    }
    Ok(out)
}

/// Whether inspecting `data` stays within its bytes (see `inspectable`).
pub fn is_inspectable(data: &[u8]) -> (r: bool)
    ensures
        r == inspectable(data@),
{
    if data.len() < 16 {
        return true;
    }
    if !starts_with_magic(data) {
        return true;
    }
    let num_sections = read_u32(data, 8);
    let mut offset: usize = 12;
    let mut k: u32 = 0;
    while k < num_sections
        invariant
            data@.len() >= 16,
            has_magic(data@),
            num_sections == u32_at(data@, 8),
            k <= num_sections,
            inspectable(data@) == sections_ok(data@, offset as nat, (num_sections - k) as nat),
        decreases num_sections - k,
    {
        if offset > usize::MAX - 12 {
            return false;
        }
        if offset + 12 > data.len() {
            return true;
        }
        let t = read_u32(data, offset);
        let l64 = read_u64(data, offset + 4);
        let start: usize = offset + 12;
        if l64 > (usize::MAX - start) as u64 {
            return false;
        }
        let l: usize = l64 as usize;
        let within = l <= data.len() - start;
        if (t == 0 || t == 1 || t == 3) && !within {
            return false;
        }
        if t == 0 {
            if l < 4 {
                assert(!header_ok(data@.subrange(start as int, (start + l) as int)));
                return false;
            }
            let fs = read_u32(data, start);
            assert(u32_at(data@.subrange(start as int, (start + l) as int), 0) == fs);
            if l < 32 || fs as usize > l - 32 {
                return false;
            }
        }
        offset = start + l;
        k = k + 1;
    }
    true
}

/// The first header section among at most `remaining` sections from
/// `offset` on, if any.
pub open spec fn first_header(d: Seq<u8>, offset: nat, remaining: nat) -> Option<Seq<u8>>
    decreases remaining,
{
    if remaining == 0 || offset + 12 > d.len() {
        None
    } else {
        let l = u64_at(d, offset + 4int);
        if u32_at(d, offset as int) == 0 {
            Some(d.subrange(offset + 12int, offset + 12int + l))
        } else {
            first_header(d, offset + 12 + l, (remaining - 1) as nat)
        }
    }
}

/// Whether reading the setup counts stays within the bytes: the first
/// header lies within the file and is long enough, and every offset stays
/// within the range of `usize`.
pub open spec fn setup_scan_ok(d: Seq<u8>, offset: nat, remaining: nat, found: bool) -> bool
    decreases remaining,
{
    remaining == 0 || (offset + 12 <= usize::MAX && (offset + 12 > d.len() || ({
        let t = u32_at(d, offset as int);
        let l = u64_at(d, offset + 4int);
        &&& offset + 12 + l <= usize::MAX
        &&& (t == 0 && !found) ==> offset + 12 + l <= d.len() && header_ok(
            d.subrange(offset + 12int, offset + 12int + l),
        )
        &&& setup_scan_ok(d, offset + 12 + l, (remaining - 1) as nat, found || t == 0)
    })))
}

/// Whether the setup counts can be read from `d` (a file too short or
/// without the magic is refused before anything else is read).
pub open spec fn setup_readable(d: Seq<u8>) -> bool {
    d.len() < 12 || !has_magic(d) || setup_scan_ok(d, 12, 4, false)
}

/// Whether the setup counts can be read from `data` (see
/// `setup_readable`).
pub fn is_setup_readable(data: &[u8]) -> (r: bool)
    ensures
        r == setup_readable(data@),
{
    if data.len() < 12 {
        return true;
    }
    if !starts_with_magic(data) {
        return true;
    }
    let mut offset: usize = 12;
    let mut found = false;
    let mut k: u32 = 0;
    while k < 4
        invariant
            data@.len() >= 12,
            has_magic(data@),
            k <= 4,
            setup_readable(data@) == setup_scan_ok(data@, offset as nat, (4 - k) as nat, found),
        decreases 4 - k,
    {
        if offset > usize::MAX - 12 {
            return false;
        }
        if offset + 12 > data.len() {
            return true;
        }
        let t = read_u32(data, offset);
        let l64 = read_u64(data, offset + 4);
        let start: usize = offset + 12;
        if l64 > (usize::MAX - start) as u64 {
            return false;
        }
        let l: usize = l64 as usize;
        if t == 0 && !found {
            if l > data.len() - start {
                return false;
            }
            if l < 4 {
                assert(!header_ok(data@.subrange(start as int, (start + l) as int)));
                return false;
            }
            let fs = read_u32(data, start);
            assert(u32_at(data@.subrange(start as int, (start + l) as int), 0) == fs);
            if l < 32 || fs as usize > l - 32 {
                return false;
            }
        }
        found = found || t == 0;
        offset = start + l;
        k = k + 1;
    }
    true
}

/// The constraint and variable counts that a header section gives.
pub open spec fn header_setup_counts(h: Seq<u8>) -> (nat, nat) {
    let p = 4 + u32_at(h, 0);
    (u32_at(h, p + 24int), u32_at(h, p as int))
}

/// The numbers of constraints and of variables that a `.r1cs` file's first
/// header section (among its first four sections) gives, as the setup
/// needs them. A file under 12 bytes or without the magic is refused, and
/// so is one with no header section there.
pub fn read_setup_counts(data: &[u8]) -> (r: Result<(usize, usize), CompileError>)
    requires
        setup_readable(data@),
    ensures
        (data@.len() < 12 || !has_magic(data@)) ==> r is Err && is_serialize_error(
            r->Err_0,
            "invalid .r1cs file"@,
        ),
        !(data@.len() < 12 || !has_magic(data@)) ==> match first_header(data@, 12, 4) {
            Some(h) => r matches Ok((c, v)) && (c as nat, v as nat) == header_setup_counts(h),
            None => r is Err && is_serialize_error(r->Err_0, "no header section found in .r1cs file"@),
        },
{
    if data.len() < 12 {
        return Err(CompileError::SerializeError { message: String::from_str("invalid .r1cs file") });
    }
    if !starts_with_magic(data) {
        return Err(CompileError::SerializeError { message: String::from_str("invalid .r1cs file") });
    }
    let ghost first = first_header(data@, 12, 4);
    let mut offset: usize = 12;
    let mut found = false;
    let mut n_constraints: usize = 0;
    let mut n_vars: usize = 0;
    let mut k: u32 = 0;
    while k < 4
        invariant
            k <= 4,
            setup_scan_ok(data@, offset as nat, (4 - k) as nat, found),
            !found ==> first == first_header(data@, offset as nat, (4 - k) as nat),
            found ==> (first matches Some(h) && (n_constraints as nat, n_vars as nat)
                == header_setup_counts(h)),
        ensures
            !found ==> first is None,
            found ==> (first matches Some(h) && (n_constraints as nat, n_vars as nat)
                == header_setup_counts(h)),
        decreases 4 - k,
    {
        if offset + 12 > data.len() {
            break;
        }
        let sect_type = read_u32(data, offset);
        let sect_len: usize = read_u64(data, offset + 4) as usize;
        offset = offset + 12;
        if sect_type == 0 && !found {
            found = true;
            let s = slice_subrange(data, offset, offset + sect_len);
            let fs: usize = read_u32(s, 0) as usize;
            let p: usize = 4 + fs;
            n_vars = read_u32(s, p) as usize;
            n_constraints = read_u32(s, p + 24) as usize;
        }
        offset = offset + sect_len;
        k = k + 1;
    }
    if !found {
        return Err(
            CompileError::SerializeError {
                message: String::from_str("no header section found in .r1cs file"),
            },
        );
    }
    Ok((n_constraints, n_vars))
}

} // verus!
