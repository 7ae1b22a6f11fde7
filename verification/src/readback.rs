//! Reading back the constraints section of a written `.r1cs` file: each
//! constraint comes back as its three sides `a`, `b`, `c`, in order, each
//! with its non-zero terms.

use vstd::prelude::*;

use crate::natural::be_value;
use crate::r1cs::{ascending, least, lemma_least, SpecConstraint, SystemModel};
use crate::roundtrip::{
    constraint_data, counts_fit, file_of, lemma_concat_first, lemma_field_roundtrip,
    lemma_file_layout, lemma_header_roundtrip, lemma_u32_at_left, lemma_u32_at_right,
    lemma_u32_roundtrip,
};
use crate::serializer::{
    concat, constraint_bytes, field_bytes, fits_field, header_bytes, label_bytes, lc_bytes,
    lc_fits, le_u32, nonzero_keys, r1cs_file_bytes, term_bytes, u32_at, wire_bytes,
};

verus! {

/// The map of `count` terms read from `d`: each a u32 index and a 32-byte
/// big-endian coefficient.
pub open spec fn read_terms(d: Seq<u8>, count: nat) -> Map<usize, nat>
    decreases count,
{
    if count == 0 {
        Map::empty()
    } else {
        read_terms(d.skip(36), (count - 1) as nat).insert(
            u32_at(d, 0) as usize,
            be_value(d.subrange(4, 36)),
        )
    }
}

/// How many bytes the linear combination at the start of `d` takes: its
/// u32 term count, then 36 bytes a term.
pub open spec fn lc_length(d: Seq<u8>) -> nat {
    4 + 36 * u32_at(d, 0)
}

/// The linear combination at the start of `d`.
pub open spec fn read_lc(d: Seq<u8>) -> Map<usize, nat> {
    read_terms(d.skip(4), u32_at(d, 0))
}

/// The constraint at the start of `d`: three combinations, `a`, `b`, `c`.
#[verifier::opaque]
pub open spec fn read_constraint(d: Seq<u8>) -> SpecConstraint {
    let d1 = d.skip(lc_length(d) as int);
    let d2 = d1.skip(lc_length(d1) as int);
    SpecConstraint { a: read_lc(d), b: read_lc(d1), c: read_lc(d2) }
}

/// How many bytes the constraint at the start of `d` takes.
#[verifier::opaque]
pub open spec fn constraint_length(d: Seq<u8>) -> nat {
    let d1 = d.skip(lc_length(d) as int);
    let d2 = d1.skip(lc_length(d1) as int);
    lc_length(d) + lc_length(d1) + lc_length(d2)
}

/// `n` constraints read one after another from the start of `d`.
pub open spec fn read_constraints(d: Seq<u8>, n: nat) -> Seq<SpecConstraint>
    decreases n,
{
    if n == 0 {
        Seq::empty()
    } else {
        seq![read_constraint(d)] + read_constraints(
            d.skip(constraint_length(d) as int),
            (n - 1) as nat,
        )
    }
}

/// The terms of `m` whose coefficient is not zero.
pub open spec fn nonzero_part(m: Map<usize, nat>) -> Map<usize, nat> {
    Map::new(|k: usize| m.contains_key(k) && m[k] != 0, |k: usize| m[k])
}

/// A constraint as it is written: each side with its non-zero terms.
pub open spec fn written_form(c: SpecConstraint) -> SpecConstraint {
    SpecConstraint { a: nonzero_part(c.a), b: nonzero_part(c.b), c: nonzero_part(c.c) }
}

/// Whether a combination can be written and read back: finitely many
/// terms, each index and the number of non-zero terms within a u32, and
/// every coefficient within a field element.
pub open spec fn lc_writable(m: Map<usize, nat>) -> bool {
    &&& m.dom().finite()
    &&& lc_fits(m)
    &&& forall|k: usize| #[trigger] m.contains_key(k) ==> k < 0x1_0000_0000
    &&& nonzero_keys(m).len() < 0x1_0000_0000
}

/// Whether every side of a constraint can be written and read back.
pub open spec fn constraint_writable(c: SpecConstraint) -> bool {
    lc_writable(c.a) && lc_writable(c.b) && lc_writable(c.c)
}

/// The ascending list of a finite set holds exactly its elements, once.
#[verifier::rlimit(100)]
#[verifier::spinoff_prover]
proof fn lemma_ascending_elements(s: Set<usize>)
    requires
        s.finite(),
    ensures
        ascending(s).len() == s.len(),
        forall|k: usize| #[trigger] ascending(s).contains(k) <==> s.contains(k),
    decreases s.len(),
{
    if s.len() > 0 {
        lemma_least(s);
        let x = least(s);
        let rest = s.remove(x);
        lemma_ascending_elements(rest);
        let a = ascending(s);
        let ar = ascending(rest);
        assert(a == seq![x] + ar);
        assert forall|k: usize| #[trigger] a.contains(k) <==> s.contains(k) by {
            if a.contains(k) {
                let j = choose|j: int| 0 <= j < a.len() && a[j] == k;
                if j > 0 {
                    assert(a[j] == ar[j - 1]);
                    assert(ar.contains(k));
                }
            }
            if s.contains(k) {
                if k == x {
                    assert(a[0] == k);
                    assert(a.contains(k));
                } else {
                    assert(rest.contains(k));
                    assert(ar.contains(k));
                    let j = choose|j: int| 0 <= j < ar.len() && ar[j] == k;
                    assert(a[j + 1] == ar[j]);
                    assert(a.contains(k));
                }
            }
        }
    } else {
        assert(s =~= Set::<usize>::empty());
    }
}

/// Terms written one after another read back as the map of their indices
/// to their coefficients, whatever follows them.
#[verifier::spinoff_prover]
proof fn lemma_terms_decode(m: Map<usize, nat>, ks: Seq<usize>, y: Seq<u8>)
    requires
        forall|j: int|
            0 <= j < ks.len() ==> m.contains_key(#[trigger] ks[j]) && ks[j] < 0x1_0000_0000
                && fits_field(m[ks[j]]),
    ensures
        read_terms(concat(ks.map_values(|k: usize| term_bytes(m, k))) + y, ks.len())
            == Map::new(|k: usize| ks.contains(k), |k: usize| m[k]),
        concat(ks.map_values(|k: usize| term_bytes(m, k))).len() == 36 * ks.len(),
    decreases ks.len(),
{
    let parts = ks.map_values(|k: usize| term_bytes(m, k));
    if ks.len() == 0 {
        assert(parts =~= Seq::<Seq<u8>>::empty());
        assert(Map::new(|k: usize| ks.contains(k), |k: usize| m[k]) =~= Map::<usize, nat>::empty());
    } else {
        let k0 = ks[0];
        let tail = ks.drop_first();
        lemma_concat_first(parts);
        assert(parts.drop_first() =~= tail.map_values(|k: usize| term_bytes(m, k)));
        assert forall|j: int| 0 <= j < tail.len() implies m.contains_key(#[trigger] tail[j])
            && tail[j] < 0x1_0000_0000 && fits_field(m[tail[j]]) by {
            assert(tail[j] == ks[j + 1]);
        }
        lemma_terms_decode(m, tail, y);
        let rest = concat(tail.map_values(|k: usize| term_bytes(m, k)));
        let first = term_bytes(m, k0);
        assert(parts[0] == first);
        let d = concat(parts) + y;
        assert(d =~= first + (rest + y));
        assert(field_bytes(m[k0]).len() == 32);
        assert(first.len() == 36);
        lemma_u32_roundtrip(k0 as u32);
        lemma_u32_at_left(le_u32(k0 as u32), field_bytes(m[k0]), 0);
        lemma_u32_at_left(first, rest + y, 0);
        assert(u32_at(d, 0) as usize == k0);
        assert(d.subrange(4, 36) =~= field_bytes(m[k0]));
        lemma_field_roundtrip(m[k0]);
        assert(d.skip(36) =~= rest + y);
        assert(read_terms(d, ks.len()) =~= Map::new(|k: usize| ks.contains(k), |k: usize| m[k])) by {
            assert forall|k: usize| #[trigger] ks.contains(k) <==> (k == k0 || tail.contains(k)) by {
                if ks.contains(k) && k != k0 {
                    let j = choose|j: int| 0 <= j < ks.len() && ks[j] == k;
                    assert(tail[j - 1] == k);
                }
                if tail.contains(k) {
                    let j = choose|j: int| 0 <= j < tail.len() && tail[j] == k;
                    assert(ks[j + 1] == k);
                }
            }
        }
    }
}

/// A written combination reads back as its non-zero terms, takes exactly
/// its own bytes, and leaves what follows it.
#[verifier::spinoff_prover]
proof fn lemma_lc_decode(m: Map<usize, nat>, y: Seq<u8>)
    requires
        lc_writable(m),
    ensures
        read_lc(lc_bytes(m) + y) == nonzero_part(m),
        lc_length(lc_bytes(m) + y) == lc_bytes(m).len(),
        (lc_bytes(m) + y).skip(lc_bytes(m).len() as int) == y,
{
    let s = nonzero_keys(m);
    assert(s.finite());
    let ks = ascending(s);
    lemma_ascending_elements(s);
    assert forall|j: int| 0 <= j < ks.len() implies m.contains_key(#[trigger] ks[j])
        && ks[j] < 0x1_0000_0000 && fits_field(m[ks[j]]) by {
        assert(ks.contains(ks[j]));
        assert(s.contains(ks[j]));
    }
    lemma_terms_decode(m, ks, y);
    let body = concat(ks.map_values(|k: usize| term_bytes(m, k)));
    let d = lc_bytes(m) + y;
    assert(lc_bytes(m) == le_u32(ks.len() as u32) + body);
    lemma_u32_roundtrip(ks.len() as u32);
    lemma_u32_at_left(le_u32(ks.len() as u32), body + y, 0);
    assert(d =~= le_u32(ks.len() as u32) + (body + y));
    assert(u32_at(d, 0) == ks.len());
    assert(d.skip(4) =~= body + y);
    assert(read_lc(d) =~= nonzero_part(m)) by {
        assert forall|k: usize| #[trigger] ks.contains(k) <==> (m.contains_key(k) && m[k] != 0) by {
            assert(ks.contains(k) <==> s.contains(k));
        }
    }
    assert(d.skip(lc_bytes(m).len() as int) =~= y);
}

/// A written constraint reads back as its three sides, in order.
#[verifier::spinoff_prover]
proof fn lemma_constraint_decode(c: SpecConstraint, y: Seq<u8>)
    requires
        constraint_writable(c),
    ensures
        read_constraint(constraint_bytes(c) + y) == written_form(c),
        constraint_length(constraint_bytes(c) + y) == constraint_bytes(c).len(),
        (constraint_bytes(c) + y).skip(constraint_bytes(c).len() as int) == y,
{
    reveal(read_constraint);
    reveal(constraint_length);
    let ba = lc_bytes(c.a);
    let bb = lc_bytes(c.b);
    let bc = lc_bytes(c.c);
    let d = constraint_bytes(c) + y;
    assert(d =~= ba + (bb + (bc + y)));
    lemma_lc_decode(c.a, bb + (bc + y));
    lemma_lc_decode(c.b, bc + y);
    lemma_lc_decode(c.c, y);
    assert(d.skip(constraint_bytes(c).len() as int) =~= y);
}

/// Written constraints read back as themselves, in order.
#[verifier::rlimit(100)]
#[verifier::spinoff_prover]
proof fn lemma_constraints_decode(cs: Seq<SpecConstraint>, y: Seq<u8>)
    requires
        forall|i: int| 0 <= i < cs.len() ==> constraint_writable(#[trigger] cs[i]),
    ensures
        read_constraints(concat(cs.map_values(|c: SpecConstraint| constraint_bytes(c))) + y, cs.len())
            == cs.map_values(|c: SpecConstraint| written_form(c)),
    decreases cs.len(),
{
    let parts = cs.map_values(|c: SpecConstraint| constraint_bytes(c));
    if cs.len() == 0 {
        assert(cs.map_values(|c: SpecConstraint| written_form(c)) =~= Seq::<SpecConstraint>::empty());
    } else {
        let tail = cs.drop_first();
        lemma_concat_first(parts);
        assert(parts.drop_first() =~= tail.map_values(|c: SpecConstraint| constraint_bytes(c)));
        let rest = concat(tail.map_values(|c: SpecConstraint| constraint_bytes(c)));
        assert(parts[0] == constraint_bytes(cs[0]));
        let d = concat(parts) + y;
        assert(d =~= constraint_bytes(cs[0]) + (rest + y));
        lemma_constraint_decode(cs[0], rest + y);
        assert forall|i: int| 0 <= i < tail.len() implies constraint_writable(#[trigger] tail[i]) by {
            assert(tail[i] == cs[i + 1]);
        }
        lemma_constraints_decode(tail, y);
        let skipped = d.skip(constraint_length(d) as int);
        assert(skipped == rest + y);
        assert(read_constraints(d, cs.len()) == seq![read_constraint(d)] + read_constraints(
            skipped,
            tail.len(),
        ));
        assert(cs.map_values(|c: SpecConstraint| written_form(c)) =~= seq![written_form(cs[0])]
            + tail.map_values(|c: SpecConstraint| written_form(c)));
    }
}

/// Where the constraints section's data and the wire map's data stand in
/// the file written for a system.
#[verifier::rlimit(100)]
#[verifier::spinoff_prover]
proof fn lemma_sections_at(m: SystemModel)
    requires
        fits_field(m.prime),
        counts_fit(m),
        r1cs_file_bytes(m).len() <= usize::MAX,
    ensures
        ({
            let f = r1cs_file_bytes(m);
            let d1 = constraint_data(m);
            let d2 = wire_bytes(m.num_variables);
            &&& 112 + d1.len() + d2.len() <= f.len()
            &&& f.subrange(100, 100 + d1.len() as int) == d1
            &&& f.subrange(112 + d1.len() as int, 112 + d1.len() as int + d2.len() as int) == d2
        }),
{
    let d0 = header_bytes(m);
    let d1 = constraint_data(m);
    let d2 = wire_bytes(m.num_variables);
    let d3 = label_bytes(m.variable_names);
    assert(r1cs_file_bytes(m) == file_of(d0, d1, d2, d3)) by {
        reveal(file_of);
    }
    lemma_header_roundtrip(m);
    assert(d0.len() == 64);
    lemma_file_layout(d0, d1, d2, d3);
}

/// What follows position `a` is the part up to `b`, then what follows `b`.
proof fn lemma_skip_split(f: Seq<u8>, a: int, b: int)
    requires
        0 <= a <= b <= f.len(),
    ensures
        f.skip(a) == f.subrange(a, b) + f.skip(b),
{
    assert(f.skip(a) =~= f.subrange(a, b) + f.skip(b));
}

/// Reading back the constraints section of the file written for a system
/// gives the system's constraints, in order, each as its sides `a`, `b`
/// and `c` with their non-zero terms. It holds when the prime fits a field
/// element, the counts fit a u32, every side can be written (see
/// `lc_writable`), and the file's length fits a `usize`.
#[verifier::rlimit(100)]
#[verifier::spinoff_prover]
pub proof fn lemma_constraints_written(m: SystemModel)
    requires
        fits_field(m.prime),
        counts_fit(m),
        r1cs_file_bytes(m).len() <= usize::MAX,
        forall|i: int| 0 <= i < m.constraints.len() ==> constraint_writable(#[trigger] m.constraints[i]),
    ensures
        read_constraints(r1cs_file_bytes(m).skip(100), m.constraints.len())
            == m.constraints.map_values(|c: SpecConstraint| written_form(c)),
{
    let d1 = constraint_data(m);
    let f = r1cs_file_bytes(m);
    lemma_sections_at(m);
    let rest = f.skip(100 + d1.len() as int);
    lemma_skip_split(f, 100, 100 + d1.len() as int);
    lemma_constraints_decode(m.constraints, rest);
}

/// The wire map of `n` wires lists them in order: four bytes a wire, the
/// u32 at `4 * i` being `i`.
proof fn lemma_wire_entries(n: nat)
    requires
        n <= 0x1_0000_0000,
    ensures
        wire_bytes(n).len() == 4 * n,
        forall|i: int| 0 <= i < n ==> #[trigger] u32_at(wire_bytes(n), 4 * i) == i,
    decreases n,
{
    let parts = Seq::new(n, |i: int| le_u32(i as u32));
    if n > 0 {
        lemma_wire_entries((n - 1) as nat);
        assert(parts.drop_last() =~= Seq::new((n - 1) as nat, |i: int| le_u32(i as u32)));
        let prev = wire_bytes((n - 1) as nat);
        let last = le_u32((n - 1) as u32);
        assert(wire_bytes(n) == prev + last);
        assert forall|i: int| 0 <= i < n implies #[trigger] u32_at(wire_bytes(n), 4 * i) == i by {
            if i < n - 1 {
                lemma_u32_at_left(prev, last, 4 * i);
                assert(u32_at(prev, 4 * i) == i);
            } else {
                lemma_u32_at_right(prev, last, 0);
                lemma_u32_roundtrip((n - 1) as u32);
            }
        }
    } else {
        assert(parts =~= Seq::<Seq<u8>>::empty());
    }
}

/// The wire map of the file written for a system lists its wires in
/// order: after the constraints section's data and the wire map's own type
/// and length, the u32 at `4 * i` is `i`, for each variable `i`. It holds
/// under the same conditions as `lemma_inspect_written`.
#[verifier::rlimit(100)]
#[verifier::spinoff_prover]
pub proof fn lemma_wire_map_written(m: SystemModel)
    requires
        fits_field(m.prime),
        counts_fit(m),
        r1cs_file_bytes(m).len() <= usize::MAX,
    ensures
        forall|i: int|
            0 <= i < m.num_variables ==> #[trigger] u32_at(
                r1cs_file_bytes(m),
                112 + constraint_data(m).len() + 4 * i,
            ) == i,
{
    let d1 = constraint_data(m);
    let d2 = wire_bytes(m.num_variables);
    let f = r1cs_file_bytes(m);
    lemma_sections_at(m);
    lemma_wire_entries(m.num_variables);
    let start: int = 112 + d1.len() as int;
    let w = f.subrange(start, start + d2.len());
    assert(w == d2);
    assert forall|i: int| 0 <= i < m.num_variables implies #[trigger] u32_at(f, start + 4 * i) == i by {
        assert(u32_at(d2, 4 * i) == i);
        assert(f[start + 4 * i] == w[4 * i]);
        assert(f[start + 4 * i + 1] == w[4 * i + 1]);
        assert(f[start + 4 * i + 2] == w[4 * i + 2]);
        assert(f[start + 4 * i + 3] == w[4 * i + 3]);
    }
}

} // verus!
