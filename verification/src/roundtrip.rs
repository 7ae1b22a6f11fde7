//! What inspecting a written `.r1cs` file reports: the system's prime and
//! counts, the sizes of its sections, and every variable's name.

use vstd::prelude::*;
use vstd::utf8::encode_utf8;

use crate::natural::{be_bytes, be_value, decimal_text};
use crate::r1cs::{SpecConstraint, SystemModel};
use crate::serializer::{
    concat, constraint_bytes, field_bytes, field_size, first_header, fits_field, has_magic,
    header_bytes, header_ok, header_report, header_setup_counts, inspect_report, inspectable,
    label_bytes, label_text, labels_report, le_u32, le_u64, magic_bytes, number_line,
    r1cs_file_bytes, section_bytes, section_report, sections_ok, sections_report, setup_readable,
    setup_scan_ok, size_line, u32_at, u64_at, wire_bytes,
};

verus! {

/// Reading back the little-endian bytes of a u32 gives the u32.
pub(crate) proof fn lemma_u32_roundtrip(v: u32)
    ensures
        u32_at(le_u32(v), 0) == v,
{
    let x: u64 = v as u64;
    assert(x == (x % 256) + 256 * ((x / 256) % 256) + 65536 * ((x / 65536) % 256) + 16777216 * ((x
        / 16777216) % 256)) by (bit_vector)
        requires
            x < 0x1_0000_0000,
    ;
}

/// Four bytes read within the second of two byte strings.
pub(crate) proof fn lemma_u32_at_right(a: Seq<u8>, b: Seq<u8>, i: int)
    requires
        0 <= i,
        i + 4 <= b.len(),
    ensures
        u32_at(a + b, a.len() + i) == u32_at(b, i),
{
    assert((a + b)[a.len() + i] == b[i]);
    assert((a + b)[a.len() + i + 1] == b[i + 1]);
    assert((a + b)[a.len() + i + 2] == b[i + 2]);
    assert((a + b)[a.len() + i + 3] == b[i + 3]);
}

/// Four bytes read within the first of two byte strings.
pub(crate) proof fn lemma_u32_at_left(a: Seq<u8>, b: Seq<u8>, i: int)
    requires
        0 <= i,
        i + 4 <= a.len(),
    ensures
        u32_at(a + b, i) == u32_at(a, i),
{
}

/// Reading back the little-endian bytes of a u64 gives the u64.
proof fn lemma_u64_roundtrip(v: u64)
    ensures
        u64_at(le_u64(v), 0) == v,
{
    let lo = (v % 0x1_0000_0000) as u32;
    let hi = (v / 0x1_0000_0000) as u32;
    lemma_u32_roundtrip(lo);
    lemma_u32_roundtrip(hi);
    lemma_u32_at_left(le_u32(lo), le_u32(hi), 0);
    lemma_u32_at_right(le_u32(lo), le_u32(hi), 0);
    assert(v == lo + 0x1_0000_0000 * hi) by (nonlinear_arith)
        requires
            lo == v % 0x1_0000_0000,
            hi == v / 0x1_0000_0000,
    ;
}

/// What a section's first twelve bytes and its data say, wherever the
/// section stands in a file.
proof fn lemma_section_at(f: Seq<u8>, o: int, kind: u32, data: Seq<u8>)
    requires
        0 <= o,
        o + 12 + data.len() <= f.len(),
        data.len() < 0x1_0000_0000_0000_0000,
        f.subrange(o, o + 12 + data.len()) == section_bytes(kind, data),
    ensures
        u32_at(f, o) == kind,
        u64_at(f, o + 4) == data.len(),
        f.subrange(o + 12, o + 12 + data.len()) == data,
{
    let sec = section_bytes(kind, data);
    let l = le_u64(data.len() as u64);
    lemma_u32_roundtrip(kind);
    lemma_u64_roundtrip(data.len() as u64);
    assert(sec == le_u32(kind) + l + data);
    assert(forall|k: int| 0 <= k < sec.len() ==> f[o + k] == #[trigger] sec[k]) by {
        assert forall|k: int| 0 <= k < sec.len() implies f[o + k] == #[trigger] sec[k] by {
            assert(f.subrange(o, o + 12 + data.len())[k] == f[o + k]);
        }
    }
    assert(u32_at(f, o) == u32_at(sec, 0));
    assert(u32_at(sec, 0) == u32_at(le_u32(kind), 0));
    lemma_u32_at_left(le_u32(kind) + l, data, 4);
    lemma_u32_at_left(le_u32(kind) + l, data, 8);
    lemma_u32_at_right(le_u32(kind), l, 0);
    lemma_u32_at_right(le_u32(kind), l, 4);
    assert(u32_at(f, o + 4) == u32_at(sec, 4));
    assert(u32_at(f, o + 8) == u32_at(sec, 8));
    assert(f.subrange(o + 12, o + 12 + data.len()) =~= data) by {
        assert forall|k: int| 0 <= k < data.len() implies f.subrange(o + 12, o + 12 + data.len())[k]
            == data[k] by {
            assert(sec[12 + k] == data[k]);
        }
    }
}

/// The minimal big-endian bytes of `n` denote `n`.
proof fn lemma_be_roundtrip(n: nat)
    ensures
        be_value(be_bytes(n)) == n,
    decreases n,
{
    if n < 256 {
        assert(seq![n as u8].drop_last() =~= Seq::<u8>::empty());
        assert(be_value(Seq::<u8>::empty()) == 0);
    } else {
        lemma_be_roundtrip(n / 256);
        assert(be_bytes(n).drop_last() =~= be_bytes(n / 256));
        assert(be_bytes(n).last() == (n % 256) as u8);
        vstd::arithmetic::div_mod::lemma_fundamental_div_mod(n as int, 256);
    }
}

/// Leading zero bytes do not change the number denoted.
proof fn lemma_be_leading_zeros(k: nat, s: Seq<u8>)
    ensures
        be_value(Seq::new(k, |i: int| 0u8) + s) == be_value(s),
    decreases s.len() + k,
{
    let z = Seq::new(k, |i: int| 0u8);
    if s.len() == 0 {
        assert(z + s =~= z);
        if k > 0 {
            lemma_be_leading_zeros((k - 1) as nat, s);
            assert(z.drop_last() =~= Seq::new((k - 1) as nat, |i: int| 0u8));
            assert(Seq::new((k - 1) as nat, |i: int| 0u8) + s =~= Seq::new((k - 1) as nat, |i: int| 0u8));
        }
    } else {
        lemma_be_leading_zeros(k, s.drop_last());
        assert((z + s).drop_last() =~= z + s.drop_last());
    }
}

/// A field element denotes the number written into it.
pub(crate) proof fn lemma_field_roundtrip(n: nat)
    requires
        fits_field(n),
    ensures
        be_value(field_bytes(n)) == n,
{
    lemma_be_leading_zeros((field_size() - be_bytes(n).len()) as nat, be_bytes(n));
    lemma_be_roundtrip(n);
}

/// Whether every count in the header fits in a u32.
pub open spec fn counts_fit(m: SystemModel) -> bool {
    &&& m.num_variables < 0x1_0000_0000
    &&& m.num_public_outputs < 0x1_0000_0000
    &&& m.num_public_inputs < 0x1_0000_0000
    &&& m.num_private_inputs < 0x1_0000_0000
    &&& m.constraints.len() < 0x1_0000_0000
}

/// The report on a header written for `m`: field size 32, the prime, and
/// the counts.
pub open spec fn header_summary(m: SystemModel) -> Seq<char> {
    "=== Header Section ===\n"@ + number_line("Field size: "@, 32, " bytes\n"@) + number_line(
        "Prime: "@,
        m.prime,
        "\n"@,
    ) + number_line("Total wires: "@, m.num_variables, "\n"@) + number_line(
        "Public outputs: "@,
        m.num_public_outputs,
        "\n"@,
    ) + number_line("Public inputs: "@, m.num_public_inputs, "\n"@) + number_line(
        "Private inputs: "@,
        m.num_private_inputs,
        "\n"@,
    ) + number_line("Constraints: "@, m.constraints.len(), "\n"@) + "\n"@
}

/// Reading a written header gives back its field size, prime and counts.
#[verifier::rlimit(100)]
pub(crate) proof fn lemma_header_roundtrip(m: SystemModel)
    requires
        fits_field(m.prime),
        counts_fit(m),
    ensures
        header_ok(header_bytes(m)),
        header_report(header_bytes(m)) == header_summary(m),
        u32_at(header_bytes(m), 0) == 32,
        u32_at(header_bytes(m), 36) == m.num_variables,
        u32_at(header_bytes(m), 60) == m.constraints.len(),
{
    let d = header_bytes(m);
    let a0 = le_u32(32);
    let a1 = field_bytes(m.prime);
    let a2 = le_u32(m.num_variables as u32);
    let a3 = le_u32(m.num_public_outputs as u32);
    let a4 = le_u32(m.num_public_inputs as u32);
    let a5 = le_u32(m.num_private_inputs as u32);
    let a6 = le_u64(m.num_variables as u64);
    let a7 = le_u32(m.constraints.len() as u32);
    assert(a1.len() == 32);
    assert(d.len() == 64);
    lemma_u32_roundtrip(32);
    lemma_u32_roundtrip(m.num_variables as u32);
    lemma_u32_roundtrip(m.num_public_outputs as u32);
    lemma_u32_roundtrip(m.num_public_inputs as u32);
    lemma_u32_roundtrip(m.num_private_inputs as u32);
    lemma_u32_roundtrip(m.constraints.len() as u32);
    assert(u32_at(d, 0) == u32_at(a0, 0));
    assert(u32_at(d, 36) == u32_at(a2, 0));
    assert(u32_at(d, 40) == u32_at(a3, 0));
    assert(u32_at(d, 44) == u32_at(a4, 0));
    assert(u32_at(d, 48) == u32_at(a5, 0));
    assert(u32_at(d, 60) == u32_at(a7, 0));
    assert(d.subrange(4, 36) =~= a1);
    lemma_field_roundtrip(m.prime);
}

/// A concatenation is its first part followed by the rest.
pub(crate) proof fn lemma_concat_first(parts: Seq<Seq<u8>>)
    requires
        parts.len() > 0,
    ensures
        concat(parts) == parts[0] + concat(parts.drop_first()),
    decreases parts.len(),
{
    if parts.len() == 1 {
        assert(parts.drop_last() =~= Seq::<Seq<u8>>::empty());
        assert(parts.drop_first() =~= Seq::<Seq<u8>>::empty());
        assert(parts[0] + Seq::<u8>::empty() =~= parts[0]);
    } else {
        lemma_concat_first(parts.drop_last());
        assert(parts.drop_last().drop_first() =~= parts.drop_first().drop_last());
        assert(parts.drop_first().last() == parts.last());
        assert(parts.drop_last()[0] == parts[0]);
    }
}

/// Bytes in front do not change how the labels after them read.
proof fn lemma_labels_shift(pre: Seq<u8>, s: Seq<u8>, p: nat, idx: nat)
    ensures
        labels_report(pre + s, pre.len() + p, idx) == labels_report(s, p, idx),
    decreases s.len() - p,
{
    let t = pre + s;
    let q = pre.len() + p;
    if p + 4 <= s.len() {
        lemma_u32_at_right(pre, s, p as int);
        let n = u32_at(s, p as int);
        if p + 4 + n <= s.len() {
            assert(t.subrange(q + 4int, q + 4int + n) =~= s.subrange(p + 4int, p + 4int + n));
            lemma_labels_shift(pre, s, p + 4 + n, idx + 1);
            assert(pre.len() + (p + 4 + n) == q + 4 + n);
        }
    }
}

/// The report lines `  v{i} = {name}` for names numbered from `idx`.
pub open spec fn label_lines(names: Seq<Seq<char>>, idx: nat) -> Seq<char> {
    Seq::new(
        names.len(),
        |i: int| "  v"@ + decimal_text(idx + i as nat) + " = "@ + names[i] + "\n"@,
    ).flatten()
}

/// Whether every name's UTF-8 length fits in a u32.
pub open spec fn names_fit(names: Seq<Seq<char>>) -> bool {
    forall|i: int| 0 <= i < names.len() ==> encode_utf8(#[trigger] names[i]).len() < 0x1_0000_0000
}

/// Reading written labels gives back every name, numbered from `idx`.
proof fn lemma_labels_roundtrip(names: Seq<Seq<char>>, idx: nat)
    requires
        names_fit(names),
    ensures
        labels_report(label_bytes(names), 0, idx) == label_lines(names, idx),
    decreases names.len(),
{
    broadcast use vstd::utf8::encode_utf8_decode_utf8, vstd::utf8::encode_utf8_valid_utf8;

    let entries = names.map_values(|name: Seq<char>| le_u32(encode_utf8(name).len() as u32) + encode_utf8(name));
    let lines = Seq::new(
        names.len(),
        |i: int| "  v"@ + decimal_text(idx + i as nat) + " = "@ + names[i] + "\n"@,
    );
    if names.len() == 0 {
        assert(entries =~= Seq::<Seq<u8>>::empty());
        assert(label_bytes(names) =~= Seq::<u8>::empty());
        assert(lines =~= Seq::<Seq<char>>::empty());
    } else {
        let name = names[0];
        let tail = names.drop_first();
        let enc = encode_utf8(name);
        let len = enc.len() as u32;
        let e = le_u32(len) + enc;
        lemma_concat_first(entries);
        assert(entries.drop_first() =~= tail.map_values(
            |name: Seq<char>| le_u32(encode_utf8(name).len() as u32) + encode_utf8(name),
        ));
        let rest = label_bytes(tail);
        let s = label_bytes(names);
        assert(s == e + rest);
        lemma_u32_roundtrip(len);
        lemma_u32_at_left(le_u32(len), enc, 0);
        lemma_u32_at_left(e, rest, 0);
        assert(u32_at(s, 0) == enc.len());
        assert(s.subrange(4, 4 + enc.len() as int) =~= enc);
        assert(label_text(enc) == name);
        lemma_labels_shift(e, rest, 0, idx + 1);
        assert(e.len() == 4 + enc.len());
        lemma_labels_roundtrip(tail, idx + 1);
        assert(names_fit(tail)) by {
            assert forall|i: int| 0 <= i < tail.len() implies encode_utf8(#[trigger] tail[i]).len()
                < 0x1_0000_0000 by {
                assert(tail[i] == names[i + 1]);
            }
        }
        assert(lines.drop_first() =~= Seq::new(
            tail.len(),
            |i: int| "  v"@ + decimal_text((idx + 1) + i as nat) + " = "@ + tail[i] + "\n"@,
        ));
        assert(lines.flatten() == lines[0] + lines.drop_first().flatten());
    }
}

/// The wire map of `n` wires takes four bytes per wire.
proof fn lemma_wire_len(n: nat)
    ensures
        wire_bytes(n).len() == 4 * n,
    decreases n,
{
    if n > 0 {
        lemma_wire_len((n - 1) as nat);
        let parts = Seq::new(n, |i: int| le_u32(i as u32));
        assert(parts.drop_last() =~= Seq::new((n - 1) as nat, |i: int| le_u32(i as u32)));
    } else {
        assert(Seq::new(0, |i: int| le_u32(i as u32)) =~= Seq::<Seq<u8>>::empty());
    }
}

/// The data of the constraints section written for `m`.
pub open spec fn constraint_data(m: SystemModel) -> Seq<u8> {
    concat(m.constraints.map_values(|c: SpecConstraint| constraint_bytes(c)))
}

/// The report on the file written for `m`: version 1, four sections, the
/// header's field size, prime and counts, the sizes of the constraints and
/// of the wire map (four bytes a wire), and every variable's name by index.
pub open spec fn file_summary(m: SystemModel) -> Seq<char> {
    "Magic: r1cs\n"@ + "Version: "@ + decimal_text(1) + "\n"@ + "Number of sections: "@
        + decimal_text(4) + "\n\n"@ + header_summary(m) + "=== Constraints Section ===\n"@
        + size_line(constraint_data(m).len()) + "=== Wire Map Section ===\n"@ + size_line(
        4 * m.num_variables,
    ) + "=== Label Map Section ===\n"@ + label_lines(m.variable_names, 0) + "\n"@
}

/// A file of the four sections with the given data.
#[verifier::opaque]
pub open spec fn file_of(d0: Seq<u8>, d1: Seq<u8>, d2: Seq<u8>, d3: Seq<u8>) -> Seq<u8> {
    magic_bytes() + le_u32(1) + le_u32(4) + section_bytes(0, d0) + section_bytes(1, d1)
        + section_bytes(2, d2) + section_bytes(3, d3)
}

/// Where each of four parts after a head stands in their concatenation.
proof fn lemma_parts_at(h: Seq<u8>, s0: Seq<u8>, s1: Seq<u8>, s2: Seq<u8>, s3: Seq<u8>)
    ensures
        ({
            let f = h + s0 + s1 + s2 + s3;
            let o0 = h.len() as int;
            let o1 = o0 + s0.len();
            let o2 = o1 + s1.len();
            let o3 = o2 + s2.len();
            &&& f.len() == o3 + s3.len()
            &&& f.subrange(0, o0) == h
            &&& f.subrange(o0, o1) == s0
            &&& f.subrange(o1, o2) == s1
            &&& f.subrange(o2, o3) == s2
            &&& f.subrange(o3, o3 + s3.len()) == s3
        }),
{
    let f = h + s0 + s1 + s2 + s3;
    let o0 = h.len() as int;
    let o1 = o0 + s0.len();
    let o2 = o1 + s1.len();
    let o3 = o2 + s2.len();
    assert(f.subrange(0, o0) =~= h);
    assert(f.subrange(o0, o1) =~= s0);
    assert(f.subrange(o1, o2) =~= s1);
    assert(f.subrange(o2, o3) =~= s2);
    assert(f.subrange(o3, o3 + s3.len()) =~= s3);
}

/// The head and the four sections of such a file, where they stand.
#[verifier::rlimit(100)]
proof fn lemma_file_parts(d0: Seq<u8>, d1: Seq<u8>, d2: Seq<u8>, d3: Seq<u8>)
    ensures
        ({
            let f = file_of(d0, d1, d2, d3);
            let o1: int = 24 + d0.len() as int;
            let o2: int = o1 + 12 + d1.len();
            let o3: int = o2 + 12 + d2.len();
            &&& f.len() == o3 + 12 + d3.len()
            &&& f.subrange(0, 12) == magic_bytes() + le_u32(1) + le_u32(4)
            &&& f.subrange(12, o1) == section_bytes(0, d0)
            &&& f.subrange(o1, o2) == section_bytes(1, d1)
            &&& f.subrange(o2, o3) == section_bytes(2, d2)
            &&& f.subrange(o3, o3 + 12 + d3.len()) == section_bytes(3, d3)
        }),
{
    reveal(file_of);
    let head = magic_bytes() + le_u32(1) + le_u32(4);
    let s0 = section_bytes(0, d0);
    let s1 = section_bytes(1, d1);
    let s2 = section_bytes(2, d2);
    let s3 = section_bytes(3, d3);
    assert(head.len() == 12);
    assert(s0.len() == 12 + d0.len());
    assert(s1.len() == 12 + d1.len());
    assert(s2.len() == 12 + d2.len());
    assert(s3.len() == 12 + d3.len());
    lemma_parts_at(head, s0, s1, s2, s3);
}

/// The magic, version and section count at the head of such a file.
#[verifier::rlimit(100)]
proof fn lemma_file_head(d0: Seq<u8>, d1: Seq<u8>, d2: Seq<u8>, d3: Seq<u8>)
    ensures
        u32_at(file_of(d0, d1, d2, d3), 4) == 1,
        u32_at(file_of(d0, d1, d2, d3), 8) == 4,
        has_magic(file_of(d0, d1, d2, d3)),
{
    let f = file_of(d0, d1, d2, d3);
    lemma_file_parts(d0, d1, d2, d3);
    let head = magic_bytes() + le_u32(1) + le_u32(4);
    let g = f.subrange(0, 12);
    assert(g == head);
    lemma_u32_roundtrip(1);
    lemma_u32_roundtrip(4);
    lemma_u32_at_left(magic_bytes() + le_u32(1), le_u32(4), 4);
    lemma_u32_at_right(magic_bytes(), le_u32(1), 0);
    lemma_u32_at_right(magic_bytes() + le_u32(1), le_u32(4), 0);
    assert(u32_at(f, 4) == u32_at(g, 4));
    assert(u32_at(f, 8) == u32_at(g, 8));
    assert(f.subrange(0, 4) =~= g.subrange(0, 4));
    assert(head.subrange(0, 4) =~= magic_bytes());
}

/// Where each section of such a file stands, and what its type, length
/// and data read as.
#[verifier::rlimit(100)]
pub(crate) proof fn lemma_file_layout(d0: Seq<u8>, d1: Seq<u8>, d2: Seq<u8>, d3: Seq<u8>)
    requires
        file_of(d0, d1, d2, d3).len() <= usize::MAX,
    ensures
        ({
            let f = file_of(d0, d1, d2, d3);
            let o1: int = 24 + d0.len() as int;
            let o2: int = o1 + 12 + d1.len();
            let o3: int = o2 + 12 + d2.len();
            &&& f.len() == o3 + 12 + d3.len()
            &&& u32_at(f, 4) == 1
            &&& u32_at(f, 8) == 4
            &&& has_magic(f)
            &&& u32_at(f, 12) == 0
            &&& u64_at(f, 16) == d0.len()
            &&& f.subrange(24, o1) == d0
            &&& u32_at(f, o1) == 1
            &&& u64_at(f, o1 + 4) == d1.len()
            &&& f.subrange(o1 + 12, o2) == d1
            &&& u32_at(f, o2) == 2
            &&& u64_at(f, o2 + 4) == d2.len()
            &&& f.subrange(o2 + 12, o3) == d2
            &&& u32_at(f, o3) == 3
            &&& u64_at(f, o3 + 4) == d3.len()
            &&& f.subrange(o3 + 12, o3 + 12 + d3.len()) == d3
        }),
{
    let f = file_of(d0, d1, d2, d3);
    lemma_file_parts(d0, d1, d2, d3);
    lemma_file_head(d0, d1, d2, d3);
    let o1: int = 24 + d0.len() as int;
    let o2: int = o1 + 12 + d1.len();
    let o3: int = o2 + 12 + d2.len();
    lemma_section_at(f, 12, 0, d0);
    lemma_section_at(f, o1, 1, d1);
    lemma_section_at(f, o2, 2, d2);
    lemma_section_at(f, o3, 3, d3);
}

/// Inspecting such a file stays within its bytes.
#[verifier::rlimit(100)]
proof fn lemma_file_inspectable(d0: Seq<u8>, d1: Seq<u8>, d2: Seq<u8>, d3: Seq<u8>)
    requires
        file_of(d0, d1, d2, d3).len() <= usize::MAX,
        header_ok(d0),
    ensures
        inspectable(file_of(d0, d1, d2, d3)),
{
    let f = file_of(d0, d1, d2, d3);
    lemma_file_layout(d0, d1, d2, d3);
    let o1: nat = 24 + d0.len();
    let o2: nat = o1 + 12 + d1.len();
    let o3: nat = o2 + 12 + d2.len();
    let end: nat = o3 + 12 + d3.len();
    assert(sections_ok(f, end, 0));
    assert(sections_ok(f, o3, 1));
    assert(sections_ok(f, o2, 2));
    assert(sections_ok(f, o1, 3));
    assert(sections_ok(f, 12, 4));
}

/// What inspecting such a file reports, section by section.
#[verifier::rlimit(100)]
proof fn lemma_file_report(d0: Seq<u8>, d1: Seq<u8>, d2: Seq<u8>, d3: Seq<u8>)
    requires
        file_of(d0, d1, d2, d3).len() <= usize::MAX,
        header_ok(d0),
    ensures
        file_of(d0, d1, d2, d3).len() >= 16,
        has_magic(file_of(d0, d1, d2, d3)),
        inspectable(file_of(d0, d1, d2, d3)),
        inspect_report(file_of(d0, d1, d2, d3)) == "Magic: r1cs\n"@ + "Version: "@ + decimal_text(1)
            + "\n"@ + "Number of sections: "@ + decimal_text(4) + "\n\n"@ + header_report(d0)
            + "=== Constraints Section ===\n"@ + size_line(d1.len()) + "=== Wire Map Section ===\n"@
            + size_line(d2.len()) + "=== Label Map Section ===\n"@ + labels_report(d3, 0, 0)
            + "\n"@,
{
    let f = file_of(d0, d1, d2, d3);
    lemma_file_layout(d0, d1, d2, d3);
    lemma_file_inspectable(d0, d1, d2, d3);
    let o1: nat = 24 + d0.len();
    let o2: nat = o1 + 12 + d1.len();
    let o3: nat = o2 + 12 + d2.len();
    let end: nat = o3 + 12 + d3.len();
    assert(sections_report(f, end, 0) == Seq::<char>::empty());
    assert(sections_report(f, o3, 1) == section_report(f, 3, d3.len(), o3 + 12));
    assert(sections_report(f, o2, 2) == section_report(f, 2, d2.len(), o2 + 12) + sections_report(
        f,
        o3,
        1,
    ));
    assert(sections_report(f, o1, 3) == section_report(f, 1, d1.len(), o1 + 12) + sections_report(
        f,
        o2,
        2,
    ));
    assert(sections_report(f, 12, 4) == section_report(f, 0, d0.len(), 24) + sections_report(
        f,
        o1,
        3,
    ));
    assert(inspect_report(f) =~= "Magic: r1cs\n"@ + "Version: "@ + decimal_text(1) + "\n"@
        + "Number of sections: "@ + decimal_text(4) + "\n\n"@ + header_report(d0)
        + "=== Constraints Section ===\n"@ + size_line(d1.len()) + "=== Wire Map Section ===\n"@
        + size_line(d2.len()) + "=== Label Map Section ===\n"@ + labels_report(d3, 0, 0) + "\n"@);
}

/// Inspecting the file written for a system reports that system: its
/// prime, its counts, the sizes of its sections and the names of its
/// variables, in order. It holds when the prime fits a field element, every
/// count and every name's length fits a u32, and the file's length fits a
/// `usize` (as that of any file held in memory does).
#[verifier::rlimit(100)]
pub proof fn lemma_inspect_written(m: SystemModel)
    requires
        fits_field(m.prime),
        counts_fit(m),
        names_fit(m.variable_names),
        r1cs_file_bytes(m).len() <= usize::MAX,
    ensures
        r1cs_file_bytes(m).len() >= 16,
        has_magic(r1cs_file_bytes(m)),
        inspectable(r1cs_file_bytes(m)),
        inspect_report(r1cs_file_bytes(m)) == file_summary(m),
{
    let d0 = header_bytes(m);
    let d1 = constraint_data(m);
    let d2 = wire_bytes(m.num_variables);
    let d3 = label_bytes(m.variable_names);
    assert(r1cs_file_bytes(m) == file_of(d0, d1, d2, d3)) by {
        reveal(file_of);
    }
    lemma_header_roundtrip(m);
    lemma_wire_len(m.num_variables);
    lemma_labels_roundtrip(m.variable_names, 0);
    lemma_file_report(d0, d1, d2, d3);
}

/// Reading the setup counts from such a file finds its header section.
#[verifier::rlimit(100)]
proof fn lemma_file_first_header(d0: Seq<u8>, d1: Seq<u8>, d2: Seq<u8>, d3: Seq<u8>)
    requires
        file_of(d0, d1, d2, d3).len() <= usize::MAX,
        header_ok(d0),
    ensures
        file_of(d0, d1, d2, d3).len() >= 12,
        has_magic(file_of(d0, d1, d2, d3)),
        setup_readable(file_of(d0, d1, d2, d3)),
        first_header(file_of(d0, d1, d2, d3), 12, 4) == Some(d0),
{
    let f = file_of(d0, d1, d2, d3);
    lemma_file_layout(d0, d1, d2, d3);
    let o1: nat = 24 + d0.len();
    let o2: nat = o1 + 12 + d1.len();
    let o3: nat = o2 + 12 + d2.len();
    let end: nat = o3 + 12 + d3.len();
    assert(setup_scan_ok(f, end, 0, true));
    assert(setup_scan_ok(f, o3, 1, true));
    assert(setup_scan_ok(f, o2, 2, true));
    assert(setup_scan_ok(f, o1, 3, true));
    assert(setup_scan_ok(f, 12, 4, false));
}

/// Reading the setup counts from the file written for a system gives its
/// number of constraints and its number of variables, under the same
/// conditions as `lemma_inspect_written`.
pub proof fn lemma_setup_counts_written(m: SystemModel)
    requires
        fits_field(m.prime),
        counts_fit(m),
        r1cs_file_bytes(m).len() <= usize::MAX,
    ensures
        r1cs_file_bytes(m).len() >= 12,
        has_magic(r1cs_file_bytes(m)),
        setup_readable(r1cs_file_bytes(m)),
        first_header(r1cs_file_bytes(m), 12, 4) matches Some(h) && header_setup_counts(h) == (
            m.constraints.len(),
            m.num_variables,
        ),
{
    let d0 = header_bytes(m);
    let d1 = constraint_data(m);
    let d2 = wire_bytes(m.num_variables);
    let d3 = label_bytes(m.variable_names);
    assert(r1cs_file_bytes(m) == file_of(d0, d1, d2, d3)) by {
        reveal(file_of);
    }
    lemma_header_roundtrip(m);
    lemma_file_first_header(d0, d1, d2, d3);
}

} // verus!
