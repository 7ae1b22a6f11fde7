use zkp_circuit_compiler::ast::{Expr, SignalDecl, SignalKind, Statement};
use zkp_circuit_compiler::error::CompileError;
use zkp_circuit_compiler::flattener::flatten;
use zkp_circuit_compiler::groth16::{G1Point, G2Point, ToxicWaste, CRS};
use zkp_circuit_compiler::lexer::{Lexer, TokenKind};
use zkp_circuit_compiler::natural::Natural;
use zkp_circuit_compiler::parser::Parser;
use zkp_circuit_compiler::r1cs::{bn128_prime, LinearCombination, R1csSystem};
use zkp_circuit_compiler::secure_memory::{SecureBox, SecureVec};
use zkp_circuit_compiler::serializer::{
    can_serialize, deserialize_and_inspect, is_inspectable, is_setup_readable, read_setup_counts,
    serialize,
};
use zkp_circuit_compiler::setup::{run_ceremony, Ceremony, SetupConfig};

fn compile(source: &str) -> Result<R1csSystem, CompileError> {
    let mut lexer = Lexer::new(source);
    let tokens = lexer.tokenize()?;
    let mut parser = Parser::new(tokens);
    let program = parser.parse()?;
    flatten(&program, bn128_prime())
}

fn n(v: u64) -> Natural {
    Natural::from_u64(v)
}

fn hash(bytes: &[u8], k: u64) -> u64 {
    let mut h = 0u64;
    for b in bytes {
        h = h.wrapping_mul(k).wrapping_add(*b as u64);
    }
    h
}

fn serialize_error(r: Result<String, CompileError>) -> String {
    match r {
        Err(CompileError::SerializeError { message }) => message,
        _ => panic!("expected a serialization error"),
    }
}

#[test]
fn natural_arithmetic() {
    let a = Natural::parse_decimal("123456789012345678901234567890");
    let b = n(987654321);
    assert_eq!(a.add(&b).to_decimal_string(), "123456789012345678902222222211");
    assert_eq!(a.sub(&b).to_decimal_string(), "123456789012345678900246913569");
    assert_eq!(a.mul(&b).to_decimal_string(), "121932631124828532112482853211126352690");
    assert_eq!(a.rem(&b).to_decimal_string(), "574845669");
    assert_eq!(n(3).modinv(&n(7)), Some(n(5)));
    assert_eq!(n(2).modinv(&n(4)), None);
    assert!(n(0).is_zero());
    assert!(n(3) < n(4));
    assert!(n(4).equals(&n(4)));
    assert_eq!(n(258).to_bytes_be(), vec![1u8, 2u8]);
    assert_eq!(Natural::from_bytes_be(&[1u8, 0u8]), n(256));
    assert_eq!(n(0).to_bytes_be(), vec![0u8]);
    assert_eq!(Natural::from_digits(vec![0, 1]), n(0x1_0000_0000));
    let r = Natural::random_below(&n(10));
    assert!(r < n(10));
}

#[test]
fn natural_hex_parsing() {
    assert_eq!(Natural::parse_hex(b"ff"), Some(n(255)));
    assert_eq!(Natural::parse_hex(b"+FF"), Some(n(255)));
    assert_eq!(Natural::parse_hex(b"1_0"), Some(n(16)));
    assert_eq!(Natural::parse_hex(b"_1"), None);
    assert_eq!(Natural::parse_hex(b""), None);
    assert_eq!(Natural::parse_hex(b"++1"), None);
    assert_eq!(Natural::parse_hex(b"1g"), None);
}

#[test]
fn bn128_prime_value() {
    assert_eq!(
        bn128_prime().to_decimal_string(),
        "21888242871839275222246405745257275088548364400416034343698204186575808495617"
    );
}

#[test]
fn linear_combination_laws_on_values() {
    let p = n(11);
    let a = LinearCombination::from_var(1).scale(&n(4), &p);
    let b = LinearCombination::from_var(1).scale(&n(9), &p);
    let sum = a.add(&b, &p);
    assert_eq!(sum.terms.get(&1), Some(&n(2)));
    let diff = a.sub(&b, &p);
    assert_eq!(diff.terms.get(&1), Some(&n(6)));
    let cancel = a.sub(&a, &p);
    assert!(cancel.terms.is_empty());
    assert!(cancel.is_zero());
    assert!(LinearCombination::from_constant(n(0)).terms.is_empty());
    let scaled = LinearCombination::from_constant(n(3)).scale(&n(4), &p);
    assert_eq!(scaled.terms.get(&0), Some(&n(1)));
}

#[test]
fn linear_combination_render() {
    let p = bn128_prime();
    let lc = LinearCombination::from_constant(n(3)).add(&LinearCombination::from_var(2).scale(&n(5), &p), &p);
    assert_eq!(lc.render(), "3 + 5*v2");
    assert_eq!(LinearCombination::new().render(), "0");
}

#[test]
fn summary_of_compiled_system() {
    let system = compile("signal input a;\nsignal input b;\nsignal output c;\nc <== a * b;").unwrap();
    let summary = system.display_summary();
    assert!(summary.starts_with("=== R1CS System Summary ===\n"));
    assert!(summary.contains("Total variables: 4 (including ~one)\n"));
    assert!(summary.contains("  Intermediate:   0\n"));
    assert!(summary.contains("  v3 = c\n"));
    assert!(summary.contains("  #0: (1*v1) * (1*v2) = (1*v3)\n"));
}

#[test]
fn temporaries_are_named_in_order() {
    let system = compile("signal input a;\nsignal output c;\nc <== a * a * a;").unwrap();
    assert_eq!(system.variable_names[3], "$tmp1");
    assert_eq!(system.constraints.len(), 2);
}

#[test]
fn ast_render() {
    let mut lexer = Lexer::new("signal input a; signal flag; signal output c; if flag then c <== (a + 2) * -a; else a === c - 1;");
    let tokens = lexer.tokenize().unwrap();
    let program = Parser::new(tokens).parse().unwrap();
    assert_eq!(program.statements[0].render(), "signal input a;");
    assert_eq!(program.statements[1].render(), "signal flag;");
    assert_eq!(
        program.statements[3].render(),
        "if flag then c <== ((a + 2) * (-a)); else (a === (c - 1));"
            .replace("else (a === (c - 1));", "else a === (c - 1);")
    );
    assert_eq!(SignalKind::Intermediate.render(), "intermediate");
    let decl = Statement::SignalDecl(SignalDecl { kind: SignalKind::Output, name: "z".to_string() });
    assert_eq!(decl.render(), "signal output z;");
    let e = Expr::Neg(Box::new(Expr::Const(n(7))));
    assert_eq!(e.render(), "(-7)");
}

#[test]
fn lexer_errors() {
    let mut lexer = Lexer::new("a <= b;");
    match lexer.tokenize() {
        Err(CompileError::LexerError { line, col, message }) => {
            assert_eq!((line, col), (1, 3));
            assert_eq!(message, "unexpected token: <=");
        }
        _ => panic!("expected a lexer error"),
    }
    let mut lexer = Lexer::new("signal\n  @");
    match lexer.tokenize() {
        Err(CompileError::LexerError { line, col, message }) => {
            assert_eq!((line, col), (2, 3));
            assert_eq!(message, "unexpected character: '@'");
        }
        _ => panic!("expected a lexer error"),
    }
}

#[test]
fn lexer_token_kinds() {
    let mut lexer = Lexer::new("x <== 5; // comment\n");
    let tokens = lexer.tokenize().unwrap();
    assert!(matches!(tokens[0].kind, TokenKind::Ident(ref s) if s == "x"));
    assert!(matches!(tokens[1].kind, TokenKind::LArrow));
    assert!(matches!(tokens[4].kind, TokenKind::Eof));
    assert_eq!(tokens[1].kind.render(), "<==");
}

#[test]
fn parser_errors() {
    let mut lexer = Lexer::new("signal input;");
    let tokens = lexer.tokenize().unwrap();
    match Parser::new(tokens).parse() {
        Err(CompileError::ParserError { line, col, message }) => {
            assert_eq!((line, col), (1, 13));
            assert_eq!(message, "expected , got ;");
        }
        _ => panic!("expected a parser error"),
    }
}

#[test]
fn flatten_errors() {
    match compile("x <== a * b;") {
        Err(CompileError::R1csError { message }) => assert_eq!(message, "undefined signal: x"),
        _ => panic!("expected an R1CS error"),
    }
    match compile("signal f; signal a; if f then assert_bool(a);") {
        Err(CompileError::R1csError { message }) => {
            assert_eq!(message, "conditional body must be an assignment or constraint")
        }
        _ => panic!("expected an R1CS error"),
    }
}

#[test]
fn conditional_constrains_flag_once() {
    let once = compile("signal a; signal c; signal f; if f then c <== a;").unwrap();
    let twice = compile("signal a; signal c; signal f; if f then c <== a; if f then c <== a;").unwrap();
    assert_eq!(once.constraints.len(), 2);
    assert_eq!(twice.constraints.len(), 3);
}

fn tiny_system() -> R1csSystem {
    R1csSystem::new(n(7))
}

#[test]
fn serialize_exact_bytes() {
    let bytes = serialize(&tiny_system());
    let mut expected: Vec<u8> = b"r1cs".to_vec();
    expected.extend_from_slice(&1u32.to_le_bytes());
    expected.extend_from_slice(&4u32.to_le_bytes());
    expected.extend_from_slice(&0u32.to_le_bytes());
    expected.extend_from_slice(&64u64.to_le_bytes());
    expected.extend_from_slice(&32u32.to_le_bytes());
    expected.extend_from_slice(&[0u8; 31]);
    expected.push(7);
    expected.extend_from_slice(&1u32.to_le_bytes());
    expected.extend_from_slice(&0u32.to_le_bytes());
    expected.extend_from_slice(&0u32.to_le_bytes());
    expected.extend_from_slice(&0u32.to_le_bytes());
    expected.extend_from_slice(&1u64.to_le_bytes());
    expected.extend_from_slice(&0u32.to_le_bytes());
    expected.extend_from_slice(&1u32.to_le_bytes());
    expected.extend_from_slice(&0u64.to_le_bytes());
    expected.extend_from_slice(&2u32.to_le_bytes());
    expected.extend_from_slice(&4u64.to_le_bytes());
    expected.extend_from_slice(&0u32.to_le_bytes());
    expected.extend_from_slice(&3u32.to_le_bytes());
    expected.extend_from_slice(&8u64.to_le_bytes());
    expected.extend_from_slice(&4u32.to_le_bytes());
    expected.extend_from_slice(b"~one");
    assert_eq!(bytes, expected);
}

#[test]
fn serialize_constraint_terms_in_index_order() {
    let mut system = R1csSystem::new(n(7));
    let v = system.allocate_variable("x");
    let a = LinearCombination::from_var(v).add(&LinearCombination::from_constant(n(3)), &n(7));
    system.add_constraint(a, LinearCombination::new(), LinearCombination::new());
    let bytes = serialize(&system);
    let start = 12 + 12 + 64 + 12;
    assert_eq!(&bytes[start..start + 4], &2u32.to_le_bytes());
    assert_eq!(&bytes[start + 4..start + 8], &0u32.to_le_bytes());
    assert_eq!(bytes[start + 8 + 31], 3);
    assert_eq!(&bytes[start + 40..start + 44], &1u32.to_le_bytes());
    assert_eq!(bytes[start + 44 + 31], 1);
    assert!(can_serialize(&system));
}

#[test]
fn inspect_written_file_exact_report() {
    let bytes = serialize(&tiny_system());
    assert!(is_inspectable(&bytes));
    let report = deserialize_and_inspect(&bytes).unwrap();
    assert_eq!(
        report,
        "Magic: r1cs\nVersion: 1\nNumber of sections: 4\n\n=== Header Section ===\nField size: 32 bytes\nPrime: 7\nTotal wires: 1\nPublic outputs: 0\nPublic inputs: 0\nPrivate inputs: 0\nConstraints: 0\n\n=== Constraints Section ===\nSection size: 0 bytes\n\n=== Wire Map Section ===\nSection size: 4 bytes\n\n=== Label Map Section ===\n  v0 = ~one\n\n"
    );
}

#[test]
fn inspect_errors_and_unknown_sections() {
    assert_eq!(serialize_error(deserialize_and_inspect(&[0u8; 15])), "file too short");
    assert_eq!(serialize_error(deserialize_and_inspect(&[0u8; 16])), "invalid magic bytes");
    let mut data: Vec<u8> = b"r1cs".to_vec();
    data.extend_from_slice(&1u32.to_le_bytes());
    data.extend_from_slice(&1u32.to_le_bytes());
    data.extend_from_slice(&9u32.to_le_bytes());
    data.extend_from_slice(&5u64.to_le_bytes());
    assert!(is_inspectable(&data));
    let report = deserialize_and_inspect(&data).unwrap();
    assert!(report.ends_with("=== Unknown Section 9 ===\nSection size: 5 bytes\n\n"));
}

#[test]
fn inspect_invalid_utf8_label() {
    let mut data: Vec<u8> = b"r1cs".to_vec();
    data.extend_from_slice(&1u32.to_le_bytes());
    data.extend_from_slice(&1u32.to_le_bytes());
    data.extend_from_slice(&3u32.to_le_bytes());
    data.extend_from_slice(&6u64.to_le_bytes());
    data.extend_from_slice(&2u32.to_le_bytes());
    data.extend_from_slice(&[0x61u8, 0xffu8]);
    let report = deserialize_and_inspect(&data).unwrap();
    assert!(report.ends_with("=== Label Map Section ===\n  v0 = a\u{fffd}\n\n"));
}

#[test]
fn malformed_file_is_not_inspectable() {
    let mut data: Vec<u8> = b"r1cs".to_vec();
    data.extend_from_slice(&1u32.to_le_bytes());
    data.extend_from_slice(&1u32.to_le_bytes());
    data.extend_from_slice(&0u32.to_le_bytes());
    data.extend_from_slice(&100u64.to_le_bytes());
    assert!(!is_inspectable(&data));
    assert!(!is_setup_readable(&data));
}

#[test]
fn setup_counts_from_written_file() {
    let system = compile("signal input a;\nsignal input b;\nsignal output c;\nc <== a * b;").unwrap();
    let bytes = serialize(&system);
    assert!(is_setup_readable(&bytes));
    assert_eq!(read_setup_counts(&bytes).unwrap(), (1, 4));
}

#[test]
fn setup_counts_errors() {
    match read_setup_counts(b"r1cs") {
        Err(CompileError::SerializeError { message }) => assert_eq!(message, "invalid .r1cs file"),
        _ => panic!("expected an error"),
    }
    let mut data: Vec<u8> = b"r1cs".to_vec();
    data.extend_from_slice(&1u32.to_le_bytes());
    data.extend_from_slice(&4u32.to_le_bytes());
    data.extend_from_slice(&2u32.to_le_bytes());
    data.extend_from_slice(&0u64.to_le_bytes());
    match read_setup_counts(&data) {
        Err(CompileError::SerializeError { message }) => {
            assert_eq!(message, "no header section found in .r1cs file")
        }
        _ => panic!("expected an error"),
    }
}

#[test]
fn g1_point_formula() {
    let p = bn128_prime();
    let point = G1Point::simulated_scalar_mul(&n(5), "alpha_g1");
    let h = hash(b"alpha_g15", 31);
    assert_eq!(point.x, n(h).add(&n(5)).rem(&p));
    assert_eq!(point.y, n(h.wrapping_add(7919)).add(&n(5)).rem(&p));
    assert!(!point.infinity);
    let reduced = G1Point::simulated_scalar_mul(&p.add(&n(5)), "alpha_g1");
    assert_eq!(reduced.x, point.x);
    let zero = G1Point::simulated_scalar_mul(&p, "z");
    assert!(zero.infinity);
    let g = G1Point::generator();
    assert_eq!((g.x, g.y, g.infinity), (n(1), n(2), false));
}

#[test]
fn g2_point_formula() {
    let p = bn128_prime();
    let point = G2Point::simulated_scalar_mul(&n(9), "beta_g2");
    let h = hash(b"beta_g29", 37);
    assert_eq!(point.x_c0, n(h).add(&n(9)).rem(&p));
    assert_eq!(point.x_c1, n(h.wrapping_add(104729)).add(&n(9)).rem(&p));
    assert_eq!(point.y_c0, n(h.wrapping_add(15485863)).add(&n(9)).rem(&p));
    assert_eq!(point.y_c1, n(h.wrapping_add(32452843)).add(&n(9)).rem(&p));
}

#[test]
fn crs_from_fixed_waste() {
    let waste = ToxicWaste::from_draws(&n(1), &n(2), &n(3), &n(4), &n(5));
    assert_eq!(waste.tau, n(3));
    let crs = CRS::from_toxic_waste(&waste, 2, 1);
    let p = bn128_prime();
    assert_eq!(crs.proving_key.a_query.len(), 2);
    assert_eq!(crs.proving_key.h_query.len(), 2);
    let a1 = G1Point::simulated_scalar_mul(&n(4 * 3), "a_q_1");
    assert_eq!(crs.proving_key.a_query[1].x, a1.x);
    assert!(crs.proving_key.h_query[1].infinity);
    let delta_inv = n(7).modinv(&p).unwrap();
    let h0 = G1Point::simulated_scalar_mul(&n(9).mul(&delta_inv).rem(&p), "h_q_0");
    assert_eq!(crs.proving_key.h_query[0].x, h0.x);
    assert_eq!(crs.verification_key.alpha_g1.x, crs.proving_key.alpha_g1.x);
}

#[test]
fn crs_contribution_and_bytes() {
    let waste = ToxicWaste::from_draws(&n(1), &n(2), &n(3), &n(4), &n(5));
    let mut crs = CRS::from_toxic_waste(&waste, 1, 1);
    let next = ToxicWaste::from_draws(&n(10), &n(11), &n(12), &n(13), &n(14));
    crs.contribute(&next);
    assert_eq!(crs.participant_count, 2);
    assert_eq!(crs.proving_key.a_query[1].x, G1Point::simulated_scalar_mul(&n(12), "mpc_a_1").x);
    let pk = crs.serialize_to_bytes();
    assert_eq!(&pk[8..16], &1u64.to_le_bytes());
    assert_eq!(&pk[24..32], &2u64.to_le_bytes());
    let x = crs.proving_key.alpha_g1.x.to_bytes_be();
    assert_eq!(&pk[32..32 + x.len()], x.as_slice());
    let vk = crs.serialize_vk_to_bytes();
    let vx = crs.verification_key.alpha_g1.x.to_bytes_be();
    assert_eq!(&vk[32..32 + vx.len()], vx.as_slice());
}

#[test]
fn secure_containers() {
    assert!(SecureVec::with_capacity(0).is_err());
    let mut v = SecureVec::with_capacity(4).unwrap();
    assert!(v.is_empty());
    v.extend_from_slice(&[1, 2, 3]).unwrap();
    match v.extend_from_slice(&[4, 5]) {
        Err(message) => assert_eq!(message, "SecureVec: would exceed capacity"),
        Ok(()) => panic!("expected an error"),
    }
    assert_eq!(v.as_slice(), &[1, 2, 3]);
    assert!(!v.locked());
    assert!(SecureVec::from_bytes(&[]).is_err());
    match SecureBox::new(()) {
        Err(message) => assert_eq!(message, "SecureBox: zero-sized type"),
        Ok(_) => panic!("expected an error"),
    }
    let mut b = SecureBox::new([5u8; 4]).unwrap();
    b.set_locked(true);
    assert!(b.locked());
    b.destroy();
    assert!(!b.locked());
}

#[test]
fn toxic_waste_secure_random_in_range() {
    let prime = bn128_prime();
    let boxed = ToxicWaste::secure_random(&prime).unwrap();
    assert!(boxed.get().delta < prime);
    assert!(boxed.get().alpha > n(1));
}

#[test]
fn ceremony_counts_participants() {
    let config = SetupConfig {
        num_constraints: 1,
        num_variables: 4,
        mpc_participants: 2,
        output_pk: std::path::PathBuf::from("unused.pk"),
        output_vk: std::path::PathBuf::from("unused.vk"),
    };
    let mut ceremony = run_ceremony(&config).unwrap();
    assert_eq!(ceremony.crs.participant_count, 3);
    assert_eq!(ceremony.mpc_wastes.len(), 2);
    assert_eq!(ceremony.crs.proving_key.a_query.len(), 5);
    ceremony.destroy_waste();
}

fn kinds(source: &str) -> Vec<u8> {
    let mut lexer = Lexer::new(source);
    lexer.tokenize().unwrap().iter().map(|t| t.kind.tag()).collect()
}

#[test]
fn whitespace_run_keeps_token_kinds() {
    assert_eq!(kinds("a <== b * 3;"), kinds("a <==\n\t  b * 3;"));
    assert_eq!(kinds("signal input x;"), kinds("signal\r\ninput x;   "));
    let mut lexer = Lexer::new("x\n\n<== y;");
    let tokens = lexer.tokenize().unwrap();
    assert_eq!((tokens[1].line, tokens[1].col), (3, 1));
}

fn lc_value(lc: &LinearCombination, w: &[Natural], p: &Natural) -> Natural {
    let mut acc = n(0);
    for (idx, coeff) in lc.terms.iter() {
        acc = acc.add(&coeff.mul(&w[*idx])).rem(p);
    }
    acc
}

fn satisfied(system: &R1csSystem, w: &[Natural]) -> bool {
    let p = &system.prime;
    system.constraints.iter().all(|c| {
        lc_value(&c.a, w, p).mul(&lc_value(&c.b, w, p)).rem(p) == lc_value(&c.c, w, p)
    })
}

#[test]
fn flattened_system_is_well_formed() {
    let system = compile("signal input a; signal output c; signal f; if f then c <== a * a - 2; else c === 5;").unwrap();
    assert_eq!(system.variable_names[0], "~one");
    assert_eq!(system.variable_names.len(), system.num_variables);
    assert!(system.num_public_inputs + system.num_public_outputs + system.num_private_inputs < system.num_variables);
    for c in &system.constraints {
        for lc in [&c.a, &c.b, &c.c] {
            for (idx, coeff) in lc.terms.iter() {
                assert!(*idx < system.num_variables);
                assert!(!coeff.is_zero() && *coeff < system.prime);
            }
        }
    }
}

#[test]
fn satisfying_assignment_makes_equations_hold() {
    let system = compile("signal input a; signal input b; signal output c; c <== a * b + 1;").unwrap();
    // variables: ~one, a, b, c, $tmp1
    let good = vec![n(1), n(3), n(5), n(16), n(15)];
    assert!(satisfied(&system, &good));
    let bad = vec![n(1), n(3), n(5), n(17), n(15)];
    assert!(!satisfied(&system, &bad));
    let flag = compile("signal f; assert_bool(f);").unwrap();
    assert!(satisfied(&flag, &[n(1), n(0)]));
    assert!(satisfied(&flag, &[n(1), n(1)]));
    assert!(!satisfied(&flag, &[n(1), n(2)]));
}

#[test]
fn wipe_zeroes_in_place() {
    let mut x = Natural::parse_decimal("123456789012345678901234567890");
    x.wipe();
    assert!(x.is_zero());
    let mut waste = ToxicWaste::from_draws(&n(1), &n(2), &n(3), &n(4), &n(5));
    waste.zero_out();
    assert!(waste.tau.is_zero() && waste.delta.is_zero());
    let mut boxed = SecureBox::new([7u8; 8]).unwrap();
    assert!(boxed.holds_value());
    boxed.destroy();
    assert!(!boxed.holds_value());
}

#[test]
fn parser_can_parse_only_terminated_tokens() {
    let mut lexer = Lexer::new("signal a;");
    let tokens = lexer.tokenize().unwrap();
    assert!(Parser::new(tokens).can_parse());
    assert!(!Parser::new(Vec::new()).can_parse());
}

#[test]
fn ceremony_step_by_step() {
    let config = SetupConfig {
        num_constraints: 2,
        num_variables: 3,
        mpc_participants: 1,
        output_pk: std::path::PathBuf::from("unused.pk"),
        output_vk: std::path::PathBuf::from("unused.vk"),
    };
    let mut ceremony = Ceremony::start(&config).unwrap();
    assert_eq!(ceremony.crs.participant_count, 1);
    assert!(ceremony.mpc_wastes.is_empty());
    ceremony.contribute_round().unwrap();
    assert_eq!(ceremony.crs.participant_count, 2);
    assert_eq!(ceremony.mpc_wastes.len(), 1);
    ceremony.destroy_waste();
    assert!(!ceremony.initial_waste.holds_value());
}
