//! A compiler from a small arithmetic-circuit language to rank-1 constraint
//! systems, with a simulated Groth16 parameter ceremony.

pub mod natural;
pub mod ast;
pub mod error;
pub mod r1cs;
pub mod flattener;
pub mod lexer;
pub mod parser;
pub mod serializer;
pub mod secure_memory;
pub mod groth16;
pub mod setup;
pub mod roundtrip;
pub mod witness;
pub mod wellformed;
pub mod soundness;
pub mod whitespace;
pub mod readback;
