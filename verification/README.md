# zkp_circuit_compiler

A compiler for small arithmetic-circuit programs, verified with Verus. It
reads programs such as

    signal input a;
    signal input b;
    signal output c;
    c <== a * b;

into rank-1 constraints `a * b = c` over the BN128 scalar field, writes them
in the binary `.r1cs` format, reports on such files, and runs a simulated
Groth16 trusted-setup ceremony.

## Layout

- `src/` — the verified library.
  - `natural.rs`: arbitrary-precision naturals (arithmetic by `num-bigint`).
  - `lexer.rs`, `parser.rs`, `ast.rs`: source text to syntax tree.
  - `r1cs.rs`: linear combinations and constraint systems.
  - `flattener.rs`: syntax tree to constraints, with the laws on the boolean
    constraints of conditionals.
  - `witness.rs`: what combinations and constraints mean under an
    assignment; the boolean constraint admits exactly 0 and 1.
  - `wellformed.rs`, `soundness.rs`: every flattened system is well formed,
    and any assignment satisfying a statement's constraints makes its
    equation hold.
  - `whitespace.rs`: replacing a run of whitespace keeps the tokens.
  - `serializer.rs`, `roundtrip.rs`: the `.r1cs` format, its report, and
    what reading back a written file gives.
  - `groth16.rs`, `secure_memory.rs`, `setup.rs`: toxic waste, the common
    reference string, the ceremony, and containers for secrets.
- `app/` — the command-line program: argument handling, files, progress
  output, and pinning memory through the operating system.
- `tests/` — tests of the library.
