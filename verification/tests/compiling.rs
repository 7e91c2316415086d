//! Code generation: golden outputs, table invariants, error paths.

use bada::atoms::Atoms;
use bada::compiler::{
    compile, compile_beam_module, encode_atom_chunk, encode_code_chunk, encode_exports_chunk,
    encode_imports_chunk, encode_string_chunk, resolve_function_signature, ExportEntry, Imports,
};
use bada::diag::CompileError;
use bada::lex::Lexer;
use bada::parser::Module;

fn parse_src(src: &str) -> Module {
    let mut lexer = Lexer::new(src.chars().collect(), "main.boom".to_string());
    Module::parse(&mut lexer).unwrap()
}

fn compile_src(src: &str) -> Vec<u8> {
    compile_beam_module(&parse_src(src)).unwrap()
}

/// Splits the inner container into its (tag, payload) chunks.
fn chunks_of(beam: &[u8]) -> Vec<(String, Vec<u8>)> {
    assert_eq!(&beam[0..4], b"BEAM");
    let mut out = Vec::new();
    let mut at = 4;
    while at < beam.len() {
        let tag = String::from_utf8(beam[at..at + 4].to_vec()).unwrap();
        let len = u32::from_be_bytes(beam[at + 4..at + 8].try_into().unwrap()) as usize;
        out.push((tag, beam[at + 8..at + 8 + len].to_vec()));
        at += 8 + (len + 3) / 4 * 4;
    }
    out
}

fn be32(bytes: &[u8], at: usize) -> u32 {
    u32::from_be_bytes(bytes[at..at + 4].try_into().unwrap())
}

#[test]
fn single_constant_golden_bytes() {
    // main() = 42;  — the full inner container, byte for byte.
    let beam = compile_src("main() = 42;");
    let mut expected: Vec<u8> = Vec::new();
    expected.extend_from_slice(b"BEAM");
    // ImpT: two fixed imports, erlang:+/2 then erlang:-/2.
    expected.extend_from_slice(b"ImpT");
    for field in [28u32, 2, 2, 3, 2, 2, 4, 2] {
        expected.extend_from_slice(&field.to_be_bytes());
    }
    // Code: header fields, then the instruction stream, padded.
    expected.extend_from_slice(b"Code");
    for field in [34u32, 16, 0, 169, 3, 1] {
        expected.extend_from_slice(&field.to_be_bytes());
    }
    expected.extend_from_slice(&[
        0x01, 0x10, // Label 1
        0x02, 0x12, 0x52, 0x00, // FuncInfo bada main 0
        0x01, 0x20, // Label 2
        0x40, 0x09, 0x2A, 0x03, // Move I(42) -> X0
        0x13, // Return
        0x03, // IntCodeEnd
        0x00, 0x00, // padding
    ]);
    // ExpT: one export, main/0 at label 2.
    expected.extend_from_slice(b"ExpT");
    for field in [16u32, 1, 5, 0, 2] {
        expected.extend_from_slice(&field.to_be_bytes());
    }
    // StrT: always empty.
    expected.extend_from_slice(b"StrT");
    expected.extend_from_slice(&0u32.to_be_bytes());
    // AtU8: bada, erlang, +, -, main.
    expected.extend_from_slice(b"AtU8");
    expected.extend_from_slice(&25u32.to_be_bytes());
    expected.extend_from_slice(&5u32.to_be_bytes());
    expected.extend_from_slice(&[4]);
    expected.extend_from_slice(b"bada");
    expected.extend_from_slice(&[6]);
    expected.extend_from_slice(b"erlang");
    expected.extend_from_slice(&[1]);
    expected.extend_from_slice(b"+");
    expected.extend_from_slice(&[1]);
    expected.extend_from_slice(b"-");
    expected.extend_from_slice(&[4]);
    expected.extend_from_slice(b"main");
    expected.extend_from_slice(&[0x00, 0x00, 0x00]); // padding
    assert_eq!(beam, expected);
}

#[test]
fn outer_envelope_wraps_inner_payload() {
    let m = parse_src("main() = 42;");
    let beam = compile_beam_module(&m).unwrap();
    let full = compile(&m).unwrap();
    assert_eq!(&full[0..4], b"FOR1");
    assert_eq!(be32(&full, 4) as usize, beam.len());
    assert_eq!(&full[8..], beam.as_slice());
}

#[test]
fn addition_of_literals_code_stream() {
    // main() = 2 + 3;  — GcBif2 on import index 0.
    let beam = compile_src("main() = 2 + 3;");
    let chunks = chunks_of(&beam);
    let code = &chunks[1];
    assert_eq!(code.0, "Code");
    assert_eq!(
        &code.1[20..],
        &[
            0x01, 0x10, // Label 1
            0x02, 0x12, 0x52, 0x00, // FuncInfo bada main 0
            0x01, 0x20, // Label 2
            0x40, 0x21, 0x03, // Move I(2) -> X0
            0x40, 0x31, 0x13, // Move I(3) -> X1
            0x7D, 0x05, 0x20, 0x00, 0x03, 0x13, 0x03, // GcBif2 F(0) U(2) U(0) X0 X1 X0
            0x13, // Return
            0x03, // IntCodeEnd
        ]
    );
}

#[test]
fn subtraction_uses_import_index_one() {
    // main() = 7 - 4;  — same shape, GcBif2 on import index 1.
    let beam = compile_src("main() = 7 - 4;");
    let chunks = chunks_of(&beam);
    let code = &chunks[1];
    assert_eq!(
        &code.1[20..],
        &[
            0x01, 0x10,
            0x02, 0x12, 0x52, 0x00,
            0x01, 0x20,
            0x40, 0x71, 0x03, // Move I(7) -> X0
            0x40, 0x41, 0x13, // Move I(4) -> X1
            0x7D, 0x05, 0x20, 0x10, 0x03, 0x13, 0x03, // GcBif2 F(0) U(2) U(1) X0 X1 X0
            0x13,
            0x03,
        ]
    );
}

#[test]
fn parameter_reference_moves_through_scratch_register() {
    // f(x int) = x;  — body writes X1, the epilogue moves X1 into X0.
    let beam = compile_src("f(x int) = x;");
    let chunks = chunks_of(&beam);
    let code = &chunks[1];
    assert_eq!(
        &code.1[20..],
        &[
            0x01, 0x10,
            0x02, 0x12, 0x52, 0x10, // FuncInfo bada f 1
            0x01, 0x20,
            0x40, 0x03, 0x13, // Move X0 -> X1
            0x40, 0x13, 0x03, // Move X1 -> X0 (epilogue)
            0x13,
            0x03,
        ]
    );
}

#[test]
fn parameters_plus_arithmetic() {
    // f(a int b int) = a + b;
    let beam = compile_src("f(a int b int) = a + b;");
    let chunks = chunks_of(&beam);
    let code = &chunks[1];
    assert_eq!(
        &code.1[20..],
        &[
            0x01, 0x10,
            0x02, 0x12, 0x52, 0x20, // FuncInfo bada f 2
            0x01, 0x20,
            0x40, 0x03, 0x23, // Move X0 -> X2
            0x40, 0x13, 0x33, // Move X1 -> X3
            0x7D, 0x05, 0x20, 0x00, 0x23, 0x33, 0x23, // GcBif2 F(0) U(2) U(0) X2 X3 X2
            0x40, 0x23, 0x03, // Move X2 -> X0 (epilogue)
            0x13,
            0x03,
        ]
    );
}

#[test]
fn unknown_variable_fails_without_output() {
    let m = parse_src("f(x int) = y;");
    match compile_beam_module(&m) {
        Err(CompileError::UnknownVariable { name, loc }) => {
            assert_eq!(name, "y");
            assert_eq!((loc.row, loc.col), (1, 12));
        }
        _ => panic!("expected an unknown-variable error"),
    }
}

#[test]
fn out_of_range_literal_fails() {
    let m = parse_src("f() = 2048;");
    match compile_beam_module(&m) {
        Err(CompileError::EncodingUnsupported(v)) => assert_eq!(v, 2048),
        _ => panic!("expected an encoding error"),
    }
}

#[test]
fn atom_interning_is_a_bijection() {
    let mut atoms = Atoms::default();
    assert_eq!(atoms.get_id("bada"), 1);
    assert_eq!(atoms.get_id("erlang"), 2);
    assert_eq!(atoms.get_id("bada"), 1);
    assert_eq!(atoms.get_id("main"), 3);
    assert_eq!(atoms.get_id("erlang"), 2);
    assert_eq!(atoms.get_id("main"), 3);
    assert_eq!(atoms.len(), 3);
}

#[test]
fn atom_chunk_lists_names_in_insertion_order() {
    let mut atoms = Atoms::default();
    atoms.get_id("zz");
    atoms.get_id("a");
    let bytes = encode_atom_chunk(&atoms).unwrap();
    assert_eq!(&bytes[0..4], b"AtU8");
    assert_eq!(be32(&bytes, 8), 2);
    assert_eq!(&bytes[12..15], &[2, b'z', b'z']);
    assert_eq!(&bytes[15..17], &[1, b'a']);
}

#[test]
fn atom_chunk_rejects_overlong_name() {
    let mut atoms = Atoms::default();
    let long = "x".repeat(300);
    atoms.get_id(&long);
    match encode_atom_chunk(&atoms) {
        Err(CompileError::EncodingUnsupported(v)) => assert_eq!(v, 300),
        _ => panic!("expected an encoding error"),
    }
}

#[test]
fn import_table_records_fixed_entries() {
    let mut atoms = Atoms::default();
    atoms.get_id("bada");
    let mut imports = Imports::default();
    let bytes = encode_imports_chunk(&mut atoms, &mut imports);
    assert_eq!(&bytes[0..4], b"ImpT");
    assert_eq!(be32(&bytes, 8), 2);
    let plus = resolve_function_signature(&mut atoms, "erlang", "+", 2);
    let minus = resolve_function_signature(&mut atoms, "erlang", "-", 2);
    assert_eq!(plus, (2, 3, 2));
    assert_eq!(minus, (2, 4, 2));
    assert_eq!(imports.find(plus), Some(0));
    assert_eq!(imports.find(minus), Some(1));
    assert_eq!(imports.find((9, 9, 9)), None);
}

#[test]
fn string_chunk_is_empty() {
    assert_eq!(encode_string_chunk(), b"StrT\x00\x00\x00\x00".to_vec());
}

#[test]
fn labels_are_two_per_function_and_counted_one_past() {
    // Three functions: labels 1..=6, recorded label count 7.
    let beam = compile_src("a() = 1; b() = 2; c() = 3;");
    let chunks = chunks_of(&beam);
    let code = &chunks[1];
    assert_eq!(be32(&code.1, 12), 7); // label count == 2 * 3 + 1
    assert_eq!(be32(&code.1, 16), 3); // function count
    let exports = &chunks[2];
    assert_eq!(exports.0, "ExpT");
    assert_eq!(be32(&exports.1, 0), 3);
    let labels: Vec<u32> = (0..3).map(|i| be32(&exports.1, 4 + 12 * i + 8)).collect();
    assert_eq!(labels, vec![2, 4, 6]);
}

#[test]
fn code_stream_ends_with_one_sentinel() {
    for src in ["", "main() = 42;", "a() = 1; b(x int) = x + 2;"] {
        let beam = compile_src(src);
        let chunks = chunks_of(&beam);
        let code = &chunks[1];
        let stream = &code.1[20..];
        assert_eq!(stream.last(), Some(&0x03));
        if !src.is_empty() {
            // The byte before the sentinel closes the last function.
            assert_eq!(stream[stream.len() - 2], 0x13);
        } else {
            assert_eq!(stream.len(), 1);
        }
    }
}

#[test]
fn exports_resolve_to_source_names() {
    let beam = compile_src("first() = 1; second(x int) = x;");
    let chunks = chunks_of(&beam);
    let exports = &chunks[2].1;
    let atom_payload = &chunks[4].1;
    assert_eq!(chunks[4].0, "AtU8");
    // Walk the atom chunk into a table of names.
    let mut names = Vec::new();
    let mut at = 4;
    for _ in 0..be32(atom_payload, 0) {
        let len = atom_payload[at] as usize;
        names.push(String::from_utf8(atom_payload[at + 1..at + 1 + len].to_vec()).unwrap());
        at += 1 + len;
    }
    // Each export entry's name id resolves to the source name; its label is
    // the entry label of the function's code.
    let n = be32(exports, 0) as usize;
    assert_eq!(n, 2);
    let mut seen = Vec::new();
    for i in 0..n {
        let name_id = be32(exports, 4 + 12 * i) as usize;
        let arity = be32(exports, 4 + 12 * i + 4);
        let label = be32(exports, 4 + 12 * i + 8);
        seen.push((names[name_id - 1].clone(), arity, label));
    }
    assert_eq!(
        seen,
        vec![("first".to_string(), 0, 2), ("second".to_string(), 1, 4)]
    );
}

#[test]
fn export_chunk_serializes_entries() {
    let labels = vec![
        ExportEntry { name_id: 5, arity: 0, label: 2 },
        ExportEntry { name_id: 6, arity: 2, label: 4 },
    ];
    let bytes = encode_exports_chunk(&labels).unwrap();
    assert_eq!(&bytes[0..4], b"ExpT");
    assert_eq!(be32(&bytes, 4), 28);
    assert_eq!(be32(&bytes, 8), 2);
    assert_eq!(be32(&bytes, 12), 5);
    assert_eq!(be32(&bytes, 16), 0);
    assert_eq!(be32(&bytes, 20), 2);
    assert_eq!(be32(&bytes, 24), 6);
    assert_eq!(be32(&bytes, 28), 2);
    assert_eq!(be32(&bytes, 32), 4);
}

#[test]
fn result_lands_in_return_register() {
    // For every compiled function the last value-producing operand before
    // Return is X0 (encoded 0x03), whatever the arity.
    for src in ["f() = 1;", "f(x int) = x;", "f(a int b int) = a - b;"] {
        let beam = compile_src(src);
        let chunks = chunks_of(&beam);
        let stream = &chunks[1].1[20..];
        // stream ends: ... 0x03 (X0) 0x13 (Return) 0x03 (IntCodeEnd)
        let n = stream.len();
        assert_eq!(stream[n - 1], 0x03);
        assert_eq!(stream[n - 2], 0x13);
        assert_eq!(stream[n - 3], 0x03);
    }
}

#[test]
fn code_chunk_of_empty_module() {
    let m = parse_src("");
    let mut atoms = Atoms::default();
    atoms.get_id("bada");
    let mut imports = Imports::default();
    let _ = encode_imports_chunk(&mut atoms, &mut imports);
    let mut labels: Vec<ExportEntry> = Vec::new();
    let bytes = encode_code_chunk(&m, &imports, &mut atoms, &mut labels).unwrap();
    assert_eq!(&bytes[0..4], b"Code");
    assert_eq!(be32(&bytes, 4), 21); // 20 header bytes + the sentinel
    assert_eq!(be32(&bytes, 8), 16);
    assert_eq!(be32(&bytes, 12), 0);
    assert_eq!(be32(&bytes, 16), 169);
    assert_eq!(be32(&bytes, 20), 1); // label count 2 * 0 + 1
    assert_eq!(be32(&bytes, 24), 0); // function count
    assert_eq!(bytes[28], 0x03);
    assert!(labels.is_empty());
}
