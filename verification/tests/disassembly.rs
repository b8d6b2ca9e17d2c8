use rlox::chunk::Chunk;
use rlox::compiler::Compiler;
use rlox::debug::disassemble_chunk;
use rlox::opcode::OpCode;
use rlox::scanner::number_literals;
use rlox::value::Value;

fn compile_source(source: &str) -> Chunk {
    let literals = number_literals(source);
    let values: Vec<Value> = literals
        .iter()
        .map(|s| Value::new(s.parse::<f64>().unwrap().to_bits()))
        .collect();
    let mut compiler = Compiler::new(source, values);
    compiler.compile().expect("compilation failed")
}

#[test]
fn disassembly_text() {
    let chunk = compile_source("1.2");
    let lines = disassemble_chunk(&chunk, "code");
    assert_eq!(lines.len(), 3);
    assert_eq!(lines[0].text, "== code ==");
    assert_eq!(lines[0].constant, None);
    assert_eq!(lines[1].text, "0000    1 OP_CONSTANT         0");
    assert_eq!(lines[1].constant, Some(0));
    // The second instruction repeats the source line: the line column
    // shows a pipe.
    assert_eq!(lines[2].text, "0002    | OP_RETURN");
    assert_eq!(lines[2].constant, None);
}

#[test]
fn disassembly_boundaries_round_trip() {
    // The disassembler re-derives exactly the instruction boundaries the
    // compiler emitted: one line per instruction, operands consumed with
    // their opcode.
    let chunk = compile_source("2 + 3 * 4");
    let lines = disassemble_chunk(&chunk, "code");
    assert_eq!(lines.len(), 1 + 6);
    let mnemonics: Vec<&str> = lines[1..]
        .iter()
        .map(|l| l.text[10..].trim_end())
        .collect();
    let expected: Vec<String> = vec![
        "OP_CONSTANT         0".to_string(),
        "OP_CONSTANT         1".to_string(),
        "OP_CONSTANT         2".to_string(),
        "OP_MULTIPLY".to_string(),
        "OP_ADD".to_string(),
        "OP_RETURN".to_string(),
    ];
    let got: Vec<String> = mnemonics.iter().map(|s| s.to_string()).collect();
    assert_eq!(got, expected);
}

#[test]
fn disassembly_idempotent() {
    let chunk = compile_source("(1 + 2) * -3");
    let first = disassemble_chunk(&chunk, "code");
    let second = disassemble_chunk(&chunk, "code");
    assert_eq!(first.len(), second.len());
    for (a, b) in first.iter().zip(second.iter()) {
        assert_eq!(a.text, b.text);
        assert_eq!(a.constant, b.constant);
    }
}

#[test]
fn disassembly_unknown_opcode() {
    let mut chunk = Chunk::new();
    chunk.write(OpCode::Return.to_byte(), 1);
    chunk.write(42, 1);
    let lines = disassemble_chunk(&chunk, "bad");
    assert_eq!(lines.len(), 3);
    assert_eq!(lines[1].text, "0000    1 OP_RETURN");
    assert_eq!(lines[2].text, "0001    | Unknown opcode: 42");
}

#[test]
fn disassembly_method_matches_free_function() {
    let chunk = compile_source("4 / 2");
    let a = chunk.disassemble("code");
    let b = disassemble_chunk(&chunk, "code");
    assert_eq!(a.len(), b.len());
    for (x, y) in a.iter().zip(b.iter()) {
        assert_eq!(x.text, y.text);
    }
}
