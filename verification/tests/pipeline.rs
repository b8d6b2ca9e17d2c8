use rlox::chunk::Chunk;
use rlox::compiler::{CompileError, Compiler};
use rlox::opcode::OpCode;
use rlox::scanner::{number_literals, ScanError};
use rlox::value::Value;
use rlox::vm::{Step, VM};

/// Compile a source, supplying one value per number literal in scan
/// order, as the driver does.
fn compile_source(source: &str) -> Result<Chunk, CompileError> {
    let literals = number_literals(source);
    let values: Vec<Value> = literals
        .iter()
        .map(|s| Value::new(s.parse::<f64>().unwrap().to_bits()))
        .collect();
    let mut compiler = Compiler::new(source, values);
    compiler.compile()
}

/// Drive the virtual machine to completion, performing the numeric work.
fn run_chunk(chunk: &Chunk) -> f64 {
    let mut vm = VM::new();
    loop {
        match vm.step(chunk) {
            Step::Continue => {}
            Step::Binary(op, a, b) => {
                let x = f64::from_bits(a.bits);
                let y = f64::from_bits(b.bits);
                let r = match op {
                    OpCode::Add => x + y,
                    OpCode::Subtract => x - y,
                    OpCode::Multiply => x * y,
                    OpCode::Divide => x / y,
                    _ => panic!("not a binary operator"),
                };
                assert!(vm.push_result(Value::new(r.to_bits())));
            }
            Step::Negate(a) => {
                let r = -f64::from_bits(a.bits);
                assert!(vm.push_result(Value::new(r.to_bits())));
            }
            Step::Done(v) => return f64::from_bits(v.bits),
            Step::Fault => panic!("vm fault on a compiled chunk"),
        }
    }
}

fn run_source(source: &str) -> f64 {
    run_chunk(&compile_source(source).expect("compilation failed"))
}

/// The result-printing rule: `0` for zero, scientific notation for very
/// large or very small magnitudes, else fixed-point with the trailing
/// zeros and dot trimmed.
fn format_value(value: f64) -> String {
    if value == 0.0 {
        return "0".to_string();
    }
    if value.abs() >= 1e6 || value.abs() < 1e-4 {
        format!("{:.6e}", value)
    } else {
        let s = format!("{:.6}", value);
        s.trim_end_matches('0').trim_end_matches('.').to_string()
    }
}

#[test]
fn arithmetic_matches_ieee() {
    assert_eq!(run_source("1.2 + 3.4"), 1.2f64 + 3.4f64);
    assert_eq!(run_source("1.2 - 3.4"), 1.2f64 - 3.4f64);
    assert_eq!(run_source("1.2 * 3.4"), 1.2f64 * 3.4f64);
    assert_eq!(run_source("1.2 / 3.4"), 1.2f64 / 3.4f64);
    assert_eq!(run_source("-1.2"), -1.2f64);
    assert_eq!(run_source("1 / 0"), f64::INFINITY);
}

#[test]
fn hand_built_chunk_prints_expected() {
    // constants 1.2, 3.4, 5.6 with Add, Divide, Negate, Return must
    // print -0.821429 under the formatting rule.
    let mut chunk = Chunk::new();
    let c0 = chunk.add_constant(Value::new(1.2f64.to_bits())) as u8;
    let c1 = chunk.add_constant(Value::new(3.4f64.to_bits())) as u8;
    let c2 = chunk.add_constant(Value::new(5.6f64.to_bits())) as u8;
    chunk.write(OpCode::Constant.to_byte(), 1);
    chunk.write(c0, 1);
    chunk.write(OpCode::Constant.to_byte(), 1);
    chunk.write(c1, 1);
    chunk.write(OpCode::Add.to_byte(), 1);
    chunk.write(OpCode::Constant.to_byte(), 1);
    chunk.write(c2, 1);
    chunk.write(OpCode::Divide.to_byte(), 1);
    chunk.write(OpCode::Negate.to_byte(), 1);
    chunk.write(OpCode::Return.to_byte(), 1);
    let result = run_chunk(&chunk);
    assert_eq!(format_value(result), "-0.821429");
}

#[test]
fn precedence() {
    assert_eq!(run_source("2 + 3 * 4"), 14.0);
    assert_eq!(run_source("(2 + 3) * 4"), 20.0);
}

#[test]
fn associativity() {
    assert_eq!(run_source("8 - 4 - 2"), 2.0);
}

#[test]
fn grouping_and_unary() {
    assert_eq!(run_source("-(2 + 3)"), -5.0);
    assert_eq!(run_source("--4"), 4.0);
    assert_eq!(run_source("1 + 2 * 3 - 4 / -5"), 1.0 + 2.0 * 3.0 - 4.0 / -5.0);
}

#[test]
fn error_resync_reports_exactly_one_error() {
    // One unexpected character, then a perfectly valid expression: one
    // diagnostic, no chunk.
    let source = "# 1 + 2";
    let literals = number_literals(source);
    let values: Vec<Value> = literals
        .iter()
        .map(|s| Value::new(s.parse::<f64>().unwrap().to_bits()))
        .collect();
    let mut compiler = Compiler::new(source, values);
    let result = compiler.compile();
    assert!(matches!(
        result,
        Err(CompileError::Scan(ScanError::UnexpectedCharacter))
    ));
    assert_eq!(compiler.diagnostics().len(), 1);
}

#[test]
fn unterminated_string_error() {
    let result = compile_source("\"abc");
    assert!(matches!(
        result,
        Err(CompileError::Scan(ScanError::UnterminatedString))
    ));
}

#[test]
fn expect_expression_error() {
    let result = compile_source("+");
    match result {
        Err(CompileError::Parse(msg)) => assert_eq!(msg, "Expect expression"),
        other => panic!("expected a parse error, got {:?}", other),
    }
}

#[test]
fn trailing_tokens_poison_the_compile() {
    let source = "1 2";
    let literals = number_literals(source);
    let values: Vec<Value> = literals
        .iter()
        .map(|s| Value::new(s.parse::<f64>().unwrap().to_bits()))
        .collect();
    let mut compiler = Compiler::new(source, values);
    let result = compiler.compile();
    assert!(matches!(result, Err(CompileError::Unknown)));
    assert_eq!(compiler.diagnostics().len(), 1);
    assert_eq!(compiler.diagnostics()[0].message, "Expect end of expression.");
}

#[test]
fn constant_pool_bound() {
    // More than 256 numeric literals: a "too many constants" report, not
    // a corrupted operand byte.
    let mut source = String::from("1");
    for _ in 0..300 {
        source.push_str(" + 1");
    }
    let literals = number_literals(&source);
    assert_eq!(literals.len(), 301);
    let values: Vec<Value> = literals
        .iter()
        .map(|s| Value::new(s.parse::<f64>().unwrap().to_bits()))
        .collect();
    let mut compiler = Compiler::new(&source, values);
    let result = compiler.compile();
    assert!(matches!(result, Err(CompileError::Unknown)));
    assert_eq!(compiler.diagnostics().len(), 1);
    assert_eq!(
        compiler.diagnostics()[0].message,
        "Too many constants in this chunk."
    );
}

#[test]
fn compiled_bytecode_shape() {
    let chunk = compile_source("2 + 3 * 4").expect("compilation failed");
    let expected: Vec<u8> = vec![
        OpCode::Constant.to_byte(),
        0,
        OpCode::Constant.to_byte(),
        1,
        OpCode::Constant.to_byte(),
        2,
        OpCode::Multiply.to_byte(),
        OpCode::Add.to_byte(),
        OpCode::Return.to_byte(),
    ];
    let bytes: Vec<u8> = chunk.code.iter().map(|(b, _)| *b).collect();
    assert_eq!(bytes, expected);
    let values: Vec<f64> = chunk
        .constants
        .iter()
        .map(|v| f64::from_bits(v.bits))
        .collect();
    assert_eq!(values, vec![2.0, 3.0, 4.0]);
}

#[test]
fn bytecode_line_tags() {
    let chunk = compile_source("1 +\n2").expect("compilation failed");
    let lines: Vec<usize> = chunk.code.iter().map(|(_, l)| *l).collect();
    // constant 1 on line 1; constant 2 on line 2; Add tagged with the
    // line of its right operand's last token; Return with the Eof line.
    assert_eq!(lines, vec![1, 1, 2, 2, 2, 2]);
}

#[test]
fn opcode_byte_roundtrip() {
    let ops = [
        OpCode::Constant,
        OpCode::Add,
        OpCode::Subtract,
        OpCode::Multiply,
        OpCode::Divide,
        OpCode::Negate,
        OpCode::Return,
    ];
    for op in ops {
        assert_eq!(OpCode::try_from(op.to_byte()), Ok(op));
    }
    assert_eq!(OpCode::try_from(7), Err(()));
    assert_eq!(OpCode::try_from(255), Err(()));
}

#[test]
fn vm_faults_on_unknown_opcode() {
    let mut chunk = Chunk::new();
    chunk.write(99, 1);
    let mut vm = VM::new();
    assert_eq!(vm.step(&chunk), Step::Fault);
}

#[test]
fn vm_faults_on_underflow() {
    let mut chunk = Chunk::new();
    chunk.write(OpCode::Add.to_byte(), 1);
    let mut vm = VM::new();
    assert_eq!(vm.step(&chunk), Step::Fault);
}

#[test]
fn vm_overflow_on_full_stack() {
    // The compiler can never exceed the stack (at most one push per pool
    // slot, and the pool holds at most 256), but a hand-built chunk can:
    // the push past the fixed capacity faults.
    let mut chunk = Chunk::new();
    let c0 = chunk.add_constant(Value::new(1.0f64.to_bits())) as u8;
    for _ in 0..300 {
        chunk.write(OpCode::Constant.to_byte(), 1);
        chunk.write(c0, 1);
    }
    chunk.write(OpCode::Return.to_byte(), 1);
    let mut vm = VM::new();
    let mut steps = 0;
    let fault = loop {
        match vm.step(&chunk) {
            Step::Continue => {
                steps += 1;
            }
            Step::Done(_) => break false,
            Step::Fault => break true,
            _ => panic!("no arithmetic in this chunk"),
        }
    };
    assert!(fault, "the run must overflow the fixed stack");
    assert_eq!(steps, 256);
}
