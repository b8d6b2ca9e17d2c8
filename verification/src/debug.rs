use vstd::prelude::*;

use crate::chunk::{code_safe, seg_run, Chunk};
use crate::opcode::{spec_opcode_byte, OpCode};
use crate::text::push_char;

verus! {

// ---------------------------------------------------------------------------
// Rendering primitives.
// ---------------------------------------------------------------------------
/// The decimal digits of `n`, most significant first.
pub open spec fn dec_str(n: int) -> Seq<char>
    decreases n,
{
    let digit = seq![
        if n % 10 == 0 {
            '0'
        } else if n % 10 == 1 {
            '1'
        } else if n % 10 == 2 {
            '2'
        } else if n % 10 == 3 {
            '3'
        } else if n % 10 == 4 {
            '4'
        } else if n % 10 == 5 {
            '5'
        } else if n % 10 == 6 {
            '6'
        } else if n % 10 == 7 {
            '7'
        } else if n % 10 == 8 {
            '8'
        } else {
            '9'
        },
    ];
    if n <= 0 || n >= 10 {
        if 10 <= n {
            dec_str(n / 10) + digit
        } else {
            seq!['0']
        }
    } else {
        digit
    }
}

/// `k` copies of `c`.
pub open spec fn repeat_char(c: char, k: int) -> Seq<char>
    decreases k,
{
    if k <= 0 {
        Seq::empty()
    } else {
        repeat_char(c, k - 1).push(c)
    }
}

/// `s`, preceded by enough copies of `c` to reach width `w`.
pub open spec fn pad_left(s: Seq<char>, w: int, c: char) -> Seq<char> {
    repeat_char(c, w - s.len()) + s
}

/// `s`, followed by enough copies of `c` to reach width `w`.
pub open spec fn pad_right(s: Seq<char>, w: int, c: char) -> Seq<char> {
    s + repeat_char(c, w - s.len())
}

/// The digit character of `n % 10`.
fn digit_char(n: usize) -> (r: char)
    ensures
        seq![r] == dec_str(n as int).subrange(
            dec_str(n as int).len() - 1,
            dec_str(n as int).len() as int,
        ),
        r == dec_str(n as int)[dec_str(n as int).len() - 1],
{
    let d = n % 10;
    if d == 0 {
        '0'
    } else if d == 1 {
        '1'
    } else if d == 2 {
        '2'
    } else if d == 3 {
        '3'
    } else if d == 4 {
        '4'
    } else if d == 5 {
        '5'
    } else if d == 6 {
        '6'
    } else if d == 7 {
        '7'
    } else if d == 8 {
        '8'
    } else {
        '9'
    }
}

/// `n` in decimal.
fn dec_string(n: usize) -> (r: String)
    ensures
        r@ == dec_str(n as int),
    decreases n,
{
    if n < 10 {
        let mut r = String::new();
        push_char(&mut r, digit_char(n));
        proof {
            assert(r@ =~= dec_str(n as int));
        }
        r
    } else {
        let mut r = dec_string(n / 10);
        push_char(&mut r, digit_char(n));
        proof {
            assert(r@ =~= dec_str(n as int));
        }
        r
    }
}

/// `n` in decimal, padded on the left with `c` to width `w`.
fn padded_dec(n: usize, w: usize, c: char) -> (r: String)
    ensures
        r@ == pad_left(dec_str(n as int), w as int, c),
{
    let digits = dec_string(n);
    let len = digits.as_str().unicode_len();
    let mut r = String::new();
    let mut i: usize = 0;
    let k = if len >= w {
        0
    } else {
        w - len
    };
    while i < k
        invariant
            r@ == repeat_char(c, i as int),
            i <= k,
        decreases k - i,
    {
        push_char(&mut r, c);
        i = i + 1;
    }
    r.append(digits.as_str());
    r
}

// ---------------------------------------------------------------------------
// The disassembly.
// ---------------------------------------------------------------------------
/// The mnemonic of an instruction byte.
pub open spec fn spec_mnemonic(op: OpCode) -> Seq<char> {
    match op {
        OpCode::Constant => "OP_CONSTANT"@,
        OpCode::Add => "OP_ADD"@,
        OpCode::Subtract => "OP_SUBTRACT"@,
        OpCode::Multiply => "OP_MULTIPLY"@,
        OpCode::Divide => "OP_DIVIDE"@,
        OpCode::Negate => "OP_NEGATE"@,
        OpCode::Return => "OP_RETURN"@,
    }
}

/// Is the disassembler able to take one step at `offset` without running
/// off the end?  Only a `Constant` whose operand byte is missing stops it.
pub open spec fn dis_step_ok(code: Seq<(u8, usize)>, i: int) -> bool {
    0 <= i < code.len() && (code[i].0 == spec_opcode_byte(OpCode::Constant) ==> i + 1
        < code.len())
}

/// The offset of the next instruction: two bytes for `Constant`, one for
/// everything else (an unknown byte advances by one: best-effort resync).
pub open spec fn dis_next(code: Seq<(u8, usize)>, i: int) -> int {
    if code[i].0 == spec_opcode_byte(OpCode::Constant) {
        if i + 2 <= code.len() {
            i + 2
        } else {
            code.len() as int
        }
    } else {
        i + 1
    }
}

/// The whole walk can be taken: every visited offset steps cleanly.
pub open spec fn dis_safe(code: Seq<(u8, usize)>, i: int) -> bool
    decreases code.len() - i,
{
    if i < 0 {
        false
    } else if i >= code.len() {
        true
    } else {
        dis_step_ok(code, i) && dis_safe(code, dis_next(code, i))
    }
}

/// The source-line column: the line number, or `   |` when it repeats the
/// previous instruction's line.
pub open spec fn spec_line_col(code: Seq<(u8, usize)>, i: int) -> Seq<char> {
    if i > 0 && code[i].1 == code[i - 1].1 {
        "   | "@
    } else {
        pad_left(dec_str(code[i].1 as int), 4, ' ') + " "@
    }
}

/// The rendered text of the instruction at `i`, except that a constant's
/// quoted value is left for the caller to append.
pub open spec fn spec_dis_text(code: Seq<(u8, usize)>, i: int) -> Seq<char> {
    let head = pad_left(dec_str(i), 4, '0') + " "@ + spec_line_col(code, i);
    match crate::opcode::spec_opcode_of_byte(code[i].0) {
        Some(OpCode::Constant) => head + pad_right(spec_mnemonic(OpCode::Constant), 16, ' ')
            + " "@ + pad_left(dec_str(code[i + 1].0 as int), 4, ' '),
        Some(op) => head + spec_mnemonic(op),
        None => head + "Unknown opcode: "@ + dec_str(code[i].0 as int),
    }
}

/// One rendered instruction.  For a `Constant`, `constant` holds the pool
/// index whose quoted value completes the line; the execution core leaves
/// rendering the numeric value to the driver.
#[derive(Debug)]
pub struct DisLine {
    pub text: String,
    pub constant: Option<u8>,
}

/// The rendered walk from `i` to the end of the code.
pub open spec fn spec_dis_lines(code: Seq<(u8, usize)>, i: int) -> Seq<(Seq<char>, Option<u8>)>
    decreases code.len() - i,
{
    if i < 0 || i >= code.len() {
        Seq::empty()
    } else {
        let entry = (
            spec_dis_text(code, i),
            if code[i].0 == spec_opcode_byte(OpCode::Constant) && i + 1 < code.len() {
                Some(code[i + 1].0)
            } else {
                None::<u8>
            },
        );
        seq![entry] + spec_dis_lines(code, dis_next(code, i))
    }
}

/// Render the instruction at `offset`; returns the line and the offset of
/// the next instruction.
pub fn disassemble_instruction(chunk: &Chunk, offset: usize) -> (r: (DisLine, usize))
    requires
        dis_step_ok(chunk.code@, offset as int),
    ensures
        r.0.text@ == spec_dis_text(chunk.code@, offset as int),
        r.1 as int == dis_next(chunk.code@, offset as int),
        r.0.constant == (if chunk.code@[offset as int].0 == spec_opcode_byte(OpCode::Constant) {
            Some(chunk.code@[offset as int + 1].0)
        } else {
            None::<u8>
        }),
{
    let n = chunk.code.len();
    proof {
        assert(offset < n);
    }
    let mut text = padded_dec(offset, 4, '0');
    text.append(" ");
    let (byte, line) = chunk.code[offset];
    let same_line = offset > 0 && line == chunk.code[offset - 1].1;
    if same_line {
        text.append("   | ");
    } else {
        let lineno = padded_dec(line, 4, ' ');
        text.append(lineno.as_str());
        text.append(" ");
    }
    match OpCode::try_from(byte) {
        Ok(OpCode::Constant) => {
            let constant = chunk.code[offset + 1].0;
            text.append("OP_CONSTANT      ");
            let opnd = padded_dec(constant as usize, 4, ' ');
            text.append(opnd.as_str());
            proof {
                reveal_strlit("OP_CONSTANT");
                reveal_strlit("OP_CONSTANT      ");
                reveal_strlit(" ");
                reveal_with_fuel(repeat_char, 8);
                assert(repeat_char(' ', 5) =~= seq![' ', ' ', ' ', ' ', ' ']);
                assert("OP_CONSTANT      "@ =~= pad_right("OP_CONSTANT"@, 16, ' ') + " "@);
                assert(text@ =~= spec_dis_text(chunk.code@, offset as int));
            }
            (DisLine { text, constant: Some(constant) }, offset + 2)
        },
        Ok(OpCode::Add) => {
            text.append("OP_ADD");
            proof {
                assert(text@ =~= spec_dis_text(chunk.code@, offset as int));
            }
            (DisLine { text, constant: None }, offset + 1)
        },
        Ok(OpCode::Subtract) => {
            text.append("OP_SUBTRACT");
            proof {
                assert(text@ =~= spec_dis_text(chunk.code@, offset as int));
            }
            (DisLine { text, constant: None }, offset + 1)
        },
        Ok(OpCode::Multiply) => {
            text.append("OP_MULTIPLY");
            proof {
                assert(text@ =~= spec_dis_text(chunk.code@, offset as int));
            }
            (DisLine { text, constant: None }, offset + 1)
        },
        Ok(OpCode::Divide) => {
            text.append("OP_DIVIDE");
            proof {
                assert(text@ =~= spec_dis_text(chunk.code@, offset as int));
            }
            (DisLine { text, constant: None }, offset + 1)
        },
        Ok(OpCode::Negate) => {
            text.append("OP_NEGATE");
            proof {
                assert(text@ =~= spec_dis_text(chunk.code@, offset as int));
            }
            (DisLine { text, constant: None }, offset + 1)
        },
        Ok(OpCode::Return) => {
            text.append("OP_RETURN");
            proof {
                assert(text@ =~= spec_dis_text(chunk.code@, offset as int));
            }
            (DisLine { text, constant: None }, offset + 1)
        },
        Err(()) => {
            text.append("Unknown opcode: ");
            let num = dec_string(byte as usize);
            text.append(num.as_str());
            proof {
                assert(text@ =~= spec_dis_text(chunk.code@, offset as int));
            }
            (DisLine { text, constant: None }, offset + 1)
        },
    }
}

/// Render the whole chunk: a header line, then every instruction from
/// offset 0 to the end.
pub fn disassemble_chunk(chunk: &Chunk, name: &str) -> (r: Vec<DisLine>)
    requires
        dis_safe(chunk.code@, 0),
    ensures
        r@.len() == 1 + spec_dis_lines(chunk.code@, 0).len(),
        r@[0].text@ == "== "@ + name@ + " =="@,
        r@[0].constant is None,
        forall|j: int|
            1 <= j < r@.len() ==> (#[trigger] r@[j]).text@ == spec_dis_lines(chunk.code@, 0)[j
                - 1].0 && r@[j].constant == spec_dis_lines(chunk.code@, 0)[j - 1].1,
{
    let mut header = String::from_str("== ");
    header.append(name);
    header.append(" ==");
    let mut out: Vec<DisLine> = Vec::new();
    out.push(DisLine { text: header, constant: None });
    let ghost lines = spec_dis_lines(chunk.code@, 0);
    let mut offset: usize = 0;
    while offset < chunk.code.len()
        invariant
            dis_safe(chunk.code@, offset as int),
            offset <= chunk.code@.len(),
            out@.len() >= 1,
            out@[0].constant is None,
            out@[0].text@ == "== "@ + name@ + " =="@,
            lines == spec_dis_lines(chunk.code@, 0),
            lines =~= out@.subrange(1, out@.len() as int).map_values(
                |dl: DisLine| (dl.text@, dl.constant),
            ) + spec_dis_lines(chunk.code@, offset as int),
        decreases chunk.code@.len() - offset,
    {
        let ghost before = out@;
        let (line, next) = disassemble_instruction(chunk, offset);
        out.push(line);
        proof {
            assert(out@.subrange(1, out@.len() as int).map_values(
                |dl: DisLine| (dl.text@, dl.constant),
            ) =~= before.subrange(1, before.len() as int).map_values(
                |dl: DisLine| (dl.text@, dl.constant),
            ).push((out@[out@.len() - 1].text@, out@[out@.len() - 1].constant)));
        }
        offset = next;
    }
    proof {
        assert(spec_dis_lines(chunk.code@, offset as int) =~= Seq::<(
            Seq<char>,
            Option<u8>,
        )>::empty());
        assert(lines =~= out@.subrange(1, out@.len() as int).map_values(
            |dl: DisLine| (dl.text@, dl.constant),
        ));
        assert forall|j: int| 1 <= j < out@.len() implies (#[trigger] out@[j]).text@ == lines[j
            - 1].0 && out@[j].constant == lines[j - 1].1 by {
            assert(out@.subrange(1, out@.len() as int)[j - 1] == out@[j]);
            assert(lines[j - 1] == (out@[j].text@, out@[j].constant));
        }
    }
    out
}

/// The walk is not only safe but real: every line it renders decodes to
/// an instruction of the set, none is an "Unknown opcode" diagnostic.
pub open spec fn walk_clean(code: Seq<(u8, usize)>, i: int) -> bool
    decreases code.len() - i,
{
    if i < 0 {
        false
    } else if i >= code.len() {
        true
    } else {
        &&& dis_step_ok(code, i)
        &&& crate::opcode::spec_opcode_of_byte(code[i].0) is Some
        &&& walk_clean(code, dis_next(code, i))
    }
}

/// A clean walk is in particular a safe one.
pub proof fn lemma_walk_clean_dis_safe(code: Seq<(u8, usize)>, i: int)
    requires
        walk_clean(code, i),
    ensures
        dis_safe(code, i),
    decreases code.len() - i,
{
    if 0 <= i < code.len() {
        lemma_walk_clean_dis_safe(code, dis_next(code, i));
    }
}

/// Round trip: the disassembler re-derives exactly the instruction
/// boundaries the compiler emitted.  Code that a run walks without fault
/// is re-walked by the disassembler on the same boundaries — each line an
/// instruction of the set with its operand — landing exactly on `m`.
pub proof fn lemma_round_trip(code: Seq<(u8, usize)>, nc: int, i: int, m: int, d: int)
    requires
        seg_run(code, nc, i, m, d) is Some,
        walk_clean(code, m),
    ensures
        walk_clean(code, i),
    decreases m - i,
{
    if i != m {
        let b = code[i].0;
        if b == spec_opcode_byte(OpCode::Constant) {
            lemma_round_trip(code, nc, i + 2, m, d + 1);
        } else if b == spec_opcode_byte(OpCode::Add) || b == spec_opcode_byte(OpCode::Subtract)
            || b == spec_opcode_byte(OpCode::Multiply) || b == spec_opcode_byte(OpCode::Divide) {
            lemma_round_trip(code, nc, i + 1, m, d - 1);
        } else if b == spec_opcode_byte(OpCode::Negate) {
            lemma_round_trip(code, nc, i + 1, m, d);
        }
    }
}

/// Disassembling the same chunk twice produces identical output: the
/// disassembly is a function of the chunk's code alone.
pub proof fn lemma_disassembly_deterministic(
    c1: Seq<(u8, usize)>,
    c2: Seq<(u8, usize)>,
    i: int,
)
    requires
        c1 == c2,
    ensures
        spec_dis_lines(c1, i) == spec_dis_lines(c2, i),
{
}

impl Chunk {
    /// Render this chunk: the header, then every instruction.
    pub fn disassemble(&self, name: &str) -> (r: Vec<DisLine>)
        requires
            dis_safe(self.code@, 0),
        ensures
            r@.len() == 1 + spec_dis_lines(self.code@, 0).len(),
            r@[0].text@ == "== "@ + name@ + " =="@,
            forall|j: int|
                1 <= j < r@.len() ==> (#[trigger] r@[j]).text@ == spec_dis_lines(self.code@, 0)[j
                    - 1].0 && r@[j].constant == spec_dis_lines(self.code@, 0)[j - 1].1,
    {
        disassemble_chunk(self, name)
    }

    /// Render the instruction at `offset`; returns the line and the next
    /// offset.
    pub fn disassemble_instruction(&self, offset: usize) -> (r: (DisLine, usize))
        requires
            dis_step_ok(self.code@, offset as int),
        ensures
            r.0.text@ == spec_dis_text(self.code@, offset as int),
            r.1 as int == dis_next(self.code@, offset as int),
    {
        disassemble_instruction(self, offset)
    }
}

} // verus!
