use vstd::prelude::*;

use crate::opcode::{spec_opcode_byte, OpCode};
use crate::value::Value;

verus! {

/// An append-only bytecode buffer: the instruction stream as `(byte,
/// line)` pairs (one source line tag per byte) and the parallel constant
/// pool.  A chunk is a dumb container; the compiler is responsible for
/// emitting only well-formed code (see `code_safe`).
#[derive(Debug)]
pub struct Chunk {
    pub code: Vec<(u8, usize)>,
    pub constants: Vec<Value>,
}

impl Chunk {
    pub fn new() -> (r: Chunk)
        ensures
            r.code@ == Seq::<(u8, usize)>::empty(),
            r.constants@ == Seq::<Value>::empty(),
    {
        Chunk { code: Vec::new(), constants: Vec::new() }
    }

    /// Append one instruction or operand byte, tagged with its source line.
    pub fn write(&mut self, byte: u8, line: usize)
        ensures
            final(self).code@ == old(self).code@.push((byte, line)),
            final(self).constants@ == old(self).constants@,
    {
        self.code.push((byte, line));
    }

    /// Append a value to the constant pool and return its index.  The
    /// chunk itself never refuses; the caller checks that the index fits
    /// in an operand byte.
    pub fn add_constant(&mut self, value: Value) -> (idx: usize)
        ensures
            final(self).constants@ == old(self).constants@.push(value),
            final(self).code@ == old(self).code@,
            idx == old(self).constants@.len(),
    {
        self.constants.push(value);
        self.constants.len() - 1
    }
}

impl Clone for Chunk {
    fn clone(&self) -> (r: Self)
        ensures
            r.code@ == self.code@,
            r.constants@ == self.constants@,
    {
        let mut code: Vec<(u8, usize)> = Vec::new();
        let mut i: usize = 0;
        while i < self.code.len()
            invariant
                i <= self.code@.len(),
                code@ == self.code@.subrange(0, i as int),
            decreases self.code@.len() - i,
        {
            code.push(self.code[i]);
            i = i + 1;
            proof {
                assert(code@ =~= self.code@.subrange(0, i as int));
            }
        }
        let mut constants: Vec<Value> = Vec::new();
        let mut j: usize = 0;
        while j < self.constants.len()
            invariant
                j <= self.constants@.len(),
                constants@ == self.constants@.subrange(0, j as int),
            decreases self.constants@.len() - j,
        {
            constants.push(self.constants[j]);
            j = j + 1;
            proof {
                assert(constants@ =~= self.constants@.subrange(0, j as int));
            }
        }
        proof {
            assert(code@ =~= self.code@);
            assert(constants@ =~= self.constants@);
        }
        Chunk { code, constants }
    }
}

impl Default for Chunk {
    fn default() -> (r: Self)
        ensures
            r.code@ == Seq::<(u8, usize)>::empty(),
            r.constants@ == Seq::<Value>::empty(),
    {
        Chunk::new()
    }
}

// ---------------------------------------------------------------------------
// Structural well-formedness of bytecode.
//
// The instruction stream is straight-line code.  `seg_run` walks a range
// that contains no `Return`, tracking the operand stack depth; `code_safe`
// walks from a position to a final `Return`.  The compiler proves its
// output safe, the virtual machine runs exactly the safe steps.
// ---------------------------------------------------------------------------
/// Effect on the operand-stack depth of the instruction range `[i, end)`,
/// entered at depth `d`, against a pool of `nc` constants: `Some(depth
/// after)` when the range is a whole number of instructions, contains no
/// `Return`, keeps every constant operand within the pool, and never pops
/// an operand it has not first pushed; `None` otherwise.
pub open spec fn seg_run(code: Seq<(u8, usize)>, nc: int, i: int, end: int, d: int) -> Option<int>
    decreases end - i,
{
    if i == end {
        Some(d)
    } else if i < 0 || i >= end || end > code.len() {
        None
    } else {
        let b = code[i].0;
        if b == spec_opcode_byte(OpCode::Constant) {
            if i + 1 < end && (code[i + 1].0 as int) < nc {
                seg_run(code, nc, i + 2, end, d + 1)
            } else {
                None
            }
        } else if b == spec_opcode_byte(OpCode::Add) || b == spec_opcode_byte(OpCode::Subtract)
            || b == spec_opcode_byte(OpCode::Multiply) || b == spec_opcode_byte(OpCode::Divide) {
            if d >= 2 {
                seg_run(code, nc, i + 1, end, d - 1)
            } else {
                None
            }
        } else if b == spec_opcode_byte(OpCode::Negate) {
            if d >= 1 {
                seg_run(code, nc, i + 1, end, d)
            } else {
                None
            }
        } else {
            None
        }
    }
}

/// The emitted range behaves as one expression: from every starting depth
/// it runs without faulting and leaves exactly one more value on the
/// stack.
pub open spec fn expr_seg(code: Seq<(u8, usize)>, nc: int, i: int, end: int) -> bool {
    forall|d: int| 0 <= d ==> seg_run(code, nc, i, end, d) == Some(d + 1)
}

/// Safety of execution from position `i` at stack depth `d`: every
/// instruction byte decodes, every constant operand indexes the pool,
/// no pop outruns the pushes, and a `Return` (with a result available)
/// is reached before the code ends.
pub open spec fn code_safe(code: Seq<(u8, usize)>, nc: int, i: int, d: int) -> bool
    decreases code.len() - i,
{
    if i < 0 || i >= code.len() {
        false
    } else {
        let b = code[i].0;
        if b == spec_opcode_byte(OpCode::Return) {
            d >= 1
        } else if b == spec_opcode_byte(OpCode::Constant) {
            &&& i + 1 < code.len()
            &&& (code[i + 1].0 as int) < nc
            &&& code_safe(code, nc, i + 2, d + 1)
        } else if b == spec_opcode_byte(OpCode::Add) || b == spec_opcode_byte(OpCode::Subtract)
            || b == spec_opcode_byte(OpCode::Multiply) || b == spec_opcode_byte(OpCode::Divide) {
            d >= 2 && code_safe(code, nc, i + 1, d - 1)
        } else if b == spec_opcode_byte(OpCode::Negate) {
            d >= 1 && code_safe(code, nc, i + 1, d)
        } else {
            false
        }
    }
}

/// `seg_run` reads only the entries of `[i, end)`: two codes that agree
/// there run alike.
pub proof fn lemma_seg_run_frame(
    c1: Seq<(u8, usize)>,
    c2: Seq<(u8, usize)>,
    nc: int,
    i: int,
    end: int,
    d: int,
)
    requires
        0 <= i <= end,
        end <= c1.len(),
        end <= c2.len(),
        forall|j: int| i <= j < end ==> c1[j] == c2[j],
    ensures
        seg_run(c1, nc, i, end, d) == seg_run(c2, nc, i, end, d),
    decreases end - i,
{
    if i < end {
        let b = c1[i].0;
        if b == spec_opcode_byte(OpCode::Constant) {
            if i + 1 < end && (c1[i + 1].0 as int) < nc {
                lemma_seg_run_frame(c1, c2, nc, i + 2, end, d + 1);
            }
        } else if b == spec_opcode_byte(OpCode::Add) || b == spec_opcode_byte(OpCode::Subtract)
            || b == spec_opcode_byte(OpCode::Multiply) || b == spec_opcode_byte(OpCode::Divide) {
            if d >= 2 {
                lemma_seg_run_frame(c1, c2, nc, i + 1, end, d - 1);
            }
        } else if b == spec_opcode_byte(OpCode::Negate) {
            if d >= 1 {
                lemma_seg_run_frame(c1, c2, nc, i + 1, end, d);
            }
        }
    }
}

/// A range that runs against a pool of `nc` constants still runs, with
/// the same effect, against any larger pool.
pub proof fn lemma_seg_run_wider(
    code: Seq<(u8, usize)>,
    nc: int,
    nc2: int,
    i: int,
    end: int,
    d: int,
)
    requires
        seg_run(code, nc, i, end, d) is Some,
        nc <= nc2,
    ensures
        seg_run(code, nc2, i, end, d) == seg_run(code, nc, i, end, d),
    decreases end - i,
{
    if i != end {
        let b = code[i].0;
        if b == spec_opcode_byte(OpCode::Constant) {
            lemma_seg_run_wider(code, nc, nc2, i + 2, end, d + 1);
        } else if b == spec_opcode_byte(OpCode::Add) || b == spec_opcode_byte(OpCode::Subtract)
            || b == spec_opcode_byte(OpCode::Multiply) || b == spec_opcode_byte(OpCode::Divide) {
            lemma_seg_run_wider(code, nc, nc2, i + 1, end, d - 1);
        } else if b == spec_opcode_byte(OpCode::Negate) {
            lemma_seg_run_wider(code, nc, nc2, i + 1, end, d);
        }
    }
}

/// Two adjacent ranges compose: running `[i, m)` and then `[m, end)` is
/// running `[i, end)`.
pub proof fn lemma_seg_run_concat(
    code: Seq<(u8, usize)>,
    nc: int,
    i: int,
    m: int,
    end: int,
    d: int,
)
    requires
        seg_run(code, nc, i, m, d) is Some,
        m <= end,
    ensures
        seg_run(code, nc, i, end, d) == seg_run(
            code,
            nc,
            m,
            end,
            seg_run(code, nc, i, m, d)->Some_0,
        ),
    decreases m - i,
{
    if i != m {
        let b = code[i].0;
        if b == spec_opcode_byte(OpCode::Constant) {
            lemma_seg_run_concat(code, nc, i + 2, m, end, d + 1);
        } else if b == spec_opcode_byte(OpCode::Add) || b == spec_opcode_byte(OpCode::Subtract)
            || b == spec_opcode_byte(OpCode::Multiply) || b == spec_opcode_byte(OpCode::Divide) {
            lemma_seg_run_concat(code, nc, i + 1, m, end, d - 1);
        } else if b == spec_opcode_byte(OpCode::Negate) {
            lemma_seg_run_concat(code, nc, i + 1, m, end, d);
        }
    }
}

/// A faultless range followed by a safe continuation is safe.
pub proof fn lemma_seg_then_safe(code: Seq<(u8, usize)>, nc: int, i: int, m: int, d: int)
    requires
        seg_run(code, nc, i, m, d) is Some,
        code_safe(code, nc, m, seg_run(code, nc, i, m, d)->Some_0),
    ensures
        code_safe(code, nc, i, d),
    decreases m - i,
{
    if i != m {
        let b = code[i].0;
        if b == spec_opcode_byte(OpCode::Constant) {
            lemma_seg_then_safe(code, nc, i + 2, m, d + 1);
        } else if b == spec_opcode_byte(OpCode::Add) || b == spec_opcode_byte(OpCode::Subtract)
            || b == spec_opcode_byte(OpCode::Multiply) || b == spec_opcode_byte(OpCode::Divide) {
            lemma_seg_then_safe(code, nc, i + 1, m, d - 1);
        } else if b == spec_opcode_byte(OpCode::Negate) {
            lemma_seg_then_safe(code, nc, i + 1, m, d);
        }
    }
}

} // verus!
