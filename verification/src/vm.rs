use vstd::prelude::*;

use crate::chunk::{code_safe, Chunk};
use crate::opcode::{spec_opcode_byte, spec_opcode_of_byte, OpCode};
use crate::value::Value;

verus! {

/// The overall outcome of one interpretation.
#[derive(Debug, Clone, Copy, PartialEq, Eq, Structural)]
pub enum Interpret {
    Success,
    CompileError,
    RuntimeError,
}

/// What one fetch-decode-execute step asks of the driver.
///
/// The execution core decodes and moves value slots; the driver performs
/// the numeric work: on `Binary` and `Negate` it computes the result and
/// hands it back through `push_result`, on `Done` it has the program's
/// result, on `Fault` the run is aborted.  On a chunk the compiler
/// certified (`code_safe`), the only conceivable fault is a push onto a
/// full stack (see `lemma_safe_step`).
#[derive(Debug, Clone, Copy, PartialEq, Eq, Structural)]
pub enum Step {
    Continue,
    Binary(OpCode, Value, Value),
    Negate(Value),
    Done(Value),
    Fault,
}

/// The fixed operand-stack capacity.
pub const STACK_MAX: usize = 256;

/// The virtual machine: an instruction pointer and an operand stack of
/// value slots.
#[derive(Debug)]
pub struct VM {
    ip: usize,
    stack: Vec<Value>,
}

impl VM {
    /// The instruction pointer.
    pub closed spec fn ip(&self) -> int {
        self.ip as int
    }

    /// The operand stack, bottom first.
    pub closed spec fn stack(&self) -> Seq<Value> {
        self.stack@
    }

    pub fn new() -> (r: VM)
        ensures
            r.ip() == 0,
            r.stack() == Seq::<Value>::empty(),
    {
        VM { ip: 0, stack: Vec::new() }
    }

    /// The operand stack, for the driver's trace output.
    pub fn stack_slots(&self) -> (r: &Vec<Value>)
        ensures
            r@ == self.stack(),
    {
        &self.stack
    }

    /// The instruction pointer, for the driver's trace output.
    pub fn position(&self) -> (r: usize)
        ensures
            r as int == self.ip(),
    {
        self.ip
    }

    fn push(&mut self, value: Value) -> (r: bool)
        ensures
            final(self).ip() == old(self).ip(),
            r == (old(self).stack().len() < STACK_MAX as int),
            r ==> final(self).stack() == old(self).stack().push(value),
            !r ==> final(self).stack() == old(self).stack(),
    {
        if self.stack.len() >= STACK_MAX {
            return false;
        }
        self.stack.push(value);
        true
    }

    fn pop(&mut self) -> (r: Option<Value>)
        ensures
            final(self).ip() == old(self).ip(),
            old(self).stack().len() > 0 ==> r == Some(old(self).stack().last())
                && final(self).stack() == old(self).stack().drop_last(),
            old(self).stack().len() == 0 ==> r is None && final(self).stack() == old(
                self,
            ).stack(),
    {
        self.stack.pop()
    }

    /// Hand back the result of a `Binary` or `Negate` request.  The slot
    /// popped for the request left room, so the push cannot overflow.
    pub fn push_result(&mut self, value: Value) -> (r: bool)
        ensures
            final(self).ip() == old(self).ip(),
            r == (old(self).stack().len() < STACK_MAX as int),
            r ==> final(self).stack() == old(self).stack().push(value),
            !r ==> final(self).stack() == old(self).stack(),
    {
        self.push(value)
    }

    /// One fetch-decode-execute step over `chunk`, from the current
    /// instruction pointer and stack.  The ensures spell out the exact
    /// transition for every instruction, and every way a step can fault:
    /// running off the code, an unknown opcode byte, a constant operand
    /// outside the pool, a pop with nothing to pop, or a push onto a full
    /// stack.
    pub fn step(&mut self, chunk: &Chunk) -> (r: Step)
        ensures
            ({
                let code = chunk.code@;
                let nc = chunk.constants@.len() as int;
                let ip = old(self).ip();
                let st = old(self).stack();
                if !(ip < code.len()) {
                    r is Fault && final(self).ip() == old(self).ip() && final(self).stack() == old(self).stack()
                } else {
                    let b = code[ip].0;
                    if b == spec_opcode_byte(OpCode::Constant) {
                        if ip + 1 >= code.len() || code[ip + 1].0 as int >= nc {
                            r is Fault && final(self).ip() == old(self).ip() && final(self).stack() == old(self).stack()
                        } else if st.len() >= STACK_MAX as int {
                            r is Fault && final(self).ip() == old(self).ip() && final(self).stack() == old(self).stack()
                        } else {
                            &&& r is Continue
                            &&& final(self).ip() == ip + 2
                            &&& final(self).stack() == st.push(
                                chunk.constants@[code[ip + 1].0 as int],
                            )
                        }
                    } else if b == spec_opcode_byte(OpCode::Add) || b == spec_opcode_byte(
                        OpCode::Subtract,
                    ) || b == spec_opcode_byte(OpCode::Multiply) || b == spec_opcode_byte(
                        OpCode::Divide,
                    ) {
                        if st.len() < 2 {
                            r is Fault
                        } else {
                            &&& r == Step::Binary(
                                spec_opcode_of_byte(b)->Some_0,
                                st[st.len() - 2],
                                st.last(),
                            )
                            &&& final(self).ip() == ip + 1
                            &&& final(self).stack() == st.drop_last().drop_last()
                        }
                    } else if b == spec_opcode_byte(OpCode::Negate) {
                        if st.len() < 1 {
                            r is Fault && final(self).ip() == old(self).ip() && final(self).stack() == old(self).stack()
                        } else {
                            &&& r == Step::Negate(st.last())
                            &&& final(self).ip() == ip + 1
                            &&& final(self).stack() == st.drop_last()
                        }
                    } else if b == spec_opcode_byte(OpCode::Return) {
                        if st.len() < 1 {
                            r is Fault && final(self).ip() == old(self).ip() && final(self).stack() == old(self).stack()
                        } else {
                            &&& r == Step::Done(st.last())
                            &&& final(self).ip() == ip + 1
                            &&& final(self).stack() == st.drop_last()
                        }
                    } else {
                        r is Fault && final(self).ip() == old(self).ip() && final(self).stack() == old(self).stack()
                    }
                }
            }),
    {
        if self.ip >= chunk.code.len() {
            return Step::Fault;
        }
        let instruction = self.read_byte(chunk);
        let opcode = match OpCode::try_from(instruction) {
            Ok(op) => op,
            Err(()) => {
                self.ip = self.ip - 1;
                return Step::Fault;
            },
        };
        match opcode {
            OpCode::Constant => {
                match self.read_constant(chunk) {
                    Some(constant) => {
                        if self.push(constant) {
                            Step::Continue
                        } else {
                            self.ip = self.ip - 2;
                            Step::Fault
                        }
                    },
                    None => {
                        self.ip = self.ip - 1;
                        Step::Fault
                    },
                }
            },
            OpCode::Add | OpCode::Subtract | OpCode::Multiply | OpCode::Divide => {
                let b = self.pop();
                match b {
                    Some(bv) => {
                        let a = self.pop();
                        match a {
                            Some(av) => Step::Binary(opcode, av, bv),
                            None => {
                                // cannot happen with two operands checked below
                                self.stack.push(bv);
                                self.ip = self.ip - 1;
                                Step::Fault
                            },
                        }
                    },
                    None => {
                        self.ip = self.ip - 1;
                        Step::Fault
                    },
                }
            },
            OpCode::Negate => {
                match self.pop() {
                    Some(v) => Step::Negate(v),
                    None => {
                        self.ip = self.ip - 1;
                        Step::Fault
                    },
                }
            },
            OpCode::Return => {
                match self.pop() {
                    Some(v) => Step::Done(v),
                    None => {
                        self.ip = self.ip - 1;
                        Step::Fault
                    },
                }
            },
        }
    }

    /// Read the byte at the instruction pointer and advance past it.
    fn read_byte(&mut self, chunk: &Chunk) -> (r: u8)
        requires
            old(self).ip() < chunk.code@.len(),
        ensures
            r == chunk.code@[old(self).ip()].0,
            final(self).ip() == old(self).ip() + 1,
            final(self).stack() == old(self).stack(),
    {
        let n = chunk.code.len();
        proof {
            assert(self.ip < n);
        }
        let byte = chunk.code[self.ip].0;
        self.ip = self.ip + 1;
        byte
    }

    /// Read the operand byte as a pool index and fetch the constant;
    /// `None` when the operand is missing or outside the pool.
    fn read_constant(&mut self, chunk: &Chunk) -> (r: Option<Value>)
        requires
            old(self).ip() <= chunk.code@.len(),
        ensures
            ({
                let ip = old(self).ip();
                if ip < chunk.code@.len() && (chunk.code@[ip].0 as int)
                    < chunk.constants@.len() {
                    r == Some(chunk.constants@[chunk.code@[ip].0 as int]) && final(self).ip()
                        == ip + 1 && final(self).stack() == old(self).stack()
                } else {
                    r is None && final(self).ip() == old(self).ip() && final(self).stack() == old(self).stack()
                }
            }),
    {
        if self.ip >= chunk.code.len() {
            return None;
        }
        let index = self.read_byte(chunk) as usize;
        if index >= chunk.constants.len() {
            self.ip = self.ip - 1;
            return None;
        }
        Some(chunk.constants[index])
    }
}

impl Default for VM {
    fn default() -> (r: Self)
        ensures
            r.ip() == 0,
            r.stack() == Seq::<Value>::empty(),
    {
        VM::new()
    }
}

/// On code the compiler certified (`code_safe`), a step from a consistent
/// state cannot fault by underflow, a bad opcode, a missing operand or a
/// stray constant index; and afterwards the code is again safe from the
/// new position — at the matching stack depth — unless the instruction
/// was the final `Return`.  The one fault left is a `Constant` push onto
/// a full stack.
pub proof fn lemma_safe_step(code: Seq<(u8, usize)>, nc: int, ip: int, depth: int)
    requires
        code_safe(code, nc, ip, depth),
    ensures
        0 <= ip < code.len(),
        spec_opcode_of_byte(code[ip].0) is Some,
        code[ip].0 == spec_opcode_byte(OpCode::Constant) ==> ip + 1 < code.len() && (code[ip
            + 1].0 as int) < nc && code_safe(code, nc, ip + 2, depth + 1),
        (code[ip].0 == spec_opcode_byte(OpCode::Add) || code[ip].0 == spec_opcode_byte(
            OpCode::Subtract,
        ) || code[ip].0 == spec_opcode_byte(OpCode::Multiply) || code[ip].0
            == spec_opcode_byte(OpCode::Divide)) ==> depth >= 2 && code_safe(
            code,
            nc,
            ip + 1,
            depth - 1,
        ),
        code[ip].0 == spec_opcode_byte(OpCode::Negate) ==> depth >= 1 && code_safe(
            code,
            nc,
            ip + 1,
            depth,
        ),
        code[ip].0 == spec_opcode_byte(OpCode::Return) ==> depth >= 1,
{
}

} // verus!
