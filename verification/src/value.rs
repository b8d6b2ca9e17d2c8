use vstd::prelude::*;

verus! {

/// A constant-pool / operand-stack slot: the bit pattern of an IEEE-754
/// double-precision number.
///
/// The execution core stores, moves and indexes these slots but never
/// interprets the bits arithmetically: the driver that runs the virtual
/// machine performs the numeric operations and hands the resulting bit
/// patterns back (see `vm::VM::step`).
#[derive(Clone, Copy, PartialEq, Eq, Structural, Debug)]
pub struct Value {
    pub bits: u64,
}

impl Value {
    pub fn new(bits: u64) -> (r: Value)
        ensures
            r.bits == bits,
    {
        Value { bits }
    }
}

} // verus!
