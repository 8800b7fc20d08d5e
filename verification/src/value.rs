//! Runtime values and the constant pool.

use vstd::prelude::*;

verus! {

/// The only kind of runtime value: a 64-bit IEEE 754 number, carried as its
/// bit pattern. The machine moves values around and never looks inside one.
#[derive(Clone, Copy, Debug, PartialEq, Eq, Structural)]
pub struct Value {
    pub bits: u64,
}

impl Value {
    /// The value with the given bit pattern.
    pub fn from_bits(bits: u64) -> (value: Value)
        ensures
            value.bits == bits,
    {
        Value { bits }
    }

    /// The bit pattern of the value.
    pub fn to_bits(&self) -> (bits: u64)
        ensures
            bits == self.bits,
    {
        self.bits
    }
}

/// An append-only pool of values. An entry keeps the index that it got when
/// it was written.
pub struct ValueArray {
    pub values: Vec<Value>,
}

impl View for ValueArray {
    type V = Seq<Value>;

    open spec fn view(&self) -> Seq<Value> {
        self.values@
    }
}

impl ValueArray {
    /// The empty pool.
    pub fn new() -> (pool: ValueArray)
        ensures
            pool@ == Seq::<Value>::empty(),
    {
        ValueArray { values: Vec::new() }
    }

    /// The number of entries.
    pub fn len(&self) -> (len: usize)
        ensures
            len == self@.len(),
    {
        self.values.len()
    }

    /// Appends a value. The entries written before keep their places.
    pub fn write_value(&mut self, value: Value)
        ensures
            final(self)@ == old(self)@.push(value),
    {
        self.values.push(value);
    }
}

} // verus!
