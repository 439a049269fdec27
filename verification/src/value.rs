//! Runtime values as the bytecode stores them.

use vstd::prelude::*;

verus! {

/// A number constant, held as the 64 bits of its IEEE 754 double precision
/// representation.
#[derive(Clone, Copy, Debug, PartialEq, Eq)]
pub struct Value {
    pub bits: u64,
}

impl Value {
    /// The value with the given bit pattern.
    pub fn from_bits(bits: u64) -> (value: Self)
        ensures
            value.bits == bits,
    {
        Value { bits }
    }

    /// The bit pattern of the value.
    pub fn to_bits(&self) -> (bits: u64)
        ensures
            bits == self.bits,
    {
        self.bits
    }
}

/// The type tag that accompanies a builtin value.
#[derive(Clone, Copy, Debug, PartialEq, Eq)]
pub enum ValueType {
    Number,
    Bool,
    Function,
    Unknown,
}

/// The variables that the runtime provides to every program, in the order
/// in which they take their global slots.
#[derive(Debug)]
pub struct BuiltinVars {
    pub values: Vec<(String, Value, ValueType)>,
}

impl BuiltinVars {
    /// The identifiers of the builtin variables, in order.
    pub open spec fn idents(&self) -> Seq<Seq<char>> {
        Seq::new(self.values@.len(), |i: int| self.values@[i].0@)
    }

    /// An empty table.
    pub fn new() -> (vars: Self)
        ensures
            vars.values@.len() == 0,
    {
        BuiltinVars { values: Vec::new() }
    }

    /// Appends a builtin variable.
    pub fn add(&mut self, ident: String, value: Value, ty: ValueType)
        ensures
            final(self).values@ == old(self).values@.push((ident, value, ty)),
            final(self).idents() == old(self).idents().push(ident@),
    {
        self.values.push((ident, value, ty));
        assert(self.idents() =~= old(self).idents().push(ident@));
    }
}

} // verus!
