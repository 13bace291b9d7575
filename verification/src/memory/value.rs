use vstd::prelude::*;

use crate::memory::range::Range;

verus! {

/// One register cell. `Read` cells can only be read, `Write` cells only written,
/// `Combined` cells share one word for both directions and `Separated` cells keep a
/// read word and a write word side by side.
#[derive(Debug, Clone, Copy, Eq)]
pub enum Value {
    Read(u16),
    Write(u16),
    Combined(u16),
    Separated((u16, u16)),
}

impl PartialEq for Value {
    fn eq(&self, other: &Self) -> (r: bool) {
        match (self, other) {
            (Value::Read(a), Value::Read(b)) => *a == *b,
            (Value::Write(a), Value::Write(b)) => *a == *b,
            (Value::Combined(a), Value::Combined(b)) => *a == *b,
            (Value::Separated((a, b)), Value::Separated((c, d))) => *a == *c && *b == *d,
            _ => false,
        }
    }
}

impl vstd::std_specs::cmp::PartialEqSpecImpl for Value {
    open spec fn obeys_eq_spec() -> bool {
        true
    }

    open spec fn eq_spec(&self, other: &Self) -> bool {
        *self == *other
    }
}

/// The access kind of a register cell, without its contents.
#[derive(Debug, Clone, Copy, PartialEq, Eq, Structural)]
pub enum Kind {
    Read,
    Write,
    Combined,
    Separated,
}

/// The cell of kind `kind` holding `init` in every word it has.
pub open spec fn value_of(kind: Kind, init: u16) -> Value {
    match kind {
        Kind::Read => Value::Read(init),
        Kind::Write => Value::Write(init),
        Kind::Combined => Value::Combined(init),
        Kind::Separated => Value::Separated((init, init)),
    }
}

/// The kind of a cell.
pub open spec fn kind_of(v: Value) -> Kind {
    match v {
        Value::Read(_) => Kind::Read,
        Value::Write(_) => Kind::Write,
        Value::Combined(_) => Kind::Combined,
        Value::Separated(_) => Kind::Separated,
    }
}

impl Value {
    /// A zeroed cell of the given kind.
    pub fn default(kind: &Kind) -> (r: Self)
        ensures
            r == value_of(*kind, 0),
    {
        Self::from_u16(kind, 0)
    }

    /// A cell of the given kind whose words all hold `init`.
    pub fn from_u16(kind: &Kind, init: u16) -> (r: Self)
        ensures
            r == value_of(*kind, init),
    {
        match kind {
            Kind::Read => Value::Read(init),
            Kind::Write => Value::Write(init),
            Kind::Combined => Value::Combined(init),
            Kind::Separated => Value::Separated((init, init)),
        }
    }
}

/// A block of raw words together with the address range they start at.
#[derive(Debug, Clone, Copy)]
pub struct ValueRange<'a> {
    range: Range,
    values: &'a [u16],
}

impl<'a> ValueRange<'a> {
    /// The range covers exactly as many addresses as there are words.
    pub open spec fn wf(&self) -> bool {
        self.range_spec().start + self.values_spec().len() == self.range_spec().end
    }

    /// The address range of the block.
    pub closed spec fn range_spec(&self) -> Range {
        self.range
    }

    /// The words of the block.
    pub closed spec fn values_spec(&self) -> Seq<u16> {
        self.values@
    }

    /// The block of `values` starting at address `start`.
    pub fn new(start: usize, values: &'a [u16]) -> (r: Self)
        requires
            start + values@.len() <= usize::MAX,
        ensures
            r.wf(),
            r.range_spec() == (Range { start, end: (start + values@.len()) as usize }),
            r.values_spec() == values@,
    {
        Self { range: Range::new(start, values.len()), values }
    }

    /// The words of the block.
    pub fn get_values(&self) -> (r: &'a [u16])
        ensures
            r@ == self.values_spec(),
    {
        self.values
    }

    /// The address range of the block.
    pub fn get_range(&self) -> (r: Range)
        ensures
            r == self.range_spec(),
    {
        self.range.clone()
    }
}

} // verus!
