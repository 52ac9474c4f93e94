//! The constant pool: an append-only sequence of values, kept in insertion
//! order. The machine treats values as opaque; its arithmetic is supplied by
//! the caller (see `vm`).
use vstd::prelude::*;

verus! {

pub struct ValueArray<V> {
    values: Vec<V>,
}

impl<V> View for ValueArray<V> {
    type V = Seq<V>;

    closed spec fn view(&self) -> Seq<V> {
        self.values@
    }
}

impl<V: Copy> ValueArray<V> {
    /// Number of values stored.
    pub fn count(&self) -> (r: usize)
        ensures
            r == self@.len(),
    {
        self.values.len()
    }

    /// The value stored at `offset`.
    pub fn get(&self, offset: usize) -> (r: V)
        requires
            offset < self@.len(),
        ensures
            r == self@[offset as int],
    {
        self.values[offset]
    }
}

/// An empty pool.
pub fn init_value_array<V>() -> (r: ValueArray<V>)
    ensures
        r@ == Seq::<V>::empty(),
{
    ValueArray { values: Vec::new() }
}

/// Appends `value` at the end of the pool.
pub fn write_value_array<V>(value_array: &mut ValueArray<V>, value: V)
    ensures
        final(value_array)@ == old(value_array)@.push(value),
{
    value_array.values.push(value);
}

} // verus!
