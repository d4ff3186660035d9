use vstd::prelude::*;

verus! {

/// A location in the address space of the target process.
#[derive(Clone, Copy, PartialEq, Eq, Hash, Debug, Structural)]
pub struct Address(pub usize);

impl Address {
    pub fn new(addr: usize) -> (r: Self)
        ensures
            r.0 == addr,
    {
        Address(addr)
    }

    pub fn null() -> (r: Self)
        ensures
            r.0 == 0,
    {
        Address(0)
    }

    pub fn inner(&self) -> (r: usize)
        ensures
            r == self.0,
    {
        self.0
    }

    /// Moves the address forward by `value` bytes.
    pub fn add(&mut self, value: usize)
        requires
            old(self).0 + value <= usize::MAX,
        ensures
            final(self).0 == old(self).0 + value,
    {
        self.0 = self.0 + value;
    }

    /// Moves the address back by `value` bytes.
    pub fn sub(&mut self, value: usize)
        requires
            value <= old(self).0,
        ensures
            final(self).0 == old(self).0 - value,
    {
        self.0 = self.0 - value;
    }
}

} // verus!
