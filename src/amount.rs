use vstd::prelude::*;

verus! {

/// An amount of money in pence
#[derive(Debug, Default, Clone, Copy, Hash, PartialEq, Eq, Structural)]
pub struct Amount {
    pub value: isize,
}

impl Amount {
    /// The amount of `value` pence
    pub fn of_pence(value: isize) -> (r: Self)
        ensures
            r.value == value,
    {
        Amount { value }
    }

    /// True for the zero amount
    pub fn is_zero(&self) -> (r: bool)
        ensures
            r == (self.value == 0),
    {
        self.value == 0
    }

    /// The amount in pence
    pub fn value(&self) -> (r: isize)
        ensures
            r == self.value,
    {
        self.value
    }
}

} // verus!
