//! Small types shared by the field and group types.
use vstd::prelude::*;

verus! {

/// The base in which a value is written as text.
#[derive(Debug, Clone, Copy, PartialEq, Eq, Structural)]
pub enum Base {
    Dec,
    Hex,
}

impl Base {
    /// The base as a number: ten or sixteen.
    pub open spec fn number(self) -> nat {
        match self {
            Base::Dec => 10,
            Base::Hex => 16,
        }
    }

    /// The base as a number: ten or sixteen.
    pub fn radix(self) -> (r: u64)
        ensures
            r == self.number(),
    {
        match self {
            Base::Dec => 10,
            Base::Hex => 16,
        }
    }
}

} // verus!
