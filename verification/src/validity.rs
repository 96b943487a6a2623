//! The validity of all the elements of an array at once.

use vstd::prelude::*;

verus! {

/// Which elements of an array hold a value.
#[derive(Debug)]
pub enum LogicalValidity {
    /// Every one of the given number of elements is valid.
    AllValid(usize),
    /// None of the given number of elements is valid.
    AllInvalid(usize),
    /// Element `i` is valid where flag `i` is `true`.
    Mask(Vec<bool>),
}

impl View for LogicalValidity {
    type V = Seq<bool>;

    open spec fn view(&self) -> Seq<bool> {
        match self {
            LogicalValidity::AllValid(n) => Seq::new(*n as nat, |i: int| true),
            LogicalValidity::AllInvalid(n) => Seq::new(*n as nat, |i: int| false),
            LogicalValidity::Mask(flags) => flags@,
        }
    }
}

impl LogicalValidity {
    /// Number of elements described.
    pub fn len(&self) -> (n: usize)
        ensures
            n == self@.len(),
    {
        match self {
            LogicalValidity::AllValid(n) => *n,
            LogicalValidity::AllInvalid(n) => *n,
            LogicalValidity::Mask(flags) => flags.len(),
        }
    }

    /// Whether element `index` is valid.
    pub fn is_valid(&self, index: usize) -> (b: bool)
        requires
            index < self@.len(),
        ensures
            b == self@[index as int],
    {
        match self {
            LogicalValidity::AllValid(_) => true,
            LogicalValidity::AllInvalid(_) => false,
            LogicalValidity::Mask(flags) => flags[index],
        }
    }
}

} // verus!
