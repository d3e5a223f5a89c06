use vstd::prelude::*;

verus! {

/// The loss functions a network can be trained against.
#[derive(Clone, Copy, Debug, PartialEq, Eq, Structural)]
pub enum Loss {
    MSE,
    CrossEntropy,
    BinaryCrossEntropy,
    Hinge,
}

} // verus!
