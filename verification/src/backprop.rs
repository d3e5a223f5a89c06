use vstd::prelude::*;

verus! {

/// Runs the forward pass, the loss and the backward pass of a network in one
/// call.
#[derive(Clone, Copy, Debug)]
pub struct BackpropEngine;

} // verus!
