//! A small combinational circuit of two-input AND / OR gates, wired by
//! identifier and evaluated from the two constant signals power and ground.
use vstd::prelude::*;

pub mod circuit;
pub mod gate;

verus! {

} // verus!
