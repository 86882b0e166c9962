use vstd::prelude::*;

pub mod error;
pub mod layout;
pub mod sums;
pub mod meta;
pub mod fits;
pub mod value;
pub mod tensor;
pub mod access;
pub mod unary;
pub mod conv;
pub mod grad;
pub mod display;
pub mod matmul;
pub mod scalar;
pub mod broadcast;
pub mod laws;
pub mod view_as;
pub mod io;
pub mod pad;
pub mod backward;
pub mod equal;
pub mod derivative;
pub mod train;

verus! {

} // verus!
