use vstd::prelude::*;

pub mod bands;
pub mod escape;
pub mod framebuffer;
pub mod palette;

verus! {

} // verus!
