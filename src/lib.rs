use vstd::prelude::*;

pub mod client;
pub mod frame;
pub mod mode;
pub mod outcome;
pub mod server;

verus! {

} // verus!
