//! A small process supervisor: a line-oriented command grammar parsed into an
//! ordered command model, plus the decisions of the supervision loop.
use vstd::prelude::*;

pub mod config;
pub mod log;
pub mod procfile;
pub mod supervisor;
pub mod text;

verus! {

} // verus!
