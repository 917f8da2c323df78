use vstd::prelude::*;

pub mod content;
pub mod text;
pub mod collections;
pub mod geometry;
pub mod random;
pub mod input;
pub mod client;
pub mod model;
pub mod present;
pub mod render;
pub mod simulation;

verus! {

} // verus!
pub mod lab;
pub mod laws;
pub mod edge_laws;
pub mod protocol;
