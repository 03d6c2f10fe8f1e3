use vstd::prelude::*;

pub mod ports;
pub mod text;
pub mod wiring;
pub mod graph;
pub mod subgraph;
pub mod nodes;
pub mod lists;
pub mod panels;
pub mod registry;
pub mod inspect;
pub mod clock;

verus! {

} // verus!
