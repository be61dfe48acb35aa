use vstd::prelude::*;

pub mod event;
pub mod state;
pub mod output;
pub mod scan;
pub mod roots;
pub mod view;
pub mod models;

verus! {

} // verus!
