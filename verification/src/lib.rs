use vstd::prelude::*;

pub mod generation;
pub mod history;
pub mod paths;
pub mod reply;
pub mod settings;
pub mod smtp;
pub mod text;

verus! {
} // verus!
