//! A typed client for the netfilter set-management library.
//!
//! The library holds the logic of the client: the data types that a set
//! stores with their text forms, the set-type registry, the plans of option
//! writes that each command makes, the reading of list output, and the
//! classification of native failures into negative answers and errors.
use vstd::prelude::*;

pub mod data;
pub mod element;
pub mod error;
pub mod ipv6;
pub mod listing;
pub mod protocol;
pub mod sets;
pub mod settype;
pub mod text;

verus! {

} // verus!
