use vstd::prelude::*;

pub mod account;
pub mod calendar;
pub mod cli;
pub mod client;
pub mod commands;
pub mod config;
pub mod error;
pub mod paths;
pub mod profile_map;
pub mod text;
pub mod zip;

verus! {

} // verus!
