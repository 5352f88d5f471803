use vstd::prelude::*;

pub mod text;
pub mod ids;
pub mod queue;
pub mod modifiers;
pub mod client;
pub mod formats;
pub mod executor;
pub mod execution;
pub mod github;
pub mod catalog;
pub mod grading;
pub mod users;
pub mod config;
pub mod runners;
pub mod storage;
pub mod submissions;
pub mod access;
pub mod routes;
pub mod entries;
pub mod report;

verus! {

} // verus!
