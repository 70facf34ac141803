use vstd::prelude::*;

pub mod cmd;
pub mod connect;
pub mod entity;
pub mod utils;

pub use cmd::Command;

verus! {

/// Port on which the server listens unless told otherwise.
pub const DEFAULT_PORT: u16 = 6379;

} // verus!
