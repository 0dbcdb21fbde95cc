//! Text logic of the owl chat bot: the number reader behind `hoo`, the
//! easter dataset, and the replies of its commands.

pub mod activity;
pub mod barber;
pub mod dataset;
pub mod easter;
pub mod hoo;
pub mod numbers;
pub mod text;

use vstd::prelude::*;

verus! {

/// Per-bot user data, shared by every command invocation.
pub struct Data {}

} // verus!
