//! Core of a four-suit card-trading game: a matching/round engine that deals
//! cards, validates and applies trading actions, matches crossing quotes and
//! scores rounds, together with the routing rule of the per-room dispatcher.

pub mod action;
mod clock;
pub mod engine;
pub mod event;
mod rng;
pub mod robot;
pub mod routing;
pub mod rules;
pub mod types;
pub mod utils;
pub mod wire;

use vstd::prelude::*;

verus! {

} // verus!
