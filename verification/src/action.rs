//! Inbound actions a participant may propose to the engine.

use vstd::prelude::*;

use crate::types::Quote;

verus! {

/// A participant's request to the engine. Quote-carrying actions name their
/// owner inside the quote; `CancelAll` carries the acting player's id
/// directly. The remaining variants are control actions without a payload.
#[derive(Clone, Debug)]
pub enum Action {
    StartRound(u32),
    PlaceQuote(Quote),
    CancelQuote(Quote),
    CancelAll(String),
    EndRound,
    EndGame,
    NoOp,
}

} // verus!
