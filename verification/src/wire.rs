//! Plain shapes of the requests arriving over the wire, and their
//! conversion into engine actions. The transport keeps its own serialisable
//! copies of these types and converts at the boundary.

use vstd::prelude::*;

use crate::action::Action;
use crate::types::{Quote, Side, Suit};

verus! {

/// One player as the lobby announces it.
#[derive(Clone, Debug)]
pub struct PlayerInfo {
    pub id: String,
    pub name: String,
}

/// A request to open a room and start a game.
#[derive(Debug)]
pub struct StartGameRequest {
    pub room_name: String,
    pub room_id: String,
    pub players: Vec<PlayerInfo>,
}

/// An action as the wire carries it, with suit and side still as names.
#[derive(Debug)]
pub enum ActionView {
    PlaceQuote { player_id: String, suit: String, side: String, price: u32 },
    CancelQuote { player_id: String, suit: String, side: String, price: u32 },
    StartRound { round_id: u32, room_id: String },
    EndRound { round_id: u32, room_id: String },
    EndGame { round_id: u32, room_id: String, player_id: String },
}

impl Action {
    /// Converts a wire-shaped action into an engine action; a quote action
    /// with an unknown suit or side name is rejected with the parser's
    /// error.
    pub fn try_from(view: ActionView) -> (r: Result<Action, &'static str>)
        ensures
            match view {
                ActionView::PlaceQuote { player_id, suit, side, price } => {
                    match (Suit::spec_of_name(suit@), Side::spec_of_name(side@)) {
                        (Some(su), Some(sd)) => r matches Ok(a) && (a matches Action::PlaceQuote(
                            q,
                        ) && q.player_id@ == player_id@ && q.suit == su && q.side == sd && q.price
                            == price),
                        _ => r is Err,
                    }
                },
                ActionView::CancelQuote { player_id, suit, side, price } => {
                    match (Suit::spec_of_name(suit@), Side::spec_of_name(side@)) {
                        (Some(su), Some(sd)) => r matches Ok(a) && (a matches Action::CancelQuote(
                            q,
                        ) && q.player_id@ == player_id@ && q.suit == su && q.side == sd && q.price
                            == price),
                        _ => r is Err,
                    }
                },
                ActionView::StartRound { round_id, .. } => r == Ok::<Action, &'static str>(
                    Action::StartRound(round_id),
                ),
                ActionView::EndRound { .. } => r == Ok::<Action, &'static str>(Action::EndRound),
                ActionView::EndGame { .. } => r == Ok::<Action, &'static str>(Action::EndGame),
            },
    {
        match view {
            ActionView::PlaceQuote { player_id, suit, side, price } => {
                let suit = match Suit::from_str(suit.as_str()) {
                    Ok(s) => s,
                    Err(e) => {
                        return Err(e);
                    },
                };
                let side = match Side::from_str(side.as_str()) {
                    Ok(s) => s,
                    Err(e) => {
                        return Err(e);
                    },
                };
                Ok(Action::PlaceQuote(Quote { player_id, suit, side, price }))
            },
            ActionView::CancelQuote { player_id, suit, side, price } => {
                let suit = match Suit::from_str(suit.as_str()) {
                    Ok(s) => s,
                    Err(e) => {
                        return Err(e);
                    },
                };
                let side = match Side::from_str(side.as_str()) {
                    Ok(s) => s,
                    Err(e) => {
                        return Err(e);
                    },
                };
                Ok(Action::CancelQuote(Quote { player_id, suit, side, price }))
            },
            ActionView::EndGame { .. } => Ok(Action::EndGame),
            ActionView::EndRound { .. } => Ok(Action::EndRound),
            ActionView::StartRound { round_id, .. } => Ok(Action::StartRound(round_id)),
        }
    }
}

} // verus!
