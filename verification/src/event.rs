//! Outbound events the engine emits, and their addressing.

use vstd::prelude::*;

use crate::types::{Player, Quote, Suit};

verus! {

/// A domain event produced by the engine. Every variant is broadcast to all
/// registered participants except `RoundStarted`, which is targeted to the
/// single player it names and carries only that player's own hand and cash.
#[derive(Clone, Debug)]
pub enum Event {
    TradeExecuted { buyer: String, seller: String, suit: Suit, price: u32 },
    QuotePlaced { player: String, quote: Quote },
    QuoteCanceled { player: String, quote: Quote },
    RoundStarted { round_id: u8, server_time: u64, player: Player },
    RoundEnded { round_id: u8, players: Vec<Player>, server_time: u64, goal_suit: Suit },
    GameEnded { players: Vec<Player> },
}

impl Event {
    /// The id of the one intended recipient, or `None` for a broadcast event.
    pub open spec fn spec_target(self) -> Option<Seq<char>> {
        match self {
            Event::RoundStarted { player, .. } => Some(player.info.id@),
            _ => None,
        }
    }

    /// The player a targeted event is addressed to; `None` means broadcast.
    pub fn target_player(&self) -> (r: Option<&String>)
        ensures
            match r {
                Some(id) => self.spec_target() == Some(id@),
                None => self.spec_target() is None,
            },
    {
        match self {
            Event::RoundStarted { player, .. } => Some(&player.info.id),
            _ => None,
        }
    }

    /// Whether this event ends the room: true exactly for `GameEnded`.
    pub fn is_terminal(&self) -> (r: bool)
        ensures
            r == (self matches Event::GameEnded { .. }),
    {
        match self {
            Event::GameEnded { .. } => true,
            _ => false,
        }
    }
}

} // verus!
