//! The rules validator: a pure predicate deciding whether a proposed action
//! is legal in the current state. It reads the state and never changes it.

use vstd::prelude::*;

use crate::action::Action;
use crate::types::{GameState, Player, Side, Suit};

verus! {

/// Highest price a quote may carry.
pub const MAX_QUOTE_PRICE: u32 = 100;

/// Lowest price a quote may carry.
pub const MIN_QUOTE_PRICE: u32 = 1;

/// The suit count held by the first player carrying the given id, or 0 when
/// no player carries it.
pub open spec fn spec_player_suit_count(players: Seq<Player>, id: Seq<char>, suit: Suit) -> u8
    decreases players.len(),
{
    if players.len() == 0 {
        0
    } else if players.first().info.id@ == id {
        players.first().hand.spec_count(suit)
    } else {
        spec_player_suit_count(players.drop_first(), id, suit)
    }
}

/// What the validator accepts: a quote placement needs a price between
/// `MIN_QUOTE_PRICE` and `MAX_QUOTE_PRICE`, and an offer additionally needs
/// the acting player to hold at least one card of the suit. Every other
/// action is always legal. Cash sufficiency is deliberately not checked.
pub open spec fn spec_is_legal(state: GameState, player: Seq<char>, action: Action) -> bool {
    match action {
        Action::PlaceQuote(q) => {
            &&& MIN_QUOTE_PRICE <= q.price <= MAX_QUOTE_PRICE
            &&& (q.side == Side::Offer ==> spec_player_suit_count(state.players@, player, q.suit)
                > 0)
        },
        _ => true,
    }
}

/// How many cards of the given suit the named player currently holds.
pub fn player_suit_count(state: &GameState, player: &String, suit: Suit) -> (n: u8)
    ensures
        n == spec_player_suit_count(state.players@, player@, suit),
{
    let players = &state.players;
    let ghost all = players@;
    proof {
        assert(all.skip(0) =~= all);
    }
    let mut i: usize = 0;
    while i < players.len()
        invariant
            i <= all.len(),
            players@ == all,
            all == state.players@,
            spec_player_suit_count(all.skip(i as int), player@, suit) == spec_player_suit_count(
                all,
                player@,
                suit,
            ),
        decreases all.len() - i,
    {
        proof {
            assert(all.skip(i as int).first() == all[i as int]);
            assert(all.skip(i as int).drop_first() =~= all.skip(i + 1));
        }
        if players[i].info.id.eq(player) {
            proof {
                assert(spec_player_suit_count(all.skip(i as int), player@, suit) == all[
                    i as int
                ].hand.spec_count(suit));
            }
            return players[i].hand.count(suit);
        }
        i = i + 1;
    }
    proof {
        assert(all.skip(all.len() as int) =~= Seq::<Player>::empty());
    }
    0
}

/// Whether the proposed action is legal for the acting player in the given
/// state. Pure: no side effects, safe to evaluate concurrently.
pub fn is_action_legal(state: &GameState, player: String, action: &Action) -> (r: bool)
    ensures
        r == spec_is_legal(*state, player@, *action),
{
    match action {
        Action::PlaceQuote(q) => {
            if q.price < MIN_QUOTE_PRICE || q.price > MAX_QUOTE_PRICE {
                return false;
            }
            if q.side == Side::Offer {
                if player_suit_count(state, &player, q.suit) == 0 {
                    return false;
                }
            }
            true
        },
        _ => true,
    }
}

} // verus!
