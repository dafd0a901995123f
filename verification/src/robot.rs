//! An automated participant's mirrored state: the hand, cash and quote book
//! it believes it has, updated from the events it receives, with the
//! consistency self-check run against the engine-reported standings at round
//! end. The bot's concurrent loop and its decision heuristics live outside
//! the library.

use vstd::prelude::*;

use crate::engine::{
    spec_count_at, spec_has_id, spec_max_goal, CARD_VALUE_PER_GOAL_SUIT, CASH_BOUND, MAX_PLAYERS,
};
use crate::event::Event;
use crate::rules::{MAX_QUOTE_PRICE, MIN_QUOTE_PRICE};
use crate::types::{suit_total, Hand, Player, Quote, Suit};

verus! {

/// What the bot's loop does after an event: resume acting, keep going,
/// pause until the next round, or terminate.
#[derive(Clone, Copy, Debug, Eq, PartialEq, Structural)]
pub enum LoopControl {
    Start,
    Continue,
    Pause,
    Break,
}

/// The bot's locally mirrored hand, cash and resting quotes.
#[derive(Debug)]
pub struct RobotState {
    pub id: String,
    pub hand: Hand,
    pub quotes: Vec<Quote>,
    pub cash: i32,
}

impl RobotState {
    pub fn new(id: String, hand: Hand, cash: i32) -> (r: RobotState)
        ensures
            r.id@ == id@,
            r.hand == hand,
            r.cash == cash,
            r.quotes@ == Seq::<Quote>::empty(),
    {
        RobotState { id, hand, cash, quotes: Vec::new() }
    }
}

/// The hand and cash the bot mirrors after a trade: buying adds the card
/// and pays the price; selling gives a card up and collects the price only
/// while a card is held — a safety guard against a divergent book.
pub open spec fn spec_trade_mirror(
    st: RobotState,
    buyer: Seq<char>,
    seller: Seq<char>,
    suit: Suit,
    price: u32,
) -> (Hand, int) {
    let h1 = if buyer == st.id@ {
        st.hand.spec_add(suit)
    } else {
        st.hand
    };
    let c1 = if buyer == st.id@ {
        st.cash - price
    } else {
        st.cash as int
    };
    let h2 = if seller == st.id@ && h1.spec_count(suit) > 0 {
        h1.spec_remove_saturating(suit)
    } else {
        h1
    };
    let c2 = if seller == st.id@ && h1.spec_count(suit) > 0 {
        c1 + price
    } else {
        c1
    };
    (h2, c2)
}

/// The quote list with every quote equal to `q` on all four fields removed.
pub open spec fn spec_without_same(quotes: Seq<Quote>, q: Quote) -> Seq<Quote>
    decreases quotes.len(),
{
    if quotes.len() == 0 {
        Seq::empty()
    } else {
        let rest = spec_without_same(quotes.drop_last(), q);
        if !quotes.last().spec_same(q) {
            rest.push(quotes.last())
        } else {
            rest
        }
    }
}

/// The first position carrying the given id; meaningful only when one does.
pub open spec fn spec_first_id(players: Seq<Player>, id: Seq<char>) -> int
    decreases players.len(),
{
    if players.len() == 0 {
        0
    } else if players.first().info.id@ == id {
        0
    } else {
        1 + spec_first_id(players.drop_first(), id)
    }
}

/// A position carrying the id, before which none does, is the first one.
proof fn lemma_first_id(players: Seq<Player>, id: Seq<char>, i: int)
    requires
        0 <= i < players.len(),
        players[i].info.id@ == id,
        forall|j: int| 0 <= j < i ==> (#[trigger] players[j]).info.id@ != id,
    ensures
        spec_first_id(players, id) == i,
    decreases players.len(),
{
    if i == 0 {
        assert(players.first() == players[0]);
    } else {
        assert(players.first() == players[0]);
        assert forall|j: int| 0 <= j < i - 1 implies (
        #[trigger] players.drop_first()[j]).info.id@ != id by {
            assert(players.drop_first()[j] == players[j + 1]);
        }
        assert(players.drop_first()[i - 1] == players[i]);
        lemma_first_id(players.drop_first(), id, i - 1);
    }
}

/// The bot's self-check at round end, and the state it adopts when the
/// check passes. The engine-reported player carrying the bot's id must
/// exist, report the hand the bot mirrors, and report exactly the cash the
/// bot computes from its bonus and — when it ties the maximum — its share
/// of the expected remaining pot (100 when 10 goal cards were dealt, 120
/// when 8, otherwise nothing). `None` signals divergence: a bug, not a
/// recoverable path.
pub open spec fn spec_round_check(st: RobotState, players: Seq<Player>, goal: Suit) -> Option<
    Player,
> {
    if !spec_has_id(players, st.id@) {
        None
    } else {
        let ep = players[spec_first_id(players, st.id@)];
        if ep.hand != st.hand {
            None
        } else {
            let myg = st.hand.spec_count(goal) as int;
            let maxg = spec_max_goal(players, goal) as int;
            let total = suit_total(players, goal);
            let wc = spec_count_at(players, goal, spec_max_goal(players, goal));
            let bonus = if total == 10 {
                100int
            } else if total == 8 {
                120int
            } else {
                0int
            };
            let expected = st.cash + myg * (CARD_VALUE_PER_GOAL_SUIT as int) + (if myg == maxg {
                bonus / wc
            } else {
                0int
            });
            if expected == ep.cash {
                Some(ep)
            } else {
                None
            }
        }
    }
}

/// What `apply_event` asks of its caller, so its arithmetic stays inside
/// `i32`: trades carry a validated price and meet bounded local state, and
/// a round-end report is of bounded size.
pub open spec fn spec_apply_ok(st: RobotState, event: Event) -> bool {
    match event {
        Event::TradeExecuted { price, .. } => {
            &&& MIN_QUOTE_PRICE <= price <= MAX_QUOTE_PRICE
            &&& -CASH_BOUND <= st.cash <= CASH_BOUND
            &&& forall|s: Suit| st.hand.spec_count(s) <= 254
        },
        Event::RoundEnded { players, .. } => {
            &&& -CASH_BOUND <= st.cash <= CASH_BOUND
            &&& players@.len() <= MAX_PLAYERS
        },
        _ => true,
    }
}

/// Updates the mirrored state from one received event and says what the
/// bot's loop should do next. `None` reports that the round-end self-check
/// found the local state diverging from the engine's — a bug signal; the
/// state is then left untouched.
pub fn apply_event(state: &mut RobotState, event: Event) -> (r: Option<LoopControl>)
    requires
        spec_apply_ok(*old(state), event),
    ensures
        final(state).id@ == old(state).id@,
        match event {
            Event::TradeExecuted { buyer, seller, suit, price } => {
                let mirrored = spec_trade_mirror(*old(state), buyer@, seller@, suit, price);
                &&& r == Some(LoopControl::Continue)
                &&& final(state).hand == mirrored.0
                &&& final(state).cash == mirrored.1
                &&& final(state).quotes@ == Seq::<Quote>::empty()
            },
            Event::QuotePlaced { player: _, quote } => {
                &&& r == Some(LoopControl::Continue)
                &&& final(state).quotes@ == old(state).quotes@.push(quote)
                &&& final(state).hand == old(state).hand
                &&& final(state).cash == old(state).cash
            },
            Event::QuoteCanceled { player: _, quote } => {
                &&& r == Some(LoopControl::Continue)
                &&& final(state).quotes@ == spec_without_same(old(state).quotes@, quote)
                &&& final(state).hand == old(state).hand
                &&& final(state).cash == old(state).cash
            },
            Event::RoundStarted { round_id: _, server_time: _, player } => {
                &&& r == Some(LoopControl::Start)
                &&& final(state).hand == player.hand
                &&& final(state).cash == player.cash
                &&& final(state).quotes@ == Seq::<Quote>::empty()
            },
            Event::RoundEnded { round_id: _, players, server_time: _, goal_suit } => {
                match spec_round_check(*old(state), players@, goal_suit) {
                    Some(ep) => {
                        &&& r == Some(LoopControl::Pause)
                        &&& final(state).hand == ep.hand
                        &&& final(state).cash == ep.cash
                        &&& final(state).quotes@ == Seq::<Quote>::empty()
                    },
                    None => r is None && *final(state) == *old(state),
                }
            },
            Event::GameEnded { players: _ } => {
                &&& r == Some(LoopControl::Break)
                &&& final(state).quotes@ == Seq::<Quote>::empty()
                &&& final(state).hand == old(state).hand
                &&& final(state).cash == old(state).cash
            },
        },
{
    match event {
        Event::TradeExecuted { buyer, seller, suit, price } => {
            if buyer.eq(&state.id) {
                state.hand.add(suit);
                state.cash = state.cash - (price as i32);
            }
            if seller.eq(&state.id) {
                if state.hand.count(suit) > 0 {
                    state.hand.remove_saturating(suit);
                    state.cash = state.cash + (price as i32);
                }
            }
            state.quotes = Vec::new();
            Some(LoopControl::Continue)
        },
        Event::QuotePlaced { player: _, quote } => {
            state.quotes.push(quote);
            Some(LoopControl::Continue)
        },
        Event::QuoteCanceled { player: _, quote } => {
            let ghost book = state.quotes@;
            let n = state.quotes.len();
            let mut kept: Vec<Quote> = Vec::new();
            let mut i: usize = 0;
            proof {
                assert(book.take(0) =~= Seq::<Quote>::empty());
            }
            while i < n
                invariant
                    n == state.quotes@.len(),
                    i <= n,
                    state.quotes@ == book,
                    kept@ == spec_without_same(book.take(i as int), quote),
                decreases n - i,
            {
                proof {
                    assert(book.take(i + 1).drop_last() =~= book.take(i as int));
                    assert(book.take(i + 1).last() == book[i as int]);
                }
                if !state.quotes[i].same(&quote) {
                    kept.push(state.quotes[i].clone());
                }
                i = i + 1;
            }
            proof {
                assert(book.take(n as int) =~= book);
            }
            state.quotes = kept;
            Some(LoopControl::Continue)
        },
        Event::RoundStarted { round_id: _, server_time: _, player } => {
            state.hand = player.hand;
            state.cash = player.cash;
            state.quotes = Vec::new();
            Some(LoopControl::Start)
        },
        Event::RoundEnded { round_id: _, players, server_time: _, goal_suit } => {
            let goal = goal_suit;
            let ghost all = players@;
            let idx = match crate::types::find_player_idx(&players, &state.id) {
                Some(i) => i,
                None => {
                    return None;
                },
            };
            proof {
                lemma_first_id(all, state.id@, idx as int);
                assert(spec_has_id(all, state.id@));
            }
            let ep_hand = players[idx].hand;
            let ep_cash = players[idx].cash;
            if !(ep_hand == state.hand) {
                return None;
            }
            let n = players.len();
            proof {
                assert(all.take(0) =~= Seq::<Player>::empty());
            }
            // the engine-side maximum, tie count and dealt total
            let mut maxg: u8 = 0;
            let mut i: usize = 0;
            while i < n
                invariant
                    n == all.len(),
                    all == players@,
                    i <= n,
                    maxg == spec_max_goal(all.take(i as int), goal),
                decreases n - i,
            {
                proof {
                    assert(all.take(i + 1).drop_last() =~= all.take(i as int));
                    assert(all.take(i + 1).last() == all[i as int]);
                }
                let c = players[i].hand.count(goal);
                if c > maxg {
                    maxg = c;
                }
                i = i + 1;
            }
            let mut wc: usize = 0;
            i = 0;
            while i < n
                invariant
                    n == all.len(),
                    all == players@,
                    i <= n,
                    wc <= i,
                    wc == crate::engine::spec_count_at(all.take(i as int), goal, maxg),
                decreases n - i,
            {
                proof {
                    assert(all.take(i + 1).drop_last() =~= all.take(i as int));
                    assert(all.take(i + 1).last() == all[i as int]);
                }
                if players[i].hand.count(goal) == maxg {
                    wc = wc + 1;
                }
                i = i + 1;
            }
            let mut total: u32 = 0;
            i = 0;
            while i < n
                invariant
                    n == all.len(),
                    all == players@,
                    n <= MAX_PLAYERS,
                    i <= n,
                    total == suit_total(all.take(i as int), goal),
                    total <= 255 * i,
                decreases n - i,
            {
                proof {
                    assert(all.take(i + 1).drop_last() =~= all.take(i as int));
                    assert(all.take(i + 1).last() == all[i as int]);
                }
                total = total + players[i].hand.count(goal) as u32;
                i = i + 1;
            }
            proof {
                assert(all.take(n as int) =~= all);
            }
            let myg = state.hand.count(goal);
            let bonus: i32 = if total == 10 {
                100
            } else if total == 8 {
                120
            } else {
                0
            };
            let mut cash2: i32 = state.cash + (myg as i32) * CARD_VALUE_PER_GOAL_SUIT;
            if myg == maxg {
                proof {
                    crate::engine::lemma_count_at_member(all, goal, idx as int);
                }
                cash2 = cash2 + bonus / (wc as i32);
            }
            if cash2 == ep_cash {
                state.hand = ep_hand;
                state.cash = ep_cash;
                state.quotes = Vec::new();
                Some(LoopControl::Pause)
            } else {
                None
            }
        },
        Event::GameEnded { players: _ } => {
            state.quotes = Vec::new();
            Some(LoopControl::Break)
        },
    }
}

/// Checks `spec_apply_ok` at run time, for the loop outside verified code.
pub fn can_apply(state: &RobotState, event: &Event) -> (r: bool)
    ensures
        r == spec_apply_ok(*state, *event),
{
    match event {
        Event::TradeExecuted { price, .. } => {
            if *price < MIN_QUOTE_PRICE || *price > MAX_QUOTE_PRICE {
                return false;
            }
            if state.cash < -CASH_BOUND || state.cash > CASH_BOUND {
                return false;
            }
            if state.hand.spades > 254 {
                proof {
                    assert(state.hand.spec_count(Suit::Spade) > 254);
                }
                return false;
            }
            if state.hand.hearts > 254 {
                proof {
                    assert(state.hand.spec_count(Suit::Heart) > 254);
                }
                return false;
            }
            if state.hand.diamonds > 254 {
                proof {
                    assert(state.hand.spec_count(Suit::Diamond) > 254);
                }
                return false;
            }
            if state.hand.clubs > 254 {
                proof {
                    assert(state.hand.spec_count(Suit::Club) > 254);
                }
                return false;
            }
            true
        },
        Event::RoundEnded { players, .. } => {
            state.cash >= -CASH_BOUND && state.cash <= CASH_BOUND && players.len() <= MAX_PLAYERS
        },
        _ => true,
    }
}

} // verus!
