//! The round/matching engine: it owns one game's state, deals cards, applies
//! legal actions, matches crossing quotes, scores rounds and produces domain
//! events.

use vstd::prelude::*;

use crate::action::Action;
use crate::event::Event;
use crate::rules::{is_action_legal, spec_is_legal, MAX_QUOTE_PRICE};
use crate::types::{
    book_unique, clone_players, lemma_suit_total_member, lemma_suit_total_update, suit_total,
    unique_ids, GameState, Hand, Info, Player, Quote, Side, Suit,
};
use crate::utils::{
    find_matching_quote_idx, lemma_first_cross, lemma_first_cross_props, spec_first_cross,
    spec_has_match,
};

verus! {

/// Cash paid from the pot for each goal-suit card held at round end.
pub const CARD_VALUE_PER_GOAL_SUIT: i32 = 10;

/// Bound on every cash balance the engine is asked to work on; it keeps all
/// settlement arithmetic inside `i32`.
pub const CASH_BOUND: i32 = 1_000_000_000;

/// Bound on the configured pot, for the same reason.
pub const MAX_POT: u32 = 1_000_000_000;

/// Bound on the number of players of one game.
pub const MAX_PLAYERS: usize = 1000;

/// Every configured player id occurs at most once.
pub open spec fn unique_info_ids(infos: Seq<Info>) -> bool {
    forall|i: int, j: int| 0 <= i < j < infos.len() ==> infos[i].id@ != infos[j].id@
}

/// Fixed, per-room configuration supplied by the lobby before the game
/// starts.
#[derive(Clone, Debug)]
pub struct GameConfig {
    pub room_name: String,
    pub room_id: String,
    pub players: Vec<Info>,
    pub starting_cash: u32,
    pub ante_amount: u32,
    pub pot: u32,
    pub trading_duration_secs: u32,
}

impl GameConfig {
    /// What the engine requires of a configuration: at least one player and
    /// at most `MAX_PLAYERS`, unique ids, an ante covered by the starting
    /// cash, and amounts small enough that settlement stays inside `i32`.
    pub open spec fn wf(self) -> bool {
        &&& 1 <= self.players@.len() <= MAX_PLAYERS
        &&& self.ante_amount <= self.starting_cash
        &&& self.starting_cash <= CASH_BOUND as u32
        &&& self.pot <= MAX_POT
        &&& unique_info_ids(self.players@)
    }

    /// Checks `wf` at run time, for callers outside verified code.
    pub fn is_valid(&self) -> (r: bool)
        ensures
            r == self.wf(),
    {
        let n = self.players.len();
        if n < 1 || n > MAX_PLAYERS {
            return false;
        }
        if self.ante_amount > self.starting_cash {
            return false;
        }
        if self.starting_cash > CASH_BOUND as u32 {
            return false;
        }
        if self.pot > MAX_POT {
            return false;
        }
        let mut i: usize = 0;
        while i < n
            invariant
                n == self.players@.len(),
                i <= n,
                forall|a: int, b: int| 0 <= a < b < i ==> self.players@[a].id@ != self.players@[b].id@,
                forall|a: int, b: int|
                    0 <= a < i && i <= b < n ==> self.players@[a].id@ != self.players@[b].id@,
            decreases n - i,
        {
            let mut j: usize = i + 1;
            while j < n
                invariant
                    n == self.players@.len(),
                    i < j || j == i + 1,
                    i < n,
                    i + 1 <= j <= n,
                    forall|b: int| i < b < j ==> self.players@[i as int].id@ != self.players@[b].id@,
                decreases n - j,
            {
                if self.players[i].id.eq(&self.players[j].id) {
                    return false;
                }
                j = j + 1;
            }
            i = i + 1;
        }
        true
    }
}

/// One game: round number, configuration, the round's suit assignment and
/// the mutable trading state.
#[derive(Debug)]
pub struct Game {
    pub round: u32,
    pub game_config: GameConfig,
    pub common_suit: Suit,
    pub goal_suit: Suit,
    pub state: GameState,
}

impl Game {
    /// Structural well-formedness kept across every operation: a valid
    /// configuration, unique player ids, a book with at most one quote per
    /// (suit, side), the player list of the configured length, and the goal
    /// suit derived from the common suit.
    pub open spec fn wf(self) -> bool {
        &&& self.game_config.wf()
        &&& self.state.wf()
        &&& self.state.players@.len() == self.game_config.players@.len()
        &&& self.goal_suit == self.common_suit.spec_color_partner()
    }

    /// All cash balances lie within `CASH_BOUND`; trades and settlement then
    /// cannot overflow.
    pub open spec fn cash_ok(self) -> bool {
        forall|i: int|
            0 <= i < self.state.players@.len() ==> -CASH_BOUND <= (#[trigger] self.state.players@[
                i
            ]).cash <= CASH_BOUND
    }

    /// All hand counts lie below 255; a buyer can then always take a card.
    pub open spec fn hands_ok(self) -> bool {
        forall|i: int, s: Suit|
            0 <= i < self.state.players@.len() ==> (#[trigger] self.state.players@[
                i
            ].hand.spec_count(s)) <= 254
    }

    /// Checks `cash_ok` and `hands_ok` at run time, for callers outside
    /// verified code that must re-establish them between actions.
    pub fn within_limits(&self) -> (r: bool)
        ensures
            r == (self.cash_ok() && self.hands_ok()),
    {
        let n = self.state.players.len();
        let mut i: usize = 0;
        while i < n
            invariant
                n == self.state.players@.len(),
                i <= n,
                forall|k: int|
                    0 <= k < i ==> -CASH_BOUND <= (#[trigger] self.state.players@[k]).cash
                        <= CASH_BOUND,
                forall|k: int, s: Suit|
                    0 <= k < i ==> (#[trigger] self.state.players@[k].hand.spec_count(s)) <= 254,
            decreases n - i,
        {
            let p = &self.state.players[i];
            if p.cash < -CASH_BOUND || p.cash > CASH_BOUND {
                return false;
            }
            if p.hand.spades > 254 {
                proof {
                    assert(self.state.players@[i as int].hand.spec_count(Suit::Spade) > 254);
                }
                return false;
            }
            if p.hand.hearts > 254 {
                proof {
                    assert(self.state.players@[i as int].hand.spec_count(Suit::Heart) > 254);
                }
                return false;
            }
            if p.hand.diamonds > 254 {
                proof {
                    assert(self.state.players@[i as int].hand.spec_count(Suit::Diamond) > 254);
                }
                return false;
            }
            if p.hand.clubs > 254 {
                proof {
                    assert(self.state.players@[i as int].hand.spec_count(Suit::Club) > 254);
                }
                return false;
            }
            proof {
                assert(forall|s: Suit|
                    (#[trigger] self.state.players@[i as int].hand.spec_count(s)) <= 254);
            }
            i = i + 1;
        }
        true
    }
}

/// The player as the trade leaves it: the buyer pays the price and takes one
/// card of the suit; the seller is credited the price and gives up one card
/// of the suit if any is held. Anyone else is untouched. The two steps are
/// applied in sequence, exactly as the engine walks the player list.
pub open spec fn spec_traded_player(
    p: Player,
    buyer: Seq<char>,
    seller: Seq<char>,
    suit: Suit,
    price: u32,
) -> Player {
    let p1 = if p.info.id@ == buyer {
        Player { cash: (p.cash - price) as i32, hand: p.hand.spec_add(suit), ..p }
    } else {
        p
    };
    if p1.info.id@ == seller {
        Player { cash: (p1.cash + price) as i32, hand: p1.hand.spec_remove_saturating(suit), ..p1 }
    } else {
        p1
    }
}

/// The player list after a trade: every player mapped through
/// `spec_traded_player`.
pub open spec fn spec_trade_applied(
    pre: Seq<Player>,
    post: Seq<Player>,
    buyer: Seq<char>,
    seller: Seq<char>,
    suit: Suit,
    price: u32,
) -> bool {
    &&& post.len() == pre.len()
    &&& forall|i: int|
        0 <= i < pre.len() ==> #[trigger] post[i] == spec_traded_player(
            pre[i],
            buyer,
            seller,
            suit,
            price,
        )
}

/// Whether an incoming quote displaces a resting quote on the same (suit,
/// side) slot: a strictly higher bid, or a strictly lower offer.
pub open spec fn spec_improves(q: Quote, resting: Quote) -> bool {
    if q.side == Side::Bid {
        q.price > resting.price
    } else {
        q.price < resting.price
    }
}

/// Whether some resting quote occupies the (suit, side) slot of `q`.
pub open spec fn spec_slot_taken(quotes: Seq<Quote>, q: Quote) -> bool {
    exists|k: int| 0 <= k < quotes.len() && (#[trigger] quotes[k]).spec_same_slot(q)
}

/// The index occupying the slot of `q`; under `book_unique` it is unique.
pub open spec fn spec_slot_idx(quotes: Seq<Quote>, q: Quote) -> int {
    choose|k: int| 0 <= k < quotes.len() && (#[trigger] quotes[k]).spec_same_slot(q)
}

/// The trade event a cross produces: the bid side buys, the offer side
/// sells, at the incoming quote's suit and price.
pub open spec fn spec_trade_event(q: Quote, matched: Quote) -> Event {
    if q.side == Side::Bid {
        Event::TradeExecuted {
            buyer: q.player_id,
            seller: matched.player_id,
            suit: q.suit,
            price: q.price,
        }
    } else {
        Event::TradeExecuted {
            buyer: matched.player_id,
            seller: q.player_id,
            suit: q.suit,
            price: q.price,
        }
    }
}

/// Everything a legal quote placement does. A cross with the first matching
/// resting quote removes it, settles the trade and broadcasts one
/// `TradeExecuted`. Otherwise the book is maintained: an empty (suit, side)
/// slot takes the quote, an occupied slot is replaced only on a strictly
/// better price, and anything else leaves the book unchanged with no event.
pub open spec fn spec_place_post(pre: Game, q: Quote, post: Game, events: Seq<Event>) -> bool {
    let book = pre.state.quotes@;
    if spec_has_match(book, q) {
        let i = spec_first_cross(book, q);
        let matched = book[i];
        let buyer = if q.side == Side::Bid {
            q.player_id@
        } else {
            matched.player_id@
        };
        let seller = if q.side == Side::Bid {
            matched.player_id@
        } else {
            q.player_id@
        };
        &&& post.state.quotes@ == book.remove(i)
        &&& spec_trade_applied(pre.state.players@, post.state.players@, buyer, seller, q.suit, q.price)
        &&& events == seq![spec_trade_event(q, matched)]
    } else {
        &&& post.state.players@ == pre.state.players@
        &&& if spec_slot_taken(book, q) {
            if spec_improves(q, book[spec_slot_idx(book, q)]) {
                &&& post.state.quotes@ == book.remove(spec_slot_idx(book, q)).push(q)
                &&& events == seq![Event::QuotePlaced { player: q.player_id, quote: q }]
            } else {
                &&& post.state.quotes@ == book
                &&& events == Seq::<Event>::empty()
            }
        } else {
            &&& post.state.quotes@ == book.push(q)
            &&& events == seq![Event::QuotePlaced { player: q.player_id, quote: q }]
        }
    }
}

/// Whether some resting quote agrees with `q` on all four fields.
pub open spec fn spec_exact_match(quotes: Seq<Quote>, q: Quote) -> bool {
    exists|k: int| 0 <= k < quotes.len() && (#[trigger] quotes[k]).spec_same(q)
}

/// The index of the resting quote equal to `q`; under `book_unique` it is
/// unique.
pub open spec fn spec_exact_idx(quotes: Seq<Quote>, q: Quote) -> int {
    choose|k: int| 0 <= k < quotes.len() && (#[trigger] quotes[k]).spec_same(q)
}

/// Everything a cancellation does: the exact (owner, suit, side, price)
/// match is removed and one `QuoteCanceled` broadcast; without a match,
/// nothing changes and nothing is emitted.
pub open spec fn spec_cancel_post(pre: Game, q: Quote, post: Game, events: Seq<Event>) -> bool {
    &&& post.state.players@ == pre.state.players@
    &&& if spec_exact_match(pre.state.quotes@, q) {
        &&& post.state.quotes@ == pre.state.quotes@.remove(
            spec_exact_idx(pre.state.quotes@, q),
        )
        &&& events == seq![Event::QuoteCanceled { player: q.player_id, quote: q }]
    } else {
        &&& post.state.quotes@ == pre.state.quotes@
        &&& events == Seq::<Event>::empty()
    }
}

/// The book with every quote of the given owner removed, keeping the order
/// of the rest.
pub open spec fn spec_without_owner(quotes: Seq<Quote>, pid: Seq<char>) -> Seq<Quote>
    decreases quotes.len(),
{
    if quotes.len() == 0 {
        Seq::empty()
    } else {
        let rest = spec_without_owner(quotes.drop_last(), pid);
        if quotes.last().player_id@ != pid {
            rest.push(quotes.last())
        } else {
            rest
        }
    }
}

/// Everything `CancelAll` does: every quote of the acting player leaves the
/// book; no event is emitted.
pub open spec fn spec_cancel_all_post(pre: Game, pid: Seq<char>, post: Game, events: Seq<Event>) -> bool {
    &&& post.state.players@ == pre.state.players@
    &&& post.state.quotes@ == spec_without_owner(pre.state.quotes@, pid)
    &&& events == Seq::<Event>::empty()
}

/// Dropping one owner's quotes keeps the book free of duplicate slots, and
/// every kept quote is one of the original quotes.
proof fn lemma_without_owner_props(quotes: Seq<Quote>, pid: Seq<char>)
    requires
        book_unique(quotes),
    ensures
        book_unique(spec_without_owner(quotes, pid)),
        forall|k: int|
            0 <= k < spec_without_owner(quotes, pid).len() ==> quotes.contains(
                #[trigger] spec_without_owner(quotes, pid)[k],
            ),
    decreases quotes.len(),
{
    let out = spec_without_owner(quotes, pid);
    if quotes.len() > 0 {
        let prefix = quotes.drop_last();
        assert(book_unique(prefix)) by {
            assert(forall|a: int, b: int|
                0 <= a < b < prefix.len() ==> prefix[a] == quotes[a] && prefix[b] == quotes[b]);
        }
        lemma_without_owner_props(prefix, pid);
        let rest = spec_without_owner(prefix, pid);
        assert forall|k: int| 0 <= k < rest.len() implies quotes.contains(#[trigger] rest[k]) by {
            let j = choose|j: int| 0 <= j < prefix.len() && prefix[j] == rest[k];
            assert(quotes[j] == rest[k]);
        }
        if quotes.last().player_id@ != pid {
            assert(out == rest.push(quotes.last()));
            assert forall|a: int, b: int| 0 <= a < b < out.len() implies !(
            #[trigger] out[a]).spec_same_slot(#[trigger] out[b]) by {
                if b < rest.len() {
                    assert(out[a] == rest[a] && out[b] == rest[b]);
                } else {
                    assert(out[b] == quotes.last());
                    assert(out[a] == rest[a]);
                    let j = choose|j: int| 0 <= j < prefix.len() && prefix[j] == rest[a];
                    assert(quotes[j] == rest[a]);
                    assert(!quotes[j].spec_same_slot(quotes[quotes.len() - 1]));
                }
            }
            assert forall|k: int| 0 <= k < out.len() implies quotes.contains(#[trigger] out[k]) by {
                if k < rest.len() {
                    assert(out[k] == rest[k]);
                } else {
                    assert(out[k] == quotes[quotes.len() - 1]);
                }
            }
        }
    }
}

/// Number of cards of the given suit in a deck.
pub open spec fn count_suit(deck: Seq<Suit>, s: Suit) -> int
    decreases deck.len(),
{
    if deck.len() == 0 {
        0
    } else {
        count_suit(deck.drop_last(), s) + if deck.last() == s {
            1int
        } else {
            0int
        }
    }
}

/// A suit count is never negative.
proof fn lemma_count_suit_nonneg(deck: Seq<Suit>, s: Suit)
    ensures
        count_suit(deck, s) >= 0,
    decreases deck.len(),
{
    if deck.len() > 0 {
        lemma_count_suit_nonneg(deck.drop_last(), s);
    }
}

/// Counting a suit agrees with the deck's multiset, so a shuffle keeps every
/// suit count.
proof fn lemma_count_suit_multiset(deck: Seq<Suit>, s: Suit)
    ensures
        count_suit(deck, s) == deck.to_multiset().count(s),
    decreases deck.len(),
{
    broadcast use vstd::seq_lib::group_to_multiset_ensures;
    broadcast use vstd::multiset::group_multiset_axioms;

    if deck.len() == 0 {
        assert(deck.to_multiset().len() == 0);
        assert(deck.to_multiset().count(s) == 0);
    } else {
        lemma_count_suit_multiset(deck.drop_last(), s);
        assert(deck =~= deck.drop_last().push(deck.last()));
        assert(deck.drop_last().push(deck.last()).to_multiset() =~= deck.drop_last().to_multiset().insert(
            deck.last(),
        ));
    }
}

/// A prefix never counts more of a suit than the whole deck.
proof fn lemma_count_suit_take_le(deck: Seq<Suit>, j: int, s: Suit)
    requires
        0 <= j <= deck.len(),
    ensures
        0 <= count_suit(deck.take(j), s) <= count_suit(deck, s),
    decreases deck.len(),
{
    if j == deck.len() {
        assert(deck.take(j) =~= deck);
        lemma_count_suit_nonneg(deck, s);
    } else {
        assert(deck.take(j) =~= deck.drop_last().take(j));
        lemma_count_suit_take_le(deck.drop_last(), j, s);
    }
}

/// A length-4 suit sequence with the multiset of all four suits holds each
/// suit exactly once.
proof fn lemma_suits_distinct(suits: Seq<Suit>)
    requires
        suits.len() == 4,
        suits.to_multiset() == seq![Suit::Spade, Suit::Heart, Suit::Diamond, Suit::Club].to_multiset(),
    ensures
        forall|i: int, j: int| 0 <= i < j < 4 ==> suits[i] != suits[j],
        forall|s: Suit| suits.contains(s),
{
    broadcast use vstd::seq_lib::group_to_multiset_ensures;
    broadcast use vstd::multiset::group_multiset_axioms;

    let base = seq![Suit::Spade, Suit::Heart, Suit::Diamond, Suit::Club];
    assert(base =~= Seq::<Suit>::empty().push(Suit::Spade).push(Suit::Heart).push(
        Suit::Diamond,
    ).push(Suit::Club));
    assert(Seq::<Suit>::empty().to_multiset().len() == 0);
    assert forall|s: Suit| Seq::<Suit>::empty().to_multiset().count(s) == 0 by {}
    assert forall|s: Suit| base.to_multiset().count(s) == 1 by {
        let e = Seq::<Suit>::empty();
        assert(e.push(Suit::Spade).to_multiset() =~= e.to_multiset().insert(Suit::Spade));
        assert(e.push(Suit::Spade).push(Suit::Heart).to_multiset() =~= e.push(
            Suit::Spade,
        ).to_multiset().insert(Suit::Heart));
        assert(e.push(Suit::Spade).push(Suit::Heart).push(Suit::Diamond).to_multiset() =~= e.push(
            Suit::Spade,
        ).push(Suit::Heart).to_multiset().insert(Suit::Diamond));
        assert(base.to_multiset() =~= e.push(Suit::Spade).push(Suit::Heart).push(
            Suit::Diamond,
        ).to_multiset().insert(Suit::Club));
    }
    assert forall|s: Suit| suits.contains(s) by {
        assert(suits.to_multiset().count(s) == 1);
    }
    assert forall|i: int, j: int| 0 <= i < j < 4 implies suits[i] != suits[j] by {
        if suits[i] == suits[j] {
            let shorter = suits.remove(i);
            assert(shorter.to_multiset() == suits.to_multiset().remove(suits[i]));
            assert(shorter[j - 1] == suits[j]);
            assert(shorter.contains(suits[j]));
            assert(shorter.to_multiset().count(suits[j]) > 0);
            assert(suits.to_multiset().count(suits[j]) == 1);
            assert(false);
        }
    }
}

/// Division and modulo after one more step of a round-robin walk.
proof fn lemma_div_mod_succ(j: int, n: int)
    requires
        0 <= j,
        1 <= n,
    ensures
        j % n == n - 1 ==> (j + 1) / n == j / n + 1 && (j + 1) % n == 0,
        j % n < n - 1 ==> (j + 1) / n == j / n && (j + 1) % n == j % n + 1,
{
    vstd::arithmetic::div_mod::lemma_fundamental_div_mod(j, n);
    vstd::arithmetic::div_mod::lemma_mod_bound(j, n);
    assert(n * (j / n) == (j / n) * n) by (nonlinear_arith);
    assert((j / n + 1) * n == (j / n) * n + n) by (nonlinear_arith);
    if j % n == n - 1 {
        assert(j + 1 == (j / n + 1) * n + 0);
        vstd::arithmetic::div_mod::lemma_fundamental_div_mod_converse(j + 1, n, j / n + 1, 0);
    } else {
        assert(j + 1 == (j / n) * n + (j % n + 1));
        vstd::arithmetic::div_mod::lemma_fundamental_div_mod_converse(j + 1, n, j / n, j % n + 1);
    }
}

/// What a fresh deal guarantees, whatever permutation the shuffles produce:
/// identities and cash are untouched, the goal suit is the common suit's
/// colour partner, the common suit has 12 cards dealt, one other suit 8 and
/// the remaining two 10 each, and the 40 cards go round-robin so hand sizes
/// differ by at most one.
pub open spec fn spec_deal_post(pre: Seq<Player>, post: Seq<Player>, common: Suit, goal: Suit) -> bool {
    let n = pre.len() as int;
    &&& goal == common.spec_color_partner()
    &&& post.len() == pre.len()
    &&& forall|i: int|
        0 <= i < n ==> (#[trigger] post[i]).info == pre[i].info && post[i].cash == pre[i].cash
    &&& suit_total(post, common) == 12
    &&& exists|t: Suit|
        t != common && #[trigger] suit_total(post, t) == 8 && (forall|u: Suit|
            u != common && u != t ==> #[trigger] suit_total(post, u) == 10)
    &&& forall|i: int|
        0 <= i < n ==> (#[trigger] post[i]).hand.spec_total() == 40int / n + (if i < 40int % n {
            1int
        } else {
            0int
        })
    &&& forall|i: int, s: Suit| 0 <= i < n ==> (#[trigger] post[i].hand.spec_count(s)) <= 12
}

/// Hands that all hold zero of a suit total zero of it.
proof fn lemma_suit_total_all_zero(players: Seq<Player>, s: Suit)
    requires
        forall|k: int|
            0 <= k < players.len() ==> (#[trigger] players[k]).hand.spec_count(s) == 0,
    ensures
        suit_total(players, s) == 0,
    decreases players.len(),
{
    if players.len() > 0 {
        lemma_suit_total_all_zero(players.drop_last(), s);
    }
}

/// Appends `count` cards of one suit to the deck under construction.
fn push_copies(deck: &mut Vec<Suit>, s: Suit, count: usize)
    requires
        old(deck)@.len() + count <= 40,
    ensures
        final(deck)@.len() == old(deck)@.len() + count,
        forall|t: Suit|
            #[trigger] count_suit(final(deck)@, t) == count_suit(old(deck)@, t) + (if t == s {
                count as int
            } else {
                0int
            }),
{
    let mut i: usize = 0;
    while i < count
        invariant
            i <= count,
            old(deck)@.len() + count <= 40,
            deck@.len() == old(deck)@.len() + i,
            forall|t: Suit|
                #[trigger] count_suit(deck@, t) == count_suit(old(deck)@, t) + (if t == s {
                    i as int
                } else {
                    0int
                }),
        decreases count - i,
    {
        let ghost prev = deck@;
        deck.push(s);
        proof {
            assert(deck@.drop_last() =~= prev);
            assert(deck@.last() == s);
            assert forall|t: Suit| #[trigger] count_suit(deck@, t) == count_suit(prev, t) + (if t
                == s {
                1int
            } else {
                0int
            }) by {}
        }
        i = i + 1;
    }
}

/// Assigns the round's suit counts by a random suit order — the last
/// position takes 12 cards and is the common suit, the one before it 8, the
/// first two 10 each — builds and shuffles the 40-card deck, clears all
/// hands and deals round-robin. Returns (common suit, goal suit).
fn deal_hands(players: &mut Vec<Player>, rng: &mut rand::rngs::ThreadRng) -> (r: (Suit, Suit))
    requires
        1 <= old(players)@.len() <= MAX_PLAYERS,
    ensures
        spec_deal_post(old(players)@, final(players)@, r.0, r.1),
{
    // random suit order decides which suit takes 10, 10, 8 and 12 cards
    let mut order: Vec<Suit> = Vec::new();
    order.push(Suit::Spade);
    order.push(Suit::Heart);
    order.push(Suit::Diamond);
    order.push(Suit::Club);
    proof {
        assert(order@ =~= seq![Suit::Spade, Suit::Heart, Suit::Diamond, Suit::Club]);
    }
    crate::rng::shuffle(&mut order, rng);
    proof {
        lemma_suits_distinct(order@);
    }
    let common = order[3];
    let goal = common.color_partner();
    // build the 40-card deck
    let mut deck: Vec<Suit> = Vec::new();
    push_copies(&mut deck, order[0], 10);
    push_copies(&mut deck, order[1], 10);
    push_copies(&mut deck, order[2], 8);
    push_copies(&mut deck, order[3], 12);
    let ghost built = deck@;
    crate::rng::shuffle(&mut deck, rng);
    proof {
        assert forall|t: Suit| #[trigger] count_suit(deck@, t) == count_suit(built, t) by {
            lemma_count_suit_multiset(deck@, t);
            lemma_count_suit_multiset(built, t);
        }
        assert forall|t: Suit| #[trigger] count_suit(deck@, t) <= 12 by {
            assert(order@.contains(t));
            let idx = choose|idx: int| 0 <= idx < order@.len() && order@[idx] == t;
            assert(idx == 0 || idx == 1 || idx == 2 || idx == 3);
        }
    }
    // clear all hands
    let n = players.len();
    let mut i: usize = 0;
    while i < n
        invariant
            n == players@.len(),
            n == old(players)@.len(),
            i <= n,
            forall|k: int|
                0 <= k < i ==> (#[trigger] players@[k]).info == old(players)@[k].info && players@[
                    k
                ].cash == old(players)@[k].cash && players@[k].hand.spec_total() == 0 && (forall|
                    s: Suit,
                |
                    players@[k].hand.spec_count(s) == 0),
            forall|k: int| i <= k < n ==> (#[trigger] players@[k]) == old(players)@[k],
        decreases n - i,
    {
        let p = &mut players[i];
        p.hand = Hand::empty();
        i = i + 1;
    }
    // deal round-robin: card j goes to player j mod n
    let ghost dealt = deck@;
    let ghost cleared = players@;
    let m = deck.len();
    let mut j: usize = 0;
    proof {
        assert(dealt.take(0) =~= Seq::<Suit>::empty());
        assert forall|s: Suit| #[trigger] suit_total(players@, s) == count_suit(
            dealt.take(0),
            s,
        ) by {
            lemma_suit_total_all_zero(players@, s);
        }
        assert(40int / (n as int) >= 0) by {
            vstd::arithmetic::div_mod::lemma_div_pos_is_pos(40int, n as int);
        }
    }
    while j < m
        invariant
            m == 40,
            deck@ == dealt,
            dealt.len() == 40,
            n == players@.len(),
            n == old(players)@.len(),
            1 <= n <= MAX_PLAYERS,
            j <= m,
            forall|k: int|
                0 <= k < n ==> (#[trigger] players@[k]).info == old(players)@[k].info && players@[
                    k
                ].cash == old(players)@[k].cash,
            forall|s: Suit|
                #[trigger] suit_total(players@, s) == count_suit(dealt.take(j as int), s),
            forall|s: Suit| #[trigger] count_suit(dealt, s) <= 12,
            forall|k: int|
                0 <= k < n ==> (#[trigger] players@[k]).hand.spec_total() == (j as int) / (
                n as int) + (if k < (j as int) % (n as int) {
                    1int
                } else {
                    0int
                }),
        decreases m - j,
    {
        let card = deck[j];
        let pidx = j % n;
        proof {
            vstd::arithmetic::div_mod::lemma_mod_bound(j as int, n as int);
            lemma_suit_total_member(players@, pidx as int, card);
            lemma_count_suit_take_le(dealt, j as int, card);
        }
        let ghost before = players@;
        let p = &mut players[pidx];
        p.hand.add(card);
        proof {
            assert forall|s: Suit| #[trigger] suit_total(players@, s) == count_suit(
                dealt.take(j + 1),
                s,
            ) by {
                lemma_suit_total_update(before, pidx as int, players@[pidx as int], s);
                assert(dealt.take(j + 1).drop_last() =~= dealt.take(j as int));
                assert(dealt.take(j + 1).last() == dealt[j as int]);
            }
            lemma_div_mod_succ(j as int, n as int);
        }
        j = j + 1;
    }
    proof {
        assert(dealt.take(40) =~= dealt);
        assert(suit_total(players@, common) == 12);
        assert(order@[2] != common);
        assert(suit_total(players@, order@[2]) == 8);
        assert forall|u: Suit| u != common && u != order@[2] implies #[trigger] suit_total(
            players@,
            u,
        ) == 10 by {
            assert(order@.contains(u));
            let idx = choose|idx: int| 0 <= idx < order@.len() && order@[idx] == u;
            assert(idx == 0 || idx == 1);
        }
        assert forall|k: int, s: Suit| 0 <= k < n implies (#[trigger] players@[k].hand.spec_count(
            s,
        )) <= 12 by {
            lemma_suit_total_member(players@, k, s);
        }
    }
    (common, goal)
}

/// The highest goal-suit count held by any player (0 when there are none).
pub open spec fn spec_max_goal(players: Seq<Player>, goal: Suit) -> u8
    decreases players.len(),
{
    if players.len() == 0 {
        0
    } else {
        let m = spec_max_goal(players.drop_last(), goal);
        if players.last().hand.spec_count(goal) > m {
            players.last().hand.spec_count(goal)
        } else {
            m
        }
    }
}

/// How many players hold exactly `c` cards of the goal suit.
pub open spec fn spec_count_at(players: Seq<Player>, goal: Suit, c: u8) -> int
    decreases players.len(),
{
    if players.len() == 0 {
        0
    } else {
        spec_count_at(players.drop_last(), goal, c) + if players.last().hand.spec_count(goal)
            == c {
            1int
        } else {
            0int
        }
    }
}

/// The ids of the players holding exactly `maxc` goal-suit cards, in
/// player order.
pub open spec fn spec_winner_ids(players: Seq<Player>, goal: Suit, maxc: u8) -> Seq<Seq<char>>
    decreases players.len(),
{
    if players.len() == 0 {
        Seq::empty()
    } else {
        let rest = spec_winner_ids(players.drop_last(), goal, maxc);
        if players.last().hand.spec_count(goal) == maxc {
            rest.push(players.last().info.id@)
        } else {
            rest
        }
    }
}

/// The tally at any count stays between zero and the number of players.
pub proof fn lemma_count_at_bounds(players: Seq<Player>, goal: Suit, c: u8)
    ensures
        0 <= spec_count_at(players, goal, c) <= players.len(),
    decreases players.len(),
{
    if players.len() > 0 {
        lemma_count_at_bounds(players.drop_last(), goal, c);
    }
}

/// A player is tallied at their own count, so that tally is at least one.
pub proof fn lemma_count_at_member(players: Seq<Player>, goal: Suit, i: int)
    requires
        0 <= i < players.len(),
    ensures
        spec_count_at(players, goal, players[i].hand.spec_count(goal)) >= 1,
    decreases players.len(),
{
    lemma_count_at_bounds(players.drop_last(), goal, players[i].hand.spec_count(goal));
    if i < players.len() - 1 {
        assert(players.drop_last()[i] == players[i]);
        lemma_count_at_member(players.drop_last(), goal, i);
    }
}

/// What is left of the pot once every goal-suit card has been paid its
/// bonus; never negative.
pub open spec fn spec_rest_pot(pre: Game) -> int {
    let pot = pre.game_config.pot as int;
    let total_bonus = CARD_VALUE_PER_GOAL_SUIT * suit_total(pre.state.players@, pre.goal_suit);
    if pot > total_bonus {
        pot - total_bonus
    } else {
        0
    }
}

/// The equal share each winner receives of the remaining pot; the remainder
/// of the integer division is not distributed. A maximum of zero yields no
/// winners and no share.
pub open spec fn spec_share(pre: Game) -> int {
    let maxc = spec_max_goal(pre.state.players@, pre.goal_suit);
    let wc = spec_count_at(pre.state.players@, pre.goal_suit, maxc);
    if maxc > 0 && wc > 0 {
        spec_rest_pot(pre) / wc
    } else {
        0
    }
}

/// One player's balance as settlement leaves it: the per-card bonus, plus
/// the winner share for those tied at the (positive) maximum.
pub open spec fn spec_settled_player(p: Player, goal: Suit, maxc: u8, share: int) -> Player {
    Player {
        cash: (p.cash + CARD_VALUE_PER_GOAL_SUIT * p.hand.spec_count(goal) + (if p.hand.spec_count(
            goal,
        ) == maxc && maxc > 0 {
            share
        } else {
            0int
        })) as i32,
        ..p
    }
}

/// Everything settlement does: hands and the book are untouched, every cash
/// balance is settled as `spec_settled_player` describes, and one
/// `RoundEnded` event is broadcast carrying the settled players and the goal
/// suit.
pub open spec fn spec_settle_post(pre: Game, post: Game, events: Seq<Event>) -> bool {
    let maxc = spec_max_goal(pre.state.players@, pre.goal_suit);
    let share = spec_share(pre);
    &&& post.state.quotes@ == pre.state.quotes@
    &&& post.state.players@.len() == pre.state.players@.len()
    &&& forall|i: int|
        0 <= i < pre.state.players@.len() ==> #[trigger] post.state.players@[i]
            == spec_settled_player(pre.state.players@[i], pre.goal_suit, maxc, share)
    &&& events.len() == 1
    &&& (events[0] matches Event::RoundEnded { round_id, players, server_time: _, goal_suit }
        && round_id == (pre.round % 256) as u8 && players@ == post.state.players@ && goal_suit
        == pre.goal_suit)
}

/// The player on whose behalf an action acts: the owner named in the quote
/// for quote actions, irrelevant for control actions (which are always
/// legal).
pub open spec fn spec_actor(action: Action) -> Seq<char> {
    match action {
        Action::PlaceQuote(q) => q.player_id@,
        Action::CancelQuote(q) => q.player_id@,
        Action::CancelAll(id) => id@,
        _ => Seq::empty(),
    }
}

/// The round number, configuration and suit assignment are untouched.
pub open spec fn spec_setup_unchanged(pre: Game, post: Game) -> bool {
    &&& post.round == pre.round
    &&& post.game_config == pre.game_config
    &&& post.common_suit == pre.common_suit
    &&& post.goal_suit == pre.goal_suit
}

/// Everything `handle_action` does, for every action. An illegal action is
/// rejected silently: no state change and no event. A legal action acts as
/// the per-variant predicates describe.
pub open spec fn spec_handle_post(pre: Game, action: Action, post: Game, events: Seq<Event>) -> bool {
    if !spec_is_legal(pre.state, spec_actor(action), action) {
        post == pre && events == Seq::<Event>::empty()
    } else {
        match action {
            Action::PlaceQuote(q) => spec_place_post(pre, q, post, events) && spec_setup_unchanged(
                pre,
                post,
            ),
            Action::CancelQuote(q) => spec_cancel_post(pre, q, post, events)
                && spec_setup_unchanged(pre, post),
            Action::CancelAll(id) => spec_cancel_all_post(pre, id@, post, events)
                && spec_setup_unchanged(pre, post),
            Action::NoOp => post == pre && events == Seq::<Event>::empty(),
            Action::StartRound(r) => {
                &&& post.round == r
                &&& post.game_config == pre.game_config
                &&& post.state.quotes@.len() == 0
                &&& spec_deal_post(
                    pre.state.players@,
                    post.state.players@,
                    post.common_suit,
                    post.goal_suit,
                )
                &&& events.len() == post.state.players@.len()
                &&& forall|i: int|
                    0 <= i < events.len() ==> ((#[trigger] events[i]) matches Event::RoundStarted {
                        round_id,
                        server_time: _,
                        player,
                    } && round_id == (r % 256) as u8 && player == post.state.players@[i])
            },
            Action::EndRound => spec_settle_post(pre, post, events) && spec_setup_unchanged(
                pre,
                post,
            ),
            Action::EndGame => post == pre && events.len() == 1 && (events[0]
                matches Event::GameEnded { players } && players@ == pre.state.players@),
        }
    }
}

/// Removing a quote keeps the book free of duplicate (suit, side) slots.
proof fn lemma_book_unique_remove(quotes: Seq<Quote>, i: int)
    requires
        book_unique(quotes),
        0 <= i < quotes.len(),
    ensures
        book_unique(quotes.remove(i)),
{
    let r = quotes.remove(i);
    assert forall|a: int, b: int| 0 <= a < b < r.len() implies !(#[trigger] r[a]).spec_same_slot(
        #[trigger] r[b],
    ) by {
        let a0 = if a < i {
            a
        } else {
            a + 1
        };
        let b0 = if b < i {
            b
        } else {
            b + 1
        };
        assert(r[a] == quotes[a0]);
        assert(r[b] == quotes[b0]);
        assert(!quotes[a0].spec_same_slot(quotes[b0]));
    }
}

/// Pushing a quote whose slot is empty keeps the book free of duplicate
/// slots.
proof fn lemma_book_unique_push(quotes: Seq<Quote>, q: Quote)
    requires
        book_unique(quotes),
        forall|k: int| 0 <= k < quotes.len() ==> !(#[trigger] quotes[k]).spec_same_slot(q),
    ensures
        book_unique(quotes.push(q)),
{
    let r = quotes.push(q);
    assert forall|a: int, b: int| 0 <= a < b < r.len() implies !(#[trigger] r[a]).spec_same_slot(
        #[trigger] r[b],
    ) by {
        if b < quotes.len() {
            assert(r[a] == quotes[a]);
            assert(r[b] == quotes[b]);
            assert(!quotes[a].spec_same_slot(quotes[b]));
        } else {
            assert(r[b] == q);
            assert(r[a] == quotes[a]);
            assert(!quotes[a].spec_same_slot(q));
        }
    }
}

/// Whether some player carries the given id.
pub open spec fn spec_has_id(players: Seq<Player>, id: Seq<char>) -> bool {
    exists|i: int| 0 <= i < players.len() && (#[trigger] players[i]).info.id@ == id
}

/// Whether the player carrying the id holds at least one card of the suit,
/// so a sale actually hands a card over.
pub open spec fn spec_seller_gives(players: Seq<Player>, seller: Seq<char>, suit: Suit) -> bool {
    exists|i: int|
        0 <= i < players.len() && (#[trigger] players[i]).info.id@ == seller && players[
            i
        ].hand.spec_count(suit) > 0
}

/// Whether the trade a placement would execute moves a card between two
/// present players: both parties are players of the game and the seller
/// holds the suit. A placement that does not match trades nothing, so the
/// condition holds vacuously.
pub open spec fn spec_trade_safe(pre: Game, q: Quote) -> bool {
    spec_has_match(pre.state.quotes@, q) ==> {
        let matched = pre.state.quotes@[spec_first_cross(pre.state.quotes@, q)];
        let buyer = if q.side == Side::Bid {
            q.player_id@
        } else {
            matched.player_id@
        };
        let seller = if q.side == Side::Bid {
            matched.player_id@
        } else {
            q.player_id@
        };
        &&& spec_has_id(pre.state.players@, buyer)
        &&& spec_seller_gives(pre.state.players@, seller, q.suit)
    }
}

/// How a trade moves a suit's total: up by one when the buyer is a player,
/// down by one when the seller is a player holding the suit, and not at all
/// for other suits.
proof fn lemma_trade_totals(
    pre: Seq<Player>,
    post: Seq<Player>,
    buyer: Seq<char>,
    seller: Seq<char>,
    suit: Suit,
    price: u32,
    s: Suit,
)
    requires
        spec_trade_applied(pre, post, buyer, seller, suit, price),
        unique_ids(pre),
        buyer != seller,
        forall|i: int| 0 <= i < pre.len() ==> (#[trigger] pre[i]).hand.spec_count(suit) <= 254,
    ensures
        suit_total(post, s) == suit_total(pre, s) + (if s == suit && spec_has_id(pre, buyer) {
            1int
        } else {
            0int
        }) - (if s == suit && spec_seller_gives(pre, seller, suit) {
            1int
        } else {
            0int
        }),
    decreases pre.len(),
{
    if pre.len() == 0 {
        assert(!spec_has_id(pre, buyer));
        assert(!spec_seller_gives(pre, seller, suit));
    } else {
        let pre1 = pre.drop_last();
        let post1 = post.drop_last();
        let last = pre.last();
        assert(unique_ids(pre1)) by {
            assert(forall|a: int, b: int|
                0 <= a < b < pre1.len() ==> pre1[a] == pre[a] && pre1[b] == pre[b]);
        }
        assert(spec_trade_applied(pre1, post1, buyer, seller, suit, price)) by {
            assert forall|i: int| 0 <= i < pre1.len() implies #[trigger] post1[i]
                == spec_traded_player(pre1[i], buyer, seller, suit, price) by {
                assert(post1[i] == post[i] && pre1[i] == pre[i]);
            }
        }
        lemma_trade_totals(pre1, post1, buyer, seller, suit, price, s);
        assert(post.last() == spec_traded_player(last, buyer, seller, suit, price)) by {
            assert(post[pre.len() - 1] == spec_traded_player(
                pre[pre.len() - 1],
                buyer,
                seller,
                suit,
                price,
            ));
        }
        if last.info.id@ == buyer {
            assert(spec_has_id(pre, buyer)) by {
                assert(pre[pre.len() - 1].info.id@ == buyer);
            }
            assert(!spec_has_id(pre1, buyer)) by {
                if spec_has_id(pre1, buyer) {
                    let i = choose|i: int|
                        0 <= i < pre1.len() && (#[trigger] pre1[i]).info.id@ == buyer;
                    assert(pre[i].info.id@ == pre[pre.len() - 1].info.id@);
                    assert(false);
                }
            }
            assert(spec_seller_gives(pre, seller, suit) == spec_seller_gives(
                pre1,
                seller,
                suit,
            )) by {
                if spec_seller_gives(pre, seller, suit) {
                    let i = choose|i: int|
                        0 <= i < pre.len() && (#[trigger] pre[i]).info.id@ == seller && pre[
                            i
                        ].hand.spec_count(suit) > 0;
                    assert(i < pre.len() - 1);
                    assert(pre1[i] == pre[i]);
                    assert(spec_seller_gives(pre1, seller, suit));
                }
                if spec_seller_gives(pre1, seller, suit) {
                    let i = choose|i: int|
                        0 <= i < pre1.len() && (#[trigger] pre1[i]).info.id@ == seller && pre1[
                            i
                        ].hand.spec_count(suit) > 0;
                    assert(pre[i] == pre1[i]);
                    assert(spec_seller_gives(pre, seller, suit));
                }
            }
        } else if last.info.id@ == seller {
            assert(spec_has_id(pre, buyer) == spec_has_id(pre1, buyer)) by {
                if spec_has_id(pre, buyer) {
                    let i = choose|i: int|
                        0 <= i < pre.len() && (#[trigger] pre[i]).info.id@ == buyer;
                    assert(i < pre.len() - 1);
                    assert(pre1[i] == pre[i]);
                    assert(spec_has_id(pre1, buyer));
                }
                if spec_has_id(pre1, buyer) {
                    let i = choose|i: int|
                        0 <= i < pre1.len() && (#[trigger] pre1[i]).info.id@ == buyer;
                    assert(pre[i] == pre1[i]);
                }
            }
            assert(!spec_seller_gives(pre1, seller, suit)) by {
                if spec_seller_gives(pre1, seller, suit) {
                    let i = choose|i: int|
                        0 <= i < pre1.len() && (#[trigger] pre1[i]).info.id@ == seller && pre1[
                            i
                        ].hand.spec_count(suit) > 0;
                    assert(pre[i].info.id@ == pre[pre.len() - 1].info.id@);
                    assert(false);
                }
            }
            if last.hand.spec_count(suit) > 0 {
                assert(spec_seller_gives(pre, seller, suit)) by {
                    assert(pre[pre.len() - 1].info.id@ == seller && pre[pre.len()
                        - 1].hand.spec_count(suit) > 0);
                }
            } else {
                assert(!spec_seller_gives(pre, seller, suit)) by {
                    if spec_seller_gives(pre, seller, suit) {
                        let i = choose|i: int|
                            0 <= i < pre.len() && (#[trigger] pre[i]).info.id@ == seller && pre[
                                i
                            ].hand.spec_count(suit) > 0;
                        if i < pre.len() - 1 {
                            assert(pre1[i] == pre[i]);
                            assert(false);
                        }
                    }
                }
            }
        } else {
            assert(spec_has_id(pre, buyer) == spec_has_id(pre1, buyer)) by {
                if spec_has_id(pre, buyer) {
                    let i = choose|i: int|
                        0 <= i < pre.len() && (#[trigger] pre[i]).info.id@ == buyer;
                    assert(i < pre.len() - 1);
                    assert(pre1[i] == pre[i]);
                    assert(spec_has_id(pre1, buyer));
                }
                if spec_has_id(pre1, buyer) {
                    let i = choose|i: int|
                        0 <= i < pre1.len() && (#[trigger] pre1[i]).info.id@ == buyer;
                    assert(pre[i] == pre1[i]);
                }
            }
            assert(spec_seller_gives(pre, seller, suit) == spec_seller_gives(
                pre1,
                seller,
                suit,
            )) by {
                if spec_seller_gives(pre, seller, suit) {
                    let i = choose|i: int|
                        0 <= i < pre.len() && (#[trigger] pre[i]).info.id@ == seller && pre[
                            i
                        ].hand.spec_count(suit) > 0;
                    assert(i < pre.len() - 1);
                    assert(pre1[i] == pre[i]);
                    assert(spec_seller_gives(pre1, seller, suit));
                }
                if spec_seller_gives(pre1, seller, suit) {
                    let i = choose|i: int|
                        0 <= i < pre1.len() && (#[trigger] pre1[i]).info.id@ == seller && pre1[
                            i
                        ].hand.spec_count(suit) > 0;
                    assert(pre[i] == pre1[i]);
                    assert(spec_seller_gives(pre, seller, suit));
                }
            }
        }
    }
}

/// Settlement and other operations that leave every hand alone leave every
/// suit total alone.
proof fn lemma_suit_total_same_hands(pre: Seq<Player>, post: Seq<Player>, s: Suit)
    requires
        post.len() == pre.len(),
        forall|i: int| 0 <= i < pre.len() ==> (#[trigger] post[i]).hand == pre[i].hand,
    ensures
        suit_total(post, s) == suit_total(pre, s),
    decreases pre.len(),
{
    if pre.len() > 0 {
        assert(forall|i: int|
            0 <= i < pre.drop_last().len() ==> (#[trigger] post.drop_last()[i]).hand
                == pre.drop_last()[i].hand);
        lemma_suit_total_same_hands(pre.drop_last(), post.drop_last(), s);
        assert(post.last().hand == pre.last().hand) by {
            assert(post[pre.len() - 1].hand == pre[pre.len() - 1].hand);
        }
    }
}

/// Card conservation: between re-deals, every action keeps every suit's
/// total across all hands — provided a trade, if one executes, is between
/// two players of the game and the seller still holds a card of the traded
/// suit.
pub proof fn lemma_card_conservation(
    pre: Game,
    action: Action,
    post: Game,
    events: Seq<Event>,
    s: Suit,
)
    requires
        pre.wf(),
        pre.hands_ok(),
        spec_handle_post(pre, action, post, events),
        !(action matches Action::StartRound(_)),
        action matches Action::PlaceQuote(q) ==> spec_trade_safe(pre, q),
    ensures
        suit_total(post.state.players@, s) == suit_total(pre.state.players@, s),
{
    let legal = spec_is_legal(pre.state, spec_actor(action), action);
    if !legal {
        return ;
    }
    match action {
        Action::PlaceQuote(q) => {
            if spec_has_match(pre.state.quotes@, q) {
                lemma_first_cross_props(pre.state.quotes@, q);
                let matched = pre.state.quotes@[spec_first_cross(pre.state.quotes@, q)];
                let buyer = if q.side == Side::Bid {
                    q.player_id@
                } else {
                    matched.player_id@
                };
                let seller = if q.side == Side::Bid {
                    matched.player_id@
                } else {
                    q.player_id@
                };
                lemma_trade_totals(
                    pre.state.players@,
                    post.state.players@,
                    buyer,
                    seller,
                    q.suit,
                    q.price,
                    s,
                );
            }
        },
        Action::EndRound => {
            assert forall|i: int| 0 <= i < pre.state.players@.len() implies (
            #[trigger] post.state.players@[i]).hand == pre.state.players@[i].hand by {
                assert(post.state.players@[i] == spec_settled_player(
                    pre.state.players@[i],
                    pre.goal_suit,
                    spec_max_goal(pre.state.players@, pre.goal_suit),
                    spec_share(pre),
                ));
            }
            lemma_suit_total_same_hands(pre.state.players@, post.state.players@, s);
        },
        _ => {},
    }
}

/// Book uniqueness: every state the engine hands on — after any successful
/// placement included — keeps at most one resting quote per (suit, side)
/// pair.
pub proof fn lemma_book_uniqueness(g: Game)
    requires
        g.wf(),
    ensures
        book_unique(g.state.quotes@),
{
}

/// Cash conservation on a trade: the buyer pays exactly the price, the
/// seller receives exactly the price, and no other player's cash changes.
pub proof fn lemma_cash_conservation(
    pre: Seq<Player>,
    post: Seq<Player>,
    buyer: Seq<char>,
    seller: Seq<char>,
    suit: Suit,
    price: u32,
)
    requires
        spec_trade_applied(pre, post, buyer, seller, suit, price),
        buyer != seller,
        price <= MAX_QUOTE_PRICE,
        forall|i: int| 0 <= i < pre.len() ==> -CASH_BOUND <= (#[trigger] pre[i]).cash <= CASH_BOUND,
    ensures
        forall|i: int|
            0 <= i < pre.len() && (#[trigger] pre[i]).info.id@ == buyer ==> post[i].cash == pre[
                i
            ].cash - price,
        forall|i: int|
            0 <= i < pre.len() && (#[trigger] pre[i]).info.id@ == seller ==> post[i].cash == pre[
                i
            ].cash + price,
        forall|i: int|
            0 <= i < pre.len() && (#[trigger] pre[i]).info.id@ != buyer && pre[i].info.id@
                != seller ==> post[i].cash == pre[i].cash,
{
    assert(forall|i: int|
        0 <= i < pre.len() ==> #[trigger] post[i] == spec_traded_player(
            pre[i],
            buyer,
            seller,
            suit,
            price,
        ));
}

impl Game {
    /// Creates a game: every player antes into the pot and starts with
    /// `starting_cash - ante_amount`, and the first round's cards are dealt
    /// at once. No event is emitted; the caller starts the first round's
    /// notifications separately.
    pub fn new(config: GameConfig) -> (game: Game)
        requires
            config.wf(),
        ensures
            game.wf(),
            game.round == 1,
            game.game_config == config,
            game.state.quotes@.len() == 0,
            game.state.players@.len() == config.players@.len(),
            forall|i: int|
                0 <= i < config.players@.len() ==> (#[trigger] game.state.players@[i]).info
                    == config.players@[i] && game.state.players@[i].cash == config.starting_cash
                    - config.ante_amount,
            spec_deal_post(
                game.state.players@,
                game.state.players@,
                game.common_suit,
                game.goal_suit,
            ),
            game.cash_ok(),
            game.hands_ok(),
    {
        let start_cash = (config.starting_cash - config.ante_amount) as i32;
        let n = config.players.len();
        let mut players: Vec<Player> = Vec::new();
        let mut i: usize = 0;
        while i < n
            invariant
                n == config.players@.len(),
                i <= n,
                players@.len() == i,
                start_cash == config.starting_cash - config.ante_amount,
                forall|k: int|
                    0 <= k < i ==> (#[trigger] players@[k]).info == config.players@[k] && players@[
                        k
                    ].cash == start_cash,
            decreases n - i,
        {
            let info = config.players[i].clone();
            players.push(Player { info, hand: Hand::empty(), cash: start_cash });
            i = i + 1;
        }
        let mut rng = crate::rng::fresh_rng();
        let (common, goal) = deal_hands(&mut players, &mut rng);
        proof {
            assert forall|a: int, b: int|
                0 <= a < b < players@.len() implies players@[a].info.id@ != players@[
                b
            ].info.id@ by {
                assert(players@[a].info == config.players@[a]);
                assert(players@[b].info == config.players@[b]);
            }
        }
        Game {
            round: 1,
            game_config: config,
            common_suit: common,
            goal_suit: goal,
            state: GameState { players, quotes: Vec::new() },
        }
    }

    /// Begins a round: re-derives the suit assignment with fresh
    /// randomness, re-deals all 40 cards, clears the book, sets the round
    /// number, and returns one `RoundStarted` event per player — each
    /// targeted to its player and carrying only that player's hand and
    /// cash.
    pub fn start_new_round(&mut self, round: u32) -> (events: Vec<Event>)
        requires
            old(self).wf(),
        ensures
            final(self).wf(),
            final(self).round == round,
            final(self).game_config == old(self).game_config,
            final(self).state.quotes@.len() == 0,
            spec_deal_post(
                old(self).state.players@,
                final(self).state.players@,
                final(self).common_suit,
                final(self).goal_suit,
            ),
            final(self).hands_ok(),
            old(self).cash_ok() ==> final(self).cash_ok(),
            events@.len() == final(self).state.players@.len(),
            forall|i: int|
                0 <= i < events@.len() ==> ((#[trigger] events@[i]) matches Event::RoundStarted {
                    round_id,
                    server_time: _,
                    player,
                } && round_id == (round % 256) as u8 && player == final(self).state.players@[i]),
    {
        self.round = round;
        let mut rng = crate::rng::fresh_rng();
        let (common, goal) = deal_hands(&mut self.state.players, &mut rng);
        self.common_suit = common;
        self.goal_suit = goal;
        self.state.quotes = Vec::new();
        proof {
            assert forall|a: int, b: int|
                0 <= a < b < self.state.players@.len() implies self.state.players@[a].info.id@
                != self.state.players@[b].info.id@ by {
                assert(self.state.players@[a].info == old(self).state.players@[a].info);
                assert(self.state.players@[b].info == old(self).state.players@[b].info);
            }
            assert forall|k: int, s: Suit|
                0 <= k < self.state.players@.len() implies (
            #[trigger] self.state.players@[k].hand.spec_count(s)) <= 254 by {
                assert(self.state.players@[k].hand.spec_count(s) <= 12);
            }
        }
        let rid = (round % 256) as u8;
        let t = crate::clock::now_unix_secs();
        let n = self.state.players.len();
        let ghost dealt_state = *self;
        let mut events: Vec<Event> = Vec::new();
        let mut i: usize = 0;
        while i < n
            invariant
                n == self.state.players@.len(),
                i <= n,
                events@.len() == i,
                rid == (round % 256) as u8,
                forall|k: int|
                    0 <= k < i ==> ((#[trigger] events@[k]) matches Event::RoundStarted {
                        round_id,
                        server_time: _,
                        player,
                    } && round_id == rid && player == self.state.players@[k]),
                *self == dealt_state,
            decreases n - i,
        {
            events.push(
                Event::RoundStarted {
                    round_id: rid,
                    server_time: t,
                    player: self.state.players[i].clone(),
                },
            );
            i = i + 1;
        }
        events
    }

    /// Transfers one card of `suit` (when the seller holds one) and `price`
    /// cash between the named players, walking the list once.
    fn apply_trade(&mut self, buyer_id: &String, seller_id: &String, suit: Suit, price: u32)
        requires
            old(self).cash_ok(),
            old(self).hands_ok(),
            price <= MAX_QUOTE_PRICE,
        ensures
            spec_trade_applied(
                old(self).state.players@,
                final(self).state.players@,
                buyer_id@,
                seller_id@,
                suit,
                price,
            ),
            final(self).state.quotes@ == old(self).state.quotes@,
            final(self).round == old(self).round,
            final(self).game_config == old(self).game_config,
            final(self).common_suit == old(self).common_suit,
            final(self).goal_suit == old(self).goal_suit,
    {
        let n = self.state.players.len();
        let mut i: usize = 0;
        while i < n
            invariant
                n == self.state.players@.len(),
                n == old(self).state.players@.len(),
                i <= n,
                forall|k: int|
                    0 <= k < i ==> #[trigger] self.state.players@[k] == spec_traded_player(
                        old(self).state.players@[k],
                        buyer_id@,
                        seller_id@,
                        suit,
                        price,
                    ),
                forall|k: int|
                    i <= k < n ==> #[trigger] self.state.players@[k] == old(self).state.players@[
                        k
                    ],
                old(self).cash_ok(),
                old(self).hands_ok(),
                price <= MAX_QUOTE_PRICE,
                self.state.quotes@ == old(self).state.quotes@,
                self.round == old(self).round,
                self.game_config == old(self).game_config,
                self.common_suit == old(self).common_suit,
                self.goal_suit == old(self).goal_suit,
            decreases n - i,
        {
            let is_buyer = self.state.players[i].info.id.eq(buyer_id);
            if is_buyer {
                let p = &mut self.state.players[i];
                p.cash = p.cash - (price as i32);
                p.hand.add(suit);
            }
            let is_seller = self.state.players[i].info.id.eq(seller_id);
            if is_seller {
                let p = &mut self.state.players[i];
                p.cash = p.cash + (price as i32);
                p.hand.remove_saturating(suit);
            }
            i = i + 1;
        }
    }

    /// Applies a legal quote placement: matches a crossing resting quote, or
    /// maintains the book as `spec_place_post` describes.
    fn place_quote(&mut self, quote: Quote) -> (events: Vec<Event>)
        requires
            old(self).wf(),
            old(self).cash_ok(),
            old(self).hands_ok(),
            spec_is_legal(old(self).state, quote.player_id@, Action::PlaceQuote(quote)),
        ensures
            final(self).wf(),
            spec_place_post(*old(self), quote, *final(self), events@),
            final(self).round == old(self).round,
            final(self).game_config == old(self).game_config,
            final(self).common_suit == old(self).common_suit,
            final(self).goal_suit == old(self).goal_suit,
    {
        let ghost book = self.state.quotes@;
        let ghost pre_players = self.state.players@;
        match find_matching_quote_idx(self.state.quotes.as_slice(), &quote) {
            Some(idx) => {
                proof {
                    lemma_first_cross(book, quote, idx as int);
                    lemma_book_unique_remove(book, idx as int);
                }
                let matched = self.state.quotes.remove(idx);
                let (buyer, seller) = match quote.side {
                    Side::Bid => (quote.player_id.clone(), matched.player_id.clone()),
                    Side::Offer => (matched.player_id.clone(), quote.player_id.clone()),
                };
                self.apply_trade(&buyer, &seller, quote.suit, quote.price);
                proof {
                    assert forall|k: int| 0 <= k < pre_players.len() implies (
                    #[trigger] self.state.players@[k]).info == pre_players[k].info by {
                        assert(self.state.players@[k] == spec_traded_player(
                            pre_players[k],
                            buyer@,
                            seller@,
                            quote.suit,
                            quote.price,
                        ));
                    }
                }
                let mut events: Vec<Event> = Vec::new();
                events.push(
                    Event::TradeExecuted { buyer, seller, suit: quote.suit, price: quote.price },
                );
                events
            },
            None => {
                // look for a resting quote on the same (suit, side) slot
                let n = self.state.quotes.len();
                let mut slot: Option<usize> = None;
                let mut i: usize = 0;
                while i < n && slot.is_none()
                    invariant
                        n == self.state.quotes@.len(),
                        i <= n,
                        self.state.quotes@ == book,
                        match slot {
                            None => forall|j: int|
                                0 <= j < i ==> !(#[trigger] book[j]).spec_same_slot(quote),
                            Some(k) => {
                                &&& k < n
                                &&& book[k as int].spec_same_slot(quote)
                                &&& forall|j: int|
                                    0 <= j < k ==> !(#[trigger] book[j]).spec_same_slot(quote)
                            },
                        },
                    decreases n - i, (if slot is None { 1int } else { 0int }),
                {
                    if self.state.quotes[i].same_slot(&quote) {
                        slot = Some(i);
                    } else {
                        i = i + 1;
                    }
                }
                match slot {
                    Some(j) => {
                        proof {
                            assert(spec_slot_taken(book, quote));
                            let k = spec_slot_idx(book, quote);
                            assert(0 <= k < book.len() && book[k].spec_same_slot(quote));
                            if k < j as int {
                                assert(!book[k].spec_same_slot(book[j as int]));
                                assert(false);
                            }
                            if k > j as int {
                                assert(!book[j as int].spec_same_slot(book[k]));
                                assert(false);
                            }
                        }
                        let resting_price = self.state.quotes[j].price;
                        let better = match quote.side {
                            Side::Bid => quote.price > resting_price,
                            Side::Offer => quote.price < resting_price,
                        };
                        if better {
                            proof {
                                lemma_book_unique_remove(book, j as int);
                                assert forall|k: int|
                                    0 <= k < book.remove(j as int).len() implies !(
                                #[trigger] book.remove(j as int)[k]).spec_same_slot(quote) by {
                                    let k0 = if k < j as int {
                                        k
                                    } else {
                                        k + 1
                                    };
                                    assert(book.remove(j as int)[k] == book[k0]);
                                    if k0 != j as int {
                                        assert(!book[if k0 < j as int {
                                            k0
                                        } else {
                                            j as int
                                        }].spec_same_slot(book[if k0 < j as int {
                                            j as int
                                        } else {
                                            k0
                                        }]));
                                    }
                                }
                                lemma_book_unique_push(book.remove(j as int), quote);
                            }
                            let _old = self.state.quotes.remove(j);
                            let player = quote.player_id.clone();
                            self.state.quotes.push(quote.clone());
                            let mut events: Vec<Event> = Vec::new();
                            events.push(Event::QuotePlaced { player, quote });
                            events
                        } else {
                            Vec::new()
                        }
                    },
                    None => {
                        proof {
                            assert(!spec_slot_taken(book, quote));
                            lemma_book_unique_push(book, quote);
                        }
                        let player = quote.player_id.clone();
                        self.state.quotes.push(quote.clone());
                        let mut events: Vec<Event> = Vec::new();
                        events.push(Event::QuotePlaced { player, quote });
                        events
                    },
                }
            },
        }
    }

    /// Removes the exact (owner, suit, side, price) match if present and
    /// broadcasts `QuoteCanceled`; otherwise a silent no-op.
    fn cancel_quote(&mut self, quote: Quote) -> (events: Vec<Event>)
        requires
            old(self).wf(),
        ensures
            final(self).wf(),
            spec_cancel_post(*old(self), quote, *final(self), events@),
            final(self).round == old(self).round,
            final(self).game_config == old(self).game_config,
            final(self).common_suit == old(self).common_suit,
            final(self).goal_suit == old(self).goal_suit,
    {
        let ghost book = self.state.quotes@;
        let n = self.state.quotes.len();
        let mut found: Option<usize> = None;
        let mut i: usize = 0;
        while i < n && found.is_none()
            invariant
                n == self.state.quotes@.len(),
                i <= n,
                self.state.quotes@ == book,
                match found {
                    None => forall|j: int| 0 <= j < i ==> !(#[trigger] book[j]).spec_same(quote),
                    Some(k) => k < n && book[k as int].spec_same(quote),
                },
            decreases n - i, (if found is None { 1int } else { 0int }),
        {
            if self.state.quotes[i].same(&quote) {
                found = Some(i);
            } else {
                i = i + 1;
            }
        }
        match found {
            Some(j) => {
                proof {
                    assert(spec_exact_match(book, quote));
                    let k = spec_exact_idx(book, quote);
                    assert(0 <= k < book.len() && book[k].spec_same(quote));
                    if k < j as int {
                        assert(!book[k].spec_same_slot(book[j as int]));
                        assert(false);
                    }
                    if k > j as int {
                        assert(!book[j as int].spec_same_slot(book[k]));
                        assert(false);
                    }
                    lemma_book_unique_remove(book, j as int);
                }
                let _removed = self.state.quotes.remove(j);
                let player = quote.player_id.clone();
                let mut events: Vec<Event> = Vec::new();
                events.push(Event::QuoteCanceled { player, quote });
                events
            },
            None => {
                proof {
                    assert(!spec_exact_match(book, quote));
                }
                Vec::new()
            },
        }
    }

    /// Removes every resting quote owned by the acting player; no event is
    /// emitted.
    fn cancel_all(&mut self, player_id: &String) -> (events: Vec<Event>)
        requires
            old(self).wf(),
        ensures
            final(self).wf(),
            spec_cancel_all_post(*old(self), player_id@, *final(self), events@),
            final(self).round == old(self).round,
            final(self).game_config == old(self).game_config,
            final(self).common_suit == old(self).common_suit,
            final(self).goal_suit == old(self).goal_suit,
    {
        let ghost book = self.state.quotes@;
        let n = self.state.quotes.len();
        let mut kept: Vec<Quote> = Vec::new();
        let mut i: usize = 0;
        proof {
            assert(book.take(0) =~= Seq::<Quote>::empty());
        }
        while i < n
            invariant
                n == self.state.quotes@.len(),
                i <= n,
                self.state.quotes@ == book,
                kept@ == spec_without_owner(book.take(i as int), player_id@),
            decreases n - i,
        {
            proof {
                assert(book.take(i + 1).drop_last() =~= book.take(i as int));
                assert(book.take(i + 1).last() == book[i as int]);
            }
            if !self.state.quotes[i].player_id.eq(player_id) {
                kept.push(self.state.quotes[i].clone());
            }
            i = i + 1;
        }
        proof {
            assert(book.take(n as int) =~= book);
            lemma_without_owner_props(book, player_id@);
        }
        self.state.quotes = kept;
        Vec::new()
    }

    /// Scores the round: pays `CARD_VALUE_PER_GOAL_SUIT` cash from the pot
    /// for every goal-suit card, splits what remains of the pot equally
    /// among the players tied at the highest (positive) goal-suit count —
    /// the division remainder is deliberately not distributed — and
    /// broadcasts one `RoundEnded` event with the settled standings.
    pub fn end_round(&mut self) -> (events: Vec<Event>)
        requires
            old(self).wf(),
            old(self).cash_ok(),
        ensures
            final(self).wf(),
            spec_settle_post(*old(self), *final(self), events@),
            final(self).round == old(self).round,
            final(self).game_config == old(self).game_config,
            final(self).common_suit == old(self).common_suit,
            final(self).goal_suit == old(self).goal_suit,
    {
        let goal = self.goal_suit;
        let n = self.state.players.len();
        let ghost all = self.state.players@;
        proof {
            assert(all.take(0) =~= Seq::<Player>::empty());
        }
        // highest goal-suit count and the total bonus owed
        let mut max_goal: u8 = 0;
        let mut total_bonus: i32 = 0;
        let mut i: usize = 0;
        while i < n
            invariant
                *self == *old(self),
                n == all.len(),
                all == self.state.players@,
                n <= MAX_PLAYERS,
                i <= n,
                max_goal == spec_max_goal(all.take(i as int), goal),
                total_bonus == CARD_VALUE_PER_GOAL_SUIT * suit_total(all.take(i as int), goal),
                0 <= total_bonus <= 2550 * i,
            decreases n - i,
        {
            proof {
                assert(all.take(i + 1).drop_last() =~= all.take(i as int));
                assert(all.take(i + 1).last() == all[i as int]);
            }
            let c = self.state.players[i].hand.count(goal);
            if c > max_goal {
                max_goal = c;
            }
            total_bonus = total_bonus + (c as i32) * CARD_VALUE_PER_GOAL_SUIT;
            i = i + 1;
        }
        proof {
            assert(all.take(n as int) =~= all);
        }
        // how many players are tied at that maximum
        let mut winners: usize = 0;
        i = 0;
        while i < n
            invariant
                *self == *old(self),
                n == all.len(),
                all == self.state.players@,
                i <= n,
                winners <= i,
                winners == spec_count_at(all.take(i as int), goal, max_goal),
            decreases n - i,
        {
            proof {
                assert(all.take(i + 1).drop_last() =~= all.take(i as int));
                assert(all.take(i + 1).last() == all[i as int]);
            }
            if self.state.players[i].hand.count(goal) == max_goal {
                winners = winners + 1;
            }
            i = i + 1;
        }
        // remaining pot and each winner's share
        let pot = self.game_config.pot as i32;
        let rest_pot: i32 = if pot > total_bonus {
            pot - total_bonus
        } else {
            0
        };
        let share: i32 = if winners > 0 && max_goal > 0 {
            proof {
                vstd::arithmetic::div_mod::lemma_div_pos_is_pos(rest_pot as int, winners as int);
                vstd::arithmetic::div_mod::lemma_div_nonincreasing(rest_pot as int, winners as int);
            }
            rest_pot / (winners as i32)
        } else {
            0
        };
        proof {
            assert(0 <= share <= rest_pot);
            assert(share as int == spec_share(*old(self)));
        }
        // settle every balance
        i = 0;
        while i < n
            invariant
                n == all.len(),
                all == old(self).state.players@,
                n == self.state.players@.len(),
                i <= n,
                0 <= share <= MAX_POT,
                old(self).cash_ok(),
                max_goal == spec_max_goal(all, goal),
                share as int == spec_share(*old(self)),
                goal == old(self).goal_suit,
                forall|k: int|
                    0 <= k < i ==> #[trigger] self.state.players@[k] == spec_settled_player(
                        all[k],
                        goal,
                        max_goal,
                        share as int,
                    ),
                forall|k: int| i <= k < n ==> #[trigger] self.state.players@[k] == all[k],
                self.state.quotes@ == old(self).state.quotes@,
                self.round == old(self).round,
                self.game_config == old(self).game_config,
                self.common_suit == old(self).common_suit,
                self.goal_suit == old(self).goal_suit,
            decreases n - i,
        {
            let c = self.state.players[i].hand.count(goal);
            let bonus = (c as i32) * CARD_VALUE_PER_GOAL_SUIT;
            let extra: i32 = if c == max_goal && max_goal > 0 {
                share
            } else {
                0
            };
            let p = &mut self.state.players[i];
            p.cash = p.cash + bonus + extra;
            i = i + 1;
        }
        proof {
            assert forall|k: int| 0 <= k < n implies (#[trigger] self.state.players@[k]).info
                == all[k].info by {
                assert(self.state.players@[k] == spec_settled_player(
                    all[k],
                    goal,
                    max_goal,
                    share as int,
                ));
            }
        }
        // broadcast the settled standings
        let rid = (self.round % 256) as u8;
        let players_copy = clone_players(&self.state.players);
        let t = crate::clock::now_unix_secs();
        let mut events: Vec<Event> = Vec::new();
        events.push(
            Event::RoundEnded { round_id: rid, players: players_copy, server_time: t, goal_suit: goal },
        );
        events
    }

    /// The players currently tied at the highest goal-suit count, by id and
    /// in player order; a maximum of zero yields no winners. A query: the
    /// same computation `end_round` settles by, with no mutation.
    pub fn winners(&self) -> (r: Vec<String>)
        ensures
            r@.map_values(|id: String| id@) == (if spec_max_goal(
                self.state.players@,
                self.goal_suit,
            ) > 0 {
                spec_winner_ids(
                    self.state.players@,
                    self.goal_suit,
                    spec_max_goal(self.state.players@, self.goal_suit),
                )
            } else {
                Seq::<Seq<char>>::empty()
            }),
    {
        let goal = self.goal_suit;
        let n = self.state.players.len();
        let ghost all = self.state.players@;
        proof {
            assert(all.take(0) =~= Seq::<Player>::empty());
        }
        let mut max_goal: u8 = 0;
        let mut i: usize = 0;
        while i < n
            invariant
                n == all.len(),
                all == self.state.players@,
                i <= n,
                max_goal == spec_max_goal(all.take(i as int), goal),
                goal == self.goal_suit,
            decreases n - i,
        {
            proof {
                assert(all.take(i + 1).drop_last() =~= all.take(i as int));
                assert(all.take(i + 1).last() == all[i as int]);
            }
            let c = self.state.players[i].hand.count(goal);
            if c > max_goal {
                max_goal = c;
            }
            i = i + 1;
        }
        proof {
            assert(all.take(n as int) =~= all);
        }
        let mut out: Vec<String> = Vec::new();
        if max_goal == 0 {
            proof {
                assert(out@.map_values(|id: String| id@) =~= Seq::<Seq<char>>::empty());
            }
            return out;
        }
        i = 0;
        while i < n
            invariant
                n == all.len(),
                all == self.state.players@,
                i <= n,
                out@.map_values(|id: String| id@) == spec_winner_ids(
                    all.take(i as int),
                    goal,
                    max_goal,
                ),
                goal == self.goal_suit,
                max_goal == spec_max_goal(all, goal),
            decreases n - i,
        {
            proof {
                assert(all.take(i + 1).drop_last() =~= all.take(i as int));
                assert(all.take(i + 1).last() == all[i as int]);
            }
            let ghost prev = out@;
            if self.state.players[i].hand.count(goal) == max_goal {
                out.push(self.state.players[i].info.id.clone());
                proof {
                    assert(out@.map_values(|id: String| id@) =~= prev.map_values(
                        |id: String| id@,
                    ).push(all[i as int].info.id@));
                }
            }
            i = i + 1;
        }
        proof {
            assert(all.take(n as int) =~= all);
        }
        out
    }

    /// Applies one action: it is validated first — an illegal action
    /// changes nothing and emits nothing, with no rejection signal — and a
    /// legal one is dispatched to the matching, book-maintenance, round or
    /// game operation. The returned events carry what every recipient must
    /// learn; a trade's buyer and seller always differ.
    pub fn handle_action(&mut self, action: Action) -> (events: Vec<Event>)
        requires
            old(self).wf(),
            action matches Action::PlaceQuote(_) ==> old(self).cash_ok() && old(self).hands_ok(),
            action matches Action::EndRound ==> old(self).cash_ok(),
        ensures
            final(self).wf(),
            spec_handle_post(*old(self), action, *final(self), events@),
            forall|k: int|
                0 <= k < events@.len() ==> ((#[trigger] events@[k]) matches Event::TradeExecuted {
                    buyer,
                    seller,
                    ..
                } ==> buyer@ != seller@),
    {
        let actor: String = match &action {
            Action::PlaceQuote(q) => q.player_id.clone(),
            Action::CancelQuote(q) => q.player_id.clone(),
            Action::CancelAll(id) => id.clone(),
            _ => String::new(),
        };
        if !is_action_legal(&self.state, actor, &action) {
            return Vec::new();
        }
        match action {
            Action::PlaceQuote(quote) => {
                let ghost pre = *self;
                let events = self.place_quote(quote);
                proof {
                    if spec_has_match(pre.state.quotes@, quote) {
                        lemma_first_cross_props(pre.state.quotes@, quote);
                    }
                }
                events
            },
            Action::CancelQuote(quote) => self.cancel_quote(quote),
            Action::CancelAll(id) => self.cancel_all(&id),
            Action::NoOp => Vec::new(),
            Action::StartRound(r) => self.start_new_round(r),
            Action::EndRound => self.end_round(),
            Action::EndGame => self.end_game(),
        }
    }

    /// Emits the terminal `GameEnded` event carrying the final standings;
    /// the state itself is left unchanged.
    pub fn end_game(&mut self) -> (events: Vec<Event>)
        ensures
            *final(self) == *old(self),
            events@.len() == 1,
            events@[0] matches Event::GameEnded { players } && players@ == old(
                self,
            ).state.players@,
    {
        let players = clone_players(&self.state.players);
        let mut events: Vec<Event> = Vec::new();
        events.push(Event::GameEnded { players });
        events
    }
}

} // verus!
