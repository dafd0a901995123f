//! Passive value types of the game: suits, sides, quotes, hands, players and
//! the shared game state, with the spec-level predicates the contracts use.

use vstd::prelude::*;

verus! {

/// Relies on `<str as PartialEq>::eq`: equality of two string slices means
/// equality of their character sequences.
pub assume_specification[ <str as PartialEq>::eq ](s: &str, other: &str) -> (res: bool)
    ensures
        res == (s@ == other@),
;

/// One of the four card categories. Two colour categories partition the suits
/// into pairs: Spade/Club and Heart/Diamond.
#[derive(Clone, Copy, Debug, Eq, PartialEq, Hash, Structural)]
pub enum Suit {
    Spade,
    Heart,
    Diamond,
    Club,
}

/// Buy or sell intent of a quote.
#[derive(Clone, Copy, Debug, Eq, PartialEq, Structural)]
pub enum Side {
    Bid,
    Offer,
}

impl Suit {
    /// Whether two suits share a colour category.
    pub open spec fn same_color(self, other: Suit) -> bool {
        (self.is_red() && other.is_red()) || (self.is_black() && other.is_black())
    }

    pub open spec fn is_red(self) -> bool {
        self == Suit::Heart || self == Suit::Diamond
    }

    pub open spec fn is_black(self) -> bool {
        self == Suit::Spade || self == Suit::Club
    }

    /// The other suit of the same colour category.
    pub fn color_partner(self) -> (r: Suit)
        ensures
            r == self.spec_color_partner(),
            r != self,
            r.same_color(self),
    {
        match self {
            Suit::Spade => Suit::Club,
            Suit::Club => Suit::Spade,
            Suit::Heart => Suit::Diamond,
            Suit::Diamond => Suit::Heart,
        }
    }

    pub open spec fn spec_color_partner(self) -> Suit {
        match self {
            Suit::Spade => Suit::Club,
            Suit::Club => Suit::Spade,
            Suit::Heart => Suit::Diamond,
            Suit::Diamond => Suit::Heart,
        }
    }

    /// The suit a name denotes, if any.
    pub open spec fn spec_of_name(s: Seq<char>) -> Option<Suit> {
        if s == "Spade"@ {
            Some(Suit::Spade)
        } else if s == "Heart"@ {
            Some(Suit::Heart)
        } else if s == "Diamond"@ {
            Some(Suit::Diamond)
        } else if s == "Club"@ {
            Some(Suit::Club)
        } else {
            None
        }
    }

    /// Parses a suit name; any other string is rejected.
    pub fn from_str(s: &str) -> (r: Result<Suit, &'static str>)
        ensures
            match Suit::spec_of_name(s@) {
                Some(suit) => r == Ok::<Suit, &'static str>(suit),
                None => r matches Err(m) && m@ == "invalid suit"@,
            },
    {
        if s.eq("Spade") {
            Ok(Suit::Spade)
        } else if s.eq("Heart") {
            Ok(Suit::Heart)
        } else if s.eq("Diamond") {
            Ok(Suit::Diamond)
        } else if s.eq("Club") {
            Ok(Suit::Club)
        } else {
            Err("invalid suit")
        }
    }
}

impl Side {
    /// The opposite trading intent.
    pub fn opposite(self) -> (r: Side)
        ensures
            r != self,
    {
        match self {
            Side::Bid => Side::Offer,
            Side::Offer => Side::Bid,
        }
    }

    /// The side a name denotes, if any.
    pub open spec fn spec_of_name(s: Seq<char>) -> Option<Side> {
        if s == "Bid"@ {
            Some(Side::Bid)
        } else if s == "Offer"@ {
            Some(Side::Offer)
        } else {
            None
        }
    }

    /// Parses a side name; any other string is rejected.
    pub fn from_str(s: &str) -> (r: Result<Side, &'static str>)
        ensures
            match Side::spec_of_name(s@) {
                Some(side) => r == Ok::<Side, &'static str>(side),
                None => r matches Err(m) && m@ == "invalid side"@,
            },
    {
        if s.eq("Bid") {
            Ok(Side::Bid)
        } else if s.eq("Offer") {
            Ok(Side::Offer)
        } else {
            Err("invalid side")
        }
    }
}

/// Identity of a player: unique id and display name.
#[derive(Debug)]
pub struct Info {
    pub id: String,
    pub name: String,
}

impl Clone for Info {
    fn clone(&self) -> (r: Self)
        ensures
            r == *self,
    {
        Info { id: self.id.clone(), name: self.name.clone() }
    }
}

/// Cards held by one player: a count for each of the four suits.
#[derive(Clone, Copy, Debug, Eq, PartialEq, Structural)]
pub struct Hand {
    pub spades: u8,
    pub hearts: u8,
    pub diamonds: u8,
    pub clubs: u8,
}

impl Hand {
    pub open spec fn spec_count(self, s: Suit) -> u8 {
        match s {
            Suit::Spade => self.spades,
            Suit::Heart => self.hearts,
            Suit::Diamond => self.diamonds,
            Suit::Club => self.clubs,
        }
    }

    /// Total number of cards in the hand.
    pub open spec fn spec_total(self) -> int {
        self.spades + self.hearts + self.diamonds + self.clubs
    }

    /// A hand holding no cards.
    pub fn empty() -> (r: Hand)
        ensures
            forall|s: Suit| r.spec_count(s) == 0,
            r.spec_total() == 0,
    {
        Hand { spades: 0, hearts: 0, diamonds: 0, clubs: 0 }
    }

    /// How many cards of the given suit the hand holds.
    pub fn count(&self, s: Suit) -> (n: u8)
        ensures
            n == self.spec_count(s),
    {
        match s {
            Suit::Spade => self.spades,
            Suit::Heart => self.hearts,
            Suit::Diamond => self.diamonds,
            Suit::Club => self.clubs,
        }
    }

    /// Total number of cards in the hand.
    pub fn total(&self) -> (n: u32)
        ensures
            n == self.spec_total(),
    {
        self.spades as u32 + self.hearts as u32 + self.diamonds as u32 + self.clubs as u32
    }

    /// The hand with one more card of the given suit.
    pub open spec fn spec_add(self, s: Suit) -> Hand {
        match s {
            Suit::Spade => Hand { spades: (self.spades + 1) as u8, ..self },
            Suit::Heart => Hand { hearts: (self.hearts + 1) as u8, ..self },
            Suit::Diamond => Hand { diamonds: (self.diamonds + 1) as u8, ..self },
            Suit::Club => Hand { clubs: (self.clubs + 1) as u8, ..self },
        }
    }

    /// The hand with one card of the given suit removed, when one is held;
    /// a hand holding none of the suit is unchanged.
    pub open spec fn spec_remove_saturating(self, s: Suit) -> Hand {
        match s {
            Suit::Spade => Hand {
                spades: if self.spades > 0 {
                    (self.spades - 1) as u8
                } else {
                    0u8
                },
                ..self
            },
            Suit::Heart => Hand {
                hearts: if self.hearts > 0 {
                    (self.hearts - 1) as u8
                } else {
                    0u8
                },
                ..self
            },
            Suit::Diamond => Hand {
                diamonds: if self.diamonds > 0 {
                    (self.diamonds - 1) as u8
                } else {
                    0u8
                },
                ..self
            },
            Suit::Club => Hand {
                clubs: if self.clubs > 0 {
                    (self.clubs - 1) as u8
                } else {
                    0u8
                },
                ..self
            },
        }
    }

    /// Adds one card of the given suit.
    pub fn add(&mut self, s: Suit)
        requires
            old(self).spec_count(s) < 255,
        ensures
            *final(self) == old(self).spec_add(s),
            final(self).spec_count(s) == old(self).spec_count(s) + 1,
            forall|t: Suit| t != s ==> final(self).spec_count(t) == old(self).spec_count(t),
            final(self).spec_total() == old(self).spec_total() + 1,
    {
        match s {
            Suit::Spade => self.spades = self.spades + 1,
            Suit::Heart => self.hearts = self.hearts + 1,
            Suit::Diamond => self.diamonds = self.diamonds + 1,
            Suit::Club => self.clubs = self.clubs + 1,
        }
    }

    /// Removes one card of the given suit if any is held; a hand holding none
    /// of the suit is left unchanged.
    pub fn remove_saturating(&mut self, s: Suit)
        ensures
            *final(self) == old(self).spec_remove_saturating(s),
            final(self).spec_count(s) == if old(self).spec_count(s) > 0 {
                old(self).spec_count(s) - 1
            } else {
                0
            },
            forall|t: Suit| t != s ==> final(self).spec_count(t) == old(self).spec_count(t),
    {
        match s {
            Suit::Spade => {
                if self.spades > 0 {
                    self.spades = self.spades - 1;
                }
            },
            Suit::Heart => {
                if self.hearts > 0 {
                    self.hearts = self.hearts - 1;
                }
            },
            Suit::Diamond => {
                if self.diamonds > 0 {
                    self.diamonds = self.diamonds - 1;
                }
            },
            Suit::Club => {
                if self.clubs > 0 {
                    self.clubs = self.clubs - 1;
                }
            },
        }
    }
}

impl Default for Hand {
    /// A hand holding no cards.
    fn default() -> (r: Hand)
        ensures
            forall|s: Suit| r.spec_count(s) == 0,
    {
        Hand { spades: 0, hearts: 0, diamonds: 0, clubs: 0 }
    }
}

/// One participant of the game: identity, hand and cash balance.
#[derive(Debug)]
pub struct Player {
    pub info: Info,
    pub hand: Hand,
    pub cash: i32,
}

impl Clone for Player {
    fn clone(&self) -> (r: Self)
        ensures
            r == *self,
    {
        Player { info: self.info.clone(), hand: self.hand, cash: self.cash }
    }
}

/// A resting order or a proposed action: owner, suit, side and price.
#[derive(Debug)]
pub struct Quote {
    pub player_id: String,
    pub suit: Suit,
    pub side: Side,
    pub price: u32,
}

impl Clone for Quote {
    fn clone(&self) -> (r: Self)
        ensures
            r == *self,
    {
        Quote { player_id: self.player_id.clone(), suit: self.suit, side: self.side, price: self.price }
    }
}

impl Quote {
    /// Whether `self`, resting in the book, crosses the incoming quote
    /// `incoming`: a different owner, the same suit, an equal price and the
    /// opposite side.
    pub open spec fn spec_crosses(self, incoming: Quote) -> bool {
        &&& self.player_id@ != incoming.player_id@
        &&& self.suit == incoming.suit
        &&& self.price == incoming.price
        &&& self.side != incoming.side
    }

    /// Whether all four fields agree; a cancellation removes exactly such
    /// quotes.
    pub open spec fn spec_same(self, other: Quote) -> bool {
        &&& self.player_id@ == other.player_id@
        &&& self.suit == other.suit
        &&& self.side == other.side
        &&& self.price == other.price
    }

    /// Whether `self` occupies the same (suit, side) slot of the book as
    /// `other`.
    pub open spec fn spec_same_slot(self, other: Quote) -> bool {
        self.suit == other.suit && self.side == other.side
    }

    pub fn crosses(&self, incoming: &Quote) -> (r: bool)
        ensures
            r == self.spec_crosses(*incoming),
    {
        !self.player_id.eq(&incoming.player_id) && self.suit == incoming.suit
            && self.price == incoming.price && self.side != incoming.side
    }

    pub fn same(&self, other: &Quote) -> (r: bool)
        ensures
            r == self.spec_same(*other),
    {
        self.player_id.eq(&other.player_id) && self.suit == other.suit && self.side == other.side
            && self.price == other.price
    }

    pub fn same_slot(&self, other: &Quote) -> (r: bool)
        ensures
            r == self.spec_same_slot(*other),
    {
        self.suit == other.suit && self.side == other.side
    }
}

/// Sum of the given suit's counts across all hands.
pub open spec fn suit_total(players: Seq<Player>, s: Suit) -> int
    decreases players.len(),
{
    if players.len() == 0 {
        0
    } else {
        suit_total(players.drop_last(), s) + players.last().hand.spec_count(s)
    }
}

/// A suit's total over all hands is bounded by 255 cards per player.
pub proof fn lemma_suit_total_bound(players: Seq<Player>, s: Suit)
    ensures
        0 <= suit_total(players, s) <= 255 * players.len(),
    decreases players.len(),
{
    if players.len() > 0 {
        lemma_suit_total_bound(players.drop_last(), s);
    }
}

/// Replacing one player changes a suit's total by the difference of the two
/// hands.
pub proof fn lemma_suit_total_update(players: Seq<Player>, k: int, p2: Player, s: Suit)
    requires
        0 <= k < players.len(),
    ensures
        suit_total(players.update(k, p2), s) == suit_total(players, s) - players[
            k
        ].hand.spec_count(s) + p2.hand.spec_count(s),
    decreases players.len(),
{
    if k == players.len() - 1 {
        assert(players.update(k, p2).drop_last() =~= players.drop_last());
        assert(players.update(k, p2).last() == p2);
    } else {
        assert(players.update(k, p2).drop_last() =~= players.drop_last().update(k, p2));
        assert(players.update(k, p2).last() == players.last());
        lemma_suit_total_update(players.drop_last(), k, p2, s);
    }
}

/// No single hand holds more of a suit than all hands together.
pub proof fn lemma_suit_total_member(players: Seq<Player>, k: int, s: Suit)
    requires
        0 <= k < players.len(),
    ensures
        players[k].hand.spec_count(s) <= suit_total(players, s),
    decreases players.len(),
{
    if k == players.len() - 1 {
        lemma_suit_total_bound(players.drop_last(), s);
    } else {
        lemma_suit_total_member(players.drop_last(), k, s);
    }
}

/// Every player id occurs at most once.
pub open spec fn unique_ids(players: Seq<Player>) -> bool {
    forall|i: int, j: int|
        0 <= i < j < players.len() ==> players[i].info.id@ != players[j].info.id@
}

/// At most one resting quote per (suit, side) pair.
pub open spec fn book_unique(quotes: Seq<Quote>) -> bool {
    forall|i: int, j: int|
        0 <= i < j < quotes.len() ==> !(#[trigger] quotes[i]).spec_same_slot(#[trigger] quotes[j])
}

/// The ordered players of one game and the open-quote book.
#[derive(Debug)]
pub struct GameState {
    pub players: Vec<Player>,
    pub quotes: Vec<Quote>,
}

impl GameState {
    /// Well-formedness: player ids are unique and the book holds at most one
    /// quote per (suit, side).
    pub open spec fn wf(self) -> bool {
        unique_ids(self.players@) && book_unique(self.quotes@)
    }
}

impl Clone for GameState {
    fn clone(&self) -> (r: Self)
        ensures
            r.players@ == self.players@,
            r.quotes@ == self.quotes@,
    {
        GameState { players: clone_players(&self.players), quotes: clone_quotes(&self.quotes) }
    }
}

/// An element-wise copy of a player list.
pub fn clone_players(players: &Vec<Player>) -> (r: Vec<Player>)
    ensures
        r@ == players@,
{
    let mut out: Vec<Player> = Vec::new();
    let mut i: usize = 0;
    while i < players.len()
        invariant
            i <= players@.len(),
            out@ == players@.take(i as int),
        decreases players@.len() - i,
    {
        out.push(players[i].clone());
        proof {
            assert(players@.take(i + 1) =~= players@.take(i as int).push(players@[i as int]));
        }
        i = i + 1;
    }
    proof {
        assert(players@.take(players@.len() as int) =~= players@);
    }
    out
}

/// An element-wise copy of a quote list.
pub fn clone_quotes(quotes: &Vec<Quote>) -> (r: Vec<Quote>)
    ensures
        r@ == quotes@,
{
    let mut out: Vec<Quote> = Vec::new();
    let mut i: usize = 0;
    while i < quotes.len()
        invariant
            i <= quotes@.len(),
            out@ == quotes@.take(i as int),
        decreases quotes@.len() - i,
    {
        out.push(quotes[i].clone());
        proof {
            assert(quotes@.take(i + 1) =~= quotes@.take(i as int).push(quotes@[i as int]));
        }
        i = i + 1;
    }
    proof {
        assert(quotes@.take(quotes@.len() as int) =~= quotes@);
    }
    out
}

/// Index of the first player with the given id, scanning from the front.
pub fn find_player_idx(players: &Vec<Player>, id: &String) -> (r: Option<usize>)
    ensures
        match r {
            Some(i) => {
                &&& i < players@.len()
                &&& players@[i as int].info.id@ == id@
                &&& forall|j: int| 0 <= j < i ==> players@[j].info.id@ != id@
            },
            None => forall|i: int| 0 <= i < players@.len() ==> players@[i].info.id@ != id@,
        },
{
    let mut i: usize = 0;
    while i < players.len()
        invariant
            i <= players@.len(),
            forall|j: int| 0 <= j < i ==> players@[j].info.id@ != id@,
        decreases players@.len() - i,
    {
        if players[i].info.id.eq(id) {
            return Some(i);
        }
        i = i + 1;
    }
    None
}

} // verus!
