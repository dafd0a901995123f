use figgie::action::Action;
use figgie::event::Event;
use figgie::robot::{apply_event, can_apply, LoopControl, RobotState};
use figgie::routing::should_deliver;
use figgie::rules::{is_action_legal, player_suit_count};
use figgie::types::{GameState, Hand, Info, Player, Quote, Side, Suit};
use figgie::utils::find_matching_quote_idx;
use figgie::wire::ActionView;

fn player(id: &str, spades: u8, hearts: u8, diamonds: u8, clubs: u8, cash: i32) -> Player {
    Player {
        info: Info { id: id.to_string(), name: id.to_string() },
        hand: Hand { spades, hearts, diamonds, clubs },
        cash,
    }
}

fn quote(id: &str, suit: Suit, side: Side, price: u32) -> Quote {
    Quote { player_id: id.to_string(), suit, side, price }
}

fn state(players: Vec<Player>) -> GameState {
    GameState { players, quotes: Vec::new() }
}

#[test]
fn validator_checks_price_range_and_holdings() {
    let st = state(vec![player("a", 1, 0, 0, 0, 0)]);
    let bid = |p: u32| Action::PlaceQuote(quote("a", Suit::Spade, Side::Bid, p));
    assert!(!is_action_legal(&st, "a".to_string(), &bid(0)));
    assert!(is_action_legal(&st, "a".to_string(), &bid(1)));
    assert!(is_action_legal(&st, "a".to_string(), &bid(100)));
    assert!(!is_action_legal(&st, "a".to_string(), &bid(101)));
    // an offer needs a card of the suit; a bid does not
    let offer_spade = Action::PlaceQuote(quote("a", Suit::Spade, Side::Offer, 5));
    let offer_heart = Action::PlaceQuote(quote("a", Suit::Heart, Side::Offer, 5));
    assert!(is_action_legal(&st, "a".to_string(), &offer_spade));
    assert!(!is_action_legal(&st, "a".to_string(), &offer_heart));
    // control and cancel actions are always legal
    assert!(is_action_legal(&st, "a".to_string(), &Action::NoOp));
    assert!(is_action_legal(&st, "a".to_string(), &Action::CancelAll("a".to_string())));
    assert!(is_action_legal(
        &st,
        "a".to_string(),
        &Action::CancelQuote(quote("a", Suit::Heart, Side::Offer, 5))
    ));
    assert!(is_action_legal(&st, "a".to_string(), &Action::EndRound));
}

#[test]
fn suit_count_of_unknown_player_is_zero() {
    let st = state(vec![player("a", 3, 0, 0, 0, 0)]);
    assert_eq!(player_suit_count(&st, &"a".to_string(), Suit::Spade), 3);
    assert_eq!(player_suit_count(&st, &"a".to_string(), Suit::Heart), 0);
    assert_eq!(player_suit_count(&st, &"ghost".to_string(), Suit::Spade), 0);
}

#[test]
fn find_matching_quote_picks_first_cross() {
    let quotes = vec![
        quote("a", Suit::Spade, Side::Bid, 5),
        quote("b", Suit::Spade, Side::Bid, 7),
        quote("b", Suit::Heart, Side::Bid, 7),
    ];
    // same owner never matches
    let own = quote("a", Suit::Spade, Side::Offer, 5);
    assert_eq!(find_matching_quote_idx(&quotes, &own), None);
    // equal price, opposite side, different owner
    let hit = quote("c", Suit::Spade, Side::Offer, 7);
    assert_eq!(find_matching_quote_idx(&quotes, &hit), Some(1));
    // prices must be exactly equal
    let near = quote("c", Suit::Spade, Side::Offer, 6);
    assert_eq!(find_matching_quote_idx(&quotes, &near), None);
}

#[test]
fn suit_and_side_names_parse() {
    assert_eq!(Suit::from_str("Spade"), Ok(Suit::Spade));
    assert_eq!(Suit::from_str("Heart"), Ok(Suit::Heart));
    assert_eq!(Suit::from_str("Diamond"), Ok(Suit::Diamond));
    assert_eq!(Suit::from_str("Club"), Ok(Suit::Club));
    assert_eq!(Suit::from_str("spade"), Err("invalid suit"));
    assert_eq!(Suit::from_str(""), Err("invalid suit"));
    assert_eq!(Side::from_str("Bid"), Ok(Side::Bid));
    assert_eq!(Side::from_str("Offer"), Ok(Side::Offer));
    assert_eq!(Side::from_str("Sell"), Err("invalid side"));
}

#[test]
fn wire_actions_convert() {
    let view = ActionView::PlaceQuote {
        player_id: "a".to_string(),
        suit: "Heart".to_string(),
        side: "Bid".to_string(),
        price: 9,
    };
    match Action::try_from(view) {
        Ok(Action::PlaceQuote(q)) => {
            assert_eq!(q.player_id, "a");
            assert_eq!(q.suit, Suit::Heart);
            assert_eq!(q.side, Side::Bid);
            assert_eq!(q.price, 9);
        }
        other => panic!("expected PlaceQuote, got {:?}", other),
    }
    let bad = ActionView::CancelQuote {
        player_id: "a".to_string(),
        suit: "Joker".to_string(),
        side: "Bid".to_string(),
        price: 9,
    };
    assert!(matches!(Action::try_from(bad), Err("invalid suit")));
    let ctrl = ActionView::StartRound { round_id: 3, room_id: "r".to_string() };
    assert!(matches!(Action::try_from(ctrl), Ok(Action::StartRound(3))));
    let end = ActionView::EndRound { round_id: 3, room_id: "r".to_string() };
    assert!(matches!(Action::try_from(end), Ok(Action::EndRound)));
}

#[test]
fn round_started_is_delivered_only_to_its_player() {
    let ev = Event::RoundStarted {
        round_id: 1,
        server_time: 0,
        player: player("alice", 1, 2, 3, 4, 300),
    };
    assert!(should_deliver(&ev, &"alice".to_string()));
    assert!(!should_deliver(&ev, &"bob".to_string()));
    assert_eq!(ev.target_player(), Some(&"alice".to_string()));
}

#[test]
fn broadcast_events_reach_everyone() {
    let trade = Event::TradeExecuted {
        buyer: "a".to_string(),
        seller: "b".to_string(),
        suit: Suit::Spade,
        price: 5,
    };
    assert!(should_deliver(&trade, &"a".to_string()));
    assert!(should_deliver(&trade, &"c".to_string()));
    assert_eq!(trade.target_player(), None);
    let ended = Event::GameEnded { players: vec![] };
    assert!(should_deliver(&ended, &"anyone".to_string()));
    assert!(ended.is_terminal());
    assert!(!trade.is_terminal());
}

#[test]
fn robot_mirrors_a_buy() {
    let mut st = RobotState::new("r1".to_string(), Hand { spades: 1, hearts: 0, diamonds: 0, clubs: 0 }, 50);
    st.quotes.push(quote("x", Suit::Spade, Side::Offer, 7));
    let ev = Event::TradeExecuted {
        buyer: "r1".to_string(),
        seller: "x".to_string(),
        suit: Suit::Spade,
        price: 7,
    };
    assert!(can_apply(&st, &ev));
    let r = apply_event(&mut st, ev);
    assert_eq!(r, Some(LoopControl::Continue));
    assert_eq!(st.hand.spades, 2);
    assert_eq!(st.cash, 43);
    assert!(st.quotes.is_empty());
}

#[test]
fn robot_mirrors_a_sale_only_while_holding() {
    let mut st = RobotState::new("r1".to_string(), Hand { spades: 1, hearts: 0, diamonds: 0, clubs: 0 }, 50);
    let sale = |price: u32| Event::TradeExecuted {
        buyer: "x".to_string(),
        seller: "r1".to_string(),
        suit: Suit::Spade,
        price,
    };
    assert_eq!(apply_event(&mut st, sale(5)), Some(LoopControl::Continue));
    assert_eq!(st.hand.spades, 0);
    assert_eq!(st.cash, 55);
    // a second sale of a suit no longer held moves nothing
    assert_eq!(apply_event(&mut st, sale(5)), Some(LoopControl::Continue));
    assert_eq!(st.hand.spades, 0);
    assert_eq!(st.cash, 55);
}

#[test]
fn robot_tracks_quotes() {
    let mut st = RobotState::new("r1".to_string(), Hand::default(), 0);
    let q = quote("x", Suit::Club, Side::Bid, 3);
    let placed = Event::QuotePlaced { player: "x".to_string(), quote: q.clone() };
    assert_eq!(apply_event(&mut st, placed), Some(LoopControl::Continue));
    assert_eq!(st.quotes.len(), 1);
    let canceled = Event::QuoteCanceled { player: "x".to_string(), quote: q };
    assert_eq!(apply_event(&mut st, canceled), Some(LoopControl::Continue));
    assert!(st.quotes.is_empty());
}

#[test]
fn robot_resets_on_round_start() {
    let mut st = RobotState::new("r1".to_string(), Hand::default(), 0);
    st.quotes.push(quote("x", Suit::Club, Side::Bid, 3));
    let ev = Event::RoundStarted {
        round_id: 2,
        server_time: 0,
        player: player("r1", 4, 3, 2, 1, 300),
    };
    assert_eq!(apply_event(&mut st, ev), Some(LoopControl::Start));
    assert_eq!(st.hand, Hand { spades: 4, hearts: 3, diamonds: 2, clubs: 1 });
    assert_eq!(st.cash, 300);
    assert!(st.quotes.is_empty());
}

#[test]
fn robot_round_end_check_accepts_consistent_state() {
    // goal Club, bot holds 2 of 10 dealt goal cards, not the maximum:
    // expected cash is 0 + 2 * 10 = 20
    let mut st = RobotState::new("r1".to_string(), Hand { spades: 0, hearts: 0, diamonds: 0, clubs: 2 }, 0);
    let ev = Event::RoundEnded {
        round_id: 1,
        players: vec![player("r1", 0, 0, 0, 2, 20), player("x", 0, 0, 0, 8, 0)],
        server_time: 0,
        goal_suit: Suit::Club,
    };
    assert!(can_apply(&st, &ev));
    assert_eq!(apply_event(&mut st, ev), Some(LoopControl::Pause));
    assert_eq!(st.cash, 20);
    assert!(st.quotes.is_empty());
}

#[test]
fn robot_round_end_check_flags_divergence() {
    let mut st = RobotState::new("r1".to_string(), Hand { spades: 0, hearts: 0, diamonds: 0, clubs: 2 }, 0);
    // engine reports a cash the bot cannot reproduce
    let ev = Event::RoundEnded {
        round_id: 1,
        players: vec![player("r1", 0, 0, 0, 2, 21), player("x", 0, 0, 0, 8, 0)],
        server_time: 0,
        goal_suit: Suit::Club,
    };
    assert_eq!(apply_event(&mut st, ev), None);
    // the bot's state is left untouched on divergence
    assert_eq!(st.cash, 0);
    // an engine report that omits the bot entirely also diverges
    let missing = Event::RoundEnded {
        round_id: 1,
        players: vec![player("x", 0, 0, 0, 8, 0)],
        server_time: 0,
        goal_suit: Suit::Club,
    };
    assert_eq!(apply_event(&mut st, missing), None);
}

#[test]
fn robot_round_end_winner_share() {
    // goal Club, 8 dealt: expected pot rest is 120; the bot ties the
    // maximum with one other player, so it expects 4 * 10 + 120 / 2 = 100
    let mut st = RobotState::new("r1".to_string(), Hand { spades: 0, hearts: 0, diamonds: 0, clubs: 4 }, 0);
    let ev = Event::RoundEnded {
        round_id: 1,
        players: vec![player("r1", 0, 0, 0, 4, 100), player("x", 0, 0, 0, 4, 0)],
        server_time: 0,
        goal_suit: Suit::Club,
    };
    assert_eq!(apply_event(&mut st, ev), Some(LoopControl::Pause));
    assert_eq!(st.cash, 100);
}

#[test]
fn robot_stops_on_game_end() {
    let mut st = RobotState::new("r1".to_string(), Hand::default(), 0);
    st.quotes.push(quote("x", Suit::Club, Side::Bid, 3));
    let ev = Event::GameEnded { players: vec![] };
    assert_eq!(apply_event(&mut st, ev), Some(LoopControl::Break));
    assert!(st.quotes.is_empty());
}
