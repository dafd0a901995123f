use figgie::action::Action;
use figgie::engine::{Game, GameConfig};
use figgie::event::Event;
use figgie::types::{GameState, Hand, Info, Player, Quote, Side, Suit};

fn info(id: &str) -> Info {
    Info { id: id.to_string(), name: id.to_string() }
}

fn player(id: &str, spades: u8, hearts: u8, diamonds: u8, clubs: u8, cash: i32) -> Player {
    Player { info: info(id), hand: Hand { spades, hearts, diamonds, clubs }, cash }
}

fn config(ids: &[&str], pot: u32) -> GameConfig {
    GameConfig {
        room_name: "room".to_string(),
        room_id: "r1".to_string(),
        players: ids.iter().map(|id| info(id)).collect(),
        starting_cash: 350,
        ante_amount: 50,
        pot,
        trading_duration_secs: 240,
    }
}

fn game(players: Vec<Player>, common: Suit, goal: Suit, pot: u32) -> Game {
    let ids: Vec<String> = players.iter().map(|p| p.info.id.clone()).collect();
    let id_refs: Vec<&str> = ids.iter().map(|s| s.as_str()).collect();
    Game {
        round: 1,
        game_config: config(&id_refs, pot),
        common_suit: common,
        goal_suit: goal,
        state: GameState { players, quotes: Vec::new() },
    }
}

fn quote(id: &str, suit: Suit, side: Side, price: u32) -> Quote {
    Quote { player_id: id.to_string(), suit, side, price }
}

fn cash_of(g: &Game, id: &str) -> i32 {
    g.state.players.iter().find(|p| p.info.id == id).unwrap().cash
}

fn count_of(g: &Game, id: &str, s: Suit) -> u8 {
    g.state.players.iter().find(|p| p.info.id == id).unwrap().hand.count(s)
}

#[test]
fn equal_price_cross_executes_trade() {
    let mut g = game(
        vec![player("a", 1, 0, 0, 0, 100), player("b", 0, 0, 0, 0, 100)],
        Suit::Heart,
        Suit::Diamond,
        200,
    );
    let ev = g.handle_action(Action::PlaceQuote(quote("a", Suit::Spade, Side::Offer, 5)));
    assert_eq!(ev.len(), 1);
    assert!(matches!(ev[0], Event::QuotePlaced { .. }));

    let ev = g.handle_action(Action::PlaceQuote(quote("b", Suit::Spade, Side::Bid, 5)));
    assert_eq!(ev.len(), 1);
    match &ev[0] {
        Event::TradeExecuted { buyer, seller, suit, price } => {
            assert_eq!(buyer, "b");
            assert_eq!(seller, "a");
            assert_eq!(*suit, Suit::Spade);
            assert_eq!(*price, 5);
        }
        other => panic!("expected a trade, got {:?}", other),
    }
    // cash conservation on the trade
    assert_eq!(cash_of(&g, "a"), 105);
    assert_eq!(cash_of(&g, "b"), 95);
    // card conservation: the spade moved from a to b
    assert_eq!(count_of(&g, "a", Suit::Spade), 0);
    assert_eq!(count_of(&g, "b", Suit::Spade), 1);
    assert!(g.state.quotes.is_empty());
}

#[test]
fn unequal_prices_do_not_cross() {
    let mut g = game(
        vec![player("a", 0, 0, 0, 0, 100), player("b", 1, 0, 0, 0, 100)],
        Suit::Heart,
        Suit::Diamond,
        200,
    );
    g.handle_action(Action::PlaceQuote(quote("a", Suit::Spade, Side::Bid, 15)));
    let ev = g.handle_action(Action::PlaceQuote(quote("b", Suit::Spade, Side::Offer, 10)));
    // a bid of 15 and an offer of 10 do not cross; the offer rests instead
    assert!(matches!(ev[0], Event::QuotePlaced { .. }));
    assert_eq!(g.state.quotes.len(), 2);
    assert_eq!(cash_of(&g, "a"), 100);
    assert_eq!(cash_of(&g, "b"), 100);
}

#[test]
fn no_self_cross() {
    let mut g = game(
        vec![player("a", 1, 0, 0, 0, 100), player("b", 0, 0, 0, 0, 100)],
        Suit::Heart,
        Suit::Diamond,
        200,
    );
    g.handle_action(Action::PlaceQuote(quote("a", Suit::Spade, Side::Bid, 5)));
    // same owner, same suit, equal price, opposite side: must not match
    let ev = g.handle_action(Action::PlaceQuote(quote("a", Suit::Spade, Side::Offer, 5)));
    assert!(matches!(ev[0], Event::QuotePlaced { .. }));
    assert_eq!(g.state.quotes.len(), 2);
    assert_eq!(count_of(&g, "a", Suit::Spade), 1);
    assert_eq!(cash_of(&g, "a"), 100);
}

#[test]
fn better_price_replaces_resting_quote() {
    let mut g = game(
        vec![player("a", 0, 0, 0, 0, 100), player("b", 0, 0, 0, 0, 100)],
        Suit::Heart,
        Suit::Diamond,
        200,
    );
    g.handle_action(Action::PlaceQuote(quote("a", Suit::Club, Side::Bid, 10)));
    let ev = g.handle_action(Action::PlaceQuote(quote("b", Suit::Club, Side::Bid, 12)));
    assert!(matches!(ev[0], Event::QuotePlaced { .. }));
    assert_eq!(g.state.quotes.len(), 1);
    assert_eq!(g.state.quotes[0].player_id, "b");
    assert_eq!(g.state.quotes[0].price, 12);
}

#[test]
fn worse_or_equal_price_is_ignored() {
    let mut g = game(
        vec![player("a", 0, 0, 0, 0, 100), player("b", 0, 0, 0, 0, 100)],
        Suit::Heart,
        Suit::Diamond,
        200,
    );
    g.handle_action(Action::PlaceQuote(quote("a", Suit::Club, Side::Bid, 10)));
    let ev = g.handle_action(Action::PlaceQuote(quote("b", Suit::Club, Side::Bid, 9)));
    assert!(ev.is_empty());
    let ev = g.handle_action(Action::PlaceQuote(quote("b", Suit::Club, Side::Bid, 10)));
    assert!(ev.is_empty());
    assert_eq!(g.state.quotes.len(), 1);
    assert_eq!(g.state.quotes[0].player_id, "a");
}

#[test]
fn book_holds_one_quote_per_slot() {
    let mut g = game(
        vec![player("a", 2, 2, 0, 0, 100), player("b", 2, 0, 0, 0, 100)],
        Suit::Heart,
        Suit::Diamond,
        200,
    );
    g.handle_action(Action::PlaceQuote(quote("a", Suit::Spade, Side::Bid, 4)));
    g.handle_action(Action::PlaceQuote(quote("a", Suit::Spade, Side::Offer, 9)));
    g.handle_action(Action::PlaceQuote(quote("b", Suit::Spade, Side::Bid, 6)));
    g.handle_action(Action::PlaceQuote(quote("b", Suit::Spade, Side::Offer, 8)));
    g.handle_action(Action::PlaceQuote(quote("a", Suit::Heart, Side::Offer, 7)));
    for i in 0..g.state.quotes.len() {
        for j in (i + 1)..g.state.quotes.len() {
            let a = &g.state.quotes[i];
            let b = &g.state.quotes[j];
            assert!(!(a.suit == b.suit && a.side == b.side));
        }
    }
    assert_eq!(g.state.quotes.len(), 3);
}

#[test]
fn cancel_removes_exact_match_only() {
    let mut g = game(
        vec![player("a", 0, 0, 0, 0, 100), player("b", 0, 0, 0, 0, 100)],
        Suit::Heart,
        Suit::Diamond,
        200,
    );
    g.handle_action(Action::PlaceQuote(quote("a", Suit::Club, Side::Bid, 10)));
    // wrong price: silent no-op
    let ev = g.handle_action(Action::CancelQuote(quote("a", Suit::Club, Side::Bid, 11)));
    assert!(ev.is_empty());
    assert_eq!(g.state.quotes.len(), 1);
    // wrong owner: silent no-op
    let ev = g.handle_action(Action::CancelQuote(quote("b", Suit::Club, Side::Bid, 10)));
    assert!(ev.is_empty());
    assert_eq!(g.state.quotes.len(), 1);
    // exact match: removed, one broadcast event
    let ev = g.handle_action(Action::CancelQuote(quote("a", Suit::Club, Side::Bid, 10)));
    assert_eq!(ev.len(), 1);
    assert!(matches!(ev[0], Event::QuoteCanceled { .. }));
    assert!(g.state.quotes.is_empty());
}

#[test]
fn cancel_all_removes_only_own_quotes() {
    let mut g = game(
        vec![player("a", 1, 0, 0, 0, 100), player("b", 0, 0, 0, 0, 100)],
        Suit::Heart,
        Suit::Diamond,
        200,
    );
    g.handle_action(Action::PlaceQuote(quote("a", Suit::Club, Side::Bid, 10)));
    g.handle_action(Action::PlaceQuote(quote("a", Suit::Spade, Side::Offer, 20)));
    g.handle_action(Action::PlaceQuote(quote("b", Suit::Heart, Side::Bid, 5)));
    let ev = g.handle_action(Action::CancelAll("a".to_string()));
    assert!(ev.is_empty());
    assert_eq!(g.state.quotes.len(), 1);
    assert_eq!(g.state.quotes[0].player_id, "b");
}

#[test]
fn illegal_actions_change_nothing() {
    let mut g = game(
        vec![player("a", 1, 0, 0, 0, 100), player("b", 0, 0, 0, 0, 100)],
        Suit::Heart,
        Suit::Diamond,
        200,
    );
    // price below the minimum
    assert!(g.handle_action(Action::PlaceQuote(quote("a", Suit::Spade, Side::Bid, 0))).is_empty());
    // price above the maximum
    assert!(
        g.handle_action(Action::PlaceQuote(quote("a", Suit::Spade, Side::Bid, 101))).is_empty()
    );
    // offering a suit not held
    assert!(
        g.handle_action(Action::PlaceQuote(quote("b", Suit::Spade, Side::Offer, 5))).is_empty()
    );
    assert!(g.state.quotes.is_empty());
    assert_eq!(cash_of(&g, "a"), 100);
    assert_eq!(cash_of(&g, "b"), 100);
    // cash sufficiency is deliberately not checked: a bid with no cash is legal
    let mut poor = game(
        vec![player("a", 0, 0, 0, 0, 0), player("b", 0, 0, 0, 0, 0)],
        Suit::Heart,
        Suit::Diamond,
        200,
    );
    let ev = poor.handle_action(Action::PlaceQuote(quote("a", Suit::Spade, Side::Bid, 100)));
    assert_eq!(ev.len(), 1);
}

#[test]
fn payout_unique_winner() {
    // goal-suit counts [3, 2, 0, 0], pot 200: bonuses [30, 20, 0, 0],
    // rest 150 all to the unique maximum holder, gains [180, 20, 0, 0]
    let mut g = game(
        vec![
            player("p1", 0, 0, 0, 3, 0),
            player("p2", 0, 0, 0, 2, 0),
            player("p3", 0, 0, 0, 0, 0),
            player("p4", 0, 0, 0, 0, 0),
        ],
        Suit::Spade,
        Suit::Club,
        200,
    );
    let ev = g.handle_action(Action::EndRound);
    assert_eq!(cash_of(&g, "p1"), 180);
    assert_eq!(cash_of(&g, "p2"), 20);
    assert_eq!(cash_of(&g, "p3"), 0);
    assert_eq!(cash_of(&g, "p4"), 0);
    assert_eq!(ev.len(), 1);
    match &ev[0] {
        Event::RoundEnded { players, goal_suit, .. } => {
            assert_eq!(*goal_suit, Suit::Club);
            assert_eq!(players.len(), 4);
            assert_eq!(players[0].cash, 180);
        }
        other => panic!("expected RoundEnded, got {:?}", other),
    }
}

#[test]
fn payout_tied_winners_share_floor() {
    // goal-suit counts [2, 2, 1, 0], pot 200: bonuses [20, 20, 10, 0],
    // rest 150, two tied winners get 75 each, gains [95, 95, 10, 0]
    let mut g = game(
        vec![
            player("p1", 0, 0, 0, 2, 0),
            player("p2", 0, 0, 0, 2, 0),
            player("p3", 0, 0, 0, 1, 0),
            player("p4", 0, 0, 0, 0, 0),
        ],
        Suit::Spade,
        Suit::Club,
        200,
    );
    g.handle_action(Action::EndRound);
    assert_eq!(cash_of(&g, "p1"), 95);
    assert_eq!(cash_of(&g, "p2"), 95);
    assert_eq!(cash_of(&g, "p3"), 10);
    assert_eq!(cash_of(&g, "p4"), 0);
}

#[test]
fn payout_zero_maximum_leaves_pot_unallocated() {
    // nobody holds the goal suit: no bonuses, no winners, nothing paid
    let mut g = game(
        vec![player("p1", 5, 0, 0, 0, 0), player("p2", 5, 0, 0, 0, 0)],
        Suit::Spade,
        Suit::Club,
        200,
    );
    g.handle_action(Action::EndRound);
    assert_eq!(cash_of(&g, "p1"), 0);
    assert_eq!(cash_of(&g, "p2"), 0);
}

#[test]
fn payout_division_remainder_is_lost() {
    // counts [1, 1, 1, 0]: bonuses 10 each, rest 170, three winners add
    // floor(170 / 3) = 56 each to their bonus; the remainder 2 stays
    // undistributed
    let mut g = game(
        vec![
            player("p1", 0, 0, 0, 1, 0),
            player("p2", 0, 0, 0, 1, 0),
            player("p3", 0, 0, 0, 1, 0),
            player("p4", 0, 0, 0, 0, 0),
        ],
        Suit::Spade,
        Suit::Club,
        200,
    );
    g.handle_action(Action::EndRound);
    assert_eq!(cash_of(&g, "p1"), 66);
    assert_eq!(cash_of(&g, "p2"), 66);
    assert_eq!(cash_of(&g, "p3"), 66);
    assert_eq!(cash_of(&g, "p4"), 0);
}

#[test]
fn new_game_deals_complete_deck() {
    let cfg = config(&["p1", "p2", "p3", "p4"], 200);
    assert!(cfg.is_valid());
    let g = Game::new(cfg);
    assert_eq!(g.round, 1);
    assert!(g.state.quotes.is_empty());
    assert_eq!(g.state.players.len(), 4);
    // every player anted: 350 - 50
    for p in &g.state.players {
        assert_eq!(p.cash, 300);
        assert_eq!(p.hand.total(), 10);
    }
    // per-suit totals are a permutation of {10, 10, 8, 12}
    let suits = [Suit::Spade, Suit::Heart, Suit::Diamond, Suit::Club];
    let mut totals: Vec<u32> = suits
        .iter()
        .map(|s| g.state.players.iter().map(|p| p.hand.count(*s) as u32).sum())
        .collect();
    totals.sort();
    assert_eq!(totals, vec![8, 10, 10, 12]);
    // the common suit is the 12-card suit; the goal suit shares its colour
    let common_total: u32 =
        g.state.players.iter().map(|p| p.hand.count(g.common_suit) as u32).sum();
    assert_eq!(common_total, 12);
    assert_ne!(g.goal_suit, g.common_suit);
    let red = |s: Suit| s == Suit::Heart || s == Suit::Diamond;
    assert_eq!(red(g.goal_suit), red(g.common_suit));
}

#[test]
fn new_game_five_players_hand_sizes_differ_by_at_most_one() {
    let g = Game::new(config(&["p1", "p2", "p3", "p4", "p5"], 200));
    let sizes: Vec<u32> = g.state.players.iter().map(|p| p.hand.total()).collect();
    assert_eq!(sizes.iter().sum::<u32>(), 40);
    let max = *sizes.iter().max().unwrap();
    let min = *sizes.iter().min().unwrap();
    assert!(max - min <= 1);
}

#[test]
fn start_round_targets_each_player_privately() {
    let mut g = Game::new(config(&["p1", "p2", "p3", "p4"], 200));
    let ev = g.handle_action(Action::StartRound(2));
    assert_eq!(g.round, 2);
    assert!(g.state.quotes.is_empty());
    assert_eq!(ev.len(), 4);
    for (i, e) in ev.iter().enumerate() {
        match e {
            Event::RoundStarted { round_id, player, .. } => {
                assert_eq!(*round_id, 2);
                // each event is targeted to exactly the player it carries
                assert_eq!(e.target_player(), Some(&player.info.id));
                assert_eq!(player.info.id, g.state.players[i].info.id);
                assert_eq!(player.hand, g.state.players[i].hand);
            }
            other => panic!("expected RoundStarted, got {:?}", other),
        }
    }
}

#[test]
fn start_round_clears_book_and_keeps_cash() {
    let mut g = Game::new(config(&["p1", "p2", "p3", "p4"], 200));
    let cash_before: Vec<i32> = g.state.players.iter().map(|p| p.cash).collect();
    g.handle_action(Action::PlaceQuote(quote("p1", Suit::Spade, Side::Bid, 7)));
    assert_eq!(g.state.quotes.len(), 1);
    g.handle_action(Action::StartRound(2));
    assert!(g.state.quotes.is_empty());
    let cash_after: Vec<i32> = g.state.players.iter().map(|p| p.cash).collect();
    assert_eq!(cash_before, cash_after);
}

#[test]
fn end_game_is_terminal_and_carries_standings() {
    let mut g = game(
        vec![player("a", 1, 0, 0, 0, 7), player("b", 0, 0, 0, 0, 9)],
        Suit::Heart,
        Suit::Diamond,
        200,
    );
    let ev = g.handle_action(Action::EndGame);
    assert_eq!(ev.len(), 1);
    assert!(ev[0].is_terminal());
    match &ev[0] {
        Event::GameEnded { players } => {
            assert_eq!(players.len(), 2);
            assert_eq!(players[0].cash, 7);
            assert_eq!(players[1].cash, 9);
        }
        other => panic!("expected GameEnded, got {:?}", other),
    }
    // the state itself is untouched
    assert_eq!(cash_of(&g, "a"), 7);
}

#[test]
fn noop_changes_nothing() {
    let mut g = game(
        vec![player("a", 1, 0, 0, 0, 7)],
        Suit::Heart,
        Suit::Diamond,
        200,
    );
    let ev = g.handle_action(Action::NoOp);
    assert!(ev.is_empty());
    assert_eq!(cash_of(&g, "a"), 7);
}

#[test]
fn suit_totals_conserved_across_actions() {
    let suits = [Suit::Spade, Suit::Heart, Suit::Diamond, Suit::Club];
    let totals = |g: &Game| -> Vec<u32> {
        suits
            .iter()
            .map(|s| g.state.players.iter().map(|p| p.hand.count(*s) as u32).sum())
            .collect()
    };
    let mut g = game(
        vec![player("a", 3, 2, 1, 0, 100), player("b", 1, 2, 3, 4, 100)],
        Suit::Heart,
        Suit::Diamond,
        200,
    );
    let before = totals(&g);
    g.handle_action(Action::PlaceQuote(quote("a", Suit::Spade, Side::Offer, 9)));
    assert_eq!(totals(&g), before);
    g.handle_action(Action::PlaceQuote(quote("b", Suit::Spade, Side::Bid, 9)));
    assert_eq!(totals(&g), before);
    g.handle_action(Action::PlaceQuote(quote("b", Suit::Club, Side::Offer, 4)));
    g.handle_action(Action::PlaceQuote(quote("b", Suit::Club, Side::Offer, 3)));
    g.handle_action(Action::CancelQuote(quote("b", Suit::Club, Side::Offer, 3)));
    g.handle_action(Action::EndRound);
    assert_eq!(totals(&g), before);
}

#[test]
fn winners_query_matches_settlement() {
    let g = game(
        vec![
            player("p1", 0, 0, 0, 2, 0),
            player("p2", 0, 0, 0, 2, 0),
            player("p3", 0, 0, 0, 1, 0),
        ],
        Suit::Spade,
        Suit::Club,
        200,
    );
    assert_eq!(g.winners(), vec!["p1".to_string(), "p2".to_string()]);
    // a maximum of zero yields no winners
    let empty = game(
        vec![player("p1", 3, 0, 0, 0, 0), player("p2", 0, 4, 0, 0, 0)],
        Suit::Spade,
        Suit::Club,
        200,
    );
    assert!(empty.winners().is_empty());
}

#[test]
fn within_limits_flags_extreme_balances() {
    let ok = game(vec![player("a", 0, 0, 0, 0, 100)], Suit::Heart, Suit::Diamond, 200);
    assert!(ok.within_limits());
    let broke = game(
        vec![player("a", 0, 0, 0, 0, 2_000_000_000)],
        Suit::Heart,
        Suit::Diamond,
        200,
    );
    assert!(!broke.within_limits());
}

#[test]
fn config_validation() {
    assert!(config(&["p1", "p2"], 200).is_valid());
    // duplicate ids
    assert!(!config(&["p1", "p1"], 200).is_valid());
    // no players
    assert!(!config(&[], 200).is_valid());
    // ante above starting cash
    let mut cfg = config(&["p1"], 200);
    cfg.ante_amount = 500;
    assert!(!cfg.is_valid());
}
