//! State-machine behavior: construction, legality checks, token economy,
//! conservation, turn bookkeeping and termination.

use hanabi::state::State;
use hanabi::{Card, Color, IllegalMoves, Value};

/// Check the conservation law on a concrete state.
fn assert_conserved(s: &State) {
    let in_hands: usize = s.players.iter().map(|h| h.len()).sum();
    let score: usize = s.table.iter().sum();
    assert_eq!(s.deck.len() + in_hands + s.discard.len() + score, 50);
}

/// Clue the target about the color of the first card of their own hand:
/// always truthful, so always accepted while tokens remain.
fn truthful_clue(s: &mut State, target: usize) {
    let color = s.players[target][0].color;
    let r = s.clue_color(target, color);
    assert!(r.is_ok());
}

#[test]
fn construct_three_players() {
    let s = State::new(3).unwrap();
    assert_eq!(s.players.len(), 3);
    for hand in &s.players {
        assert_eq!(hand.len(), 5);
    }
    assert_eq!(s.deck.len(), 35);
    assert_eq!(s.clues, 8);
    assert_eq!(s.mistakes, 0);
    assert_eq!(s.turn, 0);
    assert_eq!(s.turn_empty_deck, 0);
    assert_eq!(s.score(), 0);
    assert!(s.discard.is_empty());
    assert!(s.history.is_empty());
    assert!(!s.gameover());
    assert_conserved(&s);
}

#[test]
fn construct_hand_sizes() {
    assert_eq!(State::new(2).unwrap().players[0].len(), 5);
    assert_eq!(State::new(3).unwrap().players[0].len(), 5);
    assert_eq!(State::new(4).unwrap().players[0].len(), 4);
    assert_eq!(State::new(5).unwrap().players[0].len(), 4);
    assert_eq!(State::new(4).unwrap().deck.len(), 50 - 16);
    assert_eq!(State::new(5).unwrap().deck.len(), 50 - 20);
}

#[test]
fn construct_rejects_bad_player_counts() {
    for n in [0usize, 1, 6, 7, 100] {
        assert_eq!(State::new(n).unwrap_err(), IllegalMoves::InvalidPlayerCount);
    }
}

#[test]
fn construct_deals_the_whole_deck() {
    // every card of the canonical deck is somewhere: deck plus hands
    let s = State::new(4).unwrap();
    let mut counts = [[0usize; 5]; 5];
    for card in s.deck.iter().chain(s.players.iter().flatten()) {
        counts[card.color.0][card.value.0] += 1;
    }
    for c in 0..5 {
        for v in 0..5 {
            let want = [3, 2, 2, 2, 1][v];
            assert_eq!(counts[c][v], want);
        }
    }
}

#[test]
fn play_scenario_records_success_flag() {
    // play(0) advances the turn by 1 and appends exactly one
    // Play record whose success flag is true iff the card was next in line
    for _ in 0..20 {
        let mut s = State::new(3).unwrap();
        let card = s.players[0][0];
        let expected_success = s.table[card.color.0] == card.value.0;
        assert!(s.play(0).is_ok());
        assert_eq!(s.turn, 1);
        assert_eq!(s.history.len(), 1);
        match s.history[0] {
            hanabi::Action::Play { player, position, card: recorded, success } => {
                assert_eq!(player, 0);
                assert_eq!(position, 0);
                assert_eq!(recorded, card);
                assert_eq!(success, expected_success);
            }
            ref other => panic!("expected a Play record, got {:?}", other),
        }
        if expected_success {
            assert_eq!(s.table[card.color.0], card.value.0 + 1);
            assert_eq!(s.mistakes, 0);
            assert!(s.discard.is_empty());
        } else {
            assert_eq!(s.mistakes, 1);
            assert_eq!(s.discard, vec![card]);
        }
        // the play drew a replacement card from the deck
        assert_eq!(s.players[0].len(), 5);
        assert_eq!(s.deck.len(), 34);
        assert_conserved(&s);
    }
}

#[test]
fn play_out_of_range() {
    let mut s = State::new(2).unwrap();
    let before = s.clone();
    assert_eq!(s.play(5).unwrap_err(), IllegalMoves::OutOfRange);
    assert_eq!(s, before);
}

#[test]
fn discard_rejected_at_token_cap() {
    let mut s = State::new(2).unwrap();
    let before = s.clone();
    assert_eq!(s.play_discard(0).unwrap_err(), IllegalMoves::MaxClueTokens);
    assert_eq!(s, before);
}

#[test]
fn discard_refills_a_token_and_draws() {
    let mut s = State::new(2).unwrap();
    truthful_clue(&mut s, 1);
    assert_eq!(s.clues, 7);
    let card = s.players[1][2];
    assert!(s.play_discard(2).is_ok());
    assert_eq!(s.clues, 8);
    assert_eq!(s.turn, 2);
    assert_eq!(s.discard, vec![card]);
    assert_eq!(s.players[1].len(), 5);
    match s.history[1] {
        hanabi::Action::Discard { player, position, card: recorded } => {
            assert_eq!(player, 1);
            assert_eq!(position, 2);
            assert_eq!(recorded, card);
        }
        ref other => panic!("expected a Discard record, got {:?}", other),
    }
    assert_conserved(&s);
}

#[test]
fn clue_scenario_three_players() {
    // with 3 players, a red clue at player 1 succeeds exactly
    // when that hand holds a red card, spending one token and appending
    // one ColorClue record; otherwise it fails empty and changes nothing
    let mut seen_red = false;
    let mut seen_empty = false;
    for _ in 0..200 {
        let mut s = State::new(3).unwrap();
        let has_red = s.players[1].iter().any(|card| card.color == Color::r());
        let before = s.clone();
        let r = s.clue_color(1, Color::r());
        if has_red {
            seen_red = true;
            assert!(r.is_ok());
            assert_eq!(s.clues, 7);
            assert_eq!(s.turn, 1);
            assert_eq!(s.history.len(), 1);
            match s.history[0] {
                hanabi::Action::ColorClue { player, target, color } => {
                    assert_eq!(player, 0);
                    assert_eq!(target, 1);
                    assert_eq!(color, Color::r());
                }
                ref other => panic!("expected a ColorClue record, got {:?}", other),
            }
        } else {
            seen_empty = true;
            assert_eq!(r.unwrap_err(), IllegalMoves::EmptyClue);
            assert_eq!(s.clues, 8);
            assert_eq!(s, before);
        }
        if seen_red && seen_empty {
            break;
        }
    }
    assert!(seen_red);
}

#[test]
fn clue_value_truthful() {
    let mut s = State::new(2).unwrap();
    let value = s.players[1][0].value;
    assert!(s.clue_value(1, value).is_ok());
    match s.history[0] {
        hanabi::Action::ValueClue { player, target, value: recorded } => {
            assert_eq!(player, 0);
            assert_eq!(target, 1);
            assert_eq!(recorded, value);
        }
        ref other => panic!("expected a ValueClue record, got {:?}", other),
    }
}

#[test]
fn self_clue_rejected_unchanged() {
    let mut s = State::new(3).unwrap();
    let before = s.clone();
    assert_eq!(s.clue_color(0, Color::r()).unwrap_err(), IllegalMoves::SelfClue);
    assert_eq!(s, before);
    assert_eq!(s.clue_value(0, Value::new(0)).unwrap_err(), IllegalMoves::SelfClue);
    assert_eq!(s, before);
}

#[test]
fn clue_target_out_of_range() {
    let mut s = State::new(3).unwrap();
    let before = s.clone();
    assert_eq!(s.clue_color(3, Color::r()).unwrap_err(), IllegalMoves::OutOfRange);
    assert_eq!(s, before);
}

#[test]
fn no_clue_tokens_after_eight_clues() {
    let mut s = State::new(2).unwrap();
    for turn in 0..8 {
        let target = 1 - turn % 2;
        truthful_clue(&mut s, target);
    }
    assert_eq!(s.clues, 0);
    let target = 1 - (s.turn % 2);
    let color = s.players[target][0].color;
    let before = s.clone();
    assert_eq!(s.clue_color(target, color).unwrap_err(), IllegalMoves::NoClueTokens);
    assert_eq!(s, before);
}

#[test]
fn discard_cap_scenario() {
    // spend all 8 clues, then discard 8 times; the 8th discard
    // reaches the cap again, so the 9th attempt fails
    let mut s = State::new(2).unwrap();
    for turn in 0..8 {
        let target = 1 - turn % 2;
        truthful_clue(&mut s, target);
    }
    assert_eq!(s.clues, 0);
    for i in 0..8 {
        assert_eq!(s.clues, i);
        assert!(s.play_discard(0).is_ok());
        assert_conserved(&s);
    }
    assert_eq!(s.clues, 8);
    assert_eq!(s.play_discard(0).unwrap_err(), IllegalMoves::MaxClueTokens);
}

#[test]
fn turn_increments_by_one_per_accepted_operation() {
    let mut s = State::new(2).unwrap();
    let mut expected_turn = 0;
    for _ in 0..30 {
        assert_eq!(s.turn, expected_turn);
        // acting player for the next call is turn mod player count
        let actor = s.turn % s.players.len();
        let target = 1 - actor;
        if s.clues < 8 {
            assert!(s.play_discard(0).is_ok());
        } else {
            truthful_clue(&mut s, target);
        }
        expected_turn += 1;
        assert_eq!(s.turn, expected_turn);
        assert_conserved(&s);
    }
}

#[test]
fn gameover_by_mistakes_is_permanent() {
    // once gameover() is true it stays true; rejected calls
    // leave the state untouched
    let mut s = State::new(3).unwrap();
    while !s.gameover() {
        let _ = s.play(0);
        assert_conserved(&s);
    }
    assert!(s.gameover());
    let before = s.clone();
    assert_eq!(s.play(0).unwrap_err(), IllegalMoves::GameOver);
    assert_eq!(s, before);
    let target = (s.turn % 3 + 1) % 3;
    assert_eq!(
        s.clue_color(target, Color::r()).unwrap_err(),
        IllegalMoves::GameOver
    );
    assert_eq!(s, before);
    assert!(s.gameover());
}

#[test]
fn empty_deck_final_round() {
    // drain the deck by alternating clue and discard, then the game runs
    // exactly player_count + 1 further turns
    let mut s = State::new(2).unwrap();
    while s.deck.len() > 0 {
        let actor = s.turn % 2;
        if s.clues < 8 {
            assert!(s.play_discard(0).is_ok());
        } else {
            truthful_clue(&mut s, 1 - actor);
        }
        assert_conserved(&s);
    }
    assert_eq!(s.turn_empty_deck, 0);
    for expected in 1..=3 {
        assert!(!s.gameover());
        let actor = s.turn % 2;
        if s.clues < 8 {
            assert!(s.play_discard(0).is_ok());
        } else {
            truthful_clue(&mut s, 1 - actor);
        }
        assert_eq!(s.turn_empty_deck, expected);
    }
    // turn_since_empty_deck now exceeds the player count
    assert!(s.gameover());
    assert_eq!(s.play(0).unwrap_err(), IllegalMoves::GameOver);
}

#[test]
fn card_constructors() {
    let card = Card::new(Value::new(2), Color::y());
    assert_eq!(card.value, Value::new(2));
    assert_eq!(card.color, Color::y());
    assert_eq!(Color::all(), vec![Color::r(), Color::g(), Color::b(), Color::y(), Color::p()]);
    assert_eq!(
        Value::all(),
        vec![Value::new(0), Value::new(1), Value::new(2), Value::new(3), Value::new(4)]
    );
}

#[test]
fn value_copies_table() {
    let want = [3usize, 2, 2, 2, 1];
    for v in 0..5 {
        assert_eq!(Value::new(v).copies(), want[v]);
    }
}

#[test]
fn color_from_str_letters() {
    assert_eq!(Color::from_str("r"), Color::r());
    assert_eq!(Color::from_str("g"), Color::g());
    assert_eq!(Color::from_str("b"), Color::b());
    assert_eq!(Color::from_str("y"), Color::y());
    assert_eq!(Color::from_str("p"), Color::p());
}

#[test]
fn canonical_deck_order() {
    let deck = Card::deck();
    assert_eq!(deck.len(), 50);
    // colors outer, ranks inner, rank 1 three times first
    assert_eq!(deck[0], Card::new(Value::new(0), Color::r()));
    assert_eq!(deck[2], Card::new(Value::new(0), Color::r()));
    assert_eq!(deck[3], Card::new(Value::new(1), Color::r()));
    assert_eq!(deck[9], Card::new(Value::new(4), Color::r()));
    assert_eq!(deck[10], Card::new(Value::new(0), Color::g()));
    assert_eq!(deck[49], Card::new(Value::new(4), Color::p()));
}
