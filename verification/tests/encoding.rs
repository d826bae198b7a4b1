//! Encoder and decoder behavior: determinism, the fixed shape, segment
//! contents, arg-max selection and decoder equivalence.

use hanabi::decode::argmax;
use hanabi::encode::ENCODE_LEN;
use hanabi::state::State;
use hanabi::{Color, IllegalMoves};

/// Where rank index `v` starts inside one color's discard thermometers.
fn rank_offset(v: usize) -> usize {
    [0, 3, 5, 7, 9][v]
}

/// Clue the target about the color of the first card of their own hand.
fn spend_clue(s: &mut State, target: usize) {
    let color = s.players[target][0].color;
    assert!(s.clue_color(target, color).is_ok());
}

#[test]
fn encode_is_deterministic() {
    let mut s = State::new(3).unwrap();
    let a = s.encode();
    let b = s.encode();
    assert_eq!(a, b);
    // still deterministic after some moves
    spend_clue(&mut s, 1);
    assert!(s.play(0).is_ok());
    let c = s.encode();
    let d = s.encode();
    assert_eq!(c, d);
    assert_ne!(a, c);
}

#[test]
fn encode_length_is_fixed_across_player_counts() {
    let two = State::new(2).unwrap().encode();
    let five = State::new(5).unwrap().encode();
    assert_eq!(two.len(), ENCODE_LEN);
    assert_eq!(five.len(), two.len());
}

#[test]
fn encode_fresh_game_segments() {
    let s = State::new(2).unwrap();
    let x = s.encode();
    // player-count one-hot: 2 players sets the first of four slots
    assert_eq!(&x[0..4], &[1, -1, -1, -1]);
    // acting-player one-hot: player 0
    assert_eq!(&x[4..9], &[1, -1, -1, -1, -1]);
    // clue thermometer: all 8 set
    assert!(x[9..17].iter().all(|&b| b == 1));
    // mistake thermometer: none set
    assert!(x[17..20].iter().all(|&b| b == -1));
    // deck thermometer: 40 of 50 set
    assert!(x[20..60].iter().all(|&b| b == 1));
    assert!(x[60..70].iter().all(|&b| b == -1));
    // empty discard pile
    assert!(x[70..120].iter().all(|&b| b == -1));
    // the acting player's own hand is hidden
    assert!(x[120..170].iter().all(|&b| b == -1));
    // player 1's five cards are one-hot coded
    for j in 0..5 {
        let card = s.players[1][j];
        let slot = &x[170 + 10 * j..170 + 10 * j + 10];
        for i in 0..5 {
            assert_eq!(slot[i], if i == card.value.0 { 1 } else { -1 });
            assert_eq!(slot[5 + i], if i == card.color.0 { 1 } else { -1 });
        }
    }
    // absent players 2..4 are padding
    assert!(x[220..370].iter().all(|&b| b == -1));
    // table progress: nothing played yet
    assert!(x[370..395].iter().all(|&b| b == -1));
    // history window: empty
    assert!(x[395..].iter().all(|&b| b == -1));
}

#[test]
fn encode_masks_the_acting_player() {
    let mut s = State::new(3).unwrap();
    spend_clue(&mut s, 1);
    // player 1 acts now: their block is hidden, player 0's is visible
    let x = s.encode();
    assert_eq!(&x[4..9], &[-1, 1, -1, -1, -1]);
    assert!(x[120 + 50..120 + 100].iter().all(|&b| b == -1));
    let card = s.players[0][0];
    assert_eq!(x[120 + card.value.0], 1);
    assert_eq!(x[120 + 5 + card.color.0], 1);
}

#[test]
fn encode_discard_composition_and_history() {
    let mut s = State::new(2).unwrap();
    spend_clue(&mut s, 1);
    let discarded = s.players[1][3];
    assert!(s.play_discard(3).is_ok());
    let x = s.encode();
    // clue thermometer back at 8 after the discard refilled it
    assert!(x[9..17].iter().all(|&b| b == 1));
    // exactly one copy of the discarded card is counted
    let base = 70 + discarded.color.0 * 10 + rank_offset(discarded.value.0);
    assert_eq!(x[base], 1);
    for c in 0..5 {
        for v in 0..5 {
            let start = 70 + c * 10 + rank_offset(v);
            let width = [3, 2, 2, 2, 1][v];
            let ones = x[start..start + width].iter().filter(|&&b| b == 1).count();
            let expect = if c == discarded.color.0 && v == discarded.value.0 { 1 } else { 0 };
            assert_eq!(ones, expect);
        }
    }
    // history, newest first: the discard record, then the color clue
    let entry0 = &x[395..395 + 19];
    assert_eq!(&entry0[0..4], &[-1, -1, 1, -1]);
    assert_eq!(entry0[4 + 3], 1);
    assert_eq!(entry0[9 + discarded.value.0], 1);
    assert_eq!(entry0[14 + discarded.color.0], 1);
    let entry1 = &x[395 + 19..395 + 38];
    assert_eq!(&entry1[0..4], &[-1, -1, -1, 1]);
    // a color clue aimed at player 1 leaves the rank field blank
    assert_eq!(entry1[4 + 1], 1);
    assert!(entry1[9..14].iter().all(|&b| b == -1));
    let clued_color = match s.history[0] {
        hanabi::Action::ColorClue { color, .. } => color,
        ref other => panic!("expected a ColorClue record, got {:?}", other),
    };
    assert_eq!(entry1[14 + clued_color.0], 1);
}

#[test]
fn encode_table_thermometer_after_success() {
    // drive one successful play, then its color shows one set slot
    for _ in 0..100 {
        let mut s = State::new(2).unwrap();
        let card = s.players[0][0];
        if s.table[card.color.0] != card.value.0 {
            continue;
        }
        assert!(s.play(0).is_ok());
        let x = s.encode();
        let base = 370 + card.color.0 * 5;
        assert_eq!(x[base], 1);
        assert!(x[base + 1..base + 5].iter().all(|&b| b == -1));
        return;
    }
    panic!("no immediately playable card found in 100 fresh games");
}

#[test]
fn argmax_picks_lowest_index_on_ties() {
    let x = vec![3, 7, 7, 2];
    assert_eq!(argmax(&x, 0, 4), 1);
    assert_eq!(argmax(&x, 2, 4), 2);
    let all_equal = vec![0, 0, 0];
    assert_eq!(argmax(&all_equal, 0, 3), 0);
}

#[test]
fn decode_rejects_wrong_length() {
    let mut s = State::new(2).unwrap();
    let before = s.clone();
    let short = vec![0i32; 22];
    assert_eq!(s.decode(&short).unwrap_err(), IllegalMoves::MalformedVector);
    assert_eq!(s, before);
    let long = vec![0i32; 24];
    assert_eq!(s.decode(&long).unwrap_err(), IllegalMoves::MalformedVector);
    assert_eq!(s, before);
}

#[test]
fn decode_discard_equals_direct_discard() {
    // a decision vector selecting the discard kind and position k drives
    // the state exactly where play_discard(k) does
    let mut s = State::new(3).unwrap();
    spend_clue(&mut s, 1);
    let mut via_decode = s.clone();
    let mut direct = s;
    let mut x = vec![0i32; 23];
    x[1] = 1; // action kind arg-maxes to 1: discard
    x[3 + 2] = 1; // position field arg-maxes to 2
    let r1 = via_decode.decode(&x);
    let r2 = direct.play_discard(2);
    assert_eq!(r1, r2);
    assert!(r1.is_ok());
    assert_eq!(via_decode, direct);
}

#[test]
fn decode_discard_at_cap_matches_direct_error() {
    let s = State::new(3).unwrap();
    let mut via_decode = s.clone();
    let mut direct = s;
    let mut x = vec![0i32; 23];
    x[1] = 1;
    let r1 = via_decode.decode(&x);
    let r2 = direct.play_discard(0);
    assert_eq!(r1, r2);
    assert_eq!(r1.unwrap_err(), IllegalMoves::MaxClueTokens);
    assert_eq!(via_decode, direct);
}

#[test]
fn decode_play_dispatch() {
    let mut s = State::new(3).unwrap();
    let mut direct = s.clone();
    let mut x = vec![0i32; 23];
    x[0] = 1; // action kind 0: play
    x[3 + 4] = 1; // position 4
    let r1 = s.decode(&x);
    let r2 = direct.play(4);
    assert_eq!(r1, r2);
    assert!(r1.is_ok());
    assert_eq!(s, direct);
}

#[test]
fn decode_clue_dispatch_value_and_color() {
    // rank half of the attribute field picks a value clue
    let mut s = State::new(3).unwrap();
    let value = s.players[1][0].value;
    let mut direct = s.clone();
    let mut x = vec![0i32; 23];
    x[2] = 1; // action kind 2: clue
    x[8 + 1] = 1; // target 1
    x[13 + value.0] = 1; // rank half
    let r1 = s.decode(&x);
    let r2 = direct.clue_value(1, value);
    assert_eq!(r1, r2);
    assert!(r1.is_ok());
    assert_eq!(s, direct);

    // color half picks a color clue
    let mut s = State::new(3).unwrap();
    let color = s.players[2][0].color;
    let mut direct = s.clone();
    let mut x = vec![0i32; 23];
    x[2] = 1;
    x[8 + 2] = 1; // target 2
    x[13 + 5 + color.0] = 1; // color half
    let r1 = s.decode(&x);
    let r2 = direct.clue_color(2, color);
    assert_eq!(r1, r2);
    assert!(r1.is_ok());
    assert_eq!(s, direct);
}

#[test]
fn decode_self_clue_propagates() {
    let mut s = State::new(2).unwrap();
    let before = s.clone();
    let mut x = vec![0i32; 23];
    x[2] = 1; // clue
    // target field all zero: arg-max 0, the acting player
    x[13] = 1;
    assert_eq!(s.decode(&x).unwrap_err(), IllegalMoves::SelfClue);
    assert_eq!(s, before);
}

#[test]
fn decode_empty_clue_propagates() {
    // find a color missing from player 1's hand and clue it through decode
    for _ in 0..200 {
        let mut s = State::new(2).unwrap();
        let missing = (0..5).find(|&c| {
            !s.players[1].iter().any(|card| card.color == Color::new(c))
        });
        if let Some(c) = missing {
            let before = s.clone();
            let mut x = vec![0i32; 23];
            x[2] = 1; // clue
            x[8 + 1] = 1; // target 1
            x[13 + 5 + c] = 1; // color half
            assert_eq!(s.decode(&x).unwrap_err(), IllegalMoves::EmptyClue);
            assert_eq!(s, before);
            return;
        }
    }
    panic!("no hand missing a color in 200 fresh games");
}
