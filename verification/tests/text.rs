//! Textual forms: cards as `"<rank><color-letter>"` and history records as
//! human-readable sentences, matching the diagnostics format.

use hanabi::state::State;
use hanabi::{Action, Card, Color, Value};

#[test]
fn color_letters() {
    assert_eq!(Color::r().text(), "r");
    assert_eq!(Color::g().text(), "g");
    assert_eq!(Color::b().text(), "b");
    assert_eq!(Color::y().text(), "y");
    assert_eq!(Color::p().text(), "p");
}

#[test]
fn value_digits_are_one_based() {
    assert_eq!(Value::new(0).text(), "1");
    assert_eq!(Value::new(4).text(), "5");
}

#[test]
fn card_text_form() {
    assert_eq!(Card::new(Value::new(2), Color::r()).text(), "3r");
    assert_eq!(Card::new(Value::new(0), Color::p()).text(), "1p");
    assert_eq!(Card::new(Value::new(4), Color::y()).text(), "5y");
}

#[test]
fn action_text_play() {
    let card = Card::new(Value::new(2), Color::r());
    let ok = Action::Play { player: 0, position: 1, card, success: true };
    assert_eq!(ok.text(), "P1 plays 3r from position #2");
    let bad = Action::Play { player: 2, position: 4, card, success: false };
    assert_eq!(bad.text(), "P3 plays wrongly 3r from position #5");
}

#[test]
fn action_text_discard() {
    let card = Card::new(Value::new(0), Color::b());
    let a = Action::Discard { player: 1, position: 0, card };
    assert_eq!(a.text(), "P2 discard 1b from position #1");
}

#[test]
fn action_text_clues() {
    let c = Action::ColorClue { player: 0, target: 1, color: Color::g() };
    assert_eq!(c.text(), "P1 clues P2 about g's");
    let v = Action::ValueClue { player: 3, target: 0, value: Value::new(4) };
    assert_eq!(v.text(), "P4 clues P1 about 5's");
}

#[test]
fn deck_text_lists_remaining_cards() {
    let s = State::new(2).unwrap();
    let texts = s.deck_text();
    assert_eq!(texts.len(), s.deck.len());
    for (t, card) in texts.iter().zip(s.deck.iter()) {
        assert_eq!(*t, card.text());
        assert_eq!(t.len(), 2);
    }
}

#[test]
fn history_text_matches_records() {
    let mut s = State::new(2).unwrap();
    let color = s.players[1][0].color;
    assert!(s.clue_color(1, color).is_ok());
    assert!(s.play_discard(0).is_ok());
    let texts = s.history_text();
    assert_eq!(texts.len(), 2);
    let mut want = String::from("P1 clues P2 about ");
    want.push_str(&color.text());
    want.push_str("'s");
    assert_eq!(texts[0], want);
    assert!(texts[1].starts_with("P2 discard "));
    assert!(texts[1].ends_with(" from position #1"));
}
