//! The append-only action log: four mutually exclusive record kinds, one per
//! accepted operation, with a verified human-readable textual form.

use vstd::prelude::*;

use crate::cards::{Card, Color, Value};

verus! {

use vstd::string::StringExecFns;

/// One record of the game history. Records are appended by accepted
/// operations and never removed.
#[derive(Clone, Copy, PartialEq, Eq, Structural, Debug)]
pub enum Action {
    Play { player: usize, position: usize, card: Card, success: bool },
    Discard { player: usize, position: usize, card: Card },
    ColorClue { player: usize, target: usize, color: Color },
    ValueClue { player: usize, target: usize, value: Value },
}

impl Action {
    /// Bounds on a record's fields, relative to the number of players:
    /// actors and targets are player indices, positions are hand slots.
    pub open spec fn wf(self, nplayers: int) -> bool {
        match self {
            Action::Play { player, position, card, success } => player < nplayers && position < 5
                && card.wf(),
            Action::Discard { player, position, card } => player < nplayers && position < 5
                && card.wf(),
            Action::ColorClue { player, target, color } => player < nplayers && target < nplayers
                && color.wf(),
            Action::ValueClue { player, target, value } => player < nplayers && target < nplayers
                && value.wf(),
        }
    }

    /// The spec-level textual form of a record, 1-based as shown to people.
    pub open spec fn text_spec(self) -> Seq<char> {
        match self {
            Action::Play { player, position, card, success } => if success {
                "P"@ + index_digit(player as int) + " plays "@ + card.value.digit()
                    + card.color.letter() + " from position #"@ + index_digit(position as int)
            } else {
                "P"@ + index_digit(player as int) + " plays wrongly "@ + card.value.digit()
                    + card.color.letter() + " from position #"@ + index_digit(position as int)
            },
            Action::Discard { player, position, card } => "P"@ + index_digit(player as int)
                + " discard "@ + card.value.digit() + card.color.letter() + " from position #"@
                + index_digit(position as int),
            Action::ColorClue { player, target, color } => "P"@ + index_digit(player as int)
                + " clues P"@ + index_digit(target as int) + " about "@ + color.letter() + "'s"@,
            Action::ValueClue { player, target, value } => "P"@ + index_digit(player as int)
                + " clues P"@ + index_digit(target as int) + " about "@ + value.digit() + "'s"@,
        }
    }

    /// The human-readable form of a record, e.g. `P1 plays 3r from position #2`.
    pub fn text(&self) -> (r: String)
        requires
            self.wf(5),
        ensures
            r@ == self.text_spec(),
    {
        match self {
            Action::Play { player, position, card, success } => {
                let mut s = String::from_str("P");
                let d = index_text(*player);
                s.append(d.as_str());
                if *success {
                    s.append(" plays ");
                } else {
                    s.append(" plays wrongly ");
                }
                let c = card.text();
                s.append(c.as_str());
                s.append(" from position #");
                let d2 = index_text(*position);
                s.append(d2.as_str());
                s
            },
            Action::Discard { player, position, card } => {
                let mut s = String::from_str("P");
                let d = index_text(*player);
                s.append(d.as_str());
                s.append(" discard ");
                let c = card.text();
                s.append(c.as_str());
                s.append(" from position #");
                let d2 = index_text(*position);
                s.append(d2.as_str());
                s
            },
            Action::ColorClue { player, target, color } => {
                let mut s = String::from_str("P");
                let d = index_text(*player);
                s.append(d.as_str());
                s.append(" clues P");
                let d2 = index_text(*target);
                s.append(d2.as_str());
                s.append(" about ");
                let c = color.text();
                s.append(c.as_str());
                s.append("'s");
                s
            },
            Action::ValueClue { player, target, value } => {
                let mut s = String::from_str("P");
                let d = index_text(*player);
                s.append(d.as_str());
                s.append(" clues P");
                let d2 = index_text(*target);
                s.append(d2.as_str());
                s.append(" about ");
                let v = value.text();
                s.append(v.as_str());
                s.append("'s");
                s
            },
        }
    }
}

/// The printed, 1-based digit for a 0-based player or position index.
pub open spec fn index_digit(i: int) -> Seq<char> {
    if i == 0 {
        "1"@
    } else if i == 1 {
        "2"@
    } else if i == 2 {
        "3"@
    } else if i == 3 {
        "4"@
    } else {
        "5"@
    }
}

/// The printed, 1-based digit for a 0-based index below five.
pub fn index_text(i: usize) -> (r: String)
    requires
        i < 5,
    ensures
        r@ == index_digit(i as int),
{
    let s: &str = if i == 0 {
        "1"
    } else if i == 1 {
        "2"
    } else if i == 2 {
        "3"
    } else if i == 3 {
        "4"
    } else {
        "5"
    };
    String::from_str(s)
}

} // verus!
