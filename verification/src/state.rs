//! The game state machine: construction, the play/discard/clue operations,
//! and the termination predicate, with exact relational contracts.

use vstd::prelude::*;

use crate::action::Action;
use crate::cards::{canonical_deck, lemma_deck_up_to_len, lemma_deck_up_to_wf, Card, Color, Value};

use rand::seq::SliceRandom;

verus! {

/// Why an operation was rejected. All are ordinary recoverable outcomes;
/// no operation mutates state when it returns one of these.
#[derive(Clone, Copy, PartialEq, Eq, Structural, Debug)]
pub enum IllegalMoves {
    /// Construction was asked for a player count outside 2..=5.
    InvalidPlayerCount,
    /// A hand position or player index was out of bounds.
    OutOfRange,
    /// The game has already ended.
    GameOver,
    /// A discard was attempted while the clue tokens are at their cap.
    MaxClueTokens,
    /// A clue was attempted with no clue tokens left.
    NoClueTokens,
    /// A player tried to clue their own hand.
    SelfClue,
    /// A clue that matches no card in the target's hand.
    EmptyClue,
    /// A decision vector of the wrong total length.
    MalformedVector,
}

/// Which attribute a clue names: the shared legality check is written once
/// over this choice, as both clue operations use the same rules.
#[derive(Clone, Copy, PartialEq, Eq, Structural, Debug)]
pub enum ClueKind {
    ByColor(Color),
    ByValue(Value),
}

/// Whether a card satisfies a clue.
pub open spec fn matches_kind(card: Card, kind: ClueKind) -> bool {
    match kind {
        ClueKind::ByColor(color) => card.color == color,
        ClueKind::ByValue(value) => card.value == value,
    }
}

/// The whole game state. A single instance is owned exclusively by its
/// caller; the operations below are the only mutators that keep `wf`.
#[derive(Clone, PartialEq, Debug)]
pub struct State {
    /// Count of accepted operations so far; the acting player is
    /// `turn % players.len()`.
    pub turn: usize,
    /// Turns taken since the draw pile became empty (the final-round rule).
    pub turn_empty_deck: usize,
    /// Clue tokens in 0..=8, shared by all players.
    pub clues: usize,
    /// Mistake tokens in 0..=3; the game ends at 3.
    pub mistakes: usize,
    /// One ordered hand per player; new draws are inserted at the front.
    pub players: Vec<Vec<Card>>,
    /// Per-color progress: the highest consecutively completed rank.
    pub table: [usize; 5],
    /// The draw pile; cards are drawn from its end.
    pub deck: Vec<Card>,
    /// Cards removed from play: failed plays and explicit discards.
    pub discard: Vec<Card>,
    /// The append-only action log, oldest first.
    pub history: Vec<Action>,
}

/// Initial (and, while the deck is nonempty, current) hand size:
/// 5 cards for 2 or 3 players, 4 for 4 or 5 players.
pub open spec fn handsize(n: int) -> int {
    if n <= 3 {
        5
    } else {
        4
    }
}

/// Total number of cards currently held in hands.
pub open spec fn cards_in_hands(hs: Seq<Seq<Card>>) -> int
    decreases hs.len(),
{
    if hs.len() == 0 {
        0
    } else {
        cards_in_hands(hs.drop_last()) + hs.last().len()
    }
}

impl State {
    /// The number of players.
    pub open spec fn nplayers(self) -> int {
        self.players@.len() as int
    }

    /// The hands as a sequence of sequences of cards.
    pub open spec fn hands(self) -> Seq<Seq<Card>> {
        Seq::new(self.players@.len(), |i: int| self.players@[i]@)
    }

    /// The player whose turn it is.
    pub open spec fn actor(self) -> int {
        self.turn as int % self.nplayers()
    }

    /// The score: the sum of the five per-color progress counters.
    pub open spec fn score_spec(self) -> int {
        self.table[0] + self.table[1] + self.table[2] + self.table[3] + self.table[4]
    }

    /// The termination predicate: the final round has run out, or three
    /// mistakes were made, or every color is complete.
    pub open spec fn gameover_spec(self) -> bool {
        self.turn_empty_deck > self.nplayers() || self.mistakes >= 3 || self.score_spec() >= 25
    }

    /// Well-formedness: every reachable state satisfies this.
    pub open spec fn wf(self) -> bool {
        &&& 2 <= self.nplayers() <= 5
        &&& self.clues <= 8
        &&& self.mistakes <= 3
        &&& self.turn_empty_deck <= self.nplayers() + 1
        &&& self.turn == self.history@.len()
        &&& forall|c: int| 0 <= c < 5 ==> self.table[c] <= 5
        &&& forall|p: int|
            0 <= p < self.nplayers() ==> (#[trigger] self.hands()[p]).len() <= handsize(
                self.nplayers(),
            )
        &&& (self.deck@.len() > 0 ==> forall|p: int|
            0 <= p < self.nplayers() ==> (#[trigger] self.hands()[p]).len() == handsize(
                self.nplayers(),
            ))
        &&& forall|i: int| 0 <= i < self.deck@.len() ==> (#[trigger] self.deck@[i]).wf()
        &&& forall|i: int| 0 <= i < self.discard@.len() ==> (#[trigger] self.discard@[i]).wf()
        &&& forall|p: int, j: int|
            0 <= p < self.nplayers() && 0 <= j < self.hands()[p].len() ==> (
            #[trigger] self.hands()[p][j]).wf()
        &&& forall|i: int|
            0 <= i < self.history@.len() ==> (#[trigger] self.history@[i]).wf(self.nplayers())
        &&& self.deck@.len() + cards_in_hands(self.hands()) + self.discard@.len()
            + self.score_spec() == 50
    }

    /// The termination predicate as executable code.
    pub fn gameover(&self) -> (r: bool)
        requires
            self.wf(),
        ensures
            r == self.gameover_spec(),
    {
        self.turn_empty_deck > self.players.len() || self.mistakes >= 3 || self.score() >= 25
    }

    /// The score as executable code.
    pub fn score(&self) -> (r: usize)
        requires
            self.wf(),
        ensures
            r == self.score_spec(),
    {
        self.table[0] + self.table[1] + self.table[2] + self.table[3] + self.table[4]
    }
}

impl State {
    /// The remaining draw-pile contents in their textual form, for
    /// diagnostics.
    pub fn deck_text(&self) -> (r: Vec<String>)
        requires
            self.wf(),
        ensures
            r@.len() == self.deck@.len(),
            forall|i: int|
                0 <= i < r@.len() ==> (#[trigger] r@[i])@ == self.deck@[i].value.digit()
                    + self.deck@[i].color.letter(),
    {
        let mut r: Vec<String> = Vec::new();
        let mut i: usize = 0;
        while i < self.deck.len()
            invariant
                i <= self.deck@.len(),
                self.wf(),
                r@.len() == i,
                forall|j: int|
                    0 <= j < i ==> (#[trigger] r@[j])@ == self.deck@[j].value.digit()
                        + self.deck@[j].color.letter(),
            decreases self.deck@.len() - i,
        {
            let t = self.deck[i].text();
            r.push(t);
            i = i + 1;
        }
        r
    }

    /// The whole action log in its human-readable form, oldest first.
    pub fn history_text(&self) -> (r: Vec<String>)
        requires
            self.wf(),
        ensures
            r@.len() == self.history@.len(),
            forall|i: int|
                0 <= i < r@.len() ==> (#[trigger] r@[i])@ == self.history@[i].text_spec(),
    {
        let mut r: Vec<String> = Vec::new();
        let mut i: usize = 0;
        while i < self.history.len()
            invariant
                i <= self.history@.len(),
                self.wf(),
                r@.len() == i,
                forall|j: int|
                    0 <= j < i ==> (#[trigger] r@[j])@ == self.history@[j].text_spec(),
            decreases self.history@.len() - i,
        {
            let a = &self.history[i];
            proof {
                assert(self.history@[i as int].wf(self.nplayers()));
            }
            let t = a.text();
            r.push(t);
            i = i + 1;
        }
        r
    }
}

/// Relies on `rand::seq::SliceRandom::shuffle` (with `rand::thread_rng` as
/// the generator): a Fisher-Yates pass of in-place swaps, so the slice after
/// the call holds exactly the same cards, rearranged. Nothing is assumed
/// about the order that comes back.
#[verifier::external_body]
fn shuffle_cards(deck: &mut Vec<Card>)
    ensures
        final(deck)@.to_multiset() == old(deck)@.to_multiset(),
        final(deck)@.len() == old(deck)@.len(),
{
    deck.shuffle(&mut rand::thread_rng())
}

/// The deal that `State::new` performs: each player takes one consecutive
/// block of `handsize` cards from the shuffled deck `d`, and the rest is
/// the draw pile.
pub open spec fn dealt_from(s: State, d: Seq<Card>, n: int) -> bool {
    let nc = handsize(n);
    &&& d.len() == 50
    &&& d.to_multiset() == canonical_deck().to_multiset()
    &&& s.nplayers() == n
    &&& forall|p: int| 0 <= p < n ==> #[trigger] s.hands()[p] == d.subrange(p * nc, (p + 1) * nc)
    &&& s.deck@ == d.subrange(n * nc, 50)
}

impl State {
    /// Construct a fresh game: build the canonical deck, shuffle it
    /// uniformly, deal consecutive blocks, and start with 8 clue tokens,
    /// no mistakes, and an empty discard pile and history.
    #[verifier::rlimit(50)]
    #[verifier::spinoff_prover]
    pub fn new(nplayer: usize) -> (r: Result<State, IllegalMoves>)
        ensures
            match r {
                Ok(s) => {
                    &&& 2 <= nplayer <= 5
                    &&& s.wf()
                    &&& s.nplayers() == nplayer
                    &&& s.turn == 0
                    &&& s.turn_empty_deck == 0
                    &&& s.clues == 8
                    &&& s.mistakes == 0
                    &&& forall|c: int| 0 <= c < 5 ==> s.table[c] == 0
                    &&& s.discard@.len() == 0
                    &&& s.history@.len() == 0
                    &&& exists|d: Seq<Card>| dealt_from(s, d, nplayer as int)
                    &&& crate::conservation::conserved(s)
                },
                Err(e) => e == IllegalMoves::InvalidPlayerCount && !(2 <= nplayer <= 5),
            },
    {
        if nplayer < 2 || nplayer > 5 {
            return Err(IllegalMoves::InvalidPlayerCount);
        }
        let mut deck = Card::deck();
        shuffle_cards(&mut deck);
        let ghost d = deck@;
        let nc: usize = if nplayer <= 3 {
            5
        } else {
            4
        };
        let mut players: Vec<Vec<Card>> = Vec::new();
        let mut i: usize = 0;
        while i < nplayer
            invariant
                i <= nplayer,
                2 <= nplayer <= 5,
                nc == handsize(nplayer as int),
                deck@ == d,
                d.len() == 50,
                players@.len() == i,
                forall|p: int|
                    0 <= p < i ==> #[trigger] players@[p]@ == d.subrange(
                        p * nc,
                        (p + 1) * nc,
                    ),
            decreases nplayer - i,
        {
            let mut hand: Vec<Card> = Vec::new();
            let mut j: usize = 0;
            proof {
                assert(i * nc + nc <= 25) by (nonlinear_arith)
                    requires
                        i <= 4,
                        nc <= 5,
                ;
                assert((i as int) * (nc as int) + nc == (i as int + 1) * (nc as int))
                    by (nonlinear_arith);
                assert(0 <= (i as int) * (nc as int)) by (nonlinear_arith)
                    requires
                        i >= 0,
                        nc >= 1,
                ;
            }
            while j < nc
                invariant
                    j <= nc,
                    i * nc + nc <= 25,
                    0 <= (i as int) * (nc as int),
                    deck@ == d,
                    d.len() == 50,
                    hand@ == d.subrange((i * nc) as int, (i * nc + j) as int),
                decreases nc - j,
            {
                let idx = i * nc + j;
                hand.push(deck[idx]);
                proof {
                    assert(hand@ =~= d.subrange((i * nc) as int, (i * nc + j + 1) as int));
                }
                j = j + 1;
            }
            players.push(hand);
            proof {
                assert((i as int) * (nc as int) + nc == (i as int + 1) * (nc as int))
                    by (nonlinear_arith);
                assert forall|p: int|
                    0 <= p < i + 1 implies #[trigger] players@[p]@ == d.subrange(
                    p * nc,
                    (p + 1) * nc,
                ) by {
                    assert(0 <= p * nc && (p + 1) * nc <= 25) by (nonlinear_arith)
                        requires
                            0 <= p <= 4,
                            0 < nc <= 5,
                    ;
                }
            }
            i = i + 1;
        }
        proof {
            assert((nplayer as int) * (nc as int) <= 25) by (nonlinear_arith)
                requires
                    nplayer <= 5,
                    nc <= 5,
            ;
            assert(0 <= (nplayer as int) * (nc as int)) by (nonlinear_arith)
                requires
                    nplayer >= 0,
                    nc >= 0,
            ;
        }
        let rest = deck.split_off(nplayer * nc);
        let table: [usize; 5] = [0, 0, 0, 0, 0];
        let s = State {
            turn: 0,
            turn_empty_deck: 0,
            clues: 8,
            mistakes: 0,
            players,
            table,
            deck: rest,
            discard: Vec::new(),
            history: Vec::new(),
        };
        proof {
            assert forall|p: int|
                0 <= p < nplayer implies #[trigger] s.hands()[p] == d.subrange(
                p * handsize(nplayer as int),
                (p + 1) * handsize(nplayer as int),
            ) by {
                assert(s.hands()[p] == players@[p]@);
            }
            assert(dealt_from(s, d, nplayer as int));
            lemma_new_state_wf(s, d, nplayer as int);
            crate::conservation::lemma_conserved_new(s, d, nplayer as int);
        }
        Ok(s)
    }
}

/// A freshly dealt state is well formed.
proof fn lemma_new_state_wf(s: State, d: Seq<Card>, n: int)
    requires
        2 <= n <= 5,
        dealt_from(s, d, n),
        s.turn == 0,
        s.turn_empty_deck == 0,
        s.clues == 8,
        s.mistakes == 0,
        forall|c: int| 0 <= c < 5 ==> s.table[c] == 0,
        s.discard@.len() == 0,
        s.history@.len() == 0,
    ensures
        s.wf(),
{
    let nc = handsize(n);
    assert(n * nc <= 25 && 0 <= n * nc) by (nonlinear_arith)
        requires
            2 <= n <= 5,
            4 <= nc <= 5,
    ;
    assert forall|p: int| 0 <= p < n implies (#[trigger] s.hands()[p]).len() == nc by {
        assert(0 <= p * nc && (p + 1) * nc <= n * nc) by (nonlinear_arith)
            requires
                0 <= p < n,
                0 < nc,
        ;
    }
    lemma_cards_in_hands_uniform(s.hands(), nc);
    assert(cards_in_hands(s.hands()) == n * nc);
    assert(s.deck@.len() == 50 - n * nc);
    // every card that appears anywhere came from the canonical deck
    lemma_deck_up_to_wf(5);
    lemma_deck_up_to_len(5);
    assert(forall|i: int| 0 <= i < d.len() ==> (#[trigger] d[i]).wf()) by {
        broadcast use vstd::seq_lib::group_to_multiset_ensures;

        assert forall|i: int| 0 <= i < d.len() implies (#[trigger] d[i]).wf() by {
            assert(d.contains(d[i]));
            assert(d.to_multiset().count(d[i]) > 0);
            assert(canonical_deck().to_multiset().count(d[i]) > 0);
            assert(canonical_deck().contains(d[i]));
            let j = choose|j: int| 0 <= j < canonical_deck().len() && canonical_deck()[j] == d[i];
        }
    }
    assert forall|p: int, j: int|
        0 <= p < s.nplayers() && 0 <= j < s.hands()[p].len() implies (
    #[trigger] s.hands()[p][j]).wf() by {
        assert(0 <= p * nc && (p + 1) * nc <= n * nc) by (nonlinear_arith)
            requires
                0 <= p < n,
                nc > 0,
        ;
        assert(s.hands()[p][j] == d[p * nc + j]);
    }
    assert forall|i: int| 0 <= i < s.deck@.len() implies (#[trigger] s.deck@[i]).wf() by {
        assert(s.deck@[i] == d[n * nc + i]);
    }
}

/// What an accepted `play(pos)` does: the card at `pos` leaves the acting
/// player's hand; it either advances its color's progress counter (a
/// successful play) or goes to the discard pile with a mistake token; a
/// card is drawn if the deck allows it; the record is appended and the
/// turn advances.
pub open spec fn play_ok(pre: State, post: State, pos: int) -> bool {
    let p = pre.actor();
    let hand0 = pre.hands()[p];
    let card = hand0[pos];
    let removed = hand0.remove(pos);
    let success = pre.table[card.color.0 as int] == card.value.0;
    let drew = pre.deck@.len() > 0;
    let hand1 = if drew {
        removed.insert(0, pre.deck@.last())
    } else {
        removed
    };
    &&& post.hands() == pre.hands().update(p, hand1)
    &&& post.deck@ == if drew {
        pre.deck@.drop_last()
    } else {
        pre.deck@
    }
    &&& post.table@ == if success {
        pre.table@.update(card.color.0 as int, (pre.table[card.color.0 as int] + 1) as usize)
    } else {
        pre.table@
    }
    &&& post.discard@ == if success {
        pre.discard@
    } else {
        pre.discard@.push(card)
    }
    &&& post.mistakes == if success {
        pre.mistakes as int
    } else {
        pre.mistakes + 1
    }
    &&& post.clues == pre.clues
    &&& post.turn == pre.turn + 1
    &&& post.turn_empty_deck == if drew {
        pre.turn_empty_deck as int
    } else {
        pre.turn_empty_deck + 1
    }
    &&& post.history@ == pre.history@.push(
        Action::Play { player: p as usize, position: pos as usize, card, success },
    )
}

/// The whole contract of `play`: the exact error on each rejected input
/// (with no mutation), and `play_ok` on each accepted one.
pub open spec fn play_step(pre: State, post: State, pos: int, r: Result<(), IllegalMoves>) -> bool {
    if pre.gameover_spec() {
        post == pre && r == Err::<(), IllegalMoves>(IllegalMoves::GameOver)
    } else if !(0 <= pos < pre.hands()[pre.actor()].len()) {
        post == pre && r == Err::<(), IllegalMoves>(IllegalMoves::OutOfRange)
    } else {
        r == Ok::<(), IllegalMoves>(()) && play_ok(pre, post, pos)
    }
}

/// What an accepted `play_discard(pos)` does: the card at `pos` moves from
/// the acting player's hand to the discard pile, a clue token comes back,
/// a card is drawn if the deck allows it, and the turn advances.
pub open spec fn discard_ok(pre: State, post: State, pos: int) -> bool {
    let p = pre.actor();
    let hand0 = pre.hands()[p];
    let card = hand0[pos];
    let removed = hand0.remove(pos);
    let drew = pre.deck@.len() > 0;
    let hand1 = if drew {
        removed.insert(0, pre.deck@.last())
    } else {
        removed
    };
    &&& post.hands() == pre.hands().update(p, hand1)
    &&& post.deck@ == if drew {
        pre.deck@.drop_last()
    } else {
        pre.deck@
    }
    &&& post.table@ == pre.table@
    &&& post.discard@ == pre.discard@.push(card)
    &&& post.mistakes == pre.mistakes
    &&& post.clues == pre.clues + 1
    &&& post.turn == pre.turn + 1
    &&& post.turn_empty_deck == if drew {
        pre.turn_empty_deck as int
    } else {
        pre.turn_empty_deck + 1
    }
    &&& post.history@ == pre.history@.push(
        Action::Discard { player: p as usize, position: pos as usize, card },
    )
}

/// The whole contract of `play_discard`: discarding exists to refill clue
/// tokens, so it is rejected at the token cap before anything else.
pub open spec fn discard_step(pre: State, post: State, pos: int, r: Result<
    (),
    IllegalMoves,
>) -> bool {
    if pre.clues >= 8 {
        post == pre && r == Err::<(), IllegalMoves>(IllegalMoves::MaxClueTokens)
    } else if pre.gameover_spec() {
        post == pre && r == Err::<(), IllegalMoves>(IllegalMoves::GameOver)
    } else if !(0 <= pos < pre.hands()[pre.actor()].len()) {
        post == pre && r == Err::<(), IllegalMoves>(IllegalMoves::OutOfRange)
    } else {
        r == Ok::<(), IllegalMoves>(()) && discard_ok(pre, post, pos)
    }
}

impl State {
    /// Play the card at `position` from the acting player's hand. The play
    /// succeeds exactly when the card is the next expected rank of its
    /// color; otherwise the card is discarded and a mistake is recorded.
    pub fn play(&mut self, position: usize) -> (r: Result<(), IllegalMoves>)
        requires
            old(self).wf(),
        ensures
            final(self).wf(),
            play_step(*old(self), *final(self), position as int, r),
    {
        if self.gameover() {
            return Err(IllegalMoves::GameOver);
        }
        let n = self.players.len();
        let p = self.turn % n;
        if position >= self.players[p].len() {
            return Err(IllegalMoves::OutOfRange);
        }
        let mut hand = self.players.remove(p);
        let card = hand.remove(position);
        proof {
            assert(card == old(self).hands()[p as int][position as int]);
            assert(card.wf());
        }
        let success = self.table[card.color.0] == card.value.0;
        if success {
            self.table[card.color.0] = self.table[card.color.0] + 1;
        } else {
            self.discard.push(card);
            self.mistakes = self.mistakes + 1;
        }
        match self.deck.pop() {
            Some(drawn) => {
                hand.insert(0, drawn);
            },
            None => {
                self.turn_empty_deck = self.turn_empty_deck + 1;
            },
        }
        self.players.insert(p, hand);
        self.history.push(Action::Play { player: p, position, card, success });
        self.turn = self.history.len();
        proof {
            lemma_remove_insert(old(self).players@, p as int, self.players@[p as int]);
            assert(self.hands() =~= old(self).hands().update(
                p as int,
                self.players@[p as int]@,
            ));
            assert(play_ok(*old(self), *self, position as int));
            lemma_hand_step_wf(*old(self), *self, position as int);
        }
        Ok(())
    }

    /// Discard the card at `position` from the acting player's hand to
    /// regain a clue token. Rejected at the token cap: discarding exists
    /// solely to refill tokens.
    pub fn play_discard(&mut self, position: usize) -> (r: Result<(), IllegalMoves>)
        requires
            old(self).wf(),
        ensures
            final(self).wf(),
            discard_step(*old(self), *final(self), position as int, r),
    {
        if self.clues >= 8 {
            return Err(IllegalMoves::MaxClueTokens);
        }
        if self.gameover() {
            return Err(IllegalMoves::GameOver);
        }
        let n = self.players.len();
        let p = self.turn % n;
        if position >= self.players[p].len() {
            return Err(IllegalMoves::OutOfRange);
        }
        let mut hand = self.players.remove(p);
        let card = hand.remove(position);
        self.discard.push(card);
        self.clues = self.clues + 1;
        match self.deck.pop() {
            Some(drawn) => {
                hand.insert(0, drawn);
            },
            None => {
                self.turn_empty_deck = self.turn_empty_deck + 1;
            },
        }
        self.players.insert(p, hand);
        self.history.push(Action::Discard { player: p, position, card });
        self.turn = self.history.len();
        proof {
            lemma_remove_insert(old(self).players@, p as int, self.players@[p as int]);
            assert(self.hands() =~= old(self).hands().update(
                p as int,
                self.players@[p as int]@,
            ));
            assert(discard_ok(*old(self), *self, position as int));
            lemma_hand_step_wf(*old(self), *self, position as int);
        }
        Ok(())
    }
}

/// A clue names a well-formed attribute.
pub open spec fn kind_wf(kind: ClueKind) -> bool {
    match kind {
        ClueKind::ByColor(color) => color.wf(),
        ClueKind::ByValue(value) => value.wf(),
    }
}

/// The record that an accepted clue appends.
pub open spec fn clue_record(p: int, target: int, kind: ClueKind) -> Action {
    match kind {
        ClueKind::ByColor(color) => Action::ColorClue {
            player: p as usize,
            target: target as usize,
            color,
        },
        ClueKind::ByValue(value) => Action::ValueClue {
            player: p as usize,
            target: target as usize,
            value,
        },
    }
}

/// What an accepted clue does: a token is spent, no card moves, a final
/// round turn is consumed if the deck is already empty, the record is
/// appended and the turn advances.
pub open spec fn clue_ok(pre: State, post: State, target: int, kind: ClueKind) -> bool {
    &&& post.players == pre.players
    &&& post.deck == pre.deck
    &&& post.discard == pre.discard
    &&& post.table == pre.table
    &&& post.mistakes == pre.mistakes
    &&& post.clues == pre.clues - 1
    &&& post.turn == pre.turn + 1
    &&& post.turn_empty_deck == if pre.deck@.len() == 0 {
        pre.turn_empty_deck + 1
    } else {
        pre.turn_empty_deck as int
    }
    &&& post.history@ == pre.history@.push(clue_record(pre.actor(), target, kind))
}

/// The whole contract of a clue: clues must be aimed at another player,
/// cost a token, and be truthful and informative — a clue matching no card
/// in the target's hand is rejected as empty.
pub open spec fn clue_step(
    pre: State,
    post: State,
    target: int,
    kind: ClueKind,
    r: Result<(), IllegalMoves>,
) -> bool {
    if !(0 <= target < pre.nplayers()) {
        post == pre && r == Err::<(), IllegalMoves>(IllegalMoves::OutOfRange)
    } else if pre.gameover_spec() {
        post == pre && r == Err::<(), IllegalMoves>(IllegalMoves::GameOver)
    } else if target == pre.actor() {
        post == pre && r == Err::<(), IllegalMoves>(IllegalMoves::SelfClue)
    } else if pre.clues == 0 {
        post == pre && r == Err::<(), IllegalMoves>(IllegalMoves::NoClueTokens)
    } else if !(exists|j: int|
        0 <= j < pre.hands()[target].len() && matches_kind(
            #[trigger] pre.hands()[target][j],
            kind,
        )) {
        post == pre && r == Err::<(), IllegalMoves>(IllegalMoves::EmptyClue)
    } else {
        r == Ok::<(), IllegalMoves>(()) && clue_ok(pre, post, target, kind)
    }
}

/// Whether any card of `hand` satisfies the clue.
fn hand_has_match(hand: &Vec<Card>, kind: ClueKind) -> (r: bool)
    ensures
        r == exists|j: int| 0 <= j < hand@.len() && matches_kind(#[trigger] hand@[j], kind),
{
    let mut j: usize = 0;
    while j < hand.len()
        invariant
            j <= hand@.len(),
            forall|i: int| 0 <= i < j ==> !matches_kind(#[trigger] hand@[i], kind),
        decreases hand@.len() - j,
    {
        let card = hand[j];
        let hit = match kind {
            ClueKind::ByColor(color) => card.color.0 == color.0,
            ClueKind::ByValue(value) => card.value.0 == value.0,
        };
        if hit {
            return true;
        }
        j = j + 1;
    }
    false
}

impl State {
    /// The shared clue operation: the legality checks and the state change
    /// common to both clue kinds.
    pub fn clue(&mut self, target: usize, kind: ClueKind) -> (r: Result<(), IllegalMoves>)
        requires
            old(self).wf(),
            kind_wf(kind),
        ensures
            final(self).wf(),
            clue_step(*old(self), *final(self), target as int, kind, r),
    {
        if target >= self.players.len() {
            return Err(IllegalMoves::OutOfRange);
        }
        if self.gameover() {
            return Err(IllegalMoves::GameOver);
        }
        let n = self.players.len();
        let p = self.turn % n;
        if p == target {
            return Err(IllegalMoves::SelfClue);
        }
        if self.clues == 0 {
            return Err(IllegalMoves::NoClueTokens);
        }
        let found = hand_has_match(&self.players[target], kind);
        proof {
            assert(old(self).hands()[target as int] == old(self).players@[target as int]@);
        }
        if !found {
            return Err(IllegalMoves::EmptyClue);
        }
        self.clues = self.clues - 1;
        if self.deck.len() == 0 {
            self.turn_empty_deck = self.turn_empty_deck + 1;
        }
        let record = match kind {
            ClueKind::ByColor(color) => Action::ColorClue { player: p, target, color },
            ClueKind::ByValue(value) => Action::ValueClue { player: p, target, value },
        };
        self.history.push(record);
        self.turn = self.history.len();
        proof {
            assert(self.hands() =~= old(self).hands());
            assert(clue_ok(*old(self), *self, target as int, kind));
        }
        Ok(())
    }

    /// Clue every card of one color in another player's hand.
    pub fn clue_color(&mut self, target: usize, color: Color) -> (r: Result<(), IllegalMoves>)
        requires
            old(self).wf(),
            color.wf(),
        ensures
            final(self).wf(),
            clue_step(*old(self), *final(self), target as int, ClueKind::ByColor(color), r),
    {
        self.clue(target, ClueKind::ByColor(color))
    }

    /// Clue every card of one rank in another player's hand.
    pub fn clue_value(&mut self, target: usize, value: Value) -> (r: Result<(), IllegalMoves>)
        requires
            old(self).wf(),
            value.wf(),
        ensures
            final(self).wf(),
            clue_step(*old(self), *final(self), target as int, ClueKind::ByValue(value), r),
    {
        self.clue(target, ClueKind::ByValue(value))
    }
}

/// Removing an element and inserting another at the same index is an
/// update.
proof fn lemma_remove_insert<T>(s: Seq<T>, p: int, x: T)
    requires
        0 <= p < s.len(),
    ensures
        s.remove(p).insert(p, x) == s.update(p, x),
{
    assert(s.remove(p).insert(p, x) =~= s.update(p, x));
}

/// Changing one entry of the hands changes the total card count by the
/// difference of that hand's length.
proof fn lemma_cards_in_hands_update(hs: Seq<Seq<Card>>, p: int, h: Seq<Card>)
    requires
        0 <= p < hs.len(),
    ensures
        cards_in_hands(hs.update(p, h)) == cards_in_hands(hs) - hs[p].len() + h.len(),
    decreases hs.len(),
{
    if p == hs.len() - 1 {
        assert(hs.update(p, h).drop_last() =~= hs.drop_last());
        assert(hs.update(p, h).last() == h);
    } else {
        lemma_cards_in_hands_update(hs.drop_last(), p, h);
        assert(hs.update(p, h).drop_last() =~= hs.drop_last().update(p, h));
        assert(hs.update(p, h).last() == hs.last());
    }
}

/// A state produced by an accepted play or discard is well formed.
#[verifier::rlimit(50)]
proof fn lemma_hand_step_wf(pre: State, post: State, pos: int)
    requires
        pre.wf(),
        !pre.gameover_spec(),
        0 <= pos < pre.hands()[pre.actor()].len(),
        play_ok(pre, post, pos) || (pre.clues < 8 && discard_ok(pre, post, pos)),
    ensures
        post.wf(),
{
    let p = pre.actor();
    let n = pre.nplayers();
    let hand0 = pre.hands()[p];
    let card = hand0[pos];
    assert(card.wf());
    let removed = hand0.remove(pos);
    let drew = pre.deck@.len() > 0;
    let hand1 = if drew {
        removed.insert(0, pre.deck@.last())
    } else {
        removed
    };
    assert(post.hands() == pre.hands().update(p, hand1));
    lemma_cards_in_hands_update(pre.hands(), p, hand1);
    assert(post.nplayers() == n) by {
        assert(post.hands().len() == pre.hands().len());
    }
    assert forall|q: int, j: int|
        0 <= q < post.nplayers() && 0 <= j < post.hands()[q].len() implies (
    #[trigger] post.hands()[q][j]).wf() by {
        if q == p {
            assert(post.hands()[q] == hand1);
            if drew && j == 0 {
                assert(hand1[0] == pre.deck@.last());
                assert(pre.deck@[pre.deck@.len() - 1].wf());
            } else {
                let jr = if drew {
                    j - 1
                } else {
                    j
                };
                assert(hand1[j] == removed[jr]);
                if jr < pos {
                    assert(removed[jr] == hand0[jr]);
                } else {
                    assert(removed[jr] == hand0[jr + 1]);
                }
            }
        } else {
            assert(post.hands()[q] == pre.hands()[q]);
        }
    }
    assert forall|i: int| 0 <= i < post.history@.len() implies (#[trigger] post.history@[i]).wf(
        post.nplayers(),
    ) by {
        if i < pre.history@.len() {
            assert(post.history@[i] == pre.history@[i]);
        } else {
            assert(pos < handsize(n));
        }
    }
    assert(post.deck@.len() + cards_in_hands(post.hands()) + post.discard@.len()
        + post.score_spec() == 50);
}

/// If every hand holds exactly `nc` cards, the hands hold `len * nc` cards.
proof fn lemma_cards_in_hands_uniform(hs: Seq<Seq<Card>>, nc: int)
    requires
        forall|p: int| 0 <= p < hs.len() ==> (#[trigger] hs[p]).len() == nc,
    ensures
        cards_in_hands(hs) == hs.len() * nc,
    decreases hs.len(),
{
    if hs.len() > 0 {
        lemma_cards_in_hands_uniform(hs.drop_last(), nc);
        assert(cards_in_hands(hs) == (hs.len() - 1) * nc + nc);
        assert((hs.len() - 1) * nc + nc == hs.len() as int * nc) by (nonlinear_arith);
    }
}

} // verus!
