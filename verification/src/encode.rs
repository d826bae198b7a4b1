//! The observation encoder: a pure read of the state into a fixed-layout
//! vector of 2295 slots, each holding 1 (set) or -1 (the sentinel).
//!
//! The layout is fixed and independent of the actual player count, padded
//! for the largest supported table: a player-count one-hot (4), the acting
//! player (5), clue-token (8), mistake-token (3) and deck-size (50)
//! thermometers, the discard pile composition (50), five 50-wide hand
//! blocks with the acting player's own hand masked out, the table progress
//! (25), and a rolling newest-first history window of 100 19-wide records.

use vstd::prelude::*;

use crate::action::Action;
use crate::cards::{copies_of, Card};
use crate::state::{cards_in_hands, State};

verus! {

/// The total length of an observation vector.
pub const ENCODE_LEN: usize = 2295;

/// A run of sentinel slots.
pub open spec fn sentinel_run(width: int) -> Seq<i8> {
    Seq::new(width as nat, |i: int| -1i8)
}

/// A one-hot code: slot `idx` set, all others sentinel.
pub open spec fn one_hot(idx: int, width: int) -> Seq<i8> {
    Seq::new(
        width as nat,
        |i: int|
            if i == idx {
                1i8
            } else {
                -1i8
            },
    )
}

/// A thermometer code: the leftmost `count` slots set.
pub open spec fn therm(count: int, width: int) -> Seq<i8> {
    Seq::new(
        width as nat,
        |i: int|
            if i < count {
                1i8
            } else {
                -1i8
            },
    )
}

/// How many copies of the exact card (color `c`, rank `v`) sit in `d`.
pub open spec fn count_cv(d: Seq<Card>, c: int, v: int) -> int
    decreases d.len(),
{
    if d.len() == 0 {
        0
    } else {
        count_cv(d.drop_last(), c, v) + if d.last().color.0 == c && d.last().value.0 == v {
            1int
        } else {
            0int
        }
    }
}

/// The discard thermometers of color `c` for ranks below `v`.
pub open spec fn discard_color_seg_to(d: Seq<Card>, c: int, v: int) -> Seq<i8>
    decreases v,
{
    if v <= 0 {
        Seq::empty()
    } else {
        discard_color_seg_to(d, c, v - 1) + therm(count_cv(d, c, v - 1), copies_of(v - 1))
    }
}

/// The discard-pile composition segment for colors below `c`.
pub open spec fn discard_seg_to(d: Seq<Card>, c: int) -> Seq<i8>
    decreases c,
{
    if c <= 0 {
        Seq::empty()
    } else {
        discard_seg_to(d, c - 1) + discard_color_seg_to(d, c - 1, 5)
    }
}

/// A card's 10-wide code: a rank one-hot then a color one-hot.
pub open spec fn card_code(card: Card) -> Seq<i8> {
    one_hot(card.value.0 as int, 5) + one_hot(card.color.0 as int, 5)
}

/// Hand slot `j`: the card's code, or sentinels past the hand's end.
pub open spec fn hand_slot(h: Seq<Card>, j: int) -> Seq<i8> {
    if 0 <= j < h.len() {
        card_code(h[j])
    } else {
        sentinel_run(10)
    }
}

/// The first `j` slots of one visible hand.
pub open spec fn hand_seg_to(h: Seq<Card>, j: int) -> Seq<i8>
    decreases j,
{
    if j <= 0 {
        Seq::empty()
    } else {
        hand_seg_to(h, j - 1) + hand_slot(h, j - 1)
    }
}

/// Player block `i`: the hand if that player exists and is not acting;
/// the acting player's own hand is hidden, and absent players are padding.
pub open spec fn player_block(s: State, i: int) -> Seq<i8> {
    if 0 <= i < s.nplayers() && i != s.actor() {
        hand_seg_to(s.hands()[i], 5)
    } else {
        sentinel_run(50)
    }
}

/// The hand blocks of players below `i`.
pub open spec fn players_seg_to(s: State, i: int) -> Seq<i8>
    decreases i,
{
    if i <= 0 {
        Seq::empty()
    } else {
        players_seg_to(s, i - 1) + player_block(s, i - 1)
    }
}

/// The table-progress thermometers of colors below `c`.
pub open spec fn table_seg_to(t: Seq<usize>, c: int) -> Seq<i8>
    decreases c,
{
    if c <= 0 {
        Seq::empty()
    } else {
        table_seg_to(t, c - 1) + therm(t[c - 1] as int, 5)
    }
}

/// One 19-wide history record: an action-kind one-hot (play-success,
/// play-fail, discard, clue), a position-or-target one-hot, a rank one-hot
/// (sentinels for color-only clues) and a color one-hot (sentinels for
/// rank-only clues).
pub open spec fn entry_code(a: Action) -> Seq<i8> {
    match a {
        Action::Play { player, position, card, success } => one_hot(
            if success {
                0
            } else {
                1
            },
            4,
        ) + one_hot(position as int, 5) + one_hot(card.value.0 as int, 5) + one_hot(
            card.color.0 as int,
            5,
        ),
        Action::Discard { player, position, card } => one_hot(2, 4) + one_hot(position as int, 5)
            + one_hot(card.value.0 as int, 5) + one_hot(card.color.0 as int, 5),
        Action::ColorClue { player, target, color } => one_hot(3, 4) + one_hot(target as int, 5)
            + sentinel_run(5) + one_hot(color.0 as int, 5),
        Action::ValueClue { player, target, value } => one_hot(3, 4) + one_hot(target as int, 5)
            + one_hot(value.0 as int, 5) + sentinel_run(5),
    }
}

/// The newest `k` history records, newest first.
pub open spec fn history_entries_to(h: Seq<Action>, k: int) -> Seq<i8>
    decreases k,
{
    if k <= 0 {
        Seq::empty()
    } else {
        history_entries_to(h, k - 1) + entry_code(h[h.len() - k])
    }
}

/// How many history records the window shows: all of them, up to 100.
pub open spec fn history_window(h: Seq<Action>) -> int {
    if h.len() <= 100 {
        h.len() as int
    } else {
        100
    }
}

/// The rolling history segment: the newest records, then sentinel padding
/// out to the window capacity.
pub open spec fn history_seg(h: Seq<Action>) -> Seq<i8> {
    history_entries_to(h, history_window(h)) + sentinel_run((100 - history_window(h)) * 19)
}

/// The whole observation vector of a state, as ordered disjoint segments.
pub open spec fn encode_spec(s: State) -> Seq<i8> {
    one_hot(s.nplayers() - 2, 4) + one_hot(s.actor(), 5) + therm(s.clues as int, 8) + therm(
        s.mistakes as int,
        3,
    ) + therm(s.deck@.len() as int, 50) + discard_seg_to(s.discard@, 5) + players_seg_to(s, 5)
        + table_seg_to(s.table@, 5) + history_seg(s.history@)
}

/// Append `width` sentinel slots.
fn push_sentinels(x: &mut Vec<i8>, width: usize)
    ensures
        final(x)@ == old(x)@ + sentinel_run(width as int),
{
    let mut i: usize = 0;
    while i < width
        invariant
            i <= width,
            x@ == old(x)@ + sentinel_run(i as int),
        decreases width - i,
    {
        x.push(-1i8);
        proof {
            assert(x@ =~= old(x)@ + sentinel_run(i as int + 1));
        }
        i = i + 1;
    }
}

/// Append a one-hot code.
fn push_one_hot(x: &mut Vec<i8>, idx: usize, width: usize)
    requires
        idx < width,
    ensures
        final(x)@ == old(x)@ + one_hot(idx as int, width as int),
{
    let ghost code = one_hot(idx as int, width as int);
    let mut i: usize = 0;
    while i < width
        invariant
            i <= width,
            idx < width,
            code == one_hot(idx as int, width as int),
            x@ == old(x)@ + code.take(i as int),
        decreases width - i,
    {
        if i == idx {
            x.push(1i8);
        } else {
            x.push(-1i8);
        }
        proof {
            assert(x@ =~= old(x)@ + code.take(i as int + 1));
        }
        i = i + 1;
    }
    proof {
        assert(old(x)@ + code.take(width as int) =~= old(x)@ + code);
    }
}

/// Append a thermometer code.
fn push_therm(x: &mut Vec<i8>, count: usize, width: usize)
    requires
        count <= width,
    ensures
        final(x)@ == old(x)@ + therm(count as int, width as int),
{
    let ghost code = therm(count as int, width as int);
    let mut i: usize = 0;
    while i < width
        invariant
            i <= width,
            count <= width,
            code == therm(count as int, width as int),
            x@ == old(x)@ + code.take(i as int),
        decreases width - i,
    {
        if i < count {
            x.push(1i8);
        } else {
            x.push(-1i8);
        }
        proof {
            assert(x@ =~= old(x)@ + code.take(i as int + 1));
        }
        i = i + 1;
    }
    proof {
        assert(old(x)@ + code.take(width as int) =~= old(x)@ + code);
    }
}

/// Count the copies of the exact card (color `c`, rank `v`) in `d`.
fn count_discard(d: &Vec<Card>, c: usize, v: usize) -> (r: usize)
    ensures
        r == count_cv(d@, c as int, v as int),
        r <= d@.len(),
{
    let mut r: usize = 0;
    let mut i: usize = 0;
    while i < d.len()
        invariant
            i <= d@.len(),
            r <= i,
            r == count_cv(d@.take(i as int), c as int, v as int),
        decreases d@.len() - i,
    {
        let card = d[i];
        proof {
            assert(d@.take(i as int + 1).drop_last() =~= d@.take(i as int));
            assert(d@.take(i as int + 1).last() == d@[i as int]);
        }
        if card.color.0 == c && card.value.0 == v {
            r = r + 1;
        }
        i = i + 1;
    }
    proof {
        assert(d@.take(d@.len() as int) =~= d@);
    }
    r
}

/// Append one history record.
fn push_entry(x: &mut Vec<i8>, a: &Action)
    requires
        a.wf(5),
    ensures
        final(x)@ == old(x)@ + entry_code(*a),
{
    match a {
        Action::Play { player, position, card, success } => {
            if *success {
                push_one_hot(x, 0, 4);
            } else {
                push_one_hot(x, 1, 4);
            }
            push_one_hot(x, *position, 5);
            push_one_hot(x, card.value.0, 5);
            push_one_hot(x, card.color.0, 5);
        },
        Action::Discard { player, position, card } => {
            push_one_hot(x, 2, 4);
            push_one_hot(x, *position, 5);
            push_one_hot(x, card.value.0, 5);
            push_one_hot(x, card.color.0, 5);
        },
        Action::ColorClue { player, target, color } => {
            push_one_hot(x, 3, 4);
            push_one_hot(x, *target, 5);
            push_sentinels(x, 5);
            push_one_hot(x, color.0, 5);
        },
        Action::ValueClue { player, target, value } => {
            push_one_hot(x, 3, 4);
            push_one_hot(x, *target, 5);
            push_one_hot(x, value.0, 5);
            push_sentinels(x, 5);
        },
    }
}

impl State {
    /// Encode this state as the fixed-layout observation vector. A pure
    /// read: two calls on an unchanged state give identical vectors.
    pub fn encode(&self) -> (r: Vec<i8>)
        requires
            self.wf(),
        ensures
            r@ == encode_spec(*self),
            r@.len() == ENCODE_LEN,
    {
        proof {
            lemma_cards_in_hands_nonneg(self.hands());
        }
        let mut x: Vec<i8> = Vec::new();
        let n = self.players.len();
        push_one_hot(&mut x, n - 2, 4);
        let p = self.turn % n;
        push_one_hot(&mut x, p, 5);
        push_therm(&mut x, self.clues, 8);
        push_therm(&mut x, self.mistakes, 3);
        push_therm(&mut x, self.deck.len(), 50);

        // discard-pile composition, colors outer, ranks inner
        let ghost pre_discard = x@;
        let mut c: usize = 0;
        while c < 5
            invariant
                c <= 5,
                x@ == pre_discard + discard_seg_to(self.discard@, c as int),
            decreases 5 - c,
        {
            let ghost pre_color = x@;
            let mut v: usize = 0;
            while v < 5
                invariant
                    v <= 5,
                    c < 5,
                    pre_color == pre_discard + discard_seg_to(self.discard@, c as int),
                    x@ == pre_color + discard_color_seg_to(self.discard@, c as int, v as int),
                decreases 5 - v,
            {
                let w: usize = if v == 0 {
                    3
                } else if v == 4 {
                    1
                } else {
                    2
                };
                let cnt = count_discard(&self.discard, c, v);
                let capped = if cnt > w {
                    w
                } else {
                    cnt
                };
                push_therm(&mut x, capped, w);
                proof {
                    assert(therm(capped as int, w as int) =~= therm(
                        count_cv(self.discard@, c as int, v as int),
                        copies_of(v as int),
                    ));
                }
                v = v + 1;
            }
            c = c + 1;
        }

        // hands of every player but the acting one, padded to five blocks
        let ghost pre_players = x@;
        let mut i: usize = 0;
        while i < 5
            invariant
                i <= 5,
                n == self.nplayers(),
                p == self.actor(),
                self.wf(),
                pre_players == x_prefix_through_discard(*self),
                x@ == pre_players + players_seg_to(*self, i as int),
            decreases 5 - i,
        {
            if i < n && i != p {
                let ghost pre_hand = x@;
                let hand = &self.players[i];
                let mut j: usize = 0;
                while j < 5
                    invariant
                        j <= 5,
                        i < n,
                        i != p,
                        n == self.nplayers(),
                        p == self.actor(),
                        self.wf(),
                        hand@ == self.hands()[i as int],
                        pre_hand == x_prefix_through_discard(*self) + players_seg_to(
                            *self,
                            i as int,
                        ),
                        x@ == pre_hand + hand_seg_to(hand@, j as int),
                    decreases 5 - j,
                {
                    if j < hand.len() {
                        let card = hand[j];
                        proof {
                            assert(self.hands()[i as int][j as int].wf());
                        }
                        push_one_hot(&mut x, card.value.0, 5);
                        push_one_hot(&mut x, card.color.0, 5);
                        proof {
                            assert(x@ =~= pre_hand + hand_seg_to(hand@, j as int) + card_code(
                                hand@[j as int],
                            ));
                        }
                    } else {
                        push_sentinels(&mut x, 10);
                    }
                    j = j + 1;
                }
                proof {
                    assert(player_block(*self, i as int) == hand_seg_to(
                        self.hands()[i as int],
                        5,
                    ));
                }
            } else {
                push_sentinels(&mut x, 50);
                proof {
                    assert(player_block(*self, i as int) == sentinel_run(50));
                }
            }
            i = i + 1;
        }

        // table progress
        let ghost pre_table = x@;
        let mut c2: usize = 0;
        while c2 < 5
            invariant
                c2 <= 5,
                self.wf(),
                x@ == pre_table + table_seg_to(self.table@, c2 as int),
            decreases 5 - c2,
        {
            push_therm(&mut x, self.table[c2], 5);
            c2 = c2 + 1;
        }

        // rolling history window, newest first
        let ghost pre_hist = x@;
        let hlen = self.history.len();
        let m: usize = if hlen <= 100 {
            hlen
        } else {
            100
        };
        let mut k: usize = 0;
        while k < m
            invariant
                k <= m,
                m == history_window(self.history@),
                m <= self.history@.len(),
                self.wf(),
                x@ == pre_hist + history_entries_to(self.history@, k as int),
            decreases m - k,
        {
            let a = &self.history[self.history.len() - 1 - k];
            proof {
                assert(self.history@[self.history@.len() - 1 - k as int].wf(self.nplayers()));
            }
            push_entry(&mut x, a);
            k = k + 1;
        }
        let pad = (100 - m) * 19;
        push_sentinels(&mut x, pad);

        proof {
            assert(x@ =~= encode_spec(*self));
            lemma_encode_spec_len(*self);
        }
        x
    }
}

/// The encoded prefix up to and including the discard segment.
pub open spec fn x_prefix_through_discard(s: State) -> Seq<i8> {
    one_hot(s.nplayers() - 2, 4) + one_hot(s.actor(), 5) + therm(s.clues as int, 8) + therm(
        s.mistakes as int,
        3,
    ) + therm(s.deck@.len() as int, 50) + discard_seg_to(s.discard@, 5)
}

/// The hands hold a nonnegative number of cards.
pub proof fn lemma_cards_in_hands_nonneg(hs: Seq<Seq<Card>>)
    ensures
        cards_in_hands(hs) >= 0,
    decreases hs.len(),
{
    if hs.len() > 0 {
        lemma_cards_in_hands_nonneg(hs.drop_last());
    }
}

/// Segment lengths, leading to the fixed total length.
proof fn lemma_discard_color_seg_len(d: Seq<Card>, c: int, v: int)
    requires
        0 <= v <= 5,
    ensures
        discard_color_seg_to(d, c, v).len() == if v == 0 {
            0int
        } else if v == 1 {
            3int
        } else if v == 2 {
            5int
        } else if v == 3 {
            7int
        } else if v == 4 {
            9int
        } else {
            10int
        },
    decreases v,
{
    if v > 0 {
        lemma_discard_color_seg_len(d, c, v - 1);
    }
}

proof fn lemma_discard_seg_len(d: Seq<Card>, c: int)
    requires
        0 <= c <= 5,
    ensures
        discard_seg_to(d, c).len() == 10 * c,
    decreases c,
{
    if c > 0 {
        lemma_discard_seg_len(d, c - 1);
        lemma_discard_color_seg_len(d, c - 1, 5);
    }
}

proof fn lemma_hand_seg_len(h: Seq<Card>, j: int)
    requires
        0 <= j <= 5,
    ensures
        hand_seg_to(h, j).len() == 10 * j,
    decreases j,
{
    if j > 0 {
        lemma_hand_seg_len(h, j - 1);
    }
}

proof fn lemma_players_seg_len(s: State, i: int)
    requires
        0 <= i <= 5,
    ensures
        players_seg_to(s, i).len() == 50 * i,
    decreases i,
{
    if i > 0 {
        lemma_players_seg_len(s, i - 1);
        if 0 <= i - 1 < s.nplayers() && i - 1 != s.actor() {
            lemma_hand_seg_len(s.hands()[i - 1], 5);
        }
    }
}

proof fn lemma_table_seg_len(t: Seq<usize>, c: int)
    requires
        0 <= c <= 5,
    ensures
        table_seg_to(t, c).len() == 5 * c,
    decreases c,
{
    if c > 0 {
        lemma_table_seg_len(t, c - 1);
    }
}

proof fn lemma_history_entries_len(h: Seq<Action>, k: int)
    requires
        0 <= k,
    ensures
        history_entries_to(h, k).len() == 19 * k,
    decreases k,
{
    if k > 0 {
        lemma_history_entries_len(h, k - 1);
    }
}

/// The observation vector has the same fixed length for every well-formed
/// state, whatever the player count.
pub proof fn lemma_encode_spec_len(s: State)
    ensures
        encode_spec(s).len() == ENCODE_LEN,
{
    lemma_discard_seg_len(s.discard@, 5);
    lemma_players_seg_len(s, 5);
    lemma_table_seg_len(s.table@, 5);
    lemma_history_entries_len(s.history@, history_window(s.history@));
}

} // verus!
