//! The decision decoder: interpret a fixed-layout 23-slot decision vector
//! (3-way action kind, 5-wide position or target, 5-wide rank, 5-wide
//! color) and dispatch it into the state machine. Selection inside each
//! segment is arg-max with ties broken by the lowest index; every legality
//! error of the dispatched operation propagates unchanged.

use vstd::prelude::*;

use crate::cards::{Color, Value};
use crate::state::{clue_step, discard_step, play_step, ClueKind, IllegalMoves, State};

verus! {

/// The required length of a decision vector.
pub const DECODE_LEN: usize = 23;

/// The index of the greatest element, ties broken by the lowest index.
pub open spec fn argmax_spec(s: Seq<i32>) -> int
    decreases s.len(),
{
    if s.len() <= 1 {
        0
    } else {
        let r = argmax_spec(s.drop_last());
        if s.last() > s[r] {
            s.len() - 1
        } else {
            r
        }
    }
}

/// What `argmax_spec` selects: a position of the maximum, and the first
/// such position.
pub proof fn lemma_argmax_spec_properties(s: Seq<i32>)
    requires
        s.len() > 0,
    ensures
        0 <= argmax_spec(s) < s.len(),
        forall|j: int| 0 <= j < s.len() ==> #[trigger] s[j] <= s[argmax_spec(s)],
        forall|j: int| 0 <= j < argmax_spec(s) ==> #[trigger] s[j] < s[argmax_spec(s)],
    decreases s.len(),
{
    if s.len() > 1 {
        lemma_argmax_spec_properties(s.drop_last());
        assert(forall|j: int| 0 <= j < s.len() - 1 ==> s[j] == s.drop_last()[j]);
    }
}

/// The arg-max of `x[lo..hi]`, relative to the whole vector: the returned
/// index lies in `lo..hi` and `r - lo` is the arg-max of the segment.
pub fn argmax(x: &Vec<i32>, lo: usize, hi: usize) -> (r: usize)
    requires
        lo < hi <= x@.len(),
    ensures
        lo <= r < hi,
        r - lo == argmax_spec(x@.subrange(lo as int, hi as int)),
{
    let mut best: usize = lo;
    let mut j: usize = lo + 1;
    while j < hi
        invariant
            lo <= best < j <= hi,
            hi <= x@.len(),
            best - lo == argmax_spec(x@.subrange(lo as int, j as int)),
        decreases hi - j,
    {
        proof {
            assert(x@.subrange(lo as int, j as int + 1).drop_last() =~= x@.subrange(
                lo as int,
                j as int,
            ));
            assert(x@.subrange(lo as int, j as int + 1).last() == x@[j as int]);
        }
        if x[j] > x[best] {
            best = j;
        }
        j = j + 1;
    }
    best
}

/// The whole contract of `decode`: a wrong length is rejected before any
/// dispatch; otherwise the selected operation's own contract holds, with
/// the selected position, target and attribute.
pub open spec fn decode_step(pre: State, post: State, xs: Seq<i32>, r: Result<
    (),
    IllegalMoves,
>) -> bool {
    if xs.len() != 23 {
        post == pre && r == Err::<(), IllegalMoves>(IllegalMoves::MalformedVector)
    } else {
        let kind = argmax_spec(xs.subrange(0, 3));
        if kind == 0 {
            play_step(pre, post, argmax_spec(xs.subrange(3, 8)), r)
        } else if kind == 1 {
            discard_step(pre, post, argmax_spec(xs.subrange(3, 8)), r)
        } else {
            let target = argmax_spec(xs.subrange(8, 13));
            let i = argmax_spec(xs.subrange(13, 23));
            if i < 5 {
                clue_step(pre, post, target, ClueKind::ByValue(Value(i as usize)), r)
            } else {
                clue_step(pre, post, target, ClueKind::ByColor(Color((i - 5) as usize)), r)
            }
        }
    }
}

impl State {
    /// Decode a decision vector and dispatch it: kind 0 plays, kind 1
    /// discards, kind 2 clues, with a rank clue when the arg-max over the
    /// concatenated rank and color fields falls in the rank half.
    pub fn decode(&mut self, x: &Vec<i32>) -> (r: Result<(), IllegalMoves>)
        requires
            old(self).wf(),
        ensures
            final(self).wf(),
            decode_step(*old(self), *final(self), x@, r),
    {
        if x.len() != DECODE_LEN {
            return Err(IllegalMoves::MalformedVector);
        }
        let kind = argmax(x, 0, 3);
        if kind == 0 {
            let pos = argmax(x, 3, 8);
            self.play(pos - 3)
        } else if kind == 1 {
            let pos = argmax(x, 3, 8);
            self.play_discard(pos - 3)
        } else {
            let target = argmax(x, 8, 13);
            let i = argmax(x, 13, 23);
            if i - 13 < 5 {
                self.clue_value(target - 8, Value::new(i - 13))
            } else {
                self.clue_color(target - 8, Color::new(i - 13 - 5))
            }
        }
    }
}

/// Whether two states agree on everything the game observes: the decoder
/// equivalence law is stated up to this equality.
pub open spec fn state_obs_eq(a: State, b: State) -> bool {
    &&& a.turn == b.turn
    &&& a.turn_empty_deck == b.turn_empty_deck
    &&& a.clues == b.clues
    &&& a.mistakes == b.mistakes
    &&& a.hands() == b.hands()
    &&& a.table@ == b.table@
    &&& a.deck@ == b.deck@
    &&& a.discard@ == b.discard@
    &&& a.history@ == b.history@
}

/// Decoder equivalence: a decision vector whose action kind arg-maxes to 1
/// and whose position field arg-maxes to `k` drives the state exactly
/// where calling `play_discard(k)` directly drives it, with the same
/// outcome.
pub proof fn lemma_decode_discard_equivalence(
    pre: State,
    post1: State,
    post2: State,
    xs: Seq<i32>,
    k: int,
    r1: Result<(), IllegalMoves>,
    r2: Result<(), IllegalMoves>,
)
    requires
        pre.wf(),
        xs.len() == 23,
        argmax_spec(xs.subrange(0, 3)) == 1,
        argmax_spec(xs.subrange(3, 8)) == k,
        decode_step(pre, post1, xs, r1),
        discard_step(pre, post2, k, r2),
    ensures
        r1 == r2,
        state_obs_eq(post1, post2),
{
    if pre.clues >= 8 || pre.gameover_spec() || !(0 <= k < pre.hands()[pre.actor()].len()) {
        assert(post1 == pre && post2 == pre);
    } else {
        assert(crate::state::discard_ok(pre, post1, k));
        assert(crate::state::discard_ok(pre, post2, k));
        assert(post1.hands() == post2.hands());
    }
}

} // verus!
