//! Laws of the state machine that relate several operations: stated over
//! the same spec predicates that the operations' own contracts use.

use vstd::prelude::*;

use crate::decode::decode_step;
use crate::state::{
    cards_in_hands, clue_step, discard_step, play_step, ClueKind, IllegalMoves, State,
};

verus! {

/// Whether `post` is reachable from `pre` by one call of any operation,
/// accepted or rejected: play, discard, either clue, or a decode dispatch.
pub open spec fn steps_to(pre: State, post: State) -> bool {
    ||| exists|pos: int, r: Result<(), IllegalMoves>| #[trigger] play_step(pre, post, pos, r)
    ||| exists|pos: int, r: Result<(), IllegalMoves>| #[trigger] discard_step(pre, post, pos, r)
    ||| exists|target: int, kind: ClueKind, r: Result<(), IllegalMoves>| #[trigger] clue_step(
        pre,
        post,
        target,
        kind,
        r,
    )
    ||| exists|xs: Seq<i32>, r: Result<(), IllegalMoves>| #[trigger] decode_step(pre, post, xs, r)
}

/// Conservation: in every well-formed state the draw pile, the hands, the
/// discard pile and the score together account for exactly the 50 cards.
pub proof fn lemma_card_conservation(s: State)
    requires
        s.wf(),
    ensures
        s.deck@.len() + cards_in_hands(s.hands()) + s.discard@.len() + s.score_spec() == 50,
{
}

/// Turn monotonicity: one call of any operation either leaves the state
/// untouched (a rejection) or advances the turn by exactly one, and the
/// next acting player is always the turn counter modulo the player count.
pub proof fn lemma_turn_monotonic(pre: State, post: State)
    requires
        steps_to(pre, post),
    ensures
        post == pre || post.turn == pre.turn + 1,
        post.actor() == post.turn as int % post.nplayers(),
{
    if exists|pos: int, r: Result<(), IllegalMoves>| #[trigger] play_step(pre, post, pos, r) {
        let (pos, r) = choose|pos: int, r: Result<(), IllegalMoves>| #[trigger] play_step(
            pre,
            post,
            pos,
            r,
        );
    } else if exists|pos: int, r: Result<(), IllegalMoves>| #[trigger] discard_step(
        pre,
        post,
        pos,
        r,
    ) {
        let (pos, r) = choose|pos: int, r: Result<(), IllegalMoves>| #[trigger] discard_step(
            pre,
            post,
            pos,
            r,
        );
    } else if exists|target: int, kind: ClueKind, r: Result<(), IllegalMoves>| #[trigger] clue_step(
        pre,
        post,
        target,
        kind,
        r,
    ) {
        let (target, kind, r) = choose|target: int, kind: ClueKind, r: Result<
            (),
            IllegalMoves,
        >| #[trigger] clue_step(pre, post, target, kind, r);
    } else {
        let (xs, r) = choose|xs: Seq<i32>, r: Result<(), IllegalMoves>| #[trigger] decode_step(
            pre,
            post,
            xs,
            r,
        );
    }
}

/// The token economy of a discard: it is accepted exactly below the token
/// cap (and only then), returns exactly one token, and a rejection leaves
/// the state untouched.
pub proof fn lemma_discard_tokens(pre: State, post: State, pos: int, r: Result<(), IllegalMoves>)
    requires
        discard_step(pre, post, pos, r),
    ensures
        r is Ok ==> pre.clues < 8 && post.clues == pre.clues + 1,
        r is Err ==> post == pre,
{
}

/// The token economy of a clue: it is accepted only with a token left and
/// spends exactly one, and a rejection leaves the state untouched.
pub proof fn lemma_clue_tokens(
    pre: State,
    post: State,
    target: int,
    kind: ClueKind,
    r: Result<(), IllegalMoves>,
)
    requires
        clue_step(pre, post, target, kind, r),
    ensures
        r is Ok ==> pre.clues > 0 && post.clues == pre.clues - 1,
        r is Err ==> post == pre,
{
}

/// Clue truthfulness: clueing one's own hand is rejected, and a clue that
/// matches no card in the target's hand is rejected as empty; either
/// rejection leaves the state unchanged.
pub proof fn lemma_clue_truthfulness(
    pre: State,
    post: State,
    target: int,
    kind: ClueKind,
    r: Result<(), IllegalMoves>,
)
    requires
        clue_step(pre, post, target, kind, r),
        0 <= target < pre.nplayers(),
        !pre.gameover_spec(),
    ensures
        target == pre.actor() ==> r == Err::<(), IllegalMoves>(IllegalMoves::SelfClue) && post
            == pre,
        target != pre.actor() && pre.clues > 0 && !(exists|j: int|
            0 <= j < pre.hands()[target].len() && crate::state::matches_kind(
                #[trigger] pre.hands()[target][j],
                kind,
            )) ==> r == Err::<(), IllegalMoves>(IllegalMoves::EmptyClue) && post == pre,
{
}

/// Tokens never leave their bounds: well-formedness keeps the clue tokens
/// within 0..=8 and the mistake tokens within 0..=3.
pub proof fn lemma_token_bounds(s: State)
    requires
        s.wf(),
    ensures
        s.clues <= 8,
        s.mistakes <= 3,
{
}

/// Termination permanence: once the game is over, no operation moves the
/// state again, so the game stays over for the rest of its lifetime.
pub proof fn lemma_gameover_permanent(pre: State, post: State)
    requires
        pre.gameover_spec(),
        steps_to(pre, post),
    ensures
        post.gameover_spec(),
        post == pre,
{
    if exists|pos: int, r: Result<(), IllegalMoves>| #[trigger] play_step(pre, post, pos, r) {
        let (pos, r) = choose|pos: int, r: Result<(), IllegalMoves>| #[trigger] play_step(
            pre,
            post,
            pos,
            r,
        );
        assert(post == pre);
    } else if exists|pos: int, r: Result<(), IllegalMoves>| #[trigger] discard_step(
        pre,
        post,
        pos,
        r,
    ) {
        let (pos, r) = choose|pos: int, r: Result<(), IllegalMoves>| #[trigger] discard_step(
            pre,
            post,
            pos,
            r,
        );
        assert(post == pre);
    } else if exists|target: int, kind: ClueKind, r: Result<(), IllegalMoves>| #[trigger] clue_step(
        pre,
        post,
        target,
        kind,
        r,
    ) {
        let (target, kind, r) = choose|target: int, kind: ClueKind, r: Result<
            (),
            IllegalMoves,
        >| #[trigger] clue_step(pre, post, target, kind, r);
        assert(post == pre);
    } else {
        let (xs, r) = choose|xs: Seq<i32>, r: Result<(), IllegalMoves>| #[trigger] decode_step(
            pre,
            post,
            xs,
            r,
        );
        assert(post == pre);
    }
}

} // verus!
