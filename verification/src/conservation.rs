//! Card conservation in its strong form: at all times the draw pile, the
//! hands, the discard pile and the cards the table counters stand for are
//! together exactly the original 50-card multiset. Proved from the
//! operations' contracts alone: it holds of a fresh game and every
//! operation preserves it.

use vstd::prelude::*;

use crate::cards::{canonical_deck, Card, Color, Value};
use crate::laws::steps_to;
use crate::state::{dealt_from, handsize, ClueKind, IllegalMoves, State};

verus! {

use vstd::multiset::Multiset;

/// The cards held in hands, as a multiset.
pub open spec fn hands_ms(hs: Seq<Seq<Card>>) -> Multiset<Card>
    decreases hs.len(),
{
    if hs.len() == 0 {
        Multiset::empty()
    } else {
        hands_ms(hs.drop_last()).add(hs.last().to_multiset())
    }
}

/// The cards one color's progress counter stands for: the ranks below `k`.
pub open spec fn color_table_ms(c: int, k: int) -> Multiset<Card>
    decreases k,
{
    if k <= 0 {
        Multiset::empty()
    } else {
        color_table_ms(c, k - 1).insert(
            Card { value: Value((k - 1) as usize), color: Color(c as usize) },
        )
    }
}

/// The cards the whole table stands for.
pub open spec fn table_ms(t: Seq<usize>) -> Multiset<Card> {
    color_table_ms(0, t[0] as int).add(color_table_ms(1, t[1] as int)).add(
        color_table_ms(2, t[2] as int),
    ).add(color_table_ms(3, t[3] as int)).add(color_table_ms(4, t[4] as int))
}

/// The conservation statement itself.
pub open spec fn conserved(s: State) -> bool {
    s.deck@.to_multiset().add(hands_ms(s.hands())).add(s.discard@.to_multiset()).add(
        table_ms(s.table@),
    ) == canonical_deck().to_multiset()
}

/// The hands dealt from the first `k` blocks of `d` hold exactly those
/// cards.
proof fn lemma_hands_prefix_ms(hs: Seq<Seq<Card>>, d: Seq<Card>, nc: int, k: int)
    requires
        0 <= k <= hs.len(),
        0 < nc,
        hs.len() * nc <= d.len(),
        forall|p: int|
            0 <= p < hs.len() ==> #[trigger] hs[p] == d.subrange(p * nc, (p + 1) * nc),
    ensures
        hands_ms(hs.take(k)) == d.subrange(0, k * nc).to_multiset(),
    decreases k,
{
    broadcast use vstd::seq_lib::group_to_multiset_ensures;
    broadcast use vstd::multiset::group_multiset_axioms;

    assert(0 <= k * nc <= hs.len() * nc) by (nonlinear_arith)
        requires
            0 <= k <= hs.len(),
            0 < nc,
    ;
    if k == 0 {
        assert(k * nc == 0) by (nonlinear_arith)
            requires
                k == 0,
        ;
        assert(hs.take(0) =~= Seq::<Seq<Card>>::empty());
        assert(d.subrange(0, 0).to_multiset() =~= Multiset::<Card>::empty()) by {
            assert(d.subrange(0, 0).len() == 0);
        }
    } else {
        lemma_hands_prefix_ms(hs, d, nc, k - 1);
        assert((k - 1) * nc + nc == k * nc) by (nonlinear_arith);
        assert(0 <= (k - 1) * nc) by (nonlinear_arith)
            requires
                1 <= k,
                0 < nc,
        ;
        assert(((k - 1) + 1) * nc == k * nc) by (nonlinear_arith);
        assert(hs.take(k).drop_last() =~= hs.take(k - 1));
        assert(hs.take(k).last() == hs[k - 1]);
        assert(hands_ms(hs.take(k)) == hands_ms(hs.take(k - 1)).add(hs[k - 1].to_multiset()));
        let front = d.subrange(0, (k - 1) * nc);
        let block = d.subrange((k - 1) * nc, k * nc);
        assert(front + block =~= d.subrange(0, k * nc));
        vstd::seq_lib::lemma_multiset_commutative(front, block);
        assert(hs[k - 1] == block);
        assert(hands_ms(hs.take(k)) == front.to_multiset().add(block.to_multiset()));
        assert(d.subrange(0, k * nc).to_multiset() == front.to_multiset().add(
            block.to_multiset(),
        ));
    }
}

/// A fresh game conserves the cards: nothing is discarded or played yet,
/// and the deal split the shuffled deck between hands and draw pile.
pub proof fn lemma_conserved_new(s: State, d: Seq<Card>, n: int)
    requires
        2 <= n <= 5,
        dealt_from(s, d, n),
        forall|c: int| 0 <= c < 5 ==> s.table[c] == 0,
        s.discard@.len() == 0,
    ensures
        conserved(s),
{
    broadcast use vstd::seq_lib::group_to_multiset_ensures;
    broadcast use vstd::multiset::group_multiset_axioms;

    let nc = handsize(n);
    assert(0 < n * nc <= 50) by (nonlinear_arith)
        requires
            2 <= n <= 5,
            4 <= nc <= 5,
    ;
    lemma_hands_prefix_ms(s.hands(), d, nc, n);
    assert(s.hands().take(n) =~= s.hands());
    let dealt = d.subrange(0, n * nc);
    let rest = d.subrange(n * nc, 50);
    assert(dealt + rest =~= d);
    vstd::seq_lib::lemma_multiset_commutative(dealt, rest);
    assert(s.discard@.to_multiset() =~= Multiset::<Card>::empty()) by {
        assert(s.discard@.to_multiset().len() == 0);
    }
    assert(table_ms(s.table@) =~= Multiset::<Card>::empty());
    assert(s.deck@.to_multiset().add(hands_ms(s.hands())).add(s.discard@.to_multiset()).add(
        table_ms(s.table@),
    ) =~= d.to_multiset());
}

/// Exchanging one hand exchanges exactly that hand's cards.
proof fn lemma_hands_ms_update(hs: Seq<Seq<Card>>, p: int, h: Seq<Card>)
    requires
        0 <= p < hs.len(),
    ensures
        hands_ms(hs.update(p, h)).add(hs[p].to_multiset()) == hands_ms(hs).add(h.to_multiset()),
    decreases hs.len(),
{
    broadcast use vstd::multiset::group_multiset_axioms;

    if p == hs.len() - 1 {
        assert(hs.update(p, h).drop_last() =~= hs.drop_last());
        assert(hs.update(p, h).last() == h);
        assert(hands_ms(hs.drop_last()).add(h.to_multiset()).add(hs[p].to_multiset())
            =~= hands_ms(hs.drop_last()).add(hs[p].to_multiset()).add(h.to_multiset()));
    } else {
        lemma_hands_ms_update(hs.drop_last(), p, h);
        assert(hs.update(p, h).drop_last() =~= hs.drop_last().update(p, h));
        assert(hs.update(p, h).last() == hs.last());
        assert(hands_ms(hs.drop_last().update(p, h)).add(hs.last().to_multiset()).add(
            hs[p].to_multiset(),
        ) =~= hands_ms(hs.drop_last().update(p, h)).add(hs[p].to_multiset()).add(
            hs.last().to_multiset(),
        ));
        assert(hands_ms(hs.drop_last()).add(hs[p].to_multiset()).add(h.to_multiset()).add(
            hs.last().to_multiset(),
        ) =~= hands_ms(hs.drop_last()).add(hs.last().to_multiset()).add(hs[p].to_multiset()).add(
            h.to_multiset(),
        ));
    }
}

/// A sequence is its removal plus the removed card.
proof fn lemma_seq_remove_ms(s: Seq<Card>, i: int)
    requires
        0 <= i < s.len(),
    ensures
        s.to_multiset() == s.remove(i).to_multiset().insert(s[i]),
    decreases s.len(),
{
    broadcast use vstd::seq_lib::group_to_multiset_ensures;
    broadcast use vstd::multiset::group_multiset_axioms;

    assert(s.contains(s[i]));
    assert(s.to_multiset().count(s[i]) > 0);
    assert(s.remove(i).to_multiset() =~= s.to_multiset().remove(s[i]));
    assert(s.to_multiset().remove(s[i]).insert(s[i]) =~= s.to_multiset());
}

/// Inserting a card at the front inserts it into the multiset.
proof fn lemma_seq_insert_front_ms(s: Seq<Card>, x: Card)
    ensures
        s.insert(0, x).to_multiset() == s.to_multiset().insert(x),
{
    broadcast use vstd::seq_lib::group_to_multiset_ensures;
    broadcast use vstd::multiset::group_multiset_axioms;

    assert(s.insert(0, x) =~= seq![x] + s);
    vstd::seq_lib::lemma_multiset_commutative(seq![x], s);
    assert(seq![x].to_multiset() =~= Multiset::<Card>::empty().insert(x)) by {
        assert(seq![x] =~= Seq::<Card>::empty().push(x));
        assert(Seq::<Card>::empty().to_multiset() =~= Multiset::<Card>::empty()) by {
            assert(Seq::<Card>::empty().to_multiset().len() == 0);
        }
    }
    assert(Multiset::<Card>::empty().insert(x).add(s.to_multiset()) =~= s.to_multiset().insert(
        x,
    ));
}

/// Dropping the last card removes it from the multiset.
proof fn lemma_seq_drop_last_ms(s: Seq<Card>)
    requires
        s.len() > 0,
    ensures
        s.to_multiset() == s.drop_last().to_multiset().insert(s.last()),
{
    assert(s.drop_last() =~= s.remove(s.len() - 1));
    lemma_seq_remove_ms(s, s.len() - 1);
}

/// Raising one progress counter adds exactly the next card of that color.
proof fn lemma_table_ms_update(t: Seq<usize>, c: int, card: Card)
    requires
        t.len() == 5,
        0 <= c < 5,
        t[c] < 5,
        card.color.0 == c,
        card.value.0 == t[c],
    ensures
        table_ms(t.update(c, (t[c] + 1) as usize)) == table_ms(t).insert(card),
{
    broadcast use vstd::multiset::group_multiset_axioms;

    let t2 = t.update(c, (t[c] + 1) as usize);
    assert(card == (Card { value: Value(t[c] as usize), color: Color(c as usize) }));
    assert(color_table_ms(c, t2[c] as int) == color_table_ms(c, t[c] as int).insert(card));
    assert(forall|c2: int| 0 <= c2 < 5 && c2 != c ==> t2[c2] == t[c2]);
    assert(table_ms(t2) =~= table_ms(t).insert(card));
}

/// An accepted play or discard preserves conservation: one card leaves
/// the acting hand for the table or the discard pile, and at most one
/// card moves from the deck into that hand.
proof fn lemma_conserved_hand_step(pre: State, post: State, pos: int)
    requires
        pre.wf(),
        conserved(pre),
        !pre.gameover_spec(),
        0 <= pos < pre.hands()[pre.actor()].len(),
        crate::state::play_ok(pre, post, pos) || crate::state::discard_ok(pre, post, pos),
    ensures
        conserved(post),
{
    broadcast use vstd::seq_lib::group_to_multiset_ensures;
    broadcast use vstd::multiset::group_multiset_axioms;

    let p = pre.actor();
    let hand0 = pre.hands()[p];
    let card = hand0[pos];
    let removed = hand0.remove(pos);
    let drew = pre.deck@.len() > 0;
    let hand1 = if drew {
        removed.insert(0, pre.deck@.last())
    } else {
        removed
    };
    assert(post.hands() == pre.hands().update(p, hand1));
    lemma_hands_ms_update(pre.hands(), p, hand1);
    lemma_seq_remove_ms(hand0, pos);
    if drew {
        lemma_seq_insert_front_ms(removed, pre.deck@.last());
        lemma_seq_drop_last_ms(pre.deck@);
    }
    if crate::state::play_ok(pre, post, pos) && pre.table[card.color.0 as int] == card.value.0 {
        assert(card.wf());
        lemma_table_ms_update(pre.table@, card.color.0 as int, card);
        assert(post.discard@.to_multiset() == pre.discard@.to_multiset());
        assert(table_ms(post.table@) == table_ms(pre.table@).insert(card));
    } else {
        assert(post.table@ == pre.table@);
        assert(post.discard@ == pre.discard@.push(card));
        assert(post.discard@.to_multiset() =~= pre.discard@.to_multiset().insert(card));
    }
    assert forall|x: Card|
        post.deck@.to_multiset().add(hands_ms(post.hands())).add(post.discard@.to_multiset()).add(
            table_ms(post.table@),
        ).count(x) == pre.deck@.to_multiset().add(hands_ms(pre.hands())).add(
            pre.discard@.to_multiset(),
        ).add(table_ms(pre.table@)).count(x) by {
        let lhs_hands = hands_ms(post.hands()).add(hand0.to_multiset());
        let rhs_hands = hands_ms(pre.hands()).add(hand1.to_multiset());
        assert(lhs_hands == rhs_hands);
        assert(lhs_hands.count(x) == hands_ms(post.hands()).count(x) + hand0.to_multiset().count(
            x,
        ));
        assert(rhs_hands.count(x) == hands_ms(pre.hands()).count(x) + hand1.to_multiset().count(
            x,
        ));
        assert(hands_ms(post.hands()).count(x) + hand0.to_multiset().count(x) == hands_ms(
            pre.hands(),
        ).count(x) + hand1.to_multiset().count(x));
        assert(hand0.to_multiset().count(x) == removed.to_multiset().count(x) + if x == card {
            1int
        } else {
            0int
        });
        if drew {
            assert(hand1.to_multiset().count(x) == removed.to_multiset().count(x) + if x
                == pre.deck@.last() {
                1int
            } else {
                0int
            });
            assert(pre.deck@.to_multiset().count(x) == post.deck@.to_multiset().count(x) + if x
                == pre.deck@.last() {
                1int
            } else {
                0int
            });
        }
    }
    assert(post.deck@.to_multiset().add(hands_ms(post.hands())).add(
        post.discard@.to_multiset(),
    ).add(table_ms(post.table@)) =~= pre.deck@.to_multiset().add(hands_ms(pre.hands())).add(
        pre.discard@.to_multiset(),
    ).add(table_ms(pre.table@)));
}

/// Every operation preserves conservation: an accepted play moves a card
/// to the table or the discard pile, an accepted discard moves one to the
/// discard pile, a clue moves nothing, and a rejected call moves nothing.
pub proof fn lemma_conserved_step(pre: State, post: State)
    requires
        pre.wf(),
        conserved(pre),
        steps_to(pre, post),
    ensures
        conserved(post),
{
    if post == pre {
        return ;
    }
    if exists|pos: int, r: Result<(), IllegalMoves>| #[trigger] crate::state::play_step(
        pre,
        post,
        pos,
        r,
    ) {
        let (pos, r) = choose|pos: int, r: Result<(), IllegalMoves>| #[trigger]
            crate::state::play_step(pre, post, pos, r);
        lemma_conserved_hand_step(pre, post, pos);
    } else if exists|pos: int, r: Result<(), IllegalMoves>| #[trigger] crate::state::discard_step(
        pre,
        post,
        pos,
        r,
    ) {
        let (pos, r) = choose|pos: int, r: Result<(), IllegalMoves>| #[trigger]
            crate::state::discard_step(pre, post, pos, r);
        lemma_conserved_hand_step(pre, post, pos);
    } else if exists|target: int, kind: ClueKind, r: Result<(), IllegalMoves>| #[trigger]
        crate::state::clue_step(pre, post, target, kind, r) {
        let (target, kind, r) = choose|target: int, kind: ClueKind, r: Result<
            (),
            IllegalMoves,
        >| #[trigger] crate::state::clue_step(pre, post, target, kind, r);
        assert(post.hands() =~= pre.hands());
    } else {
        let (xs, r) = choose|xs: Seq<i32>, r: Result<(), IllegalMoves>| #[trigger]
            crate::decode::decode_step(pre, post, xs, r);
        let kind = crate::decode::argmax_spec(xs.subrange(0, 3));
        if kind == 0 || kind == 1 {
            lemma_conserved_hand_step(pre, post, crate::decode::argmax_spec(xs.subrange(3, 8)));
        } else {
            assert(post.hands() =~= pre.hands());
        }
    }
}

} // verus!
