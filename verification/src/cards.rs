//! The card model: five colors, five ranks with a fixed multiplicity table,
//! and the canonical 50-card deck.

use vstd::prelude::*;

verus! {

use vstd::string::StrSliceExecFns;
use vstd::string::StringExecFns;

/// One of the five card colors, stored as an index in `0..5`
/// (`r`, `g`, `b`, `y`, `p` in that order).
#[derive(Clone, Copy, PartialEq, Eq, Structural, Debug)]
pub struct Color(pub usize);

/// One of the five card ranks, stored as an index in `0..5`
/// (index `i` stands for the printed rank `i + 1`).
#[derive(Clone, Copy, PartialEq, Eq, Structural, Debug)]
pub struct Value(pub usize);

/// An immutable card: a rank and a color.
#[derive(Clone, Copy, PartialEq, Eq, Structural, Debug)]
pub struct Card {
    pub value: Value,
    pub color: Color,
}

impl Color {
    pub open spec fn wf(self) -> bool {
        self.0 < 5
    }

    /// The canonical ordered sequence of all five colors.
    pub fn all() -> (r: Vec<Color>)
        ensures
            r@ =~= Seq::new(5, |i: int| Color(i as usize)),
    {
        let mut v: Vec<Color> = Vec::new();
        let mut i: usize = 0;
        while i < 5
            invariant
                i <= 5,
                v@ =~= Seq::new(i as nat, |j: int| Color(j as usize)),
            decreases 5 - i,
        {
            v.push(Color(i));
            i = i + 1;
        }
        v
    }

    pub fn new(color: usize) -> (r: Color)
        requires
            color < 5,
        ensures
            r == Color(color),
    {
        Color(color)
    }

    /// The color named by its one-letter form, one of `"r"`, `"g"`, `"b"`,
    /// `"y"`, `"p"`.
    pub fn from_str(color: &str) -> (r: Color)
        requires
            color@ == "r"@ || color@ == "g"@ || color@ == "b"@ || color@ == "y"@ || color@
                == "p"@,
        ensures
            color@ == "r"@ ==> r == Color(0usize),
            color@ == "g"@ ==> r == Color(1usize),
            color@ == "b"@ ==> r == Color(2usize),
            color@ == "y"@ ==> r == Color(3usize),
            color@ == "p"@ ==> r == Color(4usize),
    {
        proof {
            reveal_strlit("r");
            reveal_strlit("g");
            reveal_strlit("b");
            reveal_strlit("y");
            reveal_strlit("p");
        }
        let c = color.get_char(0);
        if c == 'r' {
            Color(0)
        } else if c == 'g' {
            Color(1)
        } else if c == 'b' {
            Color(2)
        } else if c == 'y' {
            Color(3)
        } else {
            Color(4)
        }
    }

    pub fn r() -> (r: Color)
        ensures
            r == Color(0usize),
    {
        Color(0)
    }

    pub fn g() -> (r: Color)
        ensures
            r == Color(1usize),
    {
        Color(1)
    }

    pub fn b() -> (r: Color)
        ensures
            r == Color(2usize),
    {
        Color(2)
    }

    pub fn y() -> (r: Color)
        ensures
            r == Color(3usize),
    {
        Color(3)
    }

    pub fn p() -> (r: Color)
        ensures
            r == Color(4usize),
    {
        Color(4)
    }

    /// The one-letter spec-level form of this color.
    pub open spec fn letter(self) -> Seq<char> {
        if self.0 == 0 {
            "r"@
        } else if self.0 == 1 {
            "g"@
        } else if self.0 == 2 {
            "b"@
        } else if self.0 == 3 {
            "y"@
        } else {
            "p"@
        }
    }

    /// The one-letter textual form of this color.
    pub fn text(&self) -> (r: String)
        requires
            self.wf(),
        ensures
            r@ == self.letter(),
    {
        let s: &str = if self.0 == 0 {
            "r"
        } else if self.0 == 1 {
            "g"
        } else if self.0 == 2 {
            "b"
        } else if self.0 == 3 {
            "y"
        } else {
            "p"
        };
        String::from_str(s)
    }
}

/// How many copies of a rank the deck holds: 3 of rank 1, 2 each of
/// ranks 2 to 4, and 1 of rank 5.
pub open spec fn copies_of(value: int) -> int {
    if value == 0 {
        3
    } else if value == 4 {
        1
    } else {
        2
    }
}

impl Value {
    pub open spec fn wf(self) -> bool {
        self.0 < 5
    }

    pub fn new(value: usize) -> (r: Value)
        requires
            value < 5,
        ensures
            r == Value(value),
    {
        Value(value)
    }

    /// The canonical ordered sequence of all five ranks.
    pub fn all() -> (r: Vec<Value>)
        ensures
            r@ =~= Seq::new(5, |i: int| Value(i as usize)),
    {
        let mut v: Vec<Value> = Vec::new();
        let mut i: usize = 0;
        while i < 5
            invariant
                i <= 5,
                v@ =~= Seq::new(i as nat, |j: int| Value(j as usize)),
            decreases 5 - i,
        {
            v.push(Value(i));
            i = i + 1;
        }
        v
    }

    /// How many copies of this rank the deck holds.
    pub fn copies(&self) -> (r: usize)
        requires
            self.wf(),
        ensures
            r == copies_of(self.0 as int),
    {
        if self.0 == 0 {
            3
        } else if self.0 == 4 {
            1
        } else {
            2
        }
    }

    /// The one-digit spec-level form of this rank (printed 1-based).
    pub open spec fn digit(self) -> Seq<char> {
        if self.0 == 0 {
            "1"@
        } else if self.0 == 1 {
            "2"@
        } else if self.0 == 2 {
            "3"@
        } else if self.0 == 3 {
            "4"@
        } else {
            "5"@
        }
    }

    /// The one-digit textual form of this rank.
    pub fn text(&self) -> (r: String)
        requires
            self.wf(),
        ensures
            r@ == self.digit(),
    {
        let s: &str = if self.0 == 0 {
            "1"
        } else if self.0 == 1 {
            "2"
        } else if self.0 == 2 {
            "3"
        } else if self.0 == 3 {
            "4"
        } else {
            "5"
        };
        String::from_str(s)
    }
}

impl Card {
    pub open spec fn wf(self) -> bool {
        self.value.wf() && self.color.wf()
    }

    pub fn new(value: Value, color: Color) -> (r: Card)
        ensures
            r == (Card { value, color }),
    {
        Card { value, color }
    }

    /// The textual form `"<rank><color-letter>"`, rank printed 1-based.
    pub fn text(&self) -> (r: String)
        requires
            self.wf(),
        ensures
            r@ == self.value.digit() + self.color.letter(),
    {
        let mut s = self.value.text();
        let c = self.color.text();
        s.append(c.as_str());
        s
    }
}

/// The rank found at offset `j` within one color's block of the canonical
/// deck: 3 copies of rank index 0, then 2 each of 1, 2 and 3, then one 4.
pub open spec fn rank_at(j: int) -> int {
    if j < 3 {
        0
    } else if j < 5 {
        1
    } else if j < 7 {
        2
    } else if j < 9 {
        3
    } else {
        4
    }
}

/// The ten cards of one color in canonical order.
pub open spec fn color_block(c: int) -> Seq<Card> {
    Seq::new(10, |j: int| Card { value: Value(rank_at(j) as usize), color: Color(c as usize) })
}

/// The first `c` color blocks of the canonical deck, concatenated.
pub open spec fn deck_up_to(c: int) -> Seq<Card>
    decreases c,
{
    if c <= 0 {
        Seq::empty()
    } else {
        deck_up_to(c - 1) + color_block(c - 1)
    }
}

/// The canonical 50-card deck: colors outer, ranks inner, each rank
/// repeated according to its multiplicity.
pub open spec fn canonical_deck() -> Seq<Card> {
    deck_up_to(5)
}

pub proof fn lemma_deck_up_to_len(c: int)
    requires
        0 <= c,
    ensures
        deck_up_to(c).len() == 10 * c,
    decreases c,
{
    if c > 0 {
        lemma_deck_up_to_len(c - 1);
    }
}

/// Every card of the canonical deck is well formed.
pub proof fn lemma_deck_up_to_wf(c: int)
    requires
        0 <= c <= 5,
    ensures
        forall|i: int| 0 <= i < deck_up_to(c).len() ==> (#[trigger] deck_up_to(c)[i]).wf(),
    decreases c,
{
    if c > 0 {
        lemma_deck_up_to_wf(c - 1);
        lemma_deck_up_to_len(c - 1);
    }
}

impl Card {
    /// The canonical deck as a vector, ready to be shuffled.
    pub fn deck() -> (r: Vec<Card>)
        ensures
            r@ == canonical_deck(),
            r@.len() == 50,
    {
        let colors = Color::all();
        let values = Value::all();
        let mut deck: Vec<Card> = Vec::new();
        let mut ci: usize = 0;
        while ci < 5
            invariant
                ci <= 5,
                colors@ =~= Seq::new(5, |i: int| Color(i as usize)),
                values@ =~= Seq::new(5, |i: int| Value(i as usize)),
                deck@ =~= deck_up_to(ci as int),
            decreases 5 - ci,
        {
            let color = colors[ci];
            let mut vi: usize = 0;
            let ghost block_start = deck@;
            while vi < 5
                invariant
                    vi <= 5,
                    ci < 5,
                    colors@ =~= Seq::new(5, |i: int| Color(i as usize)),
                    values@ =~= Seq::new(5, |i: int| Value(i as usize)),
                    color == Color(ci as usize),
                    block_start =~= deck_up_to(ci as int),
                    deck@ =~= block_start + color_block(ci as int).take(block_offset(vi as int)),
                decreases 5 - vi,
            {
                let value = values[vi];
                let copies = value.copies();
                let mut k: usize = 0;
                while k < copies
                    invariant
                        k <= copies,
                        vi < 5,
                        ci < 5,
                        color == Color(ci as usize),
                        value == Value(vi as usize),
                        copies == copies_of(vi as int),
                        block_start =~= deck_up_to(ci as int),
                        deck@ =~= block_start + color_block(ci as int).take(
                            block_offset(vi as int) + k,
                        ),
                    decreases copies - k,
                {
                    deck.push(Card { value, color });
                    k = k + 1;
                }
                vi = vi + 1;
            }
            ci = ci + 1;
        }
        proof {
            lemma_deck_up_to_len(5);
        }
        deck
    }
}

/// Where rank index `v` starts inside one color's ten-card block.
pub open spec fn block_offset(v: int) -> int {
    if v <= 0 {
        0
    } else if v == 1 {
        3
    } else if v == 2 {
        5
    } else if v == 3 {
        7
    } else if v == 4 {
        9
    } else {
        10
    }
}

} // verus!
