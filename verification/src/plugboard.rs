//! The plugboard: cables that swap letters in pairs before and after the
//! rotor stack.

use vstd::prelude::*;
use crate::alphabet::is_letter;

verus! {

/// What `c` becomes when the pairs from index `from` on are tried in order:
/// the partner of `c` in the first pair that holds it, or `c` itself where
/// none does.
pub open spec fn swap_from(pairs: Seq<(char, char)>, c: char, from: int) -> char
    decreases pairs.len() - from,
{
    if from < 0 || from >= pairs.len() {
        c
    } else if pairs[from].0 == c {
        pairs[from].1
    } else if pairs[from].1 == c {
        pairs[from].0
    } else {
        swap_from(pairs, c, from + 1)
    }
}

/// What the board makes of `c`: at most one swap, by the first pair that
/// holds `c`.
pub open spec fn swapped(pairs: Seq<(char, char)>, c: char) -> char {
    swap_from(pairs, c, 0)
}

/// Whether `c` is an end of some cable.
pub open spec fn is_plugged(pairs: Seq<(char, char)>, c: char) -> bool {
    exists|i: int| 0 <= i < pairs.len() && (#[trigger] pairs[i].0 == c || pairs[i].1 == c)
}

/// No character is an end of two different cables.
pub open spec fn well_paired(pairs: Seq<(char, char)>) -> bool {
    forall|i: int, j: int|
        0 <= i < pairs.len() && 0 <= j < pairs.len() && i != j ==> {
            &&& (#[trigger] pairs[i]).0 != (#[trigger] pairs[j]).0
            &&& pairs[i].0 != pairs[j].1
            &&& pairs[i].1 != pairs[j].1
        }
}

/// Every cable joins two capital letters.
pub open spec fn joins_letters(pairs: Seq<(char, char)>) -> bool {
    forall|i: int|
        0 <= i < pairs.len() ==> is_letter((#[trigger] pairs[i]).0) && is_letter(pairs[i].1)
}

/// A set of cables, each joining two letters.
pub struct PlugBoard(Vec<(char, char)>);

impl View for PlugBoard {
    type V = Seq<(char, char)>;

    closed spec fn view(&self) -> Seq<(char, char)> {
        self.0@
    }
}

impl PlugBoard {
    /// A board with the given cables, in the given order. No cable at all
    /// makes a board that changes nothing.
    pub fn new(connections: Vec<(char, char)>) -> (board: Self)
        ensures
            board@ == connections@,
    {
        PlugBoard(connections)
    }

    /// The partner of `c` in the first cable that holds it, or `c` itself
    /// where no cable does.
    pub fn swap(&self, c: &char) -> (r: char)
        ensures
            r == swapped(self@, *c),
    {
        let mut i: usize = 0;
        while i < self.0.len()
            invariant
                i <= self.0@.len(),
                swapped(self@, *c) == swap_from(self@, *c, i as int),
            decreases self.0@.len() - i,
        {
            let (c1, c2) = self.0[i];
            if c1 == *c {
                return c2;
            }
            if c2 == *c {
                return c1;
            }
            i += 1;
        }
        *c
    }
}

/// From index `from` on, the board either finds no cable that holds `c` and
/// leaves it, or hands out the other end of a cable that holds it.
pub proof fn lemma_swap_from_cases(pairs: Seq<(char, char)>, c: char, from: int)
    requires
        0 <= from,
    ensures
        ({
            let r = swap_from(pairs, c, from);
            ||| (r == c && forall|k: int|
                from <= k < pairs.len() ==> (#[trigger] pairs[k]).0 != c && pairs[k].1 != c)
            ||| exists|k: int|
                from <= k < pairs.len() && ((#[trigger] pairs[k]).0 == c && pairs[k].1 == r
                    || pairs[k].1 == c && pairs[k].0 == r)
        }),
    decreases pairs.len() - from,
{
    if from < pairs.len() {
        if pairs[from].0 == c {
        } else if pairs[from].1 == c {
        } else {
            lemma_swap_from_cases(pairs, c, from + 1);
        }
    }
}

/// A letter that no cable holds passes the board unchanged.
pub proof fn lemma_swap_unplugged(pairs: Seq<(char, char)>, c: char)
    requires
        !is_plugged(pairs, c),
    ensures
        swapped(pairs, c) == c,
{
    lemma_swap_from_cases(pairs, c, 0);
}

/// On a board where no letter is an end of two cables, each cable swaps its
/// two ends: the board turns either end into the other.
pub proof fn lemma_swap_pair(pairs: Seq<(char, char)>, i: int)
    requires
        well_paired(pairs),
        0 <= i < pairs.len(),
    ensures
        swapped(pairs, pairs[i].0) == pairs[i].1,
        swapped(pairs, pairs[i].1) == pairs[i].0,
{
    lemma_swap_reaches(pairs, i, 0);
}

/// Tried from any cable up to the `i`-th on, either end of the `i`-th cable
/// is turned into the other: no cable before it holds them.
proof fn lemma_swap_reaches(pairs: Seq<(char, char)>, i: int, from: int)
    requires
        well_paired(pairs),
        0 <= from <= i < pairs.len(),
    ensures
        swap_from(pairs, pairs[i].0, from) == pairs[i].1,
        swap_from(pairs, pairs[i].1, from) == pairs[i].0,
    decreases i - from,
{
    if from < i {
        assert(pairs[from].0 != pairs[i].0 && pairs[from].0 != pairs[i].1);
        assert(pairs[i].0 != pairs[from].1 && pairs[from].1 != pairs[i].1);
        lemma_swap_reaches(pairs, i, from + 1);
    }
}

/// On a board where no letter is an end of two cables, swapping twice gives
/// every character back.
pub proof fn lemma_swap_twice(pairs: Seq<(char, char)>, c: char)
    requires
        well_paired(pairs),
    ensures
        swapped(pairs, swapped(pairs, c)) == c,
{
    lemma_swap_from_cases(pairs, c, 0);
    let r = swapped(pairs, c);
    if exists|k: int|
        0 <= k < pairs.len() && ((#[trigger] pairs[k]).0 == c && pairs[k].1 == r || pairs[k].1 == c
            && pairs[k].0 == r) {
        let k = choose|k: int|
            0 <= k < pairs.len() && ((#[trigger] pairs[k]).0 == c && pairs[k].1 == r || pairs[k].1
                == c && pairs[k].0 == r);
        lemma_swap_pair(pairs, k);
    }
}

/// A board whose cables join letters turns letters into letters.
pub proof fn lemma_swap_keeps_letters(pairs: Seq<(char, char)>, c: char)
    requires
        joins_letters(pairs),
        is_letter(c),
    ensures
        is_letter(swapped(pairs, c)),
{
    lemma_swap_from_cases(pairs, c, 0);
}

} // verus!
