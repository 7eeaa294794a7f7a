//! The 26-letter alphabet: conversions between capital letters and their
//! zero-based indices, and what it means for a string to be a wiring.

use vstd::prelude::*;

verus! {

/// Whether `c` is one of the capital letters `A` to `Z`.
pub open spec fn is_letter(c: char) -> bool {
    65 <= c as int && c as int <= 90
}

/// The zero-based index of a capital letter: `A` is 0 and `Z` is 25.
pub open spec fn index_of(c: char) -> int {
    c as int - 65
}

/// The capital letter with zero-based index `n`.
pub open spec fn letter(n: int) -> char {
    (n + 65) as char
}

/// A table of 26 entries, each an index below 26.
pub open spec fn is_table(t: Seq<u8>) -> bool {
    &&& t.len() == 26
    &&& forall|i: int| 0 <= i < 26 ==> #[trigger] t[i] < 26
}

/// Whether two tables undo each other, in both directions.
pub open spec fn mutual_inverses(f: Seq<u8>, b: Seq<u8>) -> bool {
    &&& is_table(f)
    &&& is_table(b)
    &&& forall|i: int| 0 <= i < 26 ==> #[trigger] b[f[i] as int] == i
    &&& forall|i: int| 0 <= i < 26 ==> #[trigger] f[b[i] as int] == i
}

/// Whether a table is its own inverse.
pub open spec fn is_involution(t: Seq<u8>) -> bool {
    &&& is_table(t)
    &&& forall|i: int| 0 <= i < 26 ==> #[trigger] t[t[i] as int] == i
}

/// A string of exactly 26 capital letters.
pub open spec fn is_encoding(s: Seq<char>) -> bool {
    &&& s.len() == 26
    &&& forall|i: int| 0 <= i < 26 ==> is_letter(#[trigger] s[i])
}

/// A string of 26 capital letters in which no letter occurs twice.
pub open spec fn is_wiring(s: Seq<char>) -> bool {
    &&& is_encoding(s)
    &&& forall|i: int, j: int| 0 <= i < j < 26 ==> #[trigger] s[i] != #[trigger] s[j]
}

/// The table that an encoding spells: entry `i` is the index of its `i`-th letter.
pub open spec fn table_of(s: Seq<char>) -> Seq<u8> {
    Seq::new(s.len(), |i: int| index_of(s[i]) as u8)
}

/// Whether `c` differs from each of the first `n` characters of `s`.
pub open spec fn absent_before(s: Seq<char>, c: char, n: nat) -> bool
    decreases n,
{
    n == 0 || (s[n - 1] != c && absent_before(s, c, (n - 1) as nat))
}

/// Whether the first `n` characters of `s` are capital letters, no two of
/// them the same. Unfolding this definition goes through a given string letter by
/// letter.
pub open spec fn distinct_letters(s: Seq<char>, n: nat) -> bool
    decreases n,
{
    n == 0 || (is_letter(s[n - 1]) && absent_before(s, s[n - 1], (n - 1) as nat)
        && distinct_letters(s, (n - 1) as nat))
}

/// Whether each of the first `n` characters of `s` is a capital letter whose
/// own position in `s` holds the letter with index that character's position:
/// the letters are swapped in pairs.
pub open spec fn paired_letters(s: Seq<char>, n: nat) -> bool
    decreases n,
{
    n == 0 || (is_letter(s[n - 1]) && s[index_of(s[n - 1])] == letter(n - 1)
        && paired_letters(s, (n - 1) as nat))
}

/// What `absent_before` says, for every place at once.
pub proof fn lemma_absent_before(s: Seq<char>, c: char, n: nat)
    requires
        absent_before(s, c, n),
    ensures
        forall|i: int| 0 <= i < n ==> s[i] != c,
    decreases n,
{
    if n > 0 {
        lemma_absent_before(s, c, (n - 1) as nat);
    }
}

/// What `distinct_letters` says, for every place and every two places at
/// once.
pub proof fn lemma_distinct_letters(s: Seq<char>, n: nat)
    requires
        distinct_letters(s, n),
    ensures
        forall|i: int| 0 <= i < n ==> is_letter(#[trigger] s[i]),
        forall|i: int, j: int| 0 <= i < j < n ==> #[trigger] s[i] != #[trigger] s[j],
    decreases n,
{
    if n > 0 {
        lemma_distinct_letters(s, (n - 1) as nat);
        lemma_absent_before(s, s[n - 1], (n - 1) as nat);
    }
}

/// What `paired_letters` says, for every place at once.
pub proof fn lemma_paired_letters(s: Seq<char>, n: nat)
    requires
        paired_letters(s, n),
    ensures
        forall|i: int| 0 <= i < n ==> is_letter(#[trigger] s[i]),
        forall|i: int| 0 <= i < n ==> s[index_of(#[trigger] s[i])] == letter(i),
    decreases n,
{
    if n > 0 {
        lemma_paired_letters(s, (n - 1) as nat);
    }
}

/// In a wiring every index below 26 is spelled by some letter.
pub proof fn lemma_wiring_is_onto(s: Seq<char>, v: int)
    requires
        is_wiring(s),
        0 <= v < 26,
    ensures
        exists|i: int| 0 <= i < 26 && index_of(#[trigger] s[i]) == v,
{
    broadcast use vstd::seq_lib::seq_to_set_is_finite;

    let t = Seq::new(26, |i: int| index_of(s[i]));
    assert(t.no_duplicates()) by {
        assert forall|i: int, j: int| 0 <= i < t.len() && 0 <= j < t.len() && i != j implies t[i]
            != t[j] by {
            if i < j {
                assert(s[i] != s[j]);
            } else {
                assert(s[j] != s[i]);
            }
        }
    }
    t.unique_seq_to_set();
    let full = vstd::set_lib::set_int_range(0, 26);
    vstd::set_lib::lemma_int_range(0, 26);
    assert(t.to_set().subset_of(full)) by {
        assert forall|v: int| t.to_set().contains(v) implies full.contains(v) by {
            let i = choose|i: int| 0 <= i < t.len() && t[i] == v;
            assert(is_letter(s[i]));
        }
    }
    vstd::set_lib::lemma_subset_equality(t.to_set(), full);
    assert(full.contains(v));
    assert(t.to_set().contains(v));
    let i = choose|i: int| 0 <= i < t.len() && t[i] == v;
    assert(index_of(s[i]) == v);
}

/// Whether `c` is a capital letter.
pub fn is_capital(c: char) -> (b: bool)
    ensures
        b == is_letter(c),
{
    'A' <= c && c <= 'Z'
}

/// The index of a capital letter.
pub fn letter_index(c: char) -> (n: u8)
    requires
        is_letter(c),
    ensures
        n as int == index_of(c),
        n < 26,
{
    c as u8 - 65
}

/// The capital letter at an index below 26.
pub fn letter_at(n: u8) -> (c: char)
    requires
        n < 26,
    ensures
        c == letter(n as int),
        is_letter(c),
        index_of(c) == n,
{
    (n + 65) as char
}

/// Taking a letter's index and then the letter at that index gives the
/// letter back, and the same the other way round.
pub proof fn lemma_letter_index(c: char, n: int)
    ensures
        is_letter(c) ==> 0 <= index_of(c) < 26 && letter(index_of(c)) == c,
        0 <= n < 26 ==> is_letter(letter(n)) && index_of(letter(n)) == n,
{
}

} // verus!
