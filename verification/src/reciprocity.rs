//! The machine undoes itself: from the same starting positions, enciphering
//! the cipher text gives the plain text back.

use vstd::prelude::*;
use crate::alphabet::{index_of, is_involution, is_letter, letter};
use crate::enigma::{lemma_path_in_range, shown, Machine, SENTINEL};
use crate::error::EnigmaError;
use crate::plugboard::{
    is_plugged, joins_letters, lemma_swap_keeps_letters, lemma_swap_twice, lemma_swap_unplugged,
    swapped,
};
use crate::rotor::{lemma_encipher_index_in_range, lemma_encipher_round_trip, Direction};
use crate::stepping::lemma_steps_keep;

verus! {

/// With its rotors as they stand, a machine whose reflector swaps letters in
/// pairs sends the signal back the way it came: the contact at which a signal
/// comes out leads back to the contact at which it went in.
pub proof fn lemma_path_twice(m: Machine, n: int)
    requires
        m.wf(),
        is_involution(m.reflector.wiring),
        0 <= n < 26,
    ensures
        0 <= m.path(n) < 26,
        m.path(m.path(n)) == n,
{
    lemma_path_in_range(m, n);
    let a = m.right.encipher_index(n, Direction::Forward);
    lemma_encipher_index_in_range(m.right, n, Direction::Forward);
    let b = m.middle.encipher_index(a, Direction::Forward);
    lemma_encipher_index_in_range(m.middle, a, Direction::Forward);
    let c = m.left.encipher_index(b, Direction::Forward);
    lemma_encipher_index_in_range(m.left, b, Direction::Forward);
    let d = m.reflector.wiring[c] as int;
    assert(m.reflector.wiring[m.reflector.wiring[c] as int] == c);
    let e = m.left.encipher_index(d, Direction::Backward);
    lemma_encipher_index_in_range(m.left, d, Direction::Backward);
    let f = m.middle.encipher_index(e, Direction::Backward);
    lemma_encipher_index_in_range(m.middle, e, Direction::Backward);
    let g = m.right.encipher_index(f, Direction::Backward);
    assert(g == m.path(n));
    lemma_encipher_round_trip(m.right, f);
    lemma_encipher_round_trip(m.middle, e);
    lemma_encipher_round_trip(m.left, d);
    lemma_encipher_round_trip(m.left, b);
    lemma_encipher_round_trip(m.middle, a);
    lemma_encipher_round_trip(m.right, n);
    assert(m.right.encipher_index(g, Direction::Forward) == f);
    assert(m.middle.encipher_index(f, Direction::Forward) == e);
    assert(m.left.encipher_index(e, Direction::Forward) == d);
    assert(m.reflector.wiring[d] == c);
    assert(m.left.encipher_index(c, Direction::Backward) == b);
    assert(m.middle.encipher_index(b, Direction::Backward) == a);
    assert(m.right.encipher_index(a, Direction::Backward) == n);
}

/// With its rotors as they stand, a reciprocal machine swaps the capital
/// letters in pairs: it turns a letter into a letter, and that letter into
/// the first.
pub proof fn lemma_substitute_twice(m: Machine, c: char)
    requires
        m.wf(),
        m.reciprocal(),
        is_letter(c),
    ensures
        m.substitute(c) is Ok,
        is_letter(m.substitute(c)->Ok_0),
        m.substitute(m.substitute(c)->Ok_0) == Ok::<char, EnigmaError>(c),
{
    let p = swapped(m.plugboard, c);
    lemma_swap_keeps_letters(m.plugboard, c);
    let n = index_of(p);
    lemma_path_twice(m, n);
    let q = letter(m.path(n));
    let r = swapped(m.plugboard, q);
    lemma_swap_keeps_letters(m.plugboard, q);
    lemma_swap_twice(m.plugboard, q);
    lemma_swap_twice(m.plugboard, c);
    assert(swapped(m.plugboard, r) == q);
    assert(index_of(q) == m.path(n));
    assert(letter(m.path(m.path(n))) == p);
}

/// A character that is no capital letter is refused by a machine whose
/// plugboard joins capital letters, and it is the character named in the
/// refusal.
pub proof fn lemma_refuses_other_characters(m: Machine, c: char)
    requires
        joins_letters(m.plugboard),
        !is_letter(c),
    ensures
        m.substitute(c) == Err::<char, EnigmaError>(EnigmaError::InvalidChar(c)),
{
    assert(!is_plugged(m.plugboard, c));
    lemma_swap_unplugged(m.plugboard, c);
}

/// Each character of the output depends on the character at its own place
/// and on how often the machine has stepped, and on nothing else: the output
/// is as long as the text, its `i`-th character is what the machine makes of
/// the text's `i`-th character after `i + 1` steps, or the sentinel where it
/// refuses that character, and the machine has stepped once for each
/// character.
pub proof fn lemma_encrypt_text_by_place(m: Machine, text: Seq<char>)
    ensures
        m.encrypt_text(text).0 == m.stepped_by(text.len()),
        m.encrypt_text(text).1.len() == text.len(),
        forall|i: int|
            0 <= i < text.len() ==> #[trigger] m.encrypt_text(text).1[i] == shown(
                m.stepped_by((i + 1) as nat).substitute(text[i]),
            ),
    decreases text.len(),
{
    if text.len() > 0 {
        lemma_encrypt_text_by_place(m, text.drop_last());
    }
}

/// In the output of a machine whose plugboard joins capital letters, the
/// sentinel stands at the place of every character that is no capital
/// letter.
pub proof fn lemma_sentinel_in_place(m: Machine, text: Seq<char>, i: int)
    requires
        m.wf(),
        joins_letters(m.plugboard),
        0 <= i < text.len(),
        !is_letter(text[i]),
    ensures
        m.encrypt_text(text).1[i] == SENTINEL,
{
    lemma_encrypt_text_by_place(m, text);
    lemma_steps_keep(m, (i + 1) as nat);
    lemma_refuses_other_characters(m.stepped_by((i + 1) as nat), text[i]);
}

/// Changing one character of the text changes the output at that place at
/// most: at every other place the two outputs agree.
pub proof fn lemma_other_places_unaffected(m: Machine, text: Seq<char>, i: int, c: char, j: int)
    requires
        0 <= i < text.len(),
        0 <= j < text.len(),
        j != i,
    ensures
        m.encrypt_text(text.update(i, c)).1[j] == m.encrypt_text(text).1[j],
        m.encrypt_text(text.update(i, c)).0 == m.encrypt_text(text).0,
{
    lemma_encrypt_text_by_place(m, text);
    lemma_encrypt_text_by_place(m, text.update(i, c));
}

/// A reciprocal machine deciphers what it enciphered: the cipher text of a
/// text of capital letters consists of capital letters, and enciphering it
/// from the same starting positions gives the text back.
pub proof fn lemma_decrypts(m: Machine, plain: Seq<char>)
    requires
        m.wf(),
        m.reciprocal(),
        forall|i: int| 0 <= i < plain.len() ==> is_letter(#[trigger] plain[i]),
    ensures
        forall|i: int|
            0 <= i < plain.len() ==> is_letter(#[trigger] m.encrypt_text(plain).1[i]),
        m.encrypt_text(m.encrypt_text(plain).1).1 == plain,
        m.encrypt_text(m.encrypt_text(plain).1).0 == m.encrypt_text(plain).0,
{
    let cipher = m.encrypt_text(plain).1;
    lemma_encrypt_text_by_place(m, plain);
    lemma_encrypt_text_by_place(m, cipher);
    let back = m.encrypt_text(cipher).1;
    assert forall|i: int| 0 <= i < plain.len() implies is_letter(#[trigger] cipher[i]) && back[i]
        == plain[i] by {
        let at = m.stepped_by((i + 1) as nat);
        lemma_steps_keep(m, (i + 1) as nat);
        assert(is_letter(plain[i]));
        lemma_substitute_twice(at, plain[i]);
    }
    assert(back =~= plain);
}

} // verus!
