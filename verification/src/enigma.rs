//! The machine: three rotors, a reflector and a plugboard, with the stepping
//! that turns the rotors before each letter and the path that the signal
//! takes through them.

use vstd::prelude::*;
use vstd::std_specs::iter::IteratorSpec;
use crate::alphabet::{index_of, is_involution, is_letter, letter};
use crate::error::{EnigmaError, Result};
use crate::plugboard::{joins_letters, swapped, well_paired, PlugBoard};
use crate::reciprocity::lemma_encrypt_text_by_place;
use crate::reflector::{Mirror, Reflector};
use crate::rotor::{lemma_encipher_index_in_range, Direction, Rotor, RotorState};
use crate::text::push_char;

verus! {

/// The character that stands in the output for a character that the machine
/// refused.
pub const SENTINEL: char = '*';

/// The character that a result puts into the output: the letter, or the
/// sentinel in place of a refusal.
pub open spec fn shown(r: Result<char>) -> char {
    match r {
        Ok(c) => c,
        Err(_) => SENTINEL,
    }
}

/// What a machine is, mathematically.
pub struct Machine {
    /// The slowest rotor, next to the reflector.
    pub left: RotorState,
    pub middle: RotorState,
    /// The fastest rotor, which the signal enters first.
    pub right: RotorState,
    pub reflector: Mirror,
    /// The plugboard's cables, in the order in which they are tried.
    pub plugboard: Seq<(char, char)>,
}

impl Machine {
    /// The three rotors and the reflector are well formed.
    pub open spec fn wf(self) -> bool {
        &&& self.left.wf()
        &&& self.middle.wf()
        &&& self.right.wf()
        &&& self.reflector.wf()
    }

    /// The reflector swaps the letters in pairs, and so does the plugboard:
    /// each of its cables joins two capital letters and no letter is an end
    /// of two cables.
    pub open spec fn reciprocal(self) -> bool {
        &&& is_involution(self.reflector.wiring)
        &&& well_paired(self.plugboard)
        &&& joins_letters(self.plugboard)
    }

    /// The machine after one step. Which rotors turn is decided by where the
    /// middle and the right rotor stand before the step: if the middle rotor
    /// is at a notch, it turns together with the left one; otherwise, if the
    /// right rotor is at a notch, the middle one turns. The right rotor turns
    /// in every step.
    pub open spec fn stepped(self) -> Machine {
        if self.middle.at_notch() {
            Machine {
                left: self.left.rotated(),
                middle: self.middle.rotated(),
                right: self.right.rotated(),
                ..self
            }
        } else if self.right.at_notch() {
            Machine { middle: self.middle.rotated(), right: self.right.rotated(), ..self }
        } else {
            Machine { right: self.right.rotated(), ..self }
        }
    }

    /// The machine after `k` steps.
    pub open spec fn stepped_by(self, k: nat) -> Machine
        decreases k,
    {
        if k == 0 {
            self
        } else {
            self.stepped_by((k - 1) as nat).stepped()
        }
    }

    /// The contact at which the signal comes back that entered the rotor
    /// stack at contact `n`: through the right, middle and left rotor, the
    /// reflector, and the left, middle and right rotor again.
    pub open spec fn path(self, n: int) -> int {
        let a = self.right.encipher_index(n, Direction::Forward);
        let b = self.middle.encipher_index(a, Direction::Forward);
        let c = self.left.encipher_index(b, Direction::Forward);
        let d = self.reflector.wiring[c] as int;
        let e = self.left.encipher_index(d, Direction::Backward);
        let f = self.middle.encipher_index(e, Direction::Backward);
        self.right.encipher_index(f, Direction::Backward)
    }

    /// What the machine makes of `c` with its rotors as they stand: the
    /// plugboard, the rotor stack there and back, and the plugboard again.
    /// What the plugboard hands to the rotors is refused if it is no capital
    /// letter.
    pub open spec fn substitute(self, c: char) -> Result<char> {
        let p = swapped(self.plugboard, c);
        if is_letter(p) {
            Ok(swapped(self.plugboard, letter(self.path(index_of(p)))))
        } else {
            Err(EnigmaError::InvalidChar(p))
        }
    }

    /// The machine after enciphering the text, and the text it gives out:
    /// before each character the machine steps, and a character that is
    /// refused leaves the sentinel in its place.
    pub open spec fn encrypt_text(self, text: Seq<char>) -> (Machine, Seq<char>)
        decreases text.len(),
    {
        if text.len() == 0 {
            (self, Seq::empty())
        } else {
            let (before, out) = self.encrypt_text(text.drop_last());
            let after = before.stepped();
            (after, out.push(shown(after.substitute(text.last()))))
        }
    }
}

/// An Enigma machine.
pub struct Enigma {
    rotor_left: Rotor,
    rotor_middle: Rotor,
    rotor_right: Rotor,
    plugboard: PlugBoard,
    reflector: Reflector,
}

impl View for Enigma {
    type V = Machine;

    closed spec fn view(&self) -> Machine {
        Machine {
            left: self.rotor_left@,
            middle: self.rotor_middle@,
            right: self.rotor_right@,
            reflector: self.reflector@,
            plugboard: self.plugboard@,
        }
    }
}

impl Enigma {
    /// Assembles a machine. A plugboard without cables leaves every letter as
    /// it is.
    pub fn new(
        rotor_left: Rotor,
        rotor_middle: Rotor,
        rotor_right: Rotor,
        reflector: Reflector,
        plugboard: PlugBoard,
    ) -> (e: Self)
        requires
            rotor_left@.wf(),
            rotor_middle@.wf(),
            rotor_right@.wf(),
            reflector@.wf(),
        ensures
            e@ == (Machine {
                left: rotor_left@,
                middle: rotor_middle@,
                right: rotor_right@,
                reflector: reflector@,
                plugboard: plugboard@,
            }),
            e@.wf(),
    {
        Enigma { rotor_right, rotor_left, rotor_middle, reflector, plugboard }
    }

    /// Turns the rotors for one key press.
    fn rotate(&mut self)
        requires
            old(self)@.wf(),
        ensures
            final(self)@ == old(self)@.stepped(),
            final(self)@.wf(),
    {
        if self.rotor_middle.is_at_notch() {
            self.rotor_middle.rotate();
            self.rotor_left.rotate();
        } else if self.rotor_right.is_at_notch() {
            self.rotor_middle.rotate();
        }
        self.rotor_right.rotate();
    }

    /// The positions of the left, middle and right rotor as three letters.
    pub fn rotor_positions(&self) -> (s: String)
        requires
            self@.wf(),
        ensures
            s@ == seq![
                letter(self@.left.position),
                letter(self@.middle.position),
                letter(self@.right.position),
            ],
    {
        let mut s = String::new();
        push_char(&mut s, self.rotor_left.get_position());
        push_char(&mut s, self.rotor_middle.get_position());
        push_char(&mut s, self.rotor_right.get_position());
        proof {
            assert(s@ =~= seq![
                letter(self@.left.position),
                letter(self@.middle.position),
                letter(self@.right.position),
            ]);
        }
        s
    }

    /// Steps the rotors and then enciphers one character. The step is taken
    /// also where the character is refused.
    pub fn encrypt_char(&mut self, c: char) -> (r: Result<char>)
        requires
            old(self)@.wf(),
        ensures
            final(self)@ == old(self)@.stepped(),
            final(self)@.wf(),
            r == final(self)@.substitute(c),
            r is Ok <==> is_letter(swapped(old(self)@.plugboard, c)),
            r is Err ==> r == Err::<char, EnigmaError>(
                EnigmaError::InvalidChar(swapped(old(self)@.plugboard, c)),
            ),
    {
        self.rotate();
        let ghost m = self@;
        let ghost n = index_of(swapped(m.plugboard, c));
        let mut result = c;
        result = self.plugboard.swap(&result);
        proof {
            if is_letter(result) {
                lemma_path_in_range(m, n);
            }
        }
        result = self.rotor_right.encipher(result, Direction::Forward)?;
        result = self.rotor_middle.encipher(result, Direction::Forward)?;
        result = self.rotor_left.encipher(result, Direction::Forward)?;
        result = self.reflector.reflect(result);
        result = self.rotor_left.encipher(result, Direction::Backward)?;
        result = self.rotor_middle.encipher(result, Direction::Backward)?;
        result = self.rotor_right.encipher(result, Direction::Backward)?;
        assert(result == letter(m.path(n)));
        result = self.plugboard.swap(&result);
        Ok(result)
    }

    /// Enciphers a text character by character, in order. A character that
    /// the machine refuses leaves the sentinel in its place, and the rotors
    /// have stepped for it all the same. The output does not tell a sentinel
    /// that stands for a refusal from one that the plugboard gave out.
    pub fn encrypt_string(&mut self, input: String) -> (out: String)
        requires
            old(self)@.wf(),
        ensures
            final(self)@ == old(self)@.encrypt_text(input@).0,
            out@ == old(self)@.encrypt_text(input@).1,
            out@.len() == input@.len(),
            final(self)@.wf(),
    {
        broadcast use vstd::string::group_string_axioms;

        let text = input.as_str();
        let mut chars = text.chars();
        let mut out = String::new();
        loop
            invariant
                text@ == input@,
                out@.len() <= text@.len(),
                chars.remaining() == text@.skip(out@.len() as int),
                self@.wf(),
                self@ == old(self)@.encrypt_text(text@.take(out@.len() as int)).0,
                out@ == old(self)@.encrypt_text(text@.take(out@.len() as int)).1,
            decreases text@.len() - out@.len(),
        {
            let ghost done = out@.len() as int;
            match chars.next() {
                Some(c) => {
                    proof {
                        assert(c == text@[done]);
                        assert(text@.take(done + 1).drop_last() =~= text@.take(done));
                        assert(text@.skip(done).drop_first() =~= text@.skip(done + 1));
                    }
                    let shown = match self.encrypt_char(c) {
                        Ok(letter) => letter,
                        Err(_) => SENTINEL,
                    };
                    push_char(&mut out, shown);
                },
                None => {
                    proof {
                        assert(text@.take(done) =~= text@);
                        lemma_encrypt_text_by_place(old(self)@, text@);
                    }
                    return out;
                },
            }
        }
    }
}

/// In a well-formed machine the signal stays on the 26 contacts all the way
/// through the rotors and the reflector.
pub proof fn lemma_path_in_range(m: Machine, n: int)
    requires
        m.wf(),
        0 <= n < 26,
    ensures
        0 <= m.path(n) < 26,
{
    let a = m.right.encipher_index(n, Direction::Forward);
    lemma_encipher_index_in_range(m.right, n, Direction::Forward);
    let b = m.middle.encipher_index(a, Direction::Forward);
    lemma_encipher_index_in_range(m.middle, a, Direction::Forward);
    let c = m.left.encipher_index(b, Direction::Forward);
    lemma_encipher_index_in_range(m.left, b, Direction::Forward);
    let d = m.reflector.wiring[c] as int;
    let e = m.left.encipher_index(d, Direction::Backward);
    lemma_encipher_index_in_range(m.left, d, Direction::Backward);
    let f = m.middle.encipher_index(e, Direction::Backward);
    lemma_encipher_index_in_range(m.middle, e, Direction::Backward);
    lemma_encipher_index_in_range(m.right, f, Direction::Backward);
}

} // verus!
