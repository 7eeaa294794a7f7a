//! A rotor: a wired disk mounted with a ring setting and turned to a
//! position.

use vstd::prelude::*;
use crate::alphabet::{index_of, is_capital, is_letter, letter, letter_at, letter_index};
use crate::error::{EnigmaError, Result};
use crate::physical_rotor::{Notches, PhysicalRotor, Wiring};

verus! {

/// How far a rotor is turned: a number below 26.
#[derive(Debug, Clone, PartialEq, Eq)]
pub struct Position(pub u8);

/// How far a rotor's wiring is offset against its lettering: a number
/// below 26.
#[derive(Debug, Clone, PartialEq, Eq)]
pub struct RingSetting(pub u8);

/// The way the signal runs through a rotor: towards the reflector or back
/// from it.
#[derive(Debug, Clone, PartialEq, Eq)]
pub enum Direction {
    Forward,
    Backward,
}

/// What a rotor is, mathematically: a wiring, a ring setting and a position.
pub struct RotorState {
    pub wiring: Wiring,
    pub ring: int,
    pub position: int,
}

impl RotorState {
    /// The wiring is well formed; ring setting and position are below 26.
    pub open spec fn wf(self) -> bool {
        &&& self.wiring.wf()
        &&& 0 <= self.ring < 26
        &&& 0 <= self.position < 26
    }

    /// How far the wiring is turned against the fixed contacts.
    pub open spec fn shift(self) -> int {
        (self.position - self.ring) % 26
    }

    /// The table that the signal follows in the given direction.
    pub open spec fn table(self, direction: Direction) -> Seq<u8> {
        match direction {
            Direction::Forward => self.wiring.forward,
            Direction::Backward => self.wiring.backward,
        }
    }

    /// The contact at which a signal leaves that enters at contact `n`: the
    /// table is read at `n` moved on by the shift, and what it gives is moved
    /// back by the shift.
    pub open spec fn encipher_index(self, n: int, direction: Direction) -> int {
        (self.table(direction)[(n + self.shift()) % 26] - self.shift()) % 26
    }

    /// The letter that `c` becomes, or the refusal of a `c` that is no
    /// capital letter.
    pub open spec fn encipher(self, c: char, direction: Direction) -> Result<char> {
        if is_letter(c) {
            Ok(letter(self.encipher_index(index_of(c), direction)))
        } else {
            Err(EnigmaError::InvalidChar(c))
        }
    }

    /// Whether the rotor stands at one of its notches.
    pub open spec fn at_notch(self) -> bool {
        self.wiring.notches.contains(self.position)
    }

    /// The rotor turned on by one position.
    pub open spec fn rotated(self) -> RotorState {
        RotorState { position: (self.position + 1) % 26, ..self }
    }

    /// The rotor turned on `k` times.
    pub open spec fn rotated_by(self, k: nat) -> RotorState
        decreases k,
    {
        if k == 0 {
            self
        } else {
            self.rotated_by((k - 1) as nat).rotated()
        }
    }
}

/// A rotor of the machine.
#[derive(Debug, Clone, PartialEq, Eq)]
pub struct Rotor {
    physical: PhysicalRotor,
    ring_setting: RingSetting,
    position: Position,
}

impl View for Rotor {
    type V = RotorState;

    closed spec fn view(&self) -> RotorState {
        RotorState {
            wiring: self.physical@,
            ring: self.ring_setting.0 as int,
            position: self.position.0 as int,
        }
    }
}

impl Rotor {
    /// Mounts a disk with a ring setting, turned to a position.
    pub fn new(physical: PhysicalRotor, ring_setting: RingSetting, position: Position) -> (r: Rotor)
        requires
            physical@.wf(),
            ring_setting.0 < 26,
            position.0 < 26,
        ensures
            r@ == (RotorState {
                wiring: physical@,
                ring: ring_setting.0 as int,
                position: position.0 as int,
            }),
            r@.wf(),
    {
        Rotor { ring_setting, physical, position }
    }

    /// Sends a capital letter through the rotor in the given direction; any
    /// other character is refused.
    pub fn encipher(&self, c: char, direction: Direction) -> (r: Result<char>)
        requires
            self@.wf(),
        ensures
            r == self@.encipher(c, direction),
            r is Ok <==> is_letter(c),
            r is Ok ==> is_letter(r->Ok_0),
            r is Err ==> r == Err::<char, EnigmaError>(EnigmaError::InvalidChar(c)),
    {
        if !is_capital(c) {
            return Err(EnigmaError::InvalidChar(c));
        }
        proof {
            self.physical.lemma_view();
        }
        let wiring = match direction {
            Direction::Forward => &self.physical.wiring,
            Direction::Backward => &self.physical.wiring_reversed,
        };
        let char_num: u8 = letter_index(c);
        let shift: u8 = (26 + self.position.0 - self.ring_setting.0) % 26;
        assert(shift == self@.shift());
        let index: usize = ((char_num + shift + 26) % 26) as usize;
        assert(index == (index_of(c) + self@.shift()) % 26);
        let wired: u8 = wiring[index];
        assert(wired == self@.table(direction)[index as int] && wired < 26);
        let result_num: u8 = (wired + 26 - shift) % 26;
        assert(result_num == (wired - shift) % 26);
        Ok(letter_at(result_num))
    }

    /// Whether the rotor stands at one of its notches.
    pub fn is_at_notch(&self) -> (b: bool)
        ensures
            b == self@.at_notch(),
    {
        proof {
            self.physical.lemma_view();
        }
        match self.physical.notches {
            Notches::Single(n) => n == self.position.0,
            Notches::Double(n1, n2) => n1 == self.position.0 || n2 == self.position.0,
        }
    }

    /// Turns the rotor on by one position; after position 25 comes 0.
    pub fn rotate(&mut self)
        requires
            old(self)@.wf(),
        ensures
            final(self)@ == old(self)@.rotated(),
            final(self)@.wf(),
    {
        self.position = Position((self.position.0 + 1) % 26);
    }

    /// The position as a letter: `A` for 0 up to `Z` for 25.
    pub fn get_position(&self) -> (c: char)
        requires
            self@.wf(),
        ensures
            c == letter(self@.position),
    {
        letter_at(self.position.0)
    }
}

/// A signal that enters a well-formed rotor at a contact below 26 leaves it
/// at a contact below 26.
pub proof fn lemma_encipher_index_in_range(r: RotorState, n: int, direction: Direction)
    requires
        r.wf(),
        0 <= n < 26,
    ensures
        0 <= r.encipher_index(n, direction) < 26,
{
}

/// The two directions of a rotor undo each other: what went through one way
/// comes back as it was when sent through the other way, at the same
/// position.
pub proof fn lemma_encipher_round_trip(r: RotorState, n: int)
    requires
        r.wf(),
        0 <= n < 26,
    ensures
        r.encipher_index(r.encipher_index(n, Direction::Forward), Direction::Backward) == n,
        r.encipher_index(r.encipher_index(n, Direction::Backward), Direction::Forward) == n,
{
    let s = r.shift();
    let i = (n + s) % 26;
    lemma_shift_and_back(n, s);
    let f = r.wiring.forward[i] as int;
    assert(r.wiring.backward[r.wiring.forward[i] as int] == i);
    lemma_back_and_shift(f, s);
    assert(r.encipher_index(n, Direction::Forward) == (f - s) % 26);
    let b = r.wiring.backward[i] as int;
    assert(r.wiring.forward[r.wiring.backward[i] as int] == i);
    lemma_back_and_shift(b, s);
    assert(r.encipher_index(n, Direction::Backward) == (b - s) % 26);
}

/// Moving a contact on by a shift and then back by it changes nothing.
proof fn lemma_shift_and_back(n: int, s: int)
    requires
        0 <= n < 26,
        0 <= s < 26,
    ensures
        0 <= (n + s) % 26 < 26,
        ((n + s) % 26 - s) % 26 == n,
{
}

/// Moving a contact back by a shift and then on by it changes nothing.
proof fn lemma_back_and_shift(w: int, s: int)
    requires
        0 <= w < 26,
        0 <= s < 26,
    ensures
        0 <= (w - s) % 26 < 26,
        ((w - s) % 26 + s) % 26 == w,
{
}

/// A capital letter that is enciphered forward and then backward by the same
/// rotor at the same position is itself again.
pub proof fn lemma_encipher_decipher(r: RotorState, c: char)
    requires
        r.wf(),
        is_letter(c),
    ensures
        r.encipher(c, Direction::Forward) is Ok,
        r.encipher(r.encipher(c, Direction::Forward)->Ok_0, Direction::Backward) == Ok::<
            char,
            EnigmaError,
        >(c),
{
    lemma_encipher_round_trip(r, index_of(c));
}

/// Turning a rotor on `k` times moves its position on by `k`, counted round
/// the 26 positions, and changes nothing else.
pub proof fn lemma_rotated_by(r: RotorState, k: nat)
    requires
        r.wf(),
    ensures
        r.rotated_by(k) == (RotorState { position: (r.position + k) % 26, ..r }),
    decreases k,
{
    if k > 0 {
        lemma_rotated_by(r, (k - 1) as nat);
    }
}

/// A rotor is back where it started after exactly 26 turns, and after no
/// fewer.
pub proof fn lemma_rotation_period(r: RotorState, k: nat)
    requires
        r.wf(),
    ensures
        r.rotated_by(26) == r,
        0 < k < 26 ==> r.rotated_by(k) != r,
{
    lemma_rotated_by(r, 26);
    lemma_rotated_by(r, k);
}

} // verus!
