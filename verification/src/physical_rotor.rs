//! The wired disks: a letter permutation with its inverse and its turnover
//! notches, for each of the eight historical rotors and the identity.

use vstd::prelude::*;
use crate::alphabet::{
    absent_before, distinct_letters, index_of, is_wiring, lemma_distinct_letters, lemma_wiring_is_onto,
    letter_index, mutual_inverses, table_of,
};

verus! {

/// The letters that the contacts `A` to `Z` of rotor I are wired to.
pub const ENCODING_I: &'static str = "EKMFLGDQVZNTOWYHXUSPAIBRCJ";

/// The letters that the contacts `A` to `Z` of rotor II are wired to.
pub const ENCODING_II: &'static str = "AJDKSIRUXBLHWTMCQGZNPYFVOE";

/// The letters that the contacts `A` to `Z` of rotor III are wired to.
pub const ENCODING_III: &'static str = "BDFHJLCPRTXVZNYEIWGAKMUSQO";

/// The letters that the contacts `A` to `Z` of rotor IV are wired to.
pub const ENCODING_IV: &'static str = "ESOVPZJAYQUIRHXLNFTGKDCMWB";

/// The letters that the contacts `A` to `Z` of rotor V are wired to.
pub const ENCODING_V: &'static str = "VZBRGITYUPSDNHLXAWMJQOFECK";

/// The letters that the contacts `A` to `Z` of rotor VI are wired to.
pub const ENCODING_VI: &'static str = "JPGVOUMFYQBENHZRDKASXLICTW";

/// The letters that the contacts `A` to `Z` of rotor VII are wired to.
pub const ENCODING_VII: &'static str = "NZJHGRCXMYSWBOUFAIVLPEKQDT";

/// The letters that the contacts `A` to `Z` of rotor VIII are wired to.
pub const ENCODING_VIII: &'static str = "FKQHTLXOCBJSPDZRAMEWNIUYGV";

/// The letters that the contacts `A` to `Z` of the disk that is wired straight through are wired to.
pub const ENCODING_IDENTITY: &'static str = "ABCDEFGHIJKLMNOPQRSTUVWXYZ";

/// What a wired disk is, mathematically: two tables and a set of notch
/// positions.
pub struct Wiring {
    /// The disk's name, which plays no part in the cipher.
    pub name: Seq<char>,
    /// Entry `i` is the index that index `i` is wired to.
    pub forward: Seq<u8>,
    /// The inverse of `forward`.
    pub backward: Seq<u8>,
    /// The positions at which the disk turns its neighbour over.
    pub notches: Set<int>,
}

impl Wiring {
    /// The two tables undo each other and every notch is a position below 26.
    pub open spec fn wf(self) -> bool {
        &&& mutual_inverses(self.forward, self.backward)
        &&& forall|p: int| self.notches.contains(p) ==> 0 <= p < 26
    }
}

/// The turnover notches of a disk: one or two positions.
#[derive(Debug, Clone, PartialEq, Eq)]
pub(crate) enum Notches {
    Single(u8),
    Double(u8, u8),
}

impl Notches {
    /// The set of positions that carry a notch.
    pub(crate) open spec fn positions(self) -> Set<int> {
        match self {
            Notches::Single(n) => set![n as int],
            Notches::Double(n1, n2) => set![n1 as int, n2 as int],
        }
    }

    /// Every notch is a position below 26.
    pub(crate) open spec fn in_range(self) -> bool {
        match self {
            Notches::Single(n) => n < 26,
            Notches::Double(n1, n2) => n1 < 26 && n2 < 26,
        }
    }
}

/// The historical rotors, and a disk that is wired straight through.
#[allow(dead_code)]
pub enum KnownRotor {
    I,
    II,
    III,
    IV,
    V,
    VI,
    VII,
    VIII,
    IDENTITY,
}

/// The 26 letters that the disk's contacts `A` to `Z` are wired to, in order.
pub open spec fn encoding_of(known: KnownRotor) -> Seq<char> {
    match known {
        KnownRotor::I => ENCODING_I@,
        KnownRotor::II => ENCODING_II@,
        KnownRotor::III => ENCODING_III@,
        KnownRotor::IV => ENCODING_IV@,
        KnownRotor::V => ENCODING_V@,
        KnownRotor::VI => ENCODING_VI@,
        KnownRotor::VII => ENCODING_VII@,
        KnownRotor::VIII => ENCODING_VIII@,
        KnownRotor::IDENTITY => ENCODING_IDENTITY@,
    }
}

/// The name engraved on each disk.
pub open spec fn name_of(known: KnownRotor) -> Seq<char> {
    match known {
        KnownRotor::I => "I"@,
        KnownRotor::II => "II"@,
        KnownRotor::III => "III"@,
        KnownRotor::IV => "IV"@,
        KnownRotor::V => "V"@,
        KnownRotor::VI => "VI"@,
        KnownRotor::VII => "VII"@,
        KnownRotor::VIII => "VIII"@,
        KnownRotor::IDENTITY => "Identity"@,
    }
}

/// The turnover positions of each disk.
pub open spec fn notches_of(known: KnownRotor) -> Set<int> {
    match known {
        KnownRotor::I => set![16int],
        KnownRotor::II => set![4int],
        KnownRotor::III => set![21int],
        KnownRotor::IV => set![9int],
        KnownRotor::V => set![25int],
        KnownRotor::VI => set![12int, 25int],
        KnownRotor::VII => set![12int, 25int],
        KnownRotor::VIII => set![12int, 25int],
        KnownRotor::IDENTITY => set![0int],
    }
}

/// A wired disk, ready to be mounted in a machine.
#[derive(Debug, Clone, PartialEq, Eq)]
pub struct PhysicalRotor {
    pub name: &'static str,
    pub(crate) notches: Notches,
    pub(crate) wiring: Vec<u8>,
    pub(crate) wiring_reversed: Vec<u8>,
}

impl View for PhysicalRotor {
    type V = Wiring;

    closed spec fn view(&self) -> Wiring {
        Wiring {
            name: self.name@,
            forward: self.wiring@,
            backward: self.wiring_reversed@,
            notches: self.notches.positions(),
        }
    }
}

/// Each disk's encoding is a wiring: 26 capital letters, none of them twice.
pub proof fn lemma_encoding_is_wiring(known: KnownRotor)
    ensures
        is_wiring(encoding_of(known)),
{
    match known {
        KnownRotor::I => {
            reveal_strlit("EKMFLGDQVZNTOWYHXUSPAIBRCJ");
            assert(distinct_letters(ENCODING_I@, 26)) by {
                reveal_with_fuel(distinct_letters, 27);
                reveal_with_fuel(absent_before, 27);
            }
            lemma_distinct_letters(ENCODING_I@, 26);
        },
        KnownRotor::II => {
            reveal_strlit("AJDKSIRUXBLHWTMCQGZNPYFVOE");
            assert(distinct_letters(ENCODING_II@, 26)) by {
                reveal_with_fuel(distinct_letters, 27);
                reveal_with_fuel(absent_before, 27);
            }
            lemma_distinct_letters(ENCODING_II@, 26);
        },
        KnownRotor::III => {
            reveal_strlit("BDFHJLCPRTXVZNYEIWGAKMUSQO");
            assert(distinct_letters(ENCODING_III@, 26)) by {
                reveal_with_fuel(distinct_letters, 27);
                reveal_with_fuel(absent_before, 27);
            }
            lemma_distinct_letters(ENCODING_III@, 26);
        },
        KnownRotor::IV => {
            reveal_strlit("ESOVPZJAYQUIRHXLNFTGKDCMWB");
            assert(distinct_letters(ENCODING_IV@, 26)) by {
                reveal_with_fuel(distinct_letters, 27);
                reveal_with_fuel(absent_before, 27);
            }
            lemma_distinct_letters(ENCODING_IV@, 26);
        },
        KnownRotor::V => {
            reveal_strlit("VZBRGITYUPSDNHLXAWMJQOFECK");
            assert(distinct_letters(ENCODING_V@, 26)) by {
                reveal_with_fuel(distinct_letters, 27);
                reveal_with_fuel(absent_before, 27);
            }
            lemma_distinct_letters(ENCODING_V@, 26);
        },
        KnownRotor::VI => {
            reveal_strlit("JPGVOUMFYQBENHZRDKASXLICTW");
            assert(distinct_letters(ENCODING_VI@, 26)) by {
                reveal_with_fuel(distinct_letters, 27);
                reveal_with_fuel(absent_before, 27);
            }
            lemma_distinct_letters(ENCODING_VI@, 26);
        },
        KnownRotor::VII => {
            reveal_strlit("NZJHGRCXMYSWBOUFAIVLPEKQDT");
            assert(distinct_letters(ENCODING_VII@, 26)) by {
                reveal_with_fuel(distinct_letters, 27);
                reveal_with_fuel(absent_before, 27);
            }
            lemma_distinct_letters(ENCODING_VII@, 26);
        },
        KnownRotor::VIII => {
            reveal_strlit("FKQHTLXOCBJSPDZRAMEWNIUYGV");
            assert(distinct_letters(ENCODING_VIII@, 26)) by {
                reveal_with_fuel(distinct_letters, 27);
                reveal_with_fuel(absent_before, 27);
            }
            lemma_distinct_letters(ENCODING_VIII@, 26);
        },
        KnownRotor::IDENTITY => {
            reveal_strlit("ABCDEFGHIJKLMNOPQRSTUVWXYZ");
            assert(distinct_letters(ENCODING_IDENTITY@, 26)) by {
                reveal_with_fuel(distinct_letters, 27);
                reveal_with_fuel(absent_before, 27);
            }
            lemma_distinct_letters(ENCODING_IDENTITY@, 26);
        },
    }
}

impl PhysicalRotor {
    /// How the view reads the disk's fields.
    pub(crate) proof fn lemma_view(&self)
        ensures
            self@.forward == self.wiring@,
            self@.backward == self.wiring_reversed@,
            self@.notches == self.notches.positions(),
    {
    }

    /// The disk with the given historical wiring and notches.
    pub fn new(known: KnownRotor) -> (r: Self)
        ensures
            r@.forward == table_of(encoding_of(known)),
            r@.notches == notches_of(known),
            r@.name == name_of(known),
            r@.wf(),
            forall|i: int| 0 <= i < 26 ==> #[trigger] r@.backward[r@.forward[i] as int] == i,
    {
        proof {
            lemma_encoding_is_wiring(known);
        }
        match known {
            KnownRotor::I => PhysicalRotor::build("I", ENCODING_I, Notches::Single(16)),
            KnownRotor::II => PhysicalRotor::build("II", ENCODING_II, Notches::Single(4)),
            KnownRotor::III => PhysicalRotor::build("III", ENCODING_III, Notches::Single(21)),
            KnownRotor::IV => PhysicalRotor::build("IV", ENCODING_IV, Notches::Single(9)),
            KnownRotor::V => PhysicalRotor::build("V", ENCODING_V, Notches::Single(25)),
            KnownRotor::VI => PhysicalRotor::build("VI", ENCODING_VI, Notches::Double(12, 25)),
            KnownRotor::VII => PhysicalRotor::build("VII", ENCODING_VII, Notches::Double(12, 25)),
            KnownRotor::VIII => PhysicalRotor::build(
                "VIII",
                ENCODING_VIII,
                Notches::Double(12, 25),
            ),
            KnownRotor::IDENTITY => PhysicalRotor::build(
                "Identity",
                ENCODING_IDENTITY,
                Notches::Single(0),
            ),
        }
    }

    /// Builds the forward table from the encoding, letter by letter, and the
    /// backward table by inverting it: where the forward table sends `i` to
    /// `v`, the backward table sends `v` to `i`.
    fn build(name: &'static str, encoding: &'static str, notches: Notches) -> (r: Self)
        requires
            is_wiring(encoding@),
            notches.in_range(),
        ensures
            r@.name == name@,
            r@.forward == table_of(encoding@),
            r@.notches == notches.positions(),
            r@.wf(),
    {
        let mut wiring: Vec<u8> = Vec::new();
        let mut reversed: Vec<u8> = vec![0u8; 26];
        let mut i: usize = 0;
        while i < 26
            invariant
                i <= 26,
                is_wiring(encoding@),
                wiring@.len() == i,
                reversed@.len() == 26,
                forall|k: int| 0 <= k < i ==> #[trigger] wiring@[k] == index_of(encoding@[k]),
                forall|k: int| 0 <= k < i ==> reversed@[#[trigger] wiring@[k] as int] == k,
            decreases 26 - i,
        {
            let n = letter_index(encoding.get_char(i));
            proof {
                assert forall|k: int| 0 <= k < i implies #[trigger] wiring@[k] != n by {
                    assert(encoding@[k] != encoding@[i as int]);
                }
            }
            wiring.push(n);
            reversed.set(n as usize, i as u8);
            i += 1;
        }
        proof {
            assert(wiring@ =~= table_of(encoding@));
            assert forall|v: int| 0 <= v < 26 implies #[trigger] reversed@[v] < 26
                && wiring@[reversed@[v] as int] == v by {
                lemma_wiring_is_onto(encoding@, v);
                let k = choose|k: int| 0 <= k < 26 && index_of(#[trigger] encoding@[k]) == v;
                assert(wiring@[k] == v);
            }
        }
        PhysicalRotor { name, notches, wiring, wiring_reversed: reversed }
    }
}

} // verus!
