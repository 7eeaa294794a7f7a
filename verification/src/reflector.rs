//! The reflector: the fixed wiring at the end of the rotor stack that sends
//! the signal back through it.

use vstd::prelude::*;
use crate::alphabet::{
    index_of, is_encoding, is_involution, is_letter, is_table, lemma_paired_letters, letter,
    letter_at, letter_index, paired_letters, table_of,
};

verus! {

/// The letters that the contacts `A` to `Z` of reflector B are wired to.
pub const ENCODING_B: &'static str = "YRUHQSLDPXNGOKMIEBFZCWVJAT";

/// The letters that the contacts `A` to `Z` of reflector C are wired to.
pub const ENCODING_C: &'static str = "FVPJIAOYEDRZXWGCTKUQSBNMHL";

/// What a reflector is, mathematically: a name and one table.
pub struct Mirror {
    /// The reflector's name, which plays no part in the cipher.
    pub name: Seq<char>,
    /// Entry `i` is the index that index `i` is wired to.
    pub wiring: Seq<u8>,
}

impl Mirror {
    /// The table has 26 entries, each an index below 26.
    pub open spec fn wf(self) -> bool {
        is_table(self.wiring)
    }

    /// The letter that `c` is reflected to.
    pub open spec fn reflect(self, c: char) -> char {
        letter(self.wiring[index_of(c)] as int)
    }
}

/// The historical reflectors.
#[allow(dead_code)]
pub enum KnownReflector {
    B,
    C,
}

/// The 26 letters that the reflector's contacts `A` to `Z` are wired to, in
/// order.
pub open spec fn encoding_of(known: KnownReflector) -> Seq<char> {
    match known {
        KnownReflector::B => ENCODING_B@,
        KnownReflector::C => ENCODING_C@,
    }
}

/// The name of each reflector.
pub open spec fn name_of(known: KnownReflector) -> Seq<char> {
    match known {
        KnownReflector::B => "B"@,
        KnownReflector::C => "C"@,
    }
}

/// A reflector, ready to be mounted in a machine.
pub struct Reflector {
    pub name: &'static str,
    pub(crate) wiring: Vec<u8>,
}

impl View for Reflector {
    type V = Mirror;

    closed spec fn view(&self) -> Mirror {
        Mirror { name: self.name@, wiring: self.wiring@ }
    }
}

/// Each reflector's encoding swaps the 26 letters in pairs, so its table is
/// its own inverse.
pub proof fn lemma_encoding_is_involution(known: KnownReflector)
    ensures
        is_encoding(encoding_of(known)),
        is_involution(table_of(encoding_of(known))),
{
    match known {
        KnownReflector::B => {
            reveal_strlit("YRUHQSLDPXNGOKMIEBFZCWVJAT");
            assert(paired_letters(ENCODING_B@, 26)) by {
                reveal_with_fuel(paired_letters, 27);
            }
        },
        KnownReflector::C => {
            reveal_strlit("FVPJIAOYEDRZXWGCTKUQSBNMHL");
            assert(paired_letters(ENCODING_C@, 26)) by {
                reveal_with_fuel(paired_letters, 27);
            }
        },
    }
    let s = encoding_of(known);
    lemma_paired_letters(s, 26);
    let t = table_of(s);
    assert forall|i: int| 0 <= i < 26 implies #[trigger] t[i] < 26 && t[t[i] as int] == i by {
        assert(is_letter(s[i]));
        assert(s[index_of(s[i])] == letter(i));
    }
}

impl Reflector {
    /// The reflector with the given historical wiring.
    pub fn new(known: KnownReflector) -> (r: Self)
        ensures
            r@.name == name_of(known),
            r@.wiring == table_of(encoding_of(known)),
            r@.wf(),
            is_involution(r@.wiring),
    {
        proof {
            lemma_encoding_is_involution(known);
        }
        match known {
            KnownReflector::B => Reflector::build("B", ENCODING_B),
            KnownReflector::C => Reflector::build("C", ENCODING_C),
        }
    }

    /// Builds the table from the encoding, letter by letter.
    fn build(name: &'static str, encoding: &'static str) -> (r: Self)
        requires
            is_encoding(encoding@),
        ensures
            r@.name == name@,
            r@.wiring == table_of(encoding@),
            r@.wf(),
    {
        let mut wiring: Vec<u8> = Vec::new();
        let mut i: usize = 0;
        while i < 26
            invariant
                i <= 26,
                is_encoding(encoding@),
                wiring@.len() == i,
                forall|k: int| 0 <= k < i ==> #[trigger] wiring@[k] == index_of(encoding@[k]),
            decreases 26 - i,
        {
            wiring.push(letter_index(encoding.get_char(i)));
            i += 1;
        }
        proof {
            assert(wiring@ =~= table_of(encoding@));
        }
        Reflector { name, wiring }
    }

    /// The letter that the capital letter `c` is reflected to.
    pub fn reflect(&self, c: char) -> (r: char)
        requires
            self@.wf(),
            is_letter(c),
        ensures
            r == self@.reflect(c),
            is_letter(r),
    {
        let input: usize = letter_index(c) as usize;
        letter_at(self.wiring[input])
    }
}

} // verus!
