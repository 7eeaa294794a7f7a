use enigma::reflector::{KnownReflector, Reflector};

#[test]
fn reflector_b_spells_its_encoding() {
    let r = Reflector::new(KnownReflector::B);
    assert_eq!(r.name, "B");
    for (i, wired) in "YRUHQSLDPXNGOKMIEBFZCWVJAT".chars().enumerate() {
        assert_eq!(r.reflect((i as u8 + 65) as char), wired);
    }
}

#[test]
fn reflector_c_spells_its_encoding() {
    let r = Reflector::new(KnownReflector::C);
    assert_eq!(r.name, "C");
    for (i, wired) in "FVPJIAOYEDRZXWGCTKUQSBNMHL".chars().enumerate() {
        assert_eq!(r.reflect((i as u8 + 65) as char), wired);
    }
}

#[test]
fn reflecting_twice_gives_the_letter_back() {
    for r in [Reflector::new(KnownReflector::B), Reflector::new(KnownReflector::C)] {
        for n in 0..26u8 {
            let c = (n + 65) as char;
            assert_ne!(r.reflect(c), c);
            assert_eq!(r.reflect(r.reflect(c)), c);
        }
    }
}
