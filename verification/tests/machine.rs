use enigma::enigma::Enigma;
use enigma::error::EnigmaError;
use enigma::physical_rotor::{KnownRotor, PhysicalRotor};
use enigma::plugboard::PlugBoard;
use enigma::reflector::{KnownReflector, Reflector};
use enigma::rotor::{Position, RingSetting, Rotor};

#[test]
fn test_simple_rotors() {
    let mut enigma = Enigma::new(
        Rotor::new(
            PhysicalRotor::new(KnownRotor::I),
            RingSetting(0),
            Position(0),
        ),
        Rotor::new(
            PhysicalRotor::new(KnownRotor::II),
            RingSetting(0),
            Position(0),
        ),
        Rotor::new(
            PhysicalRotor::new(KnownRotor::III),
            RingSetting(0),
            Position(0),
        ),
        Reflector::new(KnownReflector::B),
        PlugBoard::new(vec![]),
    );
    let cleartext = "ABCDEFGHIJKLMNOPQRSTUVWXYZAAAAAAAAAAAAAAAAAAAAAAAAAABBBBBBBBBBBBBBBBBBBBBBBBBBABCDEFGHIJKLMNOPQRSTUVWXYZ";
    let expected = "BJELRQZVJWARXSNBXORSTNCFMEYHCXTGYJFLINHNXSHIUNTHEORXOPLOVFEKAGADSPNPCMHRVZCYECDAZIHVYGPITMSRZKGGHLSRBLHL";
    assert_eq!(
        enigma.encrypt_string(cleartext.to_string()),
        expected.to_string()
    );
}

#[test]
fn test_varied_rotors() {
    let mut enigma = Enigma::new(
        Rotor::new(
            PhysicalRotor::new(KnownRotor::VII),
            RingSetting(1),
            Position(10),
        ),
        Rotor::new(
            PhysicalRotor::new(KnownRotor::V),
            RingSetting(2),
            Position(5),
        ),
        Rotor::new(
            PhysicalRotor::new(KnownRotor::IV),
            RingSetting(3),
            Position(12),
        ),
        Reflector::new(KnownReflector::B),
        PlugBoard::new(vec![]),
    );
    let cleartext = "ABCDEFGHIJKLMNOPQRSTUVWXYZAAAAAAAAAAAAAAAAAAAAAAAAAABBBBBBBBBBBBBBBBBBBBBBBBBBABCDEFGHIJKLMNOPQRSTUVWXYZ";
    let expected = "FOTYBPKLBZQSGZBOPUFYPFUSETWKNQQHVNHLKJZZZKHUBEJLGVUNIOYSDTEZJQHHAOYYZSENTGXNJCHEDFHQUCGCGJBURNSEDZSEPLQP";
    assert_eq!(
        enigma.encrypt_string(cleartext.to_string()),
        expected.to_string()
    );
}

#[test]
fn test_long_phrase() {
    let mut enigma = Enigma::new(
        Rotor::new(
            PhysicalRotor::new(KnownRotor::III),
            RingSetting(11),
            Position(3),
        ),
        Rotor::new(
            PhysicalRotor::new(KnownRotor::VI),
            RingSetting(13),
            Position(5),
        ),
        Rotor::new(
            PhysicalRotor::new(KnownRotor::VIII),
            RingSetting(19),
            Position(9),
        ),
        Reflector::new(KnownReflector::B),
        PlugBoard::new(vec![]),
    );
    let mut cleartext = String::new();
    for _ in 0..500 {
        cleartext.push('A');
    }
    let mut expected = String::new();
    expected.push_str("YJKJMFQKPCUOCKTEZQVXYZJWJFROVJMWJVXRCQYFCUVBRELVHRWGPYGCHVLBVJEVTTYVMWKJFOZHLJEXYXRDBEVEHVXKQSBPYZN");
    expected.push_str("IQDCBGTDDWZQWLHIBQNTYPIEBMNINNGMUPPGLSZCBRJULOLNJSOEDLOBXXGEVTKCOTTLDZPHBUFKLWSFSRKOMXKZELBDJNRUDUCO");
    expected.push_str("TNCGLIKVKMHHCYDEKFNOECFBWRIEFQQUFXKKGNTSTVHVITVHDFKIJIHOGMDSQUFMZCGGFZMJUKGDNDSNSJKWKENIRQKSUUHJYMIG");
    expected.push_str("WWNMIESFRCVIBFSOUCLBYEEHMESHSGFDESQZJLTORNFBIFUWIFJTOPVMFQCFCFPYZOJFQRFQZTTTOECTDOOYTGVKEWPSZGHCTQRP");
    expected.push_str("GZQOVTTOIEGGHEFDOVSUQLLGNOOWGLCLOWSISUGSVIHWCMSIUUSBWQIGWEWRKQFQQRZHMQJNKQTJFDIJYHDFCWTHXUOOCVRCVYOHL");
    assert_eq!(enigma.encrypt_string(cleartext), expected);
}

#[test]
fn test_plugboard_4_plugs() {
    let mut enigma = Enigma::new(
        Rotor::new(
            PhysicalRotor::new(KnownRotor::I),
            RingSetting(0),
            Position(0),
        ),
        Rotor::new(
            PhysicalRotor::new(KnownRotor::II),
            RingSetting(0),
            Position(0),
        ),
        Rotor::new(
            PhysicalRotor::new(KnownRotor::III),
            RingSetting(0),
            Position(0),
        ),
        Reflector::new(KnownReflector::B),
        PlugBoard::new(vec![('A', 'C'), ('F', 'G'), ('J', 'Y'), ('L', 'W')]),
    );
    let cleartext = "AAAAAAAAAAAAAAAAAAAAAAAAAAAAAAAAAAAAAAAAAAAAAAAAAA";
    let expected = "QREBNMCYZELKQOJCGJVIVGLYEMUPCURPVPUMDIWXPPWROOQEGI";
    assert_eq!(
        enigma.encrypt_string(cleartext.to_string()),
        expected.to_string()
    );
}

#[test]
fn test_plugboard_6_plugs() {
    let mut enigma = Enigma::new(
        Rotor::new(
            PhysicalRotor::new(KnownRotor::IV),
            RingSetting(0),
            Position(0),
        ),
        Rotor::new(
            PhysicalRotor::new(KnownRotor::VI),
            RingSetting(0),
            Position(10),
        ),
        Rotor::new(
            PhysicalRotor::new(KnownRotor::III),
            RingSetting(0),
            Position(6),
        ),
        Reflector::new(KnownReflector::B),
        PlugBoard::new(vec![
            ('B', 'M'),
            ('D', 'H'),
            ('R', 'S'),
            ('K', 'N'),
            ('G', 'Z'),
            ('F', 'Q'),
        ]),
    );
    let cleartext = "WRBHFRROSFHBCHVBENQFAGNYCGCRSTQYAJNROJAKVKXAHGUZHZVKWUTDGMBMSCYQSKABUGRVMIUOWAPKCMHYCRTSDEYTNJLVWNQY";
    let expected = "FYTIDQIBHDONUPAUVPNKILDHDJGCWFVMJUFNJSFYZTSPITBURMCJEEAMZAZIJMZAVFCTYTKYORHYDDSXHBLQWPJBMSSWIPSWLENZ";
    assert_eq!(
        enigma.encrypt_string(cleartext.to_string()),
        expected.to_string()
    );
}

#[test]
fn test_plugboard_10_plugs() {
    let mut enigma = Enigma::new(
        Rotor::new(
            PhysicalRotor::new(KnownRotor::I),
            RingSetting(5),
            Position(0),
        ),
        Rotor::new(
            PhysicalRotor::new(KnownRotor::II),
            RingSetting(5),
            Position(1),
        ),
        Rotor::new(
            PhysicalRotor::new(KnownRotor::III),
            RingSetting(4),
            Position(20),
        ),
        Reflector::new(KnownReflector::B),
        PlugBoard::new(vec![
            ('A', 'G'),
            ('H', 'R'),
            ('Y', 'T'),
            ('K', 'I'),
            ('F', 'L'),
            ('W', 'E'),
            ('N', 'M'),
            ('S', 'D'),
            ('O', 'P'),
            ('Q', 'J'),
        ]),
    );
    let cleartext = "RNXYAZUYTFNQFMBOLNYNYBUYPMWJUQSBYRHPOIRKQSIKBKEKEAJUNNVGUQDODVFQZHASHMQIHSQXICTSJNAUVZYIHVBBARPJADRH";
    let expected = "CFBJTPYXROYGGVTGBUTEBURBXNUZGGRALBNXIQHVBFWPLZQSCEZWTAWCKKPRSWOGNYXLCOTQAWDRRKBCADTKZGPWSTNYIJGLVIUQ";
    assert_eq!(
        enigma.encrypt_string(cleartext.to_string()),
        expected.to_string()
    );
}


fn machine(
    rotors: (KnownRotor, KnownRotor, KnownRotor),
    rings: (u8, u8, u8),
    positions: (u8, u8, u8),
    cables: Vec<(char, char)>,
) -> Enigma {
    Enigma::new(
        Rotor::new(PhysicalRotor::new(rotors.0), RingSetting(rings.0), Position(positions.0)),
        Rotor::new(PhysicalRotor::new(rotors.1), RingSetting(rings.1), Position(positions.1)),
        Rotor::new(PhysicalRotor::new(rotors.2), RingSetting(rings.2), Position(positions.2)),
        Reflector::new(KnownReflector::B),
        PlugBoard::new(cables),
    )
}

fn one_two_three(positions: (u8, u8, u8), cables: Vec<(char, char)>) -> Enigma {
    machine((KnownRotor::I, KnownRotor::II, KnownRotor::III), (0, 0, 0), positions, cables)
}

#[test]
fn fourteen_letters_from_the_start() {
    let mut enigma = one_two_three((0, 0, 0), vec![]);
    assert_eq!(
        enigma.encrypt_string("AAAAAAAAAAAAAA".to_string()),
        "BDZGOWCXLTKSBT".to_string()
    );
    assert_eq!(enigma.rotor_positions(), "AAO".to_string());
}

#[test]
fn empty_text() {
    let mut enigma = one_two_three((0, 0, 0), vec![]);
    assert_eq!(enigma.encrypt_string(String::new()), String::new());
    assert_eq!(enigma.rotor_positions(), "AAA".to_string());
}

#[test]
fn first_letter() {
    let mut enigma = one_two_three((0, 0, 0), vec![]);
    assert_eq!(enigma.encrypt_char('A'), Ok('B'));
    assert_eq!(enigma.rotor_positions(), "AAB".to_string());
    assert_eq!(enigma.encrypt_char('A'), Ok('D'));
    assert_eq!(enigma.rotor_positions(), "AAC".to_string());
}

#[test]
fn deciphers_its_own_cipher_text() {
    let cables = vec![('A', 'G'), ('H', 'R'), ('Y', 'T'), ('K', 'I'), ('F', 'L')];
    let rotors = || (KnownRotor::VI, KnownRotor::II, KnownRotor::VIII);
    let plain = "THEQUICKBROWNFOXJUMPSOVERTHELAZYDOGANDRUNSAWAYWITHTHESPOON";
    let mut first = machine(rotors(), (3, 17, 25), (11, 3, 24), cables.clone());
    let cipher = first.encrypt_string(plain.to_string());
    assert_eq!(cipher.len(), plain.len());
    assert_ne!(cipher, plain.to_string());
    for (p, c) in plain.chars().zip(cipher.chars()) {
        assert!(c.is_ascii_uppercase());
        assert_ne!(p, c);
    }
    let mut second = machine(rotors(), (3, 17, 25), (11, 3, 24), cables);
    assert_eq!(second.encrypt_string(cipher), plain.to_string());
    assert_eq!(first.rotor_positions(), second.rotor_positions());
}

#[test]
fn deciphers_over_a_full_turn_of_the_middle_rotor() {
    let mut plain = String::new();
    for i in 0..2000u32 {
        plain.push(((i * 7 % 26) as u8 + 65) as char);
    }
    let mut first = one_two_three((25, 3, 20), vec![('Q', 'Z')]);
    let cipher = first.encrypt_string(plain.clone());
    let mut second = one_two_three((25, 3, 20), vec![('Q', 'Z')]);
    assert_eq!(second.encrypt_string(cipher), plain);
}

#[test]
fn invalid_character_is_refused() {
    let mut enigma = one_two_three((0, 0, 0), vec![]);
    assert_eq!(enigma.encrypt_char('a'), Err(EnigmaError::InvalidChar('a')));
    assert_eq!(enigma.encrypt_char(' '), Err(EnigmaError::InvalidChar(' ')));
    assert!(matches!(enigma.encrypt_char('5'), Err(EnigmaError::InvalidChar('5'))));
}

#[test]
fn refused_character_still_steps_the_rotors() {
    let mut enigma = one_two_three((0, 0, 0), vec![]);
    assert_eq!(enigma.encrypt_char('?'), Err(EnigmaError::InvalidChar('?')));
    assert_eq!(enigma.rotor_positions(), "AAB".to_string());
    assert_eq!(enigma.encrypt_char('A'), Ok('D'));
}

#[test]
fn sentinel_stands_in_place_of_refused_characters() {
    let mut enigma = one_two_three((0, 0, 0), vec![]);
    assert_eq!(
        enigma.encrypt_string("AAaAA A-AAAAAA".to_string()),
        "BD*GO*C*LTKSBT".to_string()
    );
    let mut all_refused = one_two_three((0, 0, 0), vec![]);
    assert_eq!(all_refused.encrypt_string("hello, world".to_string()), "************".to_string());
    assert_eq!(all_refused.rotor_positions(), "AAM".to_string());
}

#[test]
fn plugboard_may_lead_a_character_to_a_letter() {
    let mut with_cable = one_two_three((0, 0, 0), vec![('a', 'A')]);
    let mut without = one_two_three((0, 0, 0), vec![]);
    let plain = without.encrypt_char('A');
    assert_eq!(plain, Ok('B'));
    assert_eq!(with_cable.encrypt_char('a'), Ok('B'));
    assert_eq!(with_cable.encrypt_char('A'), Err(EnigmaError::InvalidChar('a')));
}

#[test]
fn right_rotor_turns_on_every_key() {
    let mut enigma = one_two_three((0, 0, 0), vec![]);
    for i in 1..=26u8 {
        let _ = enigma.encrypt_char('A');
        let right = (i % 26 + 65) as char;
        assert_eq!(enigma.rotor_positions().chars().nth(2), Some(right));
    }
}

#[test]
fn middle_rotor_steps_twice_running() {
    let mut enigma = one_two_three((0, 3, 20), vec![]);
    assert_eq!(enigma.rotor_positions(), "ADU".to_string());
    let _ = enigma.encrypt_char('A');
    assert_eq!(enigma.rotor_positions(), "ADV".to_string());
    let _ = enigma.encrypt_char('A');
    assert_eq!(enigma.rotor_positions(), "AEW".to_string());
    let _ = enigma.encrypt_char('A');
    assert_eq!(enigma.rotor_positions(), "BFX".to_string());
    let _ = enigma.encrypt_char('A');
    assert_eq!(enigma.rotor_positions(), "BFY".to_string());
}

#[test]
fn middle_rotor_at_its_notch_takes_the_left_one_along() {
    let mut enigma = one_two_three((7, 4, 0), vec![]);
    assert_eq!(enigma.rotor_positions(), "HEA".to_string());
    let _ = enigma.encrypt_char('A');
    assert_eq!(enigma.rotor_positions(), "IFB".to_string());
}

#[test]
fn positions_return_after_the_full_period() {
    let mut enigma = one_two_three((0, 0, 0), vec![]);
    let start = enigma.rotor_positions();
    let mut steps = 0u32;
    loop {
        let _ = enigma.encrypt_char('A');
        steps += 1;
        if enigma.rotor_positions() == start {
            break;
        }
        assert!(steps < 26 * 25 * 26);
    }
    assert_eq!(steps, 26 * 25 * 26);
}

#[test]
fn reflector_c_gives_another_cipher() {
    let mut enigma = Enigma::new(
        Rotor::new(PhysicalRotor::new(KnownRotor::I), RingSetting(0), Position(0)),
        Rotor::new(PhysicalRotor::new(KnownRotor::II), RingSetting(0), Position(0)),
        Rotor::new(PhysicalRotor::new(KnownRotor::III), RingSetting(0), Position(0)),
        Reflector::new(KnownReflector::C),
        PlugBoard::new(vec![]),
    );
    let cipher = enigma.encrypt_string("AAAAA".to_string());
    assert_ne!(cipher, "BDZGO".to_string());
    let mut again = Enigma::new(
        Rotor::new(PhysicalRotor::new(KnownRotor::I), RingSetting(0), Position(0)),
        Rotor::new(PhysicalRotor::new(KnownRotor::II), RingSetting(0), Position(0)),
        Rotor::new(PhysicalRotor::new(KnownRotor::III), RingSetting(0), Position(0)),
        Reflector::new(KnownReflector::C),
        PlugBoard::new(vec![]),
    );
    assert_eq!(again.encrypt_string(cipher), "AAAAA".to_string());
}

fn steps_until_back(rotors: (KnownRotor, KnownRotor, KnownRotor), positions: (u8, u8, u8)) -> u32 {
    let mut enigma = machine(rotors, (0, 0, 0), positions, vec![]);
    let _ = enigma.encrypt_char('A');
    let _ = enigma.encrypt_char('A');
    let start = enigma.rotor_positions();
    let mut steps = 0u32;
    loop {
        let _ = enigma.encrypt_char('A');
        steps += 1;
        if enigma.rotor_positions() == start {
            return steps;
        }
        assert!(steps < 26 * 25 * 26);
    }
}

#[test]
fn period_with_one_notch_each() {
    assert_eq!(steps_until_back((KnownRotor::IV, KnownRotor::V, KnownRotor::I), (3, 25, 16)), 16900);
    assert_eq!(steps_until_back((KnownRotor::I, KnownRotor::II, KnownRotor::III), (0, 4, 0)), 16900);
}

#[test]
fn period_with_two_notches_on_the_right_rotor() {
    assert_eq!(steps_until_back((KnownRotor::I, KnownRotor::II, KnownRotor::VI), (0, 0, 0)), 8450);
    assert_eq!(steps_until_back((KnownRotor::I, KnownRotor::II, KnownRotor::VI), (9, 4, 25)), 8450);
}

#[test]
fn period_with_two_notches_on_the_middle_rotor() {
    assert_eq!(steps_until_back((KnownRotor::I, KnownRotor::VII, KnownRotor::III), (0, 0, 0)), 8112);
    assert_eq!(steps_until_back((KnownRotor::I, KnownRotor::VII, KnownRotor::III), (1, 12, 7)), 8112);
}

#[test]
fn period_with_two_notches_on_both() {
    assert_eq!(steps_until_back((KnownRotor::I, KnownRotor::VIII, KnownRotor::VI), (0, 0, 0)), 4056);
    assert_eq!(steps_until_back((KnownRotor::II, KnownRotor::VI, KnownRotor::VII), (5, 25, 12)), 4056);
}

#[test]
fn positions_outside_the_cycle_never_come_back() {
    let mut enigma = one_two_three((0, 4, 0), vec![]);
    let start = enigma.rotor_positions();
    assert_eq!(start, "AEA".to_string());
    for _ in 0..(26 * 25 * 26) {
        let _ = enigma.encrypt_char('A');
        assert_ne!(enigma.rotor_positions(), start);
    }
}
