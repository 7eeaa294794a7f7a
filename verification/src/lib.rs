//! A three-rotor Enigma cipher machine with verified signal path and stepping.

pub mod alphabet;
pub mod enigma;
pub mod error;
pub mod physical_rotor;
pub mod plugboard;
pub mod reflector;
pub mod reciprocity;
pub mod rotor;
pub mod stepping;
mod text;
