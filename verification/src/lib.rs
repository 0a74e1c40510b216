//! Verified solutions to four small puzzles on numbers: the fuel a launch
//! needs, a small integer machine, the crossings of two wires, and a rule
//! on the digits of a number. `text` holds what they share for reading
//! their inputs.

pub mod fuel;
pub mod intcode;
pub mod password;
pub mod text;
pub mod wires;
