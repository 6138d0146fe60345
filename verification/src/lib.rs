//! A small register machine, the two-pass assembler that produces its binary
//! programs, and the rules of the game that is played around them: the
//! terminal at which programs are written, the keys, the grid of tiles, and
//! the devices of the ship that the machine drives.

pub mod arith;
pub mod assembler;
pub mod encoding;
pub mod isa;
pub mod keyboard;
pub mod laws;
pub mod ship;
pub mod terminal;
pub mod text;
pub mod tiles;
pub mod zpu;
