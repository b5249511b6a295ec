//! A CHIP-8 interpreter core whose every instruction is specified and proved.
pub mod emulator;
pub mod instruction_laws;
pub mod laws;
pub mod model;
mod rng;

pub use emulator::Emulator;
pub use model::{SCREEN_HEIGHT, SCREEN_WIDTH};
