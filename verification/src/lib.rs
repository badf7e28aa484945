//! Verified core of a single-player blackjack game: deck construction,
//! shuffling (through `rand`), dealing, hand scoring, and round resolution.
//! Rendering and the event loop live outside this crate.

pub mod assets;
pub mod model;
pub mod rng;
