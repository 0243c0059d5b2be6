//! A move-prediction pipeline for shogi: a bit-packed board representation,
//! a rule engine for applying moves, an encoder from positions to binary
//! feature planes, and an encoder from moves to categorical labels.

use vstd::prelude::*;

pub mod bitboard;
pub mod data_loader;
pub mod dataset;
pub mod encoder;
pub mod filter;
pub mod label;
pub mod model;
pub mod player;
pub mod progressbar;
pub mod state;

verus! {

/// Number of binary feature planes the position encoder emits:
/// 14 piece planes and 38 hand planes for each of the two sides.
pub const INPUT_CHANNELS: usize = 104;

} // verus!
