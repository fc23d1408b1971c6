//! The rules of a Missile Command style game, with their proofs.
//!
//! `campaign` holds the state of a campaign (bases, cities, score, waves)
//! and every rule that changes it.
use vstd::prelude::*;

pub mod campaign;
pub mod text;
pub mod save;
pub mod wav;
pub mod labels;
pub mod hud;

verus! {

} // verus!
