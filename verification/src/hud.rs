//! The texts of the heads-up display and of the overlays.
use vstd::prelude::*;
use crate::save::{difficulty_label, GameConfig};
use crate::text::{decimal, push_decimal, push_space_padded, push_zero_padded, space_padded, zero_padded};

verus! {

/// Score text: `SCORE ` and the score in at least six digits.
pub fn score_text(score: u32) -> (r: String)
    ensures
        r@ == "SCORE "@ + zero_padded(decimal(score as nat), 6),
{
    let mut s = String::new();
    s.append("SCORE ");
    push_zero_padded(&mut s, score, 6);
    s
}

/// High score text: `HIGH ` and the high score in at least six digits.
pub fn high_score_text(high_score: u32) -> (r: String)
    ensures
        r@ == "HIGH "@ + zero_padded(decimal(high_score as nat), 6),
{
    let mut s = String::new();
    s.append("HIGH ");
    push_zero_padded(&mut s, high_score, 6);
    s
}

/// Wave text: the wave and the score multiplier.
pub fn wave_text(wave: u32, multiplier: u32) -> (r: String)
    ensures
        r@ == "WAVE "@ + decimal(wave as nat) + "  x"@ + decimal(multiplier as nat),
{
    let mut s = String::new();
    s.append("WAVE ");
    push_decimal(&mut s, wave);
    s.append("  x");
    push_decimal(&mut s, multiplier);
    s
}

/// The banner at the start of a wave.
pub fn wave_banner_text(wave: u32) -> (r: String)
    ensures
        r@ == "WAVE "@ + decimal(wave as nat),
{
    let mut s = String::new();
    s.append("WAVE ");
    push_decimal(&mut s, wave);
    s
}

/// Cities text: the number of standing cities.
pub fn cities_text(cities: u32) -> (r: String)
    ensures
        r@ == "CITIES "@ + decimal(cities as nat),
{
    let mut s = String::new();
    s.append("CITIES ");
    push_decimal(&mut s, cities);
    s
}

/// The final score and wave on the game-over screen.
pub fn final_score_text(score: u32, wave: u32) -> (r: String)
    ensures
        r@ == "FINAL SCORE "@ + zero_padded(decimal(score as nat), 6) + "   WAVE "@ + decimal(
            wave as nat,
        ),
{
    let mut s = String::new();
    s.append("FINAL SCORE ");
    push_zero_padded(&mut s, score, 6);
    s.append("   WAVE ");
    push_decimal(&mut s, wave);
    s
}

/// The fire key of base `index`: Z, X and C from left to right.
pub open spec fn base_key(index: int) -> Seq<char> {
    if index == 0 {
        "Z"@
    } else if index == 1 {
        "X"@
    } else {
        "C"@
    }
}

/// The label under a base: its fire key and its missiles left (never
/// below zero).
pub fn base_label(index: usize, ammo: i32) -> (r: String)
    requires
        index < 3,
    ensures
        r@ == base_key(index as int) + " "@ + decimal((if ammo > 0 { ammo } else { 0 }) as nat),
{
    let mut s = String::new();
    let key = if index == 0 {
        "Z"
    } else if index == 1 {
        "X"
    } else {
        "C"
    };
    s.append(key);
    s.append(" ");
    let shown: u32 = if ammo > 0 {
        ammo as u32
    } else {
        0
    };
    push_decimal(&mut s, shown);
    s
}


/// The settings line of the title screen.
pub fn title_settings_text(config: GameConfig) -> (r: String)
    ensures
        r@ == "AMMO "@ + decimal(config.ammo_per_base as nat) + "   BLAST "@ + decimal(
            config.blast_radius as nat,
        ) + "px   DIFFICULTY "@ + difficulty_label(config.difficulty),
{
    let mut s = String::new();
    s.append("AMMO ");
    push_decimal(&mut s, config.ammo_per_base);
    s.append("   BLAST ");
    push_decimal(&mut s, config.blast_radius);
    s.append("px   DIFFICULTY ");
    s.append(config.difficulty.label());
    s
}

/// The settings line of the playing screen.
pub fn hud_settings_text(config: GameConfig) -> (r: String)
    ensures
        r@ == "AMMO "@ + decimal(config.ammo_per_base as nat) + "  BLAST "@ + decimal(
            config.blast_radius as nat,
        ) + "px  "@ + difficulty_label(config.difficulty),
{
    let mut s = String::new();
    s.append("AMMO ");
    push_decimal(&mut s, config.ammo_per_base);
    s.append("  BLAST ");
    push_decimal(&mut s, config.blast_radius);
    s.append("px  ");
    s.append(config.difficulty.label());
    s
}

/// The high score line of the title screen.
pub fn title_high_score_text(high_score: u32) -> (r: String)
    ensures
        r@ == "HIGH SCORE "@ + zero_padded(decimal(high_score as nat), 6) + "   F FULLSCREEN"@,
{
    let mut s = String::new();
    s.append("HIGH SCORE ");
    push_zero_padded(&mut s, high_score, 6);
    s.append("   F FULLSCREEN");
    s
}

/// The four entries of the settings screen: the missiles per base and the
/// blast radius, right-aligned in two columns, the difficulty, and the way
/// back.
pub fn settings_entries(config: GameConfig) -> (r: Vec<String>)
    ensures
        r@.len() == 4,
        r@[0]@ == "BASE MISSILES      "@ + space_padded(decimal(config.ammo_per_base as nat), 2),
        r@[1]@ == "BLAST RADIUS       "@ + space_padded(decimal(config.blast_radius as nat), 2) + "px"@,
        r@[2]@ == "DIFFICULTY         "@ + difficulty_label(config.difficulty),
        r@[3]@ == "BACK"@,
{
    let mut ammo = String::new();
    ammo.append("BASE MISSILES      ");
    push_space_padded(&mut ammo, config.ammo_per_base, 2);
    let mut blast = String::new();
    blast.append("BLAST RADIUS       ");
    push_space_padded(&mut blast, config.blast_radius, 2);
    blast.append("px");
    let mut difficulty = String::new();
    difficulty.append("DIFFICULTY         ");
    difficulty.append(config.difficulty.label());
    let mut back = String::new();
    back.append("BACK");
    let mut entries: Vec<String> = Vec::new();
    entries.push(ammo);
    entries.push(blast);
    entries.push(difficulty);
    entries.push(back);
    entries
}

} // verus!
