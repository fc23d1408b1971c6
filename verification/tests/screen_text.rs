use mcommand::hud::{hud_settings_text, settings_entries, title_high_score_text, title_settings_text};
use mcommand::save::{Difficulty, GameConfig};
use mcommand::hud::{
    base_label, cities_text, final_score_text, high_score_text, score_text, wave_banner_text,
    wave_text,
};
use mcommand::labels::{footer_action_text, game_over_action_text, title_action_text, Platform};

#[test]
fn score_is_padded_to_six_digits() {
    assert_eq!(score_text(0), "SCORE 000000");
    assert_eq!(score_text(123), "SCORE 000123");
    assert_eq!(score_text(1_234_567), "SCORE 1234567");
    assert_eq!(high_score_text(42), "HIGH 000042");
}

#[test]
fn wave_and_city_texts() {
    assert_eq!(wave_text(3, 2), "WAVE 3  x2");
    assert_eq!(wave_banner_text(12), "WAVE 12");
    assert_eq!(cities_text(6), "CITIES 6");
    assert_eq!(final_score_text(750, 2), "FINAL SCORE 000750   WAVE 2");
}

#[test]
fn base_labels_never_show_negative_stock() {
    assert_eq!(base_label(0, 10), "Z 10");
    assert_eq!(base_label(1, 0), "X 0");
    assert_eq!(base_label(2, -3), "C 0");
}

#[test]
fn key_help_per_platform() {
    assert_eq!(title_action_text(Platform::Native), "O / S  SETTINGS    Q  QUIT    F  FULLSCREEN");
    assert_eq!(title_action_text(Platform::Web), "O / S  SETTINGS    Q  BACK    F  FULLSCREEN");
    assert_eq!(
        footer_action_text(Platform::Native),
        "MOVE: ARROWS / MOUSE   FIRE: Z X C   PAUSE: SPACE/P   Q: QUIT   F: FULLSCREEN"
    );
    assert_eq!(
        footer_action_text(Platform::Web),
        "MOVE: ARROWS / MOUSE   FIRE: Z X C   PAUSE: SPACE/P   Q: TITLE/BACK   F: FULLSCREEN"
    );
    assert_eq!(
        game_over_action_text(Platform::Native),
        "ENTER/R RESTART   T TITLE   O/S SETTINGS   Q QUIT   F FULLSCREEN"
    );
    assert_eq!(
        game_over_action_text(Platform::Web),
        "ENTER/R RESTART   T TITLE   O/S SETTINGS   Q TITLE   F FULLSCREEN"
    );
}

#[test]
fn settings_texts() {
    let config = GameConfig { ammo_per_base: 8, blast_radius: 120, difficulty: Difficulty::Hard };
    assert_eq!(
        settings_entries(config),
        vec![
            "BASE MISSILES       8".to_string(),
            "BLAST RADIUS       120px".to_string(),
            "DIFFICULTY         HARD".to_string(),
            "BACK".to_string(),
        ]
    );
    assert_eq!(title_settings_text(config), "AMMO 8   BLAST 120px   DIFFICULTY HARD");
    assert_eq!(hud_settings_text(GameConfig::default()), "AMMO 10  BLAST 58px  NORMAL");
    assert_eq!(title_high_score_text(1500), "HIGH SCORE 001500   F FULLSCREEN");
}
