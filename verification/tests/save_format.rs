use mcommand::save::{load_save_data, store_save_data, Difficulty, GameConfig, SaveData};

#[test]
fn default_save_text() {
    let text = SaveData::default().encode();
    assert_eq!(text, "ammo_per_base=10\nblast_radius=58\ndifficulty=NORMAL\nhigh_score=0");
    assert_eq!(store_save_data(SaveData::default()), text);
}

#[test]
fn saved_data_reads_back() {
    let save = SaveData {
        config: GameConfig { ammo_per_base: 7, blast_radius: 64, difficulty: Difficulty::Hard },
        high_score: 4_294_967_295,
    };
    let text = save.encode();
    assert_eq!(SaveData::decode(&text), save);
    assert_eq!(GameConfig::decode(&save.config.encode()), Some(save.config));
    assert_eq!(load_save_data(Some(&text)), save);
}

#[test]
fn nothing_stored_gives_defaults() {
    assert_eq!(load_save_data(None), SaveData::default());
    assert_eq!(SaveData::decode(""), SaveData::default());
    assert_eq!(GameConfig::decode(""), None);
}

#[test]
fn whitespace_and_crlf_are_ignored() {
    let text = "  ammo_per_base = 12\r\n\u{3000}blast_radius=\t40 \r\ndifficulty= EASY\r\nhigh_score = +42\r\n";
    let save = SaveData::decode(text);
    assert_eq!(
        save.config,
        GameConfig { ammo_per_base: 12, blast_radius: 40, difficulty: Difficulty::Easy }
    );
    assert_eq!(save.high_score, 42);
}

#[test]
fn invalid_values_are_skipped_and_last_valid_wins() {
    let text = "high_score=10\nhigh_score=-1\nhigh_score=4294967296\nhigh_score=x\nhigh_score=+\n";
    assert_eq!(SaveData::decode(text).high_score, 10);
    let text = "high_score=10\nhigh_score=20\nnoise\n=5\n";
    assert_eq!(SaveData::decode(text).high_score, 20);
    let text = "high_score=1=2\n";
    assert_eq!(SaveData::decode(text).high_score, 0);
}

#[test]
fn partial_settings_fall_back_to_defaults() {
    let text = "ammo_per_base=3\nblast_radius=20\nhigh_score=99";
    assert_eq!(GameConfig::decode(text), None);
    let save = SaveData::decode(text);
    assert_eq!(save.config, GameConfig::default());
    assert_eq!(save.high_score, 99);
    let text = "ammo_per_base=3\nblast_radius=20\ndifficulty=normal";
    assert_eq!(GameConfig::decode(text), None);
}

#[test]
fn difficulty_labels() {
    assert_eq!(Difficulty::Easy.label(), "EASY");
    assert_eq!(Difficulty::Normal.label(), "NORMAL");
    assert_eq!(Difficulty::Hard.label(), "HARD");
}

#[test]
fn numbers_read_as_rust_reads_them() {
    assert_eq!(SaveData::decode("high_score=007").high_score, 7);
    assert_eq!(SaveData::decode("high_score=-0").high_score, 0);
    assert_eq!(SaveData::decode("high_score=4294967295").high_score, 4_294_967_295);
    assert_eq!(SaveData::decode("high_score=1 2").high_score, 0);
    assert_eq!(SaveData::decode("high_score=12\u{a0}").high_score, 12);
}

#[test]
fn recording_a_score_keeps_the_higher() {
    let save = SaveData { config: GameConfig::default(), high_score: 500 };
    assert_eq!(save.record_score(400).high_score, 500);
    assert_eq!(save.record_score(900).high_score, 900);
    assert_eq!(save.record_score(900).config, GameConfig::default());
}
