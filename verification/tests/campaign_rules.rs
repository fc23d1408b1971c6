use mcommand::labels::Platform;
use mcommand::save::{Difficulty, GameConfig};
use mcommand::campaign::{
    pick_random_slot, slot_at, Base, Campaign, City, FrameInput, Launch, SiteKind, TargetSlot, BASE_AMMO,
};

fn city(index: usize) -> TargetSlot {
    TargetSlot { kind: SiteKind::City, index }
}

fn base(index: usize) -> TargetSlot {
    TargetSlot { kind: SiteKind::Base, index }
}

#[test]
fn new_campaign_starts_at_wave_one() {
    let c = Campaign::new();
    assert_eq!(c.score(), 0);
    assert_eq!(c.wave(), 1);
    assert_eq!(c.score_multiplier(), 1);
    assert_eq!(c.living_city_count(), 6);
    assert_eq!(c.enemies_to_spawn(), 15);
    assert_eq!(c.enemies_spawned(), 0);
    assert_eq!(c.next_city_restore_score(), 10_000);
    for i in 0..3 {
        assert_eq!(c.base(i), Base { ammo: BASE_AMMO, alive: true });
    }
    assert!(!c.is_paused());
    assert!(!c.is_game_over());
    assert!(!c.in_intermission());
    assert_eq!(c.unused_missile_count(), 30);
}

#[test]
fn middle_base_fires_faster() {
    let mut c = Campaign::new();
    assert_eq!(c.launch_player_missile(0), Some(700));
    assert_eq!(c.launch_player_missile(1), Some(850));
    assert_eq!(c.launch_player_missile(2), Some(700));
    assert_eq!(c.launch_player_missile(3), None);
    assert_eq!(c.base(1).ammo, 9);
}

#[test]
fn empty_base_cannot_fire() {
    let mut c = Campaign::new();
    for _ in 0..10 {
        assert!(c.launch_player_missile(2).is_some());
    }
    assert_eq!(c.base(2).ammo, 0);
    assert_eq!(c.launch_player_missile(2), None);
    assert_eq!(c.base(2).ammo, 0);
}

#[test]
fn fire_keys_launch_in_base_order() {
    let mut c = Campaign::new();
    let launches = c.fire(true, true, true);
    assert_eq!(
        launches,
        vec![
            Launch { base_index: 0, speed: 700 },
            Launch { base_index: 1, speed: 850 },
            Launch { base_index: 2, speed: 700 },
        ]
    );
    let launches = c.fire(false, true, false);
    assert_eq!(launches, vec![Launch { base_index: 1, speed: 850 }]);
    assert_eq!(c.unused_missile_count(), 26);
}

#[test]
fn pause_blocks_firing_and_twice_resumes() {
    let mut c = Campaign::new();
    c.toggle_pause();
    assert!(c.is_paused());
    assert!(c.fire(true, true, true).is_empty());
    assert_eq!(c.unused_missile_count(), 30);
    c.toggle_pause();
    assert!(!c.is_paused());
    assert_eq!(c.fire(true, false, false).len(), 1);
}

#[test]
fn losing_every_city_ends_the_game() {
    let mut c = Campaign::new();
    for i in 0..5 {
        c.destroy_site(city(i));
        assert!(!c.is_game_over());
    }
    assert_eq!(c.living_city_count(), 1);
    c.destroy_site(city(5));
    assert_eq!(c.living_city_count(), 0);
    assert!(c.is_game_over());
    assert!(c.fire(true, true, true).is_empty());
    c.toggle_pause();
    assert!(!c.is_paused());
    assert!(!c.finish_wave());
}

#[test]
fn lost_base_loses_its_missiles() {
    let mut c = Campaign::new();
    c.destroy_site(base(1));
    assert_eq!(c.base(1), Base { ammo: 0, alive: false });
    assert_eq!(c.launch_player_missile(1), None);
    c.destroy_site(base(7));
    c.destroy_site(city(9));
    assert_eq!(c.living_city_count(), 6);
    assert_eq!(c.unused_missile_count(), 20);
}

#[test]
fn targets_are_standing_cities_then_bases() {
    let mut c = Campaign::new();
    c.destroy_site(city(2));
    c.destroy_site(base(1));
    let slots = c.available_target_slots();
    assert_eq!(
        slots,
        vec![city(0), city(1), city(3), city(4), city(5), base(0), base(2)]
    );
}

#[test]
fn random_slot_comes_from_the_list() {
    assert_eq!(pick_random_slot(&[]), None);
    let slots = vec![city(3), base(2)];
    for _ in 0..200 {
        let s = pick_random_slot(&slots).unwrap();
        assert!(slots.contains(&s));
    }
    let c = Campaign::new();
    for _ in 0..50 {
        let s = c.random_target_slot().unwrap();
        assert!(c.available_target_slots().contains(&s));
    }
}

#[test]
fn spawning_counts_the_wave() {
    let mut c = Campaign::new();
    for _ in 0..15 {
        assert!(c.spawns_pending());
        let s = c.spawn_enemy_missile().unwrap();
        assert!(c.available_target_slots().contains(&s));
        c.count_spawn();
    }
    assert!(!c.spawns_pending());
    assert_eq!(c.enemies_spawned(), 15);
    assert!(c.wave_complete(0));
    assert!(!c.wave_complete(1));
}

#[test]
fn spawning_with_no_site_left_ends_the_game() {
    let mut c = Campaign::new();
    for i in 0..6 {
        c.destroy_site(city(i));
    }
    for i in 0..3 {
        c.destroy_site(base(i));
    }
    assert_eq!(c.spawn_enemy_missile(), None);
    assert!(c.is_game_over());
    assert_eq!(c.enemies_spawned(), 0);
    assert_eq!(c.score(), 0);
    assert_eq!(c.wave(), 1);
}

#[test]
fn interceptions_score_with_the_multiplier() {
    let mut c = Campaign::new();
    c.score_interceptions(3);
    assert_eq!(c.score(), 75);
    c.score_interceptions(0);
    assert_eq!(c.score(), 75);
    c.next_wave();
    c.next_wave();
    assert_eq!(c.wave(), 3);
    assert_eq!(c.score_multiplier(), 2);
    c.score_interceptions(1);
    assert_eq!(c.score(), 125);
}

#[test]
fn multiplier_grows_every_two_waves_up_to_six() {
    let mut c = Campaign::new();
    let expected = [1, 1, 2, 2, 3, 3, 4, 4, 5, 5, 6, 6, 6, 6];
    for (i, m) in expected.iter().enumerate() {
        assert_eq!(c.wave() as usize, i + 1);
        assert_eq!(c.score_multiplier(), *m);
        c.next_wave();
    }
}

#[test]
fn each_ten_thousand_points_rebuild_a_city() {
    let mut c = Campaign::new();
    c.destroy_site(city(4));
    c.destroy_site(city(1));
    c.destroy_site(city(2));
    c.award_points(9_999);
    assert_eq!(c.living_city_count(), 3);
    c.award_points(1);
    assert_eq!(c.score(), 10_000);
    assert_eq!(c.next_city_restore_score(), 20_000);
    assert_eq!(c.city(1), City { alive: true });
    assert!(!c.city(2).alive);
    c.award_points(25_000);
    assert_eq!(c.score(), 35_000);
    assert_eq!(c.next_city_restore_score(), 40_000);
    assert_eq!(c.living_city_count(), 6);
    c.award_points(20_000);
    assert_eq!(c.living_city_count(), 6);
    assert_eq!(c.next_city_restore_score(), 60_000);
}

#[test]
fn wave_end_bonus_counts_cities_and_missiles() {
    let mut c = Campaign::new();
    c.destroy_site(city(0));
    c.destroy_site(base(2));
    c.fire(true, false, false);
    assert!(c.wave_bonus_fits());
    assert!(c.finish_wave());
    assert_eq!(c.score(), 5 * 100 + 19 * 5);
    assert!(c.in_intermission());
    assert!(c.fire(true, true, true).is_empty());
    assert!(!c.wave_complete(0));
    c.next_wave();
    assert!(!c.in_intermission());
    assert_eq!(c.wave(), 2);
    assert_eq!(c.enemies_to_spawn(), 18);
    assert_eq!(c.enemies_spawned(), 0);
    assert_eq!(c.base(2), Base { ammo: 10, alive: true });
    assert_eq!(c.living_city_count(), 5);
}

#[test]
fn score_limit_is_checked() {
    let mut c = Campaign::new();
    assert!(c.award_fits(4_294_959_999));
    assert!(!c.award_fits(4_294_960_000));
    c.award_points(4_294_959_999);
    assert_eq!(c.score(), 4_294_959_999);
    assert!(!c.award_fits(1));
    assert!(c.award_fits(0));
    assert!(!c.wave_bonus_fits());
}

fn keys(quit: bool, pause: bool, z: bool, x: bool, c: bool) -> FrameInput {
    FrameInput { quit, pause, fire_left: z, fire_middle: x, fire_right: c }
}

#[test]
fn quitting_changes_nothing() {
    let mut c = Campaign::new();
    let out = c.handle_input(keys(true, true, true, true, true), Platform::Native);
    assert!(out.quit);
    assert!(!out.back);
    assert!(out.launches.is_empty());
    assert!(!out.advance);
    assert!(!c.is_paused());
    assert_eq!(c.unused_missile_count(), 30);
}

#[test]
fn pause_is_handled_before_fire() {
    let mut c = Campaign::new();
    let out = c.handle_input(keys(false, true, true, false, false), Platform::Native);
    assert!(!out.quit);
    assert!(out.launches.is_empty());
    assert!(!out.advance);
    assert!(c.is_paused());
    let out = c.handle_input(keys(false, true, false, false, true), Platform::Native);
    assert_eq!(out.launches, vec![Launch { base_index: 2, speed: 700 }]);
    assert!(out.advance);
    let out = c.handle_input(keys(false, false, false, false, false), Platform::Native);
    assert!(out.launches.is_empty());
    assert!(out.advance);
}

#[test]
fn q_leads_back_on_the_web() {
    let mut c = Campaign::new();
    let out = c.handle_input(keys(true, false, true, false, false), Platform::Web);
    assert!(!out.quit);
    assert!(out.back);
    assert!(out.launches.is_empty());
    assert!(!out.advance);
    assert_eq!(c.unused_missile_count(), 30);
    let out = c.handle_input(keys(false, false, true, false, false), Platform::Web);
    assert!(!out.quit && !out.back);
    assert_eq!(out.launches.len(), 1);
}

#[test]
fn spawn_count_is_separate_from_targeting() {
    let mut c = Campaign::new();
    assert!(c.spawn_enemy_missile().is_some());
    assert_eq!(c.enemies_spawned(), 0);
    c.count_spawn();
    assert_eq!(c.enemies_spawned(), 1);
    assert!(!c.is_game_over());
}

#[test]
fn a_run_of_frames_keeps_score_wave_and_game_over() {
    let mut c = Campaign::new();
    let mut last_score = 0;
    let mut last_wave = c.wave();
    for round in 0..40 {
        c.handle_input(keys(false, round % 7 == 3, true, round % 2 == 0, false), Platform::Native);
        if round % 5 == 0 {
            c.score_interceptions(round as u32);
        }
        if c.spawns_pending() {
            if let Some(slot) = c.spawn_enemy_missile() {
                if round % 3 == 0 {
                    c.destroy_site(slot);
                }
            }
            c.count_spawn();
        }
        assert!(c.enemies_spawned() <= c.enemies_to_spawn());
        assert!(c.score() >= last_score);
        assert!(c.wave() == last_wave || c.wave() == last_wave + 1);
        last_score = c.score();
        last_wave = c.wave();
        if c.is_game_over() {
            break;
        }
    }
}

#[test]
fn settings_stock_the_bases() {
    let config = GameConfig { ammo_per_base: 4, blast_radius: 30, difficulty: Difficulty::Easy };
    let mut c = Campaign::with_config(config);
    assert_eq!(c.base(0), Base { ammo: 4, alive: true });
    assert_eq!(c.unused_missile_count(), 12);
    for _ in 0..4 {
        assert!(c.launch_player_missile(0).is_some());
    }
    assert_eq!(c.launch_player_missile(0), None);
    c.destroy_site(base(2));
    assert!(c.finish_wave());
    assert_eq!(c.score(), 6 * 100 + 4 * 5);
    c.next_wave();
    for i in 0..3 {
        assert_eq!(c.base(i), Base { ammo: 4, alive: true });
    }
    let big = GameConfig { ammo_per_base: 2_000_000_000, ..config };
    let c = Campaign::with_config(big);
    assert_eq!(c.unused_missile_count(), 6_000_000_000);
    assert!(!c.wave_bonus_fits());
}

#[test]
fn slot_at_gives_the_indexed_slot() {
    let slots = vec![city(3), base(2), city(0)];
    assert_eq!(slot_at(&slots, 0), city(3));
    assert_eq!(slot_at(&slots, 1), base(2));
    assert_eq!(slot_at(&slots, 2), city(0));
}
