//! The state of a campaign and the rules that change it: firing from the
//! bases, sites lost to enemy impacts, scoring, rebuilt cities, waves and
//! the end of the game.
//!
//! Positions, speeds in flight and timers are continuous quantities and are
//! kept by the caller; this module decides everything that is counted.
use vstd::prelude::*;
use crate::labels::Platform;
use crate::save::GameConfig;

verus! {

/// Number of missile bases.
pub const BASE_COUNT: usize = 3;

/// Number of cities.
pub const CITY_COUNT: usize = 6;

/// Missiles that each base holds at the start of a wave, unless the
/// player's settings say otherwise.
pub const BASE_AMMO: i32 = 10;

/// Points between two rebuilt cities.
pub const CITY_RESTORE_STEP: u32 = 10_000;

/// Points for each enemy missile caught in a player's blast.
pub const INTERCEPT_POINTS: u32 = 25;

/// Bonus points for each city standing at the end of a wave.
pub const CITY_BONUS: u32 = 100;

/// Bonus points for each unused missile of a standing base at the end of a wave.
pub const MISSILE_BONUS: u32 = 5;

/// Highest score multiplier.
pub const MAX_MULTIPLIER: u32 = 6;

/// A missile base: its remaining missiles and whether it stands.
#[derive(Clone, Copy, Debug, PartialEq, Eq, Structural)]
pub struct Base {
    pub ammo: i32,
    pub alive: bool,
}

/// A city and whether it stands.
#[derive(Clone, Copy, Debug, PartialEq, Eq, Structural)]
pub struct City {
    pub alive: bool,
}

/// The two kinds of site that enemy missiles aim at.
#[derive(Clone, Copy, Debug, PartialEq, Eq, Structural)]
pub enum SiteKind {
    Base,
    City,
}

/// A site that an enemy missile aims at: a base or a city, by index.
#[derive(Clone, Copy, Debug, PartialEq, Eq, Structural)]
pub struct TargetSlot {
    pub kind: SiteKind,
    pub index: usize,
}

/// A missile that left a base: which base, and its speed in pixels per second.
#[derive(Clone, Copy, Debug, PartialEq, Eq, Structural)]
pub struct Launch {
    pub base_index: usize,
    pub speed: u32,
}

/// The state of a campaign.
pub struct Campaign {
    ammo_per_base: i32,
    bases: [Base; 3],
    cities: [City; 6],
    score: u32,
    next_city_restore_score: u32,
    wave: u32,
    enemies_to_spawn: u32,
    enemies_spawned: u32,
    intermission: bool,
    paused: bool,
    game_over: bool,
}

/// The mathematical model of a campaign.
pub struct CampaignView {
    pub ammo_per_base: i32,
    pub bases: Seq<Base>,
    pub cities: Seq<City>,
    pub score: nat,
    pub next_city_restore_score: nat,
    pub wave: nat,
    pub enemies_to_spawn: nat,
    pub enemies_spawned: nat,
    pub intermission: bool,
    pub paused: bool,
    pub game_over: bool,
}

impl View for Campaign {
    type V = CampaignView;

    closed spec fn view(&self) -> CampaignView {
        CampaignView {
            ammo_per_base: self.ammo_per_base,
            bases: self.bases@,
            cities: self.cities@,
            score: self.score as nat,
            next_city_restore_score: self.next_city_restore_score as nat,
            wave: self.wave as nat,
            enemies_to_spawn: self.enemies_to_spawn as nat,
            enemies_spawned: self.enemies_spawned as nat,
            intermission: self.intermission,
            paused: self.paused,
            game_over: self.game_over,
        }
    }
}

/// The number of standing cities.
pub open spec fn alive_cities(c: Seq<City>) -> nat
    decreases c.len(),
{
    if c.len() == 0 {
        0
    } else {
        alive_cities(c.drop_last()) + if c.last().alive {
            1nat
        } else {
            0nat
        }
    }
}

/// The missiles left in the standing bases.
pub open spec fn unused_missiles(b: Seq<Base>) -> nat
    decreases b.len(),
{
    if b.len() == 0 {
        0
    } else {
        unused_missiles(b.drop_last()) + if b.last().alive && b.last().ammo > 0 {
            b.last().ammo as nat
        } else {
            0nat
        }
    }
}

/// The first score at which the next city is rebuilt, once `score` is reached.
pub open spec fn restore_threshold(score: nat) -> nat {
    (CITY_RESTORE_STEP * (score / (CITY_RESTORE_STEP as nat) + 1)) as nat
}

/// Number of enemy missiles in wave `wave`.
pub open spec fn wave_size(wave: nat) -> nat {
    12 + 3 * wave
}

/// The score multiplier of wave `wave`: it grows by one every two waves,
/// up to `MAX_MULTIPLIER`.
pub open spec fn multiplier(wave: nat) -> nat {
    let m = (if wave >= 1 { (wave - 1) as nat } else { 0nat }) / 2 + 1;
    if m < MAX_MULTIPLIER { m } else { MAX_MULTIPLIER as nat }
}

/// A standing base stocked with `ammo` missiles.
pub open spec fn full_base(ammo: i32) -> Base {
    Base { ammo, alive: true }
}

/// `i` is the lowest index of a lost city.
pub open spec fn is_first_lost(c: Seq<City>, i: int) -> bool {
    &&& 0 <= i < c.len()
    &&& !c[i].alive
    &&& forall|j: int| 0 <= j < i ==> #[trigger] c[j].alive
}

/// The cities after the lost city of lowest index, if any, is rebuilt.
pub open spec fn revive_one(c: Seq<City>) -> Seq<City> {
    if exists|i: int| is_first_lost(c, i) {
        c.update(choose|i: int| is_first_lost(c, i), City { alive: true })
    } else {
        c
    }
}

/// The cities after `k` rebuilds, each of the lost city of lowest index.
pub open spec fn revive_times(c: Seq<City>, k: nat) -> Seq<City>
    decreases k,
{
    if k == 0 {
        c
    } else {
        revive_one(revive_times(c, (k - 1) as nat))
    }
}

/// A new campaign whose bases hold `ammo` missiles each wave: score zero,
/// all cities and bases standing, the first wave about to begin.
pub open spec fn started(ammo: i32) -> CampaignView {
    CampaignView {
        ammo_per_base: ammo,
        bases: seq![full_base(ammo), full_base(ammo), full_base(ammo)],
        cities: seq![City { alive: true }, City { alive: true }, City { alive: true }, City { alive: true }, City { alive: true }, City { alive: true }],
        score: 0,
        next_city_restore_score: CITY_RESTORE_STEP as nat,
        wave: 1,
        enemies_to_spawn: wave_size(1),
        enemies_spawned: 0,
        intermission: false,
        paused: false,
        game_over: false,
    }
}

impl CampaignView {
    /// The invariant of every campaign.
    pub open spec fn wf(self) -> bool {
        &&& self.bases.len() == BASE_COUNT
        &&& self.cities.len() == CITY_COUNT
        &&& 0 <= self.ammo_per_base
        &&& forall|i: int| 0 <= i < self.bases.len() ==> 0 <= #[trigger] self.bases[i].ammo <= self.ammo_per_base
        &&& self.next_city_restore_score == restore_threshold(self.score)
        &&& self.next_city_restore_score <= u32::MAX
        &&& self.wave >= 1
        &&& self.enemies_to_spawn == wave_size(self.wave)
        &&& self.enemies_spawned <= self.enemies_to_spawn
        &&& !self.game_over ==> alive_cities(self.cities) > 0
    }

    /// Firing is allowed: the game runs and no intermission is under way.
    pub open spec fn can_fire(self) -> bool {
        !self.paused && !self.game_over && !self.intermission
    }
}

/// The campaign after `base_points` are won: they are multiplied by the
/// wave's multiplier and added to the score, and one lost city is rebuilt
/// for each multiple of `CITY_RESTORE_STEP` that the score passes.
pub open spec fn awarded(v: CampaignView, base_points: nat) -> CampaignView {
    let score = v.score + base_points * multiplier(v.wave);
    CampaignView {
        cities: revive_times(v.cities, (score / (CITY_RESTORE_STEP as nat) - v.score / (CITY_RESTORE_STEP as nat)) as nat),
        score: score,
        next_city_restore_score: restore_threshold(score),
        ..v
    }
}

/// Winning `base_points` in campaign `v` keeps the next rebuild threshold
/// within `u32` (beyond that the score cannot be kept).
pub open spec fn award_fits(v: CampaignView, base_points: nat) -> bool {
    restore_threshold(v.score + base_points * multiplier(v.wave)) <= u32::MAX
}

/// Two campaigns that differ at most in their score, rebuild threshold and cities.
pub open spec fn same_but_score(a: CampaignView, b: CampaignView) -> bool {
    &&& a.ammo_per_base == b.ammo_per_base
    &&& a.bases == b.bases
    &&& a.wave == b.wave
    &&& a.enemies_to_spawn == b.enemies_to_spawn
    &&& a.enemies_spawned == b.enemies_spawned
    &&& a.intermission == b.intermission
    &&& a.paused == b.paused
    &&& a.game_over == b.game_over
}

/// Changing one city changes the count of standing cities by what it changed.
pub proof fn lemma_alive_cities_update(c: Seq<City>, i: int, x: City)
    requires
        0 <= i < c.len(),
    ensures
        alive_cities(c.update(i, x)) + (if c[i].alive { 1int } else { 0int })
            == alive_cities(c) + (if x.alive { 1int } else { 0int }),
    decreases c.len(),
{
    let u = c.update(i, x);
    if i == c.len() - 1 {
        assert(u.drop_last() =~= c.drop_last());
    } else {
        lemma_alive_cities_update(c.drop_last(), i, x);
        assert(u.drop_last() =~= c.drop_last().update(i, x));
    }
}

/// At most every city stands, and all stand exactly when the count is full.
pub proof fn lemma_alive_cities_bound(c: Seq<City>)
    ensures
        alive_cities(c) <= c.len(),
        alive_cities(c) == c.len() <==> forall|i: int| 0 <= i < c.len() ==> #[trigger] c[i].alive,
    decreases c.len(),
{
    if c.len() > 0 {
        lemma_alive_cities_bound(c.drop_last());
        if alive_cities(c) == c.len() {
            assert forall|i: int| 0 <= i < c.len() implies #[trigger] c[i].alive by {
                if i < c.len() - 1 {
                    assert(c.drop_last()[i] == c[i]);
                }
            }
        }
        if forall|i: int| 0 <= i < c.len() ==> #[trigger] c[i].alive {
            assert forall|i: int| 0 <= i < c.drop_last().len() implies #[trigger] c.drop_last()[i].alive by {
                assert(c.drop_last()[i] == c[i]);
            }
        }
    }
}

/// Where some city is lost, one of them has the lowest index.
proof fn lemma_first_lost_exists(c: Seq<City>, d: int)
    requires
        0 <= d < c.len(),
        !c[d].alive,
    ensures
        exists|i: int| is_first_lost(c, i),
    decreases d,
{
    if forall|j: int| 0 <= j < d ==> #[trigger] c[j].alive {
        assert(is_first_lost(c, d));
    } else {
        let j = choose|j: int| 0 <= j < d && !#[trigger] c[j].alive;
        lemma_first_lost_exists(c, j);
    }
}

/// One rebuild raises the count of standing cities by one, unless all stand.
pub proof fn lemma_revive_one(c: Seq<City>)
    ensures
        revive_one(c).len() == c.len(),
        alive_cities(revive_one(c)) == if alive_cities(c) < c.len() {
            alive_cities(c) + 1
        } else {
            alive_cities(c)
        },
{
    lemma_alive_cities_bound(c);
    if exists|i: int| is_first_lost(c, i) {
        let i = choose|i: int| is_first_lost(c, i);
        lemma_alive_cities_update(c, i, City { alive: true });
    } else {
        if alive_cities(c) < c.len() {
            let d = choose|d: int| 0 <= d < c.len() && !#[trigger] c[d].alive;
            lemma_first_lost_exists(c, d);
        }
    }
}

/// `k` rebuilds raise the count of standing cities by `k`, up to all of them.
pub proof fn lemma_revive_times(c: Seq<City>, k: nat)
    ensures
        revive_times(c, k).len() == c.len(),
        alive_cities(revive_times(c, k)) == if alive_cities(c) + k < c.len() {
            alive_cities(c) + k
        } else {
            c.len() as nat
        },
    decreases k,
{
    lemma_alive_cities_bound(c);
    if k > 0 {
        lemma_revive_times(c, (k - 1) as nat);
        lemma_revive_one(revive_times(c, (k - 1) as nat));
    }
}

impl Campaign {
    /// The invariant of every campaign.
    pub open spec fn wf(&self) -> bool {
        self@.wf()
    }

    /// A new campaign whose bases hold `BASE_AMMO` missiles each wave.
    pub fn new() -> (c: Self)
        ensures
            c.wf(),
            c@ == started(BASE_AMMO),
    {
        Self::start(BASE_AMMO)
    }

    /// A new campaign with the player's settings: the bases hold
    /// `config.ammo_per_base` missiles each wave.
    pub fn with_config(config: GameConfig) -> (c: Self)
        requires
            config.ammo_per_base <= i32::MAX,
        ensures
            c.wf(),
            c@ == started(config.ammo_per_base as i32),
    {
        Self::start(config.ammo_per_base as i32)
    }

    fn start(ammo: i32) -> (c: Self)
        requires
            ammo >= 0,
        ensures
            c.wf(),
            c@ == started(ammo),
    {
        let base = Base { ammo, alive: true };
        let city = City { alive: true };
        let c = Campaign {
            ammo_per_base: ammo,
            bases: [base, base, base],
            cities: [city, city, city, city, city, city],
            score: 0,
            next_city_restore_score: CITY_RESTORE_STEP,
            wave: 1,
            enemies_to_spawn: 15,
            enemies_spawned: 0,
            intermission: false,
            paused: false,
            game_over: false,
        };
        proof {
            lemma_alive_cities_bound(c@.cities);
            assert(c@.bases =~= started(ammo).bases);
            assert(c@.cities =~= started(ammo).cities);
        }
        c
    }

    /// The number of standing cities.
    pub fn living_city_count(&self) -> (n: usize)
        ensures
            n == alive_cities(self@.cities),
    {
        let mut n: usize = 0;
        let mut i: usize = 0;
        while i < CITY_COUNT
            invariant
                i <= CITY_COUNT,
                n == alive_cities(self@.cities.take(i as int)),
                n <= i,
            decreases CITY_COUNT - i,
        {
            assert(self@.cities.take(i + 1).drop_last() =~= self@.cities.take(i as int));
            if self.cities[i].alive {
                n = n + 1;
            }
            i = i + 1;
        }
        assert(self@.cities.take(CITY_COUNT as int) =~= self@.cities);
        n
    }

    /// The score multiplier of the current wave.
    pub fn score_multiplier(&self) -> (m: u32)
        ensures
            m == multiplier(self@.wave),
            1 <= m <= MAX_MULTIPLIER,
    {
        let m = self.wave.saturating_sub(1) / 2 + 1;
        if m < MAX_MULTIPLIER {
            m
        } else {
            MAX_MULTIPLIER
        }
    }

    /// Rebuilds the lost city of lowest index, if any.
    fn revive_first_lost_city(&mut self)
        ensures
            final(self)@.cities == revive_one(old(self)@.cities),
            final(self).ammo_per_base == old(self).ammo_per_base,
            final(self).bases == old(self).bases,
            final(self).score == old(self).score,
            final(self).next_city_restore_score == old(self).next_city_restore_score,
            final(self).wave == old(self).wave,
            final(self).enemies_to_spawn == old(self).enemies_to_spawn,
            final(self).enemies_spawned == old(self).enemies_spawned,
            final(self).intermission == old(self).intermission,
            final(self).paused == old(self).paused,
            final(self).game_over == old(self).game_over,
    {
        let ghost c = self.cities@;
        let mut i: usize = 0;
        while i < CITY_COUNT
            invariant
                i <= CITY_COUNT,
                self.cities@ == c,
                *self == *old(self),
                forall|j: int| 0 <= j < i ==> #[trigger] c[j].alive,
            decreases CITY_COUNT - i,
        {
            if !self.cities[i].alive {
                self.cities[i] = City { alive: true };
                proof {
                    assert(is_first_lost(c, i as int));
                    assert forall|k: int| is_first_lost(c, k) implies k == i by {
                        if k < i {
                            assert(c[k].alive);
                        } else if k > i {
                            assert(c[i as int].alive);
                        }
                    }
                    assert(self.cities@ =~= revive_one(c));
                }
                return;
            }
            i = i + 1;
        }
        assert(!exists|k: int| is_first_lost(c, k));
    }
}


impl Campaign {
    /// Whether `base_points` can be won now without the score passing the
    /// last rebuild threshold that a `u32` holds.
    pub fn award_fits(&self, base_points: u32) -> (r: bool)
        requires
            self.wf(),
        ensures
            r == award_fits(self@, base_points as nat),
    {
        let m = self.score_multiplier() as u64;
        let b = base_points as u64;
        assert(b * m <= 0xffff_ffff * 6) by (nonlinear_arith)
            requires b <= 0xffff_ffff, m <= 6;
        let total: u64 = self.score as u64 + b * m;
        let step: u64 = 10000;
        assert(step * (total / step + 1) <= total + step) by (nonlinear_arith)
            requires step == 10000;
        let threshold: u64 = step * (total / step + 1);
        threshold <= u32::MAX as u64
    }

    /// Wins `base_points`, multiplied by the wave's multiplier, and rebuilds
    /// one lost city for each multiple of `CITY_RESTORE_STEP` that the score passes.
    pub fn award_points(&mut self, base_points: u32)
        requires
            old(self).wf(),
            award_fits(old(self)@, base_points as nat),
        ensures
            final(self).wf(),
            final(self)@ == awarded(old(self)@, base_points as nat),
    {
        let mult = self.score_multiplier();
        let ghost step = CITY_RESTORE_STEP as nat;
        let ghost total: nat = old(self)@.score + (base_points as nat) * (mult as nat);
        assert(total <= restore_threshold(total)) by (nonlinear_arith)
            requires step == 10000, restore_threshold(total) == step * (total / step + 1);
        let points = base_points * mult;
        self.score = self.score.saturating_add(points);
        let ghost c0 = self.cities@;
        let ghost q = old(self)@.score / step;
        let ghost mut t: nat = 0;
        while self.score >= self.next_city_restore_score
            invariant
                self@.score == total,
                self@.next_city_restore_score == step * (q + 1 + t),
                self@.next_city_restore_score <= self@.score + step,
                self@.cities == revive_times(c0, t),
                restore_threshold(total) <= u32::MAX,
                step == 10000,
                same_but_score(self@, old(self)@),
            decreases self@.score + step - self@.next_city_restore_score,
        {
            self.revive_first_lost_city();
            assert(self@.next_city_restore_score + step <= restore_threshold(total)) by (nonlinear_arith)
                requires
                    step == 10000,
                    self@.next_city_restore_score == step * (q + 1 + t),
                    self@.next_city_restore_score <= total,
                    restore_threshold(total) == step * (total / step + 1);
            self.next_city_restore_score = self.next_city_restore_score + CITY_RESTORE_STEP;
            proof {
                t = t + 1;
            }
        }
        assert(total / step == q + t) by (nonlinear_arith)
            requires
                step == 10000,
                step * (q + 1 + t) > total,
                step * (q + t) <= total;
        proof {
            lemma_revive_times(c0, t);
            let v = old(self)@;
            assert(v.score / step == q);
        }
    }
}


/// The slots of the standing cities, in index order.
pub open spec fn city_slots(c: Seq<City>) -> Seq<TargetSlot>
    decreases c.len(),
{
    if c.len() == 0 {
        seq![]
    } else {
        city_slots(c.drop_last()) + if c.last().alive {
            seq![TargetSlot { kind: SiteKind::City, index: (c.len() - 1) as usize }]
        } else {
            seq![]
        }
    }
}

/// The slots of the standing bases, in index order.
pub open spec fn base_slots(b: Seq<Base>) -> Seq<TargetSlot>
    decreases b.len(),
{
    if b.len() == 0 {
        seq![]
    } else {
        base_slots(b.drop_last()) + if b.last().alive {
            seq![TargetSlot { kind: SiteKind::Base, index: (b.len() - 1) as usize }]
        } else {
            seq![]
        }
    }
}

/// The sites that enemy missiles may aim at: the standing cities, then the
/// standing bases, each in index order.
pub open spec fn target_slots(v: CampaignView) -> Seq<TargetSlot> {
    city_slots(v.cities) + base_slots(v.bases)
}

/// Slot `s` names a standing site of campaign `v`.
pub open spec fn slot_stands(v: CampaignView, s: TargetSlot) -> bool {
    match s.kind {
        SiteKind::City => s.index < v.cities.len() && v.cities[s.index as int].alive,
        SiteKind::Base => s.index < v.bases.len() && v.bases[s.index as int].alive,
    }
}

/// The campaign after an enemy missile hits `slot`: the site is lost (a lost
/// base also loses its missiles), and the game is over once no city stands.
/// A slot whose index names no site changes nothing but that check.
pub open spec fn site_destroyed(v: CampaignView, slot: TargetSlot) -> CampaignView {
    let bases = if slot.kind == SiteKind::Base && slot.index < BASE_COUNT {
        v.bases.update(slot.index as int, Base { ammo: 0, alive: false })
    } else {
        v.bases
    };
    let cities = if slot.kind == SiteKind::City && slot.index < CITY_COUNT {
        v.cities.update(slot.index as int, City { alive: false })
    } else {
        v.cities
    };
    CampaignView { bases, cities, game_over: v.game_over || alive_cities(cities) == 0, ..v }
}

/// Base `i` can fire: it stands and has a missile left.
pub open spec fn can_launch(v: CampaignView, i: int) -> bool {
    0 <= i < BASE_COUNT && v.bases[i].alive && v.bases[i].ammo > 0
}

/// The campaign after base `i` is asked to fire: one missile fewer if it can.
pub open spec fn launched(v: CampaignView, i: int) -> CampaignView {
    if can_launch(v, i) {
        CampaignView {
            bases: v.bases.update(i, Base { ammo: (v.bases[i].ammo - 1) as i32, alive: true }),
            ..v
        }
    } else {
        v
    }
}

/// The speed of a missile fired from base `i`: the middle base fires faster.
pub open spec fn launch_speed(i: int) -> u32 {
    if i == 1 {
        850
    } else {
        700
    }
}

/// The campaign after the key of base `i` was or was not pressed.
pub open spec fn fire_step(v: CampaignView, i: int, pressed: bool) -> CampaignView {
    if pressed {
        launched(v, i)
    } else {
        v
    }
}

/// The missile that leaves base `i` when its key was or was not pressed.
pub open spec fn step_launch(v: CampaignView, i: int, pressed: bool) -> Seq<Launch> {
    if pressed && can_launch(v, i) {
        seq![Launch { base_index: i as usize, speed: launch_speed(i) }]
    } else {
        seq![]
    }
}

/// The campaign after the fire keys of the three bases, in base order.
pub open spec fn fired(v: CampaignView, z: bool, x: bool, c: bool) -> CampaignView {
    if v.can_fire() {
        fire_step(fire_step(fire_step(v, 0, z), 1, x), 2, c)
    } else {
        v
    }
}

/// The missiles that leave the bases for the fire keys, in base order.
pub open spec fn fire_launches(v: CampaignView, z: bool, x: bool, c: bool) -> Seq<Launch> {
    if v.can_fire() {
        let v1 = fire_step(v, 0, z);
        let v2 = fire_step(v1, 1, x);
        step_launch(v, 0, z) + step_launch(v1, 1, x) + step_launch(v2, 2, c)
    } else {
        seq![]
    }
}

/// The campaign at the start of a wave: every base rebuilt and restocked,
/// and the wave's enemies still to come.
pub open spec fn wave_begun(v: CampaignView) -> CampaignView {
    CampaignView {
        bases: seq![full_base(v.ammo_per_base), full_base(v.ammo_per_base), full_base(v.ammo_per_base)],
        enemies_to_spawn: wave_size(v.wave),
        enemies_spawned: 0,
        ..v
    }
}

/// The campaign once a new enemy missile has been given a target: the
/// game is over when no site stood to aim at.
pub open spec fn target_drawn(v: CampaignView) -> CampaignView {
    CampaignView { game_over: v.game_over || target_slots(v).len() == 0, ..v }
}

/// The campaign once one more enemy missile of the wave is counted.
pub open spec fn spawn_counted(v: CampaignView) -> CampaignView {
    CampaignView { enemies_spawned: v.enemies_spawned + 1, ..v }
}

/// The campaign when the intermission ends: the next wave begins.
pub open spec fn next_wave_begun(v: CampaignView) -> CampaignView {
    wave_begun(CampaignView { wave: v.wave + 1, intermission: false, ..v })
}

/// The points won at the end of a wave, before the multiplier: a bonus per
/// standing city and per unused missile of a standing base.
pub open spec fn wave_bonus(v: CampaignView) -> nat {
    (CITY_BONUS as nat) * alive_cities(v.cities) + (MISSILE_BONUS as nat) * unused_missiles(v.bases)
}

/// The campaign at the end of a wave: the city bonus is won, then the
/// missile bonus, and the intermission begins. Nothing changes once the
/// game is over.
pub open spec fn wave_finished(v: CampaignView) -> CampaignView {
    if v.game_over {
        v
    } else {
        let v1 = awarded(v, (CITY_BONUS as nat) * alive_cities(v.cities));
        let v2 = awarded(v1, (MISSILE_BONUS as nat) * unused_missiles(v.bases));
        CampaignView { intermission: true, ..v2 }
    }
}

/// Slots in `city_slots` name standing cities, and every standing city has one.
pub proof fn lemma_city_slots(c: Seq<City>)
    requires
        c.len() <= usize::MAX,
    ensures
        forall|k: int| 0 <= k < city_slots(c).len() ==> {
            let s = #[trigger] city_slots(c)[k];
            s.kind == SiteKind::City && s.index < c.len() && c[s.index as int].alive
        },
        forall|i: int| 0 <= i < c.len() && #[trigger] c[i].alive ==> city_slots(c).contains(
            TargetSlot { kind: SiteKind::City, index: i as usize },
        ),
    decreases c.len(),
{
    if c.len() > 0 {
        let p = c.drop_last();
        lemma_city_slots(p);
        assert forall|i: int| 0 <= i < c.len() && #[trigger] c[i].alive implies city_slots(c).contains(
            TargetSlot { kind: SiteKind::City, index: i as usize },
        ) by {
            let t = TargetSlot { kind: SiteKind::City, index: i as usize };
            if i < c.len() - 1 {
                assert(p[i] == c[i]);
                let k = choose|k: int| 0 <= k < city_slots(p).len() && city_slots(p)[k] == t;
                assert(city_slots(c)[k] == t);
            } else {
                assert(city_slots(c)[city_slots(p).len() as int] == t);
            }
        }
        assert forall|k: int| 0 <= k < city_slots(c).len() implies {
            let s = #[trigger] city_slots(c)[k];
            s.kind == SiteKind::City && s.index < c.len() && c[s.index as int].alive
        } by {
            if k < city_slots(p).len() {
                assert(city_slots(c)[k] == city_slots(p)[k]);
                assert(p[city_slots(p)[k].index as int] == c[city_slots(p)[k].index as int]);
            } else {
                assert(c.last().alive);
                assert(city_slots(c)[k] == TargetSlot { kind: SiteKind::City, index: (c.len() - 1) as usize });
            }
        }
    }
}

/// Slots in `base_slots` name standing bases, and every standing base has one.
pub proof fn lemma_base_slots(b: Seq<Base>)
    requires
        b.len() <= usize::MAX,
    ensures
        forall|k: int| 0 <= k < base_slots(b).len() ==> {
            let s = #[trigger] base_slots(b)[k];
            s.kind == SiteKind::Base && s.index < b.len() && b[s.index as int].alive
        },
        forall|i: int| 0 <= i < b.len() && #[trigger] b[i].alive ==> base_slots(b).contains(
            TargetSlot { kind: SiteKind::Base, index: i as usize },
        ),
    decreases b.len(),
{
    if b.len() > 0 {
        let p = b.drop_last();
        lemma_base_slots(p);
        assert forall|i: int| 0 <= i < b.len() && #[trigger] b[i].alive implies base_slots(b).contains(
            TargetSlot { kind: SiteKind::Base, index: i as usize },
        ) by {
            let t = TargetSlot { kind: SiteKind::Base, index: i as usize };
            if i < b.len() - 1 {
                assert(p[i] == b[i]);
                let k = choose|k: int| 0 <= k < base_slots(p).len() && base_slots(p)[k] == t;
                assert(base_slots(b)[k] == t);
            } else {
                assert(base_slots(b)[base_slots(p).len() as int] == t);
            }
        }
        assert forall|k: int| 0 <= k < base_slots(b).len() implies {
            let s = #[trigger] base_slots(b)[k];
            s.kind == SiteKind::Base && s.index < b.len() && b[s.index as int].alive
        } by {
            if k < base_slots(p).len() {
                assert(base_slots(b)[k] == base_slots(p)[k]);
                assert(p[base_slots(p)[k].index as int] == b[base_slots(p)[k].index as int]);
            } else {
                assert(b.last().alive);
                assert(base_slots(b)[k] == TargetSlot { kind: SiteKind::Base, index: (b.len() - 1) as usize });
            }
        }
    }
}

/// Law: enemy missiles may aim at exactly the standing sites.
pub proof fn law_targets_are_standing_sites(v: CampaignView, s: TargetSlot)
    requires
        v.wf(),
    ensures
        target_slots(v).contains(s) <==> slot_stands(v, s),
{
    lemma_city_slots(v.cities);
    lemma_base_slots(v.bases);
    let cs = city_slots(v.cities);
    let bs = base_slots(v.bases);
    if target_slots(v).contains(s) {
        let k = choose|k: int| 0 <= k < target_slots(v).len() && target_slots(v)[k] == s;
        if k < cs.len() {
            assert(cs[k] == s);
        } else {
            assert(bs[k - cs.len()] == s);
        }
    }
    if slot_stands(v, s) {
        match s.kind {
            SiteKind::City => {
                let t = TargetSlot { kind: SiteKind::City, index: s.index };
                assert(t == s);
                assert(v.cities[s.index as int].alive);
                let k = choose|k: int| 0 <= k < cs.len() && cs[k] == s;
                assert(target_slots(v)[k] == s);
            },
            SiteKind::Base => {
                let t = TargetSlot { kind: SiteKind::Base, index: s.index };
                assert(t == s);
                assert(v.bases[s.index as int].alive);
                let k = choose|k: int| 0 <= k < bs.len() && bs[k] == s;
                assert(target_slots(v)[cs.len() + k] == s);
            },
        }
    }
}

/// A random index below `len`, drawn by `macroquad::rand::gen_range(0, len)`
/// on `i32` (quad-rand's generator). The contract claims only that the
/// result lies in `0..len`: quad-rand scales a random `u32` by `2^-32` into
/// `[0, 1)`, multiplies by `len` in `f64` and truncates, which stays below
/// `len` for every `len` up to `i32::MAX`. Which index comes out is chance.
#[verifier::external_body]
fn random_index(len: usize) -> (i: usize)
    requires
        0 < len <= i32::MAX,
    ensures
        i < len,
{
    macroquad::rand::gen_range(0, len as i32) as usize
}

/// The slot at index `i` of `slots`.
pub fn slot_at(slots: &[TargetSlot], i: usize) -> (r: TargetSlot)
    requires
        i < slots@.len(),
    ensures
        r == slots@[i as int],
{
    slots[i]
}

/// One of `slots`, drawn at random by `random_index(slots.len())`;
/// `None` when there is none.
pub fn pick_random_slot(slots: &[TargetSlot]) -> (r: Option<TargetSlot>)
    requires
        slots@.len() <= i32::MAX,
    ensures
        r is None <==> slots@.len() == 0,
        r matches Some(s) ==> slots@.contains(s),
{
    if slots.len() == 0 {
        None
    } else {
        Some(slot_at(slots, random_index(slots.len())))
    }
}


/// A higher score never has a lower rebuild threshold.
pub proof fn lemma_restore_threshold_monotone(a: nat, b: nat)
    requires
        a <= b,
    ensures
        restore_threshold(a) <= restore_threshold(b),
{
    let step = CITY_RESTORE_STEP as nat;
    assert(a / step <= b / step) by (nonlinear_arith)
        requires a <= b, step == 10000;
    assert(step * (a / step + 1) <= step * (b / step + 1)) by (nonlinear_arith)
        requires a / step <= b / step, step == 10000;
}

impl Campaign {
    /// The pause key: pauses or resumes the game, unless it is over.
    pub fn toggle_pause(&mut self)
        requires
            old(self).wf(),
        ensures
            final(self).wf(),
            final(self)@ == pause_toggled(old(self)@),
    {
        if !self.game_over {
            self.paused = !self.paused;
        }
    }

    /// Asks base `base_index` to fire: if it stands and has a missile left,
    /// one missile leaves it and its speed is returned.
    pub fn launch_player_missile(&mut self, base_index: usize) -> (r: Option<u32>)
        requires
            old(self).wf(),
        ensures
            final(self).wf(),
            final(self)@ == launched(old(self)@, base_index as int),
            r == (if can_launch(old(self)@, base_index as int) {
                Some(launch_speed(base_index as int))
            } else {
                None
            }),
    {
        if base_index >= BASE_COUNT {
            return None;
        }
        let base = self.bases[base_index];
        if !base.alive || base.ammo <= 0 {
            return None;
        }
        self.bases[base_index] = Base { ammo: base.ammo - 1, alive: true };
        assert(self@.bases =~= launched(old(self)@, base_index as int).bases);
        let speed: u32 = if base_index == 1 {
            850
        } else {
            700
        };
        Some(speed)
    }

    /// The fire keys of the three bases (Z, X, C): when firing is allowed,
    /// each pressed key asks its base to fire, in base order.
    pub fn fire(&mut self, z: bool, x: bool, c: bool) -> (r: Vec<Launch>)
        requires
            old(self).wf(),
        ensures
            final(self).wf(),
            final(self)@ == fired(old(self)@, z, x, c),
            r@ == fire_launches(old(self)@, z, x, c),
    {
        let mut launches: Vec<Launch> = Vec::new();
        if self.paused || self.game_over || self.intermission {
            return launches;
        }
        let keys = [z, x, c];
        let ghost v0 = self@;
        let mut i: usize = 0;
        while i < BASE_COUNT
            invariant
                i <= BASE_COUNT,
                self.wf(),
                keys@ == seq![z, x, c],
                v0 == old(self)@,
                v0.can_fire(),
                i == 0 ==> self@ == v0 && launches@ == Seq::<Launch>::empty(),
                i == 1 ==> self@ == fire_step(v0, 0, z) && launches@ == step_launch(v0, 0, z),
                i == 2 ==> self@ == fire_step(fire_step(v0, 0, z), 1, x) && launches@
                    == step_launch(v0, 0, z) + step_launch(fire_step(v0, 0, z), 1, x),
                i == 3 ==> self@ == fired(v0, z, x, c) && launches@ == fire_launches(v0, z, x, c),
            decreases BASE_COUNT - i,
        {
            let ghost before = self@;
            let ghost before_launches = launches@;
            if keys[i] {
                if let Some(speed) = self.launch_player_missile(i) {
                    launches.push(Launch { base_index: i, speed });
                }
            }
            assert(self@ == fire_step(before, i as int, keys@[i as int]));
            assert(launches@ =~= before_launches + step_launch(before, i as int, keys@[i as int]));
            i = i + 1;
        }
        launches
    }

    /// An enemy missile hits `slot`: the site is lost, and the game is over
    /// once no city stands.
    pub fn destroy_site(&mut self, slot: TargetSlot)
        requires
            old(self).wf(),
        ensures
            final(self).wf(),
            final(self)@ == site_destroyed(old(self)@, slot),
    {
        match slot.kind {
            SiteKind::Base => {
                if slot.index < BASE_COUNT {
                    self.bases[slot.index] = Base { ammo: 0, alive: false };
                }
            },
            SiteKind::City => {
                if slot.index < CITY_COUNT {
                    self.cities[slot.index] = City { alive: false };
                }
            },
        }
        if self.living_city_count() == 0 {
            self.game_over = true;
        }
        assert(self@.bases =~= site_destroyed(old(self)@, slot).bases);
        assert(self@.cities =~= site_destroyed(old(self)@, slot).cities);
    }

    /// The sites that enemy missiles may aim at: the standing cities, then
    /// the standing bases, each in index order.
    pub fn available_target_slots(&self) -> (r: Vec<TargetSlot>)
        requires
            self.wf(),
        ensures
            r@ == target_slots(self@),
    {
        let mut slots: Vec<TargetSlot> = Vec::new();
        let mut i: usize = 0;
        while i < CITY_COUNT
            invariant
                i <= CITY_COUNT,
                self.wf(),
                slots@ == city_slots(self@.cities.take(i as int)),
            decreases CITY_COUNT - i,
        {
            let ghost t = self@.cities.take(i + 1);
            assert(t.drop_last() =~= self@.cities.take(i as int));
            if self.cities[i].alive {
                slots.push(TargetSlot { kind: SiteKind::City, index: i });
            }
            i = i + 1;
        }
        assert(self@.cities.take(CITY_COUNT as int) =~= self@.cities);
        let ghost cs = slots@;
        let mut j: usize = 0;
        while j < BASE_COUNT
            invariant
                j <= BASE_COUNT,
                self.wf(),
                cs == city_slots(self@.cities),
                slots@ == cs + base_slots(self@.bases.take(j as int)),
            decreases BASE_COUNT - j,
        {
            let ghost t = self@.bases.take(j + 1);
            assert(t.drop_last() =~= self@.bases.take(j as int));
            if self.bases[j].alive {
                slots.push(TargetSlot { kind: SiteKind::Base, index: j });
            }
            assert(slots@ =~= cs + base_slots(t));
            j = j + 1;
        }
        assert(self@.bases.take(BASE_COUNT as int) =~= self@.bases);
        slots
    }

    /// A standing site drawn at random for an enemy missile; `None` when no
    /// site stands.
    pub fn random_target_slot(&self) -> (r: Option<TargetSlot>)
        requires
            self.wf(),
        ensures
            r is None <==> target_slots(self@).len() == 0,
            r matches Some(s) ==> target_slots(self@).contains(s),
    {
        let slots = self.available_target_slots();
        proof {
            lemma_city_slots(self@.cities);
            lemma_base_slots(self@.bases);
            lemma_slots_len(self@);
        }
        pick_random_slot(slots.as_slice())
    }

    /// The target of a new enemy missile: a standing site drawn at random.
    /// When no site stands there is no target and the game is over.
    pub fn spawn_enemy_missile(&mut self) -> (r: Option<TargetSlot>)
        requires
            old(self).wf(),
        ensures
            final(self).wf(),
            final(self)@ == (CampaignView { game_over: old(self)@.game_over || r is None, ..old(self)@ }),
            r is None <==> target_slots(old(self)@).len() == 0,
            r matches Some(s) ==> target_slots(old(self)@).contains(s),
    {
        let r = self.random_target_slot();
        if r.is_none() {
            self.game_over = true;
        }
        r
    }

    /// Counts one more enemy missile of the wave as launched.
    pub fn count_spawn(&mut self)
        requires
            old(self).wf(),
            old(self)@.enemies_spawned < old(self)@.enemies_to_spawn,
        ensures
            final(self).wf(),
            final(self)@ == spawn_counted(old(self)@),
    {
        self.enemies_spawned = self.enemies_spawned + 1;
    }

    /// Enemy missiles caught in the player's blasts: each is worth
    /// `INTERCEPT_POINTS`, multiplied by the wave's multiplier.
    pub fn score_interceptions(&mut self, hits: u32)
        requires
            old(self).wf(),
            award_fits(old(self)@, (INTERCEPT_POINTS as nat) * (hits as nat)),
        ensures
            final(self).wf(),
            final(self)@ == awarded(old(self)@, (INTERCEPT_POINTS as nat) * (hits as nat)),
    {
        proof {
            let v = old(self)@;
            let pts: nat = (INTERCEPT_POINTS as nat) * (hits as nat);
            let m = multiplier(v.wave);
            assert(pts * m >= pts) by (nonlinear_arith)
                requires m >= 1;
            let total: nat = v.score + (INTERCEPT_POINTS as nat) * (hits as nat) * multiplier(v.wave);
            assert(total <= restore_threshold(total)) by (nonlinear_arith)
                requires restore_threshold(total) == 10000 * (total / 10000 + 1);
        }
        if hits > 0 {
            self.award_points(INTERCEPT_POINTS * hits);
        } else {
            proof {
                let v = old(self)@;
                let step = CITY_RESTORE_STEP as nat;
                assert(0nat * multiplier(v.wave) == 0) by (nonlinear_arith);
                let a = awarded(v, 0);
                assert(a.score == v.score);
                assert((v.score / step - v.score / step) as nat == 0);
                assert(revive_times(v.cities, 0) == v.cities);
                assert(a.cities == v.cities);
                assert(a == v);
            }
        }
    }

    /// Whether the wave's end bonus can be won without the score passing the
    /// last rebuild threshold that a `u32` holds.
    pub fn wave_bonus_fits(&self) -> (r: bool)
        requires
            self.wf(),
        ensures
            r == award_fits(self@, wave_bonus(self@)),
    {
        let saved = self.living_city_count() as u64;
        proof {
            lemma_alive_cities_bound(self@.cities);
        }
        let unused = self.unused_missile_count();
        let bonus: u64 = 100 * saved + 5 * unused;
        let m = self.score_multiplier() as u64;
        assert(bonus * m <= 0x10_0000_0000 * 6) by (nonlinear_arith)
            requires bonus <= 0x10_0000_0000, m <= 6;
        let total: u64 = self.score as u64 + bonus * m;
        let step: u64 = 10000;
        assert(step * (total / step + 1) <= total + step) by (nonlinear_arith)
            requires step == 10000;
        let threshold: u64 = step * (total / step + 1);
        threshold <= u32::MAX as u64
    }

    /// The missiles left in the standing bases.
    pub fn unused_missile_count(&self) -> (n: u64)
        requires
            self.wf(),
        ensures
            n == unused_missiles(self@.bases),
            n <= 3 * self@.ammo_per_base,
    {
        let mut n: u64 = 0;
        let mut i: usize = 0;
        while i < BASE_COUNT
            invariant
                i <= BASE_COUNT,
                self.wf(),
                n == unused_missiles(self@.bases.take(i as int)),
                n <= i * self@.ammo_per_base,
            decreases BASE_COUNT - i,
        {
            assert(self@.bases.take(i + 1).drop_last() =~= self@.bases.take(i as int));
            let ghost a = self@.ammo_per_base as int;
            let ghost k = i as int;
            assert((k + 1) * a == k * a + a && k * a <= 3 * 0x7fff_ffff) by (nonlinear_arith)
                requires 0 <= k <= 2, 0 <= a <= 0x7fff_ffff;
            let base = self.bases[i];
            if base.alive && base.ammo > 0 {
                n = n + base.ammo as u64;
            }
            i = i + 1;
        }
        assert(self@.bases.take(BASE_COUNT as int) =~= self@.bases);
        n
    }

    /// The end of a wave: the bonus for the standing cities is won, then the
    /// bonus for the unused missiles, and the intermission begins. Returns
    /// whether it began; once the game is over nothing changes.
    pub fn finish_wave(&mut self) -> (r: bool)
        requires
            old(self).wf(),
            !old(self)@.game_over ==> award_fits(old(self)@, wave_bonus(old(self)@)),
        ensures
            final(self).wf(),
            final(self)@ == wave_finished(old(self)@),
            r == !old(self)@.game_over,
    {
        if self.game_over {
            return false;
        }
        let ghost v = self@;
        let saved = self.living_city_count() as u32;
        proof {
            lemma_alive_cities_bound(v.cities);
        }
        let unused = self.unused_missile_count();
        let ghost m = multiplier(v.wave);
        let ghost p1: nat = (CITY_BONUS as nat) * (saved as nat);
        let ghost p2: nat = (MISSILE_BONUS as nat) * (unused as nat);
        assert(p1 * m + p2 * m == (p1 + p2) * m) by (nonlinear_arith);
        assert(p1 * m <= (p1 + p2) * m) by (nonlinear_arith);
        assert(p2 <= p2 * m) by (nonlinear_arith)
            requires m >= 1;
        proof {
            lemma_restore_threshold_monotone(v.score + p1 * m, v.score + (p1 + p2) * m);
            let total: nat = v.score + (p1 + p2) * m;
            assert(total <= restore_threshold(total)) by (nonlinear_arith)
                requires restore_threshold(total) == 10000 * (total / 10000 + 1);
        }
        let unused32 = unused as u32;
        self.award_points(CITY_BONUS * saved);
        self.award_points(MISSILE_BONUS * unused32);
        self.intermission = true;
        true
    }

    /// Whether the wave is over: all its enemies were launched, none is in
    /// flight, and no intermission is under way yet.
    pub fn wave_complete(&self, enemies_in_flight: usize) -> (r: bool)
        ensures
            r == (self@.enemies_spawned == self@.enemies_to_spawn && enemies_in_flight == 0
                && !self@.intermission),
    {
        self.enemies_spawned == self.enemies_to_spawn && enemies_in_flight == 0 && !self.intermission
    }

    /// The end of the intermission: the next wave begins, with every base
    /// rebuilt and restocked. Lost cities stay lost.
    pub fn next_wave(&mut self)
        requires
            old(self).wf(),
            wave_size(old(self)@.wave + 1) <= u32::MAX,
        ensures
            final(self).wf(),
            final(self)@ == next_wave_begun(old(self)@),
    {
        self.wave = self.wave + 1;
        self.intermission = false;
        let base = Base { ammo: self.ammo_per_base, alive: true };
        self.bases = [base, base, base];
        self.enemies_to_spawn = 12 + self.wave * 3;
        self.enemies_spawned = 0;
        assert(self@.bases =~= next_wave_begun(old(self)@).bases);
    }

    /// Whether the wave still has enemy missiles to launch.
    pub fn spawns_pending(&self) -> (r: bool)
        ensures
            r == (self@.enemies_spawned < self@.enemies_to_spawn),
    {
        self.enemies_spawned < self.enemies_to_spawn
    }

    /// The score.
    pub fn score(&self) -> (r: u32)
        ensures
            r == self@.score,
    {
        self.score
    }

    /// The current wave, counted from one.
    pub fn wave(&self) -> (r: u32)
        ensures
            r == self@.wave,
    {
        self.wave
    }

    /// The score at which the next lost city is rebuilt.
    pub fn next_city_restore_score(&self) -> (r: u32)
        ensures
            r == self@.next_city_restore_score,
    {
        self.next_city_restore_score
    }

    /// Base `index`.
    pub fn base(&self, index: usize) -> (r: Base)
        requires
            index < BASE_COUNT,
        ensures
            r == self@.bases[index as int],
    {
        self.bases[index]
    }

    /// City `index`.
    pub fn city(&self, index: usize) -> (r: City)
        requires
            index < CITY_COUNT,
        ensures
            r == self@.cities[index as int],
    {
        self.cities[index]
    }

    /// Enemy missiles in the current wave.
    pub fn enemies_to_spawn(&self) -> (r: u32)
        ensures
            r == self@.enemies_to_spawn,
    {
        self.enemies_to_spawn
    }

    /// Enemy missiles of the current wave launched so far.
    pub fn enemies_spawned(&self) -> (r: u32)
        ensures
            r == self@.enemies_spawned,
    {
        self.enemies_spawned
    }

    /// Whether the game is paused.
    pub fn is_paused(&self) -> (r: bool)
        ensures
            r == self@.paused,
    {
        self.paused
    }

    /// Whether the game is over.
    pub fn is_game_over(&self) -> (r: bool)
        ensures
            r == self@.game_over,
    {
        self.game_over
    }

    /// Whether the intermission between two waves is under way.
    pub fn in_intermission(&self) -> (r: bool)
        ensures
            r == self@.intermission,
    {
        self.intermission
    }
}

/// There are no more target slots than sites.
proof fn lemma_slots_len(v: CampaignView)
    requires
        v.wf(),
    ensures
        target_slots(v).len() <= 9,
{
    lemma_city_slots_len(v.cities);
    lemma_base_slots_len(v.bases);
}

proof fn lemma_city_slots_len(c: Seq<City>)
    ensures
        city_slots(c).len() <= c.len(),
    decreases c.len(),
{
    if c.len() > 0 {
        lemma_city_slots_len(c.drop_last());
    }
}

proof fn lemma_base_slots_len(b: Seq<Base>)
    ensures
        base_slots(b).len() <= b.len(),
    decreases b.len(),
{
    if b.len() > 0 {
        lemma_base_slots_len(b.drop_last());
    }
}


/// The missiles held by all bases.
pub open spec fn total_ammo(b: Seq<Base>) -> int
    decreases b.len(),
{
    if b.len() == 0 {
        0
    } else {
        total_ammo(b.drop_last()) + b.last().ammo
    }
}

/// The campaign after the pause key.
pub open spec fn pause_toggled(v: CampaignView) -> CampaignView {
    if v.game_over {
        v
    } else {
        CampaignView { paused: !v.paused, ..v }
    }
}

proof fn lemma_total_ammo_update(b: Seq<Base>, i: int, x: Base)
    requires
        0 <= i < b.len(),
    ensures
        total_ammo(b.update(i, x)) == total_ammo(b) - b[i].ammo + x.ammo,
    decreases b.len(),
{
    let u = b.update(i, x);
    if i == b.len() - 1 {
        assert(u.drop_last() =~= b.drop_last());
    } else {
        lemma_total_ammo_update(b.drop_last(), i, x);
        assert(u.drop_last() =~= b.drop_last().update(i, x));
    }
}

proof fn lemma_fire_step(v: CampaignView, i: int, pressed: bool)
    requires
        v.wf(),
        0 <= i < BASE_COUNT,
    ensures
        fire_step(v, i, pressed).wf(),
        total_ammo(fire_step(v, i, pressed).bases) + step_launch(v, i, pressed).len()
            == total_ammo(v.bases),
        forall|j: int| 0 <= j < BASE_COUNT && j != i ==> fire_step(v, i, pressed).bases[j] == v.bases[j],
        fire_step(v, i, pressed).cities == v.cities,
        fire_step(v, i, pressed).score == v.score,
{
    if pressed && can_launch(v, i) {
        lemma_total_ammo_update(v.bases, i, Base { ammo: (v.bases[i].ammo - 1) as i32, alive: true });
    }
}

/// Law: the fire keys spend exactly one missile for each missile that leaves
/// a base, and nothing else of the campaign changes but the bases' stocks.
pub proof fn law_fire_spends_one_missile_per_launch(v: CampaignView, z: bool, x: bool, c: bool)
    requires
        v.wf(),
    ensures
        fired(v, z, x, c).wf(),
        total_ammo(fired(v, z, x, c).bases) + fire_launches(v, z, x, c).len() == total_ammo(v.bases),
        fired(v, z, x, c).cities == v.cities,
        fired(v, z, x, c).score == v.score,
        fire_launches(v, z, x, c).len() <= 3,
{
    if v.can_fire() {
        let v1 = fire_step(v, 0, z);
        let v2 = fire_step(v1, 1, x);
        lemma_fire_step(v, 0, z);
        lemma_fire_step(v1, 1, x);
        lemma_fire_step(v2, 2, c);
    }
}

/// Law: while the game is paused or over, or an intermission is under way,
/// the fire keys launch nothing and change nothing.
pub proof fn law_no_fire_while_halted(v: CampaignView, z: bool, x: bool, c: bool)
    requires
        v.paused || v.game_over || v.intermission,
    ensures
        fired(v, z, x, c) == v,
        fire_launches(v, z, x, c).len() == 0,
{
}

/// Law: pressing the pause key twice gives back the same campaign.
pub proof fn law_pause_twice_is_identity(v: CampaignView)
    ensures
        pause_toggled(pause_toggled(v)) == v,
{
}

/// Law: the score multiplier lies between one and `MAX_MULTIPLIER`, and a
/// later wave never has a lower one.
pub proof fn law_multiplier_bounded_and_monotone(w1: nat, w2: nat)
    requires
        w1 <= w2,
    ensures
        1 <= multiplier(w1) <= MAX_MULTIPLIER,
        multiplier(w1) <= multiplier(w2),
{
    let a: nat = if w1 >= 1 { (w1 - 1) as nat } else { 0 };
    let b: nat = if w2 >= 1 { (w2 - 1) as nat } else { 0 };
    assert(a / 2 <= b / 2) by (nonlinear_arith)
        requires a <= b;
}

/// Law: winning points never lowers the score, and for each multiple of
/// `CITY_RESTORE_STEP` that the score passes one lost city is rebuilt, as
/// long as any city is lost.
pub proof fn law_points_rebuild_cities(v: CampaignView, base_points: nat)
    requires
        v.wf(),
        award_fits(v, base_points),
    ensures
        awarded(v, base_points).score >= v.score,
        awarded(v, base_points).wf(),
        ({
            let a = awarded(v, base_points);
            let crossed = a.score / (CITY_RESTORE_STEP as nat) - v.score / (CITY_RESTORE_STEP as nat);
            alive_cities(a.cities) == if alive_cities(v.cities) + crossed < CITY_COUNT {
                alive_cities(v.cities) + crossed
            } else {
                CITY_COUNT as int
            }
        }),
{
    let m = multiplier(v.wave);
    let step = CITY_RESTORE_STEP as nat;
    let a = awarded(v, base_points);
    assert(base_points * m >= 0) by (nonlinear_arith);
    assert(v.score / step <= a.score / step) by (nonlinear_arith)
        requires v.score <= a.score, step == 10000;
    let k = (a.score / step - v.score / step) as nat;
    lemma_revive_times(v.cities, k);
    lemma_alive_cities_bound(v.cities);
    assert forall|i: int| 0 <= i < a.bases.len() implies 0 <= #[trigger] a.bases[i].ammo <= a.ammo_per_base by {
        assert(a.bases[i] == v.bases[i]);
    }
}

/// Law: an enemy impact never revives a site or ends a game that was on
/// because a city still stands; the game is over after it exactly when it
/// was over before or no city stands.
pub proof fn law_game_over_when_all_cities_lost(v: CampaignView, slot: TargetSlot)
    requires
        v.wf(),
    ensures
        site_destroyed(v, slot).game_over <==> (v.game_over || alive_cities(site_destroyed(v, slot).cities) == 0),
        alive_cities(site_destroyed(v, slot).cities) <= alive_cities(v.cities),
        site_destroyed(v, slot).wf(),
{
    let d = site_destroyed(v, slot);
    if slot.kind == SiteKind::City && slot.index < CITY_COUNT {
        lemma_alive_cities_update(v.cities, slot.index as int, City { alive: false });
    }
    assert forall|i: int| 0 <= i < d.bases.len() implies 0 <= #[trigger] d.bases[i].ammo <= d.ammo_per_base by {
        if slot.kind == SiteKind::Base && slot.index < BASE_COUNT && i == slot.index {
        } else {
            assert(d.bases[i] == v.bases[i]);
        }
    }
}

/// Law: each wave restores every base with a full stock, keeps the score
/// and the lost cities, and holds three more enemy missiles than the one
/// before.
pub proof fn law_next_wave_rebuilds_bases(v: CampaignView)
    requires
        v.wf(),
        wave_size(v.wave + 1) <= u32::MAX,
    ensures
        next_wave_begun(v).wf(),
        forall|i: int| 0 <= i < BASE_COUNT ==> #[trigger] next_wave_begun(v).bases[i] == full_base(v.ammo_per_base),
        total_ammo(next_wave_begun(v).bases) == 3 * v.ammo_per_base,
        next_wave_begun(v).cities == v.cities,
        next_wave_begun(v).score == v.score,
        next_wave_begun(v).enemies_to_spawn == v.enemies_to_spawn + 3,
{
    let b = next_wave_begun(v).bases;
    assert(b.drop_last() =~= seq![full_base(v.ammo_per_base), full_base(v.ammo_per_base)]);
    assert(b.drop_last().drop_last() =~= seq![full_base(v.ammo_per_base)]);
    assert(b.drop_last().drop_last().drop_last() =~= Seq::<Base>::empty());
    let s1 = seq![full_base(v.ammo_per_base)];
    let s2 = seq![full_base(v.ammo_per_base), full_base(v.ammo_per_base)];
    assert(s1.drop_last() =~= Seq::<Base>::empty());
    assert(s2.drop_last() =~= s1);
    assert(b.drop_last() =~= s2);
    assert(total_ammo(Seq::<Base>::empty()) == 0);
    assert(total_ammo(s1) == v.ammo_per_base);
    assert(total_ammo(s2) == 2 * v.ammo_per_base);
}


/// The keys pressed in one frame that the rules read.
#[derive(Clone, Copy, Debug, PartialEq, Eq, Structural)]
pub struct FrameInput {
    /// The Q key: quit on the desktop, back to the title on the web.
    pub quit: bool,
    /// The pause key (Space or P).
    pub pause: bool,
    /// The fire key of the left base (Z).
    pub fire_left: bool,
    /// The fire key of the middle base (X).
    pub fire_middle: bool,
    /// The fire key of the right base (C).
    pub fire_right: bool,
}

/// What a frame's keys lead to.
#[derive(Debug)]
pub struct FrameOutcome {
    /// The player quits the program.
    pub quit: bool,
    /// The player leaves the campaign for the title screen.
    pub back: bool,
    /// The missiles that left the bases, in base order.
    pub launches: Vec<Launch>,
    /// The world moves on this frame: the game is neither paused nor over.
    pub advance: bool,
}

/// The campaign after a frame's keys: nothing changes when the player
/// quits; otherwise the pause key is handled first, then the fire keys.
pub open spec fn input_handled(v: CampaignView, input: FrameInput) -> CampaignView {
    if input.quit {
        v
    } else {
        let p = if input.pause { pause_toggled(v) } else { v };
        fired(p, input.fire_left, input.fire_middle, input.fire_right)
    }
}

impl Campaign {
    /// The keys of one frame. The Q key changes nothing and ends the frame
    /// at once: on the desktop it quits the program, on the web it leads
    /// back to the title screen. Otherwise the pause key is handled, then
    /// the fire keys, and the world moves on unless the game is paused or
    /// over.
    pub fn handle_input(&mut self, input: FrameInput, platform: Platform) -> (r: FrameOutcome)
        requires
            old(self).wf(),
        ensures
            final(self).wf(),
            final(self)@ == input_handled(old(self)@, input),
            r.quit == (input.quit && platform == Platform::Native),
            r.back == (input.quit && platform == Platform::Web),
            input.quit ==> r.launches@.len() == 0 && !r.advance,
            !input.quit ==> {
                let p = if input.pause { pause_toggled(old(self)@) } else { old(self)@ };
                &&& r.launches@ == fire_launches(p, input.fire_left, input.fire_middle, input.fire_right)
                &&& r.advance == (!final(self)@.paused && !final(self)@.game_over)
            },
    {
        if input.quit {
            let quit = match platform {
                Platform::Native => true,
                Platform::Web => false,
            };
            return FrameOutcome { quit, back: !quit, launches: Vec::new(), advance: false };
        }
        if input.pause {
            self.toggle_pause();
        }
        let launches = self.fire(input.fire_left, input.fire_middle, input.fire_right);
        let advance = !self.paused && !self.game_over;
        FrameOutcome { quit: false, back: false, launches, advance }
    }
}


/// Law: at the end of a wave the score grows by the wave bonus (a hundred
/// points per standing city and five per unused missile of a standing
/// base) times the wave's multiplier, and the intermission begins.
pub proof fn law_wave_bonus(v: CampaignView)
    requires
        v.wf(),
        !v.game_over,
        award_fits(v, wave_bonus(v)),
    ensures
        wave_finished(v).score == v.score + wave_bonus(v) * multiplier(v.wave),
        wave_finished(v).intermission,
        wave_finished(v).wf(),
{
    let m = multiplier(v.wave);
    let p1: nat = (CITY_BONUS as nat) * alive_cities(v.cities);
    let p2: nat = (MISSILE_BONUS as nat) * unused_missiles(v.bases);
    assert(p1 * m + p2 * m == (p1 + p2) * m) by (nonlinear_arith);
    assert(p1 * m <= (p1 + p2) * m) by (nonlinear_arith);
    lemma_restore_threshold_monotone(v.score + p1 * m, v.score + (p1 + p2) * m);
    law_points_rebuild_cities(v, p1);
    let v1 = awarded(v, p1);
    law_points_rebuild_cities(v1, p2);
}


/// One rule applied to a campaign within a frame of play.
#[derive(Clone, Copy, Debug, PartialEq, Eq, Structural)]
pub enum FrameStep {
    /// The frame's keys.
    Input(FrameInput),
    /// An enemy missile hits a site.
    Impact(TargetSlot),
    /// Enemy missiles caught in the player's blasts.
    Intercepts(u32),
    /// A new enemy missile is given a target.
    Target,
    /// A new enemy missile is counted.
    Spawned,
    /// The wave ends.
    FinishWave,
    /// The intermission ends and the next wave begins.
    NextWave,
}

/// The campaign after one step.
pub open spec fn step_applied(v: CampaignView, step: FrameStep) -> CampaignView {
    match step {
        FrameStep::Input(input) => input_handled(v, input),
        FrameStep::Impact(slot) => site_destroyed(v, slot),
        FrameStep::Intercepts(hits) => awarded(v, (INTERCEPT_POINTS as nat) * (hits as nat)),
        FrameStep::Target => target_drawn(v),
        FrameStep::Spawned => spawn_counted(v),
        FrameStep::FinishWave => wave_finished(v),
        FrameStep::NextWave => next_wave_begun(v),
    }
}

/// The step may be taken: it meets the `requires` of the operation that
/// makes it.
pub open spec fn step_allowed(v: CampaignView, step: FrameStep) -> bool {
    match step {
        FrameStep::Intercepts(hits) => award_fits(v, (INTERCEPT_POINTS as nat) * (hits as nat)),
        FrameStep::Spawned => v.enemies_spawned < v.enemies_to_spawn,
        FrameStep::FinishWave => !v.game_over ==> award_fits(v, wave_bonus(v)),
        FrameStep::NextWave => wave_size(v.wave + 1) <= u32::MAX,
        _ => true,
    }
}

/// The campaign after the steps, in order.
pub open spec fn steps_applied(v: CampaignView, steps: Seq<FrameStep>) -> CampaignView
    decreases steps.len(),
{
    if steps.len() == 0 {
        v
    } else {
        step_applied(steps_applied(v, steps.drop_last()), steps.last())
    }
}

/// Each of the steps may be taken where it comes.
pub open spec fn steps_allowed(v: CampaignView, steps: Seq<FrameStep>) -> bool
    decreases steps.len(),
{
    if steps.len() == 0 {
        true
    } else {
        steps_allowed(v, steps.drop_last()) && step_allowed(steps_applied(v, steps.drop_last()), steps.last())
    }
}

/// The number of waves that begin among the steps.
pub open spec fn next_wave_count(steps: Seq<FrameStep>) -> nat
    decreases steps.len(),
{
    if steps.len() == 0 {
        0
    } else {
        next_wave_count(steps.drop_last()) + if steps.last() is NextWave {
            1nat
        } else {
            0nat
        }
    }
}

/// One step keeps the invariant, never lowers the score, never ends a game
/// over, and changes the wave only when the next wave begins, by one.
proof fn lemma_step(v: CampaignView, step: FrameStep)
    requires
        v.wf(),
        step_allowed(v, step),
    ensures
        step_applied(v, step).wf(),
        step_applied(v, step).score >= v.score,
        step_applied(v, step).wave == v.wave + if step is NextWave { 1nat } else { 0nat },
        v.game_over ==> step_applied(v, step).game_over,
{
    match step {
        FrameStep::Input(input) => {
            if !input.quit {
                let p = if input.pause { pause_toggled(v) } else { v };
                assert(p.wf());
                law_fire_spends_one_missile_per_launch(p, input.fire_left, input.fire_middle, input.fire_right);
                if p.can_fire() {
                    let f = fire_step(p, 0, input.fire_left);
                    let g = fire_step(f, 1, input.fire_middle);
                    assert(f.wave == p.wave && f.game_over == p.game_over);
                    assert(g.wave == p.wave && g.game_over == p.game_over);
                }
            }
        },
        FrameStep::Impact(slot) => {
            law_game_over_when_all_cities_lost(v, slot);
        },
        FrameStep::Intercepts(hits) => {
            law_points_rebuild_cities(v, (INTERCEPT_POINTS as nat) * (hits as nat));
        },
        FrameStep::Target => {},
        FrameStep::Spawned => {},
        FrameStep::FinishWave => {
            if !v.game_over {
                law_wave_bonus(v);
                let p1: nat = (CITY_BONUS as nat) * alive_cities(v.cities);
                let m = multiplier(v.wave);
                assert(p1 * m >= 0 && wave_bonus(v) * m >= 0) by (nonlinear_arith);
            }
        },
        FrameStep::NextWave => {
            law_next_wave_rebuilds_bases(v);
        },
    }
}

/// Law: over any run of steps of play, each meeting the `requires` of its
/// operation, the invariant holds, the score never falls, a game that is
/// over stays over, and the wave grows exactly by the number of waves
/// begun. A frame begins at most one wave, so within a frame the wave grows
/// by at most one.
pub proof fn law_frame_keeps_invariant(v: CampaignView, steps: Seq<FrameStep>)
    requires
        v.wf(),
        steps_allowed(v, steps),
    ensures
        steps_applied(v, steps).wf(),
        steps_applied(v, steps).score >= v.score,
        steps_applied(v, steps).wave == v.wave + next_wave_count(steps),
        steps_applied(v, steps).enemies_spawned <= steps_applied(v, steps).enemies_to_spawn,
        v.game_over ==> steps_applied(v, steps).game_over,
        next_wave_count(steps) <= 1 ==> (steps_applied(v, steps).wave == v.wave
            || steps_applied(v, steps).wave == v.wave + 1),
    decreases steps.len(),
{
    if steps.len() > 0 {
        law_frame_keeps_invariant(v, steps.drop_last());
        lemma_step(steps_applied(v, steps.drop_last()), steps.last());
    }
}


/// Law: a rebuild restores exactly the lost city of lowest index and leaves
/// every other city as it was; with no city lost it changes nothing.
pub proof fn law_rebuild_restores_lowest_lost_city(c: Seq<City>, i: int)
    requires
        0 <= i < c.len(),
        !c[i].alive,
        forall|j: int| 0 <= j < i ==> #[trigger] c[j].alive,
    ensures
        revive_one(c).len() == c.len(),
        revive_one(c)[i].alive,
        forall|j: int| 0 <= j < c.len() && j != i ==> #[trigger] revive_one(c)[j] == c[j],
{
    assert(is_first_lost(c, i));
    assert forall|k: int| is_first_lost(c, k) implies k == i by {
        if k < i {
            assert(c[k].alive);
        } else if k > i {
            assert(c[i].alive);
        }
    }
}

/// Law: with every city standing, a rebuild changes nothing.
pub proof fn law_rebuild_without_loss(c: Seq<City>)
    requires
        forall|j: int| 0 <= j < c.len() ==> #[trigger] c[j].alive,
    ensures
        revive_one(c) == c,
{
    assert(!exists|k: int| is_first_lost(c, k));
}

/// Law: winning points that pass exactly one multiple of
/// `CITY_RESTORE_STEP` rebuilds the lost city of lowest index, and only it.
pub proof fn law_award_rebuilds_lowest_lost_city(v: CampaignView, base_points: nat, i: int)
    requires
        v.wf(),
        award_fits(v, base_points),
        awarded(v, base_points).score / (CITY_RESTORE_STEP as nat) == v.score / (CITY_RESTORE_STEP as nat) + 1,
        0 <= i < CITY_COUNT,
        !v.cities[i].alive,
        forall|j: int| 0 <= j < i ==> #[trigger] v.cities[j].alive,
    ensures
        awarded(v, base_points).cities[i].alive,
        forall|j: int| 0 <= j < CITY_COUNT && j != i ==> #[trigger] awarded(v, base_points).cities[j]
            == v.cities[j],
{
    let a = awarded(v, base_points);
    let step = CITY_RESTORE_STEP as nat;
    assert((a.score / step - v.score / step) as nat == 1);
    assert(revive_times(v.cities, 1) == revive_one(revive_times(v.cities, 0)));
    assert(revive_times(v.cities, 0) == v.cities);
    law_rebuild_restores_lowest_lost_city(v.cities, i);
}

/// Law: while the game runs (not paused, not over, no intermission) each
/// pressed fire key launches a missile from its base exactly when that base
/// stands and has a missile left, in base order, at 700 pixels per second
/// from the side bases and 850 from the middle one; each launch takes one
/// missile from its base and nothing else changes.
pub proof fn law_fire_while_running(v: CampaignView, z: bool, x: bool, c: bool)
    requires
        v.wf(),
        !v.paused,
        !v.game_over,
        !v.intermission,
    ensures
        fire_launches(v, z, x, c) == (if z && v.bases[0].alive && v.bases[0].ammo > 0 {
            seq![Launch { base_index: 0, speed: 700 }]
        } else {
            Seq::<Launch>::empty()
        }) + (if x && v.bases[1].alive && v.bases[1].ammo > 0 {
            seq![Launch { base_index: 1, speed: 850 }]
        } else {
            Seq::<Launch>::empty()
        }) + (if c && v.bases[2].alive && v.bases[2].ammo > 0 {
            seq![Launch { base_index: 2, speed: 700 }]
        } else {
            Seq::<Launch>::empty()
        }),
        fired(v, z, x, c).bases[0].ammo == v.bases[0].ammo - (if z && v.bases[0].alive
            && v.bases[0].ammo > 0 { 1int } else { 0int }),
        fired(v, z, x, c).bases[1].ammo == v.bases[1].ammo - (if x && v.bases[1].alive
            && v.bases[1].ammo > 0 { 1int } else { 0int }),
        fired(v, z, x, c).bases[2].ammo == v.bases[2].ammo - (if c && v.bases[2].alive
            && v.bases[2].ammo > 0 { 1int } else { 0int }),
        forall|i: int| 0 <= i < BASE_COUNT ==> #[trigger] fired(v, z, x, c).bases[i].alive
            == v.bases[i].alive,
        fired(v, z, x, c).bases.len() == BASE_COUNT,
        fired(v, z, x, c).cities == v.cities,
        fired(v, z, x, c).score == v.score,
        fired(v, z, x, c).wave == v.wave,
        fired(v, z, x, c).enemies_spawned == v.enemies_spawned,
        fired(v, z, x, c).enemies_to_spawn == v.enemies_to_spawn,
        fired(v, z, x, c).paused == v.paused,
        fired(v, z, x, c).game_over == v.game_over,
        fired(v, z, x, c).intermission == v.intermission,
{
    let v1 = fire_step(v, 0, z);
    let v2 = fire_step(v1, 1, x);
    let v3 = fire_step(v2, 2, c);
    assert(v1.bases[1] == v.bases[1] && v1.bases[2] == v.bases[2]);
    assert(v2.bases[0] == v1.bases[0] && v2.bases[2] == v1.bases[2]);
    assert(v3.bases[0] == v2.bases[0] && v3.bases[1] == v2.bases[1]);
    assert forall|i: int| 0 <= i < BASE_COUNT implies #[trigger] fired(v, z, x, c).bases[i].alive
        == v.bases[i].alive by {
        assert(v1.bases[i].alive == v.bases[i].alive);
        assert(v2.bases[i].alive == v1.bases[i].alive);
        assert(v3.bases[i].alive == v2.bases[i].alive);
    }
}

/// Law: the pause key pauses a running game and resumes a paused one,
/// whatever else holds (an intermission too); once the game is over it
/// changes nothing. It changes nothing but the pause.
pub proof fn law_pause_key(v: CampaignView)
    ensures
        !v.game_over ==> pause_toggled(v).paused == !v.paused,
        v.game_over ==> pause_toggled(v) == v,
        pause_toggled(v).bases == v.bases,
        pause_toggled(v).cities == v.cities,
        pause_toggled(v).score == v.score,
        pause_toggled(v).wave == v.wave,
        pause_toggled(v).enemies_spawned == v.enemies_spawned,
        pause_toggled(v).enemies_to_spawn == v.enemies_to_spawn,
        pause_toggled(v).intermission == v.intermission,
        pause_toggled(v).game_over == v.game_over,
{
}

} // verus!
