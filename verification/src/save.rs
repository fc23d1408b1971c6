//! The save data: the player's settings and the high score, and the text
//! form in which they are stored, one `key=value` entry per line.
use vstd::prelude::*;
use crate::text::{
    law_parse_decimal, lemma_split_lines_join, lemma_split_lines_single, no_newline, is_first_eq,
    lemma_trim_no_whitespace, is_whitespace, push_decimal, chars_of, decimal, find_eq, lemma_split_lines_nonempty, parse_u32, parse_u32_at, split_lines,
    split_once_eq, trim, trim_bounds,
};

verus! {

/// How hard the game is.
#[derive(Clone, Copy, Debug, PartialEq, Eq, Structural)]
pub enum Difficulty {
    Easy,
    Normal,
    Hard,
}

/// The label of a difficulty, as shown and as stored.
pub open spec fn difficulty_label(d: Difficulty) -> Seq<char> {
    match d {
        Difficulty::Easy => "EASY"@,
        Difficulty::Normal => "NORMAL"@,
        Difficulty::Hard => "HARD"@,
    }
}

/// The difficulty whose label is `s`.
pub open spec fn parse_difficulty(s: Seq<char>) -> Option<Difficulty> {
    if s == "EASY"@ {
        Some(Difficulty::Easy)
    } else if s == "NORMAL"@ {
        Some(Difficulty::Normal)
    } else if s == "HARD"@ {
        Some(Difficulty::Hard)
    } else {
        None
    }
}

impl Difficulty {
    /// The label of the difficulty, as shown and as stored.
    pub fn label(&self) -> (r: &'static str)
        ensures
            r@ == difficulty_label(*self),
    {
        match self {
            Difficulty::Easy => "EASY",
            Difficulty::Normal => "NORMAL",
            Difficulty::Hard => "HARD",
        }
    }
}

/// The player's settings.
#[derive(Clone, Copy, Debug, PartialEq, Eq, Structural)]
pub struct GameConfig {
    /// Missiles that each base holds at the start of a wave.
    pub ammo_per_base: u32,
    /// Largest radius of a player's blast, in whole pixels.
    pub blast_radius: u32,
    pub difficulty: Difficulty,
}

/// The settings that a new player starts with.
pub open spec fn default_config() -> GameConfig {
    GameConfig { ammo_per_base: 10, blast_radius: 58, difficulty: Difficulty::Normal }
}

impl Default for GameConfig {
    fn default() -> (r: Self)
        ensures
            r == default_config(),
    {
        GameConfig { ammo_per_base: 10, blast_radius: 58, difficulty: Difficulty::Normal }
    }
}

/// What is saved between two sessions.
#[derive(Clone, Copy, Debug, PartialEq, Eq, Structural)]
pub struct SaveData {
    pub config: GameConfig,
    pub high_score: u32,
}

/// The save data of a new player.
pub open spec fn default_save() -> SaveData {
    SaveData { config: default_config(), high_score: 0 }
}

impl Default for SaveData {
    fn default() -> (r: Self)
        ensures
            r == default_save(),
    {
        SaveData { config: GameConfig::default(), high_score: 0 }
    }
}

/// Key of the missiles per base.
pub open spec fn ammo_key() -> Seq<char> {
    "ammo_per_base"@
}

/// Key of the blast radius.
pub open spec fn blast_key() -> Seq<char> {
    "blast_radius"@
}

/// Key of the difficulty.
pub open spec fn difficulty_key() -> Seq<char> {
    "difficulty"@
}

/// Key of the high score.
pub open spec fn high_score_key() -> Seq<char> {
    "high_score"@
}

/// One stored entry: the key, `=`, the value.
pub open spec fn entry_line(key: Seq<char>, value: Seq<char>) -> Seq<char> {
    key + "="@ + value
}

/// The text form of the settings.
pub open spec fn config_text(c: GameConfig) -> Seq<char> {
    entry_line(ammo_key(), decimal(c.ammo_per_base as nat)) + "\n"@ + entry_line(
        blast_key(),
        decimal(c.blast_radius as nat),
    ) + "\n"@ + entry_line(difficulty_key(), difficulty_label(c.difficulty))
}

/// The text form of the save data: the settings, then the high score.
pub open spec fn save_text(s: SaveData) -> Seq<char> {
    config_text(s.config) + "\n"@ + entry_line(high_score_key(), decimal(s.high_score as nat))
}

/// The values read so far from a stored text, each from the last line
/// that gave it a valid value.
#[derive(Clone, Copy, Debug, PartialEq, Eq, Structural)]
pub struct SaveEntries {
    pub ammo_per_base: Option<u32>,
    pub blast_radius: Option<u32>,
    pub difficulty: Option<Difficulty>,
    pub high_score: Option<u32>,
}

/// No value read yet.
pub open spec fn no_entries() -> SaveEntries {
    SaveEntries { ammo_per_base: None, blast_radius: None, difficulty: None, high_score: None }
}

/// The values after reading `line`: a line `key=value` (the key and the
/// value trimmed of whitespace, split at the first `=`) sets the value of a
/// known key when the value is valid for it; any other line changes nothing.
pub open spec fn entry_applied(e: SaveEntries, line: Seq<char>) -> SaveEntries {
    match split_once_eq(line) {
        None => e,
        Some(kv) => {
            let key = trim(kv.0);
            let value = trim(kv.1);
            if key == ammo_key() {
                match parse_u32(value) {
                    Some(n) => SaveEntries { ammo_per_base: Some(n), ..e },
                    None => e,
                }
            } else if key == blast_key() {
                match parse_u32(value) {
                    Some(n) => SaveEntries { blast_radius: Some(n), ..e },
                    None => e,
                }
            } else if key == difficulty_key() {
                match parse_difficulty(value) {
                    Some(d) => SaveEntries { difficulty: Some(d), ..e },
                    None => e,
                }
            } else if key == high_score_key() {
                match parse_u32(value) {
                    Some(n) => SaveEntries { high_score: Some(n), ..e },
                    None => e,
                }
            } else {
                e
            }
        },
    }
}

/// The values read from `lines`, in order.
pub open spec fn entries_of(lines: Seq<Seq<char>>) -> SaveEntries
    decreases lines.len(),
{
    if lines.len() == 0 {
        no_entries()
    } else {
        entry_applied(entries_of(lines.drop_last()), lines.last())
    }
}

/// The values read from the text `raw`.
pub open spec fn text_entries(raw: Seq<char>) -> SaveEntries {
    entries_of(split_lines(raw))
}

/// The settings in read values: present only when all three were read.
pub open spec fn config_from(e: SaveEntries) -> Option<GameConfig> {
    match (e.ammo_per_base, e.blast_radius, e.difficulty) {
        (Some(a), Some(b), Some(d)) => Some(GameConfig { ammo_per_base: a, blast_radius: b, difficulty: d }),
        _ => None,
    }
}

/// The save data in read values: the settings if all were read, else the
/// default ones; the high score if read, else zero.
pub open spec fn save_from(e: SaveEntries) -> SaveData {
    SaveData {
        config: match config_from(e) {
            Some(c) => c,
            None => default_config(),
        },
        high_score: match e.high_score {
            Some(h) => h,
            None => 0,
        },
    }
}

/// Whether `s[a..b]` is `k`.
fn range_equals(s: &Vec<char>, a: usize, b: usize, k: &Vec<char>) -> (r: bool)
    requires
        a <= b <= s@.len(),
    ensures
        r == (s@.subrange(a as int, b as int) == k@),
{
    if b - a != k.len() {
        return false;
    }
    let mut i: usize = 0;
    while i < k.len()
        invariant
            a <= b <= s@.len(),
            b - a == k@.len(),
            i <= k@.len(),
            forall|j: int| 0 <= j < i ==> #[trigger] k@[j] == s@[a + j],
        decreases k@.len() - i,
    {
        if s[a + i] != k[i] {
            assert(s@.subrange(a as int, b as int)[i as int] != k@[i as int]);
            return false;
        }
        i = i + 1;
    }
    assert(s@.subrange(a as int, b as int) =~= k@);
    true
}

/// The character sequences that the reader compares against.
struct Vocabulary {
    ammo: Vec<char>,
    blast: Vec<char>,
    difficulty: Vec<char>,
    high_score: Vec<char>,
    easy: Vec<char>,
    normal: Vec<char>,
    hard: Vec<char>,
}

impl Vocabulary {
    spec fn valid(&self) -> bool {
        &&& self.ammo@ == ammo_key()
        &&& self.blast@ == blast_key()
        &&& self.difficulty@ == difficulty_key()
        &&& self.high_score@ == high_score_key()
        &&& self.easy@ == "EASY"@
        &&& self.normal@ == "NORMAL"@
        &&& self.hard@ == "HARD"@
    }

    fn new() -> (r: Self)
        ensures
            r.valid(),
    {
        Vocabulary {
            ammo: chars_of("ammo_per_base"),
            blast: chars_of("blast_radius"),
            difficulty: chars_of("difficulty"),
            high_score: chars_of("high_score"),
            easy: chars_of("EASY"),
            normal: chars_of("NORMAL"),
            hard: chars_of("HARD"),
        }
    }
}

/// The values after reading the line `s[a..b]`.
fn apply_line(e: SaveEntries, s: &Vec<char>, a: usize, b: usize, voc: &Vocabulary) -> (r: SaveEntries)
    requires
        a <= b <= s@.len(),
        voc.valid(),
    ensures
        r == entry_applied(e, s@.subrange(a as int, b as int)),
{
    match find_eq(s, a, b) {
        None => e,
        Some(i) => {
            let (ks, ke) = trim_bounds(s, a, i);
            let (vs, ve) = trim_bounds(s, i + 1, b);
            if range_equals(s, ks, ke, &voc.ammo) {
                match parse_u32_at(s, vs, ve) {
                    Some(n) => SaveEntries { ammo_per_base: Some(n), ..e },
                    None => e,
                }
            } else if range_equals(s, ks, ke, &voc.blast) {
                match parse_u32_at(s, vs, ve) {
                    Some(n) => SaveEntries { blast_radius: Some(n), ..e },
                    None => e,
                }
            } else if range_equals(s, ks, ke, &voc.difficulty) {
                if range_equals(s, vs, ve, &voc.easy) {
                    SaveEntries { difficulty: Some(Difficulty::Easy), ..e }
                } else if range_equals(s, vs, ve, &voc.normal) {
                    SaveEntries { difficulty: Some(Difficulty::Normal), ..e }
                } else if range_equals(s, vs, ve, &voc.hard) {
                    SaveEntries { difficulty: Some(Difficulty::Hard), ..e }
                } else {
                    e
                }
            } else if range_equals(s, ks, ke, &voc.high_score) {
                match parse_u32_at(s, vs, ve) {
                    Some(n) => SaveEntries { high_score: Some(n), ..e },
                    None => e,
                }
            } else {
                e
            }
        },
    }
}

/// The values read from the text `raw`, line by line.
pub fn read_entries(raw: &str) -> (r: SaveEntries)
    ensures
        r == text_entries(raw@),
{
    let s = chars_of(raw);
    let voc = Vocabulary::new();
    let mut e = SaveEntries { ammo_per_base: None, blast_radius: None, difficulty: None, high_score: None };
    let mut start: usize = 0;
    let mut k: usize = 0;
    while k < s.len()
        invariant
            start <= k <= s@.len(),
            voc.valid(),
            s@ == raw@,
            e == entries_of(split_lines(s@.take(k as int)).drop_last()),
            split_lines(s@.take(k as int)).last() == s@.subrange(start as int, k as int),
        decreases s@.len() - k,
    {
        let ghost before = s@.take(k as int);
        let ghost after = s@.take(k + 1);
        assert(after.drop_last() =~= before);
        proof {
            lemma_split_lines_nonempty(before);
        }
        if s[k] == '\n' {
            e = apply_line(e, &s, start, k, &voc);
            proof {
                let p = split_lines(before);
                assert(split_lines(after) == p.push(Seq::<char>::empty()));
                assert(split_lines(after).drop_last() =~= p);
                assert(p =~= p.drop_last().push(p.last()));
                assert(s@.subrange((k + 1) as int, (k + 1) as int) =~= Seq::<char>::empty());
            }
            start = k + 1;
        } else {
            proof {
                let p = split_lines(before);
                let q = p.update(p.len() - 1, p.last().push(s@[k as int]));
                assert(split_lines(after) == q);
                assert(q.drop_last() =~= p.drop_last());
                assert(s@.subrange(start as int, k + 1) =~= s@.subrange(start as int, k as int).push(s@[k as int]));
            }
        }
        k = k + 1;
    }
    assert(s@.take(k as int) =~= s@);
    e = apply_line(e, &s, start, k, &voc);
    proof {
        let p = split_lines(s@);
        lemma_split_lines_nonempty(s@);
        assert(p =~= p.drop_last().push(p.last()));
        assert(p.drop_last().push(p.last()).drop_last() =~= p.drop_last());
    }
    e
}


impl GameConfig {
    /// The text form of the settings: one `key=value` line per setting.
    pub fn encode(&self) -> (r: String)
        ensures
            r@ == config_text(*self),
    {
        let mut s = String::new();
        s.append("ammo_per_base");
        s.append("=");
        push_decimal(&mut s, self.ammo_per_base);
        s.append("\n");
        s.append("blast_radius");
        s.append("=");
        push_decimal(&mut s, self.blast_radius);
        s.append("\n");
        s.append("difficulty");
        s.append("=");
        s.append(self.difficulty.label());
        assert(s@ =~= config_text(*self));
        s
    }

    /// The settings stored in `raw`; `None` unless all three are there
    /// with valid values.
    pub fn decode(raw: &str) -> (r: Option<GameConfig>)
        ensures
            r == config_from(text_entries(raw@)),
    {
        let e = read_entries(raw);
        match (e.ammo_per_base, e.blast_radius, e.difficulty) {
            (Some(a), Some(b), Some(d)) => Some(GameConfig { ammo_per_base: a, blast_radius: b, difficulty: d }),
            _ => None,
        }
    }
}

impl SaveData {
    /// The text form of the save data: the settings, then a line with the
    /// high score.
    pub fn encode(self) -> (r: String)
        ensures
            r@ == save_text(self),
    {
        let mut s = self.config.encode();
        s.append("\n");
        s.append("high_score");
        s.append("=");
        push_decimal(&mut s, self.high_score);
        assert(s@ =~= save_text(self));
        s
    }

    /// The save data stored in `raw`. Whatever is missing or invalid takes
    /// its default: the default settings unless all three are stored, and a
    /// zero high score.
    pub fn decode(raw: &str) -> (r: SaveData)
        ensures
            r == save_from(text_entries(raw@)),
    {
        let mut save = SaveData::default();
        if let Some(config) = GameConfig::decode(raw) {
            save.config = config;
        }
        let e = read_entries(raw);
        if let Some(score) = e.high_score {
            save.high_score = score;
        }
        save
    }
}

impl SaveData {
    /// The save data once a campaign ended with `score`: the high score is
    /// the higher of the two, the settings stay.
    pub fn record_score(self, score: u32) -> (r: SaveData)
        ensures
            r.high_score == (if score > self.high_score { score } else { self.high_score }),
            r.config == self.config,
    {
        if score > self.high_score {
            SaveData { config: self.config, high_score: score }
        } else {
            self
        }
    }
}

/// The save data in the stored text `raw`, or the default one when nothing
/// was stored.
pub fn load_save_data(raw: Option<&str>) -> (r: SaveData)
    ensures
        r == match raw {
            Some(t) => save_from(text_entries(t@)),
            None => default_save(),
        },
{
    match raw {
        Some(t) => SaveData::decode(t),
        None => SaveData::default(),
    }
}

/// The text under which `save` is stored.
pub fn store_save_data(save: SaveData) -> (r: String)
    ensures
        r@ == save_text(save),
{
    save.encode()
}


/// An entry line whose key holds no `=` and neither part holds a newline
/// or whitespace at its ends is one line, split back into its key and value.
proof fn lemma_entry_line(key: Seq<char>, value: Seq<char>)
    requires
        key.len() > 0,
        value.len() > 0,
        forall|i: int| 0 <= i < key.len() ==> #[trigger] key[i] != '=' && key[i] != '\n',
        no_newline(value),
        !is_whitespace(key[0]) && !is_whitespace(key.last()),
        !is_whitespace(value[0]) && !is_whitespace(value.last()),
        "="@ == seq!['='],
    ensures
        split_lines(entry_line(key, value)) == seq![entry_line(key, value)],
        split_once_eq(entry_line(key, value)) == Some((key, value)),
        trim(key) == key,
        trim(value) == value,
{
    let l = entry_line(key, value);
    assert(l.len() == key.len() + 1 + value.len());
    assert forall|i: int| 0 <= i < l.len() implies #[trigger] l[i] != '\n' by {
        if i < key.len() {
            assert(l[i] == key[i]);
        } else if i > key.len() {
            assert(l[i] == value[i - key.len() - 1]);
        }
    }
    lemma_split_lines_single(l);
    let k = key.len() as int;
    assert(l[k] == '=');
    assert forall|j: int| 0 <= j < k implies #[trigger] l[j] != '=' by {
        assert(l[j] == key[j]);
    }
    assert(is_first_eq(l, k));
    assert forall|k2: int| is_first_eq(l, k2) implies k2 == k by {
        if k2 < k {
            assert(l[k2] == key[k2]);
        }
    }
    assert(l.take(k) =~= key);
    assert(l.skip(k + 1) =~= value);
    lemma_trim_no_whitespace(key);
    lemma_trim_no_whitespace(value);
}

proof fn lemma_label(d: Difficulty)
    ensures
        difficulty_label(d).len() > 0,
        no_newline(difficulty_label(d)),
        !is_whitespace(difficulty_label(d)[0]),
        !is_whitespace(difficulty_label(d).last()),
        parse_difficulty(difficulty_label(d)) == Some(d),
{
    reveal_strlit("EASY");
    reveal_strlit("NORMAL");
    reveal_strlit("HARD");
}

proof fn lemma_decimal_value(n: u32)
    ensures
        decimal(n as nat).len() > 0,
        no_newline(decimal(n as nat)),
        !is_whitespace(decimal(n as nat)[0]),
        !is_whitespace(decimal(n as nat).last()),
        parse_u32(decimal(n as nat)) == Some(n),
{
    law_parse_decimal(n);
    crate::text::lemma_decimal(n as nat);
    let d = decimal(n as nat);
    assert(crate::text::is_digit(d[0]));
    assert(crate::text::is_digit(d[d.len() - 1]));
}

proof fn lemma_keys()
    ensures
        "="@ == seq!['='],
        "\n"@ == seq!['\n'],
        ammo_key().len() > 0 && blast_key().len() > 0 && difficulty_key().len() > 0 && high_score_key().len() > 0,
        forall|i: int| 0 <= i < ammo_key().len() ==> #[trigger] ammo_key()[i] != '=' && ammo_key()[i] != '\n',
        forall|i: int| 0 <= i < blast_key().len() ==> #[trigger] blast_key()[i] != '=' && blast_key()[i] != '\n',
        forall|i: int| 0 <= i < difficulty_key().len() ==> #[trigger] difficulty_key()[i] != '=' && difficulty_key()[i] != '\n',
        forall|i: int| 0 <= i < high_score_key().len() ==> #[trigger] high_score_key()[i] != '=' && high_score_key()[i] != '\n',
        !is_whitespace(ammo_key()[0]) && !is_whitespace(ammo_key().last()),
        !is_whitespace(blast_key()[0]) && !is_whitespace(blast_key().last()),
        !is_whitespace(difficulty_key()[0]) && !is_whitespace(difficulty_key().last()),
        !is_whitespace(high_score_key()[0]) && !is_whitespace(high_score_key().last()),
        blast_key() != ammo_key(),
        difficulty_key() != ammo_key(),
        difficulty_key() != blast_key(),
        high_score_key() != ammo_key(),
        high_score_key() != blast_key(),
        high_score_key() != difficulty_key(),
{
    reveal_strlit("=");
    reveal_strlit("\n");
    reveal_strlit("ammo_per_base");
    reveal_strlit("blast_radius");
    reveal_strlit("difficulty");
    reveal_strlit("high_score");
    assert(blast_key().len() != ammo_key().len());
    assert(difficulty_key().len() != ammo_key().len());
    assert(difficulty_key().len() != blast_key().len());
    assert(high_score_key().len() != ammo_key().len());
    assert(high_score_key().len() != blast_key().len());
    assert(high_score_key()[0] != difficulty_key()[0]);
}

/// The lines of the stored settings, in order.
proof fn lemma_config_lines(c: GameConfig)
    ensures
        split_lines(config_text(c)) == seq![
            entry_line(ammo_key(), decimal(c.ammo_per_base as nat)),
            entry_line(blast_key(), decimal(c.blast_radius as nat)),
            entry_line(difficulty_key(), difficulty_label(c.difficulty)),
        ],
        text_entries(config_text(c)) == (SaveEntries {
            ammo_per_base: Some(c.ammo_per_base),
            blast_radius: Some(c.blast_radius),
            difficulty: Some(c.difficulty),
            high_score: None,
        }),
{
    lemma_keys();
    lemma_decimal_value(c.ammo_per_base);
    lemma_decimal_value(c.blast_radius);
    lemma_label(c.difficulty);
    let l1 = entry_line(ammo_key(), decimal(c.ammo_per_base as nat));
    let l2 = entry_line(blast_key(), decimal(c.blast_radius as nat));
    let l3 = entry_line(difficulty_key(), difficulty_label(c.difficulty));
    lemma_entry_line(ammo_key(), decimal(c.ammo_per_base as nat));
    lemma_entry_line(blast_key(), decimal(c.blast_radius as nat));
    lemma_entry_line(difficulty_key(), difficulty_label(c.difficulty));
    lemma_split_lines_join(l1, l2);
    lemma_split_lines_join(l1 + seq!['\n'] + l2, l3);
    let lines = seq![l1, l2, l3];
    assert(split_lines(config_text(c)) =~= lines);
    assert(lines.drop_last() =~= seq![l1, l2]);
    assert(seq![l1, l2].drop_last() =~= seq![l1]);
    assert(seq![l1].drop_last() =~= Seq::<Seq<char>>::empty());
    let e1 = entries_of(seq![l1]);
    assert(entries_of(Seq::<Seq<char>>::empty()) == no_entries());
    assert(seq![l1].last() == l1);
    assert(e1 == entry_applied(no_entries(), l1));
    assert(split_once_eq(l1) == Some((ammo_key(), decimal(c.ammo_per_base as nat))));
    assert(e1 == SaveEntries { ammo_per_base: Some(c.ammo_per_base), ..no_entries() });
    let e2 = entries_of(seq![l1, l2]);
    assert(e2 == SaveEntries { blast_radius: Some(c.blast_radius), ..e1 });
}

/// Law: the stored settings read back as the same settings.
pub proof fn law_config_roundtrip(c: GameConfig)
    ensures
        config_from(text_entries(config_text(c))) == Some(c),
{
    lemma_config_lines(c);
}

/// Law: the stored save data reads back as the same save data: settings
/// and high score.
pub proof fn law_save_roundtrip(s: SaveData)
    ensures
        save_from(text_entries(save_text(s))) == s,
{
    let c = s.config;
    lemma_config_lines(c);
    lemma_keys();
    lemma_decimal_value(s.high_score);
    let l4 = entry_line(high_score_key(), decimal(s.high_score as nat));
    lemma_entry_line(high_score_key(), decimal(s.high_score as nat));
    lemma_split_lines_join(config_text(c), l4);
    let p = split_lines(config_text(c));
    let lines = p + seq![l4];
    assert(split_lines(save_text(s)) =~= lines);
    assert(lines.drop_last() =~= p);
}

} // verus!
