use vstd::prelude::*;
use vstd::string::*;

use crate::names::{clone_strings, contains_string, differs, strings_view, strings_without};

verus! {

/// What is recorded of one game: its profile, its presets, its tracked mods
/// and its active preset, if any.
#[derive(Debug)]
pub struct GameConfig {
    pub profile: String,
    pub presets: Vec<String>,
    pub mods: Vec<String>,
    pub active_preset: Option<String>,
}

/// The application's settings and the state of every game.
#[derive(Debug)]
pub struct Config {
    pub games: Vec<GameConfig>,
    pub nexus_api_key: Option<String>,
    pub editor: Option<String>,
    /// Profile names of the earlier format, migrated into `games`.
    pub profiles: Vec<String>,
    /// Preset records of the earlier format, migrated into `games`.
    pub presets: Vec<LegacyPresetConfig>,
}

/// The presets of one game in the earlier format.
#[derive(Debug)]
pub struct LegacyPresetConfig {
    pub game: String,
    pub aliases: Vec<String>,
    pub presets: Vec<String>,
    pub active_preset: Option<String>,
}

/// The index of the first game at or after `k` whose profile is `name`.
pub open spec fn position_from(games: Seq<GameConfig>, name: Seq<char>, k: int) -> Option<int>
    decreases games.len() - k,
{
    if 0 <= k < games.len() {
        if games[k].profile@ == name {
            Some(k)
        } else {
            position_from(games, name, k + 1)
        }
    } else {
        None
    }
}

/// The index of the first game whose profile is `name`.
pub open spec fn game_position(games: Seq<GameConfig>, name: Seq<char>) -> Option<int> {
    position_from(games, name, 0)
}

/// The test that a game's profile is not `name`.
pub open spec fn other_game(name: Seq<char>) -> spec_fn(GameConfig) -> bool {
    |g: GameConfig| g.profile@ != name
}

/// Whether a game record is a fresh one for the profile `name`, holding the
/// given presets and mods and no active preset.
pub open spec fn fresh_game(g: GameConfig, name: Seq<char>, presets: Seq<Seq<char>>, mods: Seq<Seq<char>>) -> bool {
    &&& g.profile@ == name
    &&& strings_view(g.presets@) == presets
    &&& strings_view(g.mods@) == mods
    &&& g.active_preset is None
}

/// Whether two configurations agree on everything but their games.
pub open spec fn same_settings(a: Config, b: Config) -> bool {
    &&& a.nexus_api_key == b.nexus_api_key
    &&& a.editor == b.editor
    &&& a.profiles == b.profiles
    &&& a.presets == b.presets
}

/// `v` with `s` appended unless it already holds it.
pub open spec fn with_name(v: Seq<Seq<char>>, s: Seq<char>) -> Seq<Seq<char>> {
    if v.contains(s) {
        v
    } else {
        v.push(s)
    }
}

/// What a game record holds, as plain values.
pub struct GameRecord {
    pub profile: Seq<char>,
    pub presets: Seq<Seq<char>>,
    pub mods: Seq<Seq<char>>,
    pub active_preset: Option<Seq<char>>,
}

impl View for GameConfig {
    type V = GameRecord;

    open spec fn view(&self) -> GameRecord {
        GameRecord {
            profile: self.profile@,
            presets: strings_view(self.presets@),
            mods: strings_view(self.mods@),
            active_preset: match self.active_preset {
                Some(a) => Some(a@),
                None => None,
            },
        }
    }
}

/// The records of a list of games.
pub open spec fn records(games: Seq<GameConfig>) -> Seq<GameRecord> {
    games.map_values(|g: GameConfig| g@)
}

/// The index of the first record at or after `k` whose profile is `name`.
pub open spec fn record_position_from(rs: Seq<GameRecord>, name: Seq<char>, k: int) -> Option<int>
    decreases rs.len() - k,
{
    if 0 <= k < rs.len() {
        if rs[k].profile == name {
            Some(k)
        } else {
            record_position_from(rs, name, k + 1)
        }
    } else {
        None
    }
}

/// The index of the first record whose profile is `name`.
pub open spec fn record_position(rs: Seq<GameRecord>, name: Seq<char>) -> Option<int> {
    record_position_from(rs, name, 0)
}

/// A record for `name` with the given mods and nothing else.
pub open spec fn fresh_record(name: Seq<char>, mods: Seq<Seq<char>>) -> GameRecord {
    GameRecord { profile: name, presets: Seq::empty(), mods, active_preset: None }
}

/// The records after the mods of the game `name` are set to `mods`: the
/// first record of that game is changed, or a fresh one is appended.
pub open spec fn with_mods(rs: Seq<GameRecord>, name: Seq<char>, mods: Seq<Seq<char>>) -> Seq<GameRecord> {
    match record_position(rs, name) {
        Some(i) => rs.update(
            i,
            GameRecord {
                profile: rs[i].profile,
                presets: rs[i].presets,
                mods,
                active_preset: rs[i].active_preset,
            },
        ),
        None => rs.push(fresh_record(name, mods)),
    }
}

/// The records after the mods of each listed game are set in turn.
pub open spec fn synced(rs: Seq<GameRecord>, listing: Seq<(Seq<char>, Seq<Seq<char>>)>) -> Seq<GameRecord>
    decreases listing.len(),
{
    if listing.len() == 0 {
        rs
    } else {
        let earlier = synced(rs, listing.drop_last());
        with_mods(earlier, listing.last().0, listing.last().1)
    }
}

/// A listing of the mods found in storage for each game, as plain values.
pub open spec fn listing_view(storage: Seq<(String, Vec<String>)>) -> Seq<(Seq<char>, Seq<Seq<char>>)> {
    storage.map_values(|e: (String, Vec<String>)| (e.0@, strings_view(e.1@)))
}

/// Fresh records for the legacy profiles whose profile file exists, in
/// order.
pub open spec fn migrated_profiles(profiles: Seq<Seq<char>>, exists: Seq<bool>) -> Seq<GameRecord>
    decreases profiles.len(),
{
    if profiles.len() == 0 || exists.len() == 0 {
        Seq::empty()
    } else {
        let earlier = migrated_profiles(profiles.drop_last(), exists.drop_last());
        if exists.last() {
            earlier.push(fresh_record(profiles.last(), Seq::empty()))
        } else {
            earlier
        }
    }
}

/// The records after a legacy preset record of the game `game` is applied
/// to its first record, where there is one.
pub open spec fn with_legacy(rs: Seq<GameRecord>, legacy: LegacyPresetConfig) -> Seq<GameRecord> {
    match record_position(rs, legacy.game@) {
        Some(i) => rs.update(
            i,
            GameRecord {
                profile: rs[i].profile,
                presets: strings_view(legacy.presets@),
                mods: rs[i].mods,
                active_preset: match legacy.active_preset {
                    Some(a) => Some(a@),
                    None => None,
                },
            },
        ),
        None => rs,
    }
}

/// The records after each legacy preset record is applied in turn.
pub open spec fn legacy_applied(rs: Seq<GameRecord>, legacy: Seq<LegacyPresetConfig>) -> Seq<GameRecord>
    decreases legacy.len(),
{
    if legacy.len() == 0 {
        rs
    } else {
        with_legacy(legacy_applied(rs, legacy.drop_last()), legacy.last())
    }
}

/// The records after the stored mods of the game `name` are appended to its
/// first record, where there is one.
pub open spec fn with_stored(rs: Seq<GameRecord>, name: Seq<char>, mods: Seq<Seq<char>>) -> Seq<GameRecord> {
    match record_position(rs, name) {
        Some(i) => rs.update(
            i,
            GameRecord {
                profile: rs[i].profile,
                presets: rs[i].presets,
                mods: rs[i].mods + mods,
                active_preset: rs[i].active_preset,
            },
        ),
        None => rs,
    }
}

/// The records after the stored mods of each listed game are appended in
/// turn.
pub open spec fn stored_applied(rs: Seq<GameRecord>, listing: Seq<(Seq<char>, Seq<Seq<char>>)>) -> Seq<GameRecord>
    decreases listing.len(),
{
    if listing.len() == 0 {
        rs
    } else {
        let earlier = stored_applied(rs, listing.drop_last());
        with_stored(earlier, listing.last().0, listing.last().1)
    }
}

proof fn lemma_positions_agree(games: Seq<GameConfig>, name: Seq<char>, k: int)
    requires
        0 <= k <= games.len(),
    ensures
        position_from(games, name, k) == record_position_from(records(games), name, k),
    decreases games.len() - k,
{
    if k < games.len() {
        assert(records(games)[k] == games[k]@);
        lemma_positions_agree(games, name, k + 1);
    }
}

/// The index of the first game of `games` whose profile is `name`.
fn find_game(games: &Vec<GameConfig>, name: &String) -> (r: Option<usize>)
    ensures
        match r {
            Some(i) => i < games@.len() && game_position(games@, name@) == Some(i as int)
                && record_position(records(games@), name@) == Some(i as int),
            None => game_position(games@, name@) is None && record_position(records(games@), name@) is None,
        },
{
    proof {
        lemma_positions_agree(games@, name@, 0);
    }
    let mut i: usize = 0;
    while i < games.len()
        invariant
            0 <= i <= games@.len(),
            game_position(games@, name@) == position_from(games@, name@, i as int),
            game_position(games@, name@) == record_position(records(games@), name@),
        decreases games@.len() - i,
    {
        if games[i].profile == *name {
            return Some(i);
        }
        i = i + 1;
    }
    None
}

proof fn lemma_position_from(games: Seq<GameConfig>, name: Seq<char>, k: int)
    requires
        0 <= k <= games.len(),
    ensures
        match position_from(games, name, k) {
            Some(i) => k <= i < games.len() && games[i].profile@ == name && forall|j: int|
                k <= j < i ==> #[trigger] games[j].profile@ != name,
            None => forall|j: int| k <= j < games.len() ==> #[trigger] games[j].profile@ != name,
        },
    decreases games.len() - k,
{
    if k < games.len() && games[k].profile@ != name {
        lemma_position_from(games, name, k + 1);
    }
}

/// A game record for `name` with no presets, no mods and no active preset.
fn new_game(name: &str) -> (r: GameConfig)
    ensures
        fresh_game(r, name@, Seq::empty(), Seq::empty()),
{
    let r = GameConfig {
        profile: String::from_str(name),
        presets: Vec::new(),
        mods: Vec::new(),
        active_preset: None,
    };
    assert(strings_view(r.presets@) =~= Seq::<Seq<char>>::empty());
    assert(strings_view(r.mods@) =~= Seq::<Seq<char>>::empty());
    r
}

impl Config {
    /// A configuration with no games and no settings.
    pub fn new() -> (r: Self)
        ensures
            r.games@.len() == 0,
            r.nexus_api_key is None,
            r.editor is None,
            r.profiles@.len() == 0,
            r.presets@.len() == 0,
    {
        Config {
            games: Vec::new(),
            nexus_api_key: None,
            editor: None,
            profiles: Vec::new(),
            presets: Vec::new(),
        }
    }

    /// The index of the first game whose profile is `name`.
    pub fn game_index(&self, name: &str) -> (r: Option<usize>)
        ensures
            match r {
                Some(i) => game_position(self.games@, name@) == Some(i as int) && i < self.games@.len(),
                None => game_position(self.games@, name@) is None,
            },
            match game_position(self.games@, name@) {
                Some(i) => 0 <= i < self.games@.len() && self.games@[i].profile@ == name@
                    && forall|j: int| 0 <= j < i ==> #[trigger] self.games@[j].profile@ != name@,
                None => forall|j: int| 0 <= j < self.games@.len() ==> #[trigger] self.games@[j].profile@ != name@,
            },
    {
        let wanted = String::from_str(name);
        let mut i: usize = 0;
        while i < self.games.len()
            invariant
                0 <= i <= self.games@.len(),
                wanted@ == name@,
                game_position(self.games@, name@) == position_from(self.games@, name@, i as int),
            decreases self.games@.len() - i,
        {
            if self.games[i].profile == wanted {
                proof {
                    lemma_position_from(self.games@, name@, 0);
                }
                return Some(i);
            }
            i = i + 1;
        }
        proof {
            lemma_position_from(self.games@, name@, 0);
        }
        None
    }

    /// The record of the game `profile_name`, created empty at the end of
    /// the list where there is none.
    pub fn get_or_create_game(&mut self, profile_name: &str) -> (r: &mut GameConfig)
        ensures
            same_settings(*final(self), *old(self)),
            match game_position(old(self).games@, profile_name@) {
                Some(i) => {
                    &&& *r == old(self).games@[i]
                    &&& final(self).games@ == old(self).games@.update(i, *final(r))
                },
                None => {
                    &&& fresh_game(*r, profile_name@, Seq::empty(), Seq::empty())
                    &&& final(self).games@ == old(self).games@.push(*final(r))
                },
            },
    {
        match self.game_index(profile_name) {
            Some(i) => &mut self.games[i],
            None => {
                self.games.push(new_game(profile_name));
                let n = self.games.len();
                &mut self.games[n - 1]
            },
        }
    }

    /// The record of the game `profile_name`, where there is one.
    pub fn get_game(&self, profile_name: &str) -> (r: Option<&GameConfig>)
        ensures
            match game_position(self.games@, profile_name@) {
                Some(i) => r == Some(&self.games@[i]),
                None => r is None,
            },
    {
        match self.game_index(profile_name) {
            Some(i) => Some(&self.games[i]),
            None => None,
        }
    }

    /// Mutable access to the record of the game `profile_name`, where there
    /// is one.
    pub fn get_game_mut(&mut self, profile_name: &str) -> (r: Option<&mut GameConfig>)
        ensures
            same_settings(*final(self), *old(self)),
            match game_position(old(self).games@, profile_name@) {
                Some(i) => {
                    &&& r is Some
                    &&& *r->0 == old(self).games@[i]
                    &&& final(self).games@ == old(self).games@.update(i, *final(r->0))
                },
                None => r is None && final(self).games@ == old(self).games@,
            },
    {
        match self.game_index(profile_name) {
            Some(i) => Some(&mut self.games[i]),
            None => None,
        }
    }

    /// Drops every record of the game `profile_name`.
    pub fn remove_game(&mut self, profile_name: &str)
        ensures
            same_settings(*final(self), *old(self)),
            final(self).games@ == old(self).games@.filter(other_game(profile_name@)),
    {
        let name = String::from_str(profile_name);
        let ghost keep = other_game(profile_name@);
        let mut i: usize = 0;
        assert(self.games@.subrange(0, 0) + self.games@.subrange(0, self.games@.len() as int).filter(keep)
            =~= old(self).games@.filter(keep)) by {
            assert(self.games@.subrange(0, self.games@.len() as int) =~= self.games@);
        }
        while i < self.games.len()
            invariant
                0 <= i <= self.games@.len(),
                same_settings(*self, *old(self)),
                keep == other_game(profile_name@),
                name@ == profile_name@,
                old(self).games@.filter(keep) == self.games@.subrange(0, i as int)
                    + self.games@.subrange(i as int, self.games@.len() as int).filter(keep),
            decreases self.games@.len() - i,
        {
            let ghost before = self.games@;
            let ghost rest = before.subrange(i + 1, before.len() as int);
            assert(before.subrange(i as int, before.len() as int) =~= seq![before[i as int]] + rest);
            proof {
                rest.lemma_filter_prepend(before[i as int], keep);
            }
            if self.games[i].profile == name {
                self.games.remove(i);
                assert(self.games@.subrange(0, i as int) =~= before.subrange(0, i as int));
                assert(self.games@.subrange(i as int, self.games@.len() as int) =~= rest);
                assert(Seq::<GameConfig>::empty() + rest.filter(keep) =~= rest.filter(keep));
            } else {
                assert(before.subrange(0, i + 1) =~= before.subrange(0, i as int) + seq![before[i as int]]);
                i = i + 1;
            }
        }
        assert(self.games@.subrange(0, i as int) =~= self.games@);
        assert(self.games@.subrange(i as int, self.games@.len() as int) =~= Seq::<GameConfig>::empty());
        proof {
            reveal(Seq::filter);
        }
        assert(Seq::<GameConfig>::empty().filter(keep) =~= Seq::<GameConfig>::empty());
    }

    /// The profile names of all games, in order.
    pub fn get_profile_names(&self) -> (r: Vec<String>)
        ensures
            r@.len() == self.games@.len(),
            forall|i: int| 0 <= i < r@.len() ==> #[trigger] r@[i] == self.games@[i].profile,
    {
        let mut r: Vec<String> = Vec::new();
        let mut i: usize = 0;
        while i < self.games.len()
            invariant
                0 <= i <= self.games@.len(),
                r@.len() == i,
                forall|j: int| 0 <= j < i ==> #[trigger] r@[j] == self.games@[j].profile,
            decreases self.games@.len() - i,
        {
            r.push(self.games[i].profile.clone());
            i = i + 1;
        }
        r
    }

    /// Records the preset `preset_name` for the game `game_name`, once; a
    /// game without a record gets a fresh one holding that preset.
    pub fn add_preset_to_game(&mut self, game_name: &str, preset_name: &str)
        ensures
            same_settings(*final(self), *old(self)),
            match game_position(old(self).games@, game_name@) {
                Some(i) => {
                    &&& final(self).games@.len() == old(self).games@.len()
                    &&& forall|j: int|
                        0 <= j < old(self).games@.len() && j != i ==> #[trigger] final(self).games@[j]
                            == old(self).games@[j]
                    &&& final(self).games@[i].profile == old(self).games@[i].profile
                    &&& final(self).games@[i].mods == old(self).games@[i].mods
                    &&& final(self).games@[i].active_preset == old(self).games@[i].active_preset
                    &&& strings_view(final(self).games@[i].presets@) == with_name(
                        strings_view(old(self).games@[i].presets@),
                        preset_name@,
                    )
                },
                None => {
                    &&& final(self).games@.len() == old(self).games@.len() + 1
                    &&& final(self).games@.subrange(0, old(self).games@.len() as int)
                        == old(self).games@
                    &&& fresh_game(final(self).games@.last(), game_name@, seq![preset_name@], Seq::empty())
                },
            },
    {
        let preset = String::from_str(preset_name);
        match self.game_index(game_name) {
            Some(i) => {
                if !contains_string(&self.games[i].presets, &preset) {
                    let ghost before = self.games@[i as int].presets@;
                    self.games[i].presets.push(preset);
                    assert(strings_view(self.games@[i as int].presets@) =~= strings_view(before).push(
                        preset_name@,
                    ));
                }
            },
            None => {
                let mut game = new_game(game_name);
                game.presets.push(preset);
                assert(strings_view(game.presets@) =~= seq![preset_name@]);
                let ghost before = self.games@;
                self.games.push(game);
                assert(self.games@.subrange(0, before.len() as int) =~= before);
            },
        }
    }

    /// Forgets the preset `preset_name` of the game `game_name`.
    pub fn remove_preset_from_game(&mut self, game_name: &str, preset_name: &str)
        ensures
            same_settings(*final(self), *old(self)),
            final(self).games@.len() == old(self).games@.len(),
            match game_position(old(self).games@, game_name@) {
                Some(i) => {
                    &&& forall|j: int|
                        0 <= j < old(self).games@.len() && j != i ==> #[trigger] final(self).games@[j]
                            == old(self).games@[j]
                    &&& final(self).games@[i].profile == old(self).games@[i].profile
                    &&& final(self).games@[i].mods == old(self).games@[i].mods
                    &&& final(self).games@[i].active_preset == old(self).games@[i].active_preset
                    &&& strings_view(final(self).games@[i].presets@) == strings_view(
                        old(self).games@[i].presets@,
                    ).filter(differs(preset_name@))
                },
                None => final(self).games@ == old(self).games@,
            },
    {
        let preset = String::from_str(preset_name);
        match self.game_index(game_name) {
            Some(i) => {
                let kept = strings_without(&self.games[i].presets, &preset);
                self.games[i].presets = kept;
            },
            None => {},
        }
    }

    /// Records the mod `mod_name` for the game `game_name`, once; a game
    /// without a record gets a fresh one holding that mod.
    pub fn add_mod_to_game(&mut self, game_name: &str, mod_name: &str)
        ensures
            same_settings(*final(self), *old(self)),
            match game_position(old(self).games@, game_name@) {
                Some(i) => {
                    &&& final(self).games@.len() == old(self).games@.len()
                    &&& forall|j: int|
                        0 <= j < old(self).games@.len() && j != i ==> #[trigger] final(self).games@[j]
                            == old(self).games@[j]
                    &&& final(self).games@[i].profile == old(self).games@[i].profile
                    &&& final(self).games@[i].presets == old(self).games@[i].presets
                    &&& final(self).games@[i].active_preset == old(self).games@[i].active_preset
                    &&& strings_view(final(self).games@[i].mods@) == with_name(
                        strings_view(old(self).games@[i].mods@),
                        mod_name@,
                    )
                },
                None => {
                    &&& final(self).games@.len() == old(self).games@.len() + 1
                    &&& final(self).games@.subrange(0, old(self).games@.len() as int)
                        == old(self).games@
                    &&& fresh_game(final(self).games@.last(), game_name@, Seq::empty(), seq![mod_name@])
                },
            },
    {
        let name = String::from_str(mod_name);
        match self.game_index(game_name) {
            Some(i) => {
                if !contains_string(&self.games[i].mods, &name) {
                    let ghost before = self.games@[i as int].mods@;
                    self.games[i].mods.push(name);
                    assert(strings_view(self.games@[i as int].mods@) =~= strings_view(before).push(
                        mod_name@,
                    ));
                }
            },
            None => {
                let mut game = new_game(game_name);
                game.mods.push(name);
                assert(strings_view(game.mods@) =~= seq![mod_name@]);
                let ghost before = self.games@;
                self.games.push(game);
                assert(self.games@.subrange(0, before.len() as int) =~= before);
            },
        }
    }

    /// Forgets the mod `mod_name` of the game `game_name`.
    pub fn remove_mod_from_game(&mut self, game_name: &str, mod_name: &str)
        ensures
            same_settings(*final(self), *old(self)),
            final(self).games@.len() == old(self).games@.len(),
            match game_position(old(self).games@, game_name@) {
                Some(i) => {
                    &&& forall|j: int|
                        0 <= j < old(self).games@.len() && j != i ==> #[trigger] final(self).games@[j]
                            == old(self).games@[j]
                    &&& final(self).games@[i].profile == old(self).games@[i].profile
                    &&& final(self).games@[i].presets == old(self).games@[i].presets
                    &&& final(self).games@[i].active_preset == old(self).games@[i].active_preset
                    &&& strings_view(final(self).games@[i].mods@) == strings_view(
                        old(self).games@[i].mods@,
                    ).filter(differs(mod_name@))
                },
                None => final(self).games@ == old(self).games@,
            },
    {
        let name = String::from_str(mod_name);
        match self.game_index(game_name) {
            Some(i) => {
                let kept = strings_without(&self.games[i].mods, &name);
                self.games[i].mods = kept;
            },
            None => {},
        }
    }

    /// The mods tracked for the game `game_name`; none where it has no
    /// record.
    pub fn get_mods_for_game(&self, game_name: &str) -> (r: Vec<String>)
        ensures
            match game_position(self.games@, game_name@) {
                Some(i) => r@ == self.games@[i].mods@,
                None => r@.len() == 0,
            },
    {
        match self.get_game(game_name) {
            Some(g) => clone_strings(&g.mods),
            None => Vec::new(),
        }
    }
}

impl Config {
    /// Sets, for each game listed in `storage` in turn, its tracked mods to
    /// the mods found in storage; a game without a record gets a fresh one.
    pub fn sync_mods(&mut self, storage: &Vec<(String, Vec<String>)>)
        ensures
            same_settings(*final(self), *old(self)),
            records(final(self).games@) == synced(records(old(self).games@), listing_view(storage@)),
    {
        let ghost start = records(self.games@);
        let ghost listing = listing_view(storage@);
        let mut k: usize = 0;
        assert(listing.subrange(0, 0) =~= Seq::<(Seq<char>, Seq<Seq<char>>)>::empty());
        while k < storage.len()
            invariant
                0 <= k <= storage@.len(),
                listing == listing_view(storage@),
                same_settings(*self, *old(self)),
                start == records(old(self).games@),
                records(self.games@) == synced(start, listing.subrange(0, k as int)),
            decreases storage@.len() - k,
        {
            let ghost before = records(self.games@);
            let ghost next = listing.subrange(0, k + 1);
            assert(next.drop_last() =~= listing.subrange(0, k as int));
            assert(next.last() == (storage@[k as int].0@, strings_view(storage@[k as int].1@)));
            let mods = clone_strings(&storage[k].1);
            match find_game(&self.games, &storage[k].0) {
                Some(i) => {
                    self.games[i].mods = mods;
                    assert(records(self.games@) =~= with_mods(before, next.last().0, next.last().1));
                },
                None => {
                    let mut game = new_game(storage[k].0.as_str());
                    game.mods = mods;
                    self.games.push(game);
                    assert(records(self.games@) =~= with_mods(before, next.last().0, next.last().1));
                },
            }
            k = k + 1;
        }
        assert(listing.subrange(0, k as int) =~= listing);
    }

    /// Moves the records of the earlier format into `games`: a fresh record
    /// for each legacy profile whose profile file exists (`has_profile_file`,
    /// one flag per legacy profile), then the presets and active preset of
    /// each legacy preset record, then the mods found in storage for each
    /// listed game; games without a record are passed over in the last two
    /// steps. The legacy lists are emptied.
    pub fn migrate_from_legacy(&mut self, has_profile_file: &Vec<bool>, storage: &Vec<(String, Vec<String>)>)
        requires
            has_profile_file@.len() == old(self).profiles@.len(),
        ensures
            final(self).nexus_api_key == old(self).nexus_api_key,
            final(self).editor == old(self).editor,
            final(self).profiles@.len() == 0,
            final(self).presets@.len() == 0,
            records(final(self).games@) == stored_applied(
                legacy_applied(
                    migrated_profiles(strings_view(old(self).profiles@), has_profile_file@),
                    old(self).presets@,
                ),
                listing_view(storage@),
            ),
    {
        let ghost names = strings_view(self.profiles@);
        let mut migrated: Vec<GameConfig> = Vec::new();
        let mut k: usize = 0;
        while k < self.profiles.len()
            invariant
                0 <= k <= self.profiles@.len(),
                has_profile_file@.len() == self.profiles@.len(),
                names == strings_view(self.profiles@),
                records(migrated@) == migrated_profiles(
                    names.subrange(0, k as int),
                    has_profile_file@.subrange(0, k as int),
                ),
            decreases self.profiles@.len() - k,
        {
            let ghost before = records(migrated@);
            assert(names.subrange(0, k + 1).drop_last() =~= names.subrange(0, k as int));
            assert(has_profile_file@.subrange(0, k + 1).drop_last() =~= has_profile_file@.subrange(0, k as int));
            assert(names.subrange(0, k + 1).last() == self.profiles@[k as int]@);
            if has_profile_file[k] {
                let game = new_game(self.profiles[k].as_str());
                migrated.push(game);
                assert(records(migrated@) =~= before.push(fresh_record(self.profiles@[k as int]@, Seq::empty())));
            }
            k = k + 1;
        }
        assert(names.subrange(0, k as int) =~= names);
        assert(has_profile_file@.subrange(0, k as int) =~= has_profile_file@);
        let ghost base = records(migrated@);
        let mut k: usize = 0;
        assert(self.presets@.subrange(0, 0) =~= Seq::<LegacyPresetConfig>::empty());
        while k < self.presets.len()
            invariant
                0 <= k <= self.presets@.len(),
                records(migrated@) == legacy_applied(base, self.presets@.subrange(0, k as int)),
            decreases self.presets@.len() - k,
        {
            let ghost before = records(migrated@);
            assert(self.presets@.subrange(0, k + 1).drop_last() =~= self.presets@.subrange(0, k as int));
            let legacy = &self.presets[k];
            match find_game(&migrated, &legacy.game) {
                Some(i) => {
                    migrated[i].presets = clone_strings(&legacy.presets);
                    migrated[i].active_preset = match &legacy.active_preset {
                        Some(a) => Some(a.clone()),
                        None => None,
                    };
                    assert(records(migrated@) =~= with_legacy(before, *legacy));
                },
                None => {},
            }
            k = k + 1;
        }
        assert(self.presets@.subrange(0, k as int) =~= self.presets@);
        let ghost applied = records(migrated@);
        let ghost listing = listing_view(storage@);
        let mut k: usize = 0;
        assert(listing.subrange(0, 0) =~= Seq::<(Seq<char>, Seq<Seq<char>>)>::empty());
        while k < storage.len()
            invariant
                0 <= k <= storage@.len(),
                listing == listing_view(storage@),
                records(migrated@) == stored_applied(applied, listing.subrange(0, k as int)),
            decreases storage@.len() - k,
        {
            let ghost before = records(migrated@);
            let ghost next = listing.subrange(0, k + 1);
            assert(next.drop_last() =~= listing.subrange(0, k as int));
            assert(next.last() == (storage@[k as int].0@, strings_view(storage@[k as int].1@)));
            match find_game(&migrated, &storage[k].0) {
                Some(i) => {
                    let mods = &storage[k].1;
                    let mut j: usize = 0;
                    let ghost first = strings_view(migrated@[i as int].mods@);
                    while j < mods.len()
                        invariant
                            0 <= j <= mods@.len(),
                            i < migrated@.len(),
                            migrated@.len() == before.len(),
                            forall|m: int| 0 <= m < before.len() && m != i ==> #[trigger] records(migrated@)[m] == before[m],
                            migrated@[i as int].profile@ == before[i as int].profile,
                            strings_view(migrated@[i as int].presets@) == before[i as int].presets,
                            migrated@[i as int]@.active_preset == before[i as int].active_preset,
                            first == before[i as int].mods,
                            strings_view(migrated@[i as int].mods@) == first + strings_view(mods@).subrange(0, j as int),
                        decreases mods@.len() - j,
                    {
                        let ghost b = migrated@;
                        let ghost old_mods = migrated@[i as int].mods@;
                        migrated[i].mods.push(mods[j].clone());
                        assert(strings_view(migrated@[i as int].mods@) =~= strings_view(old_mods).push(mods@[j as int]@));
                        assert(strings_view(mods@).subrange(0, j + 1) =~= strings_view(mods@).subrange(0, j as int).push(mods@[j as int]@));
                        assert(strings_view(migrated@[i as int].mods@) =~= first + strings_view(mods@).subrange(0, j + 1));
                        assert forall|m: int| 0 <= m < before.len() && m != i implies #[trigger] records(migrated@)[m] == before[m] by {
                            assert(migrated@[m] == b[m]);
                            assert(records(b)[m] == b[m]@);
                        }
                        j = j + 1;
                    }
                    assert(strings_view(mods@).subrange(0, j as int) =~= strings_view(mods@));
                    assert(records(migrated@) =~= with_stored(before, next.last().0, next.last().1));
                },
                None => {},
            }
            k = k + 1;
        }
        assert(listing.subrange(0, k as int) =~= listing);
        self.games = migrated;
        self.profiles = Vec::new();
        self.presets = Vec::new();
    }
}

} // verus!
