use vstd::prelude::*;
use vstd::string::*;

use crate::config::{game_position, Config, GameConfig};
use crate::names::{clone_strings, strings_view, strings_without};

verus! {

/// The mod manager's state: the configuration of every game, which the
/// caller loads before and saves after each operation.
pub struct Agm {
    config: Config,
}

/// Whether a game record names `preset` as its active preset.
pub open spec fn is_active(g: GameConfig, preset: Seq<char>) -> bool {
    g.active_preset matches Some(a) && a@ == preset
}

/// The editor to use: the configured one, else the one the environment
/// names, else `fallback`.
pub open spec fn chosen_editor(configured: Option<String>, from_env: Option<String>, fallback: Seq<char>) -> Seq<char> {
    match configured {
        Some(e) => e@,
        None => match from_env {
            Some(e) => e@,
            None => fallback,
        },
    }
}

/// The editor to open records with (see [`chosen_editor`]).
pub fn get_editor(config: &Config, from_env: Option<String>, fallback: &str) -> (r: String)
    ensures
        r@ == chosen_editor(config.editor, from_env, fallback@),
{
    if let Some(editor) = &config.editor {
        return editor.clone();
    }
    if let Some(editor) = from_env {
        return editor;
    }
    String::from_str(fallback)
}

impl Agm {
    /// The configuration held.
    pub closed spec fn state(&self) -> Config {
        self.config
    }

    /// A manager over the configuration `config`.
    pub fn new(config: Config) -> (r: Self)
        ensures
            r.state() == config,
    {
        Agm { config }
    }

    /// The configuration held.
    pub fn config(&self) -> (r: &Config)
        ensures
            *r == self.state(),
    {
        &self.config
    }

    /// Mutable access to the configuration held.
    pub fn config_mut(&mut self) -> (r: &mut Config)
        ensures
            *r == old(self).state(),
            final(self).state() == *final(r),
    {
        &mut self.config
    }

    /// Sets the key for the remote mod service.
    pub fn set_nexus_api_key(&mut self, key: &str)
        ensures
            final(self).state().nexus_api_key matches Some(k) && k@ == key@,
            final(self).state().editor == old(self).state().editor,
            final(self).state().games == old(self).state().games,
    {
        self.config.nexus_api_key = Some(String::from_str(key));
    }

    /// Sets the editor for profiles and presets.
    pub fn set_editor(&mut self, editor: &str)
        ensures
            final(self).state().editor matches Some(e) && e@ == editor@,
            final(self).state().nexus_api_key == old(self).state().nexus_api_key,
            final(self).state().games == old(self).state().games,
    {
        self.config.editor = Some(String::from_str(editor));
    }

    /// The key for the remote mod service, where one is set.
    pub fn get_nexus_api_key(&self) -> (r: Option<&String>)
        ensures
            match self.state().nexus_api_key {
                Some(k) => r == Some(&k),
                None => r is None,
            },
    {
        self.config.nexus_api_key.as_ref()
    }

    /// The profile names of all games, in order.
    pub fn get_profile_names(&self) -> (r: Vec<String>)
        ensures
            r@.len() == self.state().games@.len(),
            forall|i: int| 0 <= i < r@.len() ==> #[trigger] r@[i] == self.state().games@[i].profile,
    {
        self.config.get_profile_names()
    }

    /// The mods tracked for `game`.
    pub fn get_mods(&self, game: &str) -> (r: Vec<String>)
        ensures
            match game_position(self.state().games@, game@) {
                Some(i) => r@ == self.state().games@[i].mods@,
                None => r@.len() == 0,
            },
    {
        self.config.get_mods_for_game(game)
    }

    /// The records of all games.
    pub fn get_presets(&self) -> (r: &Vec<GameConfig>)
        ensures
            *r == self.state().games,
    {
        &self.config.games
    }

    /// The presets of `game`, in order; none where it has no record.
    pub fn get_preset_names(&self, game: &str) -> (r: Vec<String>)
        ensures
            match game_position(self.state().games@, game@) {
                Some(i) => r@ == self.state().games@[i].presets@,
                None => r@.len() == 0,
            },
    {
        if let Some(game_config) = self.config.get_game(game) {
            clone_strings(&game_config.presets)
        } else {
            Vec::new()
        }
    }

    /// Whether `preset` is the active preset of `game`.
    pub fn is_preset_active(&self, game: &str, preset: &str) -> (r: bool)
        ensures
            r == match game_position(self.state().games@, game@) {
                Some(i) => is_active(self.state().games@[i], preset@),
                None => false,
            },
    {
        if let Some(game_config) = self.config.get_game(game) {
            match &game_config.active_preset {
                Some(active) => {
                    let wanted = String::from_str(preset);
                    *active == wanted
                },
                None => false,
            }
        } else {
            false
        }
    }

    /// Records `preset` as the active preset of `game`, once the game's
    /// links have been switched to it: a game without a record gets a fresh
    /// one holding that preset. At most one preset is active per game, as
    /// a record holds one active preset.
    pub fn switch_preset(&mut self, game: &str, preset: &str)
        ensures
            final(self).state().nexus_api_key == old(self).state().nexus_api_key,
            final(self).state().editor == old(self).state().editor,
            match game_position(old(self).state().games@, game@) {
                Some(i) => {
                    &&& final(self).state().games@.len() == old(self).state().games@.len()
                    &&& forall|j: int|
                        0 <= j < old(self).state().games@.len() && j != i
                            ==> #[trigger] final(self).state().games@[j] == old(
                            self,
                        ).state().games@[j]
                    &&& final(self).state().games@[i].profile == old(self).state().games@[i].profile
                    &&& final(self).state().games@[i].presets == old(self).state().games@[i].presets
                    &&& final(self).state().games@[i].mods == old(self).state().games@[i].mods
                    &&& is_active(final(self).state().games@[i], preset@)
                },
                None => {
                    &&& final(self).state().games@.len() == old(self).state().games@.len() + 1
                    &&& final(self).state().games@.subrange(
                        0,
                        old(self).state().games@.len() as int,
                    ) == old(self).state().games@
                    &&& final(self).state().games@.last().profile@ == game@
                    &&& strings_view(final(self).state().games@.last().presets@) == seq![preset@]
                    &&& final(self).state().games@.last().mods@.len() == 0
                    &&& is_active(final(self).state().games@.last(), preset@)
                },
            },
    {
        match self.config.game_index(game) {
            Some(i) => {
                self.config.games[i].active_preset = Some(String::from_str(preset));
            },
            None => {
                let ghost before = self.config.games@;
                let presets = vec![String::from_str(preset)];
                assert(strings_view(presets@) =~= seq![preset@]);
                self.config.games.push(
                    GameConfig {
                        profile: String::from_str(game),
                        presets,
                        mods: Vec::new(),
                        active_preset: Some(String::from_str(preset)),
                    },
                );
                assert(self.config.games@.subrange(0, before.len() as int) =~= before);
            },
        }
    }

    /// Forgets the preset `name` of `game`, clearing the game's active
    /// preset where it was that one. Returns whether it was active, in which
    /// case its links are to be removed first.
    pub fn remove_preset(&mut self, game: &str, name: &str) -> (was_active: bool)
        ensures
            was_active == match game_position(old(self).state().games@, game@) {
                Some(i) => is_active(old(self).state().games@[i], name@),
                None => false,
            },
            final(self).state().nexus_api_key == old(self).state().nexus_api_key,
            final(self).state().editor == old(self).state().editor,
            final(self).state().games@.len() == old(self).state().games@.len(),
            match game_position(old(self).state().games@, game@) {
                Some(i) => {
                    &&& forall|j: int|
                        0 <= j < old(self).state().games@.len() && j != i
                            ==> #[trigger] final(self).state().games@[j] == old(
                            self,
                        ).state().games@[j]
                    &&& final(self).state().games@[i].profile == old(self).state().games@[i].profile
                    &&& final(self).state().games@[i].mods == old(self).state().games@[i].mods
                    &&& strings_view(final(self).state().games@[i].presets@) == strings_view(
                        old(self).state().games@[i].presets@,
                    ).filter(crate::names::differs(name@))
                    &&& final(self).state().games@[i].active_preset == if was_active {
                        None
                    } else {
                        old(self).state().games@[i].active_preset
                    }
                },
                None => final(self).state().games@ == old(self).state().games@,
            },
    {
        let wanted = String::from_str(name);
        match self.config.game_index(game) {
            Some(i) => {
                let was_active = match &self.config.games[i].active_preset {
                    Some(active) => *active == wanted,
                    None => false,
                };
                if was_active {
                    self.config.games[i].active_preset = None;
                }
                let kept = strings_without(&self.config.games[i].presets, &wanted);
                self.config.games[i].presets = kept;
                was_active
            },
            None => false,
        }
    }
}

} // verus!
