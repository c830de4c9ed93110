use agm_core::agm::{get_editor, Agm};
use agm_core::config::{Config, GameConfig, LegacyPresetConfig};
use agm_core::preset::{Mod, ModInfo, Preset};

fn strings(v: &[&str]) -> Vec<String> {
    v.iter().map(|s| s.to_string()).collect()
}

#[test]
fn new_config_is_empty() {
    let c = Config::new();
    assert!(c.games.is_empty());
    assert_eq!(c.nexus_api_key, None);
    assert_eq!(c.editor, None);
}

#[test]
fn games_are_created_once() {
    let mut c = Config::new();
    c.get_or_create_game("a").mods.push("m".to_string());
    c.get_or_create_game("b");
    c.get_or_create_game("a").presets.push("p".to_string());
    assert_eq!(c.get_profile_names(), strings(&["a", "b"]));
    assert_eq!(c.get_mods_for_game("a"), strings(&["m"]));
    assert_eq!(c.get_game("a").unwrap().presets, strings(&["p"]));
    assert!(c.get_game("c").is_none());
    assert_eq!(c.game_index("b"), Some(1));
    assert_eq!(c.game_index("c"), None);
    c.get_game_mut("b").unwrap().active_preset = Some("q".to_string());
    assert_eq!(c.games[1].active_preset, Some("q".to_string()));
    assert!(c.get_game_mut("zz").is_none());
}

#[test]
fn presets_and_mods_are_recorded_once() {
    let mut c = Config::new();
    c.add_preset_to_game("g", "vanilla");
    c.add_preset_to_game("g", "modded");
    c.add_preset_to_game("g", "vanilla");
    c.add_mod_to_game("g", "m1");
    c.add_mod_to_game("g", "m1");
    c.add_mod_to_game("h", "m2");
    assert_eq!(c.games.len(), 2);
    assert_eq!(c.games[0].presets, strings(&["vanilla", "modded"]));
    assert_eq!(c.games[0].mods, strings(&["m1"]));
    assert_eq!(c.games[1].profile, "h");
    assert_eq!(c.games[1].mods, strings(&["m2"]));
    assert!(c.games[1].presets.is_empty());
    c.remove_preset_from_game("g", "vanilla");
    c.remove_mod_from_game("g", "m1");
    c.remove_mod_from_game("nope", "m1");
    assert_eq!(c.games[0].presets, strings(&["modded"]));
    assert!(c.games[0].mods.is_empty());
    assert!(c.get_mods_for_game("nope").is_empty());
}

#[test]
fn removing_a_game_drops_every_record_of_it() {
    let mut c = Config::new();
    for name in ["a", "b", "a", "c"] {
        c.games.push(GameConfig {
            profile: name.to_string(),
            presets: Vec::new(),
            mods: Vec::new(),
            active_preset: None,
        });
    }
    c.remove_game("a");
    assert_eq!(c.get_profile_names(), strings(&["b", "c"]));
    c.remove_game("zz");
    assert_eq!(c.get_profile_names(), strings(&["b", "c"]));
}

#[test]
fn switching_records_one_active_preset() {
    let mut agm = Agm::new(Config::new());
    agm.switch_preset("g", "first");
    assert!(agm.is_preset_active("g", "first"));
    assert_eq!(agm.get_preset_names("g"), strings(&["first"]));
    agm.config_mut().add_preset_to_game("g", "second");
    agm.switch_preset("g", "second");
    assert!(agm.is_preset_active("g", "second"));
    assert!(!agm.is_preset_active("g", "first"));
    assert!(!agm.is_preset_active("other", "second"));
    assert_eq!(agm.get_presets().len(), 1);
}

#[test]
fn removing_the_active_preset_clears_it() {
    let mut agm = Agm::new(Config::new());
    agm.config_mut().add_preset_to_game("g", "a");
    agm.config_mut().add_preset_to_game("g", "b");
    agm.switch_preset("g", "a");
    assert!(!agm.remove_preset("g", "b"));
    assert!(agm.is_preset_active("g", "a"));
    assert!(agm.remove_preset("g", "a"));
    assert_eq!(agm.config().games[0].active_preset, None);
    assert!(agm.get_preset_names("g").is_empty());
    assert!(!agm.remove_preset("missing", "a"));
}

#[test]
fn settings_are_kept() {
    let mut agm = Agm::new(Config::new());
    assert_eq!(agm.get_nexus_api_key(), None);
    agm.set_nexus_api_key("SECRET-REDACTED");
    agm.set_editor("vim");
    assert_eq!(agm.get_nexus_api_key(), Some(&"SECRET-REDACTED".to_string()));
    assert_eq!(agm.config().editor, Some("vim".to_string()));
    agm.config_mut().add_mod_to_game("g", "m");
    assert_eq!(agm.get_mods("g"), strings(&["m"]));
    assert_eq!(agm.get_profile_names(), strings(&["g"]));
}

#[test]
fn editor_choice_falls_back_in_order() {
    let mut c = Config::new();
    assert_eq!(get_editor(&c, None, "nano"), "nano");
    assert_eq!(get_editor(&c, Some("emacs".to_string()), "nano"), "emacs");
    c.editor = Some("vim".to_string());
    assert_eq!(get_editor(&c, Some("emacs".to_string()), "nano"), "vim");
}

#[test]
fn preset_mod_editing() {
    let mut p = Preset::new("modded");
    assert_eq!(p.name, "modded");
    assert!(p.mods.is_empty());
    p.add_mod("a");
    p.mods.push(Mod::Detailed(ModInfo { name: "b".to_string(), url: None, files: None }));
    p.add_mods(&strings(&["b", "c", "a", "c", "d"]));
    assert_eq!(p.mod_names(), strings(&["a", "b", "c", "d"]));
    assert!(p.contains_mod(&"b".to_string()));
    assert!(!p.contains_mod(&"z".to_string()));
    p.add_mod("a");
    p.remove_mod("a");
    assert_eq!(p.mod_names(), strings(&["b", "c", "d"]));
    p.remove_mod("b");
    assert_eq!(p.mod_names(), strings(&["c", "d"]));
    assert_eq!(p.mods[0].name(), "c");
}

#[test]
fn storage_sync_sets_tracked_mods() {
    let mut c = Config::new();
    c.add_mod_to_game("a", "old");
    c.add_preset_to_game("a", "p");
    let listing = vec![
        ("a".to_string(), strings(&["m1", "m2"])),
        ("b".to_string(), strings(&["m3"])),
    ];
    c.sync_mods(&listing);
    assert_eq!(c.get_profile_names(), strings(&["a", "b"]));
    assert_eq!(c.games[0].mods, strings(&["m1", "m2"]));
    assert_eq!(c.games[0].presets, strings(&["p"]));
    assert_eq!(c.games[1].mods, strings(&["m3"]));
}

#[test]
fn legacy_records_are_migrated() {
    let mut c = Config::new();
    c.nexus_api_key = Some("k".to_string());
    c.profiles = strings(&["a", "gone", "b"]);
    c.presets = vec![
        LegacyPresetConfig {
            game: "b".to_string(),
            aliases: Vec::new(),
            presets: strings(&["x", "y"]),
            active_preset: Some("y".to_string()),
        },
        LegacyPresetConfig {
            game: "gone".to_string(),
            aliases: Vec::new(),
            presets: strings(&["z"]),
            active_preset: None,
        },
    ];
    let listing = vec![
        ("a".to_string(), strings(&["m1"])),
        ("gone".to_string(), strings(&["m2"])),
    ];
    c.migrate_from_legacy(&vec![true, false, true], &listing);
    assert!(c.profiles.is_empty());
    assert!(c.presets.is_empty());
    assert_eq!(c.nexus_api_key, Some("k".to_string()));
    assert_eq!(c.get_profile_names(), strings(&["a", "b"]));
    assert_eq!(c.games[0].mods, strings(&["m1"]));
    assert!(c.games[0].presets.is_empty());
    assert_eq!(c.games[1].presets, strings(&["x", "y"]));
    assert_eq!(c.games[1].active_preset, Some("y".to_string()));
    assert!(c.games[1].mods.is_empty());
}
