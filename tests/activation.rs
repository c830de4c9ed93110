use agm_core::activation::{links_to_remove, InstalledMod};
use agm_core::mod_spec::{FileEntry, ModSpec};
use agm_core::profile::{Game, Layout, LayoutType, Profile};

fn moddir(name: &str, mime: &[&str]) -> Layout {
    Layout {
        name: name.to_string(),
        node_type: LayoutType::Moddir,
        sub: None,
        mime: Some(mime.iter().map(|m| m.to_string()).collect()),
    }
}

fn profile() -> Profile {
    Profile {
        game: Game { name: "game".to_string(), path: "/games/g".to_string() },
        layout: vec![
            moddir("mods", &["zip"]),
            Layout {
                name: "data".to_string(),
                node_type: LayoutType::Dir,
                sub: Some(vec![moddir("textures", &["dds"])]),
                mime: None,
            },
        ],
    }
}

fn spec(name: &str, files: &[(&str, &str)]) -> ModSpec {
    ModSpec {
        name: name.to_string(),
        url: None,
        files: files
            .iter()
            .map(|(t, p)| FileEntry { target: t.to_string(), point: p.to_string() })
            .collect(),
    }
}

fn pair(a: &str, b: &str) -> (String, String) {
    (a.to_string(), b.to_string())
}

#[test]
fn links_one_per_resolvable_file() {
    let p = profile();
    let s = spec("m", &[("a.zip", "@mods"), ("t/b.dds", "@textures"), ("c.txt", "extra/dir")]);
    let links = p.activate_mod("/store/m", &Some(s));
    assert_eq!(
        links,
        vec![
            pair("/store/m/a.zip", "/games/g/mods/a.zip"),
            pair("/store/m/t/b.dds", "/games/g/data/textures/t/b.dds"),
            pair("/store/m/c.txt", "/games/g/extra/dir/c.txt"),
        ]
    );
}

#[test]
fn empty_point_blocks_whole_mod() {
    let p = profile();
    let s = spec("m", &[("a.zip", "@mods"), ("b.dds", ""), ("c.dds", "@textures")]);
    assert!(p.activate_mod("/store/m", &Some(s)).is_empty());
}

#[test]
fn unknown_moddir_skips_only_that_file() {
    let p = profile();
    let s = spec("m", &[("a.zip", "@mods"), ("b.dds", "@nowhere")]);
    let links = p.activate_mod("/store/m", &Some(s));
    assert_eq!(links, vec![pair("/store/m/a.zip", "/games/g/mods/a.zip")]);
}

#[test]
fn missing_manifest_links_nothing() {
    let p = profile();
    assert!(p.activate_mod("/store/m", &None).is_empty());
}

fn preset_mods() -> Vec<InstalledMod> {
    vec![
        InstalledMod {
            storage_path: "/store/one".to_string(),
            spec: Some(spec("one", &[("a.zip", "@mods"), ("b.dds", "@textures")])),
        },
        InstalledMod { storage_path: "/store/gone".to_string(), spec: None },
        InstalledMod {
            storage_path: "/store/two".to_string(),
            spec: Some(spec("two", &[("c.zip", "@mods"), ("d.dds", "")])),
        },
        InstalledMod {
            storage_path: "/store/three".to_string(),
            spec: Some(spec("three", &[("e.dds", "@textures")])),
        },
    ]
}

#[test]
fn preset_links_follow_mod_order() {
    let p = profile();
    let links = p.activate_preset(&preset_mods());
    assert_eq!(
        links,
        vec![
            pair("/store/one/a.zip", "/games/g/mods/a.zip"),
            pair("/store/one/b.dds", "/games/g/data/textures/b.dds"),
            pair("/store/three/e.dds", "/games/g/data/textures/e.dds"),
        ]
    );
}

#[test]
fn deactivation_looks_at_every_resolvable_destination() {
    let p = profile();
    let candidates = p.deactivation_candidates(&preset_mods());
    assert_eq!(
        candidates,
        vec![
            "/games/g/mods/a.zip".to_string(),
            "/games/g/data/textures/b.dds".to_string(),
            "/games/g/mods/c.zip".to_string(),
            "/games/g/data/textures/e.dds".to_string(),
        ]
    );
}

#[test]
fn deactivation_after_activation_removes_every_link() {
    let p = profile();
    let mods = preset_mods();
    let created = p.activate_preset(&mods);
    let candidates = p.deactivation_candidates(&mods);
    // A regular file stands at the destination of the blocked mod's file.
    let flags: Vec<bool> =
        candidates.iter().map(|c| created.iter().any(|(_, d)| d == c)).collect();
    assert_eq!(flags, vec![true, true, false, true]);
    let removed = links_to_remove(&candidates, &flags);
    let destinations: Vec<String> = created.iter().map(|(_, d)| d.clone()).collect();
    assert_eq!(removed, destinations);
    assert!(!removed.contains(&"/games/g/mods/c.zip".to_string()));
}

#[test]
fn switching_presets_leaves_only_the_new_links() {
    let p = profile();
    let a = preset_mods();
    let b = vec![InstalledMod {
        storage_path: "/store/four".to_string(),
        spec: Some(spec("four", &[("f.zip", "@mods")])),
    }];
    let mut links: Vec<(String, String)> = p.activate_preset(&a);
    let candidates = p.deactivation_candidates(&a);
    let flags: Vec<bool> = candidates.iter().map(|c| links.iter().any(|(_, d)| d == c)).collect();
    let removed = links_to_remove(&candidates, &flags);
    links.retain(|(_, d)| !removed.contains(d));
    assert!(links.is_empty());
    links.extend(p.activate_preset(&b));
    assert_eq!(links, p.activate_preset(&b));
    assert_eq!(links, vec![pair("/store/four/f.zip", "/games/g/mods/f.zip")]);
}

#[test]
fn removal_takes_each_symlink_once() {
    let candidates: Vec<String> = vec!["x", "y", "x", "z"].into_iter().map(String::from).collect();
    let flags = vec![true, false, true, true];
    assert_eq!(links_to_remove(&candidates, &flags), vec!["x".to_string(), "z".to_string()]);
    assert!(links_to_remove(&candidates, &vec![false; 4]).is_empty());
    assert!(links_to_remove(&Vec::new(), &Vec::new()).is_empty());
}
