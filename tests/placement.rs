use agm_core::mod_spec::{extension_of, FileEntry, ModSpec};
use agm_core::paths::join_path;
use agm_core::profile::{Game, Layout, LayoutType, Profile};

fn moddir(name: &str, mime: &[&str]) -> Layout {
    Layout {
        name: name.to_string(),
        node_type: LayoutType::Moddir,
        sub: None,
        mime: Some(mime.iter().map(|m| m.to_string()).collect()),
    }
}

fn dir(name: &str, sub: Vec<Layout>) -> Layout {
    Layout { name: name.to_string(), node_type: LayoutType::Dir, sub: Some(sub), mime: None }
}

fn profile(layout: Vec<Layout>) -> Profile {
    Profile { game: Game { name: "game".to_string(), path: "/games/game".to_string() }, layout }
}

#[test]
fn resolves_top_level_moddir() {
    let p = profile(vec![moddir("mods", &["zip"])]);
    assert_eq!(p.resolve_point("@mods"), Some("mods".to_string()));
    assert_eq!(p.resolve_point("@missing"), None);
}

#[test]
fn matches_and_resolves_nested_moddir() {
    let data = dir("data", vec![moddir("textures", &["dds", "png"])]);
    assert_eq!(data.find_matching_moddir_point("dds"), Some("@textures".to_string()));
    assert_eq!(data.find_matching_moddir_point("png"), Some("@textures".to_string()));
    assert_eq!(data.find_matching_moddir_point("esp"), None);
    let p = profile(vec![data]);
    assert_eq!(p.resolve_point("@textures"), Some("data/textures".to_string()));
}

#[test]
fn literal_and_empty_points() {
    let p = profile(vec![moddir("mods", &["zip"])]);
    assert_eq!(p.resolve_point("game/data"), Some("game/data".to_string()));
    assert_eq!(p.resolve_point(""), None);
}

#[test]
fn resolution_prefers_first_in_preorder() {
    let p = profile(vec![
        dir("a", vec![moddir("x", &[]), moddir("y", &[])]),
        moddir("x", &[]),
    ]);
    assert_eq!(p.resolve_point("@x"), Some("a/x".to_string()));
    assert_eq!(p.resolve_point("@y"), Some("a/y".to_string()));
    // a plain directory of that name does not count
    assert_eq!(p.resolve_point("@a"), None);
}

#[test]
fn deep_resolution_and_backtracking() {
    let p = profile(vec![
        dir("a", vec![dir("b", vec![moddir("c", &["esp"])])]),
        dir("d", vec![moddir("e", &["bsa"])]),
    ]);
    assert_eq!(p.resolve_point("@c"), Some("a/b/c".to_string()));
    assert_eq!(p.resolve_point("@e"), Some("d/e".to_string()));
}

#[test]
fn moddir_names_in_preorder() {
    let p = profile(vec![
        dir("a", vec![moddir("x", &[]), dir("b", vec![moddir("z", &[])])]),
        moddir("y", &[]),
    ]);
    assert_eq!(p.get_moddir_names(), vec!["x".to_string(), "z".to_string(), "y".to_string()]);
}

#[test]
fn default_profile_layout() {
    let p = Profile::new("Skyrim", "/games/skyrim");
    assert_eq!(p.game.name, "Skyrim");
    assert_eq!(p.game.path, "/games/skyrim");
    assert_eq!(p.layout.len(), 1);
    assert_eq!(p.layout[0].name, "mods");
    assert_eq!(p.layout[0].node_type, LayoutType::Moddir);
    assert_eq!(
        p.layout[0].mime,
        Some(vec!["txt", "zip", "rar", "7z", "tar"].into_iter().map(String::from).collect())
    );
    assert_eq!(p.get_moddir_names(), vec!["mods".to_string()]);
}

#[test]
fn extensions_of_paths() {
    assert_eq!(extension_of("readme.txt"), Some("txt".to_string()));
    assert_eq!(extension_of("dir.d/archive.tar.gz"), Some("gz".to_string()));
    assert_eq!(extension_of("dir.d/noext"), None);
    assert_eq!(extension_of(".hidden"), None);
    assert_eq!(extension_of("a/.hidden.png"), Some("png".to_string()));
    assert_eq!(extension_of("name."), Some("".to_string()));
}

#[test]
fn joins_paths() {
    assert_eq!(join_path("", "b"), "b");
    assert_eq!(join_path("a", "b"), "a/b");
    assert_eq!(join_path("a/", "b"), "a/b");
    assert_eq!(join_path("/games/x", "data/t"), "/games/x/data/t");
}

#[test]
fn classifies_files_by_extension() {
    let p = profile(vec![
        dir("data", vec![moddir("textures", &["dds", "png"])]),
        moddir("plugins", &["esp"]),
    ]);
    let targets: Vec<String> =
        vec!["a/b.dds", "c.esp", "readme.txt", "noext"].into_iter().map(String::from).collect();
    let spec = ModSpec::classify("m", &p, &targets);
    assert_eq!(spec.name, "m");
    assert_eq!(spec.url, None);
    let points: Vec<&str> = spec.files.iter().map(|f| f.point.as_str()).collect();
    assert_eq!(points, vec!["@textures", "@plugins", "", ""]);
    let names: Vec<&str> = spec.files.iter().map(|f| f.target.as_str()).collect();
    assert_eq!(names, vec!["a/b.dds", "c.esp", "readme.txt", "noext"]);
    assert!(spec.is_blocked());
    assert_eq!(spec.unplaced(), vec![2, 3]);
}

#[test]
fn placing_files_unblocks_a_mod() {
    let p = profile(vec![moddir("mods", &["zip"])]);
    let targets = vec!["readme.txt".to_string()];
    let mut spec = ModSpec::classify("m", &p, &targets);
    assert_eq!(spec.unplaced(), vec![0]);
    spec.set_point(0, "@mods".to_string());
    assert!(!spec.is_blocked());
    assert!(spec.unplaced().is_empty());
    assert_eq!(spec.files[0].target, "readme.txt");
}

#[test]
fn unplaced_file_blocks_scenario() {
    let p = profile(vec![moddir("mods", &["zip"])]);
    let targets = vec!["readme.txt".to_string()];
    let spec = ModSpec::classify("readme_mod", &p, &targets);
    assert_eq!(spec.files.len(), 1);
    assert_eq!(spec.files[0].point, "");
    let links = p.activate_mod("/store/readme_mod", &Some(spec));
    assert!(links.is_empty());
}

#[test]
fn file_entry_fields() {
    let e = FileEntry { target: "x".to_string(), point: "@y".to_string() };
    assert_eq!(e.target, "x");
    assert_eq!(e.point, "@y");
}
