//! Placement resolution and activation engine for per-game mod management.
//!
//! The library describes a game's directory layout as a tree of placement
//! nodes, resolves symbolic placement points (`@name`) to relative paths,
//! classifies extracted mod files by extension, and plans the symlinks that
//! activate or deactivate a preset of mods.
pub mod paths;
pub mod activation;
pub mod agm;
pub mod config;
pub mod mod_spec;
pub mod names;
pub mod nxm;
pub mod preset;
pub mod profile;
