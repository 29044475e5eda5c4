pub mod text;
pub mod config;
pub mod schedule;
pub mod plist_tree;
pub mod profile;
pub mod fs_path;
pub mod asset_refs;
pub mod profile_laws;
pub mod paths;
pub mod sorted_map;
pub mod live;
pub mod api;
pub mod cli;
pub mod interactive;
pub mod heic;
pub mod launch_agent;
pub mod activation;
pub mod storage;
pub mod assets;
pub mod wallpaper;
pub mod clock;
pub mod preview;
pub mod json;
pub mod listing;
pub mod profile_rules;
