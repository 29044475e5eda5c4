//! Where wallctl and macOS keep their files, relative to the user's home directory.
use vstd::prelude::*;

use crate::fs_path::{join, join_spec, path_starts_with, starts_with_path, strip_prefix_text, stripped_text};

verus! {

/// The file-system locations that wallctl reads and writes.
pub struct WallctlPaths {
    pub home: String,
    pub app_support: String,
    pub collections: String,
    pub state_file: String,
    pub app_logs: String,
    pub wallctl_log: String,
    pub launch_agents: String,
    pub launch_agent_plist: String,
    pub logs_dir: String,
    pub scheduler_stdout: String,
    pub scheduler_stderr: String,
    pub wallpaper_index: String,
    pub aerial_cache: String,
    pub aerial_manifest_entries: String,
    /// Where macOS keeps wallpaper extensions.
    pub wallpaper_extensions: String,
    /// Where macOS keeps its own wallpapers.
    pub system_wallpapers: String,
    /// Where sandboxed apps keep their data, by bundle identifier.
    pub app_containers: String,
}

/// The locations under a home directory, each joined as `Path::join` joins.
pub open spec fn paths_under(p: WallctlPaths, home: Seq<char>) -> bool {
    let app_support = join_spec(home, "Library/Application Support/wallctl"@);
    let app_logs = join_spec(app_support, "logs"@);
    let launch_agents = join_spec(home, "Library/LaunchAgents"@);
    let logs_dir = join_spec(home, "Library/Logs/wallctl"@);
    &&& p.home@ == home
    &&& p.app_support@ == app_support
    &&& p.collections@ == join_spec(app_support, "collections"@)
    &&& p.state_file@ == join_spec(app_support, "state.toml"@)
    &&& p.app_logs@ == app_logs
    &&& p.wallctl_log@ == join_spec(app_logs, "wallctl.log"@)
    &&& p.launch_agents@ == launch_agents
    &&& p.launch_agent_plist@ == join_spec(launch_agents, "local.wallctl.scheduler.plist"@)
    &&& p.logs_dir@ == logs_dir
    &&& p.scheduler_stdout@ == join_spec(logs_dir, "scheduler.out.log"@)
    &&& p.scheduler_stderr@ == join_spec(logs_dir, "scheduler.err.log"@)
    &&& p.wallpaper_index@ == join_spec(
        home,
        "Library/Application Support/com.apple.wallpaper/Store/Index.plist"@,
    )
    &&& p.aerial_cache@ == join_spec(home, "Library/Application Support/com.apple.wallpaper/aerials/videos"@)
    &&& p.aerial_manifest_entries@ == join_spec(
        home,
        "Library/Application Support/com.apple.wallpaper/aerials/manifest/entries.json"@,
    )
    &&& p.wallpaper_extensions@ == "/System/Library/ExtensionKit/Extensions"@
    &&& p.system_wallpapers@ == "/System/Library/Desktop Pictures"@
    &&& p.app_containers@ == join_spec(home, "Library/Containers"@)
}

/// The directory of a collection.
pub open spec fn collection_dir_spec(p: WallctlPaths, collection: Seq<char>) -> Seq<char> {
    join_spec(p.collections@, collection)
}

/// The assets directory of a collection.
pub open spec fn assets_dir_spec(p: WallctlPaths, collection: Seq<char>) -> Seq<char> {
    join_spec(collection_dir_spec(p, collection), "assets"@)
}

impl WallctlPaths {
    /// The locations under `home` (see [`paths_under`]).
    pub fn from_home(home: &str) -> (r: WallctlPaths)
        ensures
            paths_under(r, home@),
    {
        let app_support = join(home, "Library/Application Support/wallctl");
        let collections = join(app_support.as_str(), "collections");
        let state_file = join(app_support.as_str(), "state.toml");
        let app_logs = join(app_support.as_str(), "logs");
        let wallctl_log = join(app_logs.as_str(), "wallctl.log");
        let launch_agents = join(home, "Library/LaunchAgents");
        let launch_agent_plist = join(launch_agents.as_str(), "local.wallctl.scheduler.plist");
        let logs_dir = join(home, "Library/Logs/wallctl");
        let scheduler_stdout = join(logs_dir.as_str(), "scheduler.out.log");
        let scheduler_stderr = join(logs_dir.as_str(), "scheduler.err.log");
        let wallpaper_index = join(
            home,
            "Library/Application Support/com.apple.wallpaper/Store/Index.plist",
        );
        let aerial_cache = join(home, "Library/Application Support/com.apple.wallpaper/aerials/videos");
        let aerial_manifest_entries = join(
            home,
            "Library/Application Support/com.apple.wallpaper/aerials/manifest/entries.json",
        );
        let app_containers = join(home, "Library/Containers");
        WallctlPaths {
            home: crate::config::string_of_str(home),
            app_support,
            collections,
            state_file,
            app_logs,
            wallctl_log,
            launch_agents,
            launch_agent_plist,
            logs_dir,
            scheduler_stdout,
            scheduler_stderr,
            wallpaper_index,
            aerial_cache,
            aerial_manifest_entries,
            wallpaper_extensions: crate::config::string_of_str("/System/Library/ExtensionKit/Extensions"),
            system_wallpapers: crate::config::string_of_str("/System/Library/Desktop Pictures"),
            app_containers,
        }
    }

    /// The directory of a collection.
    pub fn collection_dir(&self, collection: &str) -> (r: String)
        ensures
            r@ == collection_dir_spec(*self, collection@),
    {
        join(self.collections.as_str(), collection)
    }

    /// The configuration file of a collection.
    pub fn collection_config(&self, collection: &str) -> (r: String)
        ensures
            r@ == join_spec(collection_dir_spec(*self, collection@), "collection.toml"@),
    {
        join(self.collection_dir(collection).as_str(), "collection.toml")
    }

    /// The profiles directory of a collection.
    pub fn profile_dir(&self, collection: &str) -> (r: String)
        ensures
            r@ == join_spec(collection_dir_spec(*self, collection@), "profiles"@),
    {
        join(self.collection_dir(collection).as_str(), "profiles")
    }

    /// The file of a profile of a collection: `<profile>.plist` in its profiles directory.
    pub fn profile_path(&self, collection: &str, profile: &str) -> (r: String)
        ensures
            r@ == join_spec(
                join_spec(collection_dir_spec(*self, collection@), "profiles"@),
                profile@ + ".plist"@,
            ),
    {
        let mut name = crate::text::chars_of(profile);
        crate::text::append_str(&mut name, ".plist");
        let file = crate::text::string_of(name.as_slice());
        join(self.profile_dir(collection).as_str(), file.as_str())
    }

    /// The assets directory of a collection.
    pub fn assets_dir(&self, collection: &str) -> (r: String)
        ensures
            r@ == assets_dir_spec(*self, collection@),
    {
        join(self.collection_dir(collection).as_str(), "assets")
    }

    /// The directory of a collection's Aerial video backups.
    pub fn aerial_assets_dir(&self, collection: &str) -> (r: String)
        ensures
            r@ == join_spec(assets_dir_spec(*self, collection@), "aerials"@),
    {
        join(self.assets_dir(collection).as_str(), "aerials")
    }

    /// A file in a collection's assets directory.
    pub fn managed_asset_path(&self, collection: &str, filename: &str) -> (r: String)
        ensures
            r@ == join_spec(assets_dir_spec(*self, collection@), filename@),
    {
        join(self.assets_dir(collection).as_str(), filename)
    }

    /// A path for display: `~/` and the rest when it lies under the home directory,
    /// the path itself otherwise.
    pub fn path_in_home(&self, path: &str) -> (r: String)
        ensures
            r@ == (if path_starts_with(path@, self.home@) {
                "~/"@ + stripped_text(path@, self.home@)
            } else {
                path@
            }),
    {
        if starts_with_path(path, self.home.as_str()) {
            let rest = strip_prefix_text(path, self.home.as_str());
            let mut v = crate::text::chars_of("~/");
            crate::text::append_str(&mut v, rest.as_str());
            crate::text::string_of(v.as_slice())
        } else {
            crate::config::string_of_str(path)
        }
    }
}

} // verus!
