use wallctl::paths::WallctlPaths;

#[test]
fn locations_lie_under_the_home_directory() {
    let paths = WallctlPaths::from_home("/Users/test");
    assert_eq!(paths.app_support, "/Users/test/Library/Application Support/wallctl");
    assert_eq!(paths.state_file, "/Users/test/Library/Application Support/wallctl/state.toml");
    assert_eq!(paths.wallctl_log, "/Users/test/Library/Application Support/wallctl/logs/wallctl.log");
    assert_eq!(
        paths.launch_agent_plist,
        "/Users/test/Library/LaunchAgents/local.wallctl.scheduler.plist"
    );
    assert_eq!(
        paths.aerial_cache,
        "/Users/test/Library/Application Support/com.apple.wallpaper/aerials/videos"
    );
    assert_eq!(
        paths.profile_path("focus", "default"),
        "/Users/test/Library/Application Support/wallctl/collections/focus/profiles/default.plist"
    );
    assert_eq!(
        paths.aerial_assets_dir("focus"),
        "/Users/test/Library/Application Support/wallctl/collections/focus/assets/aerials"
    );
    assert_eq!(
        paths.managed_asset_path("focus", "a.png"),
        "/Users/test/Library/Application Support/wallctl/collections/focus/assets/a.png"
    );
    assert_eq!(
        paths.collection_config("focus"),
        "/Users/test/Library/Application Support/wallctl/collections/focus/collection.toml"
    );
}

#[test]
fn trailing_slash_home_joins_once() {
    let paths = WallctlPaths::from_home("/Users/test/");
    assert_eq!(paths.logs_dir, "/Users/test/Library/Logs/wallctl");
}

#[test]
fn paths_in_home_are_shown_with_a_tilde() {
    let paths = WallctlPaths::from_home("/Users/test");
    assert_eq!(
        paths.path_in_home("/Users/test/Library/Logs/wallctl/scheduler.out.log"),
        "~/Library/Logs/wallctl/scheduler.out.log"
    );
    assert_eq!(paths.path_in_home("/Users/test"), "~/");
    assert_eq!(paths.path_in_home("/Users/test//a/./b/"), "~/a/./b");
    assert_eq!(paths.path_in_home("/Users/tester/a"), "/Users/tester/a");
    assert_eq!(paths.path_in_home("/tmp/x"), "/tmp/x");
}

#[test]
fn system_locations_are_fixed_and_containers_lie_under_home() {
    let paths = WallctlPaths::from_home("/Users/test");
    assert_eq!(paths.wallpaper_extensions, "/System/Library/ExtensionKit/Extensions");
    assert_eq!(paths.system_wallpapers, "/System/Library/Desktop Pictures");
    assert_eq!(paths.app_containers, "/Users/test/Library/Containers");
}
