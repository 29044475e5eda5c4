use wallctl::live::{
    set_assignment, erase_assignment, import_video_if_available, clear_assignment, is_managed_video, normalized_collection,
    replaced_video, record_assignment, update_preferences, video_for, LiveConfig, LiveError,
    LivePreferencesUpdate, VideoImport,
};
use wallctl::paths::WallctlPaths;

#[test]
fn assignment_round_trips_and_can_be_cleared() {
    let paths = WallctlPaths::from_home("/tmp/home");
    let video = "/tmp/home/wallpaper.mov";

    let assignment = set_assignment(&paths, LiveConfig::default(), "focus", "default", video, false).unwrap();
    assert!(matches!(&assignment.import, VideoImport::Keep(p) if p == video));
    assert_eq!(video_for(&assignment.config, "focus", "default"), Some(video.to_string()));

    let (config, stale) = clear_assignment(&paths, assignment.config, "focus", "default").unwrap();
    assert!(config.collections.is_empty());
    assert_eq!(stale, None);
}

#[test]
fn recording_and_erasing_return_the_videos_they_replace() {
    let video = "/tmp/home/wallpaper.mov";
    let (config, previous) = record_assignment(LiveConfig::default(), "focus", "default", video).unwrap();
    assert_eq!(previous, None);
    assert_eq!(video_for(&config, "focus", "default"), Some(video.to_string()));
    let (config, removed) = erase_assignment(config, "focus", "default").unwrap();
    assert_eq!(removed, Some(video.to_string()));
    assert!(config.collections.is_empty());
}

#[test]
fn defaults_follow_the_active_collection() {
    let config = LiveConfig::default();
    assert!(!config.enabled);
    assert!(config.follow_active_collection);
    assert!(config.pause_on_battery);
    assert!(config.pinned_collection.is_none());
}

#[test]
fn reassigning_returns_the_previous_video_and_keeps_order() {
    let (c, _) = record_assignment(LiveConfig::default(), "zeta", "night", "/v/1.mov").unwrap();
    let (c, _) = record_assignment(c, "alpha", "day", "/v/2.mov").unwrap();
    let (c, prev) = record_assignment(c, "zeta", "night", "/v/3.mov").unwrap();
    assert_eq!(prev, Some("/v/1.mov".to_string()));
    let names: Vec<&str> = c.collections.iter().map(|(n, _)| n.as_str()).collect();
    assert_eq!(names, vec!["alpha", "zeta"]);
    let (c, removed) = erase_assignment(c, "zeta", "morning").unwrap();
    assert_eq!(removed, None);
    assert_eq!(video_for(&c, "zeta", "night"), Some("/v/3.mov".to_string()));
}

#[test]
fn names_must_be_normalized() {
    assert!(matches!(
        record_assignment(LiveConfig::default(), "Focus Mode", "default", "/v.mov"),
        Err(LiveError::NotNormalizedSlug { expected, .. }) if expected == "focus-mode"
    ));
    assert!(matches!(normalized_collection("!!"), Err(LiveError::NoUsableCharacters { .. })));
    assert!(matches!(
        record_assignment(LiveConfig::default(), "focus", "a/b", "/v.mov"),
        Err(LiveError::ProfileName(_))
    ));
    let (c, _) = record_assignment(LiveConfig::default(), "focus", "Night.plist", "/v.mov").unwrap();
    assert_eq!(video_for(&c, "focus", "night"), Some("/v.mov".to_string()));
}

#[test]
fn preferences_update_only_what_is_named() {
    let update = LivePreferencesUpdate {
        enabled: Some(true),
        follow_active_collection: None,
        pinned_collection: Some(Some("focus".to_string())),
        pause_on_battery: Some(false),
    };
    let c = update_preferences(LiveConfig::default(), update).unwrap();
    assert!(c.enabled && c.follow_active_collection && !c.pause_on_battery);
    assert_eq!(c.pinned_collection, Some("focus".to_string()));
    let clear = LivePreferencesUpdate {
        enabled: None,
        follow_active_collection: None,
        pinned_collection: Some(None),
        pause_on_battery: None,
    };
    let c = update_preferences(c, clear).unwrap();
    assert_eq!(c.pinned_collection, None);
    assert!(c.enabled);
    let bad = LivePreferencesUpdate {
        enabled: None,
        follow_active_collection: None,
        pinned_collection: Some(Some("Not A Slug".to_string())),
        pause_on_battery: None,
    };
    assert!(update_preferences(c, bad).is_err());
}

#[test]
fn existing_video_is_imported_into_collection_storage() {
    let paths = WallctlPaths::from_home("/tmp/home");
    let video = "/tmp/home/wallpaper.mov";
    let assignment = set_assignment(&paths, LiveConfig::default(), "focus", "default", video, true).unwrap();
    let VideoImport::Copy { destination, temporary } = assignment.import else {
        panic!("expected a copy");
    };
    assert_eq!(
        destination,
        "/tmp/home/Library/Application Support/wallctl/collections/focus/assets/live/default.mov"
    );
    assert_eq!(
        temporary,
        "/tmp/home/Library/Application Support/wallctl/collections/focus/assets/live/.default.mov.tmp"
    );
    let managed = video_for(&assignment.config, "focus", "default").unwrap();
    assert_eq!(managed, destination);
    assert!(is_managed_video(&paths, "focus", &managed));
    assert!(!is_managed_video(&paths, "focus", video));
    assert_eq!(assignment.stale_video, None);

    let (config, stale) = clear_assignment(&paths, assignment.config, "focus", "default").unwrap();
    assert!(config.collections.is_empty());
    assert_eq!(stale, Some(destination));
}

#[test]
fn replacing_a_managed_video_leaves_it_to_delete() {
    let paths = WallctlPaths::from_home("/tmp/home");
    let first = set_assignment(&paths, LiveConfig::default(), "focus", "default", "/v/a.mov", true).unwrap();
    let managed = video_for(&first.config, "focus", "default").unwrap();
    let second = set_assignment(&paths, first.config, "focus", "default", "/v/b.m4v", true).unwrap();
    assert_eq!(second.stale_video, Some(managed));
    let same = set_assignment(&paths, second.config, "focus", "default", "/v/c.m4v", true).unwrap();
    assert_eq!(same.stale_video, None);
    assert!(matches!(
        set_assignment(&paths, LiveConfig::default(), "Focus", "default", "/v/a.mov", true),
        Err(LiveError::NotNormalizedSlug { .. })
    ));
}

#[test]
fn missing_or_managed_videos_are_kept() {
    let paths = WallctlPaths::from_home("/tmp/home");
    assert!(matches!(
        import_video_if_available(&paths, "focus", "default", "/nowhere.mp4", false),
        VideoImport::Keep(p) if p == "/nowhere.mp4"
    ));
    let managed = "/tmp/home/Library/Application Support/wallctl/collections/focus/assets/live/x.mov";
    assert!(matches!(
        import_video_if_available(&paths, "focus", "default", managed, true),
        VideoImport::Keep(p) if p == managed
    ));
    let VideoImport::Copy { destination, .. } =
        import_video_if_available(&paths, "focus", "night", "/v/clip", true)
    else {
        panic!("expected a copy");
    };
    assert!(destination.ends_with("/live/night.mov"));
    assert_eq!(replaced_video(Some("/a/b.mov".to_string()), "/a//b.mov"), None);
    assert_eq!(replaced_video(Some("/a/b.mov".to_string()), "/a/c.mov"), Some("/a/b.mov".to_string()));
}
