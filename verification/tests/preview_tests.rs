use wallctl::config::{CollectionConfig, Preset};
use wallctl::fs_path::join;
use wallctl::json::parse_json;
use wallctl::paths::WallctlPaths;
use wallctl::plist_tree::{to_binary_bytes, PlistDict, PlistValue};
use wallctl::preview::{
    catalog_facts_fit, container_video_theme, container_videos, expected_profile_names, extension_light_video,
    extension_manifest_choice, extension_stem, extension_video_filenames, load_catalog, manifest_asset_for,
    normalized_tokens, profile_preview, themed_image, ExtensionWallpaperAsset, ManifestAsset,
    PreviewFacts, ProfileLoad, VideoTheme,
};
use wallctl::profile::{descriptor_path, AERIAL_PROVIDER};

const HOME: &str = "/Users/tester";

fn facts(name: &str, profile_path: &str, load: ProfileLoad) -> PreviewFacts {
    PreviewFacts {
        name: name.to_string(),
        profile_path: profile_path.to_string(),
        assigned_video: None,
        load,
        manifest_asset: None,
        extension_asset: None,
        aerial_video: None,
        assets_issue: None,
        video_is_file: false,
    }
}

fn loaded(provider: &str, asset: Option<&str>, still: Option<&str>) -> ProfileLoad {
    ProfileLoad::Loaded {
        provider: provider.to_string(),
        aerial_asset_id: asset.map(|s| s.to_string()),
        still_image: still.map(|s| s.to_string()),
    }
}

#[test]
fn catalog_detects_cached_aerial_video_by_asset_id() {
    let paths = WallctlPaths::from_home(HOME);
    let config = CollectionConfig::new_static("tahoe".to_string(), "Tahoe".to_string());
    let asset_id = "ASSET-ID";
    let profile_path = paths.profile_path("tahoe", "default");
    let mut f = facts("default", &profile_path, loaded(AERIAL_PROVIDER, Some(asset_id), None));
    f.aerial_video = Some(join(&paths.aerial_cache, &format!("{asset_id}.mov")));
    f.video_is_file = true;

    let catalog = load_catalog(vec![config], &vec![vec![f]]);
    let preview = &catalog.collections[0].profiles[0];
    assert!(preview.live_capable);
    assert!(preview.automatic_live_asset);
    assert_eq!(preview.aerial_asset_id.as_deref(), Some(asset_id));
    assert_eq!(preview.video_path, Some(join(&paths.aerial_cache, "ASSET-ID.mov")));
    assert!(preview.valid);
    assert!(preview.issues.is_empty());
}

#[test]
fn catalog_resolves_extension_thumbnail_and_system_video() {
    let resources = "/Extensions/NeptuneOneWallpaper.appex/Contents/Resources";
    let videos = "/Containers/com.apple.NeptuneOneExtension/Data/Library/Application Support/Videos";
    let light_video = join(videos, "Tahoe Light Landscape.mov");
    let dark_video = join(videos, "Tahoe Dark Landscape.mov");

    let tokens = normalized_tokens("Tahoe");
    assert_eq!(container_video_theme(&tokens, &light_video), Some(VideoTheme::Light));
    assert_eq!(container_video_theme(&tokens, &dark_video), Some(VideoTheme::Dark));
    let listed = vec![join(videos, "notes.txt"), light_video.clone(), dark_video.clone(), join(videos, "Tahoe Portrait.mov")];
    assert_eq!(container_videos(&tokens, &listed), (Some(light_video.clone()), Some(dark_video.clone())));
    let later = vec![light_video.clone(), join(videos, "Tahoe Light Landscape 2.mp4")];
    assert_eq!(container_videos(&tokens, &later), (Some(join(videos, "Tahoe Light Landscape 2.mp4")), None));
    let images = vec![
        join(resources, "thumbnail.heic"),
        join(resources, "TahoeLight.heic"),
        join(resources, "TahoeDark.heic"),
        join(resources, "notes.txt"),
    ];
    assert_eq!(themed_image(&images, "light"), Some(join(resources, "TahoeLight.heic")));
    assert_eq!(themed_image(&images, "dark"), Some(join(resources, "TahoeDark.heic")));
    let manifest = vec![
        ("identifier".to_string(), Some("Tahoe".to_string())),
        (
            "lightLandscapeRemoteURL".to_string(),
            Some("https://example.com/tahoe-light-landscape.mov".to_string()),
        ),
    ];
    assert_eq!(extension_video_filenames(&manifest), Some(vec!["tahoe-light-landscape.mov".to_string()]));
    let json = parse_json(
        r#"{
            "identifier":"Tahoe",
            "lightLandscapeRemoteURL":"https://example.com/tahoe-light-landscape.mov"
        }"#,
    )
    .unwrap();
    let (display_name, names) = extension_manifest_choice(Some(&json), "NeptuneOne");
    assert_eq!(display_name, "Tahoe");
    assert_eq!(names, Some(vec!["tahoe-light-landscape.mov".to_string()]));
    assert_eq!(extension_manifest_choice(None, "NeptuneOne"), ("NeptuneOne".to_string(), None));
    let system_video = "/Wallpapers/Tahoe/Tahoe-Light/tahoe-light-landscape.mov".to_string();
    assert_eq!(
        extension_light_video(Some(light_video.clone()), Some(system_video.clone())),
        Some(light_video.clone())
    );
    assert_eq!(extension_light_video(None, Some(system_video.clone())), Some(system_video));

    let config = CollectionConfig::new_dynamic("tahoe".to_string(), "Tahoe".to_string());
    let mut f = facts("default", "/p/default.plist", loaded("com.apple.NeptuneOneExtension", None, None));
    f.extension_asset = Some(ExtensionWallpaperAsset {
        display_name: "Tahoe".to_string(),
        thumbnail_path: Some(join(resources, "thumbnail.heic")),
        light_image_path: Some(join(resources, "TahoeLight.heic")),
        dark_image_path: Some(join(resources, "TahoeDark.heic")),
        light_video_path: Some(light_video.clone()),
        dark_video_path: Some(dark_video.clone()),
    });
    f.video_is_file = true;

    let catalog = load_catalog(vec![config], &vec![vec![f]]);
    let preview = &catalog.collections[0].profiles[0];
    assert_eq!(preview.display_name.as_deref(), Some("Tahoe"));
    assert_eq!(preview.still_image_path, Some(join(resources, "thumbnail.heic")));
    assert_eq!(preview.light_image_path, Some(join(resources, "TahoeLight.heic")));
    assert_eq!(preview.dark_image_path, Some(join(resources, "TahoeDark.heic")));
    assert_eq!(preview.video_path.as_deref(), Some(light_video.as_str()));
    assert_eq!(preview.light_video_path.as_deref(), Some(light_video.as_str()));
    assert_eq!(preview.dark_video_path.as_deref(), Some(dark_video.as_str()));
    assert!(preview.live_capable);
    assert!(preview.automatic_live_asset);
}

#[test]
fn catalog_resolves_madesktop_thumbnail_from_embedded_configuration() {
    let paths = WallctlPaths::from_home(HOME);
    let config = CollectionConfig::new_static("macbook-pro".to_string(), "Macbook Pro".to_string());
    let thumbnail = join(HOME, "Pro Black.heic");
    let profile_path = paths.profile_path("macbook-pro", "default");
    let f = facts(
        "default",
        &profile_path,
        loaded("com.apple.wallpaper.choice.image", None, Some(&thumbnail)),
    );

    let catalog = load_catalog(vec![config], &vec![vec![f]]);
    let preview = &catalog.collections[0].profiles[0];
    assert_eq!(preview.still_image_path.as_deref(), Some(thumbnail.as_str()));
    assert_eq!(preview.profile_path.as_deref(), Some(profile_path.as_str()));
    assert!(!preview.live_capable);
    assert!(!preview.automatic_live_asset);
}

#[test]
fn uncaptured_and_unreadable_profiles_are_listed_with_their_problem() {
    let p = profile_preview(&facts("night", "/c/night.plist", ProfileLoad::NotCaptured));
    assert!(!p.captured);
    assert!(!p.valid);
    assert_eq!(p.profile_path, None);
    assert_eq!(p.issues, vec!["profile has not been captured: /c/night.plist".to_string()]);

    let mut f = facts("day", "/c/day.plist", ProfileLoad::Failed { message: "bad plist".to_string() });
    f.assigned_video = Some("/v/day.mov".to_string());
    let p = profile_preview(&f);
    assert!(p.captured);
    assert!(!p.valid);
    assert_eq!(p.profile_path.as_deref(), Some("/c/day.plist"));
    assert!(p.live_capable);
    assert_eq!(p.video_path.as_deref(), Some("/v/day.mov"));
    assert_eq!(p.issues, vec!["bad plist".to_string()]);
}

#[test]
fn assigned_video_wins_and_a_missing_one_is_reported() {
    let mut f = facts("day", "/c/day.plist", loaded(AERIAL_PROVIDER, Some("A"), None));
    f.assigned_video = Some("/v/mine.mov".to_string());
    f.aerial_video = Some("/cache/A.mov".to_string());
    f.manifest_asset = Some(ManifestAsset {
        accessibility_label: "Sky".to_string(),
        preview_image: Some("https://img/sky.jpg".to_string()),
    });
    f.assets_issue = Some("asset missing".to_string());
    let p = profile_preview(&f);
    assert_eq!(p.video_path.as_deref(), Some("/v/mine.mov"));
    assert!(!p.automatic_live_asset);
    assert!(!p.live_capable);
    assert!(!p.valid);
    assert_eq!(p.display_name.as_deref(), Some("Sky"));
    assert_eq!(p.preview_image_url.as_deref(), Some("https://img/sky.jpg"));
    assert_eq!(
        p.issues,
        vec!["asset missing".to_string(), "assigned live video is missing: /v/mine.mov".to_string()]
    );
}

#[test]
fn tokens_are_lowercase_letter_and_digit_words() {
    assert_eq!(normalized_tokens("Tahoe Light-Landscape 4K.mov"), vec!["tahoe", "light", "landscape", "4k", "mov"]);
    assert!(normalized_tokens(" -- ").is_empty());
}

#[test]
fn container_videos_need_every_identifier_word_and_landscape() {
    let tokens = normalized_tokens("Big Sur");
    assert_eq!(container_video_theme(&tokens, "/v/Big Sur Dark Landscape.MP4"), Some(VideoTheme::Dark));
    assert_eq!(container_video_theme(&tokens, "/v/Big Dark Landscape.mov"), None);
    assert_eq!(container_video_theme(&tokens, "/v/Big Sur Light Portrait.mov"), None);
    assert_eq!(container_video_theme(&tokens, "/v/Big Sur Light Landscape.heic"), None);
    assert_eq!(container_video_theme(&tokens, "/v/Big Sur Landscape.mov"), None);
}

#[test]
fn extension_videos_list_light_first_then_by_name() {
    let manifest = vec![
        ("darkLandscapeRemoteURL".to_string(), Some("https://x/b-dark.mov".to_string())),
        ("lightPortraitRemoteURL".to_string(), Some("https://x/portrait.mov".to_string())),
        ("lightLandscapeRemoteURL".to_string(), Some("https://x/z-light.mov".to_string())),
        ("otherLandscapeRemoteURL".to_string(), Some("https://x/a-other.mov".to_string())),
        ("missingLandscapeRemoteURL".to_string(), None),
    ];
    assert_eq!(
        extension_video_filenames(&manifest),
        Some(vec!["z-light.mov".to_string(), "a-other.mov".to_string(), "b-dark.mov".to_string()])
    );
    assert_eq!(extension_video_filenames(&vec![("identifier".to_string(), Some("T".to_string()))]), None);
}

#[test]
fn themed_image_takes_the_first_by_path_order() {
    let files = vec!["/r/b-Night.png".to_string(), "/r/a-night.JPG".to_string(), "/r/night.mov".to_string()];
    assert_eq!(themed_image(&files, "night"), Some("/r/a-night.JPG".to_string()));
    assert_eq!(themed_image(&files, "day"), None);
}

#[test]
fn preview_lists_schedule_slot_profiles() {
    let config = CollectionConfig::new_schedule("s".to_string(), "S".to_string(), Some(Preset::Three));
    let names = expected_profile_names(&config);
    assert_eq!(names.len(), 3);
    let static_config = CollectionConfig::new_static("f".to_string(), "F".to_string());
    assert_eq!(expected_profile_names(&static_config), vec!["default".to_string()]);
}

#[test]
fn extension_stems_come_from_the_provider_name() {
    assert_eq!(extension_stem("com.apple.NeptuneOneExtension").as_deref(), Some("NeptuneOne"));
    assert_eq!(extension_stem("SoloExtension").as_deref(), Some("Solo"));
    assert_eq!(extension_stem("com.apple.wallpaper.choice.image"), None);
}

#[test]
fn descriptor_path_follows_the_configuration_url() {
    let mut url = PlistDict::new();
    url.insert("relative".to_string(), PlistValue::String("file:///Users/me/Pro%20Black.madesktop".to_string()));
    let mut configuration = PlistDict::new();
    configuration.insert("url".to_string(), PlistValue::Dictionary(url));
    let data = to_binary_bytes(&PlistValue::Dictionary(configuration)).unwrap();

    let mut choice = PlistDict::new();
    choice.insert("Provider".to_string(), PlistValue::String("com.apple.wallpaper.choice.image".to_string()));
    choice.insert("Configuration".to_string(), PlistValue::Data(data));
    let mut content = PlistDict::new();
    content.insert("Choices".to_string(), PlistValue::Array(vec![PlistValue::Dictionary(choice)]));
    let mut linked = PlistDict::new();
    linked.insert("Content".to_string(), PlistValue::Dictionary(content));
    let mut all = PlistDict::new();
    all.insert("Linked".to_string(), PlistValue::Dictionary(linked));
    let mut root = PlistDict::new();
    root.insert("AllSpacesAndDisplays".to_string(), PlistValue::Dictionary(all));

    assert_eq!(
        descriptor_path(&PlistValue::Dictionary(root)).as_deref(),
        Some("/Users/me/Pro Black.madesktop")
    );
    assert_eq!(descriptor_path(&PlistValue::Dictionary(PlistDict::new())), None);
}

#[test]
fn manifest_assets_are_found_by_id_and_fall_back_to_the_id() {
    let json = parse_json(
        r#"{"assets": [
            {"id": "A", "accessibilityLabel": "Tahoe Day", "previewImage": "https://x/a.jpg"},
            {"accessibilityLabel": "no id"},
            {"id": "B"},
            {"id": "A", "accessibilityLabel": "Tahoe Again"}
        ]}"#,
    )
    .unwrap();
    assert_eq!(
        manifest_asset_for(&json, "A"),
        Some(ManifestAsset { accessibility_label: "Tahoe Again".to_string(), preview_image: None })
    );
    assert_eq!(
        manifest_asset_for(&json, "B"),
        Some(ManifestAsset { accessibility_label: "B".to_string(), preview_image: None })
    );
    assert_eq!(manifest_asset_for(&json, "C"), None);
    let empty = parse_json("[]").unwrap();
    assert_eq!(manifest_asset_for(&empty, "A"), None);
}

#[test]
fn catalog_facts_must_name_the_listed_profiles() {
    let config = CollectionConfig::new_static("tahoe".to_string(), "Tahoe".to_string());
    let good = vec![vec![facts("default", "/p/default.plist", ProfileLoad::NotCaptured)]];
    let wrong = vec![vec![facts("night", "/p/night.plist", ProfileLoad::NotCaptured)]];
    let configs = vec![config];
    assert!(catalog_facts_fit(&configs, &good));
    assert!(!catalog_facts_fit(&configs, &wrong));
    assert!(!catalog_facts_fit(&configs, &vec![]));
    assert!(!catalog_facts_fit(&configs, &vec![vec![]]));
}
