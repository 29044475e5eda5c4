use base64::Engine;
use wallctl::config::ApplyMode;
use wallctl::plist_tree::{clone_value, PlistDict, PlistValue};
use wallctl::profile::{
    aerial_configuration_data, analyze_profile, controlled_value, extract_aerial_asset_id,
    fingerprint, has_default_wallpaper_provider, merge_for_apply, promote_default_aerial_profile,
    resolved_apply_mode, validate_profile, wallpaper_provider, ProfileError, AERIAL_PROVIDER,
};

fn text(s: &str) -> PlistValue {
    PlistValue::String(s.to_string())
}

fn dict(entries: Vec<(&str, PlistValue)>) -> PlistValue {
    let mut d = PlistDict::new();
    for (k, v) in entries {
        d.insert(k.to_string(), v);
    }
    PlistValue::Dictionary(d)
}

fn sample_profile(provider: &str) -> PlistValue {
    let choice = dict(vec![("Provider", text(provider))]);
    let content = dict(vec![("Choices", PlistValue::Array(vec![choice]))]);
    let linked = dict(vec![("Content", content)]);
    let idle = dict(vec![("Keep", text("screen-saver"))]);
    let all = dict(vec![("Linked", linked), ("Idle", idle)]);
    dict(vec![("AllSpacesAndDisplays", all)])
}

fn root_mut(value: &mut PlistValue) -> &mut PlistDict {
    match value {
        PlistValue::Dictionary(d) => d,
        _ => unreachable!(),
    }
}

fn child_mut<'a>(d: &'a mut PlistDict, key: &str) -> &'a mut PlistDict {
    let entry = d.entries.iter_mut().find(|(k, _)| k == key).unwrap();
    match &mut entry.1 {
        PlistValue::Dictionary(d) => d,
        _ => unreachable!(),
    }
}

#[test]
fn finds_provider_in_linked_profile() {
    assert_eq!(
        wallpaper_provider(&sample_profile("com.apple.wallpaper.choice.image")).unwrap(),
        "com.apple.wallpaper.choice.image"
    );
}

#[test]
fn smart_mode_preserves_screen_saver_for_non_aerial_profiles() {
    let info = analyze_profile(&sample_profile("com.apple.wallpaper.choice.image")).unwrap();
    assert_eq!(resolved_apply_mode(ApplyMode::Smart, &info), ApplyMode::WallpaperOnly);
}

#[test]
fn smart_mode_uses_full_profile_for_aerial_profiles() {
    let mut profile = sample_profile(AERIAL_PROVIDER);
    root_mut(&mut profile).insert("assetID".to_string(), text("abc"));

    let info = analyze_profile(&profile).unwrap();
    assert_eq!(resolved_apply_mode(ApplyMode::Smart, &info), ApplyMode::FullProfile);
}

#[test]
fn explicit_modes_are_kept() {
    let info = analyze_profile(&sample_profile(AERIAL_PROVIDER)).unwrap();
    assert_eq!(resolved_apply_mode(ApplyMode::WallpaperOnly, &info), ApplyMode::WallpaperOnly);
    assert_eq!(resolved_apply_mode(ApplyMode::FullProfile, &info), ApplyMode::FullProfile);
}

#[test]
fn wallpaper_only_fingerprint_ignores_idle_changes() {
    let one = sample_profile("com.apple.wallpaper.choice.image");
    let mut two = clone_value(&one);
    root_mut(&mut two).insert("Idle".to_string(), text("changed"));

    assert_eq!(
        fingerprint(&one, ApplyMode::WallpaperOnly).unwrap(),
        fingerprint(&two, ApplyMode::WallpaperOnly).unwrap()
    );
    assert_ne!(
        fingerprint(&one, ApplyMode::FullProfile).unwrap(),
        fingerprint(&two, ApplyMode::FullProfile).unwrap()
    );
}

#[test]
fn fingerprint_ignores_volatile_wallpaper_timestamps() {
    let mut one = sample_profile("com.apple.wallpaper.choice.image");
    let mut two = clone_value(&one);

    for (value, timestamp) in [(&mut one, "first"), (&mut two, "second")] {
        let root = root_mut(value);
        let all_spaces = child_mut(root, "AllSpacesAndDisplays");
        let linked = child_mut(all_spaces, "Linked");
        linked.insert("LastSet".to_string(), text(timestamp));
        linked.insert("LastUse".to_string(), text(timestamp));
    }

    assert_eq!(
        fingerprint(&one, ApplyMode::FullProfile).unwrap(),
        fingerprint(&two, ApplyMode::FullProfile).unwrap()
    );
}

#[test]
fn fingerprint_ignores_several_timestamps_in_every_mode() {
    let mut one = sample_profile("com.apple.wallpaper.choice.image");
    let mut two = clone_value(&one);

    for (value, timestamp) in [(&mut one, "first"), (&mut two, "second")] {
        let root = root_mut(value);
        root.insert("LastUse".to_string(), text(timestamp));
        let all_spaces = child_mut(root, "AllSpacesAndDisplays");
        all_spaces.insert("LastSet".to_string(), text(timestamp));
        let linked = child_mut(all_spaces, "Linked");
        linked.insert("LastSet".to_string(), text(timestamp));
        linked.insert("LastUse".to_string(), text(timestamp));
    }

    for mode in [ApplyMode::FullProfile, ApplyMode::WallpaperOnly, ApplyMode::Smart] {
        assert_eq!(fingerprint(&one, mode).unwrap(), fingerprint(&two, mode).unwrap());
    }
}

#[test]
fn fingerprint_is_lowercase_hex_sha256() {
    let f = fingerprint(&dict(vec![]), ApplyMode::FullProfile).unwrap();
    assert_eq!(f.len(), 64);
    assert!(f.chars().all(|c| c.is_ascii_digit() || ('a'..='f').contains(&c)));
}

#[test]
fn wallpaper_only_merge_preserves_live_idle() {
    let profile = sample_profile("com.apple.wallpaper.choice.image");
    let mut live = sample_profile("old.provider");
    root_mut(&mut live).insert("Idle".to_string(), text("live-idle"));

    let merged = merge_for_apply(&profile, Some(&live), ApplyMode::WallpaperOnly);
    let PlistValue::Dictionary(ref root) = merged else {
        unreachable!();
    };
    assert_eq!(root.get("Idle"), Some(&text("live-idle")));
    assert_eq!(
        fingerprint(&controlled_value(&profile, ApplyMode::WallpaperOnly), ApplyMode::FullProfile)
            .unwrap(),
        fingerprint(&controlled_value(&merged, ApplyMode::WallpaperOnly), ApplyMode::FullProfile)
            .unwrap()
    );
}

#[test]
fn full_profile_merge_takes_the_profile() {
    let profile = sample_profile("com.apple.wallpaper.choice.image");
    let live = sample_profile("old.provider");
    assert_eq!(merge_for_apply(&profile, Some(&live), ApplyMode::FullProfile), profile);
    assert_eq!(
        wallpaper_provider(&merge_for_apply(&profile, Some(&live), ApplyMode::Smart)).unwrap(),
        "com.apple.wallpaper.choice.image"
    );
}

#[test]
fn extracts_nested_asset_id() {
    let config = dict(vec![("assetID", text("asset-1"))]);
    assert_eq!(extract_aerial_asset_id(&config), Some("asset-1".to_string()));
}

#[test]
fn promotes_default_provider_to_explicit_aerial_asset() {
    let mut profile = sample_profile("default");
    assert!(has_default_wallpaper_provider(&profile));

    let promoted = promote_default_aerial_profile(&mut profile, "asset-1").unwrap();

    assert_eq!(promoted, 1);
    assert_eq!(wallpaper_provider(&profile), Some(AERIAL_PROVIDER.to_string()));
    assert_eq!(extract_aerial_asset_id(&profile), Some("asset-1".to_string()));
}

#[test]
fn configuration_data_is_a_binary_plist() {
    let bytes = aerial_configuration_data("asset-2").unwrap();
    assert!(bytes.starts_with(b"bplist00"));
}

#[test]
fn profiles_without_provider_are_refused() {
    assert!(matches!(analyze_profile(&dict(vec![])), Err(ProfileError::NoWallpaperProvider)));
    assert!(matches!(
        validate_profile(&sample_profile(AERIAL_PROVIDER)),
        Err(ProfileError::MissingAerialAssetId)
    ));
    assert!(matches!(
        validate_profile(&sample_profile("   ")),
        Err(ProfileError::NoWallpaperProvider)
    ));
}

#[test]
fn analysis_lists_sorted_distinct_file_references() {
    let choice = dict(vec![
        ("Provider", text("com.apple.wallpaper.choice.image")),
        ("Path", text("file:///Users/me/Pictures/b%20c.HEIC")),
        ("Other", text("/Users/me/Pictures/a.png")),
        ("Again", text(" /Users/me//Pictures/a.png ")),
        ("Text", text("/Users/me/notes.txt")),
        ("Relative", text("Pictures/x.png")),
    ]);
    let info = analyze_profile(&dict(vec![("Choice", choice)])).unwrap();
    assert_eq!(
        info.file_references,
        vec![
            "/Users/me/Pictures/a.png".to_string(),
            "/Users/me/Pictures/b c.HEIC".to_string()
        ]
    );
    assert_eq!(info.aerial_asset_id, None);
}

fn aerial_profile(configuration: PlistValue) -> PlistValue {
    let choice = dict(vec![("Provider", text(AERIAL_PROVIDER)), ("Configuration", configuration)]);
    let content = dict(vec![("Choices", PlistValue::Array(vec![choice]))]);
    let linked = dict(vec![("Content", content)]);
    let all = dict(vec![("Linked", linked)]);
    dict(vec![("AllSpacesAndDisplays", all)])
}

#[test]
fn asset_id_is_read_from_embedded_configuration_data() {
    let data = aerial_configuration_data("ASSET-DATA").unwrap();
    let info = analyze_profile(&aerial_profile(PlistValue::Data(data))).unwrap();
    assert_eq!(info.aerial_asset_id.as_deref(), Some("ASSET-DATA"));
}

#[test]
fn asset_id_is_read_from_base64_configuration_text() {
    let data = aerial_configuration_data("ASSET-B64").unwrap();
    let encoded = base64::engine::general_purpose::STANDARD.encode(&data);
    let info = analyze_profile(&aerial_profile(text(&encoded))).unwrap();
    assert_eq!(info.aerial_asset_id.as_deref(), Some("ASSET-B64"));
    let info = analyze_profile(&aerial_profile(text("not base64 !!"))).unwrap();
    assert_eq!(info.aerial_asset_id, None);
}

#[test]
fn fingerprint_differs_between_profiles() {
    let a = fingerprint(&sample_profile("one"), ApplyMode::FullProfile).unwrap();
    let b = fingerprint(&sample_profile("two"), ApplyMode::FullProfile).unwrap();
    assert_ne!(a, b);
    assert_eq!(a.len(), 64);
}

#[test]
fn full_profile_apply_makes_live_match() {
    let profile = sample_profile(AERIAL_PROVIDER);
    let live = sample_profile("old.provider");
    let merged = merge_for_apply(&profile, Some(&live), ApplyMode::FullProfile);
    assert_eq!(merged, profile);
    assert_eq!(
        fingerprint(&merged, ApplyMode::FullProfile).unwrap(),
        fingerprint(&profile, ApplyMode::FullProfile).unwrap()
    );
}
