use wallctl::asset_refs::{collect_file_references, local_asset_reference, rewrite_file_references};
use wallctl::assets::{
    aerial_backup, aerial_candidates, aerial_manifest, aerial_video_path, candidate_name, copy_wallpaper_asset, first_cached,
    restore_required_assets, validate_required_assets, AerialManifest, AssetError, AssetFacts,
    CopyAction, ManifestCategory, ManifestEntry, RestoreAction,
};
use wallctl::fs_path::join;
use wallctl::json::parse_json;
use wallctl::paths::WallctlPaths;
use wallctl::plist_tree::{PlistDict, PlistValue};
use wallctl::profile::{analyze_profile, promote_default_aerial_profile, ProfileInfo, AERIAL_PROVIDER};

const HOME: &str = "/Users/tester";

fn text(s: &str) -> PlistValue {
    PlistValue::String(s.to_string())
}

fn dict(entries: Vec<(&str, PlistValue)>) -> PlistValue {
    let mut d = PlistDict::new();
    for (k, v) in entries {
        d.insert(k.to_string(), v);
    }
    PlistValue::Dictionary(d)
}

fn profile_with_choice(choice: PlistValue) -> PlistValue {
    let content = dict(vec![("Choices", PlistValue::Array(vec![choice]))]);
    let linked = dict(vec![("Content", content)]);
    let all = dict(vec![("Linked", linked)]);
    dict(vec![("AllSpacesAndDisplays", all)])
}

fn entry(id: Option<&str>, order: Option<i64>) -> ManifestEntry {
    ManifestEntry { asset_id: id.map(|s| s.to_string()), preferred_order: order }
}

fn aerial_info(id: Option<&str>) -> ProfileInfo {
    ProfileInfo {
        provider: AERIAL_PROVIDER.to_string(),
        aerial_asset_id: id.map(|s| s.to_string()),
        file_references: Vec::new(),
    }
}

#[test]
fn copies_and_rewrites_file_asset_references() {
    let paths = WallctlPaths::from_home(HOME);
    let source = join(HOME, "Pictures/Focus.heic");
    let choice = dict(vec![
        ("Provider", text("com.apple.wallpaper.choice.image")),
        ("Path", text(&format!("file://{}", source))),
    ]);
    let mut profile = profile_with_choice(choice);

    let references = collect_file_references(&profile);
    assert_eq!(references, vec![source.clone()]);

    let destination = match copy_wallpaper_asset(&paths, "focus", &source, true).unwrap() {
        CopyAction::CopyInto { assets_dir, file_name } => {
            assert_eq!(file_name, "Focus.heic");
            join(&assets_dir, &candidate_name(&file_name, 0))
        }
        CopyAction::Keep(_) => panic!("a file outside the collection is copied"),
    };
    let copied_files = rewrite_file_references(&mut profile, &[destination.clone()]);

    assert_eq!(copied_files.len(), 1);
    assert!(copied_files[0].1.starts_with(&paths.assets_dir("focus")));
    assert_eq!(copied_files[0], (source, destination.clone()));
    assert_eq!(collect_file_references(&profile), vec![destination]);
}

#[test]
fn restores_missing_aerial_cache_from_backup() {
    let paths = WallctlPaths::from_home(HOME);
    let backup = join(&paths.aerial_assets_dir("aerial"), "asset-1.mov");
    let info = aerial_info(Some("asset-1"));
    let facts = AssetFacts { references_present: Vec::new(), cache_present: false, backup_present: true };

    match restore_required_assets(&paths, "aerial", &info, &facts).unwrap() {
        RestoreAction::CopyBackup { backup: from, cache } => {
            assert_eq!(from, backup);
            assert_eq!(cache, join(&paths.aerial_cache, "asset-1.mov"));
        }
        RestoreAction::Nothing => panic!("the cached video is missing"),
    }
}

#[test]
fn promotes_default_wallpaper_to_manifest_aerial_asset_on_capture() {
    let paths = WallctlPaths::from_home(HOME);
    let asset_id = "4C108785-A7BA-422E-9C79-B0129F1D5550";
    let source = format!(
        r#"{{
            "assets": [
                {{"id": "{asset_id}", "preferredOrder": 1}}
            ],
            "categories": [
                {{
                    "preferredOrder": 0,
                    "subcategories": [
                        {{
                            "preferredOrder": -1,
                            "representativeAssetID": "{asset_id}"
                        }}
                    ]
                }}
            ]
        }}"#
    );
    let manifest = aerial_manifest(&parse_json(&source).unwrap());
    assert_eq!(
        manifest,
        AerialManifest {
            categories: Some(vec![ManifestCategory {
                representative: entry(None, Some(0)),
                subcategories: vec![entry(Some(asset_id), Some(-1))],
            }]),
            assets: Some(vec![entry(Some(asset_id), Some(1))]),
        }
    );
    let candidates = aerial_candidates(&manifest);
    assert_eq!(candidates, vec![asset_id.to_string(), asset_id.to_string()]);
    let chosen = first_cached(&candidates, &[true, true]).unwrap();
    assert_eq!(chosen, asset_id);

    let choice = dict(vec![("Provider", text("default")), ("Configuration", PlistValue::Data(Vec::new()))]);
    let mut profile = profile_with_choice(choice);
    assert_eq!(promote_default_aerial_profile(&mut profile, &chosen), Ok(1));
    let info = analyze_profile(&profile).unwrap();

    assert_eq!(info.provider, AERIAL_PROVIDER);
    assert_eq!(info.aerial_asset_id.as_deref(), Some(asset_id));
    assert_eq!(
        aerial_video_path(&paths.aerial_assets_dir("aerial"), asset_id),
        join(&paths.aerial_assets_dir("aerial"), &format!("{asset_id}.mov"))
    );
}

#[test]
fn manifest_candidates_follow_preferred_order_representatives_first() {
    let manifest = AerialManifest {
        categories: Some(vec![
            ManifestCategory {
                representative: entry(Some("cat-b"), Some(5)),
                subcategories: vec![entry(Some("sub-a"), Some(2)), entry(None, Some(0))],
            },
            ManifestCategory { representative: entry(Some("cat-c"), None), subcategories: vec![] },
        ]),
        assets: Some(vec![entry(Some("late"), Some(9)), entry(Some("early"), Some(-3)), entry(None, Some(1))]),
    };
    assert_eq!(aerial_candidates(&manifest), vec!["sub-a", "cat-b", "cat-c", "early", "late"]);
    assert!(aerial_candidates(&AerialManifest { categories: None, assets: None }).is_empty());
}

#[test]
fn equal_preferred_orders_keep_manifest_order() {
    let manifest = AerialManifest {
        categories: None,
        assets: Some(vec![entry(Some("x"), Some(1)), entry(Some("y"), Some(1)), entry(Some("z"), None), entry(Some("w"), None)]),
    };
    assert_eq!(aerial_candidates(&manifest), vec!["x", "y", "z", "w"]);
}

#[test]
fn first_cached_skips_missing_videos() {
    let ids = vec!["a".to_string(), "b".to_string(), "c".to_string()];
    assert_eq!(first_cached(&ids, &[false, true, true]), Some("b".to_string()));
    assert_eq!(first_cached(&ids, &[false, false, false]), None);
}

#[test]
fn missing_reference_is_reported_first() {
    let paths = WallctlPaths::from_home(HOME);
    let info = ProfileInfo {
        provider: AERIAL_PROVIDER.to_string(),
        aerial_asset_id: None,
        file_references: vec!["/a.png".to_string(), "/b.png".to_string()],
    };
    let facts = AssetFacts { references_present: vec![true, false], cache_present: false, backup_present: false };
    match validate_required_assets(&paths, "c", &info, &facts) {
        Err(AssetError::MissingFile { path }) => assert_eq!(path, "/b.png"),
        other => panic!("unexpected {:?}", other),
    }
}

#[test]
fn aerial_profile_needs_an_asset_and_a_video() {
    let paths = WallctlPaths::from_home(HOME);
    let none = AssetFacts { references_present: Vec::new(), cache_present: false, backup_present: false };
    assert!(matches!(
        validate_required_assets(&paths, "c", &aerial_info(None), &none),
        Err(AssetError::MissingAerialAssetId)
    ));
    match validate_required_assets(&paths, "c", &aerial_info(Some("id")), &none) {
        Err(AssetError::MissingAerialVideo { asset_id, backup }) => {
            assert_eq!(asset_id, "id");
            assert_eq!(backup, join(&paths.aerial_assets_dir("c"), "id.mov"));
        }
        other => panic!("unexpected {:?}", other),
    }
    let cached = AssetFacts { references_present: Vec::new(), cache_present: true, backup_present: false };
    assert!(validate_required_assets(&paths, "c", &aerial_info(Some("id")), &cached).is_ok());
    assert!(matches!(
        restore_required_assets(&paths, "c", &aerial_info(Some("id")), &cached),
        Ok(RestoreAction::Nothing)
    ));
}

#[test]
fn copy_keeps_managed_files_and_refuses_missing_ones() {
    let paths = WallctlPaths::from_home(HOME);
    let managed = join(&paths.assets_dir("focus"), "Focus.heic");
    assert!(matches!(copy_wallpaper_asset(&paths, "focus", &managed, true), Ok(CopyAction::Keep(p)) if p == managed));
    assert!(matches!(
        copy_wallpaper_asset(&paths, "focus", "/tmp/gone.png", false),
        Err(AssetError::MissingFile { path }) if path == "/tmp/gone.png"
    ));
}

#[test]
fn numbered_copy_names_keep_the_extension() {
    assert_eq!(candidate_name("Focus.heic", 0), "Focus.heic");
    assert_eq!(candidate_name("Focus.heic", 2), "Focus-2.heic");
    assert_eq!(candidate_name("archive.tar.gz", 1), "archive.tar-1.gz");
    assert_eq!(candidate_name("README", 3), "README-3");
    assert_eq!(candidate_name(".hidden", 1), ".hidden-1");
}

#[test]
fn file_urls_and_absolute_paths_are_local_references() {
    let r = local_asset_reference("  file:///Users/me/My%20Photo.JPG ").unwrap();
    assert_eq!(r.path, "/Users/me/My Photo.JPG");
    assert!(r.was_file_url);
    let r = local_asset_reference("/Library/Desktop Pictures/Sky.heic").unwrap();
    assert!(!r.was_file_url);
    assert!(local_asset_reference("/Users/me/notes.txt").is_none());
    assert!(local_asset_reference("relative/pic.png").is_none());
}

#[test]
fn aerial_backup_copies_the_cached_video_into_the_collection() {
    let paths = WallctlPaths::from_home(HOME);
    let (source, destination) = aerial_backup(&paths, "aerial", "A1", true).unwrap();
    assert_eq!(source, join(&paths.aerial_cache, "A1.mov"));
    assert_eq!(destination, join(&paths.aerial_assets_dir("aerial"), "A1.mov"));
    match aerial_backup(&paths, "aerial", "A1", false) {
        Err(AssetError::MissingCachedVideo { asset_id, path }) => {
            assert_eq!(asset_id, "A1");
            assert_eq!(path, source);
        }
        other => panic!("unexpected {:?}", other),
    }
}

#[test]
fn manifest_fields_of_other_types_are_absent() {
    let text = r#"{"assets": [{"id": 7, "preferredOrder": "first"}, {"id": "x", "preferredOrder": 1.5}], "categories": {}}"#;
    let manifest = aerial_manifest(&parse_json(text).unwrap());
    assert_eq!(manifest.categories, None);
    assert_eq!(manifest.assets, Some(vec![entry(None, None), entry(Some("x"), None)]));
    assert!(parse_json("{not json").is_none());
}
