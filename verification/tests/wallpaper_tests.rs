use wallctl::config::ApplyMode;
use wallctl::plist_tree::{PlistDict, PlistValue};
use wallctl::wallpaper::{apply_outcome, live_matches_profile, plan_apply, ApplyOutcome};

#[test]
fn live_match_false_when_store_missing() {
    let profile = PlistValue::Dictionary(PlistDict::new());

    assert!(!live_matches_profile(&profile, None, ApplyMode::FullProfile).unwrap());
}

#[test]
fn live_match_compares_fingerprints() {
    let profile = PlistValue::Dictionary(PlistDict::new());
    let same = PlistValue::Dictionary(PlistDict::new());
    assert!(live_matches_profile(&profile, Some(&same), ApplyMode::FullProfile).unwrap());
    let mut other = PlistDict::new();
    other.insert("Idle".to_string(), PlistValue::Boolean(true));
    let other = PlistValue::Dictionary(other);
    assert!(!live_matches_profile(&profile, Some(&other), ApplyMode::FullProfile).unwrap());
    assert!(live_matches_profile(&profile, Some(&other), ApplyMode::WallpaperOnly).unwrap());
}

#[test]
fn matching_live_wallpaper_is_left_alone_unless_forced() {
    assert!(matches!(
        apply_outcome(false, "abc".to_string(), Some("abc"), false),
        ApplyOutcome::NoOp { fingerprint } if fingerprint == "abc"
    ));
    assert!(matches!(
        apply_outcome(true, "abc".to_string(), Some("abc"), true),
        ApplyOutcome::Applied { restored_asset: true, .. }
    ));
    assert!(matches!(
        apply_outcome(false, "abc".to_string(), None, false),
        ApplyOutcome::Applied { .. }
    ));
}

#[test]
fn apply_plan_writes_only_when_the_live_wallpaper_differs_or_is_forced() {
    let profile = PlistValue::Dictionary(PlistDict::new());
    let mut other = PlistDict::new();
    other.insert("Idle".to_string(), PlistValue::Boolean(true));
    let live = PlistValue::Dictionary(other);

    let (outcome, next) = plan_apply(&profile, Some(&live), ApplyMode::FullProfile, false, false).unwrap();
    assert!(matches!(outcome, ApplyOutcome::Applied { restored_asset: false, .. }));
    assert!(matches!(next, Some(PlistValue::Dictionary(d)) if d.len() == 0));

    let (outcome, next) = plan_apply(&profile, Some(&live), ApplyMode::WallpaperOnly, false, false).unwrap();
    assert!(matches!(outcome, ApplyOutcome::NoOp { .. }));
    assert!(next.is_none());

    let (outcome, next) = plan_apply(&profile, Some(&live), ApplyMode::WallpaperOnly, true, true).unwrap();
    assert!(matches!(outcome, ApplyOutcome::Applied { restored_asset: true, .. }));
    assert!(matches!(next, Some(PlistValue::Dictionary(d)) if d.get("Idle").is_some()));

    let (_, next) = plan_apply(&profile, None, ApplyMode::Smart, false, false).unwrap();
    assert!(next.is_some());
}
