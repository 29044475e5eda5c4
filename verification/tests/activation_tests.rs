use wallctl::activation::{
    activation_profiles, dispatch_check, expected_profile_names, new_collection_config,
    normalize_collection_slug, profile_name_for_activation, profile_name_for_apply,
    profile_name_for_capture, ActivationError, CaptureProfile,
};
use wallctl::cli::{NewArgs, NewCollectionArgs, NewKind, NewScheduleArgs, PresetArg, ScheduleSlotArg};
use wallctl::config::{CollectionConfig, Preset, ScheduleSlot, Strategy};
use wallctl::paths::WallctlPaths;

fn slot(hour: u8, profile: &str) -> ScheduleSlot {
    ScheduleSlot { hour, profile: profile.to_string() }
}

fn schedule(slots: Vec<ScheduleSlot>) -> CollectionConfig {
    let mut c = CollectionConfig::new_schedule("day".to_string(), "Day".to_string(), None);
    c.slots = slots;
    c
}

#[test]
fn preset_schedule_needs_each_distinct_profile() {
    let config = CollectionConfig::new_schedule("aerial-day".to_string(), "Aerial Day".to_string(), Some(Preset::Three));
    let names = activation_profiles(&config).unwrap();
    assert_eq!(names.len(), 3);
    assert_eq!(names, expected_profile_names(&config).unwrap());
}

#[test]
fn repeated_slot_profiles_are_loaded_once() {
    let config = schedule(vec![slot(6, "Morning"), slot(12, "noon"), slot(18, "morning")]);
    assert_eq!(activation_profiles(&config).unwrap(), vec!["morning".to_string(), "noon".to_string()]);
}

#[test]
fn invalid_schedule_is_refused_before_any_profile() {
    let config = schedule(vec![slot(6, "a"), slot(6, "b")]);
    assert!(matches!(activation_profiles(&config), Err(ActivationError::Config(_))));
    assert!(matches!(profile_name_for_activation(&config, 8), Err(ActivationError::Slots(_))));
}

#[test]
fn slot_in_effect_is_chosen_by_hour() {
    let config = schedule(vec![slot(7, "Day"), slot(19, "Night")]);
    assert_eq!(profile_name_for_activation(&config, 12).unwrap(), "day");
    assert_eq!(profile_name_for_activation(&config, 3).unwrap(), "night");
    assert_eq!(profile_name_for_activation(&config, 19).unwrap(), "night");
}

#[test]
fn static_collections_use_their_default_profile() {
    let config = CollectionConfig::new_static("focus".to_string(), "Focus".to_string());
    assert_eq!(profile_name_for_activation(&config, 5).unwrap(), "default");
    assert_eq!(activation_profiles(&config).unwrap(), vec!["default".to_string()]);
    assert_eq!(profile_name_for_apply(&config, None, 5).unwrap(), "default");
    assert_eq!(profile_name_for_apply(&config, Some("Evening Glow"), 5).unwrap(), "evening-glow");
}

#[test]
fn capture_asks_for_a_schedule_profile_unless_one_is_given() {
    let config = schedule(vec![slot(7, "day")]);
    assert!(matches!(profile_name_for_capture(&config, None), Ok(CaptureProfile::Ask)));
    assert!(matches!(profile_name_for_capture(&config, Some("Night")), Ok(CaptureProfile::Named(n)) if n == "night"));
    let focus = CollectionConfig::new_static("focus".to_string(), "Focus".to_string());
    assert!(matches!(profile_name_for_capture(&focus, None), Ok(CaptureProfile::Named(n)) if n == "default"));
    assert!(matches!(profile_name_for_capture(&focus, Some("a/b")), Err(ActivationError::ProfileName(_))));
}

#[test]
fn dispatch_needs_an_active_schedule() {
    assert!(matches!(dispatch_check(None, None, "x"), Err(ActivationError::NoActiveCollection)));
    assert!(matches!(
        dispatch_check(Some("focus"), Some(Strategy::Static), "focus"),
        Err(ActivationError::NotScheduled { name }) if name == "focus"
    ));
    assert!(dispatch_check(Some("day"), Some(Strategy::Schedule), "day").is_ok());
}

#[test]
fn collection_arguments_must_already_be_slugs() {
    assert_eq!(normalize_collection_slug("focus-mode").unwrap(), "focus-mode");
    assert!(matches!(
        normalize_collection_slug("Focus Mode"),
        Err(ActivationError::NotExactSlug { input, slug }) if input == "Focus Mode" && slug == "focus-mode"
    ));
    assert!(matches!(normalize_collection_slug("!!!"), Err(ActivationError::NoUsableCharacters { .. })));
}

#[test]
fn creates_static_collection_from_cli() {
    let paths = WallctlPaths::from_home("/Users/tester");
    let config = new_collection_config(NewArgs {
        kind: NewKind::Static(NewCollectionArgs { name: "Focus Mode".to_string() }),
    })
    .unwrap();
    assert_eq!(config.name, "focus-mode");
    assert_eq!(config.title, "Focus Mode");
    assert_eq!(config.strategy, Strategy::Static);
    assert_eq!(config.default_profile.as_deref(), Some("default"));
    assert!(paths
        .collection_config(&config.name)
        .ends_with("Library/Application Support/wallctl/collections/focus-mode/collection.toml"));
}

#[test]
fn new_schedules_take_preset_or_sorted_custom_slots() {
    let preset = new_collection_config(NewArgs {
        kind: NewKind::Schedule(NewScheduleArgs { name: "Aerial Day".to_string(), preset: Some(PresetArg::Four), slots: vec![] }),
    })
    .unwrap();
    let hours: Vec<u8> = preset.slots.iter().map(|s| s.hour).collect();
    assert_eq!(hours, vec![6, 10, 17, 20]);
    assert_eq!(preset.default_profile, None);

    let custom = new_collection_config(NewArgs {
        kind: NewKind::Schedule(NewScheduleArgs {
            name: "Work Day".to_string(),
            preset: None,
            slots: vec![
                ScheduleSlotArg { hour: 13, profile: "afternoon".to_string() },
                ScheduleSlotArg { hour: 8, profile: "morning".to_string() },
            ],
        }),
    })
    .unwrap();
    assert_eq!(custom.slots, vec![slot(8, "morning"), slot(13, "afternoon")]);

    let clash = new_collection_config(NewArgs {
        kind: NewKind::Schedule(NewScheduleArgs {
            name: "Clash".to_string(),
            preset: None,
            slots: vec![
                ScheduleSlotArg { hour: 8, profile: "a".to_string() },
                ScheduleSlotArg { hour: 8, profile: "b".to_string() },
            ],
        }),
    });
    assert!(matches!(clash, Err(ActivationError::Slots(_))));
}

#[test]
fn new_collection_needs_a_usable_name() {
    let r = new_collection_config(NewArgs { kind: NewKind::Dynamic(NewCollectionArgs { name: "!!!".to_string() }) });
    assert!(matches!(r, Err(ActivationError::NoUsableCharacters { input }) if input == "!!!"));
}

#[test]
fn normalized_profile_names_normalize_to_themselves() {
    for raw in ["  Evening Glow.plist ", "Night", "a--b", "4K Landscape"] {
        let once = wallctl::config::normalize_profile_name(raw).unwrap();
        assert_eq!(wallctl::config::normalize_profile_name(&once).unwrap(), once);
    }
}
