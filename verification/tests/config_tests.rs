use wallctl::config::{
    normalize_profile_name, slugify, title_from_input, validate_slots, ApplyMode, CollectionConfig,
    ConfigError, Preset, ProfileNameError, ScheduleSlot, SlotError, Strategy,
};

fn slot(hour: u8, profile: &str) -> ScheduleSlot {
    ScheduleSlot {
        hour,
        profile: profile.to_string(),
    }
}

#[test]
fn slugify_normalizes_friendly_names() {
    assert_eq!(slugify("Aerial Day"), "aerial-day");
    assert_eq!(slugify(" Focus__Mode!! "), "focus-mode");
    assert_eq!(slugify("Already-good"), "already-good");
}

#[test]
fn validates_duplicate_schedule_hours() {
    let slots = vec![slot(6, "morning"), slot(6, "day")];

    assert!(validate_slots(&slots).is_err());
}

#[test]
fn slug_of_a_slug_is_itself() {
    for s in ["aerial-day", "focus-mode", "a1-b2-c3", "x"] {
        assert_eq!(slugify(s), s);
    }
    assert_eq!(slugify(&slugify("  Tahoe -- Night!  ")), "tahoe-night");
}

#[test]
fn slug_has_no_usable_characters() {
    assert_eq!(slugify("!!! ---"), "");
    assert_eq!(slugify(""), "");
}

#[test]
fn slug_lowercases_letters_and_keeps_digits() {
    assert_eq!(slugify("MacBook Pro 14"), "macbook-pro-14");
}

#[test]
fn titles_capitalise_words() {
    assert_eq!(title_from_input("focus mode"), "Focus Mode");
    assert_eq!(title_from_input("aerial_day-night"), "Aerial Day Night");
}

#[test]
fn profile_names_are_normalized() {
    assert_eq!(normalize_profile_name("Morning.plist").unwrap(), "morning");
    assert_eq!(normalize_profile_name("  Late Night ").unwrap(), "late-night");
    assert_eq!(normalize_profile_name("   "), Err(ProfileNameError::Empty));
    assert_eq!(
        normalize_profile_name("a/b"),
        Err(ProfileNameError::PathSeparator {
            name: "a/b".to_string()
        })
    );
    assert_eq!(
        normalize_profile_name("!!!"),
        Err(ProfileNameError::NoUsableCharacters {
            name: "!!!".to_string()
        })
    );
}

#[test]
fn slot_errors_name_their_cause() {
    assert_eq!(validate_slots(&[]), Err(SlotError::NoSlots));
    assert_eq!(
        validate_slots(&[slot(24, "late")]),
        Err(SlotError::HourOutOfRange { hour: 24 })
    );
    assert_eq!(
        validate_slots(&[slot(6, "morning"), slot(6, "day")]),
        Err(SlotError::DuplicateHour { hour: 6 })
    );
    assert!(matches!(
        validate_slots(&[slot(6, "///")]),
        Err(SlotError::InvalidProfileName { hour: 6, .. })
    ));
    assert_eq!(validate_slots(&[slot(6, "morning"), slot(20, "night")]), Ok(()));
}

#[test]
fn presets_have_fixed_slots() {
    let three: Vec<(u8, String)> = Preset::Three
        .slots()
        .into_iter()
        .map(|s| (s.hour, s.profile))
        .collect();
    assert_eq!(
        three,
        vec![
            (6, "morning".to_string()),
            (10, "day".to_string()),
            (19, "night".to_string())
        ]
    );
    let four: Vec<u8> = Preset::Four.slots().into_iter().map(|s| s.hour).collect();
    assert_eq!(four, vec![6, 10, 17, 20]);
}

#[test]
fn new_collections_have_their_strategy() {
    let c = CollectionConfig::new_static("focus".to_string(), "Focus".to_string());
    assert_eq!(c.strategy, Strategy::Static);
    assert_eq!(c.apply_mode, ApplyMode::Smart);
    assert_eq!(c.default_profile_name().unwrap(), "default");
    assert!(c.validate_metadata().is_ok());

    let s = CollectionConfig::new_schedule("aerial-day".to_string(), "Aerial Day".to_string(), Some(Preset::Three));
    assert_eq!(s.slots.len(), 3);
    assert!(s.default_profile_name().is_err());
    assert!(s.validate_metadata().is_ok());
}

#[test]
fn metadata_errors_are_reported() {
    let mut c = CollectionConfig::new_static("Focus Mode".to_string(), "Focus".to_string());
    assert_eq!(
        c.validate_metadata(),
        Err(ConfigError::NameNotSlug {
            name: "Focus Mode".to_string(),
            expected: "focus-mode".to_string()
        })
    );
    c.name = " ".to_string();
    assert_eq!(c.validate_metadata(), Err(ConfigError::EmptyName));
    let mut d = CollectionConfig::new_dynamic("day".to_string(), "  ".to_string());
    assert_eq!(
        d.validate_metadata(),
        Err(ConfigError::EmptyTitle {
            name: "day".to_string()
        })
    );
    d.title = "Day".to_string();
    d.slots.push(slot(6, "morning"));
    assert!(matches!(
        d.validate_metadata(),
        Err(ConfigError::UnexpectedSlots { .. })
    ));
}

#[test]
fn apply_modes_have_names() {
    assert_eq!(ApplyMode::from_name("full-profile").unwrap(), ApplyMode::FullProfile);
    assert_eq!(ApplyMode::from_name("wallpaper-only").unwrap(), ApplyMode::WallpaperOnly);
    assert_eq!(ApplyMode::Smart.as_str(), "smart");
    assert!(ApplyMode::from_name("other").is_err());
    assert_eq!(ApplyMode::default_mode(), ApplyMode::Smart);
    assert_eq!(Strategy::Schedule.as_str(), "schedule");
}
