use wallctl::config::{CollectionConfig, Preset};
use wallctl::listing::{inspect_lines, list_lines, InspectStatus, InspectedProfile};

#[test]
fn listing_without_collections_says_so() {
    assert_eq!(list_lines(&vec![], Some("focus")), vec!["No collections found.".to_string()]);
}

#[test]
fn listing_aligns_columns_and_marks_the_active_collection() {
    let collections = vec![
        CollectionConfig::new_static("focus".to_string(), "Focus".to_string()),
        CollectionConfig::new_dynamic("tahoe".to_string(), "Lake Tahoe at Dusk".to_string()),
    ];
    let lines = list_lines(&collections, Some("tahoe"));
    assert_eq!(
        lines,
        vec![
            "ACTIVE | COLLECTION                 | STRATEGY".to_string(),
            "------ | -------------------------- | --------".to_string(),
            "       | Focus (focus)              | static  ".to_string(),
            "yes    | Lake Tahoe at Dusk (tahoe) | dynamic ".to_string(),
        ]
    );
    let none_active = list_lines(&collections, None);
    assert!(none_active[2].starts_with("       | Focus"));
    assert!(none_active[3].starts_with("       | Lake"));
}

#[test]
fn listing_widths_count_bytes_and_padding_counts_characters() {
    let collections = vec![
        CollectionConfig::new_static("cafe".to_string(), "Café".to_string()),
        CollectionConfig::new_static("b".to_string(), "B".to_string()),
    ];
    let lines = list_lines(&collections, None);
    // "Café (cafe)" is 12 bytes long but 11 characters.
    assert_eq!(lines[0], "ACTIVE | COLLECTION   | STRATEGY");
    assert_eq!(lines[2], "       | Café (cafe)  | static  ");
    assert_eq!(lines[3], "       | B (b)        | static  ");
}

#[test]
fn inspection_lists_settings_schedule_and_profiles() {
    let config = CollectionConfig::new_schedule("day".to_string(), "Day".to_string(), Some(Preset::Three));
    let profiles = vec![
        InspectedProfile {
            name: "morning".to_string(),
            status: InspectStatus::Loaded { provider: "com.apple.wallpaper.choice.aerials".to_string(), asset_issue: None },
        },
        InspectedProfile {
            name: "day".to_string(),
            status: InspectStatus::Loaded {
                provider: "com.apple.wallpaper.choice.image".to_string(),
                asset_issue: Some("missing file /p.png".to_string()),
            },
        },
        InspectedProfile { name: "night".to_string(), status: InspectStatus::Invalid { message: "no profile".to_string() } },
    ];
    let lines = inspect_lines(&config, &profiles);
    let mut expected = vec![
        "Name: day".to_string(),
        "Title: Day".to_string(),
        "Strategy: schedule".to_string(),
        "Apply mode: smart".to_string(),
        "Schedule:".to_string(),
    ];
    for slot in &config.slots {
        expected.push(format!("  {:02}:00 {}", slot.hour, slot.profile));
    }
    expected.extend([
        "Profiles:".to_string(),
        "  morning          provider=com.apple.wallpaper.choice.aerials assets=ok".to_string(),
        "  day              provider=com.apple.wallpaper.choice.image assets=missing".to_string(),
        "    missing file /p.png".to_string(),
        "  night            invalid".to_string(),
        "    no profile".to_string(),
    ]);
    assert_eq!(lines, expected);
    assert_eq!(lines[5], "  06:00 morning");
}

#[test]
fn inspection_of_a_static_collection_names_its_default_profile() {
    let config = CollectionConfig::new_static("focus".to_string(), "Focus".to_string());
    let lines = inspect_lines(&config, &vec![]);
    assert_eq!(
        lines,
        vec!["Name: focus", "Title: Focus", "Strategy: static", "Apply mode: smart", "Default profile: default", "Profiles:"]
    );
}
