use wallctl::cli::{PresetArg, ScheduleSlotArg};
use wallctl::config::{CollectionConfig, Strategy};
use wallctl::interactive::{
    available_hours, collection_prompt, collection_status, dashboard_summary, expand_home_path,
    friendly_hour, is_apply_command, is_supported_image, main_actions, manage_actions,
    missing_profiles, profile_choices, sorted_by_hour, starting_cursor, suggested_hour,
    suggested_profile_name, CollectionChoice, HourChoice, InteractiveAction, ManageAction,
    ProfileChoice, SchedulePresetChoice,
};

#[test]
fn empty_menu_leads_with_creation_and_hides_collection_actions() {
    assert_eq!(
        main_actions(false),
        vec![
            InteractiveAction::Create,
            InteractiveAction::Manage,
            InteractiveAction::Quit,
        ]
    );
}

#[test]
fn full_menu_offers_every_action() {
    let actions = main_actions(true);
    assert_eq!(actions.len(), 8);
    assert_eq!(actions[0], InteractiveAction::Activate);
    assert_eq!(actions[7], InteractiveAction::Quit);
    assert!(!InteractiveAction::Quit.keeps_menu_open());
    assert!(InteractiveAction::Status.keeps_menu_open());
    assert_eq!(InteractiveAction::ApplyOnce.label(), "Apply a saved profile");
}

#[test]
fn manage_menu_hides_collection_actions_without_collections() {
    assert_eq!(
        manage_actions(false),
        vec![
            ManageAction::CreateHeic,
            ManageAction::Logs,
            ManageAction::StopScheduler,
            ManageAction::Back
        ]
    );
    assert_eq!(manage_actions(true)[0], ManageAction::List);
    assert_eq!(manage_actions(true).len(), 7);
}

#[test]
fn dashboard_uses_friendly_active_title() {
    let collection =
        CollectionConfig::new_static("focus-mode".to_string(), "Focus Mode".to_string());

    assert_eq!(
        dashboard_summary(&[collection], Some("focus-mode"), Some("default")),
        "1 collection · Active: Focus Mode · profile default"
    );
}

#[test]
fn dashboard_without_active_collection() {
    assert_eq!(
        dashboard_summary(&[], None, None),
        "No collections yet · create one to save your first wallpaper"
    );
    let a = CollectionConfig::new_static("a".to_string(), "A".to_string());
    let b = CollectionConfig::new_static("b".to_string(), "B".to_string());
    assert_eq!(dashboard_summary(&[a, b], None, None), "2 collections · Nothing active");
    let c = CollectionConfig::new_static("c".to_string(), "C".to_string());
    assert_eq!(
        dashboard_summary(&[c], Some("gone"), None),
        "1 collection · Active: gone"
    );
}

#[test]
fn collection_readiness_explains_missing_setup() {
    assert_eq!(collection_status(0, 0), "needs a schedule");
    assert_eq!(collection_status(3, 2), "2 profiles missing");
    assert_eq!(collection_status(1, 0), "captured");
    assert_eq!(collection_status(3, 0), "all profiles captured");
}

#[test]
fn one_missing_profile_is_singular() {
    assert_eq!(collection_status(4, 1), "1 profile missing");
    assert_eq!(collection_status(30, 12), "12 profiles missing");
}

#[test]
fn hours_show_both_clock_formats() {
    assert_eq!(friendly_hour(0), "12 AM");
    assert_eq!(friendly_hour(12), "12 PM");
    assert_eq!(friendly_hour(17), "5 PM");
    assert_eq!(suggested_profile_name(6), "morning");
    assert_eq!(suggested_profile_name(18), "evening");
}

#[test]
fn hour_choices_pad_the_hour() {
    assert_eq!(HourChoice(6).text(), "06:00  · 6 AM");
    assert_eq!(HourChoice(23).text(), "23:00  · 11 PM");
    assert_eq!(suggested_profile_name(12), "day");
    assert_eq!(suggested_profile_name(2), "night");
}

#[test]
fn tilde_paths_expand_against_wallctl_home() {
    assert_eq!(
        expand_home_path("~/Pictures/wallpaper.png", "/Users/test"),
        "/Users/test/Pictures/wallpaper.png"
    );
}

#[test]
fn other_paths_are_kept() {
    assert_eq!(expand_home_path("~", "/Users/test"), "/Users/test");
    assert_eq!(expand_home_path("/tmp/a.png", "/Users/test"), "/tmp/a.png");
    assert_eq!(expand_home_path("~other/a.png", "/Users/test"), "~other/a.png");
}

#[test]
fn supported_image_extensions_are_case_insensitive() {
    assert!(is_supported_image("wallpaper.PNG"));
    assert!(is_supported_image("wallpaper.heic"));
    assert!(!is_supported_image("wallpaper.txt"));
}

#[test]
fn gif_is_no_heic_source() {
    assert!(!is_supported_image("wallpaper.gif"));
    assert!(!is_supported_image("wallpaper"));
    assert!(is_supported_image("/a/b/photo.TiFF"));
}

#[test]
fn prompts_follow_the_command() {
    assert_eq!(collection_prompt("use"), "Which collection should be activated?");
    assert_eq!(collection_prompt("api  apply "), "Which collection has the profile?");
    assert_eq!(collection_prompt(""), "Choose a collection");
    assert_eq!(collection_prompt("list"), "Choose a collection");
    assert!(is_apply_command("apply"));
    assert!(!is_apply_command("capture"));
}

#[test]
fn profile_choices_put_missing_first_unless_applying() {
    let names = vec!["morning".to_string(), "day".to_string(), "night".to_string()];
    let captured = vec![true, false, true];
    let view = |v: Vec<ProfileChoice>| -> Vec<(String, bool)> {
        v.into_iter().map(|c| (c.name, c.captured)).collect()
    };
    assert_eq!(
        view(profile_choices(&names, &captured, false)),
        vec![
            ("day".to_string(), false),
            ("morning".to_string(), true),
            ("night".to_string(), true)
        ]
    );
    assert_eq!(
        view(profile_choices(&names, &captured, true)),
        vec![("morning".to_string(), true), ("night".to_string(), true)]
    );
    assert_eq!(missing_profiles(&names, &captured), vec!["day".to_string()]);
}

#[test]
fn choices_describe_themselves() {
    let c = CollectionChoice {
        name: "focus".to_string(),
        title: "Focus".to_string(),
        strategy: Strategy::Static,
        status: "captured".to_string(),
        active: true,
    };
    assert_eq!(c.text(), "Focus (focus)  · static · captured · active");
    let p = ProfileChoice {
        name: "night".to_string(),
        captured: false,
    };
    assert_eq!(p.text(), "night  · not captured yet");
    assert_eq!(SchedulePresetChoice::Four.preset_arg(), Some(PresetArg::Four));
    assert_eq!(SchedulePresetChoice::NoPreset.preset_arg(), None);
}

#[test]
fn custom_schedule_steps() {
    let slots = vec![
        ScheduleSlotArg {
            hour: 22,
            profile: "night".to_string(),
        },
        ScheduleSlotArg {
            hour: 6,
            profile: "morning".to_string(),
        },
    ];
    assert_eq!(suggested_hour(&[]), 6);
    assert_eq!(suggested_hour(&slots), 10);
    let hours = available_hours(&slots);
    assert_eq!(hours.len(), 22);
    assert!(!hours.contains(&6) && !hours.contains(&22));
    assert_eq!(starting_cursor(&hours, 10), 9);
    assert_eq!(starting_cursor(&hours, 23), 21);
    assert_eq!(starting_cursor(&[1, 2], 5), 0);
    let sorted: Vec<u8> = sorted_by_hour(&slots).into_iter().map(|s| s.hour).collect();
    assert_eq!(sorted, vec![6, 22]);
}
