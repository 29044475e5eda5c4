use wallctl::config::ScheduleSlot;
use wallctl::launch_agent::{install_check, launch_agent_plist, LaunchAgentError, LABEL};
use wallctl::paths::WallctlPaths;
use wallctl::plist_tree::PlistValue;

fn slots() -> Vec<ScheduleSlot> {
    vec![
        ScheduleSlot {
            hour: 6,
            profile: "morning".to_string(),
        },
        ScheduleSlot {
            hour: 20,
            profile: "night".to_string(),
        },
    ]
}

#[test]
fn plist_contains_expected_schedule_entries() {
    let paths = WallctlPaths::from_home("/tmp/home");
    let slots = slots();

    let plist = launch_agent_plist(&paths, "/tmp/home/bin/wallctl", &slots);
    let PlistValue::Dictionary(root) = plist else {
        unreachable!();
    };

    assert_eq!(root.get("Label"), Some(&PlistValue::String(LABEL.to_string())));
    let PlistValue::Array(entries) = root.get("StartCalendarInterval").unwrap() else {
        unreachable!();
    };
    assert_eq!(entries.len(), 2);
}

#[test]
fn plist_runs_dispatch_at_each_hour() {
    let paths = WallctlPaths::from_home("/Users/me");
    let PlistValue::Dictionary(root) = launch_agent_plist(&paths, "/usr/local/bin/wallctl", &slots()) else {
        unreachable!();
    };
    assert_eq!(
        root.get("ProgramArguments"),
        Some(&PlistValue::Array(vec![
            PlistValue::String("/usr/local/bin/wallctl".to_string()),
            PlistValue::String("dispatch".to_string())
        ]))
    );
    assert_eq!(root.get("RunAtLoad"), Some(&PlistValue::Boolean(true)));
    let PlistValue::Array(entries) = root.get("StartCalendarInterval").unwrap() else {
        unreachable!();
    };
    let PlistValue::Dictionary(last) = &entries[1] else {
        unreachable!();
    };
    assert_eq!(last.get("Hour"), Some(&PlistValue::Integer(20)));
    assert_eq!(last.get("Minute"), Some(&PlistValue::Integer(0)));
    assert_eq!(
        root.get("StandardErrorPath"),
        Some(&PlistValue::String("/Users/me/Library/Logs/wallctl/scheduler.err.log".to_string()))
    );
}

#[test]
fn install_needs_absolute_binary_and_slots() {
    assert!(matches!(
        install_check("bin/wallctl", &slots()),
        Err(LaunchAgentError::RelativeBinary { .. })
    ));
    assert!(matches!(install_check("/bin/wallctl", &[]), Err(LaunchAgentError::NoSlots)));
    assert!(install_check("/bin/wallctl", &slots()).is_ok());
}
