use wallctl::config::ScheduleSlot;
use wallctl::schedule::{select_slot, ScheduleError};

fn slots() -> Vec<ScheduleSlot> {
    vec![
        ScheduleSlot {
            hour: 6,
            profile: "morning".to_string(),
        },
        ScheduleSlot {
            hour: 10,
            profile: "day".to_string(),
        },
        ScheduleSlot {
            hour: 20,
            profile: "night".to_string(),
        },
    ]
}

#[test]
fn selects_latest_slot_before_current_hour() {
    assert_eq!(select_slot(&slots(), 18).unwrap().profile, "day");
    assert_eq!(select_slot(&slots(), 20).unwrap().profile, "night");
}

#[test]
fn wraps_before_first_hour() {
    assert_eq!(select_slot(&slots(), 2).unwrap().profile, "night");
}

#[test]
fn slot_starting_at_the_hour_is_in_effect() {
    assert_eq!(select_slot(&slots(), 6).unwrap().profile, "morning");
    assert_eq!(select_slot(&slots(), 23).unwrap().profile, "night");
}

#[test]
fn hours_past_the_day_are_refused() {
    assert_eq!(
        select_slot(&slots(), 24),
        Err(ScheduleError::HourOutOfRange { hour: 24 })
    );
}

#[test]
fn invalid_schedules_are_refused() {
    assert!(matches!(
        select_slot(&[], 5),
        Err(ScheduleError::InvalidSlots { .. })
    ));
}
