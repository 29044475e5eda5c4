use wallctl::cli::{NewKind, NewScheduleArgs, ScheduleSlotArg, SlotArgError};
use wallctl::config::{Preset, ProfileNameError, ScheduleSlot};
use wallctl::cli::PresetArg;

#[test]
fn parses_custom_schedule_slots() {
    let slots: Vec<ScheduleSlotArg> = ["08:morning", "13:afternoon"]
        .iter()
        .map(|raw| ScheduleSlotArg::parse(raw).unwrap())
        .collect();
    let args = NewKind::Schedule(NewScheduleArgs {
        name: "Work Day".to_string(),
        preset: None,
        slots,
    });

    let NewKind::Schedule(args) = args else {
        panic!("expected schedule command");
    };

    assert_eq!(args.name, "Work Day");
    assert_eq!(args.slots.len(), 2);
    assert_eq!(args.slots[0].hour, 8);
    assert_eq!(args.slots[0].profile, "morning");
    assert_eq!(args.slots[1].hour, 13);
    assert_eq!(args.slots[1].profile, "afternoon");
}

#[test]
fn slot_arguments_accept_equals_and_normalize_names() {
    let slot = ScheduleSlotArg::parse("6=Early Morning").unwrap();
    assert_eq!(slot.hour, 6);
    assert_eq!(slot.profile, "early-morning");
    let slot = ScheduleSlotArg::parse("+7:a=b").unwrap();
    assert_eq!((slot.hour, slot.profile.as_str()), (7, "a-b"));
}

#[test]
fn slot_argument_errors() {
    assert!(matches!(ScheduleSlotArg::parse("morning"), Err(SlotArgError::MissingSeparator)));
    assert!(matches!(
        ScheduleSlotArg::parse("x:morning"),
        Err(SlotArgError::InvalidHour { text }) if text == "x"
    ));
    assert!(matches!(
        ScheduleSlotArg::parse("300:morning"),
        Err(SlotArgError::InvalidHour { .. })
    ));
    assert!(matches!(
        ScheduleSlotArg::parse("24:morning"),
        Err(SlotArgError::HourOutOfRange { hour: 24 })
    ));
    assert!(matches!(
        ScheduleSlotArg::parse("5: "),
        Err(SlotArgError::ProfileName(ProfileNameError::Empty))
    ));
}

#[test]
fn arguments_convert_to_configuration() {
    assert_eq!(Preset::from(PresetArg::Three), Preset::Three);
    assert_eq!(Preset::from(PresetArg::Four), Preset::Four);
    let slot: ScheduleSlot = ScheduleSlot::from(ScheduleSlotArg {
        hour: 9,
        profile: "day".to_string(),
    });
    assert_eq!(slot, ScheduleSlot { hour: 9, profile: "day".to_string() });
}
