//! Choosing the slot of a schedule that applies at a given hour.
use vstd::prelude::*;

use crate::config::{slots_check, validate_slots, ScheduleSlot, SlotError, SlotFault};

verus! {

/// Why no slot could be chosen.
#[derive(Clone, Debug, PartialEq, Eq)]
pub enum ScheduleError {
    HourOutOfRange { hour: u32 },
    InvalidSlots { cause: SlotError },
}

/// Mathematical form of [`ScheduleError`].
pub enum ScheduleFault {
    HourOutOfRange(u32),
    InvalidSlots(SlotFault),
}

impl View for ScheduleError {
    type V = ScheduleFault;

    open spec fn view(&self) -> ScheduleFault {
        match self {
            ScheduleError::HourOutOfRange { hour } => ScheduleFault::HourOutOfRange(*hour),
            ScheduleError::InvalidSlots { cause } => ScheduleFault::InvalidSlots(cause@),
        }
    }
}

/// Some slot starts at or before `hour`.
pub open spec fn has_slot_at_or_before(slots: Seq<ScheduleSlot>, hour: int) -> bool {
    exists|i: int| 0 <= i < slots.len() && (#[trigger] slots[i]).hour <= hour
}

/// `chosen` is the slot in effect at `hour`: the latest slot at or before the hour, or,
/// before the first slot of the day, the last slot of the day.
pub open spec fn is_selected_slot(slots: Seq<ScheduleSlot>, hour: int, chosen: ScheduleSlot) -> bool {
    &&& exists|i: int| 0 <= i < slots.len() && slots[i] == chosen
    &&& if has_slot_at_or_before(slots, hour) {
        &&& chosen.hour <= hour
        &&& forall|i: int|
            0 <= i < slots.len() && (#[trigger] slots[i]).hour <= hour ==> slots[i].hour
                <= chosen.hour
    } else {
        forall|i: int| 0 <= i < slots.len() ==> (#[trigger] slots[i]).hour <= chosen.hour
    }
}

/// Picks the slot in effect at `current_hour` (0 to 23) from a valid schedule.
pub fn select_slot(slots: &[ScheduleSlot], current_hour: u32) -> (r: Result<
    &ScheduleSlot,
    ScheduleError,
>)
    ensures
        r is Ok <==> current_hour <= 23 && slots_check(slots@) is None,
        current_hour > 23 ==> (r matches Err(e) && e@ == ScheduleFault::HourOutOfRange(
            current_hour,
        )),
        current_hour <= 23 ==> (r matches Err(e) ==> (e is InvalidSlots && slots_check(slots@)
            == Some(e->cause@))),
        r matches Ok(s) ==> is_selected_slot(slots@, current_hour as int, *s),
{
    if current_hour > 23 {
        return Err(ScheduleError::HourOutOfRange { hour: current_hour });
    }
    match validate_slots(slots) {
        Err(e) => {
            return Err(ScheduleError::InvalidSlots { cause: e });
        },
        Ok(()) => {},
    }
    // best index among slots at or before the hour, and the latest slot overall
    let mut best: Option<usize> = None;
    let mut latest: usize = 0;
    let mut i: usize = 0;
    while i < slots.len()
        invariant
            0 < slots@.len(),
            i <= slots@.len(),
            latest < slots@.len(),
            i > 0 ==> forall|k: int| 0 <= k < i ==> (#[trigger] slots@[k]).hour <= slots@[latest as int].hour,
            match best {
                Some(b) => {
                    &&& b < i
                    &&& slots@[b as int].hour <= current_hour
                    &&& forall|k: int|
                        0 <= k < i && (#[trigger] slots@[k]).hour <= current_hour ==> slots@[k].hour
                            <= slots@[b as int].hour
                },
                None => forall|k: int| 0 <= k < i ==> (#[trigger] slots@[k]).hour > current_hour,
            },
        decreases slots.len() - i,
    {
        let h = slots[i].hour;
        if i == 0 || h > slots[latest].hour {
            latest = i;
        }
        if (h as u32) <= current_hour {
            match best {
                Some(b) => {
                    if h > slots[b].hour {
                        best = Some(i);
                    }
                },
                None => {
                    best = Some(i);
                },
            }
        }
        i += 1;
    }
    match best {
        Some(b) => {
            assert(has_slot_at_or_before(slots@, current_hour as int)) by {
                assert(slots@[b as int].hour <= current_hour);
            }
            Ok(&slots[b])
        },
        None => {
            assert(!has_slot_at_or_before(slots@, current_hour as int));
            Ok(&slots[latest])
        },
    }
}

/// In a valid schedule exactly one slot is in effect at each hour: two slots that are
/// both in effect at the same hour are the same slot.
pub proof fn law_one_slot_in_effect(slots: Seq<ScheduleSlot>, hour: int, a: ScheduleSlot, b: ScheduleSlot)
    requires
        slots_check(slots) is None,
        is_selected_slot(slots, hour, a),
        is_selected_slot(slots, hour, b),
    ensures
        a == b,
{
    crate::config::lemma_slots_check_valid(slots);
    let i = choose|i: int| 0 <= i < slots.len() && slots[i] == a;
    let j = choose|j: int| 0 <= j < slots.len() && slots[j] == b;
    assert(slots[i].hour == slots[j].hour);
    if i < j {
        assert(slots[i].hour != slots[j].hour);
    } else if j < i {
        assert(slots[j].hour != slots[i].hour);
    }
}

} // verus!
