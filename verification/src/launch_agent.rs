//! The per-user LaunchAgent that runs the scheduler at the hours of a schedule.
use vstd::prelude::*;

use crate::config::{string_of_str, ScheduleSlot};
use crate::fs_path::has_root;
use crate::paths::WallctlPaths;
use crate::plist_tree::{lemma_array_tree, lemma_dict_tree, trees, PlistDict, PlistTree, PlistValue};

verus! {

/// The LaunchAgent's label.
pub const LABEL: &'static str = "local.wallctl.scheduler";

/// The calendar entry that starts the scheduler at an hour.
pub open spec fn interval_tree(hour: u8) -> PlistTree {
    PlistTree::Dictionary(
        seq![("Hour"@, PlistTree::Integer(hour as int)), ("Minute"@, PlistTree::Integer(0))],
    )
}

/// The LaunchAgent property list: the label, `wallctl dispatch` as the program, run at
/// load, one calendar entry per slot at the top of its hour, and the scheduler's log
/// files.
pub open spec fn launch_agent_tree(paths: WallctlPaths, binary: Seq<char>, slots: Seq<ScheduleSlot>) -> PlistTree {
    PlistTree::Dictionary(
        seq![
            ("Label"@, PlistTree::String(LABEL@)),
            (
                "ProgramArguments"@,
                PlistTree::Array(seq![PlistTree::String(binary), PlistTree::String("dispatch"@)]),
            ),
            ("RunAtLoad"@, PlistTree::Boolean(true)),
            (
                "StartCalendarInterval"@,
                PlistTree::Array(Seq::new(slots.len(), |i: int| interval_tree(slots[i].hour))),
            ),
            ("StandardOutPath"@, PlistTree::String(paths.scheduler_stdout@)),
            ("StandardErrorPath"@, PlistTree::String(paths.scheduler_stderr@)),
        ],
    )
}

fn text(s: &str) -> (r: PlistValue)
    ensures
        r.tree() == PlistTree::String(s@),
{
    PlistValue::String(string_of_str(s))
}

fn interval(hour: u8) -> (r: PlistValue)
    ensures
        r.tree() == interval_tree(hour),
{
    let mut entries: Vec<(String, PlistValue)> = Vec::new();
    entries.push((string_of_str("Hour"), PlistValue::Integer(hour as i64)));
    entries.push((string_of_str("Minute"), PlistValue::Integer(0)));
    let d = PlistDict { entries };
    proof {
        lemma_dict_tree(&d);
        assert(d.model() =~= seq![("Hour"@, PlistTree::Integer(hour as int)), ("Minute"@, PlistTree::Integer(0))]);
    }
    PlistValue::Dictionary(d)
}

/// The LaunchAgent property list (see [`launch_agent_tree`]).
pub fn launch_agent_plist(paths: &WallctlPaths, wallctl_binary: &str, slots: &[ScheduleSlot]) -> (r: PlistValue)
    ensures
        r.tree() == launch_agent_tree(*paths, wallctl_binary@, slots@),
{
    let mut program: Vec<PlistValue> = Vec::new();
    program.push(text(wallctl_binary));
    program.push(text("dispatch"));
    proof {
        lemma_array_tree(&program);
        assert(trees(program@) =~= seq![PlistTree::String(wallctl_binary@), PlistTree::String("dispatch"@)]);
    }
    let mut intervals: Vec<PlistValue> = Vec::new();
    let mut i: usize = 0;
    while i < slots.len()
        invariant
            i <= slots@.len(),
            trees(intervals@) == Seq::new(i as nat, |j: int| interval_tree(slots@[j].hour)),
        decreases slots.len() - i,
    {
        let ghost before = intervals@;
        let v = interval(slots[i].hour);
        intervals.push(v);
        assert(trees(intervals@) =~= trees(before).push(v.tree()));
        assert(trees(intervals@) =~= Seq::new((i + 1) as nat, |j: int| interval_tree(slots@[j].hour)));
        i += 1;
    }
    proof {
        lemma_array_tree(&intervals);
    }
    let mut entries: Vec<(String, PlistValue)> = Vec::new();
    entries.push((string_of_str("Label"), text(LABEL)));
    entries.push((string_of_str("ProgramArguments"), PlistValue::Array(program)));
    entries.push((string_of_str("RunAtLoad"), PlistValue::Boolean(true)));
    entries.push((string_of_str("StartCalendarInterval"), PlistValue::Array(intervals)));
    entries.push((string_of_str("StandardOutPath"), text(paths.scheduler_stdout.as_str())));
    entries.push((string_of_str("StandardErrorPath"), text(paths.scheduler_stderr.as_str())));
    let d = PlistDict { entries };
    proof {
        lemma_dict_tree(&d);
        if let PlistTree::Dictionary(es) = launch_agent_tree(*paths, wallctl_binary@, slots@) {
            assert(d.model() =~= es);
        }
    }
    PlistValue::Dictionary(d)
}

/// Why the scheduler cannot be installed.
#[derive(Debug)]
pub enum LaunchAgentError {
    /// The wallctl program is not named by an absolute path.
    RelativeBinary { path: String },
    /// The schedule has no slots.
    NoSlots,
}

/// Checks what installing the scheduler needs: an absolute program path and at least
/// one slot.
pub fn install_check(wallctl_binary: &str, slots: &[ScheduleSlot]) -> (r: Result<(), LaunchAgentError>)
    ensures
        match r {
            Ok(()) => has_root(wallctl_binary@) && slots@.len() > 0,
            Err(LaunchAgentError::RelativeBinary { path }) => !has_root(wallctl_binary@) && path@ == wallctl_binary@,
            Err(LaunchAgentError::NoSlots) => has_root(wallctl_binary@) && slots@.len() == 0,
        },
{
    let cs = crate::text::chars_of(wallctl_binary);
    if !(cs.len() > 0 && cs[0] == '/') {
        return Err(LaunchAgentError::RelativeBinary { path: string_of_str(wallctl_binary) });
    }
    if slots.len() == 0 {
        return Err(LaunchAgentError::NoSlots);
    }
    Ok(())
}

} // verus!
