//! The command line: its commands and arguments, and the parsing of schedule slots.
use vstd::prelude::*;

use crate::config::{normalize_profile_name, profile_name_spec, Preset, ProfileNameError, ProfileNameFault, ScheduleSlot};
use crate::profile::{parse_usize, parse_usize_spec};
use crate::text::{chars_of, string_of};

verus! {

/// The command line.
pub struct Cli {
    pub command: Option<Command>,
}

/// The commands.
pub enum Command {
    /// List saved collections.
    List,
    /// Show active collection and live wallpaper drift status.
    Status,
    /// Show collection metadata and validation details.
    Inspect(CollectionArg),
    /// Activate a collection strategy.
    Use(CollectionArg),
    /// Apply one profile without changing active scheduler state.
    Apply(ApplyArgs),
    /// Apply the active scheduled collection's current slot.
    Dispatch(DispatchArgs),
    /// Manage the wallctl background service.
    Service(ServiceArgs),
    /// Print wallctl and scheduler logs.
    Logs,
    /// Remove a collection. Active collections cannot be removed.
    Remove(CollectionArg),
    /// Create a new collection.
    New(NewArgs),
    /// Capture the current macOS wallpaper profile into a collection.
    Capture(CaptureArgs),
    /// Create dynamic HEIC wallpaper assets.
    Heic(HeicArgs),
    /// Machine-readable JSON API for GUI clients.
    Api(ApiArgs),
}

pub struct ApiArgs {
    pub command: ApiCommand,
}

/// The machine-readable commands.
pub enum ApiCommand {
    Catalog,
    Status,
    Logs(ApiLogsArgs),
    Use(CollectionArg),
    Apply(ApplyArgs),
    Capture(CaptureArgs),
    Remove(CollectionArg),
    New(NewArgs),
    Heic(HeicArgs),
    Service(ServiceArgs),
    Live(ApiLiveArgs),
}

pub struct ServiceArgs {
    pub command: ServiceCommand,
}

pub enum ServiceCommand {
    /// Stop and clean up the scheduler LaunchAgent.
    Stop,
}

pub struct ApiLogsArgs {
    pub lines: usize,
}

pub struct ApiLiveArgs {
    pub command: ApiLiveCommand,
}

pub enum ApiLiveCommand {
    Get,
    SetAssignment(ApiLiveAssignmentArgs),
    ClearAssignment(ApiLiveProfileArgs),
    SetPreferences(ApiLivePreferencesArgs),
}

pub struct ApiLiveAssignmentArgs {
    pub collection: String,
    pub profile: String,
    pub video: String,
}

pub struct ApiLiveProfileArgs {
    pub collection: String,
    pub profile: String,
}

pub struct ApiLivePreferencesArgs {
    pub enabled: Option<bool>,
    pub follow_active_collection: Option<bool>,
    pub pinned_collection: Option<String>,
    pub clear_pinned_collection: bool,
    pub pause_on_battery: Option<bool>,
}

pub struct CollectionArg {
    pub collection: Option<String>,
}

pub struct ApplyArgs {
    pub collection: Option<String>,
    pub profile: Option<String>,
    pub force: bool,
}

pub struct DispatchArgs {
    pub force: bool,
}

pub struct NewArgs {
    pub kind: NewKind,
}

pub enum NewKind {
    Static(NewCollectionArgs),
    Dynamic(NewCollectionArgs),
    Schedule(NewScheduleArgs),
}

pub struct NewCollectionArgs {
    pub name: String,
}

pub struct NewScheduleArgs {
    pub name: String,
    pub preset: Option<PresetArg>,
    pub slots: Vec<ScheduleSlotArg>,
}

#[derive(Clone, Copy, Debug, PartialEq, Eq, Structural)]
pub enum PresetArg {
    Three,
    Four,
}

pub struct CaptureArgs {
    pub collection: Option<String>,
    pub profile: Option<String>,
}

pub struct HeicArgs {
    /// Image to use when macOS appearance is Light.
    pub light: String,
    /// Image to use when macOS appearance is Dark.
    pub dark: String,
    /// Dynamic HEIC file to create.
    pub output: String,
    /// Replace the output file if it already exists.
    pub force: bool,
}

/// The preset a command-line preset names.
pub open spec fn preset_of(p: PresetArg) -> Preset {
    match p {
        PresetArg::Three => Preset::Three,
        PresetArg::Four => Preset::Four,
    }
}

impl From<PresetArg> for Preset {
    fn from(value: PresetArg) -> (r: Preset) {
        match value {
            PresetArg::Three => Preset::Three,
            PresetArg::Four => Preset::Four,
        }
    }
}

impl vstd::std_specs::convert::FromSpecImpl<PresetArg> for Preset {
    open spec fn obeys_from_spec() -> bool {
        true
    }

    open spec fn from_spec(v: PresetArg) -> Preset {
        preset_of(v)
    }
}

/// A schedule slot given on the command line as `HOUR:PROFILE`.
pub struct ScheduleSlotArg {
    pub hour: u8,
    pub profile: String,
}

impl From<ScheduleSlotArg> for ScheduleSlot {
    fn from(value: ScheduleSlotArg) -> (r: ScheduleSlot) {
        ScheduleSlot { hour: value.hour, profile: value.profile }
    }
}

impl vstd::std_specs::convert::FromSpecImpl<ScheduleSlotArg> for ScheduleSlot {
    open spec fn obeys_from_spec() -> bool {
        true
    }

    open spec fn from_spec(v: ScheduleSlotArg) -> ScheduleSlot {
        ScheduleSlot { hour: v.hour, profile: v.profile }
    }
}

/// Why a schedule slot argument was refused.
#[derive(Debug)]
pub enum SlotArgError {
    /// Neither `:` nor `=` separates hour and profile.
    MissingSeparator,
    /// The hour is no number from 0 to 255.
    InvalidHour { text: String },
    /// The hour is above 23.
    HourOutOfRange { hour: u8 },
    /// The profile name was refused.
    ProfileName(ProfileNameError),
}

/// Mathematical form of [`SlotArgError`].
pub enum SlotArgFault {
    MissingSeparator,
    InvalidHour(Seq<char>),
    HourOutOfRange(u8),
    ProfileName(ProfileNameFault),
}

impl View for SlotArgError {
    type V = SlotArgFault;

    open spec fn view(&self) -> SlotArgFault {
        match self {
            SlotArgError::MissingSeparator => SlotArgFault::MissingSeparator,
            SlotArgError::InvalidHour { text } => SlotArgFault::InvalidHour(text@),
            SlotArgError::HourOutOfRange { hour } => SlotArgFault::HourOutOfRange(*hour),
            SlotArgError::ProfileName(e) => SlotArgFault::ProfileName(e@),
        }
    }
}

/// Position of the first `c` in `s`, or -1.
pub open spec fn first_index(s: Seq<char>, c: char) -> int
    decreases s.len(),
{
    if s.len() == 0 {
        -1
    } else if s[0] == c {
        0
    } else if first_index(s.drop_first(), c) < 0 {
        -1
    } else {
        first_index(s.drop_first(), c) + 1
    }
}

/// What `str::parse::<u8>` gives.
pub open spec fn parse_u8_spec(s: Seq<char>) -> Option<u8> {
    match parse_usize_spec(s) {
        Some(n) => if n <= 255 {
            Some(n as u8)
        } else {
            None
        },
        None => None,
    }
}

/// What [`ScheduleSlotArg::parse`] gives: the text is split at its first `:` (or, when
/// it has none, its first `=`) into an hour from 0 to 23 and a profile name, which is
/// normalized.
pub open spec fn slot_arg_spec(v: Seq<char>) -> Result<(u8, Seq<char>), SlotArgFault> {
    let i = if first_index(v, ':') >= 0 {
        first_index(v, ':')
    } else {
        first_index(v, '=')
    };
    if i < 0 {
        Err(SlotArgFault::MissingSeparator)
    } else {
        let hour = v.subrange(0, i);
        let profile = v.subrange(i + 1, v.len() as int);
        match parse_u8_spec(hour) {
            None => Err(SlotArgFault::InvalidHour(hour)),
            Some(h) => if h > 23 {
                Err(SlotArgFault::HourOutOfRange(h))
            } else {
                match profile_name_spec(profile) {
                    Err(e) => Err(SlotArgFault::ProfileName(e)),
                    Ok(p) => Ok((h, p)),
                }
            },
        }
    }
}

proof fn lemma_first_index(s: Seq<char>, c: char)
    ensures
        -1 <= first_index(s, c) < s.len(),
        first_index(s, c) >= 0 ==> s[first_index(s, c)] == c,
        forall|j: int| 0 <= j < s.len() && (first_index(s, c) < 0 || j < first_index(s, c)) ==> s[j] != c,
    decreases s.len(),
{
    if s.len() > 0 && s[0] != c {
        lemma_first_index(s.drop_first(), c);
        assert forall|j: int| 0 <= j < s.len() && (first_index(s, c) < 0 || j < first_index(s, c)) implies s[j] != c by {
            if j > 0 {
                assert(s[j] == s.drop_first()[j - 1]);
            }
        }
    }
}

fn find_char(s: &Vec<char>, c: char) -> (r: Option<usize>)
    ensures
        match r {
            Some(i) => first_index(s@, c) == i,
            None => first_index(s@, c) == -1,
        },
{
    proof {
        lemma_first_index(s@, c);
    }
    let mut i: usize = 0;
    while i < s.len()
        invariant
            i <= s@.len(),
            forall|j: int| 0 <= j < i ==> s@[j] != c,
            -1 <= first_index(s@, c) < s@.len(),
            first_index(s@, c) >= 0 ==> s@[first_index(s@, c)] == c,
            forall|j: int| 0 <= j < s@.len() && (first_index(s@, c) < 0 || j < first_index(s@, c)) ==> s@[j] != c,
        decreases s.len() - i,
    {
        if s[i] == c {
            return Some(i);
        }
        i += 1;
    }
    None
}

impl ScheduleSlotArg {
    /// Parses `HOUR:PROFILE` (see [`slot_arg_spec`]).
    pub fn parse(value: &str) -> (r: Result<ScheduleSlotArg, SlotArgError>)
        ensures
            match r {
                Ok(a) => slot_arg_spec(value@) == Ok::<(u8, Seq<char>), SlotArgFault>((a.hour, a.profile@)),
                Err(e) => slot_arg_spec(value@) == Err::<(u8, Seq<char>), SlotArgFault>(e@),
            },
    {
        let cs = chars_of(value);
        proof {
            lemma_first_index(cs@, ':');
            lemma_first_index(cs@, '=');
        }
        let split = match find_char(&cs, ':') {
            Some(i) => i,
            None => match find_char(&cs, '=') {
                Some(i) => i,
                None => {
                    return Err(SlotArgError::MissingSeparator);
                },
            },
        };
        let hour_text = string_of(crate::text::slice_chars(&cs, 0, split).as_slice());
        let profile_text = string_of(crate::text::slice_chars(&cs, split + 1, cs.len()).as_slice());
        let hour: u8 = match parse_usize(hour_text.as_str()) {
            Some(n) => {
                if n <= 255 {
                    n as u8
                } else {
                    return Err(SlotArgError::InvalidHour { text: hour_text });
                }
            },
            None => {
                return Err(SlotArgError::InvalidHour { text: hour_text });
            },
        };
        if hour > 23 {
            return Err(SlotArgError::HourOutOfRange { hour });
        }
        match normalize_profile_name(profile_text.as_str()) {
            Ok(profile) => Ok(ScheduleSlotArg { hour, profile }),
            Err(e) => Err(SlotArgError::ProfileName(e)),
        }
    }
}

} // verus!
