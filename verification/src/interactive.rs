//! What the interactive menu shows and offers: its actions and choices, the dashboard
//! line, readiness of collections, friendly hours, and the steps of building a custom
//! schedule.
use vstd::prelude::*;

use crate::cli::ScheduleSlotArg;
use crate::config::{strategy_name, CollectionConfig, Strategy};
use crate::fs_path::{extension, extension_of, join, join_spec};
use crate::text::{
    append_chars, append_str, ascii_lowercase, ascii_lowercase_chars, chars_of, is_white_space,
    is_whitespace_char, str_eq, string_of, trim_end,
};

verus! {

// ---------------------------------------------------------------------------
// Numbers as text
// ---------------------------------------------------------------------------
/// The decimal digit for a value below 10.
pub open spec fn digit_char(d: int) -> char {
    ((48 + d) as u8) as char
}

/// Decimal text of a number, as `{}` writes it.
pub open spec fn decimal(n: nat) -> Seq<char>
    decreases n,
{
    if n < 10 {
        seq![digit_char(n as int)]
    } else {
        decimal(n / 10) + seq![digit_char((n % 10) as int)]
    }
}

/// Decimal text of a number (see [`decimal`]).
pub fn decimal_text(n: usize) -> (r: Vec<char>)
    ensures
        r@ == decimal(n as nat),
    decreases n,
{
    let d: u8 = (n % 10) as u8;
    let c = (48u8 + d) as char;
    if n < 10 {
        let mut v: Vec<char> = Vec::new();
        v.push(c);
        assert(v@ =~= seq![digit_char(n as int)]);
        v
    } else {
        let mut v = decimal_text(n / 10);
        v.push(c);
        v
    }
}

// ---------------------------------------------------------------------------
// Actions
// ---------------------------------------------------------------------------
/// The actions of the main menu.
#[derive(Clone, Copy, Debug, PartialEq, Eq, Structural)]
pub enum InteractiveAction {
    Activate,
    Capture,
    ApplyOnce,
    Create,
    Inspect,
    Status,
    Manage,
    Quit,
}

impl InteractiveAction {
    /// The short label shown once the action is chosen.
    pub fn label(&self) -> (r: &'static str)
        ensures
            r@ == match *self {
                InteractiveAction::Activate => "Activate a collection"@,
                InteractiveAction::Capture => "Capture current wallpaper"@,
                InteractiveAction::ApplyOnce => "Apply a saved profile"@,
                InteractiveAction::Create => "Create a collection"@,
                InteractiveAction::Inspect => "View collection details"@,
                InteractiveAction::Status => "Check status"@,
                InteractiveAction::Manage => "More options"@,
                InteractiveAction::Quit => "Quit"@,
            },
    {
        match self {
            InteractiveAction::Activate => "Activate a collection",
            InteractiveAction::Capture => "Capture current wallpaper",
            InteractiveAction::ApplyOnce => "Apply a saved profile",
            InteractiveAction::Create => "Create a collection",
            InteractiveAction::Inspect => "View collection details",
            InteractiveAction::Status => "Check status",
            InteractiveAction::Manage => "More options",
            InteractiveAction::Quit => "Quit",
        }
    }

    /// The line shown for the action in the menu.
    pub fn menu_text(&self) -> (r: &'static str)
        ensures
            r@ == match *self {
                InteractiveAction::Activate => "Activate a collection       Make it control your wallpaper"@,
                InteractiveAction::Capture => "Capture current wallpaper   Save what's set in System Settings"@,
                InteractiveAction::ApplyOnce => "Apply a saved profile       Change wallpaper without activating"@,
                InteractiveAction::Create => "Create a collection         Set up a wallpaper or schedule"@,
                InteractiveAction::Inspect => "View collection details     Check profiles, assets, and schedule"@,
                InteractiveAction::Status => "Check status                 See what's active and detect drift"@,
                InteractiveAction::Manage => "More options                 HEIC tools, logs, and maintenance"@,
                InteractiveAction::Quit => "Quit"@,
            },
    {
        match self {
            InteractiveAction::Activate => "Activate a collection       Make it control your wallpaper",
            InteractiveAction::Capture => "Capture current wallpaper   Save what's set in System Settings",
            InteractiveAction::ApplyOnce => "Apply a saved profile       Change wallpaper without activating",
            InteractiveAction::Create => "Create a collection         Set up a wallpaper or schedule",
            InteractiveAction::Inspect => "View collection details     Check profiles, assets, and schedule",
            InteractiveAction::Status => "Check status                 See what's active and detect drift",
            InteractiveAction::Manage => "More options                 HEIC tools, logs, and maintenance",
            InteractiveAction::Quit => "Quit",
        }
    }

    /// Whether the menu is shown again after the action: all but `Quit`.
    pub fn keeps_menu_open(&self) -> (r: bool)
        ensures
            r == (*self != InteractiveAction::Quit),
    {
        !matches!(self, InteractiveAction::Quit)
    }
}

/// The actions of the "More options" menu.
#[derive(Clone, Copy, Debug, PartialEq, Eq, Structural)]
pub enum ManageAction {
    List,
    Rename,
    Remove,
    CreateHeic,
    Logs,
    StopScheduler,
    Back,
}

impl ManageAction {
    /// The label of the action.
    pub fn label(&self) -> (r: &'static str)
        ensures
            r@ == match *self {
                ManageAction::List => "List collections"@,
                ManageAction::Rename => "Rename a collection"@,
                ManageAction::Remove => "Remove a collection"@,
                ManageAction::CreateHeic => "Create a light/dark HEIC"@,
                ManageAction::Logs => "View recent logs"@,
                ManageAction::StopScheduler => "Stop the scheduler service"@,
                ManageAction::Back => "Back"@,
            },
    {
        match self {
            ManageAction::List => "List collections",
            ManageAction::Rename => "Rename a collection",
            ManageAction::Remove => "Remove a collection",
            ManageAction::CreateHeic => "Create a light/dark HEIC",
            ManageAction::Logs => "View recent logs",
            ManageAction::StopScheduler => "Stop the scheduler service",
            ManageAction::Back => "Back",
        }
    }
}

/// The main menu: everything when collections exist, otherwise only creating one, more
/// options and quitting.
pub open spec fn main_actions_spec(has_collections: bool) -> Seq<InteractiveAction> {
    if has_collections {
        seq![
            InteractiveAction::Activate,
            InteractiveAction::Capture,
            InteractiveAction::ApplyOnce,
            InteractiveAction::Create,
            InteractiveAction::Inspect,
            InteractiveAction::Status,
            InteractiveAction::Manage,
            InteractiveAction::Quit,
        ]
    } else {
        seq![InteractiveAction::Create, InteractiveAction::Manage, InteractiveAction::Quit]
    }
}

/// The actions of the main menu (see [`main_actions_spec`]).
pub fn main_actions(has_collections: bool) -> (r: Vec<InteractiveAction>)
    ensures
        r@ == main_actions_spec(has_collections),
{
    let mut v: Vec<InteractiveAction> = Vec::new();
    if has_collections {
        v.push(InteractiveAction::Activate);
        v.push(InteractiveAction::Capture);
        v.push(InteractiveAction::ApplyOnce);
        v.push(InteractiveAction::Create);
        v.push(InteractiveAction::Inspect);
        v.push(InteractiveAction::Status);
        v.push(InteractiveAction::Manage);
        v.push(InteractiveAction::Quit);
    } else {
        v.push(InteractiveAction::Create);
        v.push(InteractiveAction::Manage);
        v.push(InteractiveAction::Quit);
    }
    assert(v@ =~= main_actions_spec(has_collections));
    v
}

/// The "More options" menu: listing, renaming and removing only when collections exist.
pub open spec fn manage_actions_spec(has_collections: bool) -> Seq<ManageAction> {
    (if has_collections {
        seq![ManageAction::List, ManageAction::Rename, ManageAction::Remove]
    } else {
        Seq::empty()
    }) + seq![ManageAction::CreateHeic, ManageAction::Logs, ManageAction::StopScheduler, ManageAction::Back]
}

/// The actions of the "More options" menu (see [`manage_actions_spec`]).
pub fn manage_actions(has_collections: bool) -> (r: Vec<ManageAction>)
    ensures
        r@ == manage_actions_spec(has_collections),
{
    let mut v: Vec<ManageAction> = Vec::new();
    if has_collections {
        v.push(ManageAction::List);
        v.push(ManageAction::Rename);
        v.push(ManageAction::Remove);
    }
    v.push(ManageAction::CreateHeic);
    v.push(ManageAction::Logs);
    v.push(ManageAction::StopScheduler);
    v.push(ManageAction::Back);
    assert(v@ =~= manage_actions_spec(has_collections));
    v
}

// ---------------------------------------------------------------------------
// Choices
// ---------------------------------------------------------------------------
/// How a new collection changes the wallpaper.
#[derive(Clone, Copy, Debug, PartialEq, Eq, Structural)]
pub enum StrategyChoice {
    Static,
    Dynamic,
    Schedule,
}

impl StrategyChoice {
    pub fn label(&self) -> (r: &'static str)
        ensures
            r@ == match *self {
                StrategyChoice::Static => "Single wallpaper"@,
                StrategyChoice::Dynamic => "macOS dynamic"@,
                StrategyChoice::Schedule => "Time-based schedule"@,
            },
    {
        match self {
            StrategyChoice::Static => "Single wallpaper",
            StrategyChoice::Dynamic => "macOS dynamic",
            StrategyChoice::Schedule => "Time-based schedule",
        }
    }

    pub fn menu_text(&self) -> (r: &'static str)
        ensures
            r@ == match *self {
                StrategyChoice::Static => "Single wallpaper       Capture one wallpaper and reuse it"@,
                StrategyChoice::Dynamic => "macOS dynamic          Let macOS switch a dynamic HEIC"@,
                StrategyChoice::Schedule => "Time-based schedule    Switch captured wallpapers at fixed hours"@,
            },
    {
        match self {
            StrategyChoice::Static => "Single wallpaper       Capture one wallpaper and reuse it",
            StrategyChoice::Dynamic => "macOS dynamic          Let macOS switch a dynamic HEIC",
            StrategyChoice::Schedule => "Time-based schedule    Switch captured wallpapers at fixed hours",
        }
    }
}

/// The schedule of a new scheduled collection.
#[derive(Clone, Copy, Debug, PartialEq, Eq, Structural)]
pub enum ScheduleChoice {
    Three,
    Four,
    Custom,
}

impl ScheduleChoice {
    pub fn label(&self) -> (r: &'static str)
        ensures
            r@ == match *self {
                ScheduleChoice::Three => "Morning, day, and night"@,
                ScheduleChoice::Four => "Morning, day, evening, and night"@,
                ScheduleChoice::Custom => "Choose my own times"@,
            },
    {
        match self {
            ScheduleChoice::Three => "Morning, day, and night",
            ScheduleChoice::Four => "Morning, day, evening, and night",
            ScheduleChoice::Custom => "Choose my own times",
        }
    }

    pub fn menu_text(&self) -> (r: &'static str)
        ensures
            r@ == match *self {
                ScheduleChoice::Three => "Morning, day, and night            06:00 · 10:00 · 19:00"@,
                ScheduleChoice::Four => "Morning, day, evening, and night   06:00 · 10:00 · 17:00 · 20:00"@,
                ScheduleChoice::Custom => "Choose my own times"@,
            },
    {
        match self {
            ScheduleChoice::Three => "Morning, day, and night            06:00 · 10:00 · 19:00",
            ScheduleChoice::Four => "Morning, day, evening, and night   06:00 · 10:00 · 17:00 · 20:00",
            ScheduleChoice::Custom => "Choose my own times",
        }
    }
}

/// The preset a schedule choice names; a custom schedule has none.
#[derive(Clone, Copy, Debug, PartialEq, Eq, Structural)]
pub enum SchedulePresetChoice {
    NoPreset,
    Three,
    Four,
}

impl SchedulePresetChoice {
    /// The command-line preset of the choice.
    pub fn preset_arg(&self) -> (r: Option<crate::cli::PresetArg>)
        ensures
            r == match *self {
                SchedulePresetChoice::NoPreset => None,
                SchedulePresetChoice::Three => Some(crate::cli::PresetArg::Three),
                SchedulePresetChoice::Four => Some(crate::cli::PresetArg::Four),
            },
    {
        match self {
            SchedulePresetChoice::NoPreset => None,
            SchedulePresetChoice::Three => Some(crate::cli::PresetArg::Three),
            SchedulePresetChoice::Four => Some(crate::cli::PresetArg::Four),
        }
    }
}

/// A collection offered for selection.
pub struct CollectionChoice {
    pub name: String,
    pub title: String,
    pub strategy: Strategy,
    pub status: String,
    pub active: bool,
}

/// The line shown for a collection: title, name, strategy, readiness and whether it is
/// active.
pub open spec fn collection_choice_text(c: CollectionChoice) -> Seq<char> {
    c.title@ + " ("@ + c.name@ + ")  · "@ + strategy_name(c.strategy) + " · "@ + c.status@ + (if c.active {
        " · active"@
    } else {
        Seq::empty()
    })
}

impl CollectionChoice {
    /// The line shown for the collection (see [`collection_choice_text`]).
    pub fn text(&self) -> (r: String)
        ensures
            r@ == collection_choice_text(*self),
    {
        let mut v = chars_of(self.title.as_str());
        append_str(&mut v, " (");
        append_str(&mut v, self.name.as_str());
        append_str(&mut v, ")  · ");
        append_str(&mut v, self.strategy.as_str());
        append_str(&mut v, " · ");
        append_str(&mut v, self.status.as_str());
        if self.active {
            append_str(&mut v, " · active");
        }
        proof {
            if !self.active {
                assert(v@ =~= collection_choice_text(*self));
            }
        }
        string_of(v.as_slice())
    }
}

/// A profile offered for selection.
pub struct ProfileChoice {
    pub name: String,
    pub captured: bool,
}

impl ProfileChoice {
    /// The line shown for the profile: its name and whether it is captured.
    pub fn text(&self) -> (r: String)
        ensures
            r@ == self.name@ + "  · "@ + (if self.captured {
                "captured"@
            } else {
                "not captured yet"@
            }),
    {
        let mut v = chars_of(self.name.as_str());
        append_str(&mut v, "  · ");
        if self.captured {
            append_str(&mut v, "captured");
        } else {
            append_str(&mut v, "not captured yet");
        }
        string_of(v.as_slice())
    }
}

/// An hour offered for a schedule slot.
pub struct HourChoice(pub u8);

/// Two-digit hour, as `{:02}` writes it.
pub open spec fn two_digits(h: u8) -> Seq<char> {
    if h < 10 {
        "0"@ + decimal(h as nat)
    } else {
        decimal(h as nat)
    }
}

impl HourChoice {
    /// The line shown for the hour: `HH:00` and the friendly hour.
    pub fn text(&self) -> (r: String)
        ensures
            r@ == two_digits(self.0) + ":00  · "@ + friendly_hour_spec(self.0),
    {
        let mut v: Vec<char> = Vec::new();
        if self.0 < 10 {
            append_str(&mut v, "0");
        }
        append_chars(&mut v, &decimal_text(self.0 as usize));
        append_str(&mut v, ":00  · ");
        let f = friendly_hour(self.0);
        append_str(&mut v, f.as_str());
        string_of(v.as_slice())
    }
}

// ---------------------------------------------------------------------------
// Dashboard and readiness
// ---------------------------------------------------------------------------
/// The title of the first collection named `name`, or `name` itself.
pub open spec fn title_for(cs: Seq<CollectionConfig>, name: Seq<char>) -> Seq<char>
    decreases cs.len(),
{
    if cs.len() == 0 {
        name
    } else if cs[0].name@ == name {
        cs[0].title@
    } else {
        title_for(cs.drop_first(), name)
    }
}

/// The dashboard line: how many collections, which is active and its last profile.
pub open spec fn dashboard_spec(
    cs: Seq<CollectionConfig>,
    active: Option<Seq<char>>,
    last_profile: Option<Seq<char>>,
) -> Seq<char> {
    if cs.len() == 0 {
        "No collections yet · create one to save your first wallpaper"@
    } else {
        let head = decimal(cs.len()) + " "@ + (if cs.len() == 1 {
            "collection"@
        } else {
            "collections"@
        });
        match active {
            Some(a) => head + " · Active: "@ + title_for(cs, a) + match last_profile {
                Some(p) => " · profile "@ + p,
                None => Seq::empty(),
            },
            None => head + " · Nothing active"@,
        }
    }
}

/// The dashboard line (see [`dashboard_spec`]).
pub fn dashboard_summary(
    collections: &[CollectionConfig],
    active_collection: Option<&str>,
    last_applied_profile: Option<&str>,
) -> (r: String)
    ensures
        r@ == dashboard_spec(
            collections@,
            match active_collection {
                Some(s) => Some(s@),
                None => None,
            },
            match last_applied_profile {
                Some(s) => Some(s@),
                None => None,
            },
        ),
{
    if collections.len() == 0 {
        return crate::config::string_of_str("No collections yet · create one to save your first wallpaper");
    }
    let count = collections.len();
    let mut v = decimal_text(count);
    append_str(&mut v, " ");
    if count == 1 {
        append_str(&mut v, "collection");
    } else {
        append_str(&mut v, "collections");
    }
    match active_collection {
        Some(active) => {
            append_str(&mut v, " · Active: ");
            let mut i: usize = 0;
            assert(collections@.skip(0) =~= collections@);
            while i < collections.len() && !str_eq(collections[i].name.as_str(), active)
                invariant
                    i <= collections@.len(),
                    title_for(collections@, active@) == title_for(collections@.skip(i as int), active@),
                decreases collections.len() - i,
            {
                assert(collections@.skip(i as int).drop_first() =~= collections@.skip(i + 1));
                i += 1;
            }
            if i < collections.len() {
                assert(collections@.skip(i as int)[0] == collections@[i as int]);
                append_str(&mut v, collections[i].title.as_str());
            } else {
                assert(collections@.skip(i as int).len() == 0);
                append_str(&mut v, active);
            }
            if let Some(p) = last_applied_profile {
                append_str(&mut v, " · profile ");
                append_str(&mut v, p);
            }
        },
        None => {
            append_str(&mut v, " · Nothing active");
        },
    }
    string_of(v.as_slice())
}

/// How ready a collection is, from the number of profiles it expects and of those not
/// yet captured.
pub open spec fn collection_status_spec(expected: nat, missing: nat) -> Seq<char> {
    if expected == 0 {
        "needs a schedule"@
    } else if expected == 1 && missing == 0 {
        "captured"@
    } else if missing == 0 {
        "all profiles captured"@
    } else if missing == 1 {
        "1 profile missing"@
    } else {
        decimal(missing) + " profiles missing"@
    }
}

/// How ready a collection is (see [`collection_status_spec`]).
pub fn collection_status(expected: usize, missing: usize) -> (r: String)
    ensures
        r@ == collection_status_spec(expected as nat, missing as nat),
{
    if expected == 0 {
        crate::config::string_of_str("needs a schedule")
    } else if expected == 1 && missing == 0 {
        crate::config::string_of_str("captured")
    } else if missing == 0 {
        crate::config::string_of_str("all profiles captured")
    } else if missing == 1 {
        crate::config::string_of_str("1 profile missing")
    } else {
        let mut v = decimal_text(missing);
        append_str(&mut v, " profiles missing");
        string_of(v.as_slice())
    }
}

/// The profiles not yet captured, in order.
pub open spec fn missing_spec(names: Seq<String>, captured: Seq<bool>) -> Seq<Seq<char>>
    decreases names.len(),
{
    if names.len() == 0 {
        Seq::empty()
    } else {
        let rest = missing_spec(names.drop_last(), captured);
        if captured[names.len() - 1] {
            rest
        } else {
            rest.push(names.last()@)
        }
    }
}

/// The expected profiles whose files are missing; `captured[i]` tells whether the
/// profile `names[i]` is captured.
pub fn missing_profiles(names: &[String], captured: &[bool]) -> (r: Vec<String>)
    requires
        captured@.len() == names@.len(),
    ensures
        crate::asset_refs::strings_view(r@) == missing_spec(names@, captured@),
{
    let mut out: Vec<String> = Vec::new();
    let mut i: usize = 0;
    while i < names.len()
        invariant
            i <= names@.len(),
            captured@.len() == names@.len(),
            crate::asset_refs::strings_view(out@) == missing_spec(names@.subrange(0, i as int), captured@),
        decreases names.len() - i,
    {
        assert(names@.subrange(0, i + 1).drop_last() =~= names@.subrange(0, i as int));
        if !captured[i] {
            out.push(names[i].clone());
        }
        assert(crate::asset_refs::strings_view(out@) =~= missing_spec(names@.subrange(0, i + 1), captured@));
        i += 1;
    }
    assert(names@.subrange(0, names@.len() as int) =~= names@);
    out
}

// ---------------------------------------------------------------------------
// Prompts
// ---------------------------------------------------------------------------
/// Index of the last whitespace character of `s`, or -1.
pub open spec fn last_space(s: Seq<char>) -> int
    decreases s.len(),
{
    if s.len() == 0 {
        -1
    } else if is_white_space(s.last()) {
        s.len() - 1
    } else {
        last_space(s.drop_last())
    }
}

/// The last whitespace-separated word, as `split_whitespace().last()` gives it.
pub open spec fn last_word(s: Seq<char>) -> Option<Seq<char>> {
    let t = trim_end(s);
    if t.len() == 0 {
        None
    } else {
        Some(t.subrange(last_space(t) + 1, t.len() as int))
    }
}

proof fn lemma_last_space(s: Seq<char>)
    ensures
        -1 <= last_space(s) < s.len(),
    decreases s.len(),
{
    if s.len() > 0 && !is_white_space(s.last()) {
        lemma_last_space(s.drop_last());
    }
}

fn last_word_of(command: &str) -> (r: Option<String>)
    ensures
        match r {
            Some(w) => last_word(command@) == Some(w@),
            None => last_word(command@) is None,
        },
{
    let cs = chars_of(command);
    let t = crate::text::trim_end_chars(&cs);
    if t.len() == 0 {
        return None;
    }
    let mut i: usize = t.len();
    assert(t@.subrange(0, t@.len() as int) =~= t@);
    while i > 0 && !is_whitespace_char(t[i - 1])
        invariant
            i <= t@.len(),
            last_space(t@) == last_space(t@.subrange(0, i as int)),
        decreases i,
    {
        assert(t@.subrange(0, i as int).drop_last() =~= t@.subrange(0, i - 1));
        i -= 1;
    }
    proof {
        lemma_last_space(t@);
        if i > 0 {
            assert(t@.subrange(0, i as int).last() == t@[i - 1]);
        } else {
            assert(t@.subrange(0, 0) =~= Seq::<char>::empty());
        }
    }
    Some(string_of(crate::text::slice_chars(&t, i, t.len()).as_slice()))
}

/// The question asked when a command needs a collection, chosen by the command's last
/// word.
pub open spec fn collection_prompt_spec(command: Seq<char>) -> Seq<char> {
    match last_word(command) {
        Some(w) => if w == "use"@ {
            "Which collection should be activated?"@
        } else if w == "capture"@ {
            "Where should the current wallpaper be saved?"@
        } else if w == "apply"@ {
            "Which collection has the profile?"@
        } else if w == "inspect"@ {
            "Which collection do you want to inspect?"@
        } else if w == "rename"@ {
            "Which collection do you want to rename?"@
        } else if w == "remove"@ {
            "Which collection do you want to remove?"@
        } else {
            "Choose a collection"@
        },
        None => "Choose a collection"@,
    }
}

/// The question asked when a command needs a collection (see [`collection_prompt_spec`]).
pub fn collection_prompt(command: &str) -> (r: &'static str)
    ensures
        r@ == collection_prompt_spec(command@),
{
    match last_word_of(command) {
        Some(w) => {
            let w = w.as_str();
            if str_eq(w, "use") {
                "Which collection should be activated?"
            } else if str_eq(w, "capture") {
                "Where should the current wallpaper be saved?"
            } else if str_eq(w, "apply") {
                "Which collection has the profile?"
            } else if str_eq(w, "inspect") {
                "Which collection do you want to inspect?"
            } else if str_eq(w, "rename") {
                "Which collection do you want to rename?"
            } else if str_eq(w, "remove") {
                "Which collection do you want to remove?"
            } else {
                "Choose a collection"
            }
        },
        None => "Choose a collection",
    }
}

/// Whether the command is `apply` (its last word), which only offers captured profiles.
pub fn is_apply_command(command: &str) -> (r: bool)
    ensures
        r == (last_word(command@) == Some("apply"@)),
{
    match last_word_of(command) {
        Some(w) => str_eq(w.as_str(), "apply"),
        None => false,
    }
}

/// The profiles offered: when applying, only captured ones; otherwise those not yet
/// captured first, then the captured ones, each group in its order.
pub open spec fn profile_choices_spec(names: Seq<Seq<char>>, captured: Seq<bool>, applying: bool) -> Seq<
    (Seq<char>, bool),
> {
    let pairs = Seq::new(names.len(), |i: int| (names[i], captured[i]));
    let done = pairs.filter(|p: (Seq<char>, bool)| p.1);
    let todo = pairs.filter(|p: (Seq<char>, bool)| !p.1);
    if applying {
        done
    } else {
        todo + done
    }
}

pub open spec fn choices_view(v: Seq<ProfileChoice>) -> Seq<(Seq<char>, bool)> {
    v.map_values(|c: ProfileChoice| (c.name@, c.captured))
}

/// The profiles offered for a command (see [`profile_choices_spec`]).
pub fn profile_choices(names: &[String], captured: &[bool], applying: bool) -> (r: Vec<ProfileChoice>)
    requires
        captured@.len() == names@.len(),
    ensures
        choices_view(r@) == profile_choices_spec(crate::asset_refs::strings_view(names@), captured@, applying),
{
    let ghost nv = crate::asset_refs::strings_view(names@);
    let ghost pairs = Seq::new(nv.len(), |i: int| (nv[i], captured@[i]));
    let mut done: Vec<ProfileChoice> = Vec::new();
    let mut todo: Vec<ProfileChoice> = Vec::new();
    let mut i: usize = 0;
    while i < names.len()
        invariant
            i <= names@.len(),
            captured@.len() == names@.len(),
            nv == crate::asset_refs::strings_view(names@),
            pairs == Seq::new(nv.len(), |i: int| (nv[i], captured@[i])),
            choices_view(done@) == pairs.subrange(0, i as int).filter(|p: (Seq<char>, bool)| p.1),
            choices_view(todo@) == pairs.subrange(0, i as int).filter(|p: (Seq<char>, bool)| !p.1),
        decreases names.len() - i,
    {
        let c = ProfileChoice { name: names[i].clone(), captured: captured[i] };
        proof {
            let pre = pairs.subrange(0, i as int);
            let now = pairs.subrange(0, i + 1);
            assert(now =~= pre.push(pairs[i as int]));
            pre.lemma_filter_push(pairs[i as int], |p: (Seq<char>, bool)| p.1);
            pre.lemma_filter_push(pairs[i as int], |p: (Seq<char>, bool)| !p.1);
        }
        if captured[i] {
            done.push(c);
        } else {
            todo.push(c);
        }
        proof {
            assert(choices_view(done@) =~= pairs.subrange(0, i + 1).filter(|p: (Seq<char>, bool)| p.1));
            assert(choices_view(todo@) =~= pairs.subrange(0, i + 1).filter(|p: (Seq<char>, bool)| !p.1));
        }
        i += 1;
    }
    assert(pairs.subrange(0, pairs.len() as int) =~= pairs);
    if applying {
        done
    } else {
        let ghost tv = choices_view(todo@);
        let ghost dv = choices_view(done@);
        let mut all = todo;
        let mut j: usize = 0;
        while j < done.len()
            invariant
                j <= done@.len(),
                dv == choices_view(done@),
                choices_view(all@) == tv + dv.subrange(0, j as int),
            decreases done.len() - j,
        {
            let d = ProfileChoice { name: done[j].name.clone(), captured: done[j].captured };
            let ghost before = all@;
            all.push(d);
            assert(dv[j as int] == (done@[j as int].name@, done@[j as int].captured));
            assert(choices_view(all@) =~= choices_view(before).push(dv[j as int]));
            assert(choices_view(all@) =~= tv + dv.subrange(0, j + 1));
            j += 1;
        }
        assert(dv.subrange(0, dv.len() as int) =~= dv);
        all
    }
}

// ---------------------------------------------------------------------------
// Hours
// ---------------------------------------------------------------------------
/// An hour on the 12-hour clock.
pub open spec fn friendly_hour_spec(hour: u8) -> Seq<char> {
    if hour == 0 {
        "12 AM"@
    } else if hour <= 11 {
        decimal(hour as nat) + " AM"@
    } else if hour == 12 {
        "12 PM"@
    } else {
        decimal((hour - 12) as nat) + " PM"@
    }
}

/// An hour on the 12-hour clock (see [`friendly_hour_spec`]).
pub fn friendly_hour(hour: u8) -> (r: String)
    ensures
        r@ == friendly_hour_spec(hour),
{
    if hour == 0 {
        crate::config::string_of_str("12 AM")
    } else if hour <= 11 {
        let mut v = decimal_text(hour as usize);
        append_str(&mut v, " AM");
        string_of(v.as_slice())
    } else if hour == 12 {
        crate::config::string_of_str("12 PM")
    } else {
        let mut v = decimal_text((hour - 12) as usize);
        append_str(&mut v, " PM");
        string_of(v.as_slice())
    }
}

/// The profile name suggested for a slot starting at an hour.
pub open spec fn suggested_name_spec(hour: u8) -> Seq<char> {
    if 5 <= hour <= 9 {
        "morning"@
    } else if 10 <= hour <= 15 {
        "day"@
    } else if 16 <= hour <= 19 {
        "evening"@
    } else {
        "night"@
    }
}

/// The profile name suggested for a slot starting at an hour.
pub fn suggested_profile_name(hour: u8) -> (r: &'static str)
    ensures
        r@ == suggested_name_spec(hour),
{
    if 5 <= hour && hour <= 9 {
        "morning"
    } else if 10 <= hour && hour <= 15 {
        "day"
    } else if 16 <= hour && hour <= 19 {
        "evening"
    } else {
        "night"
    }
}

/// The hour suggested for the next custom slot: four hours after the last one, or 6.
pub fn suggested_hour(slots: &[ScheduleSlotArg]) -> (r: u8)
    ensures
        r == (if slots@.len() == 0 {
            6
        } else {
            ((slots@.last().hour as int + 4) % 24) as u8
        }),
{
    if slots.len() == 0 {
        6
    } else {
        let h = slots[slots.len() - 1].hour as u16;
        ((h + 4) % 24) as u8
    }
}

/// Some slot starts at `hour`.
pub open spec fn hour_taken(slots: Seq<ScheduleSlotArg>, hour: int) -> bool {
    exists|i: int| 0 <= i < slots.len() && slots[i].hour == hour
}

/// The hours from 0 to 23 that no slot takes, in order.
pub open spec fn free_hours(slots: Seq<ScheduleSlotArg>, upto: int) -> Seq<u8>
    decreases upto,
{
    if upto <= 0 {
        Seq::empty()
    } else {
        let rest = free_hours(slots, upto - 1);
        if hour_taken(slots, upto - 1) {
            rest
        } else {
            rest.push((upto - 1) as u8)
        }
    }
}

/// The hours still free for a custom slot (see [`free_hours`]).
pub fn available_hours(slots: &[ScheduleSlotArg]) -> (r: Vec<u8>)
    ensures
        r@ == free_hours(slots@, 24),
{
    let mut out: Vec<u8> = Vec::new();
    let mut h: u8 = 0;
    while h < 24
        invariant
            h <= 24,
            out@ == free_hours(slots@, h as int),
        decreases 24 - h,
    {
        let mut taken = false;
        let mut i: usize = 0;
        while i < slots.len()
            invariant
                i <= slots@.len(),
                taken == exists|j: int| 0 <= j < i && slots@[j].hour == h,
            decreases slots.len() - i,
        {
            if slots[i].hour == h {
                taken = true;
            }
            i += 1;
        }
        if !taken {
            out.push(h);
        }
        h += 1;
    }
    out
}

/// The position of the first hour at or after `suggested`, or 0.
pub open spec fn cursor_spec(hours: Seq<u8>, suggested: u8) -> int
    decreases hours.len(),
{
    if hours.len() == 0 {
        0
    } else if hours[0] >= suggested {
        0
    } else if exists|j: int| 0 <= j < hours.len() && hours[j] >= suggested {
        1 + cursor_spec(hours.drop_first(), suggested)
    } else {
        0
    }
}

/// Where the hour selection starts (see [`cursor_spec`]).
pub fn starting_cursor(hours: &[u8], suggested: u8) -> (r: usize)
    ensures
        r == cursor_spec(hours@, suggested),
{
    let mut i: usize = 0;
    while i < hours.len()
        invariant
            i <= hours@.len(),
            forall|j: int| 0 <= j < i ==> hours@[j] < suggested,
        decreases hours.len() - i,
    {
        if hours[i] >= suggested {
            proof {
                lemma_cursor_at(hours@, suggested, i as int);
            }
            return i;
        }
        i += 1;
    }
    proof {
        lemma_cursor_none(hours@, suggested);
    }
    0
}

proof fn lemma_cursor_at(hours: Seq<u8>, suggested: u8, i: int)
    requires
        0 <= i < hours.len(),
        hours[i] >= suggested,
        forall|j: int| 0 <= j < i ==> hours[j] < suggested,
    ensures
        cursor_spec(hours, suggested) == i,
    decreases i,
{
    if i > 0 {
        assert(hours[i] >= suggested);
        assert(hours.drop_first()[i - 1] == hours[i]);
        lemma_cursor_at(hours.drop_first(), suggested, i - 1);
    }
}

proof fn lemma_cursor_none(hours: Seq<u8>, suggested: u8)
    requires
        forall|j: int| 0 <= j < hours.len() ==> hours[j] < suggested,
    ensures
        cursor_spec(hours, suggested) == 0,
{
}

/// The slots ordered by hour, slots of one hour keeping their order.
pub open spec fn insert_by_hour(sorted: Seq<(u8, Seq<char>)>, x: (u8, Seq<char>)) -> Seq<(u8, Seq<char>)>
    decreases sorted.len(),
{
    if sorted.len() == 0 {
        seq![x]
    } else if sorted.last().0 <= x.0 {
        sorted.push(x)
    } else {
        insert_by_hour(sorted.drop_last(), x).push(sorted.last())
    }
}

pub open spec fn sort_by_hour(s: Seq<(u8, Seq<char>)>) -> Seq<(u8, Seq<char>)>
    decreases s.len(),
{
    if s.len() == 0 {
        Seq::empty()
    } else {
        insert_by_hour(sort_by_hour(s.drop_last()), s.last())
    }
}

pub open spec fn slots_view(v: Seq<ScheduleSlotArg>) -> Seq<(u8, Seq<char>)> {
    v.map_values(|s: ScheduleSlotArg| (s.hour, s.profile@))
}

proof fn lemma_insert_by_hour(s: Seq<(u8, Seq<char>)>, x: (u8, Seq<char>), pos: int)
    requires
        0 <= pos <= s.len(),
        pos > 0 ==> s[pos - 1].0 <= x.0,
        forall|j: int| pos <= j < s.len() ==> s[j].0 > x.0,
    ensures
        insert_by_hour(s, x) == s.insert(pos, x),
    decreases s.len(),
{
    s.insert_ensures(pos, x);
    if s.len() == 0 {
        assert(s.insert(pos, x) =~= seq![x]);
    } else if pos == s.len() {
        assert(s.insert(pos, x) =~= s.push(x));
    } else {
        let d = s.drop_last();
        assert forall|j: int| pos <= j < d.len() implies d[j].0 > x.0 by {
            assert(d[j] == s[j]);
        }
        if pos > 0 {
            assert(d[pos - 1] == s[pos - 1]);
        }
        lemma_insert_by_hour(d, x, pos);
        d.insert_ensures(pos, x);
        assert(s.insert(pos, x) =~= d.insert(pos, x).push(s.last()));
    }
}

/// Custom slots ordered by hour, as the stable `sort_by_key` orders them (see
/// [`sort_by_hour`]).
pub fn sorted_by_hour(slots: &[ScheduleSlotArg]) -> (r: Vec<ScheduleSlotArg>)
    ensures
        slots_view(r@) == sort_by_hour(slots_view(slots@)),
{
    let ghost input = slots_view(slots@);
    let mut out: Vec<ScheduleSlotArg> = Vec::new();
    let mut i: usize = 0;
    while i < slots.len()
        invariant
            i <= slots@.len(),
            input == slots_view(slots@),
            slots_view(out@) == sort_by_hour(input.subrange(0, i as int)),
        decreases slots.len() - i,
    {
        let s = ScheduleSlotArg { hour: slots[i].hour, profile: slots[i].profile.clone() };
        let ghost ov = slots_view(out@);
        let ghost x = (s.hour, s.profile@);
        let mut pos: usize = out.len();
        while pos > 0 && out[pos - 1].hour > s.hour
            invariant
                pos <= out@.len(),
                ov == slots_view(out@),
                x == (s.hour, s.profile@),
                forall|j: int| pos <= j < out@.len() ==> ov[j].0 > x.0,
            decreases pos,
        {
            assert(ov[pos - 1].0 == out@[pos - 1].hour);
            pos -= 1;
        }
        proof {
            if pos > 0 {
                assert(ov[pos - 1].0 == out@[pos - 1].hour);
            }
            lemma_insert_by_hour(ov, x, pos as int);
            assert(input.subrange(0, i + 1).drop_last() =~= input.subrange(0, i as int));
            assert(input.subrange(0, i + 1).last() == x);
        }
        out.insert(pos, s);
        assert(slots_view(out@) =~= ov.insert(pos as int, x));
        i += 1;
    }
    assert(input.subrange(0, input.len() as int) =~= input);
    out
}

// ---------------------------------------------------------------------------
// Images and home-relative paths
// ---------------------------------------------------------------------------
/// Image extensions a light/dark HEIC can be made from, in any letter case.
pub open spec fn is_supported_image_spec(path: Seq<char>) -> bool {
    let l = ascii_lowercase(
        match extension(path) {
            Some(e) => e,
            None => Seq::empty(),
        },
    );
    l == "jpg"@ || l == "jpeg"@ || l == "png"@ || l == "heic"@ || l == "heif"@ || l == "tif"@
        || l == "tiff"@ || l == "webp"@
}

/// Whether the path names an image a light/dark HEIC can be made from.
pub fn is_supported_image(path: &str) -> (r: bool)
    ensures
        r == is_supported_image_spec(path@),
{
    let e = match extension_of(&chars_of(path)) {
        Some(e) => e,
        None => Vec::new(),
    };
    let lower = string_of(ascii_lowercase_chars(&e).as_slice());
    let l = lower.as_str();
    str_eq(l, "jpg") || str_eq(l, "jpeg") || str_eq(l, "png") || str_eq(l, "heic") || str_eq(
        l,
        "heif",
    ) || str_eq(l, "tif") || str_eq(l, "tiff") || str_eq(l, "webp")
}

/// A path typed by the user with `~` standing for the home directory.
pub open spec fn expand_home_spec(value: Seq<char>, home: Seq<char>) -> Seq<char> {
    if value == "~"@ {
        home
    } else if crate::text::starts_with(value, "~/"@) {
        join_spec(home, value.skip(2))
    } else {
        value
    }
}

/// Expands a leading `~` against the home directory (see [`expand_home_spec`]).
pub fn expand_home_path(value: &str, home: &str) -> (r: String)
    ensures
        r@ == expand_home_spec(value@, home@),
{
    if str_eq(value, "~") {
        return crate::config::string_of_str(home);
    }
    let cs = chars_of(value);
    let prefix = chars_of("~/");
    match crate::text::strip_prefix_chars(&cs, &prefix) {
        Some(rest) => {
            proof {
                reveal_strlit("~/");
                assert(rest@ =~= value@.skip(2));
            }
            join(home, string_of(rest.as_slice()).as_str())
        },
        None => crate::config::string_of_str(value),
    }
}

} // verus!
