//! Which profiles a collection needs and which one applies: the decisions behind
//! `capture`, `apply`, `use` and `dispatch`.
use vstd::prelude::*;

use crate::config::{
    metadata_check, normalize_profile_name, profile_name_spec, slots_check, slugify, slugify_spec,
    validate_slots, CollectionConfig, ConfigError, ConfigFault, ProfileNameError,
    ProfileNameFault, ScheduleSlot, SlotError, SlotFault, Strategy,
};
use crate::schedule::{is_selected_slot, select_slot, ScheduleError, ScheduleFault};

verus! {

/// Why a collection cannot be activated or a profile chosen.
#[derive(Debug)]
pub enum ActivationError {
    Config(ConfigError),
    ProfileName(ProfileNameError),
    Slots(SlotError),
    Schedule(ScheduleError),
    /// The name is not a collection slug.
    NoUsableCharacters { input: String },
    /// The name is a different spelling of a slug.
    NotExactSlug { input: String, slug: String },
    /// No collection is active.
    NoActiveCollection,
    /// The active collection has no schedule.
    NotScheduled { name: String },
}

/// Mathematical form of [`ActivationError`].
pub enum ActivationFault {
    Config(ConfigFault),
    ProfileName(ProfileNameFault),
    Slots(SlotFault),
    Schedule(ScheduleFault),
    NoUsableCharacters(Seq<char>),
    NotExactSlug(Seq<char>, Seq<char>),
    NoActiveCollection,
    NotScheduled(Seq<char>),
}

impl View for ActivationError {
    type V = ActivationFault;

    open spec fn view(&self) -> ActivationFault {
        match self {
            ActivationError::Config(e) => ActivationFault::Config(e@),
            ActivationError::ProfileName(e) => ActivationFault::ProfileName(e@),
            ActivationError::Slots(e) => ActivationFault::Slots(e@),
            ActivationError::Schedule(e) => ActivationFault::Schedule(e@),
            ActivationError::NoUsableCharacters { input } => ActivationFault::NoUsableCharacters(input@),
            ActivationError::NotExactSlug { input, slug } => ActivationFault::NotExactSlug(input@, slug@),
            ActivationError::NoActiveCollection => ActivationFault::NoActiveCollection,
            ActivationError::NotScheduled { name } => ActivationFault::NotScheduled(name@),
        }
    }
}

/// A collection named on the command line must be given as its exact slug.
pub open spec fn collection_slug_spec(input: Seq<char>) -> Result<Seq<char>, ActivationFault> {
    let slug = slugify_spec(input);
    if slug.len() == 0 {
        Err(ActivationFault::NoUsableCharacters(input))
    } else if slug != input {
        Err(ActivationFault::NotExactSlug(input, slug))
    } else {
        Ok(slug)
    }
}

/// Checks a collection named on the command line (see [`collection_slug_spec`]).
pub fn normalize_collection_slug(input: &str) -> (r: Result<String, ActivationError>)
    ensures
        match r {
            Ok(s) => collection_slug_spec(input@) == Ok::<Seq<char>, ActivationFault>(s@),
            Err(e) => collection_slug_spec(input@) == Err::<Seq<char>, ActivationFault>(e@),
        },
{
    let slug = slugify(input);
    if slug.as_str().is_empty() {
        return Err(ActivationError::NoUsableCharacters { input: crate::config::string_of_str(input) });
    }
    if !crate::text::str_eq(slug.as_str(), input) {
        return Err(ActivationError::NotExactSlug { input: crate::config::string_of_str(input), slug });
    }
    Ok(slug)
}

/// The normalized profile names of the slots, each once, in the order of their first
/// slot; the first name that cannot be normalized is the error.
pub open spec fn slot_profile_names(slots: Seq<ScheduleSlot>) -> Result<Seq<Seq<char>>, ProfileNameFault>
    decreases slots.len(),
{
    if slots.len() == 0 {
        Ok(Seq::empty())
    } else {
        match slot_profile_names(slots.drop_last()) {
            Err(e) => Err(e),
            Ok(names) => match profile_name_spec(slots.last().profile@) {
                Err(e) => Err(e),
                Ok(n) => Ok(
                    if names.contains(n) {
                        names
                    } else {
                        names.push(n)
                    },
                ),
            },
        }
    }
}

fn distinct_slot_names(slots: &[ScheduleSlot]) -> (r: Result<Vec<String>, ProfileNameError>)
    ensures
        match r {
            Ok(v) => slot_profile_names(slots@) == Ok::<Seq<Seq<char>>, ProfileNameFault>(
                crate::asset_refs::strings_view(v@),
            ),
            Err(e) => slot_profile_names(slots@) == Err::<Seq<Seq<char>>, ProfileNameFault>(e@),
        },
{
    let mut names: Vec<String> = Vec::new();
    let mut i: usize = 0;
    assert(slots@.subrange(0, 0) =~= Seq::<ScheduleSlot>::empty());
    assert(crate::asset_refs::strings_view(names@) =~= Seq::<Seq<char>>::empty());
    while i < slots.len()
        invariant
            i <= slots@.len(),
            slot_profile_names(slots@.subrange(0, i as int)) == Ok::<Seq<Seq<char>>, ProfileNameFault>(
                crate::asset_refs::strings_view(names@),
            ),
        decreases slots.len() - i,
    {
        let ghost nv = crate::asset_refs::strings_view(names@);
        assert(slots@.subrange(0, i + 1).drop_last() =~= slots@.subrange(0, i as int));
        let name = normalize_profile_name(slots[i].profile.as_str());
        match name {
            Err(e) => {
                proof {
                    lemma_names_error_prefix(slots@, i + 1, e@);
                }
                return Err(e);
            },
            Ok(n) => {
                let mut seen = false;
                let mut j: usize = 0;
                while j < names.len()
                    invariant
                        j <= names@.len(),
                        nv == crate::asset_refs::strings_view(names@),
                        seen == exists|k: int| 0 <= k < j && nv[k] == n@,
                    decreases names.len() - j,
                {
                    assert(nv[j as int] == names@[j as int]@);
                    if crate::text::str_eq(names[j].as_str(), n.as_str()) {
                        seen = true;
                    }
                    j += 1;
                }
                proof {
                    if nv.contains(n@) {
                        let k = choose|k: int| 0 <= k < nv.len() && nv[k] == n@;
                        assert(seen);
                    }
                }
                if !seen {
                    names.push(n);
                    assert(crate::asset_refs::strings_view(names@) =~= nv.push(n@));
                }
            },
        }
        i += 1;
    }
    assert(slots@.subrange(0, slots@.len() as int) =~= slots@);
    Ok(names)
}

proof fn lemma_names_error_prefix(slots: Seq<ScheduleSlot>, k: int, e: ProfileNameFault)
    requires
        0 <= k <= slots.len(),
        slot_profile_names(slots.subrange(0, k)) == Err::<Seq<Seq<char>>, ProfileNameFault>(e),
    ensures
        slot_profile_names(slots) == Err::<Seq<Seq<char>>, ProfileNameFault>(e),
    decreases slots.len() - k,
{
    if k == slots.len() {
        assert(slots.subrange(0, k) =~= slots);
    } else {
        assert(slots.subrange(0, k + 1).drop_last() =~= slots.subrange(0, k));
        lemma_names_error_prefix(slots, k + 1, e);
    }
}

/// The profiles a collection expects: the default one for static and dynamic
/// collections, the distinct slot profiles of a schedule.
pub open spec fn expected_names_spec(c: CollectionConfig) -> Result<Seq<Seq<char>>, ActivationFault> {
    match c.strategy {
        Strategy::Schedule => match slot_profile_names(c.slots@) {
            Ok(ns) => Ok(ns),
            Err(e) => Err(ActivationFault::ProfileName(e)),
        },
        _ => match c.default_profile {
            Some(p) => Ok(seq![p@]),
            None => Err(ActivationFault::Config(ConfigFault::NoDefaultProfile(c.name@))),
        },
    }
}

/// The profiles a collection expects (see [`expected_names_spec`]).
pub fn expected_profile_names(config: &CollectionConfig) -> (r: Result<Vec<String>, ActivationError>)
    ensures
        match r {
            Ok(v) => expected_names_spec(*config) == Ok::<Seq<Seq<char>>, ActivationFault>(
                crate::asset_refs::strings_view(v@),
            ),
            Err(e) => expected_names_spec(*config) == Err::<Seq<Seq<char>>, ActivationFault>(e@),
        },
{
    match config.strategy {
        Strategy::Schedule => {
            match distinct_slot_names(config.slots.as_slice()) {
                Ok(v) => Ok(v),
                Err(e) => Err(ActivationError::ProfileName(e)),
            }
        },
        _ => {
            match config.default_profile_name() {
                Ok(p) => {
                    let mut v: Vec<String> = Vec::new();
                    v.push(crate::config::string_of_str(p));
                    assert(crate::asset_refs::strings_view(v@) =~= seq![p@]);
                    Ok(v)
                },
                Err(e) => Err(ActivationError::Config(e)),
            }
        },
    }
}

/// What activation checks before loading profiles, and the profiles it loads: valid
/// metadata, then the default profile, or a valid schedule and its distinct profiles.
pub open spec fn activation_spec(c: CollectionConfig) -> Result<Seq<Seq<char>>, ActivationFault> {
    match metadata_check(c) {
        Some(f) => Err(ActivationFault::Config(f)),
        None => match c.strategy {
            Strategy::Schedule => match slots_check(c.slots@) {
                Some(f) => Err(ActivationFault::Slots(f)),
                None => expected_names_spec(c),
            },
            _ => expected_names_spec(c),
        },
    }
}

/// The profiles to load and restore before a collection is activated (see
/// [`activation_spec`]).
pub fn activation_profiles(config: &CollectionConfig) -> (r: Result<Vec<String>, ActivationError>)
    ensures
        match r {
            Ok(v) => activation_spec(*config) == Ok::<Seq<Seq<char>>, ActivationFault>(
                crate::asset_refs::strings_view(v@),
            ),
            Err(e) => activation_spec(*config) == Err::<Seq<Seq<char>>, ActivationFault>(e@),
        },
{
    match config.validate_metadata() {
        Err(e) => {
            return Err(ActivationError::Config(e));
        },
        Ok(()) => {},
    }
    if let Strategy::Schedule = config.strategy {
        match validate_slots(config.slots.as_slice()) {
            Err(e) => {
                return Err(ActivationError::Slots(e));
            },
            Ok(()) => {},
        }
    }
    expected_profile_names(config)
}

/// The slot's normalized profile name is one of `names`.
pub open spec fn slot_name_listed(names: Seq<Seq<char>>, s: ScheduleSlot) -> bool {
    match profile_name_spec(s.profile@) {
        Ok(n) => names.contains(n),
        Err(_) => false,
    }
}

/// `n` is the normalized profile name of some slot.
pub open spec fn name_of_some_slot(slots: Seq<ScheduleSlot>, n: Seq<char>) -> bool {
    exists|i: int| 0 <= i < slots.len() && profile_name_spec((#[trigger] slots[i]).profile@) == Ok::<
        Seq<char>,
        ProfileNameFault,
    >(n)
}

proof fn lemma_slot_names(slots: Seq<ScheduleSlot>)
    requires
        slot_profile_names(slots) is Ok,
    ensures
        forall|i: int| 0 <= i < slots.len() ==> slot_name_listed(slot_profile_names(slots)->Ok_0, #[trigger] slots[i]),
        forall|k: int|
            0 <= k < slot_profile_names(slots)->Ok_0.len() ==> name_of_some_slot(
                slots,
                #[trigger] slot_profile_names(slots)->Ok_0[k],
            ),
        slot_profile_names(slots)->Ok_0.no_duplicates(),
    decreases slots.len(),
{
    if slots.len() > 0 {
        let pre = slots.drop_last();
        lemma_slot_names(pre);
        let names = slot_profile_names(pre)->Ok_0;
        let n = profile_name_spec(slots.last().profile@)->Ok_0;
        let ns = slot_profile_names(slots)->Ok_0;
        assert forall|i: int| 0 <= i < slots.len() implies slot_name_listed(ns, #[trigger] slots[i]) by {
            if i < slots.len() - 1 {
                assert(pre[i] == slots[i]);
                assert(slot_name_listed(names, pre[i]));
                let m = profile_name_spec(pre[i].profile@)->Ok_0;
                if !names.contains(n) {
                    let j = choose|j: int| 0 <= j < names.len() && names[j] == m;
                    assert(ns[j] == m);
                }
            } else {
                if !names.contains(n) {
                    assert(ns[ns.len() - 1] == n);
                }
            }
        }
        assert forall|k: int| 0 <= k < ns.len() implies name_of_some_slot(slots, #[trigger] ns[k]) by {
            if k < names.len() {
                assert(ns[k] == names[k]);
                assert(name_of_some_slot(pre, names[k]));
                let i = choose|i: int| 0 <= i < pre.len() && profile_name_spec((#[trigger] pre[i]).profile@)
                    == Ok::<Seq<char>, ProfileNameFault>(names[k]);
                assert(pre[i] == slots[i]);
            } else {
                assert(slots[slots.len() - 1] == slots.last());
            }
        }
        if !names.contains(n) {
            assert forall|a: int, b: int| 0 <= a < b < ns.len() implies ns[a] != ns[b] by {
                if b == ns.len() - 1 {
                    assert(ns[a] == names[a]);
                }
            }
        }
    }
}

/// Activating a schedule loads the profile of every slot, each once: the profiles that
/// activation loads are the slots' normalized profile names, all of them and no other,
/// without repeats.
pub proof fn law_activation_loads_every_slot(c: CollectionConfig)
    requires
        c.strategy == Strategy::Schedule,
        activation_spec(c) is Ok,
    ensures
        forall|i: int| 0 <= i < c.slots@.len() ==> slot_name_listed(activation_spec(c)->Ok_0, #[trigger] c.slots@[i]),
        forall|k: int|
            0 <= k < activation_spec(c)->Ok_0.len() ==> name_of_some_slot(
                c.slots@,
                #[trigger] activation_spec(c)->Ok_0[k],
            ),
        activation_spec(c)->Ok_0.no_duplicates(),
{
    lemma_slot_names(c.slots@);
}

// ---------------------------------------------------------------------------
// New collections
// ---------------------------------------------------------------------------
/// The name given to `new`.
pub open spec fn new_name(args: crate::cli::NewArgs) -> Seq<char> {
    match args.kind {
        crate::cli::NewKind::Static(a) => a.name@,
        crate::cli::NewKind::Dynamic(a) => a.name@,
        crate::cli::NewKind::Schedule(a) => a.name@,
    }
}

/// The strategy `new` asks for.
pub open spec fn new_strategy(args: crate::cli::NewArgs) -> Strategy {
    match args.kind {
        crate::cli::NewKind::Static(_) => Strategy::Static,
        crate::cli::NewKind::Dynamic(_) => Strategy::Dynamic,
        crate::cli::NewKind::Schedule(_) => Strategy::Schedule,
    }
}

/// The custom slots of a new schedule without a preset, in hour order.
pub open spec fn custom_slots(args: crate::cli::NewArgs) -> Seq<(u8, Seq<char>)> {
    match args.kind {
        crate::cli::NewKind::Schedule(a) => match a.preset {
            Some(_) => Seq::empty(),
            None => crate::interactive::sort_by_hour(crate::interactive::slots_view(a.slots@)),
        },
        _ => Seq::empty(),
    }
}

/// The slots a new collection starts with: the preset's, else the custom slots.
pub open spec fn new_slots(args: crate::cli::NewArgs) -> Seq<(u8, Seq<char>)> {
    match args.kind {
        crate::cli::NewKind::Schedule(a) => match a.preset {
            Some(p) => crate::config::preset_spec(crate::cli::preset_of(p)),
            None => custom_slots(args),
        },
        _ => Seq::empty(),
    }
}

fn to_schedule_slots(slots: &[crate::cli::ScheduleSlotArg]) -> (r: Vec<ScheduleSlot>)
    ensures
        crate::config::slot_pairs(r@) == crate::interactive::slots_view(slots@),
{
    let mut out: Vec<ScheduleSlot> = Vec::new();
    let mut i: usize = 0;
    while i < slots.len()
        invariant
            i <= slots@.len(),
            crate::config::slot_pairs(out@) == crate::interactive::slots_view(slots@).subrange(0, i as int),
        decreases slots.len() - i,
    {
        let ghost before = out@;
        let slot = ScheduleSlot { hour: slots[i].hour, profile: slots[i].profile.clone() };
        assert(slot.profile@ == slots@[i as int].profile@);
        out.push(slot);
        assert(out@ =~= before.push(slot));
        assert(crate::config::slot_pairs(out@) =~= crate::config::slot_pairs(before).push((slot.hour, slot.profile@)));
        assert(crate::interactive::slots_view(slots@).subrange(0, i + 1) =~= crate::interactive::slots_view(slots@).subrange(0, i as int).push((slots@[i as int].hour, slots@[i as int].profile@)));
        i += 1;
    }
    assert(crate::interactive::slots_view(slots@).subrange(0, slots@.len() as int) =~= crate::interactive::slots_view(slots@));
    out
}

/// The configuration of a collection made by `new`: its name as a slug (which must not
/// be empty), its title from the name, the strategy asked for, the default profile for
/// static and dynamic collections, and for a schedule the preset's slots or else the
/// custom slots in hour order, which must form a valid schedule.
pub fn new_collection_config(args: crate::cli::NewArgs) -> (r: Result<CollectionConfig, ActivationError>)
    ensures
        match r {
            Ok(c) => {
                &&& slugify_spec(new_name(args)).len() > 0
                &&& c.name@ == slugify_spec(new_name(args))
                &&& c.title@ == crate::config::title_spec(new_name(args))
                &&& c.strategy == new_strategy(args)
                &&& c.apply_mode == crate::config::ApplyMode::Smart
                &&& crate::config::slot_pairs(c.slots@) == new_slots(args)
                &&& if c.strategy == Strategy::Schedule {
                    c.default_profile is None
                } else {
                    c.default_profile matches Some(p) && p@ == crate::config::DEFAULT_PROFILE@
                }
                &&& custom_slots(args).len() > 0 ==> slots_check(c.slots@) is None
            },
            Err(e) => if slugify_spec(new_name(args)).len() == 0 {
                e@ == ActivationFault::NoUsableCharacters(new_name(args))
            } else {
                &&& custom_slots(args).len() > 0
                &&& e matches ActivationError::Slots(cause) && exists|s: Seq<ScheduleSlot>|
                    crate::config::slot_pairs(s) == custom_slots(args) && slots_check(s) == Some(cause@)
            },
        },
{
    let ghost g = args;
    let (strategy, name, preset, slots) = match args.kind {
        crate::cli::NewKind::Static(a) => (Strategy::Static, a.name, None, Vec::new()),
        crate::cli::NewKind::Dynamic(a) => (Strategy::Dynamic, a.name, None, Vec::new()),
        crate::cli::NewKind::Schedule(a) => (Strategy::Schedule, a.name, a.preset, a.slots),
    };
    assert(name@ == new_name(g));
    let slug = slugify(name.as_str());
    if slug.as_str().is_empty() {
        return Err(ActivationError::NoUsableCharacters { input: name });
    }
    let title = crate::config::title_from_input(name.as_str());
    match strategy {
        Strategy::Static => Ok(CollectionConfig::new_static(slug, title)),
        Strategy::Dynamic => Ok(CollectionConfig::new_dynamic(slug, title)),
        Strategy::Schedule => {
            match preset {
                Some(p) => {
                    let chosen = match p {
                        crate::cli::PresetArg::Three => crate::config::Preset::Three,
                        crate::cli::PresetArg::Four => crate::config::Preset::Four,
                    };
                    Ok(CollectionConfig::new_schedule(slug, title, Some(chosen)))
                },
                None => {
                    let mut config = CollectionConfig::new_schedule(slug, title, None);
                    if slots.len() > 0 {
                        let sorted = crate::interactive::sorted_by_hour(slots.as_slice());
                        let converted = to_schedule_slots(sorted.as_slice());
                        assert(crate::config::slot_pairs(converted@) == custom_slots(g));
                        match validate_slots(converted.as_slice()) {
                            Err(e) => {
                                return Err(ActivationError::Slots(e));
                            },
                            Ok(()) => {},
                        }
                        config.slots = converted;
                    } else {
                        assert(crate::interactive::slots_view(slots@) =~= Seq::<(u8, Seq<char>)>::empty());
                        assert(custom_slots(g) =~= Seq::<(u8, Seq<char>)>::empty());
                        assert(crate::config::slot_pairs(config.slots@) =~= Seq::<(u8, Seq<char>)>::empty());
                    }
                    Ok(config)
                },
            }
        },
    }
}

/// The profile in effect at `hour`: the default one, or the normalized profile of the
/// slot in effect in a valid schedule.
pub open spec fn activation_name_ok(c: CollectionConfig, hour: u32, name: Seq<char>) -> bool {
    match c.strategy {
        Strategy::Schedule => exists|s: ScheduleSlot|
            is_selected_slot(c.slots@, hour as int, s) && profile_name_spec(s.profile@) == Ok::<
                Seq<char>,
                ProfileNameFault,
            >(name),
        _ => c.default_profile matches Some(p) && p@ == name,
    }
}

/// The profile to apply when a collection is activated or dispatched at `hour` (0 to
/// 23). A schedule must be valid and the chosen slot's profile name must normalize.
pub fn profile_name_for_activation(config: &CollectionConfig, hour: u32) -> (r: Result<String, ActivationError>)
    ensures
        r matches Ok(n) ==> activation_name_ok(*config, hour, n@),
        config.strategy != Strategy::Schedule ==> (r is Ok <==> config.default_profile is Some),
        config.strategy != Strategy::Schedule && config.default_profile is None ==> (r matches Err(e)
            && e@ == ActivationFault::Config(ConfigFault::NoDefaultProfile(config.name@))),
        config.strategy == Strategy::Schedule && slots_check(config.slots@) is Some ==> (r matches Err(e)
            && e@ == ActivationFault::Slots(slots_check(config.slots@)->0)),
        config.strategy == Strategy::Schedule && slots_check(config.slots@) is None && hour > 23 ==> (
        r matches Err(e) && e@ == ActivationFault::Schedule(ScheduleFault::HourOutOfRange(hour))),
        config.strategy == Strategy::Schedule && slots_check(config.slots@) is None && hour <= 23 ==> r is Ok,
{
    match config.strategy {
        Strategy::Schedule => {
            match validate_slots(config.slots.as_slice()) {
                Err(e) => {
                    return Err(ActivationError::Slots(e));
                },
                Ok(()) => {},
            }
            let slot = match select_slot(config.slots.as_slice(), hour) {
                Ok(s) => s,
                Err(e) => {
                    return Err(ActivationError::Schedule(e));
                },
            };
            proof {
                crate::config::lemma_slots_check_valid(config.slots@);
                let i = choose|i: int| 0 <= i < config.slots@.len() && config.slots@[i] == *slot;
                assert(profile_name_spec(config.slots@[i].profile@) is Ok);
            }
            match normalize_profile_name(slot.profile.as_str()) {
                Ok(n) => Ok(n),
                Err(e) => Err(ActivationError::ProfileName(e)),
            }
        },
        _ => {
            match config.default_profile_name() {
                Ok(p) => Ok(crate::config::string_of_str(p)),
                Err(e) => Err(ActivationError::Config(e)),
            }
        },
    }
}

/// How the profile of a `capture` is chosen.
pub enum CaptureProfile {
    /// This profile.
    Named(String),
    /// The user picks one of the schedule's profiles.
    Ask,
}

/// The profile a `capture` writes: the one given, normalized; otherwise the default
/// profile, or for a schedule, the user's pick.
pub fn profile_name_for_capture(config: &CollectionConfig, provided: Option<&str>) -> (r: Result<
    CaptureProfile,
    ActivationError,
>)
    ensures
        match provided {
            Some(p) => match profile_name_spec(p@) {
                Ok(n) => r matches Ok(CaptureProfile::Named(s)) && s@ == n,
                Err(f) => r matches Err(e) && e@ == ActivationFault::ProfileName(f),
            },
            None => match config.strategy {
                Strategy::Schedule => r matches Ok(CaptureProfile::Ask),
                _ => match config.default_profile {
                    Some(d) => r matches Ok(CaptureProfile::Named(s)) && s@ == d@,
                    None => r matches Err(e) && e@ == ActivationFault::Config(
                        ConfigFault::NoDefaultProfile(config.name@),
                    ),
                },
            },
        },
{
    match provided {
        Some(p) => match normalize_profile_name(p) {
            Ok(n) => Ok(CaptureProfile::Named(n)),
            Err(e) => Err(ActivationError::ProfileName(e)),
        },
        None => match config.strategy {
            Strategy::Schedule => Ok(CaptureProfile::Ask),
            _ => match config.default_profile_name() {
                Ok(d) => Ok(CaptureProfile::Named(crate::config::string_of_str(d))),
                Err(e) => Err(ActivationError::Config(e)),
            },
        },
    }
}

/// The profile an `apply` uses: the one given, normalized; otherwise the one in
/// effect at `hour` (see [`profile_name_for_activation`]).
pub fn profile_name_for_apply(config: &CollectionConfig, provided: Option<&str>, hour: u32) -> (r: Result<
    String,
    ActivationError,
>)
    ensures
        match provided {
            Some(p) => match profile_name_spec(p@) {
                Ok(n) => r matches Ok(s) && s@ == n,
                Err(f) => r matches Err(e) && e@ == ActivationFault::ProfileName(f),
            },
            None => r matches Ok(n) ==> activation_name_ok(*config, hour, n@),
        },
        provided is None && config.strategy != Strategy::Schedule ==> (r is Ok
            <==> config.default_profile is Some),
        provided is None && config.strategy == Strategy::Schedule ==> (r is Ok <==> (slots_check(
            config.slots@,
        ) is None && hour <= 23)),
{
    match provided {
        Some(p) => match normalize_profile_name(p) {
            Ok(n) => Ok(n),
            Err(e) => Err(ActivationError::ProfileName(e)),
        },
        None => profile_name_for_activation(config, hour),
    }
}

/// `dispatch` needs an active collection, and it must be scheduled.
pub fn dispatch_check(active: Option<&str>, strategy_of_active: Option<Strategy>, name: &str) -> (r: Result<
    (),
    ActivationError,
>)
    ensures
        match active {
            None => r matches Err(e) && e@ == ActivationFault::NoActiveCollection,
            Some(_) => match strategy_of_active {
                Some(Strategy::Schedule) => r is Ok,
                _ => r matches Err(e) && e@ == ActivationFault::NotScheduled(name@),
            },
        },
{
    match active {
        None => Err(ActivationError::NoActiveCollection),
        Some(_) => match strategy_of_active {
            Some(Strategy::Schedule) => Ok(()),
            _ => Err(ActivationError::NotScheduled { name: crate::config::string_of_str(name) }),
        },
    }
}

/// The profile in effect now: the default one, or the one of the slot in effect at the
/// clock's current hour (see [`profile_name_for_activation`]). Whatever hour the clock
/// gives, a valid schedule yields a profile.
pub fn current_profile_name(config: &CollectionConfig, clock: &crate::clock::SystemClock) -> (r: Result<
    String,
    ActivationError,
>)
    ensures
        r matches Ok(n) ==> exists|h: u32| h <= 23 && activation_name_ok(*config, h, n@),
        config.strategy != Strategy::Schedule ==> (r is Ok <==> config.default_profile is Some),
        config.strategy == Strategy::Schedule ==> (r is Ok <==> slots_check(config.slots@) is None),
{
    let hour = clock.current_hour();
    let r = profile_name_for_activation(config, hour);
    proof {
        if r is Ok {
            assert(hour <= 23 && activation_name_ok(*config, hour, r->Ok_0@));
        }
    }
    r
}

} // verus!
