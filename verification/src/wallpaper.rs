//! Applying a profile to the live wallpaper: whether the live wallpaper already
//! matches, and what an apply did.
use vstd::prelude::*;

use crate::config::ApplyMode;
use crate::plist_tree::PlistValue;
use crate::profile::{fingerprint, fingerprint_spec, merge_for_apply, merge_spec, FingerprintError};

verus! {

/// What applying a profile did.
#[derive(Debug)]
pub enum ApplyOutcome {
    /// The live wallpaper was written.
    Applied { fingerprint: String, restored_asset: bool },
    /// The live wallpaper already matched.
    NoOp { fingerprint: String },
}

/// Whether applying is skipped: not forced, and the live wallpaper's fingerprint is the
/// selected one.
pub fn apply_outcome(force: bool, selected: String, live: Option<&str>, restored_asset: bool) -> (r: ApplyOutcome)
    ensures
        match r {
            ApplyOutcome::NoOp { fingerprint } => fingerprint@ == selected@ && !force && (live matches Some(l)
                && l@ == selected@),
            ApplyOutcome::Applied { fingerprint, restored_asset: restored } => fingerprint@ == selected@
                && restored == restored_asset && (force || !(live matches Some(l) && l@ == selected@)),
        },
{
    if !force {
        if let Some(l) = live {
            if crate::text::str_eq(l, selected.as_str()) {
                return ApplyOutcome::NoOp { fingerprint: selected };
            }
        }
    }
    ApplyOutcome::Applied { fingerprint: selected, restored_asset }
}

/// Whether the live wallpaper matches a profile in a mode: there is a live value and
/// both fingerprints are the same; fails when either cannot be fingerprinted.
pub fn live_matches_profile(profile: &PlistValue, live: Option<&PlistValue>, mode: ApplyMode) -> (r: Result<
    bool,
    FingerprintError,
>)
    ensures
        match live {
            None => r == Ok::<bool, FingerprintError>(false),
            Some(l) => match (fingerprint_spec(profile.tree(), mode), fingerprint_spec(l.tree(), mode)) {
                (Some(a), Some(b)) => r == Ok::<bool, FingerprintError>(a == b),
                _ => r is Err,
            },
        },
{
    let l = match live {
        None => {
            return Ok(false);
        },
        Some(l) => l,
    };
    let selected = fingerprint(profile, mode)?;
    let current = fingerprint(l, mode)?;
    Ok(crate::text::str_eq(selected.as_str(), current.as_str()))
}

/// Which fingerprint could not be computed while planning an apply.
#[derive(Clone, Copy, Debug, PartialEq, Eq, Structural)]
pub enum ApplyFault {
    /// The selected profile's.
    Profile,
    /// The live wallpaper's.
    Live,
}

/// The live value as a tree, where there is one.
pub open spec fn live_tree(live: Option<&PlistValue>) -> Option<crate::plist_tree::PlistTree> {
    match live {
        Some(l) => Some(l.tree()),
        None => None,
    }
}

/// What applying a profile in `mode` over the live value comes to: the outcome (see
/// [`apply_outcome`]) and, when it applies, the value to write (see [`merge_spec`]).
/// The live value is fingerprinted only when the apply is not forced.
pub fn plan_apply(
    profile: &PlistValue,
    live: Option<&PlistValue>,
    mode: ApplyMode,
    force: bool,
    restored_asset: bool,
) -> (r: Result<(ApplyOutcome, Option<PlistValue>), ApplyFault>)
    ensures
        match fingerprint_spec(profile.tree(), mode) {
            None => r == Err::<(ApplyOutcome, Option<PlistValue>), ApplyFault>(ApplyFault::Profile),
            Some(selected) => {
                let current = match live {
                    Some(l) if !force => Some(fingerprint_spec(l.tree(), mode)),
                    _ => None,
                };
                match current {
                    Some(None) => r == Err::<(ApplyOutcome, Option<PlistValue>), ApplyFault>(ApplyFault::Live),
                    _ => match r {
                        Ok((ApplyOutcome::NoOp { fingerprint }, next)) => {
                            &&& fingerprint@ == selected
                            &&& current == Some(Some(selected))
                            &&& next is None
                        },
                        Ok((ApplyOutcome::Applied { fingerprint, restored_asset: restored }, next)) => {
                            &&& fingerprint@ == selected
                            &&& restored == restored_asset
                            &&& current != Some(Some(selected))
                            &&& next matches Some(v) && v.tree() == merge_spec(profile.tree(), live_tree(live), mode)
                        },
                        Err(_) => false,
                    },
                }
            },
        },
{
    let selected = match fingerprint(profile, mode) {
        Ok(f) => f,
        Err(_) => {
            return Err(ApplyFault::Profile);
        },
    };
    let current = match live {
        Some(l) => if !force {
            match fingerprint(l, mode) {
                Ok(f) => Some(f),
                Err(_) => {
                    return Err(ApplyFault::Live);
                },
            }
        } else {
            None
        },
        None => None,
    };
    let outcome = match &current {
        Some(c) => apply_outcome(force, selected, Some(c.as_str()), restored_asset),
        None => apply_outcome(force, selected, None, restored_asset),
    };
    match outcome {
        ApplyOutcome::Applied { .. } => {
            let next = merge_for_apply(profile, live, mode);
            Ok((outcome, Some(next)))
        },
        ApplyOutcome::NoOp { .. } => Ok((outcome, None)),
    }
}

} // verus!
