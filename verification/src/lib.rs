//! A status-effect management layer: timed, identity-keyed effects applied to
//! target entities, with pluggable collision resolution when the same effect
//! is applied twice.
//!
//! The crate models the effect store as plain data: effect instances live in
//! an [`EffectWorld`](world::EffectWorld), which tracks for every target the
//! set of effect instances acting on it, resolves collisions according to an
//! [`EffectMode`], merges timers by their
//! [`TimerMergeMode`](timer::TimerMergeMode) arithmetic, and combines payload
//! components through an extensible merge registry.

pub mod assoc;
pub mod bundle;
pub mod laws;
pub mod merge;
pub mod registry;
pub mod stack;
pub mod timer;
pub mod world;

use vstd::prelude::*;

verus! {

/// Describes the logic used when multiple of the same effect are applied to
/// an entity.
///
/// Two effect instances collide only if their target, identity name and mode
/// are all equal; the mode then decides what happens to the existing one.
#[derive(Copy, Clone, PartialEq, Eq, Structural, Debug)]
pub enum EffectMode {
    /// Multiple of the same effect can exist at once: every application
    /// spawns a fresh, independent effect instance.
    Stack,
    /// At most one instance per (target, identity): a new application
    /// entirely overwrites the payload of the matching instance, leaving no
    /// trace of the old one. Timers are not combined; a timer provided by
    /// the new application replaces the old one, and an absent one leaves
    /// the old timer in place.
    Replace,
    /// At most one instance per (target, identity): payload components
    /// combine through the merge registry (components without a registered
    /// merge operation are overwritten, as in `Replace`), and timers combine
    /// by their own merge arithmetic.
    Merge,
}

} // verus!
