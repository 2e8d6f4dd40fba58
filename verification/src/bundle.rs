//! The data carried by an effect application and by a live effect instance.
//!
//! An effect bundle is what game logic hands to the engine: an identity
//! name, a collision mode, optional lifetime and delay timers, and payload
//! components, each a `(kind, value)` pair with a stable `u64` kind chosen
//! by the game and a `u64` value.

use crate::assoc::{assoc_get, assoc_lookup, assoc_set, assoc_unique};
use crate::timer::{Delay, Lifetime};
use crate::EffectMode;
use vstd::prelude::*;

verus! {

/// True when an optional lifetime timer is well-formed.
pub open spec fn opt_lifetime_wf(o: Option<Lifetime>) -> bool {
    match o {
        Some(l) => l.wf(),
        None => true,
    }
}

/// True when an optional delay timer is well-formed.
pub open spec fn opt_delay_wf(o: Option<Delay>) -> bool {
    match o {
        Some(d) => d.wf(),
        None => true,
    }
}

/// A bundle of components and settings used when applying an effect to a
/// target.
pub struct EffectBundle {
    /// The identity of the effect. Effects with different names have no
    /// bearing on one another.
    pub name: String,
    /// Describes the logic used when this effect collides with an existing
    /// one of the same name on the same target.
    pub mode: EffectMode,
    /// The effect's remaining life; absence means it never auto-expires.
    pub lifetime: Option<Lifetime>,
    /// The repeating tick gate; absence means no periodic gating.
    pub delay: Option<Delay>,
    /// Payload components: one `(kind, value)` pair per kind.
    pub payload: Vec<(u64, u64)>,
}

impl EffectBundle {
    /// Payload kinds are unique and the timers are well-formed.
    pub open spec fn wf(self) -> bool {
        &&& assoc_unique(self.payload@)
        &&& opt_lifetime_wf(self.lifetime)
        &&& opt_delay_wf(self.delay)
    }

    /// Decides well-formedness at run time: an unverified caller (a host
    /// that builds bundles by hand) can establish `wf` with this before
    /// handing the bundle to the engine.
    pub fn is_wf(&self) -> (r: bool)
        ensures
            r == self.wf(),
    {
        let lifetime_ok = match self.lifetime {
            Some(l) => l.timer.elapsed_ms <= l.timer.duration_ms && !l.timer.repeating,
            None => true,
        };
        let delay_ok = match self.delay {
            Some(d) => d.timer.elapsed_ms <= d.timer.duration_ms && d.timer.repeating,
            None => true,
        };
        lifetime_ok && delay_ok && crate::assoc::assoc_keys_unique(&self.payload)
    }

    /// A bundle with the given identity and mode, no timers and an empty
    /// payload.
    pub fn new(name: String, mode: EffectMode) -> (r: EffectBundle)
        ensures
            r.name@ == name@,
            r.mode == mode,
            r.lifetime == None::<Lifetime>,
            r.delay == None::<Delay>,
            r.payload@ == Seq::<(u64, u64)>::empty(),
            r.wf(),
    {
        EffectBundle { name, mode, lifetime: None, delay: None, payload: Vec::new() }
    }

    /// Sets the lifetime timer, builder style.
    pub fn with_lifetime(self, lifetime: Lifetime) -> (r: EffectBundle)
        ensures
            r.name@ == self.name@,
            r.mode == self.mode,
            r.lifetime == Some(lifetime),
            r.delay == self.delay,
            r.payload@ == self.payload@,
    {
        EffectBundle { lifetime: Some(lifetime), ..self }
    }

    /// Sets the delay timer, builder style.
    pub fn with_delay(self, delay: Delay) -> (r: EffectBundle)
        ensures
            r.name@ == self.name@,
            r.mode == self.mode,
            r.lifetime == self.lifetime,
            r.delay == Some(delay),
            r.payload@ == self.payload@,
    {
        EffectBundle { delay: Some(delay), ..self }
    }

    /// Adds (or overwrites) one payload component, builder style.
    pub fn with_component(self, kind: u64, value: u64) -> (r: EffectBundle)
        requires
            assoc_unique(self.payload@),
        ensures
            r.name@ == self.name@,
            r.mode == self.mode,
            r.lifetime == self.lifetime,
            r.delay == self.delay,
            assoc_unique(r.payload@),
            forall|k: u64| #[trigger] assoc_lookup(r.payload@, k) == (if k == kind {
                Some(value)
            } else {
                assoc_lookup(self.payload@, k)
            }),
    {
        let mut r = self;
        assoc_set(&mut r.payload, kind, value);
        r
    }
}

/// One live status effect: an entity-like record owned by the effect world.
pub struct EffectInstance {
    /// This instance's own entity id.
    pub id: u64,
    /// Back-reference to the entity the effect acts upon.
    pub target: u64,
    /// The identity of the effect.
    pub name: String,
    /// The collision mode, fixed when the instance is created.
    pub mode: EffectMode,
    /// The effect's remaining life; absence means it never auto-expires.
    pub lifetime: Option<Lifetime>,
    /// The repeating tick gate; absence means no periodic gating.
    pub delay: Option<Delay>,
    /// Payload components: one `(kind, value)` pair per kind.
    pub payload: Vec<(u64, u64)>,
}

impl EffectInstance {
    /// Payload kinds are unique and the timers are well-formed.
    pub open spec fn wf(self) -> bool {
        &&& assoc_unique(self.payload@)
        &&& opt_lifetime_wf(self.lifetime)
        &&& opt_delay_wf(self.delay)
    }

    /// The value of the payload component of the given kind, if present.
    pub fn payload_value(&self, kind: u64) -> (r: Option<u64>)
        requires
            assoc_unique(self.payload@),
        ensures
            r == assoc_lookup(self.payload@, kind),
    {
        assoc_get(&self.payload, kind)
    }
}

/// The reverse relation stored per target: the ids of the effect instances
/// currently acting on that target.
pub struct EffectedBy {
    /// The target entity this record belongs to.
    pub target: u64,
    /// The ids of the effect instances whose back-reference is `target`.
    pub effect_ids: Vec<u64>,
}

/// A queued request to apply an effect to a target entity, drained in order
/// during the command-flush phase.
pub struct AddEffectCommand {
    /// The entity to apply the effect to.
    pub target: u64,
    /// The effect to apply.
    pub bundle: EffectBundle,
}

} // verus!
