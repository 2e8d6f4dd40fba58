//! The merge registry: an extensible table mapping a payload-component kind
//! to the operation used to combine an outgoing component into the surviving
//! one during a `Merge`-mode collision.
//!
//! Payload components are identified by a stable `u64` kind chosen by game
//! logic, and carry a `u64` value. Kinds without a registered operation are
//! not combined: the incoming value silently wins, exactly as in `Replace`
//! mode.

use crate::assoc::{assoc_get, assoc_lookup, assoc_set, assoc_unique};
use vstd::prelude::*;

verus! {

/// The payload kind of the built-in stack counter, pre-registered with
/// [`MergeOp::SaturatingAdd`] by [`EffectMergeRegistry::with_defaults`].
pub const EFFECT_STACKS_KIND: u64 = 0;

/// A combination rule for one payload-component kind, applied as
/// `combine(op, surviving, outgoing)` when two effects merge.
///
/// The rules form a fixed algebra: a game picks one operation per kind it
/// registers. Combination logic outside this set would need a new variant
/// here, with its meaning added to [`combined_value`].
#[derive(Copy, Clone, PartialEq, Eq, Structural, Debug)]
pub enum MergeOp {
    /// The surviving (incoming) value stays; the outgoing one is dropped.
    /// Registering this is the same as not registering the kind at all.
    KeepNew,
    /// The outgoing (previous) value wins.
    KeepOld,
    /// The two values are added, saturating at the largest representable
    /// value. Used by the built-in stack counter.
    SaturatingAdd,
    /// The larger of the two values wins.
    Max,
    /// The smaller of the two values wins.
    Min,
}

/// The value a merge operation produces from the surviving effect's current
/// value and the outgoing effect's previous value.
pub open spec fn combined_value(op: MergeOp, current: u64, previous: u64) -> u64 {
    match op {
        MergeOp::KeepNew => current,
        MergeOp::KeepOld => previous,
        MergeOp::SaturatingAdd => if current + previous > u64::MAX {
            u64::MAX
        } else {
            (current + previous) as u64
        },
        MergeOp::Max => if previous > current {
            previous
        } else {
            current
        },
        MergeOp::Min => if previous < current {
            previous
        } else {
            current
        },
    }
}

/// Applies a merge operation to the surviving value and the outgoing value.
pub fn combine(op: MergeOp, current: u64, previous: u64) -> (r: u64)
    ensures
        r == combined_value(op, current, previous),
{
    match op {
        MergeOp::KeepNew => current,
        MergeOp::KeepOld => previous,
        MergeOp::SaturatingAdd => current.saturating_add(previous),
        MergeOp::Max => if previous > current {
            previous
        } else {
            current
        },
        MergeOp::Min => if previous < current {
            previous
        } else {
            current
        },
    }
}

/// Maps payload-component kinds to their merge operations. Registrations are
/// monotonic for the life of the registry: kinds are added or re-bound,
/// never removed.
#[derive(Debug)]
pub struct EffectMergeRegistry {
    /// The registered (kind, operation) bindings, one per kind.
    pub entries: Vec<(u64, MergeOp)>,
}

impl EffectMergeRegistry {
    /// Each kind is registered at most once.
    pub open spec fn wf(self) -> bool {
        assoc_unique(self.entries@)
    }

    /// The operation registered for `kind`, if any.
    pub open spec fn op_for(self, kind: u64) -> Option<MergeOp> {
        assoc_lookup(self.entries@, kind)
    }

    /// An empty registry, with no kind registered.
    pub fn new() -> (r: EffectMergeRegistry)
        ensures
            r.wf(),
            forall|kind: u64| #[trigger] r.op_for(kind) == None::<MergeOp>,
    {
        let r = EffectMergeRegistry { entries: Vec::new() };
        proof {
            assert forall|kind: u64| #[trigger] r.op_for(kind) == None::<MergeOp> by {
                crate::assoc::lemma_assoc_lookup_none(r.entries@, kind);
            }
        }
        r
    }

    /// The registry the engine starts with: the built-in stack counter kind
    /// combines by saturating addition.
    pub fn with_defaults() -> (r: EffectMergeRegistry)
        ensures
            r.wf(),
            forall|kind: u64| #[trigger] r.op_for(kind) == (if kind == EFFECT_STACKS_KIND {
                Some(MergeOp::SaturatingAdd)
            } else {
                None::<MergeOp>
            }),
    {
        let mut r = EffectMergeRegistry::new();
        r.register(EFFECT_STACKS_KIND, MergeOp::SaturatingAdd);
        r
    }

    /// Binds `kind` to `op`. Re-registering a kind is not an error: the last
    /// registration wins.
    pub fn register(&mut self, kind: u64, op: MergeOp)
        requires
            old(self).wf(),
        ensures
            final(self).wf(),
            forall|k: u64| #[trigger] final(self).op_for(k) == (if k == kind {
                Some(op)
            } else {
                old(self).op_for(k)
            }),
    {
        assoc_set(&mut self.entries, kind, op);
    }

    /// Looks up the operation registered for `kind`.
    pub fn lookup(&self, kind: u64) -> (r: Option<MergeOp>)
        requires
            self.wf(),
        ensures
            r == self.op_for(kind),
    {
        assoc_get(&self.entries, kind)
    }
}

} // verus!
