//! The built-in stack counter payload component: counts how many times a
//! `Merge`-mode effect has been applied on top of itself.

use vstd::prelude::*;

verus! {

/// Tracks the number of stacks of a `Merge`-mode effect applied to an
/// entity. Starts at one and grows by the outgoing count on every merge,
/// saturating instead of wrapping.
#[derive(Copy, Clone, PartialEq, Eq, Structural, Debug)]
pub struct EffectStacks(pub u8);

impl EffectStacks {
    /// Adds `rhs` stacks, saturating at the largest representable count.
    pub fn add_stacks(&mut self, rhs: u8)
        ensures
            final(self).0 == (if old(self).0 + rhs > u8::MAX {
                u8::MAX
            } else {
                (old(self).0 + rhs) as u8
            }),
    {
        self.0 = self.0.saturating_add(rhs);
    }

    /// The counter as a payload-component value, for storing under
    /// [`EFFECT_STACKS_KIND`](crate::registry::EFFECT_STACKS_KIND).
    pub fn as_value(&self) -> (r: u64)
        ensures
            r == self.0,
    {
        self.0 as u64
    }
}

impl Default for EffectStacks {
    /// A freshly applied effect has one stack.
    fn default() -> (r: EffectStacks)
        ensures
            r.0 == 1,
    {
        EffectStacks(1)
    }
}

/// Merge logic for [`EffectStacks`]: the outgoing count is added onto the
/// surviving one, saturating.
pub fn merge_effect_stacks(surviving: &mut EffectStacks, outgoing: &EffectStacks)
    ensures
        final(surviving).0 == (if old(surviving).0 + outgoing.0 > u8::MAX {
            u8::MAX
        } else {
            (old(surviving).0 + outgoing.0) as u8
        }),
{
    surviving.add_stacks(outgoing.0);
}

} // verus!
