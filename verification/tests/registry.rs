//! Tests of the merge registry and its combination operations, and of the
//! built-in stack counter.

use bevy_alchemy::registry::{combine, EffectMergeRegistry, MergeOp, EFFECT_STACKS_KIND};
use bevy_alchemy::stack::{merge_effect_stacks, EffectStacks};

#[test]
fn register_and_lookup() {
    let mut registry = EffectMergeRegistry::new();
    assert_eq!(registry.lookup(3), None);
    registry.register(3, MergeOp::Min);
    registry.register(4, MergeOp::Max);
    assert_eq!(registry.lookup(3), Some(MergeOp::Min));
    assert_eq!(registry.lookup(4), Some(MergeOp::Max));
    assert_eq!(registry.lookup(5), None);
}

#[test]
fn last_registration_wins() {
    let mut registry = EffectMergeRegistry::new();
    registry.register(3, MergeOp::Min);
    registry.register(3, MergeOp::SaturatingAdd);
    assert_eq!(registry.lookup(3), Some(MergeOp::SaturatingAdd));
}

#[test]
fn defaults_register_stack_counter() {
    let registry = EffectMergeRegistry::with_defaults();
    assert_eq!(registry.lookup(EFFECT_STACKS_KIND), Some(MergeOp::SaturatingAdd));
}

#[test]
fn combine_operations() {
    assert_eq!(combine(MergeOp::KeepNew, 7, 3), 7);
    assert_eq!(combine(MergeOp::KeepOld, 7, 3), 3);
    assert_eq!(combine(MergeOp::SaturatingAdd, 7, 3), 10);
    assert_eq!(combine(MergeOp::SaturatingAdd, u64::MAX - 1, 5), u64::MAX);
    assert_eq!(combine(MergeOp::Max, 7, 3), 7);
    assert_eq!(combine(MergeOp::Max, 3, 7), 7);
    assert_eq!(combine(MergeOp::Min, 7, 3), 3);
    assert_eq!(combine(MergeOp::Min, 3, 7), 3);
}

#[test]
fn stacks_start_at_one_and_add() {
    let mut stacks = EffectStacks::default();
    assert_eq!(stacks.0, 1);
    let outgoing = EffectStacks(2);
    merge_effect_stacks(&mut stacks, &outgoing);
    assert_eq!(stacks.0, 3);
    assert_eq!(stacks.as_value(), 3);
}

#[test]
fn stacks_saturate() {
    let mut stacks = EffectStacks(250);
    stacks.add_stacks(10);
    assert_eq!(stacks.0, u8::MAX);
}
