//! End-to-end tests of the application engine: collision resolution per
//! mode, registry-driven payload merging, timer merging through the world,
//! per-frame maintenance, and the relationship records.

use bevy_alchemy::bundle::EffectBundle;
use bevy_alchemy::registry::{MergeOp, EFFECT_STACKS_KIND};
use bevy_alchemy::timer::{Delay, Lifetime, Timer, TimerMergeMode};
use bevy_alchemy::world::EffectWorld;
use bevy_alchemy::EffectMode;

const DAMAGE: u64 = 100;

fn poison(stacks: u64, damage: u64) -> EffectBundle {
    EffectBundle::new(String::from("poison"), EffectMode::Merge)
        .with_component(EFFECT_STACKS_KIND, stacks)
        .with_component(DAMAGE, damage)
}

#[test]
fn stack_applications_accumulate() {
    let mut world = EffectWorld::new();
    let target = world.spawn_target();
    for _ in 0..4 {
        world.queue_effect(target, EffectBundle::new(String::from("burn"), EffectMode::Stack));
    }
    world.flush();
    assert_eq!(world.effects_of(target).len(), 4);

    // each instance is individually destructible
    let ids = world.effects_of(target);
    assert!(world.despawn_effect(ids[1]));
    assert_eq!(world.effects_of(target).len(), 3);
    assert!(world.get_effect(ids[1]).is_none());
    assert!(world.get_effect(ids[0]).is_some());
    // a second despawn of the same id finds nothing
    assert!(!world.despawn_effect(ids[1]));
}

#[test]
fn replace_keeps_one_instance() {
    let mut world = EffectWorld::new();
    let target = world.spawn_target();
    world.queue_effect(
        target,
        EffectBundle::new(String::from("slow"), EffectMode::Replace).with_component(DAMAGE, 2),
    );
    world.queue_effect(
        target,
        EffectBundle::new(String::from("slow"), EffectMode::Replace).with_component(DAMAGE, 9),
    );
    world.flush();

    let ids = world.effects_of(target);
    assert_eq!(ids.len(), 1);
    let instance = world.get_effect(ids[0]).unwrap();
    assert_eq!(instance.payload_value(DAMAGE), Some(9));
    assert_eq!(instance.name, "slow");
    assert_eq!(instance.mode, EffectMode::Replace);
    assert_eq!(instance.target, target);
}

#[test]
fn replace_does_not_combine_timers() {
    let mut world = EffectWorld::new();
    world.init_registry();
    let target = world.spawn_target();
    world.apply_effect(
        target,
        EffectBundle::new(String::from("slow"), EffectMode::Replace)
            .with_lifetime(Lifetime::from_millis(1000).with_mode(TimerMergeMode::Sum)),
    );
    world.apply_effect(
        target,
        EffectBundle::new(String::from("slow"), EffectMode::Replace)
            .with_lifetime(Lifetime::from_millis(3000).with_mode(TimerMergeMode::Sum)),
    );
    let ids = world.effects_of(target);
    assert_eq!(ids.len(), 1);
    let lifetime = world.get_effect(ids[0]).unwrap().lifetime.unwrap();
    // Sum would have given 4000; Replace overwrites instead
    assert_eq!(lifetime.timer.duration_ms, 3000);
}

#[test]
fn replace_keeps_old_timer_when_absent() {
    let mut world = EffectWorld::new();
    let target = world.spawn_target();
    world.apply_effect(
        target,
        EffectBundle::new(String::from("slow"), EffectMode::Replace)
            .with_lifetime(Lifetime::from_millis(1500)),
    );
    world.apply_effect(target, EffectBundle::new(String::from("slow"), EffectMode::Replace));
    let ids = world.effects_of(target);
    let lifetime = world.get_effect(ids[0]).unwrap().lifetime.unwrap();
    assert_eq!(lifetime.timer.duration_ms, 1500);
}

#[test]
fn different_identities_do_not_collide() {
    let mut world = EffectWorld::new();
    let target = world.spawn_target();
    world.apply_effect(target, EffectBundle::new(String::from("haste"), EffectMode::Replace));
    world.apply_effect(target, EffectBundle::new(String::from("slow"), EffectMode::Replace));
    assert_eq!(world.effects_of(target).len(), 2);

    let other = world.spawn_target();
    world.apply_effect(other, EffectBundle::new(String::from("slow"), EffectMode::Replace));
    assert_eq!(world.effects_of(target).len(), 2);
    assert_eq!(world.effects_of(other).len(), 1);
}

#[test]
fn poison_stacks_three_times() {
    let mut world = EffectWorld::new();
    world.init_registry();
    let target = world.spawn_target();
    for _ in 0..3 {
        world.queue_effect(target, poison(1, 5));
    }
    world.flush();

    let ids = world.effects_of(target);
    assert_eq!(ids.len(), 1);
    let instance = world.get_effect(ids[0]).unwrap();
    let stacks = instance.payload_value(EFFECT_STACKS_KIND).unwrap();
    assert_eq!(stacks, 3);

    // game logic computes a triangular damage falloff per stack
    let base = instance.payload_value(DAMAGE).unwrap();
    let damage = base * stacks - stacks * (stacks - 1) / 2;
    assert_eq!(damage, 12);
}

#[test]
fn merge_unregistered_kind_takes_new_value() {
    let mut world = EffectWorld::new();
    world.init_registry();
    let target = world.spawn_target();
    world.apply_effect(target, poison(1, 5));
    world.apply_effect(target, poison(1, 8));
    let ids = world.effects_of(target);
    let instance = world.get_effect(ids[0]).unwrap();
    // DAMAGE has no registered merge operation: the new value wins
    assert_eq!(instance.payload_value(DAMAGE), Some(8));
    // the stack counter is registered: it combined
    assert_eq!(instance.payload_value(EFFECT_STACKS_KIND), Some(2));
}

#[test]
fn merge_with_custom_operation() {
    const ARMOR: u64 = 101;
    let mut world = EffectWorld::new();
    world.init_registry();
    world.register_merge_op(ARMOR, MergeOp::Max);
    let target = world.spawn_target();
    world.apply_effect(
        target,
        EffectBundle::new(String::from("shield"), EffectMode::Merge).with_component(ARMOR, 40),
    );
    world.apply_effect(
        target,
        EffectBundle::new(String::from("shield"), EffectMode::Merge).with_component(ARMOR, 25),
    );
    let ids = world.effects_of(target);
    assert_eq!(ids.len(), 1);
    // Max keeps the larger of the two values, not simply the newest
    assert_eq!(world.get_effect(ids[0]).unwrap().payload_value(ARMOR), Some(40));
}

#[test]
fn merge_without_registry_degrades_to_overwrite() {
    const EXTRA: u64 = 102;
    let mut world = EffectWorld::new();
    // no init_registry: merging is best-effort, never fatal
    let target = world.spawn_target();
    world.apply_effect(target, poison(1, 5).with_component(EXTRA, 4));
    world.apply_effect(target, poison(1, 8));
    let ids = world.effects_of(target);
    assert_eq!(ids.len(), 1);
    let instance = world.get_effect(ids[0]).unwrap();
    assert_eq!(instance.payload_value(EFFECT_STACKS_KIND), Some(1));
    assert_eq!(instance.payload_value(DAMAGE), Some(8));
    // plain overwrite: the kind only the first application carried is gone
    assert_eq!(instance.payload_value(EXTRA), None);
}

#[test]
fn replace_drops_stale_kinds() {
    const EXTRA: u64 = 102;
    let mut world = EffectWorld::new();
    let target = world.spawn_target();
    world.apply_effect(
        target,
        EffectBundle::new(String::from("slow"), EffectMode::Replace)
            .with_component(DAMAGE, 5)
            .with_component(EXTRA, 4),
    );
    world.apply_effect(
        target,
        EffectBundle::new(String::from("slow"), EffectMode::Replace).with_component(DAMAGE, 9),
    );
    let ids = world.effects_of(target);
    assert_eq!(ids.len(), 1);
    let instance = world.get_effect(ids[0]).unwrap();
    // the payload is the second bundle's exactly: no trace of the first
    assert_eq!(instance.payload_value(DAMAGE), Some(9));
    assert_eq!(instance.payload_value(EXTRA), None);
    assert_eq!(instance.payload.len(), 1);
}

#[test]
fn init_registry_is_monotonic() {
    const ARMOR: u64 = 101;
    let mut world = EffectWorld::new();
    world.register_merge_op(ARMOR, MergeOp::Max);
    // a second initialization must not reset the configured table
    world.init_registry();
    assert!(world.registry_configured());
    let target = world.spawn_target();
    world.apply_effect(
        target,
        EffectBundle::new(String::from("shield"), EffectMode::Merge).with_component(ARMOR, 40),
    );
    world.apply_effect(
        target,
        EffectBundle::new(String::from("shield"), EffectMode::Merge).with_component(ARMOR, 25),
    );
    let ids = world.effects_of(target);
    // Max still governs: the custom registration survived init_registry
    assert_eq!(world.get_effect(ids[0]).unwrap().payload_value(ARMOR), Some(40));
}

#[test]
fn bundle_well_formedness_is_decidable() {
    let good = poison(1, 5).with_lifetime(Lifetime::from_millis(100));
    assert!(good.is_wf());

    let duplicated = EffectBundle {
        name: String::from("poison"),
        mode: EffectMode::Merge,
        lifetime: None,
        delay: None,
        payload: vec![(DAMAGE, 1), (DAMAGE, 2)],
    };
    assert!(!duplicated.is_wf());

    let broken_timer = EffectBundle {
        name: String::from("poison"),
        mode: EffectMode::Merge,
        lifetime: Some(Lifetime {
            timer: Timer { elapsed_ms: 5, duration_ms: 2, repeating: false },
            mode: TimerMergeMode::Max,
        }),
        delay: None,
        payload: Vec::new(),
    };
    assert!(!broken_timer.is_wf());
}

#[test]
fn merge_combines_timers() {
    let mut world = EffectWorld::new();
    world.init_registry();
    let target = world.spawn_target();
    world.apply_effect(
        target,
        EffectBundle::new(String::from("poison"), EffectMode::Merge)
            .with_lifetime(Lifetime::from_millis(1000).with_mode(TimerMergeMode::Sum))
            .with_delay(Delay::from_millis(400)),
    );
    world.apply_effect(
        target,
        EffectBundle::new(String::from("poison"), EffectMode::Merge)
            .with_lifetime(Lifetime::from_millis(3000).with_mode(TimerMergeMode::Sum)),
    );
    let ids = world.effects_of(target);
    assert_eq!(ids.len(), 1);
    let instance = world.get_effect(ids[0]).unwrap();
    // Sum-mode lifetimes added their durations
    assert_eq!(instance.lifetime.unwrap().timer.duration_ms, 4000);
    // the delay was only on the first application and survives untouched
    assert_eq!(instance.delay.unwrap().timer.duration_ms, 400);
}

#[test]
fn lifetime_expiry_despawns() {
    let mut world = EffectWorld::new();
    let target = world.spawn_target();
    world.apply_effect(
        target,
        EffectBundle::new(String::from("burn"), EffectMode::Stack)
            .with_lifetime(Lifetime::from_millis(2000)),
    );
    world.apply_effect(target, EffectBundle::new(String::from("aura"), EffectMode::Stack));
    let ids = world.effects_of(target);
    assert_eq!(ids.len(), 2);

    // two simulated one-second frames
    world.despawn_finished_lifetimes(1000);
    assert_eq!(world.effects_of(target).len(), 2);
    world.despawn_finished_lifetimes(1000);

    // the timed effect is gone from the store and from the relation record
    let remaining = world.effects_of(target);
    assert_eq!(remaining.len(), 1);
    assert!(world.get_effect(ids[0]).is_none());
    assert!(!remaining.contains(&ids[0]));
    // the untimed effect never expires
    assert!(world.get_effect(ids[1]).is_some());
}

#[test]
fn tick_delay_advances_delays_only() {
    let mut world = EffectWorld::new();
    let target = world.spawn_target();
    world.apply_effect(
        target,
        EffectBundle::new(String::from("poison"), EffectMode::Stack)
            .with_lifetime(Lifetime::from_millis(5000))
            .with_delay(Delay::from_millis(300)),
    );
    world.tick_delay(450);
    let ids = world.effects_of(target);
    let instance = world.get_effect(ids[0]).unwrap();
    // the repeating delay wrapped around
    assert_eq!(instance.delay.unwrap().timer.elapsed_ms, 150);
    // the lifetime is untouched by the delay step
    assert_eq!(instance.lifetime.unwrap().timer.elapsed_ms, 0);
}

#[test]
fn relation_records_mirror_back_references() {
    let mut world = EffectWorld::new();
    world.init_registry();
    let a = world.spawn_target();
    let b = world.spawn_target();
    world.apply_effect(a, poison(1, 5));
    world.apply_effect(b, poison(1, 5));
    world.apply_effect(a, EffectBundle::new(String::from("burn"), EffectMode::Stack));
    world.despawn_finished_lifetimes(16);

    // every listed id points back at its target...
    for target in [a, b] {
        for id in world.effects_of(target) {
            assert_eq!(world.get_effect(id).unwrap().target, target);
        }
    }
    // ...and every live instance is listed with its target
    for instance in &world.effects {
        assert!(world.effects_of(instance.target).contains(&instance.id));
    }
    assert_eq!(world.effects_of(a).len(), 2);
    assert_eq!(world.effects_of(b).len(), 1);
}

#[test]
fn queue_is_drained_in_order() {
    let mut world = EffectWorld::new();
    let target = world.spawn_target();
    world.queue_effect(
        target,
        EffectBundle::new(String::from("slow"), EffectMode::Replace).with_component(DAMAGE, 1),
    );
    world.queue_effect(
        target,
        EffectBundle::new(String::from("slow"), EffectMode::Replace).with_component(DAMAGE, 2),
    );
    world.queue_effect(
        target,
        EffectBundle::new(String::from("slow"), EffectMode::Replace).with_component(DAMAGE, 3),
    );
    world.flush();
    let ids = world.effects_of(target);
    assert_eq!(ids.len(), 1);
    assert_eq!(world.get_effect(ids[0]).unwrap().payload_value(DAMAGE), Some(3));
}

#[test]
fn effects_of_unknown_target_is_empty() {
    let mut world = EffectWorld::new();
    let target = world.spawn_target();
    assert!(world.effects_of(target).is_empty());
    assert!(world.get_effect(12345).is_none());
    assert!(!world.despawn_effect(12345));
}
