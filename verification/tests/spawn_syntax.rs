//! Tests the behaviour of queued effect applications per collision mode.

use bevy_alchemy::bundle::EffectBundle;
use bevy_alchemy::world::EffectWorld;
use bevy_alchemy::EffectMode;

const MY_EFFECT: u64 = 7;

fn my_effect_values(world: &EffectWorld, target: u64) -> Vec<u64> {
    let mut values = Vec::new();
    for id in world.effects_of(target) {
        if let Some(instance) = world.get_effect(id) {
            if let Some(v) = instance.payload_value(MY_EFFECT) {
                values.push(v);
            }
        }
    }
    values
}

#[test]
fn spawnable_list_stack() {
    let mut world = EffectWorld::new();
    let target = world.spawn_target();

    world.queue_effect(
        target,
        EffectBundle::new(String::from("Target"), EffectMode::Stack).with_component(MY_EFFECT, 0),
    );
    world.queue_effect(
        target,
        EffectBundle::new(String::from("Target"), EffectMode::Stack).with_component(MY_EFFECT, 1),
    );
    world.flush();

    let effects = my_effect_values(&world, target);

    assert!(effects.contains(&0));
    assert!(effects.contains(&1));
}

#[test]
fn spawnable_list_replace() {
    let mut world = EffectWorld::new();
    let target = world.spawn_target();

    world.queue_effect(
        target,
        EffectBundle::new(String::from("Target"), EffectMode::Replace).with_component(MY_EFFECT, 0),
    );
    world.queue_effect(
        target,
        EffectBundle::new(String::from("Target"), EffectMode::Replace).with_component(MY_EFFECT, 1),
    );
    world.flush();

    let effects = my_effect_values(&world, target);

    assert!(!effects.contains(&0));
    assert!(effects.contains(&1));
}

#[test]
fn spawnable_list_mixed() {
    let mut world = EffectWorld::new();
    let target = world.spawn_target();

    world.queue_effect(
        target,
        EffectBundle::new(String::from("Target"), EffectMode::Stack).with_component(MY_EFFECT, 0),
    );
    world.queue_effect(
        target,
        EffectBundle::new(String::from("Target"), EffectMode::Stack).with_component(MY_EFFECT, 1),
    );
    world.queue_effect(
        target,
        EffectBundle::new(String::from("Target"), EffectMode::Replace).with_component(MY_EFFECT, 2),
    );
    world.queue_effect(
        target,
        EffectBundle::new(String::from("Target"), EffectMode::Replace).with_component(MY_EFFECT, 3),
    );
    world.flush();

    let effects = my_effect_values(&world, target);

    assert!(effects.contains(&0));
    assert!(effects.contains(&1));
    assert!(!effects.contains(&2));
    assert!(effects.contains(&3));
}
