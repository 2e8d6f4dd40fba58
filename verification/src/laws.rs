//! The crate-level laws of the application engine, stated over the
//! specification relations and proved once and for all: how `Stack`
//! applications accumulate, how `Replace` and `Merge` applications collapse
//! onto one instance, and that the relation records always mirror the
//! instances' back-references.

use crate::assoc::assoc_lookup;
use crate::bundle::EffectBundle;
use crate::merge::{merged_opt_delay, merged_opt_lifetime, merged_payload_value};
use crate::registry::{combined_value, EffectMergeRegistry};
use crate::world::{
    applies_to, eq_except_pending, find_match, flushes_to, inst_matches, is_merge_of, is_spawn_of,
    lemma_find_match_first, lemma_find_match_props, EffectWorld,
};
use crate::EffectMode;
use vstd::prelude::*;

verus! {

/// One application of a well-formed bundle to a well-formed world leaves
/// the world well-formed: the invariant survives every spawn and every
/// in-place rewrite.
pub proof fn lemma_applies_preserves_wf(
    pre: EffectWorld,
    target: u64,
    b: EffectBundle,
    post: EffectWorld,
)
    requires
        pre.store_wf(),
        b.wf(),
        applies_to(pre, target, b, post),
    ensures
        post.store_wf(),
{
    let m = if b.mode == EffectMode::Stack {
        None
    } else {
        find_match(pre.effects@, target, b.name@, b.mode)
    };
    match m {
        None => {
            assert(pre.next_id < u64::MAX) by {
                assert(post.next_id == pre.next_id + 1);
            }
            let prs = pre.effected_by@;
            if exists|i: int| 0 <= i < prs.len() && (#[trigger] prs[i]).target == target {
                let i = choose|i: int|
                    0 <= i < prs.len() && (#[trigger] prs[i]).target == target
                        && post.effected_by@[i].target == target
                        && post.effected_by@[i].effect_ids@ == prs[i].effect_ids@.push(pre.next_id)
                        && (forall|j: int| 0 <= j < prs.len() && j != i ==> post.effected_by@[j] == prs[j]);
                let ev = post.effected_by@[i];
                assert(post.effected_by@ =~= prs.update(i, ev));
                post.lemma_spawn_wf(pre, target, b, pre.next_id, Some(i), Some(ev));
            } else {
                post.lemma_spawn_wf(pre, target, b, pre.next_id, None, None);
            }
        },
        Some(i) => {
            lemma_find_match_props(pre.effects@, target, b.name@, b.mode);
            post.lemma_merge_wf(pre, i, target, b);
        },
    }
}

/// Every `Stack`-mode application creates exactly one fresh instance, so a
/// flush of `Stack` commands grows the store by exactly their number: no
/// collision resolution takes place.
pub proof fn lemma_stack_applications_accumulate(
    pre: EffectWorld,
    cmds: Seq<crate::bundle::AddEffectCommand>,
    post: EffectWorld,
)
    requires
        flushes_to(pre, cmds, post),
        forall|i: int|
            0 <= i < cmds.len() ==> (#[trigger] cmds[i]).bundle.mode == EffectMode::Stack,
    ensures
        post.effects@.len() == pre.effects@.len() + cmds.len(),
    decreases cmds.len(),
{
    if cmds.len() == 0 {
        assert(eq_except_pending(post, pre));
    } else {
        let m = choose|m: EffectWorld|
            #[trigger] applies_to(pre, cmds[0].target, cmds[0].bundle, m) && flushes_to(
                m,
                cmds.drop_first(),
                post,
            );
        assert(m.effects@.len() == pre.effects@.len() + 1);
        assert(forall|i: int|
            0 <= i < cmds.drop_first().len() ==> (#[trigger] cmds.drop_first()[i]).bundle.mode
                == EffectMode::Stack);
        lemma_stack_applications_accumulate(m, cmds.drop_first(), post);
    }
}

/// Two `Replace`-mode applications of the same identity to the same target,
/// starting from a world without that effect, leave exactly one matching
/// instance, whose payload equals the second application's bundle exactly —
/// no trace of the first survives — and whose timers are the second
/// bundle's where provided, the first's otherwise; timers are never
/// combined.
pub proof fn lemma_replace_collapses(
    w0: EffectWorld,
    target: u64,
    b1: EffectBundle,
    b2: EffectBundle,
    w1: EffectWorld,
    w2: EffectWorld,
)
    requires
        w0.store_wf(),
        b1.wf(),
        b2.wf(),
        b1.mode == EffectMode::Replace,
        b2.mode == EffectMode::Replace,
        b1.name@ == b2.name@,
        find_match(w0.effects@, target, b1.name@, EffectMode::Replace) is None,
        applies_to(w0, target, b1, w1),
        applies_to(w1, target, b2, w2),
    ensures
        w2.store_wf(),
        w2.effects@.len() == w0.effects@.len() + 1,
        inst_matches(w2.effects@[w0.effects@.len() as int], target, b2.name@, EffectMode::Replace),
        forall|j: int|
            0 <= j < w2.effects@.len() && j != w0.effects@.len() ==> !inst_matches(
                #[trigger] w2.effects@[j],
                target,
                b2.name@,
                EffectMode::Replace,
            ),
        w2.effects@[w0.effects@.len() as int].payload@ == b2.payload@,
        w2.effects@[w0.effects@.len() as int].lifetime == (if b2.lifetime is Some {
            b2.lifetime
        } else {
            b1.lifetime
        }),
        w2.effects@[w0.effects@.len() as int].delay == (if b2.delay is Some {
            b2.delay
        } else {
            b1.delay
        }),
{
    let n0 = w0.effects@.len() as int;
    lemma_applies_preserves_wf(w0, target, b1, w1);
    // the first application spawned the instance at the end
    assert(is_spawn_of(w1.effects@.last(), w0.next_id, target, b1));
    assert(w1.effects@[n0] == w1.effects@.last());
    lemma_find_match_props(w0.effects@, target, b1.name@, EffectMode::Replace);
    assert forall|j: int| 0 <= j < n0 implies !inst_matches(
        w1.effects@[j],
        target,
        b2.name@,
        EffectMode::Replace,
    ) by {
        assert(w1.effects@[j] == w0.effects@.subrange(0, n0)[j]);
        assert(w1.effects@[j] == w0.effects@[j]);
    }
    lemma_find_match_first(w1.effects@, target, b2.name@, EffectMode::Replace, n0);
    // the second application rewrote it in place
    assert(is_merge_of(w2.effects@[n0], w1.effects@[n0], b2, w1.registry));
    lemma_applies_preserves_wf(w1, target, b2, w2);
    assert forall|j: int|
        0 <= j < w2.effects@.len() && j != n0 implies !inst_matches(
        #[trigger] w2.effects@[j],
        target,
        b2.name@,
        EffectMode::Replace,
    ) by {
        assert(w2.effects@[j] == w1.effects@[j]);
        if j < n0 {
            assert(w1.effects@[j] == w0.effects@.subrange(0, n0)[j]);
        }
    }
}

/// Two `Merge`-mode applications of the same identity to the same target,
/// starting from a world without that effect and with a configured
/// registry, leave exactly one matching instance: payload kinds with a
/// registered operation reflect the combination of both applications'
/// values, kinds without one reflect only the second application's value,
/// and the timers combine by their merge arithmetic.
pub proof fn lemma_merge_combines(
    w0: EffectWorld,
    target: u64,
    b1: EffectBundle,
    b2: EffectBundle,
    w1: EffectWorld,
    w2: EffectWorld,
    r: EffectMergeRegistry,
)
    requires
        w0.store_wf(),
        b1.wf(),
        b2.wf(),
        b1.mode == EffectMode::Merge,
        b2.mode == EffectMode::Merge,
        b1.name@ == b2.name@,
        w0.registry == Some(r),
        find_match(w0.effects@, target, b1.name@, EffectMode::Merge) is None,
        applies_to(w0, target, b1, w1),
        applies_to(w1, target, b2, w2),
    ensures
        w2.store_wf(),
        w2.effects@.len() == w0.effects@.len() + 1,
        inst_matches(w2.effects@[w0.effects@.len() as int], target, b2.name@, EffectMode::Merge),
        forall|j: int|
            0 <= j < w2.effects@.len() && j != w0.effects@.len() ==> !inst_matches(
                #[trigger] w2.effects@[j],
                target,
                b2.name@,
                EffectMode::Merge,
            ),
        forall|k: u64|
            #[trigger] assoc_lookup(w2.effects@[w0.effects@.len() as int].payload@, k)
                == merged_payload_value(k, b1.payload@, b2.payload@, r),
        forall|k: u64|
            assoc_lookup(b1.payload@, k) is Some && assoc_lookup(b2.payload@, k) is Some
                && #[trigger] r.op_for(k) is Some ==> #[trigger] assoc_lookup(
                w2.effects@[w0.effects@.len() as int].payload@,
                k,
            ) == Some(
                combined_value(
                    r.op_for(k).unwrap(),
                    assoc_lookup(b2.payload@, k).unwrap(),
                    assoc_lookup(b1.payload@, k).unwrap(),
                ),
            ),
        forall|k: u64|
            #[trigger] assoc_lookup(b2.payload@, k) is Some && r.op_for(k) is None
                ==> assoc_lookup(w2.effects@[w0.effects@.len() as int].payload@, k)
                    == assoc_lookup(b2.payload@, k),
        w2.effects@[w0.effects@.len() as int].lifetime == merged_opt_lifetime(
            b2.lifetime,
            b1.lifetime,
        ),
        w2.effects@[w0.effects@.len() as int].delay == merged_opt_delay(b2.delay, b1.delay),
{
    let n0 = w0.effects@.len() as int;
    lemma_applies_preserves_wf(w0, target, b1, w1);
    assert(is_spawn_of(w1.effects@.last(), w0.next_id, target, b1));
    assert(w1.effects@[n0] == w1.effects@.last());
    lemma_find_match_props(w0.effects@, target, b1.name@, EffectMode::Merge);
    assert forall|j: int| 0 <= j < n0 implies !inst_matches(
        w1.effects@[j],
        target,
        b2.name@,
        EffectMode::Merge,
    ) by {
        assert(w1.effects@[j] == w0.effects@.subrange(0, n0)[j]);
        assert(w1.effects@[j] == w0.effects@[j]);
    }
    lemma_find_match_first(w1.effects@, target, b2.name@, EffectMode::Merge, n0);
    assert(w1.registry == Some(r));
    assert(is_merge_of(w2.effects@[n0], w1.effects@[n0], b2, w1.registry));
    lemma_applies_preserves_wf(w1, target, b2, w2);
    assert(w1.effects@[n0].payload@ == b1.payload@);
    assert forall|j: int|
        0 <= j < w2.effects@.len() && j != n0 implies !inst_matches(
        #[trigger] w2.effects@[j],
        target,
        b2.name@,
        EffectMode::Merge,
    ) by {
        assert(w2.effects@[j] == w1.effects@[j]);
        if j < n0 {
            assert(w1.effects@[j] == w0.effects@.subrange(0, n0)[j]);
        }
    }
}

/// The relationship invariant, in both directions: every live instance is
/// listed in its target's relation record, and every listed id is a live
/// instance whose back-reference is that record's target. It holds of
/// every well-formed world, hence after every flush and every despawn.
pub proof fn lemma_relation_invariant(w: EffectWorld)
    requires
        w.wf(),
    ensures
        forall|e: int|
            0 <= e < w.effects@.len() ==> w.listed_in_rel(
                (#[trigger] w.effects@[e]).target,
                w.effects@[e].id,
            ),
        forall|i: int, k: int|
            0 <= i < w.effected_by@.len() && 0 <= k < w.effected_by@[i].effect_ids@.len()
                ==> w.has_effect(
                #[trigger] w.effected_by@[i].effect_ids@[k],
                w.effected_by@[i].target,
            ),
{
}

} // verus!
