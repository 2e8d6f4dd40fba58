//! The effect world: the store of live effect instances, the per-target
//! relation records, the merge registry and the queue of pending effect
//! applications, together with the application engine that resolves
//! collisions.

use crate::assoc::{assoc_lookup, assoc_unique};
use crate::bundle::{
    opt_delay_wf, opt_lifetime_wf, AddEffectCommand, EffectBundle, EffectInstance, EffectedBy,
};
use crate::registry::EffectMergeRegistry;
use crate::EffectMode;
use vstd::prelude::*;

verus! {

/// True when `e` is an instance of the effect identified by `(target, name,
/// mode)`: the triple that decides whether two applications collide.
pub open spec fn inst_matches(e: EffectInstance, target: u64, name: Seq<char>, mode: EffectMode) -> bool {
    e.target == target && e.name@ == name && e.mode == mode
}

/// The index of the first instance matching `(target, name, mode)`, if any.
/// Under the world invariant at most one instance can match when the mode is
/// not `Stack`.
pub open spec fn find_match(
    s: Seq<EffectInstance>,
    target: u64,
    name: Seq<char>,
    mode: EffectMode,
) -> Option<int>
    decreases s.len(),
{
    if s.len() == 0 {
        None
    } else if inst_matches(s[0], target, name, mode) {
        Some(0)
    } else {
        match find_match(s.drop_first(), target, name, mode) {
            Some(i) => Some(i + 1),
            None => None,
        }
    }
}

/// What `find_match` returns: the first matching index, or `None` when
/// nothing matches.
pub proof fn lemma_find_match_props(s: Seq<EffectInstance>, target: u64, name: Seq<char>, mode: EffectMode)
    ensures
        match find_match(s, target, name, mode) {
            Some(i) => 0 <= i < s.len() && inst_matches(s[i], target, name, mode) && forall|j: int|
                0 <= j < i ==> !inst_matches(s[j], target, name, mode),
            None => forall|j: int| 0 <= j < s.len() ==> !inst_matches(s[j], target, name, mode),
        },
    decreases s.len(),
{
    if s.len() > 0 {
        let d = s.drop_first();
        lemma_find_match_props(d, target, name, mode);
        assert(forall|p: int| 0 <= p < d.len() ==> d[p] == s[p + 1]);
        if !inst_matches(s[0], target, name, mode) {
            match find_match(d, target, name, mode) {
                Some(i) => {
                    assert(find_match(s, target, name, mode) == Some(i + 1));
                    assert forall|j: int| 0 <= j < i + 1 implies !inst_matches(
                        s[j],
                        target,
                        name,
                        mode,
                    ) by {
                        if j > 0 {
                            assert(d[j - 1] == s[j]);
                            assert(!inst_matches(d[j - 1], target, name, mode));
                        }
                    }
                },
                None => {
                    assert forall|j: int| 0 <= j < s.len() implies !inst_matches(
                        s[j],
                        target,
                        name,
                        mode,
                    ) by {
                        if j > 0 {
                            assert(d[j - 1] == s[j]);
                            assert(!inst_matches(d[j - 1], target, name, mode));
                        }
                    }
                },
            }
        }
    }
}

/// A match at `i` preceded by no match is what `find_match` returns.
pub proof fn lemma_find_match_first(
    s: Seq<EffectInstance>,
    target: u64,
    name: Seq<char>,
    mode: EffectMode,
    i: int,
)
    requires
        0 <= i < s.len(),
        inst_matches(s[i], target, name, mode),
        forall|j: int| 0 <= j < i ==> !inst_matches(s[j], target, name, mode),
    ensures
        find_match(s, target, name, mode) == Some(i),
    decreases s.len(),
{
    if i > 0 {
        let d = s.drop_first();
        assert(forall|p: int| 0 <= p < d.len() ==> d[p] == s[p + 1]);
        assert forall|j: int| 0 <= j < i - 1 implies !inst_matches(d[j], target, name, mode) by {
            assert(d[j] == s[j + 1]);
        }
        lemma_find_match_first(d, target, name, mode, i - 1);
    }
}

/// True when `e` is the instance a spawn of bundle `b` on `target` creates:
/// it carries the fresh id, the back-reference, and the bundle's identity,
/// mode, timers and payload unchanged.
pub open spec fn is_spawn_of(e: EffectInstance, id: u64, target: u64, b: EffectBundle) -> bool {
    &&& e.id == id
    &&& e.target == target
    &&& e.name@ == b.name@
    &&& e.mode == b.mode
    &&& e.lifetime == b.lifetime
    &&& e.delay == b.delay
    &&& e.payload@ == b.payload@
}

/// True when `newe` is what a collision of bundle `b` with the matched
/// instance `olde` leaves behind. In `Merge` mode with a configured
/// registry, timers combine by their merge arithmetic and payload kinds by
/// their registered operations; otherwise (`Replace` mode, or `Merge`
/// before the registry is initialized) the bundle entirely overwrites the
/// old payload.
pub open spec fn is_merge_of(
    newe: EffectInstance,
    olde: EffectInstance,
    b: EffectBundle,
    registry: Option<EffectMergeRegistry>,
) -> bool {
    &&& newe.id == olde.id
    &&& newe.target == olde.target
    &&& newe.name@ == b.name@
    &&& newe.mode == b.mode
    &&& assoc_unique(newe.payload@)
    &&& match registry {
        Some(r) => if b.mode == EffectMode::Merge {
            is_registry_merge_write(newe, olde, b, r)
        } else {
            is_replace_write(newe, olde, b)
        },
        None => is_replace_write(newe, olde, b),
    }
}

/// The timer and payload clauses of a `Replace`-mode overwrite: the payload
/// becomes the bundle's exactly — no trace of the old one survives — and a
/// timer provided by the bundle replaces the old one wholesale, while an
/// absent one leaves the old timer in place. No combination of any kind
/// runs.
pub open spec fn is_replace_write(
    newe: EffectInstance,
    olde: EffectInstance,
    b: EffectBundle,
) -> bool {
    &&& newe.lifetime == (if b.lifetime is Some {
        b.lifetime
    } else {
        olde.lifetime
    })
    &&& newe.delay == (if b.delay is Some {
        b.delay
    } else {
        olde.delay
    })
    &&& newe.payload@ == b.payload@
}

/// The timer and payload clauses of a `Merge`-mode collision with a
/// configured registry: timers combine by their merge arithmetic, payload
/// kinds by their registered operations. Kinds carried only by the old
/// instance survive the insertion untouched (and are combined when
/// registered): only the registered pass can read the superseded state, so
/// nothing else removes it.
pub open spec fn is_registry_merge_write(
    newe: EffectInstance,
    olde: EffectInstance,
    b: EffectBundle,
    r: EffectMergeRegistry,
) -> bool {
    &&& newe.lifetime == crate::merge::merged_opt_lifetime(b.lifetime, olde.lifetime)
    &&& newe.delay == crate::merge::merged_opt_delay(b.delay, olde.delay)
    &&& forall|k: u64| #[trigger] assoc_lookup(newe.payload@, k)
        == crate::merge::merged_payload_value(k, olde.payload@, b.payload@, r)
}

/// True when `post` is `pre` with `id` added to `target`'s relation record:
/// appended to the existing record, or recorded in a fresh record appended
/// at the end when the target had none.
pub open spec fn rel_after_add(
    pre: Seq<EffectedBy>,
    target: u64,
    id: u64,
    post: Seq<EffectedBy>,
) -> bool {
    if exists|i: int| 0 <= i < pre.len() && (#[trigger] pre[i]).target == target {
        &&& post.len() == pre.len()
        &&& exists|i: int|
            0 <= i < pre.len() && (#[trigger] pre[i]).target == target && post[i].target == target
                && post[i].effect_ids@ == pre[i].effect_ids@.push(id) && (forall|j: int|
                0 <= j < pre.len() && j != i ==> post[j] == pre[j])
    } else {
        &&& post.len() == pre.len() + 1
        &&& post.subrange(0, pre.len() as int) == pre
        &&& post.last().target == target
        &&& post.last().effect_ids@ == seq![id]
    }
}

/// True when `post` is `pre` with `id` taken out of `target`'s relation
/// record (the record itself stays, possibly empty).
pub open spec fn rel_after_remove(
    pre: Seq<EffectedBy>,
    target: u64,
    id: u64,
    post: Seq<EffectedBy>,
) -> bool {
    &&& post.len() == pre.len()
    &&& exists|i: int|
        0 <= i < pre.len() && (#[trigger] pre[i]).target == target && post[i].target == target
            && (exists|k: int|
            0 <= k < pre[i].effect_ids@.len() && pre[i].effect_ids@[k] == id
                && post[i].effect_ids@ == pre[i].effect_ids@.remove(k)) && (forall|j: int|
            0 <= j < pre.len() && j != i ==> post[j] == pre[j])
}

/// True when `post_e` is `pre_e` with its lifetime timer advanced by
/// `delta` milliseconds and everything else unchanged.
pub open spec fn lifetime_ticked(post_e: EffectInstance, pre_e: EffectInstance, delta: u64) -> bool {
    &&& post_e.id == pre_e.id
    &&& post_e.target == pre_e.target
    &&& post_e.name@ == pre_e.name@
    &&& post_e.mode == pre_e.mode
    &&& post_e.delay == pre_e.delay
    &&& post_e.payload@ == pre_e.payload@
    &&& post_e.lifetime == match pre_e.lifetime {
        Some(l) => Some(crate::timer::Lifetime { timer: l.timer.ticked(delta), mode: l.mode }),
        None => None,
    }
}

/// True when `post_e` is `pre_e` with its delay timer advanced by `delta`
/// milliseconds and everything else unchanged.
pub open spec fn delay_ticked(post_e: EffectInstance, pre_e: EffectInstance, delta: u64) -> bool {
    &&& post_e.id == pre_e.id
    &&& post_e.target == pre_e.target
    &&& post_e.name@ == pre_e.name@
    &&& post_e.mode == pre_e.mode
    &&& post_e.lifetime == pre_e.lifetime
    &&& post_e.payload@ == pre_e.payload@
    &&& post_e.delay == match pre_e.delay {
        Some(d) => Some(crate::timer::Delay { timer: d.timer.ticked(delta), mode: d.mode }),
        None => None,
    }
}

/// True when the instance's lifetime will have run out once advanced by
/// `delta` milliseconds; an instance without a lifetime never expires.
pub open spec fn lifetime_expires(e: EffectInstance, delta: u64) -> bool {
    match e.lifetime {
        Some(l) => l.timer.ticked(delta).elapsed_ms >= l.timer.ticked(delta).duration_ms,
        None => false,
    }
}

/// True when the instance's lifetime has already run out.
pub open spec fn is_expired_now(e: EffectInstance) -> bool {
    match e.lifetime {
        Some(l) => l.timer.elapsed_ms >= l.timer.duration_ms,
        None => false,
    }
}

/// The full effect of one application of bundle `b` to `target`, relating
/// the world before to the world after. A `Stack`-mode application, or one
/// that finds no matching instance, spawns a fresh instance and registers
/// it with its target; otherwise the one matching instance is rewritten in
/// place according to [`is_merge_of`]. The pending command queue is not
/// constrained: applications are drained from it during a flush.
pub open spec fn applies_to(
    pre: EffectWorld,
    target: u64,
    b: EffectBundle,
    post: EffectWorld,
) -> bool {
    let m = if b.mode == EffectMode::Stack {
        None
    } else {
        find_match(pre.effects@, target, b.name@, b.mode)
    };
    &&& post.registry == pre.registry
    &&& match m {
        None => {
            &&& post.effects@.len() == pre.effects@.len() + 1
            &&& post.effects@.subrange(0, pre.effects@.len() as int) == pre.effects@
            &&& is_spawn_of(post.effects@.last(), pre.next_id, target, b)
            &&& post.next_id == pre.next_id + 1
            &&& rel_after_add(pre.effected_by@, target, pre.next_id, post.effected_by@)
        },
        Some(i) => {
            &&& post.effects@.len() == pre.effects@.len()
            &&& forall|j: int|
                0 <= j < pre.effects@.len() && j != i ==> post.effects@[j] == pre.effects@[j]
            &&& is_merge_of(post.effects@[i], pre.effects@[i], b, pre.registry)
            &&& post.next_id == pre.next_id
            &&& post.effected_by@ == pre.effected_by@
        },
    }
}

/// `contains` carries over to a sequence with one element appended.
proof fn lemma_contains_after_push(s: Seq<u64>, t: Seq<u64>, x: u64)
    requires
        s.contains(x),
        t.len() == s.len() + 1,
        forall|p: int| 0 <= p < s.len() ==> t[p] == s[p],
    ensures
        t.contains(x),
{
    let p = choose|p: int| 0 <= p < s.len() && s[p] == x;
    assert(t[p] == x);
}

/// A prefix's `contains` carries over to the next longer prefix.
proof fn lemma_subrange_contains_grow(s: Seq<u64>, n: int, x: u64)
    requires
        0 <= n < s.len(),
        s.subrange(0, n).contains(x),
    ensures
        s.subrange(0, n + 1).contains(x),
{
    let p = choose|p: int| 0 <= p < n && s.subrange(0, n)[p] == x;
    assert(s.subrange(0, n + 1)[p] == x);
}

/// Each prefix contains the element just past the previous prefix.
proof fn lemma_subrange_contains_step(s: Seq<u64>, n: int)
    requires
        0 <= n < s.len(),
    ensures
        s.subrange(0, n + 1).contains(s[n]),
{
    assert(s.subrange(0, n + 1)[n] == s[n]);
}

/// An element of a prefix other than its last is in the shorter prefix.
proof fn lemma_subrange_contains_shrink(s: Seq<u64>, n: int, x: u64)
    requires
        0 <= n < s.len(),
        s.subrange(0, n + 1).contains(x),
        x != s[n],
    ensures
        s.subrange(0, n).contains(x),
{
    let sub = s.subrange(0, n + 1);
    let p = choose|p: int| 0 <= p < sub.len() && sub[p] == x;
    assert(p != n);
    assert(s.subrange(0, n)[p] == x);
}

/// True when two worlds agree on everything but their pending command
/// queues: the queue is bookkeeping that a flush drains away.
pub open spec fn eq_except_pending(a: EffectWorld, b: EffectWorld) -> bool {
    &&& a.next_id == b.next_id
    &&& a.effects@ == b.effects@
    &&& a.effected_by@ == b.effected_by@
    &&& a.registry == b.registry
}

/// True when `post` results from applying the commands of `cmds` to `pre`
/// one by one, in order, disregarding the pending queues of the worlds
/// along the way.
pub open spec fn flushes_to(pre: EffectWorld, cmds: Seq<AddEffectCommand>, post: EffectWorld) -> bool
    decreases cmds.len(),
{
    if cmds.len() == 0 {
        eq_except_pending(post, pre)
    } else {
        exists|m: EffectWorld|
            #[trigger] applies_to(pre, cmds[0].target, cmds[0].bundle, m) && flushes_to(
                m,
                cmds.drop_first(),
                post,
            )
    }
}

/// An application reads nothing of the pre-world's pending queue, so it
/// carries over to any world that agrees on the rest.
pub proof fn lemma_applies_to_congruence(
    a: EffectWorld,
    b: EffectWorld,
    target: u64,
    bundle: EffectBundle,
    post: EffectWorld,
)
    requires
        applies_to(a, target, bundle, post),
        eq_except_pending(a, b),
    ensures
        applies_to(b, target, bundle, post),
{
    assert(find_match(b.effects@, target, bundle.name@, bundle.mode) == find_match(
        a.effects@,
        target,
        bundle.name@,
        bundle.mode,
    ));
}

/// A flush account reads nothing of the final world's pending queue
/// either.
pub proof fn lemma_flushes_to_post_congruence(
    pre: EffectWorld,
    cmds: Seq<AddEffectCommand>,
    a: EffectWorld,
    b: EffectWorld,
)
    requires
        flushes_to(pre, cmds, a),
        eq_except_pending(a, b),
    ensures
        flushes_to(pre, cmds, b),
    decreases cmds.len(),
{
    if cmds.len() > 0 {
        let m = choose|m: EffectWorld|
            #[trigger] applies_to(pre, cmds[0].target, cmds[0].bundle, m) && flushes_to(
                m,
                cmds.drop_first(),
                a,
            );
        lemma_flushes_to_post_congruence(m, cmds.drop_first(), a, b);
    }
}

/// Extends a flush account by one more applied command.
pub proof fn lemma_flushes_to_snoc(
    pre: EffectWorld,
    cmds: Seq<AddEffectCommand>,
    mid: EffectWorld,
    c: AddEffectCommand,
    post: EffectWorld,
)
    requires
        flushes_to(pre, cmds, mid),
        applies_to(mid, c.target, c.bundle, post),
    ensures
        flushes_to(pre, cmds.push(c), post),
    decreases cmds.len(),
{
    let ext = cmds.push(c);
    assert(ext[0] == if cmds.len() == 0 {
        c
    } else {
        cmds[0]
    });
    if cmds.len() == 0 {
        lemma_applies_to_congruence(mid, pre, c.target, c.bundle, post);
        assert(ext.drop_first() =~= Seq::<AddEffectCommand>::empty());
        assert(applies_to(pre, ext[0].target, ext[0].bundle, post) && flushes_to(
            post,
            ext.drop_first(),
            post,
        ));
    } else {
        let m = choose|m: EffectWorld|
            #[trigger] applies_to(pre, cmds[0].target, cmds[0].bundle, m) && flushes_to(
                m,
                cmds.drop_first(),
                mid,
            );
        lemma_flushes_to_snoc(m, cmds.drop_first(), mid, c, post);
        assert(ext.drop_first() =~= cmds.drop_first().push(c));
        assert(applies_to(pre, ext[0].target, ext[0].bundle, m) && flushes_to(
            m,
            ext.drop_first(),
            post,
        ));
    }
}

/// The store of live effect instances and everything the application engine
/// consults: per-target relation records, the merge registry, the id counter
/// and the queue of pending applications.
pub struct EffectWorld {
    /// The id the next spawned entity receives; every live id is below it.
    pub next_id: u64,
    /// The live effect instances.
    pub effects: Vec<EffectInstance>,
    /// One record per target that has ever received an effect: the ids of
    /// the instances currently acting on it.
    pub effected_by: Vec<EffectedBy>,
    /// The merge registry, once initialized. While `None`, `Merge`-mode
    /// collisions degrade to plain overwrite.
    pub registry: Option<EffectMergeRegistry>,
    /// Queued effect applications, applied in order by `flush`.
    pub pending: Vec<AddEffectCommand>,
}

impl EffectWorld {
    /// Every instance's own payload and timers are well-formed.
    pub open spec fn insts_wf(self) -> bool {
        forall|i: int| 0 <= i < self.effects@.len() ==> (#[trigger] self.effects@[i]).wf()
    }

    /// Instance ids are pairwise distinct.
    pub open spec fn ids_unique(self) -> bool {
        forall|i: int, j: int|
            0 <= i < self.effects@.len() && 0 <= j < self.effects@.len() && i != j
                ==> self.effects@[i].id != self.effects@[j].id
    }

    /// Every live id is below the id counter.
    pub open spec fn ids_bounded(self) -> bool {
        forall|i: int| 0 <= i < self.effects@.len() ==> (#[trigger] self.effects@[i]).id < self.next_id
    }

    /// At most one relation record per target.
    pub open spec fn rel_targets_unique(self) -> bool {
        forall|i: int, j: int|
            0 <= i < self.effected_by@.len() && 0 <= j < self.effected_by@.len() && i != j
                ==> self.effected_by@[i].target != self.effected_by@[j].target
    }

    /// No relation record lists the same id twice.
    pub open spec fn rel_ids_unique(self) -> bool {
        forall|i: int, p: int, q: int|
            0 <= i < self.effected_by@.len() && 0 <= p < self.effected_by@[i].effect_ids@.len()
                && 0 <= q < self.effected_by@[i].effect_ids@.len() && p != q
                ==> self.effected_by@[i].effect_ids@[p] != self.effected_by@[i].effect_ids@[q]
    }

    /// Some live instance has this id and this back-reference.
    pub open spec fn has_effect(self, id: u64, target: u64) -> bool {
        exists|e: int|
            0 <= e < self.effects@.len() && (#[trigger] self.effects@[e]).id == id
                && self.effects@[e].target == target
    }

    /// Some relation record for `target` lists `id`.
    pub open spec fn listed_in_rel(self, target: u64, id: u64) -> bool {
        exists|i: int|
            0 <= i < self.effected_by@.len() && (#[trigger] self.effected_by@[i]).target == target
                && self.effected_by@[i].effect_ids@.contains(id)
    }

    /// Every id listed in a target's relation record is a live instance
    /// whose back-reference is that target.
    pub open spec fn rel_to_effect(self) -> bool {
        forall|i: int, k: int|
            0 <= i < self.effected_by@.len() && 0 <= k < self.effected_by@[i].effect_ids@.len()
                ==> self.has_effect(
                    #[trigger] self.effected_by@[i].effect_ids@[k],
                    self.effected_by@[i].target,
                )
    }

    /// Every live instance is listed in its target's relation record.
    pub open spec fn effect_to_rel(self) -> bool {
        forall|e: int|
            0 <= e < self.effects@.len() ==> self.listed_in_rel(
                (#[trigger] self.effects@[e]).target,
                self.effects@[e].id,
            )
    }

    /// In `Replace` and `Merge` modes, at most one instance exists per
    /// `(target, name, mode)` triple.
    pub open spec fn collision_free(self) -> bool {
        forall|i: int, j: int|
            0 <= i < self.effects@.len() && 0 <= j < self.effects@.len() && i != j
                && (#[trigger] self.effects@[i]).target == (#[trigger] self.effects@[j]).target
                && self.effects@[i].name@ == self.effects@[j].name@
                && self.effects@[i].mode == self.effects@[j].mode
                ==> self.effects@[i].mode == EffectMode::Stack
    }

    /// Every queued bundle is well-formed.
    pub open spec fn pending_wf(self) -> bool {
        forall|i: int|
            0 <= i < self.pending@.len() ==> (#[trigger] self.pending@[i]).bundle.wf()
    }

    /// The registry, once configured, is well-formed.
    pub open spec fn registry_wf(self) -> bool {
        match self.registry {
            Some(r) => r.wf(),
            None => true,
        }
    }

    /// The invariant of the instance store itself, the part that one
    /// effect application preserves: in particular the relation records
    /// and the instances' back-references always agree exactly.
    pub open spec fn store_wf(self) -> bool {
        &&& self.insts_wf()
        &&& self.ids_unique()
        &&& self.ids_bounded()
        &&& self.rel_targets_unique()
        &&& self.rel_ids_unique()
        &&& self.rel_to_effect()
        &&& self.effect_to_rel()
        &&& self.collision_free()
        &&& self.registry_wf()
    }

    /// The world invariant: it holds of a fresh world and is preserved by
    /// every operation.
    pub open spec fn wf(self) -> bool {
        self.store_wf() && self.pending_wf()
    }

    /// The relation invariants speak only of the instance store and the
    /// relation records, so they carry over to any world that has the same
    /// ones.
    pub proof fn lemma_rel_invariants_carry(self, b: EffectWorld)
        requires
            self.rel_to_effect(),
            self.effect_to_rel(),
            b.effects@ == self.effects@,
            b.effected_by@ == self.effected_by@,
        ensures
            b.rel_to_effect(),
            b.effect_to_rel(),
    {
        assert forall|i: int, k: int|
            0 <= i < b.effected_by@.len() && 0 <= k
                < b.effected_by@[i].effect_ids@.len() implies b.has_effect(
            #[trigger] b.effected_by@[i].effect_ids@[k],
            b.effected_by@[i].target,
        ) by {
            assert(self.has_effect(
                self.effected_by@[i].effect_ids@[k],
                self.effected_by@[i].target,
            ));
            self.lemma_has_effect_carry(
                b,
                self.effected_by@[i].effect_ids@[k],
                self.effected_by@[i].target,
            );
        }
        assert forall|e: int| 0 <= e < b.effects@.len() implies b.listed_in_rel(
            (#[trigger] b.effects@[e]).target,
            b.effects@[e].id,
        ) by {
            assert(self.listed_in_rel(self.effects@[e].target, self.effects@[e].id));
            self.lemma_listed_in_rel_carry(b, self.effects@[e].target, self.effects@[e].id);
        }
    }

    /// A live (id, target) pair stays live in a world with the same
    /// instance store.
    pub proof fn lemma_has_effect_carry(self, b: EffectWorld, id: u64, target: u64)
        requires
            self.has_effect(id, target),
            b.effects@ == self.effects@,
        ensures
            b.has_effect(id, target),
    {
        let e = choose|e: int|
            0 <= e < self.effects@.len() && (#[trigger] self.effects@[e]).id == id
                && self.effects@[e].target == target;
        assert(0 <= e < b.effects@.len() && b.effects@[e].id == id && b.effects@[e].target
            == target);
    }

    /// A listed (target, id) pair stays listed in a world with the same
    /// relation records.
    pub proof fn lemma_listed_in_rel_carry(self, b: EffectWorld, target: u64, id: u64)
        requires
            self.listed_in_rel(target, id),
            b.effected_by@ == self.effected_by@,
        ensures
            b.listed_in_rel(target, id),
    {
        let i = choose|i: int|
            0 <= i < self.effected_by@.len() && (#[trigger] self.effected_by@[i]).target == target
                && self.effected_by@[i].effect_ids@.contains(id);
        assert(0 <= i < b.effected_by@.len() && b.effected_by@[i].target == target
            && b.effected_by@[i].effect_ids@.contains(id));
    }

    /// An empty world: no entities, no relation records, no registry, no
    /// pending commands.
    pub fn new() -> (r: EffectWorld)
        ensures
            r.wf(),
            r.next_id == 0,
            r.effects@.len() == 0,
            r.effected_by@.len() == 0,
            r.registry == None::<EffectMergeRegistry>,
            r.pending@.len() == 0,
    {
        EffectWorld {
            next_id: 0,
            effects: Vec::new(),
            effected_by: Vec::new(),
            registry: None,
            pending: Vec::new(),
        }
    }

    /// Allocates a fresh entity id to use as a target. No relation record is
    /// created yet: the first effect application creates it.
    pub fn spawn_target(&mut self) -> (id: u64)
        requires
            old(self).wf(),
            old(self).next_id < u64::MAX,
        ensures
            final(self).wf(),
            id == old(self).next_id,
            final(self).next_id == old(self).next_id + 1,
            final(self).effects@ == old(self).effects@,
            final(self).effected_by@ == old(self).effected_by@,
            final(self).registry == old(self).registry,
            final(self).pending@ == old(self).pending@,
    {
        let id = self.next_id;
        self.next_id = self.next_id + 1;
        proof {
            old(self).lemma_rel_invariants_carry(*self);
        }
        id
    }

    /// The registration step of engine startup: installs the default merge
    /// registry (the built-in stack counter combines by saturating
    /// addition) if none is configured yet. An already configured registry
    /// is left untouched: registrations are monotonic for the life of the
    /// store.
    pub fn init_registry(&mut self)
        requires
            old(self).wf(),
        ensures
            final(self).wf(),
            final(self).registry is Some,
            old(self).registry is None ==> (final(self).registry matches Some(r) && r.wf()
                && forall|kind: u64|
                #[trigger] r.op_for(kind) == (if kind == crate::registry::EFFECT_STACKS_KIND {
                    Some(crate::registry::MergeOp::SaturatingAdd)
                } else {
                    None::<crate::registry::MergeOp>
                })),
            old(self).registry is Some ==> final(self).registry == old(self).registry,
            final(self).next_id == old(self).next_id,
            final(self).effects@ == old(self).effects@,
            final(self).effected_by@ == old(self).effected_by@,
            final(self).pending@ == old(self).pending@,
    {
        if self.registry.is_none() {
            self.registry = Some(EffectMergeRegistry::with_defaults());
        }
        proof {
            old(self).lemma_rel_invariants_carry(*self);
        }
    }

    /// Whether the merge registry has been configured. While it is not, a
    /// `Merge`-mode collision degrades to plain overwrite; a host that
    /// wants the one-time configuration warning checks this.
    pub fn registry_configured(&self) -> (r: bool)
        ensures
            r == (self.registry is Some),
    {
        self.registry.is_some()
    }

    /// Registers a custom merge operation for a payload kind, initializing
    /// the registry with the defaults first if it is not configured yet.
    pub fn register_merge_op(&mut self, kind: u64, op: crate::registry::MergeOp)
        requires
            old(self).wf(),
        ensures
            final(self).wf(),
            final(self).registry matches Some(r) && r.wf() && r.op_for(kind) == Some(op),
            final(self).next_id == old(self).next_id,
            final(self).effects@ == old(self).effects@,
            final(self).effected_by@ == old(self).effected_by@,
            final(self).pending@ == old(self).pending@,
            old(self).registry matches Some(r0) ==> forall|k: u64|
                k != kind ==> #[trigger] (final(self).registry.unwrap().op_for(k)) == r0.op_for(k),
            old(self).registry is None ==> forall|k: u64|
                k != kind ==> #[trigger] (final(self).registry.unwrap().op_for(k)) == (if k
                    == crate::registry::EFFECT_STACKS_KIND {
                    Some(crate::registry::MergeOp::SaturatingAdd)
                } else {
                    None
                }),
    {
        match &mut self.registry {
            Some(r) => {
                r.register(kind, op);
            },
            None => {
                let mut r = EffectMergeRegistry::with_defaults();
                r.register(kind, op);
                self.registry = Some(r);
            },
        }
        proof {
            old(self).lemma_rel_invariants_carry(*self);
        }
    }

    /// Enqueues an effect application; it takes effect at the next `flush`,
    /// after every application queued before it.
    pub fn queue_effect(&mut self, target: u64, bundle: EffectBundle)
        requires
            old(self).wf(),
            bundle.wf(),
        ensures
            final(self).wf(),
            final(self).pending@.len() == old(self).pending@.len() + 1,
            final(self).pending@.subrange(0, old(self).pending@.len() as int) == old(self).pending@,
            final(self).pending@.last().target == target,
            final(self).pending@.last().bundle.name@ == bundle.name@,
            final(self).pending@.last().bundle.mode == bundle.mode,
            final(self).pending@.last().bundle.lifetime == bundle.lifetime,
            final(self).pending@.last().bundle.delay == bundle.delay,
            final(self).pending@.last().bundle.payload@ == bundle.payload@,
            final(self).next_id == old(self).next_id,
            final(self).effects@ == old(self).effects@,
            final(self).effected_by@ == old(self).effected_by@,
            final(self).registry == old(self).registry,
    {
        self.pending.push(AddEffectCommand { target, bundle });
        proof {
            old(self).lemma_rel_invariants_carry(*self);
            assert(self.pending@.subrange(0, old(self).pending@.len() as int)
                =~= old(self).pending@);
        }
    }

    /// A live pair stays live in a world whose instance store extends this
    /// one's.
    proof fn lemma_has_effect_prefix(self, b: EffectWorld, id: u64, target: u64)
        requires
            self.has_effect(id, target),
            self.effects@.len() <= b.effects@.len(),
            forall|e: int| 0 <= e < self.effects@.len() ==> b.effects@[e] == self.effects@[e],
        ensures
            b.has_effect(id, target),
    {
        let e = choose|e: int|
            0 <= e < self.effects@.len() && (#[trigger] self.effects@[e]).id == id
                && self.effects@[e].target == target;
        assert(0 <= e < b.effects@.len() && b.effects@[e].id == id && b.effects@[e].target
            == target);
    }

    /// The position of the instance a non-`Stack` bundle collides with.
    fn find_match_index(&self, target: u64, name: &String, mode: EffectMode) -> (r: Option<usize>)
        ensures
            match r {
                Some(i) => find_match(self.effects@, target, name@, mode) == Some(i as int),
                None => find_match(self.effects@, target, name@, mode) is None,
            },
    {
        let mut i: usize = 0;
        while i < self.effects.len()
            invariant
                0 <= i <= self.effects@.len(),
                forall|j: int| 0 <= j < i ==> !inst_matches(self.effects@[j], target, name@, mode),
            decreases self.effects@.len() - i,
        {
            let e = &self.effects[i];
            if e.target == target && e.mode == mode && e.name == *name {
                proof {
                    lemma_find_match_first(self.effects@, target, name@, mode, i as int);
                }
                return Some(i);
            }
            i = i + 1;
        }
        proof {
            lemma_find_match_props(self.effects@, target, name@, mode);
            assert(find_match(self.effects@, target, name@, mode) is None);
        }
        None
    }

    /// Spawns a fresh effect instance for the bundle and registers it in
    /// its target's relation record.
    #[verifier::rlimit(30)]
    fn spawn_effect(&mut self, target: u64, bundle: EffectBundle)
        requires
            old(self).wf(),
            bundle.wf(),
            old(self).next_id < u64::MAX,
            bundle.mode != EffectMode::Stack ==> find_match(
                old(self).effects@,
                target,
                bundle.name@,
                bundle.mode,
            ) is None,
        ensures
            final(self).wf(),
            final(self).effects@.len() == old(self).effects@.len() + 1,
            final(self).effects@.subrange(0, old(self).effects@.len() as int)
                == old(self).effects@,
            is_spawn_of(final(self).effects@.last(), old(self).next_id, target, bundle),
            final(self).next_id == old(self).next_id + 1,
            rel_after_add(
                old(self).effected_by@,
                target,
                old(self).next_id,
                final(self).effected_by@,
            ),
            final(self).registry == old(self).registry,
            final(self).pending@ == old(self).pending@,
    {
        // Search for the target's relation record first.
        let mut i: usize = 0;
        let mut found: Option<usize> = None;
        while i < self.effected_by.len()
            invariant
                *self == *old(self),
                0 <= i <= self.effected_by@.len(),
                match found {
                    Some(fi) => fi < self.effected_by@.len()
                        && self.effected_by@[fi as int].target == target,
                    None => forall|j: int|
                        0 <= j < i ==> (#[trigger] self.effected_by@[j]).target != target,
                },
            decreases self.effected_by@.len() - i,
        {
            if found.is_none() && self.effected_by[i].target == target {
                found = Some(i);
            }
            i = i + 1;
        }

        let id = self.next_id;
        self.next_id = self.next_id + 1;
        self.effects.push(
            EffectInstance {
                id,
                target,
                name: bundle.name,
                mode: bundle.mode,
                lifetime: bundle.lifetime,
                delay: bundle.delay,
                payload: bundle.payload,
            },
        );

        let ghost mut rel_wit: Option<EffectedBy> = None;
        match found {
            Some(fi) => {
                let mut entry = self.effected_by.remove(fi);
                entry.effect_ids.push(id);
                let ghost entry_v = entry;
                self.effected_by.insert(fi, entry);
                proof {
                    rel_wit = Some(entry_v);
                    assert(self.effected_by@ =~= old(self).effected_by@.update(
                        fi as int,
                        entry_v,
                    ));
                    assert(entry_v.target == target);
                    assert(entry_v.effect_ids@ == old(self).effected_by@[fi as int].effect_ids@.push(
                        id,
                    ));
                }
            },
            None => {
                let mut ids: Vec<u64> = Vec::new();
                ids.push(id);
                self.effected_by.push(EffectedBy { target, effect_ids: ids });
                proof {
                    assert(self.effected_by@.subrange(0, old(self).effected_by@.len() as int)
                        =~= old(self).effected_by@);
                    assert(self.effected_by@.last().effect_ids@ =~= seq![id]);
                }
            },
        }

        proof {
            let pre = *old(self);
            let post = *self;
            assert(post.effects@.subrange(0, pre.effects@.len() as int) =~= pre.effects@);
            let ghost gfound: Option<int> = match found {
                Some(f) => Some(f as int),
                None => None,
            };
            match found {
                Some(fi) => {
                    assert(fi < pre.effected_by@.len() && pre.effected_by@[fi as int].target
                        == target);
                },
                None => {},
            }
            self.lemma_spawn_wf(pre, target, bundle, id, gfound, rel_wit);
            assert forall|j: int|
                0 <= j < self.pending@.len() implies (#[trigger] self.pending@[j]).bundle.wf() by {
                assert(self.pending@[j] == pre.pending@[j]);
                assert(pre.pending@[j].bundle.wf());
            }
        }
    }

    /// The invariant-preservation argument for a spawn, together with the
    /// relation-record bookkeeping clause.
    pub(crate) proof fn lemma_spawn_wf(
        self,
        pre: EffectWorld,
        target: u64,
        bundle: EffectBundle,
        id: u64,
        found: Option<int>,
        wit: Option<EffectedBy>,
    )
        requires
            pre.store_wf(),
            bundle.wf(),
            pre.next_id < u64::MAX,
            bundle.mode != EffectMode::Stack ==> find_match(
                pre.effects@,
                target,
                bundle.name@,
                bundle.mode,
            ) is None,
            id == pre.next_id,
            self.next_id == pre.next_id + 1,
            self.effects@.len() == pre.effects@.len() + 1,
            self.effects@.subrange(0, pre.effects@.len() as int) == pre.effects@,
            is_spawn_of(self.effects@.last(), id, target, bundle),
            self.registry == pre.registry,
            match found {
                Some(fi) => 0 <= fi < pre.effected_by@.len()
                    && pre.effected_by@[fi].target == target && (wit matches Some(ev)
                    && self.effected_by@ == pre.effected_by@.update(fi, ev) && ev.target == target
                    && ev.effect_ids@ == pre.effected_by@[fi].effect_ids@.push(id)),
                None => (forall|j: int|
                    0 <= j < pre.effected_by@.len() ==> (#[trigger] pre.effected_by@[j]).target
                        != target) && self.effected_by@.len() == pre.effected_by@.len() + 1
                    && self.effected_by@.subrange(0, pre.effected_by@.len() as int)
                        == pre.effected_by@ && self.effected_by@.last().target == target
                    && self.effected_by@.last().effect_ids@ == seq![id],
            },
        ensures
            self.store_wf(),
            rel_after_add(pre.effected_by@, target, id, self.effected_by@),
    {
        let es = self.effects@;
        let pes = pre.effects@;
        let n = pes.len() as int;
        assert(forall|j: int| 0 <= j < n ==> es[j] == pes[j]);
        assert(es.last() == es[n]);

        // instance well-formedness, id uniqueness and bounds
        assert forall|j: int| 0 <= j < es.len() implies (#[trigger] es[j]).wf() by {
            if j < n {
                assert(pes[j].wf());
            }
        }
        assert forall|p: int, q: int|
            0 <= p < es.len() && 0 <= q < es.len() && p != q implies es[p].id != es[q].id by {
            if p < n && q < n {
            } else if p == n && q < n {
                assert(pes[q].id < pre.next_id);
            } else if q == n && p < n {
                assert(pes[p].id < pre.next_id);
            }
        }
        assert forall|j: int| 0 <= j < es.len() implies (#[trigger] es[j]).id < self.next_id by {
            if j < n {
                assert(pes[j].id < pre.next_id);
            }
        }

        // no new collision
        assert forall|p: int, q: int|
            0 <= p < es.len() && 0 <= q < es.len() && p != q && (#[trigger] es[p]).target
                == (#[trigger] es[q]).target && es[p].name@ == es[q].name@ && es[p].mode
                == es[q].mode implies es[p].mode == EffectMode::Stack by {
            if p < n && q < n {
            } else {
                let w = if p == n {
                    q
                } else {
                    p
                };
                assert(es[n] == es.last());
                if bundle.mode != EffectMode::Stack {
                    lemma_find_match_props(pes, target, bundle.name@, bundle.mode);
                    assert(!inst_matches(pes[w], target, bundle.name@, bundle.mode));
                    assert(false);
                }
            }
        }

        // the relation-record bookkeeping clause
        match found {
            Some(fi) => {
                let ev = wit.unwrap();
                assert(rel_after_add(pre.effected_by@, target, id, self.effected_by@)) by {
                    assert(0 <= fi < pre.effected_by@.len() && (pre.effected_by@[fi]).target
                        == target);
                    assert(self.effected_by@[fi] == ev);
                    assert(forall|j: int|
                        0 <= j < pre.effected_by@.len() && j != fi
                            ==> self.effected_by@[j] == pre.effected_by@[j]);
                }
            },
            None => {
                assert(!(exists|i: int|
                    0 <= i < pre.effected_by@.len() && (#[trigger] pre.effected_by@[i]).target
                        == target));
                assert(rel_after_add(pre.effected_by@, target, id, self.effected_by@));
            },
        }

        // relation-record invariants
        let rs = self.effected_by@;
        let prs = pre.effected_by@;
        assert forall|p: int, q: int|
            0 <= p < rs.len() && 0 <= q < rs.len() && p != q implies rs[p].target
            != rs[q].target by {
            match found {
                Some(fi) => {
                    assert(forall|j: int| 0 <= j < prs.len() ==> rs[j].target == prs[j].target);
                    assert(prs[p].target != prs[q].target);
                },
                None => {
                    if p < prs.len() && q < prs.len() {
                        assert(rs[p] == prs[p] && rs[q] == prs[q]);
                        assert(prs[p].target != prs[q].target);
                    } else {
                        let w = if p == prs.len() as int {
                            q
                        } else {
                            p
                        };
                        assert(rs[w] == prs[w]);
                        assert(prs[w].target != target);
                    }
                },
            }
        }

        // every id listed once per record
        assert forall|r_i: int, p: int, q: int|
            0 <= r_i < rs.len() && 0 <= p < rs[r_i].effect_ids@.len() && 0 <= q
                < rs[r_i].effect_ids@.len() && p != q implies rs[r_i].effect_ids@[p]
            != rs[r_i].effect_ids@[q] by {
            let old_entry_ok = r_i < prs.len();
            match found {
                Some(fi) => {
                    if r_i == fi {
                        let pids = prs[fi].effect_ids@;
                        assert(rs[r_i].effect_ids@ == pids.push(id));
                        assert forall|w: int| 0 <= w < pids.len() implies pids[w] != id by {
                            assert(pre.has_effect(pids[w], prs[fi].target));
                            let e = choose|e: int|
                                0 <= e < pre.effects@.len() && (#[trigger] pre.effects@[e]).id
                                    == pids[w] && pre.effects@[e].target == prs[fi].target;
                            assert(pre.effects@[e].id < pre.next_id);
                        }
                    } else {
                        assert(rs[r_i] == prs[r_i]);
                    }
                },
                None => {
                    if r_i < prs.len() {
                        assert(rs[r_i] == prs[r_i]);
                    } else {
                        assert(rs[r_i].effect_ids@ == seq![id]);
                    }
                },
            }
        }

        // every listed id is live
        assert forall|r_i: int, k: int|
            0 <= r_i < rs.len() && 0 <= k < rs[r_i].effect_ids@.len() implies self.has_effect(
            #[trigger] rs[r_i].effect_ids@[k],
            rs[r_i].target,
        ) by {
            let listed = rs[r_i].effect_ids@[k];
            let is_new_listing = listed == id;
            if is_new_listing {
                assert(es[n].id == id);
                // the new listing can only be for `target`
                match found {
                    Some(fi) => {
                        if r_i == fi {
                            assert(rs[r_i].target == target);
                        } else {
                            assert(rs[r_i] == prs[r_i]);
                            assert(pre.has_effect(listed, prs[r_i].target));
                            let e = choose|e: int|
                                0 <= e < pre.effects@.len() && (#[trigger] pre.effects@[e]).id
                                    == listed && pre.effects@[e].target == prs[r_i].target;
                            assert(pre.effects@[e].id < pre.next_id);
                            assert(false);
                        }
                    },
                    None => {
                        if r_i < prs.len() {
                            assert(rs[r_i] == prs[r_i]);
                            assert(pre.has_effect(listed, prs[r_i].target));
                            let e = choose|e: int|
                                0 <= e < pre.effects@.len() && (#[trigger] pre.effects@[e]).id
                                    == listed && pre.effects@[e].target == prs[r_i].target;
                            assert(pre.effects@[e].id < pre.next_id);
                            assert(false);
                        } else {
                            assert(rs[r_i].target == target);
                        }
                    },
                }
                assert(0 <= n < es.len() && es[n].id == listed && es[n].target == rs[r_i].target);
            } else {
                // an old listing: find it in the old record
                let old_target = rs[r_i].target;
                match found {
                    Some(fi) => {
                        if r_i == fi {
                            let pids = prs[fi].effect_ids@;
                            assert(rs[r_i].effect_ids@ == pids.push(id));
                            assert(0 <= k < pids.len());
                            assert(pre.has_effect(pids[k], prs[fi].target));
                        } else {
                            assert(rs[r_i] == prs[r_i]);
                            assert(pre.has_effect(listed, prs[r_i].target));
                        }
                    },
                    None => {
                        assert(r_i < prs.len() && rs[r_i] == prs[r_i]);
                        assert(pre.has_effect(listed, prs[r_i].target));
                    },
                }
                pre.lemma_has_effect_prefix(*&self, listed, old_target);
            }
        }

        // every live instance is listed
        assert forall|e: int| 0 <= e < es.len() implies self.listed_in_rel(
            (#[trigger] es[e]).target,
            es[e].id,
        ) by {
            if e < n {
                assert(pre.listed_in_rel(pes[e].target, pes[e].id));
                let r_i = choose|r_i: int|
                    0 <= r_i < prs.len() && (#[trigger] prs[r_i]).target == pes[e].target
                        && prs[r_i].effect_ids@.contains(pes[e].id);
                match found {
                    Some(fi) => {
                        if r_i == fi {
                            let pids = prs[fi].effect_ids@;
                            let w = choose|w: int| 0 <= w < pids.len() && pids[w] == pes[e].id;
                            assert(rs[fi].effect_ids@ == pids.push(id));
                            assert(rs[fi].effect_ids@[w] == pes[e].id);
                            assert(rs[fi].effect_ids@.contains(pes[e].id));
                            assert(rs[fi].target == target);
                            assert(prs[fi].target == target);
                        } else {
                            assert(rs[r_i] == prs[r_i]);
                        }
                        assert(0 <= r_i < rs.len() && rs[r_i].target == es[e].target
                            && rs[r_i].effect_ids@.contains(es[e].id));
                    },
                    None => {
                        assert(rs[r_i] == prs[r_i]);
                        assert(0 <= r_i < rs.len() && rs[r_i].target == es[e].target
                            && rs[r_i].effect_ids@.contains(es[e].id));
                    },
                }
            } else {
                // the fresh instance is listed where the id was added
                match found {
                    Some(fi) => {
                        let pids = prs[fi].effect_ids@;
                        assert(rs[fi].effect_ids@ == pids.push(id));
                        assert(rs[fi].effect_ids@[pids.len() as int] == id);
                        assert(rs[fi].effect_ids@.contains(id));
                        assert(0 <= fi < rs.len() && rs[fi].target == es[e].target
                            && rs[fi].effect_ids@.contains(es[e].id));
                    },
                    None => {
                        let last = rs.len() - 1;
                        assert(rs[last].effect_ids@ == seq![id]);
                        assert(rs[last].effect_ids@[0] == id);
                        assert(rs[last].effect_ids@.contains(id));
                        assert(0 <= last < rs.len() && rs[last].target == es[e].target
                            && rs[last].effect_ids@.contains(es[e].id));
                    },
                }
            }
        }
    }

    /// Rewrites the matched instance in place: plain insertion for
    /// `Replace` (or `Merge` before the registry is configured),
    /// registry-driven merging for `Merge`.
    fn merge_into(&mut self, i: usize, target: u64, bundle: EffectBundle)
        requires
            old(self).wf(),
            bundle.wf(),
            bundle.mode != EffectMode::Stack,
            i < old(self).effects@.len(),
            find_match(old(self).effects@, target, bundle.name@, bundle.mode) == Some(i as int),
        ensures
            final(self).wf(),
            final(self).effects@.len() == old(self).effects@.len(),
            forall|j: int|
                0 <= j < old(self).effects@.len() && j != i ==> final(self).effects@[j]
                    == old(self).effects@[j],
            is_merge_of(
                final(self).effects@[i as int],
                old(self).effects@[i as int],
                bundle,
                old(self).registry,
            ),
            final(self).next_id == old(self).next_id,
            final(self).effected_by@ == old(self).effected_by@,
            final(self).registry == old(self).registry,
            final(self).pending@ == old(self).pending@,
    {
        proof {
            lemma_find_match_props(self.effects@, target, bundle.name@, bundle.mode);
        }
        let oid = self.effects[i].id;
        let otarget = self.effects[i].target;
        let olifetime = self.effects[i].lifetime;
        let odelay = self.effects[i].delay;
        let is_merge = matches!(bundle.mode, EffectMode::Merge);
        let reg_opt: Option<&EffectMergeRegistry> = if is_merge {
            self.registry.as_ref()
        } else {
            None
        };
        let (new_lifetime, new_delay, new_payload) = match reg_opt {
            Some(r) => {
                let nl = crate::merge::merge_opt_lifetime(bundle.lifetime, olifetime);
                let nd = crate::merge::merge_opt_delay(bundle.delay, odelay);
                let np = crate::merge::merged_payload(
                    &self.effects[i].payload,
                    &bundle.payload,
                    r,
                );
                (nl, nd, np)
            },
            None => {
                let nl = if bundle.lifetime.is_some() {
                    bundle.lifetime
                } else {
                    olifetime
                };
                let nd = if bundle.delay.is_some() {
                    bundle.delay
                } else {
                    odelay
                };
                let np = crate::merge::copy_payload(&bundle.payload);
                (nl, nd, np)
            },
        };
        let new_inst = EffectInstance {
            id: oid,
            target: otarget,
            name: bundle.name,
            mode: bundle.mode,
            lifetime: new_lifetime,
            delay: new_delay,
            payload: new_payload,
        };
        self.effects[i] = new_inst;
        proof {
            let pre = *old(self);
            assert(is_merge_of(
                self.effects@[i as int],
                pre.effects@[i as int],
                bundle,
                pre.registry,
            ));
            self.lemma_merge_wf(pre, i as int, target, bundle);
            assert forall|j: int|
                0 <= j < self.pending@.len() implies (#[trigger] self.pending@[j]).bundle.wf() by {
                assert(self.pending@[j] == pre.pending@[j]);
                assert(pre.pending@[j].bundle.wf());
            }
        }
    }

    /// The invariant-preservation argument for an in-place rewrite of the
    /// matched instance.
    pub(crate) proof fn lemma_merge_wf(self, pre: EffectWorld, i: int, target: u64, bundle: EffectBundle)
        requires
            pre.store_wf(),
            bundle.wf(),
            bundle.mode != EffectMode::Stack,
            0 <= i < pre.effects@.len(),
            find_match(pre.effects@, target, bundle.name@, bundle.mode) == Some(i),
            self.effects@.len() == pre.effects@.len(),
            forall|j: int|
                0 <= j < pre.effects@.len() && j != i ==> self.effects@[j] == pre.effects@[j],
            is_merge_of(self.effects@[i], pre.effects@[i], bundle, pre.registry),
            self.next_id == pre.next_id,
            self.effected_by@ == pre.effected_by@,
            self.registry == pre.registry,
        ensures
            self.store_wf(),
    {
        let es = self.effects@;
        let pes = pre.effects@;
        lemma_find_match_props(pes, target, bundle.name@, bundle.mode);
        assert(inst_matches(pes[i], target, bundle.name@, bundle.mode));

        // the rewritten instance is well-formed
        assert forall|j: int| 0 <= j < es.len() implies (#[trigger] es[j]).wf() by {
            if j != i {
                assert(pes[j].wf());
            } else {
                assert(pes[i].wf());
                match pre.registry {
                    Some(r) => {
                        if bundle.mode == EffectMode::Merge {
                            match (bundle.lifetime, pes[i].lifetime) {
                                (Some(n), Some(o)) => {
                                    crate::timer::lemma_merged_timer_wf(n.timer, n.mode, o.timer);
                                },
                                _ => {},
                            }
                            match (bundle.delay, pes[i].delay) {
                                (Some(n), Some(o)) => {
                                    crate::timer::lemma_merged_timer_wf(n.timer, n.mode, o.timer);
                                },
                                _ => {},
                            }
                        }
                    },
                    None => {},
                }
            }
        }

        // ids, bounds and collisions are exactly as before
        assert(forall|j: int| 0 <= j < es.len() ==> (#[trigger] es[j]).id == pes[j].id);
        assert(forall|j: int| 0 <= j < es.len() ==> (#[trigger] es[j]).target == pes[j].target);
        assert forall|p: int, q: int|
            0 <= p < es.len() && 0 <= q < es.len() && p != q implies es[p].id != es[q].id by {
            assert(pes[p].id != pes[q].id);
        }
        assert forall|j: int| 0 <= j < es.len() implies (#[trigger] es[j]).id < self.next_id by {
            assert(pes[j].id < pre.next_id);
        }
        assert forall|p: int, q: int|
            0 <= p < es.len() && 0 <= q < es.len() && p != q && (#[trigger] es[p]).target
                == (#[trigger] es[q]).target && es[p].name@ == es[q].name@ && es[p].mode
                == es[q].mode implies es[p].mode == EffectMode::Stack by {
            assert(forall|j: int| 0 <= j < es.len() ==> (#[trigger] es[j]).name@ == pes[j].name@);
            assert(forall|j: int| 0 <= j < es.len() ==> (#[trigger] es[j]).mode == pes[j].mode);
            assert(pes[p].target == pes[q].target && pes[p].name@ == pes[q].name@ && pes[p].mode
                == pes[q].mode);
        }

        // relation records are untouched and ids and targets unchanged
        assert forall|r_i: int, k: int|
            0 <= r_i < self.effected_by@.len() && 0 <= k
                < self.effected_by@[r_i].effect_ids@.len() implies self.has_effect(
            #[trigger] self.effected_by@[r_i].effect_ids@[k],
            self.effected_by@[r_i].target,
        ) by {
            let listed = self.effected_by@[r_i].effect_ids@[k];
            let t = self.effected_by@[r_i].target;
            assert(pre.effected_by@[r_i].effect_ids@[k] == listed);
            assert(pre.has_effect(listed, t));
            let e = choose|e: int|
                0 <= e < pre.effects@.len() && (#[trigger] pre.effects@[e]).id == listed
                    && pre.effects@[e].target == t;
            assert(0 <= e < es.len() && es[e].id == listed && es[e].target == t);
        }
        assert forall|e: int| 0 <= e < es.len() implies self.listed_in_rel(
            (#[trigger] es[e]).target,
            es[e].id,
        ) by {
            assert(pre.listed_in_rel(pes[e].target, pes[e].id));
            pre.lemma_listed_in_rel_carry(self, pes[e].target, pes[e].id);
        }
    }

    /// Applies an effect bundle to a target entity at once, resolving any
    /// collision with the target's existing effects: `Stack` mode (or the
    /// absence of a matching instance) spawns a fresh effect instance and
    /// registers it with the target; otherwise the one matching instance is
    /// rewritten in place as [`is_merge_of`] describes.
    pub fn apply_effect(&mut self, target: u64, bundle: EffectBundle)
        requires
            old(self).wf(),
            bundle.wf(),
            old(self).next_id < u64::MAX,
        ensures
            final(self).wf(),
            applies_to(*old(self), target, bundle, *final(self)),
            final(self).pending@ == old(self).pending@,
    {
        let is_stack = matches!(bundle.mode, EffectMode::Stack);
        if is_stack {
            self.spawn_effect(target, bundle);
        } else {
            match self.find_match_index(target, &bundle.name, bundle.mode) {
                Some(i) => {
                    proof {
                        lemma_find_match_props(self.effects@, target, bundle.name@, bundle.mode);
                    }
                    self.merge_into(i, target, bundle);
                },
                None => {
                    self.spawn_effect(target, bundle);
                },
            }
        }
    }

    /// Destroys the effect instance with the given id, if it is live, and
    /// takes it out of its target's relation record in the same step.
    /// Returns whether an instance was destroyed.
    pub fn despawn_effect(&mut self, id: u64) -> (found: bool)
        requires
            old(self).wf(),
        ensures
            final(self).wf(),
            found == exists|e: int|
                0 <= e < old(self).effects@.len() && (#[trigger] old(self).effects@[e]).id == id,
            !found ==> *final(self) == *old(self),
            found ==> exists|e: int|
                0 <= e < old(self).effects@.len() && (#[trigger] old(self).effects@[e]).id == id
                    && final(self).effects@ == old(self).effects@.remove(e) && rel_after_remove(
                    old(self).effected_by@,
                    old(self).effects@[e].target,
                    id,
                    final(self).effected_by@,
                ),
            final(self).next_id == old(self).next_id,
            final(self).registry == old(self).registry,
            final(self).pending@ == old(self).pending@,
    {
        let fe = self.find_effect(id);
        let ei = match fe {
            None => {
                return false;
            },
            Some(ei) => ei,
        };
        let ghost pre = *old(self);
        let target = self.effects[ei].target;
        let _removed = self.effects.remove(ei);

        // Find the target's relation record; the invariant guarantees one.
        let mut i: usize = 0;
        let mut rfound: Option<usize> = None;
        while i < self.effected_by.len()
            invariant
                self.effected_by@ == pre.effected_by@,
                0 <= i <= self.effected_by@.len(),
                match rfound {
                    Some(fi) => fi < self.effected_by@.len()
                        && self.effected_by@[fi as int].target == target,
                    None => forall|j: int|
                        0 <= j < i ==> (#[trigger] self.effected_by@[j]).target != target,
                },
            decreases self.effected_by@.len() - i,
        {
            if rfound.is_none() && self.effected_by[i].target == target {
                rfound = Some(i);
            }
            i = i + 1;
        }
        let fi = match rfound {
            None => {
                proof {
                    assert(pre.listed_in_rel(pre.effects@[ei as int].target, id));
                    let w = choose|w: int|
                        0 <= w < pre.effected_by@.len() && (#[trigger] pre.effected_by@[w]).target
                            == target && pre.effected_by@[w].effect_ids@.contains(id);
                    assert(false);
                }
                return false;
            },
            Some(fi) => fi,
        };

        // Take the id out of the record.
        let mut entry = self.effected_by.remove(fi);
        let mut k: usize = 0;
        let mut kfound: Option<usize> = None;
        let ghost entry0 = entry;
        while k < entry.effect_ids.len()
            invariant
                entry == entry0,
                0 <= k <= entry.effect_ids@.len(),
                match kfound {
                    Some(kf) => kf < entry.effect_ids@.len()
                        && entry.effect_ids@[kf as int] == id,
                    None => forall|j: int|
                        0 <= j < k ==> entry.effect_ids@[j] != id,
                },
            decreases entry.effect_ids@.len() - k,
        {
            if kfound.is_none() && entry.effect_ids[k] == id {
                kfound = Some(k);
            }
            k = k + 1;
        }
        let kf = match kfound {
            None => {
                proof {
                    assert(pre.listed_in_rel(pre.effects@[ei as int].target, id));
                    let w = choose|w: int|
                        0 <= w < pre.effected_by@.len() && (#[trigger] pre.effected_by@[w]).target
                            == target && pre.effected_by@[w].effect_ids@.contains(id);
                    assert(w == fi);
                    let kw = choose|kw: int|
                        0 <= kw < pre.effected_by@[fi as int].effect_ids@.len()
                            && pre.effected_by@[fi as int].effect_ids@[kw] == id;
                    assert(false);
                }
                return false;
            },
            Some(kf) => kf,
        };
        let _ = entry.effect_ids.remove(kf);
        let ghost entry_v = entry;
        self.effected_by.insert(fi, entry);

        proof {
            assert(self.effected_by@ =~= pre.effected_by@.update(fi as int, entry_v));
            assert(exists|kk: int|
                0 <= kk < pre.effected_by@[fi as int].effect_ids@.len()
                    && pre.effected_by@[fi as int].effect_ids@[kk] == id
                    && self.effected_by@[fi as int].effect_ids@
                        == #[trigger] pre.effected_by@[fi as int].effect_ids@.remove(kk));
            self.lemma_despawn_wf(pre, ei as int, fi as int, id, target);
            assert(0 <= ei < pre.effects@.len() && pre.effects@[ei as int].id == id
                && self.effects@ == pre.effects@.remove(ei as int));
        }
        true
    }

    /// The invariant-preservation argument for destroying one instance and
    /// delisting it from its target's relation record.
    proof fn lemma_despawn_wf(self, pre: EffectWorld, ei: int, fi: int, id: u64, target: u64)
        requires
            pre.wf(),
            0 <= ei < pre.effects@.len(),
            pre.effects@[ei].id == id,
            pre.effects@[ei].target == target,
            self.effects@ == pre.effects@.remove(ei),
            0 <= fi < pre.effected_by@.len(),
            pre.effected_by@[fi].target == target,
            exists|kk: int|
                0 <= kk < pre.effected_by@[fi].effect_ids@.len()
                    && pre.effected_by@[fi].effect_ids@[kk] == id && self.effected_by@[fi].effect_ids@
                    == #[trigger] pre.effected_by@[fi].effect_ids@.remove(kk),
            self.effected_by@.len() == pre.effected_by@.len(),
            self.effected_by@[fi].target == target,
            forall|j: int|
                0 <= j < pre.effected_by@.len() && j != fi ==> self.effected_by@[j]
                    == pre.effected_by@[j],
            self.next_id == pre.next_id,
            self.registry == pre.registry,
            self.pending@ == pre.pending@,
        ensures
            self.wf(),
            rel_after_remove(pre.effected_by@, target, id, self.effected_by@),
    {
        let es = self.effects@;
        let pes = pre.effects@;
        let rs = self.effected_by@;
        let prs = pre.effected_by@;
        let kk = choose|kk: int|
            0 <= kk < prs[fi].effect_ids@.len() && prs[fi].effect_ids@[kk] == id
                && rs[fi].effect_ids@ == #[trigger] prs[fi].effect_ids@.remove(kk);

        // how the instance store shifted
        assert(es.len() == pes.len() - 1);
        assert(forall|j: int| 0 <= j < ei ==> es[j] == pes[j]);
        assert(forall|j: int| ei <= j < es.len() ==> es[j] == pes[j + 1]);

        // instance invariants survive on the sub-store
        assert forall|j: int| 0 <= j < es.len() implies (#[trigger] es[j]).wf() by {
            if j < ei {
                assert(pes[j].wf());
            } else {
                assert(pes[j + 1].wf());
            }
        }
        assert forall|p: int, q: int|
            0 <= p < es.len() && 0 <= q < es.len() && p != q implies es[p].id != es[q].id by {
            let p0 = if p < ei {
                p
            } else {
                p + 1
            };
            let q0 = if q < ei {
                q
            } else {
                q + 1
            };
            assert(pes[p0].id != pes[q0].id);
        }
        assert forall|j: int| 0 <= j < es.len() implies (#[trigger] es[j]).id < self.next_id by {
            let j0 = if j < ei {
                j
            } else {
                j + 1
            };
            assert(pes[j0].id < pre.next_id);
        }
        assert forall|p: int, q: int|
            0 <= p < es.len() && 0 <= q < es.len() && p != q && (#[trigger] es[p]).target
                == (#[trigger] es[q]).target && es[p].name@ == es[q].name@ && es[p].mode
                == es[q].mode implies es[p].mode == EffectMode::Stack by {
            let p0 = if p < ei {
                p
            } else {
                p + 1
            };
            let q0 = if q < ei {
                q
            } else {
                q + 1
            };
            assert(es[p] == pes[p0] && es[q] == pes[q0]);
        }

        // the removed id is listed nowhere else
        assert forall|j: int, w: int|
            0 <= j < prs.len() && 0 <= w < prs[j].effect_ids@.len() && prs[j].effect_ids@[w]
                == id implies j == fi && w == kk by {
            assert(pre.has_effect(prs[j].effect_ids@[w], prs[j].target));
            let e0 = choose|e0: int|
                0 <= e0 < pes.len() && (#[trigger] pes[e0]).id == id && pes[e0].target
                    == prs[j].target;
            assert(e0 == ei);
            assert(prs[j].target == target);
            assert(j == fi);
            if w != kk {
                assert(prs[fi].effect_ids@[w] != prs[fi].effect_ids@[kk]);
            }
        }

        // relation-record invariants
        assert forall|p: int, q: int|
            0 <= p < rs.len() && 0 <= q < rs.len() && p != q implies rs[p].target
            != rs[q].target by {
            assert(forall|j: int| 0 <= j < prs.len() ==> rs[j].target == prs[j].target);
            assert(prs[p].target != prs[q].target);
        }
        assert forall|r_i: int, p: int, q: int|
            0 <= r_i < rs.len() && 0 <= p < rs[r_i].effect_ids@.len() && 0 <= q
                < rs[r_i].effect_ids@.len() && p != q implies rs[r_i].effect_ids@[p]
            != rs[r_i].effect_ids@[q] by {
            if r_i == fi {
                let pids = prs[fi].effect_ids@;
                let p0 = if p < kk {
                    p
                } else {
                    p + 1
                };
                let q0 = if q < kk {
                    q
                } else {
                    q + 1
                };
                assert(rs[fi].effect_ids@[p] == pids[p0] && rs[fi].effect_ids@[q] == pids[q0]);
                assert(pids[p0] != pids[q0]);
            } else {
                assert(rs[r_i] == prs[r_i]);
                assert(prs[r_i].effect_ids@[p] != prs[r_i].effect_ids@[q]);
            }
        }

        // every listed id is still live
        assert forall|r_i: int, w: int|
            0 <= r_i < rs.len() && 0 <= w < rs[r_i].effect_ids@.len() implies self.has_effect(
            #[trigger] rs[r_i].effect_ids@[w],
            rs[r_i].target,
        ) by {
            let listed = rs[r_i].effect_ids@[w];
            let w0 = if r_i == fi {
                if w < kk {
                    w
                } else {
                    w + 1
                }
            } else {
                w
            };
            assert(listed == prs[r_i].effect_ids@[w0]);
            assert(!(r_i == fi && w0 == kk));
            assert(listed != id);
            assert(pre.has_effect(listed, prs[r_i].target));
            let e0 = choose|e0: int|
                0 <= e0 < pes.len() && (#[trigger] pes[e0]).id == listed && pes[e0].target
                    == prs[r_i].target;
            assert(e0 != ei);
            let e1 = if e0 < ei {
                e0
            } else {
                e0 - 1
            };
            assert(es[e1] == pes[e0]);
            assert(0 <= e1 < es.len() && es[e1].id == listed && es[e1].target == rs[r_i].target);
        }

        // every live instance is still listed
        assert forall|e: int| 0 <= e < es.len() implies self.listed_in_rel(
            (#[trigger] es[e]).target,
            es[e].id,
        ) by {
            let e0 = if e < ei {
                e
            } else {
                e + 1
            };
            assert(es[e] == pes[e0]);
            assert(pes[e0].id != pes[ei].id);
            assert(pre.listed_in_rel(pes[e0].target, pes[e0].id));
            let r_i = choose|r_i: int|
                0 <= r_i < prs.len() && (#[trigger] prs[r_i]).target == pes[e0].target
                    && prs[r_i].effect_ids@.contains(pes[e0].id);
            if r_i == fi {
                let pids = prs[fi].effect_ids@;
                let w = choose|w: int| 0 <= w < pids.len() && pids[w] == pes[e0].id;
                assert(w != kk);
                let w1 = if w < kk {
                    w
                } else {
                    w - 1
                };
                assert(rs[fi].effect_ids@[w1] == pids[w]);
                assert(rs[fi].effect_ids@.contains(pes[e0].id));
                assert(0 <= fi < rs.len() && rs[fi].target == es[e].target
                    && rs[fi].effect_ids@.contains(es[e].id));
            } else {
                assert(rs[r_i] == prs[r_i]);
                assert(0 <= r_i < rs.len() && rs[r_i].target == es[e].target
                    && rs[r_i].effect_ids@.contains(es[e].id));
            }
        }

        // queued bundles are untouched
        assert forall|j: int| 0 <= j < self.pending@.len() implies (#[trigger] self.pending@[j]).bundle.wf() by {
            assert(self.pending@[j] == pre.pending@[j]);
            assert(pre.pending@[j].bundle.wf());
        }

        // the bookkeeping clause
        assert(rel_after_remove(prs, target, id, rs)) by {
            assert(0 <= fi < prs.len() && prs[fi].target == target && rs[fi].target == target);
            assert(0 <= kk < prs[fi].effect_ids@.len() && prs[fi].effect_ids@[kk] == id
                && rs[fi].effect_ids@ == prs[fi].effect_ids@.remove(kk));
        }
    }

    /// The invariant survives any rewrite of the instance store that keeps
    /// every instance's id, target, identity and mode, and leaves each
    /// instance well-formed.
    proof fn lemma_pointwise_rewrite_wf(self, pre: EffectWorld)
        requires
            pre.wf(),
            self.effects@.len() == pre.effects@.len(),
            forall|j: int|
                0 <= j < pre.effects@.len() ==> (#[trigger] self.effects@[j]).id
                    == pre.effects@[j].id && self.effects@[j].target == pre.effects@[j].target
                    && self.effects@[j].name@ == pre.effects@[j].name@ && self.effects@[j].mode
                    == pre.effects@[j].mode && self.effects@[j].wf(),
            self.next_id == pre.next_id,
            self.effected_by@ == pre.effected_by@,
            self.registry == pre.registry,
            self.pending@ == pre.pending@,
        ensures
            self.wf(),
    {
        let es = self.effects@;
        let pes = pre.effects@;
        assert forall|p: int, q: int|
            0 <= p < es.len() && 0 <= q < es.len() && p != q implies es[p].id != es[q].id by {
            assert(pes[p].id != pes[q].id);
        }
        assert forall|j: int| 0 <= j < es.len() implies (#[trigger] es[j]).id < self.next_id by {
            assert(pes[j].id < pre.next_id);
        }
        assert forall|p: int, q: int|
            0 <= p < es.len() && 0 <= q < es.len() && p != q && (#[trigger] es[p]).target
                == (#[trigger] es[q]).target && es[p].name@ == es[q].name@ && es[p].mode
                == es[q].mode implies es[p].mode == EffectMode::Stack by {
            assert(pes[p].target == pes[q].target && pes[p].name@ == pes[q].name@ && pes[p].mode
                == pes[q].mode);
        }
        assert forall|r_i: int, k: int|
            0 <= r_i < self.effected_by@.len() && 0 <= k
                < self.effected_by@[r_i].effect_ids@.len() implies self.has_effect(
            #[trigger] self.effected_by@[r_i].effect_ids@[k],
            self.effected_by@[r_i].target,
        ) by {
            let listed = self.effected_by@[r_i].effect_ids@[k];
            let t = self.effected_by@[r_i].target;
            assert(pre.effected_by@[r_i].effect_ids@[k] == listed);
            assert(pre.has_effect(listed, t));
            let e = choose|e: int|
                0 <= e < pre.effects@.len() && (#[trigger] pre.effects@[e]).id == listed
                    && pre.effects@[e].target == t;
            assert(0 <= e < es.len() && es[e].id == listed && es[e].target == t);
        }
        assert forall|e: int| 0 <= e < es.len() implies self.listed_in_rel(
            (#[trigger] es[e]).target,
            es[e].id,
        ) by {
            assert(pre.listed_in_rel(pes[e].target, pes[e].id));
            pre.lemma_listed_in_rel_carry(self, pes[e].target, pes[e].id);
        }
        assert forall|j: int| 0 <= j < self.pending@.len() implies (#[trigger] self.pending@[j]).bundle.wf() by {
            assert(self.pending@[j] == pre.pending@[j]);
            assert(pre.pending@[j].bundle.wf());
        }
    }

    /// Advances every lifetime timer by `delta_ms`, leaving everything else
    /// in place.
    fn tick_lifetimes(&mut self, delta_ms: u64)
        requires
            old(self).wf(),
        ensures
            final(self).wf(),
            final(self).effects@.len() == old(self).effects@.len(),
            forall|j: int|
                0 <= j < old(self).effects@.len() ==> lifetime_ticked(
                    #[trigger] final(self).effects@[j],
                    old(self).effects@[j],
                    delta_ms,
                ),
            final(self).next_id == old(self).next_id,
            final(self).effected_by@ == old(self).effected_by@,
            final(self).registry == old(self).registry,
            final(self).pending@ == old(self).pending@,
    {
        let mut i: usize = 0;
        while i < self.effects.len()
            invariant
                old(self).wf(),
                self.effects@.len() == old(self).effects@.len(),
                0 <= i <= self.effects@.len(),
                forall|j: int|
                    0 <= j < i ==> lifetime_ticked(
                        #[trigger] self.effects@[j],
                        old(self).effects@[j],
                        delta_ms,
                    ) && self.effects@[j].wf(),
                forall|j: int|
                    i <= j < self.effects@.len() ==> self.effects@[j] == old(self).effects@[j],
                self.next_id == old(self).next_id,
                self.effected_by@ == old(self).effected_by@,
                self.registry == old(self).registry,
                self.pending@ == old(self).pending@,
            decreases self.effects@.len() - i,
        {
            let ghost prev = self.effects@;
            let mut e = self.effects.remove(i);
            match e.lifetime {
                Some(l) => {
                    let mut l2 = l;
                    l2.timer.tick(delta_ms);
                    e.lifetime = Some(l2);
                },
                None => {},
            }
            let ghost ev = e;
            self.effects.insert(i, e);
            proof {
                assert(self.effects@ =~= prev.update(i as int, ev));
                assert(prev[i as int] == old(self).effects@[i as int]);
                assert(old(self).effects@[i as int].wf());
                assert(lifetime_ticked(ev, old(self).effects@[i as int], delta_ms));
                assert(ev.wf());
            }
            i = i + 1;
        }
        proof {
            self.lemma_pointwise_rewrite_wf(*old(self));
        }
    }

    /// Advances every delay timer by the frame's elapsed milliseconds.
    /// Delay timers never destroy their effect; game logic reads them to
    /// gate repeated actions.
    pub fn tick_delay(&mut self, delta_ms: u64)
        requires
            old(self).wf(),
        ensures
            final(self).wf(),
            final(self).effects@.len() == old(self).effects@.len(),
            forall|j: int|
                0 <= j < old(self).effects@.len() ==> delay_ticked(
                    #[trigger] final(self).effects@[j],
                    old(self).effects@[j],
                    delta_ms,
                ),
            final(self).next_id == old(self).next_id,
            final(self).effected_by@ == old(self).effected_by@,
            final(self).registry == old(self).registry,
            final(self).pending@ == old(self).pending@,
    {
        let mut i: usize = 0;
        while i < self.effects.len()
            invariant
                old(self).wf(),
                self.effects@.len() == old(self).effects@.len(),
                0 <= i <= self.effects@.len(),
                forall|j: int|
                    0 <= j < i ==> delay_ticked(
                        #[trigger] self.effects@[j],
                        old(self).effects@[j],
                        delta_ms,
                    ) && self.effects@[j].wf(),
                forall|j: int|
                    i <= j < self.effects@.len() ==> self.effects@[j] == old(self).effects@[j],
                self.next_id == old(self).next_id,
                self.effected_by@ == old(self).effected_by@,
                self.registry == old(self).registry,
                self.pending@ == old(self).pending@,
            decreases self.effects@.len() - i,
        {
            let ghost prev = self.effects@;
            let mut e = self.effects.remove(i);
            match e.delay {
                Some(d) => {
                    let mut d2 = d;
                    d2.timer.tick(delta_ms);
                    e.delay = Some(d2);
                },
                None => {},
            }
            let ghost ev = e;
            self.effects.insert(i, e);
            proof {
                assert(self.effects@ =~= prev.update(i as int, ev));
                assert(prev[i as int] == old(self).effects@[i as int]);
                assert(old(self).effects@[i as int].wf());
                assert(delay_ticked(ev, old(self).effects@[i as int], delta_ms));
                assert(ev.wf());
            }
            i = i + 1;
        }
        proof {
            self.lemma_pointwise_rewrite_wf(*old(self));
        }
    }

    /// The ids of the instances whose lifetime has already run out,
    /// together with a ghost list of their positions.
    fn collect_expired(&self) -> (res: (Vec<u64>, Ghost<Seq<int>>))
        requires
            self.wf(),
        ensures
            res.1@.len() == res.0@.len(),
            forall|p: int|
                #![trigger res.0@[p]]
                #![trigger res.1@[p]]
                0 <= p < res.0@.len() ==> 0 <= res.1@[p] < self.effects@.len()
                    && is_expired_now(self.effects@[res.1@[p]])
                    && self.effects@[res.1@[p]].id == res.0@[p],
            forall|e: int|
                0 <= e < self.effects@.len() && is_expired_now(#[trigger] self.effects@[e])
                    ==> res.0@.contains(self.effects@[e].id),
            forall|p: int, q: int|
                0 <= p < res.0@.len() && 0 <= q < res.0@.len() && p != q ==> res.0@[p]
                    != res.0@[q],
    {
        let mut expired: Vec<u64> = Vec::new();
        let ghost mut eidx: Seq<int> = Seq::empty();
        let mut i: usize = 0;
        while i < self.effects.len()
            invariant
                self.wf(),
                0 <= i <= self.effects@.len(),
                eidx.len() == expired@.len(),
                forall|p: int|
                    #![trigger expired@[p]]
                    #![trigger eidx[p]]
                    0 <= p < expired@.len() ==> 0 <= eidx[p] < i && is_expired_now(
                        self.effects@[eidx[p]],
                    ) && self.effects@[eidx[p]].id == expired@[p],
                forall|p: int, q: int| 0 <= p < q < eidx.len() ==> eidx[p] < eidx[q],
                forall|e: int|
                    0 <= e < i && is_expired_now(#[trigger] self.effects@[e])
                        ==> expired@.contains(self.effects@[e].id),
            decreases self.effects@.len() - i,
        {
            let ghost expired_prev = expired@;
            let ghost eidx_prev = eidx;
            let lt = self.effects[i].lifetime;
            let ex = match lt {
                Some(l) => l.timer.elapsed_ms >= l.timer.duration_ms,
                None => false,
            };
            proof {
                assert(ex == is_expired_now(self.effects@[i as int]));
            }
            if ex {
                expired.push(self.effects[i].id);
                proof {
                    eidx = eidx.push(i as int);
                }
            }
            proof {
                assert forall|p: int|
                    #![trigger expired@[p]]
                    #![trigger eidx[p]]
                    0 <= p < expired@.len() implies 0 <= eidx[p] < i + 1 && is_expired_now(
                    self.effects@[eidx[p]],
                ) && self.effects@[eidx[p]].id == expired@[p] by {
                    if p < expired_prev.len() {
                        assert(eidx[p] == eidx_prev[p] && expired@[p] == expired_prev[p]);
                        assert(self.effects@[eidx_prev[p]].id == expired_prev[p]);
                    } else {
                        assert(ex);
                        assert(eidx[p] == i as int && expired@[p] == self.effects@[i as int].id);
                    }
                }
                assert forall|p: int, q: int| 0 <= p < q < eidx.len() implies eidx[p]
                    < eidx[q] by {
                    if q < eidx_prev.len() {
                        assert(eidx[p] == eidx_prev[p] && eidx[q] == eidx_prev[q]);
                    } else {
                        assert(eidx[q] == i as int);
                        assert(self.effects@[eidx_prev[p]].id == expired_prev[p]);
                        assert(eidx[p] == eidx_prev[p] && eidx_prev[p] < i);
                    }
                }
                assert forall|e: int|
                    0 <= e < i + 1 && is_expired_now(#[trigger] self.effects@[e]) implies expired@.contains(
                    self.effects@[e].id,
                ) by {
                    if e < i {
                        if ex {
                            lemma_contains_after_push(expired_prev, expired@, self.effects@[e].id);
                        } else {
                            assert(expired@ == expired_prev);
                        }
                    } else {
                        assert(ex);
                        assert(expired@[expired_prev.len() as int] == self.effects@[i as int].id);
                    }
                }
            }
            i = i + 1;
        }
        proof {
            assert forall|p: int, q: int|
                0 <= p < expired@.len() && 0 <= q < expired@.len() && p != q implies expired@[p]
                != expired@[q] by {
                assert(0 <= eidx[p] < self.effects@.len() && self.effects@[eidx[p]].id
                    == expired@[p]);
                assert(0 <= eidx[q] < self.effects@.len() && self.effects@[eidx[q]].id
                    == expired@[q]);
                assert(eidx[p] != eidx[q]);
                assert(self.effects@[eidx[p]].id != self.effects@[eidx[q]].id);
            }
        }
        (expired, Ghost(eidx))
    }

    /// Destroys the instances carrying the listed ids. The ghost result
    /// maps each old position to its new one (or -1 when destroyed) and
    /// each new position back to its old one.
    fn despawn_ids(&mut self, expired: &Vec<u64>) -> (w: Ghost<(Seq<int>, Seq<int>)>)
        requires
            old(self).wf(),
            forall|p: int, q: int|
                0 <= p < expired@.len() && 0 <= q < expired@.len() && p != q ==> expired@[p]
                    != expired@[q],
        ensures
            final(self).wf(),
            w@.0.len() == old(self).effects@.len(),
            w@.1.len() == final(self).effects@.len(),
            forall|e: int|
                #![trigger w@.0[e]]
                #![trigger old(self).effects@[e]]
                0 <= e < w@.0.len() ==> (if w@.0[e] == -1 {
                    expired@.contains(old(self).effects@[e].id)
                } else {
                    0 <= w@.0[e] < final(self).effects@.len() && final(self).effects@[w@.0[e]]
                        == old(self).effects@[e] && !expired@.contains(old(self).effects@[e].id)
                }),
            forall|j: int|
                #![trigger w@.1[j]]
                #![trigger final(self).effects@[j]]
                0 <= j < w@.1.len() ==> 0 <= w@.1[j] < old(self).effects@.len()
                    && final(self).effects@[j] == old(self).effects@[w@.1[j]]
                    && !expired@.contains(old(self).effects@[w@.1[j]].id),
            final(self).next_id == old(self).next_id,
            final(self).registry == old(self).registry,
            final(self).pending@ == old(self).pending@,
    {
        let ghost mid = *old(self);
        let ghost mut pos: Seq<int> = Seq::new(mid.effects@.len(), |e: int| e);
        let ghost mut src: Seq<int> = Seq::new(mid.effects@.len(), |j: int| j);
        let mut n: usize = 0;
        while n < expired.len()
            invariant
                self.wf(),
                mid.wf(),
                0 <= n <= expired@.len(),
                forall|p: int, q: int|
                    0 <= p < expired@.len() && 0 <= q < expired@.len() && p != q ==> expired@[p]
                        != expired@[q],
                pos.len() == mid.effects@.len(),
                src.len() == self.effects@.len(),
                forall|e: int|
                    #![trigger pos[e]]
                    #![trigger mid.effects@[e]]
                    0 <= e < pos.len() ==> (if pos[e] == -1 {
                        expired@.subrange(0, n as int).contains(mid.effects@[e].id)
                    } else {
                        0 <= pos[e] < self.effects@.len() && self.effects@[pos[e]]
                            == mid.effects@[e] && !expired@.subrange(0, n as int).contains(
                            mid.effects@[e].id,
                        )
                    }),
                forall|j: int|
                    #![trigger src[j]]
                    #![trigger self.effects@[j]]
                    0 <= j < src.len() ==> 0 <= src[j] < mid.effects@.len()
                        && self.effects@[j] == mid.effects@[src[j]] && pos[src[j]] == j,
                self.next_id == mid.next_id,
                self.registry == mid.registry,
                self.pending@ == mid.pending@,
            decreases expired@.len() - n,
        {
            let ghost sn = *self;
            let ghost pos0 = pos;
            let ghost src0 = src;
            let id = expired[n];
            let found = self.despawn_effect(id);
            proof {
                let subn = expired@.subrange(0, n as int);
                let subn1 = expired@.subrange(0, n as int + 1);
                assert(forall|p: int| 0 <= p < n ==> subn1[p] == #[trigger] subn[p]);
                assert(subn1[n as int] == id);
                if found {
                    let er = choose|er: int|
                        0 <= er < sn.effects@.len() && (#[trigger] sn.effects@[er]).id == id
                            && self.effects@ == sn.effects@.remove(er);
                    assert(forall|j: int| 0 <= j < er ==> self.effects@[j] == sn.effects@[j]);
                    assert(forall|j: int|
                        er <= j < self.effects@.len() ==> self.effects@[j] == sn.effects@[j + 1]);
                    pos = Seq::new(
                        pos0.len(),
                        |e: int|
                            if pos0[e] == er {
                                -1
                            } else if pos0[e] > er {
                                pos0[e] - 1
                            } else {
                                pos0[e]
                            },
                    );
                    src = src0.remove(er);
                    assert forall|e: int|
                        #![trigger pos[e]]
                        #![trigger mid.effects@[e]]
                        0 <= e < pos.len() implies (if pos[e] == -1 {
                        subn1.contains(mid.effects@[e].id)
                    } else {
                        0 <= pos[e] < self.effects@.len() && self.effects@[pos[e]]
                            == mid.effects@[e] && !subn1.contains(mid.effects@[e].id)
                    }) by {
                        assert(pos.len() == pos0.len());
                        if pos0[e] == -1 {
                            assert(subn.contains(mid.effects@[e].id));
                            lemma_subrange_contains_grow(expired@, n as int, mid.effects@[e].id);
                        } else if pos0[e] == er {
                            assert(sn.effects@[er] == mid.effects@[e]);
                            assert(mid.effects@[e].id == id);
                            lemma_subrange_contains_step(expired@, n as int);
                        } else {
                            assert(sn.effects@[pos0[e]] == mid.effects@[e]);
                            assert(sn.effects@[pos0[e]].id != sn.effects@[er].id);
                            assert(mid.effects@[e].id != id);
                            if pos0[e] < er {
                                assert(self.effects@[pos0[e]] == sn.effects@[pos0[e]]);
                            } else {
                                assert(self.effects@[pos0[e] - 1] == sn.effects@[pos0[e]]);
                            }
                            if subn1.contains(mid.effects@[e].id) {
                                lemma_subrange_contains_shrink(
                                    expired@,
                                    n as int,
                                    mid.effects@[e].id,
                                );
                            }
                        }
                    }
                    assert forall|j: int|
                        #![trigger src[j]]
                        #![trigger self.effects@[j]]
                        0 <= j < src.len() implies 0 <= src[j] < mid.effects@.len()
                        && self.effects@[j] == mid.effects@[src[j]] && pos[src[j]] == j by {
                        let j0 = if j < er {
                            j
                        } else {
                            j + 1
                        };
                        assert(0 <= j0 < src0.len());
                        assert(src[j] == src0[j0]);
                        assert(0 <= src0[j0] < mid.effects@.len() && sn.effects@[j0]
                            == mid.effects@[src0[j0]] && pos0[src0[j0]] == j0);
                        assert(self.effects@[j] == sn.effects@[j0]);
                        assert(pos[src0[j0]] == (if pos0[src0[j0]] == er {
                            -1
                        } else if pos0[src0[j0]] > er {
                            pos0[src0[j0]] - 1
                        } else {
                            pos0[src0[j0]]
                        }));
                    }
                } else {
                    assert(*self == sn);
                    assert forall|e: int|
                        #![trigger pos[e]]
                        #![trigger mid.effects@[e]]
                        0 <= e < pos.len() implies (if pos[e] == -1 {
                        subn1.contains(mid.effects@[e].id)
                    } else {
                        0 <= pos[e] < self.effects@.len() && self.effects@[pos[e]]
                            == mid.effects@[e] && !subn1.contains(mid.effects@[e].id)
                    }) by {
                        if pos[e] == -1 {
                            assert(subn.contains(mid.effects@[e].id));
                            lemma_subrange_contains_grow(expired@, n as int, mid.effects@[e].id);
                        } else {
                            assert(mid.effects@[e].id != id) by {
                                if mid.effects@[e].id == id {
                                    assert(sn.effects@[pos[e]].id == id);
                                }
                            }
                            if subn1.contains(mid.effects@[e].id) {
                                lemma_subrange_contains_shrink(
                                    expired@,
                                    n as int,
                                    mid.effects@[e].id,
                                );
                            }
                        }
                    }
                }
            }
            n = n + 1;
        }
        proof {
            assert(expired@.subrange(0, expired@.len() as int) =~= expired@);
        }
        Ghost((pos, src))
    }

    /// The lifetime step of per-frame maintenance: advances every lifetime
    /// timer by the frame's elapsed milliseconds, then destroys every
    /// instance whose lifetime has run out, delisting each from its
    /// target's relation record. Surviving instances keep everything but
    /// their advanced lifetime.
    pub fn despawn_finished_lifetimes(&mut self, delta_ms: u64) -> (w: Ghost<Seq<int>>)
        requires
            old(self).wf(),
        ensures
            final(self).wf(),
            forall|e: int|
                0 <= e < old(self).effects@.len() && !lifetime_expires(
                    #[trigger] old(self).effects@[e],
                    delta_ms,
                ) ==> exists|j: int|
                    0 <= j < final(self).effects@.len() && lifetime_ticked(
                        #[trigger] final(self).effects@[j],
                        old(self).effects@[e],
                        delta_ms,
                    ),
            forall|e: int, j: int|
                0 <= e < old(self).effects@.len() && lifetime_expires(
                    #[trigger] old(self).effects@[e],
                    delta_ms,
                ) && 0 <= j < final(self).effects@.len() ==> (#[trigger] final(self).effects@[j]).id
                    != old(self).effects@[e].id,
            w@.len() == final(self).effects@.len(),
            forall|j: int|
                #![trigger w@[j]]
                0 <= j < w@.len() ==> 0 <= w@[j] < old(self).effects@.len()
                    && !lifetime_expires(old(self).effects@[w@[j]], delta_ms) && lifetime_ticked(
                    final(self).effects@[j],
                    old(self).effects@[w@[j]],
                    delta_ms,
                ),
            final(self).next_id == old(self).next_id,
            final(self).registry == old(self).registry,
            final(self).pending@ == old(self).pending@,
    {
        self.tick_lifetimes(delta_ms);
        let ghost pre = *old(self);
        let ghost mid = *self;
        proof {
            assert forall|e: int| 0 <= e < pre.effects@.len() implies is_expired_now(
                #[trigger] mid.effects@[e],
            ) == lifetime_expires(pre.effects@[e], delta_ms) by {
                assert(lifetime_ticked(mid.effects@[e], pre.effects@[e], delta_ms));
            }
        }
        let r = self.collect_expired();
        let expired = r.0;
        let ghost eidx = r.1@;
        let wit = self.despawn_ids(&expired);
        let ghost pos = wit@.0;
        let ghost src = wit@.1;
        proof {
            let fin = *self;
            assert forall|e: int|
                0 <= e < pre.effects@.len() && !lifetime_expires(
                    #[trigger] pre.effects@[e],
                    delta_ms,
                ) implies exists|j: int|
                0 <= j < fin.effects@.len() && lifetime_ticked(
                    #[trigger] fin.effects@[j],
                    pre.effects@[e],
                    delta_ms,
                ) by {
                assert(!is_expired_now(mid.effects@[e]));
                assert(pos[e] != -1) by {
                    if pos[e] == -1 {
                        assert(expired@.contains(mid.effects@[e].id));
                        let p = choose|p: int|
                            0 <= p < expired@.len() && expired@[p] == mid.effects@[e].id;
                        assert(mid.effects@[eidx[p]].id == expired@[p]);
                        assert(eidx[p] == e);
                        assert(is_expired_now(mid.effects@[e]));
                    }
                }
                assert(0 <= pos[e] < fin.effects@.len() && fin.effects@[pos[e]]
                    == mid.effects@[e]);
                assert(lifetime_ticked(fin.effects@[pos[e]], pre.effects@[e], delta_ms));
            }
            assert forall|e: int, j: int|
                0 <= e < pre.effects@.len() && lifetime_expires(
                    #[trigger] pre.effects@[e],
                    delta_ms,
                ) && 0 <= j < fin.effects@.len() implies (#[trigger] fin.effects@[j]).id
                != pre.effects@[e].id by {
                assert(is_expired_now(mid.effects@[e]));
                assert(expired@.contains(mid.effects@[e].id));
                assert(fin.effects@[j] == mid.effects@[src[j]]);
                if fin.effects@[j].id == pre.effects@[e].id {
                    assert(mid.effects@[src[j]].id == mid.effects@[e].id);
                    assert(src[j] == e);
                    assert(!expired@.contains(mid.effects@[e].id));
                }
            }
            assert forall|j: int|
                #![trigger src[j]]
                0 <= j < src.len() implies 0 <= src[j] < pre.effects@.len()
                && !lifetime_expires(pre.effects@[src[j]], delta_ms) && lifetime_ticked(
                fin.effects@[j],
                pre.effects@[src[j]],
                delta_ms,
            ) by {
                let e = src[j];
                assert(fin.effects@[j] == mid.effects@[e]);
                assert(!expired@.contains(mid.effects@[e].id));
                assert(!is_expired_now(mid.effects@[e]));
                assert(!lifetime_expires(pre.effects@[e], delta_ms));
                assert(lifetime_ticked(fin.effects@[j], pre.effects@[e], delta_ms));
            }
        }
        Ghost(src)
    }

    /// The command-flush phase: drains the pending queue, applying each
    /// queued effect in the order it was enqueued. No two applications
    /// interleave: each runs to completion before the next begins.
    pub fn flush(&mut self)
        requires
            old(self).wf(),
            old(self).next_id + old(self).pending@.len() <= u64::MAX,
        ensures
            final(self).wf(),
            final(self).pending@.len() == 0,
            flushes_to(*old(self), old(self).pending@, *final(self)),
    {
        let ghost pre = *old(self);
        let ghost all = old(self).pending@;
        let ghost mut done: int = 0;
        while self.pending.len() > 0
            invariant
                self.wf(),
                0 <= done,
                done + self.pending@.len() == all.len(),
                self.pending@ == all.subrange(done, all.len() as int),
                self.next_id + self.pending@.len() <= u64::MAX,
                flushes_to(pre, all.subrange(0, done), *self),
            decreases self.pending@.len(),
        {
            let ghost before = *self;
            let cmd = self.pending.remove(0);
            let ghost mid1 = *self;
            proof {
                assert(cmd == all[done]);
                assert(mid1.pending@ =~= all.subrange(done + 1, all.len() as int));
                before.lemma_rel_invariants_carry(mid1);
                assert forall|i: int|
                    0 <= i < mid1.pending@.len() implies (#[trigger] mid1.pending@[i]).bundle.wf() by {
                    assert(mid1.pending@[i] == before.pending@[i + 1]);
                    assert(before.pending@[i + 1].bundle.wf());
                }
                assert(mid1.wf());
                lemma_flushes_to_post_congruence(pre, all.subrange(0, done), before, mid1);
            }
            self.apply_effect(cmd.target, cmd.bundle);
            proof {
                lemma_flushes_to_snoc(pre, all.subrange(0, done), mid1, cmd, *self);
                assert(all.subrange(0, done).push(cmd) =~= all.subrange(0, done + 1));
                done = done + 1;
            }
        }
        proof {
            assert(all.subrange(0, done) =~= all);
        }
    }

    /// The ids of the effect instances currently acting on `target`, empty
    /// when no effect was ever applied to it (or all have been despawned).
    pub fn effects_of(&self, target: u64) -> (r: Vec<u64>)
        ensures
            (exists|i: int|
                0 <= i < self.effected_by@.len()
                    && (#[trigger] self.effected_by@[i]).target == target
                    && r@ == self.effected_by@[i].effect_ids@) || (r@.len() == 0
                && forall|i: int|
                0 <= i < self.effected_by@.len()
                    ==> (#[trigger] self.effected_by@[i]).target != target),
    {
        let mut i: usize = 0;
        while i < self.effected_by.len()
            invariant
                0 <= i <= self.effected_by@.len(),
                forall|j: int| 0 <= j < i ==> (#[trigger] self.effected_by@[j]).target != target,
            decreases self.effected_by@.len() - i,
        {
            if self.effected_by[i].target == target {
                let entry = &self.effected_by[i];
                let mut r: Vec<u64> = Vec::new();
                let mut k: usize = 0;
                while k < entry.effect_ids.len()
                    invariant
                        0 <= k <= entry.effect_ids@.len(),
                        r@ == entry.effect_ids@.subrange(0, k as int),
                    decreases entry.effect_ids@.len() - k,
                {
                    r.push(entry.effect_ids[k]);
                    proof {
                        assert(r@ =~= entry.effect_ids@.subrange(0, k as int + 1));
                    }
                    k = k + 1;
                }
                proof {
                    assert(r@ =~= entry.effect_ids@);
                }
                return r;
            }
            i = i + 1;
        }
        Vec::new()
    }

    /// The position of the live instance with the given id, if any.
    pub fn find_effect(&self, id: u64) -> (r: Option<usize>)
        ensures
            match r {
                Some(i) => 0 <= i < self.effects@.len() && self.effects@[i as int].id == id,
                None => forall|j: int| 0 <= j < self.effects@.len()
                    ==> (#[trigger] self.effects@[j]).id != id,
            },
    {
        let mut i: usize = 0;
        while i < self.effects.len()
            invariant
                0 <= i <= self.effects@.len(),
                forall|j: int| 0 <= j < i ==> (#[trigger] self.effects@[j]).id != id,
            decreases self.effects@.len() - i,
        {
            if self.effects[i].id == id {
                return Some(i);
            }
            i = i + 1;
        }
        None
    }

    /// The live instance with the given id, if any.
    pub fn get_effect(&self, id: u64) -> (r: Option<&EffectInstance>)
        ensures
            match r {
                Some(e) => e.id == id && exists|i: int|
                    0 <= i < self.effects@.len() && *e == self.effects@[i],
                None => forall|j: int| 0 <= j < self.effects@.len()
                    ==> (#[trigger] self.effects@[j]).id != id,
            },
    {
        match self.find_effect(id) {
            Some(i) => Some(&self.effects[i]),
            None => None,
        }
    }
}

} // verus!
