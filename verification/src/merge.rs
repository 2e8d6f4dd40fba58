//! How the data of two colliding effects combine.
//!
//! A `Replace`-mode collision needs nothing from here: the incoming payload
//! wholly replaces the old one. A `Merge`-mode collision first inserts the
//! incoming payload over the old one — incoming kinds win, kinds only on
//! the old side survive untouched, so the registered pass can still read
//! them — then lets every registered merge operation combine the superseded
//! value back into the surviving one; timers combine by their own merge
//! arithmetic.

use crate::assoc::{
    assoc_get, assoc_lookup, assoc_set, assoc_unique, lemma_assoc_lookup_at,
    lemma_assoc_lookup_none,
};
use crate::registry::{combine, combined_value, EffectMergeRegistry};
use crate::timer::{merged_delay, merged_lifetime, Delay, Lifetime};
use vstd::prelude::*;

verus! {

/// The value of payload kind `k` after the incoming payload `newp` is
/// inserted over the old payload `oldp`, the first step of a `Merge`-mode
/// collision: the incoming value if the kind is present there, else the
/// surviving old value.
pub open spec fn inserted_payload_value(k: u64, oldp: Seq<(u64, u64)>, newp: Seq<(u64, u64)>) -> Option<
    u64,
> {
    if assoc_lookup(newp, k) is Some {
        assoc_lookup(newp, k)
    } else {
        assoc_lookup(oldp, k)
    }
}

/// The value of payload kind `k` after a `Merge`-mode collision: for a kind
/// that was on the old payload and has a registered operation, the
/// operation combines the superseded old value into the inserted one; any
/// other kind keeps its inserted value.
pub open spec fn merged_payload_value(
    k: u64,
    oldp: Seq<(u64, u64)>,
    newp: Seq<(u64, u64)>,
    r: EffectMergeRegistry,
) -> Option<u64> {
    match (assoc_lookup(oldp, k), r.op_for(k), inserted_payload_value(k, oldp, newp)) {
        (Some(prev), Some(op), Some(cur)) => Some(combined_value(op, cur, prev)),
        _ => inserted_payload_value(k, oldp, newp),
    }
}

/// An exact copy of a payload list.
pub fn copy_payload(v: &Vec<(u64, u64)>) -> (r: Vec<(u64, u64)>)
    ensures
        r@ == v@,
{
    let mut r: Vec<(u64, u64)> = Vec::new();
    let mut i: usize = 0;
    while i < v.len()
        invariant
            0 <= i <= v@.len(),
            r@ == v@.subrange(0, i as int),
        decreases v@.len() - i,
    {
        r.push(v[i]);
        proof {
            assert(r@ =~= v@.subrange(0, i as int + 1));
        }
        i = i + 1;
    }
    proof {
        assert(r@ =~= v@);
    }
    r
}

/// Builds the payload left by inserting `newp` over `oldp`.
pub fn inserted_payload(oldp: &Vec<(u64, u64)>, newp: &Vec<(u64, u64)>) -> (r: Vec<(u64, u64)>)
    requires
        assoc_unique(oldp@),
        assoc_unique(newp@),
    ensures
        assoc_unique(r@),
        forall|k: u64| #[trigger] assoc_lookup(r@, k) == inserted_payload_value(k, oldp@, newp@),
{
    let mut r = copy_payload(newp);
    let mut i: usize = 0;
    while i < oldp.len()
        invariant
            assoc_unique(oldp@),
            assoc_unique(newp@),
            assoc_unique(r@),
            0 <= i <= oldp@.len(),
            forall|k: u64| #[trigger] assoc_lookup(r@, k) == (if assoc_lookup(newp@, k) is Some {
                assoc_lookup(newp@, k)
            } else if exists|j: int| 0 <= j < i && oldp@[j].0 == k {
                assoc_lookup(oldp@, k)
            } else {
                None
            }),
        decreases oldp@.len() - i,
    {
        let ghost r_before = r@;
        let (k, v) = oldp[i];
        let cur = assoc_get(&r, k);
        if cur.is_none() {
            assoc_set(&mut r, k, v);
        }
        proof {
            lemma_assoc_lookup_at(oldp@, k, i as int);
            assert forall|k2: u64| #[trigger] assoc_lookup(r@, k2) == (if assoc_lookup(
                newp@,
                k2,
            ) is Some {
                assoc_lookup(newp@, k2)
            } else if exists|j: int| 0 <= j < i + 1 && oldp@[j].0 == k2 {
                assoc_lookup(oldp@, k2)
            } else {
                None
            }) by {
                if k2 == k {
                    assert(oldp@[i as int].0 == k2);
                } else {
                    assert((exists|j: int| 0 <= j < i + 1 && oldp@[j].0 == k2) == (exists|j: int|
                        0 <= j < i && oldp@[j].0 == k2)) by {
                        if exists|j: int| 0 <= j < i + 1 && oldp@[j].0 == k2 {
                            let j = choose|j: int| 0 <= j < i + 1 && oldp@[j].0 == k2;
                            assert(j != i);
                            assert(0 <= j < i && oldp@[j].0 == k2);
                        }
                    }
                }
            }
        }
        i = i + 1;
    }
    proof {
        assert forall|k: u64| #[trigger] assoc_lookup(r@, k) == inserted_payload_value(
            k,
            oldp@,
            newp@,
        ) by {
            if exists|j: int| 0 <= j < oldp@.len() && oldp@[j].0 == k {
                let j = choose|j: int| 0 <= j < oldp@.len() && oldp@[j].0 == k;
                lemma_assoc_lookup_at(oldp@, k, j);
            } else {
                lemma_assoc_lookup_none(oldp@, k);
            }
        }
    }
    r
}

/// Builds the payload left by a `Merge`-mode collision: insertion first,
/// then every registered operation combines the superseded old value into
/// the surviving one.
pub fn merged_payload(
    oldp: &Vec<(u64, u64)>,
    newp: &Vec<(u64, u64)>,
    reg: &EffectMergeRegistry,
) -> (r: Vec<(u64, u64)>)
    requires
        assoc_unique(oldp@),
        assoc_unique(newp@),
        reg.wf(),
    ensures
        assoc_unique(r@),
        forall|k: u64| #[trigger] assoc_lookup(r@, k) == merged_payload_value(
            k,
            oldp@,
            newp@,
            *reg,
        ),
{
    let mut r = inserted_payload(oldp, newp);
    let mut i: usize = 0;
    while i < oldp.len()
        invariant
            assoc_unique(oldp@),
            assoc_unique(newp@),
            assoc_unique(r@),
            reg.wf(),
            0 <= i <= oldp@.len(),
            forall|k: u64| #[trigger] assoc_lookup(r@, k) == (if (exists|j: int|
                0 <= j < i && oldp@[j].0 == k) && reg.op_for(k) is Some {
                merged_payload_value(k, oldp@, newp@, *reg)
            } else {
                inserted_payload_value(k, oldp@, newp@)
            }),
        decreases oldp@.len() - i,
    {
        let (k, prev) = oldp[i];
        proof {
            lemma_assoc_lookup_at(oldp@, k, i as int);
        }
        match reg.lookup(k) {
            Some(op) => {
                let cur_opt = assoc_get(&r, k);
                proof {
                    assert(!(exists|j: int| 0 <= j < i && oldp@[j].0 == k));
                    assert(assoc_lookup(r@, k) == inserted_payload_value(k, oldp@, newp@));
                    assert(inserted_payload_value(k, oldp@, newp@) is Some);
                }
                let cur = cur_opt.unwrap();
                let newv = combine(op, cur, prev);
                assoc_set(&mut r, k, newv);
            },
            None => {},
        }
        proof {
            assert forall|k2: u64| #[trigger] assoc_lookup(r@, k2) == (if (exists|j: int|
                0 <= j < i + 1 && oldp@[j].0 == k2) && reg.op_for(k2) is Some {
                merged_payload_value(k2, oldp@, newp@, *reg)
            } else {
                inserted_payload_value(k2, oldp@, newp@)
            }) by {
                if k2 == k {
                    assert(oldp@[i as int].0 == k2);
                } else {
                    assert((exists|j: int| 0 <= j < i + 1 && oldp@[j].0 == k2) == (exists|j: int|
                        0 <= j < i && oldp@[j].0 == k2)) by {
                        if exists|j: int| 0 <= j < i + 1 && oldp@[j].0 == k2 {
                            let j = choose|j: int| 0 <= j < i + 1 && oldp@[j].0 == k2;
                            assert(j != i);
                            assert(0 <= j < i && oldp@[j].0 == k2);
                        }
                    }
                }
            }
        }
        i = i + 1;
    }
    proof {
        assert forall|k: u64| #[trigger] assoc_lookup(r@, k) == merged_payload_value(
            k,
            oldp@,
            newp@,
            *reg,
        ) by {
            if exists|j: int| 0 <= j < oldp@.len() && oldp@[j].0 == k {
                let j = choose|j: int| 0 <= j < oldp@.len() && oldp@[j].0 == k;
                lemma_assoc_lookup_at(oldp@, k, j);
            } else {
                lemma_assoc_lookup_none(oldp@, k);
            }
        }
    }
    r
}

/// The lifetime surviving a `Merge`-mode collision: merged when both sides
/// carry one, else whichever side carries one.
pub open spec fn merged_opt_lifetime(incoming: Option<Lifetime>, existing: Option<Lifetime>) -> Option<
    Lifetime,
> {
    match (incoming, existing) {
        (Some(n), Some(o)) => Some(merged_lifetime(n, o)),
        (Some(n), None) => Some(n),
        (None, e) => e,
    }
}

/// The delay surviving a `Merge`-mode collision, in the same way.
pub open spec fn merged_opt_delay(incoming: Option<Delay>, existing: Option<Delay>) -> Option<
    Delay,
> {
    match (incoming, existing) {
        (Some(n), Some(o)) => Some(merged_delay(n, o)),
        (Some(n), None) => Some(n),
        (None, e) => e,
    }
}

/// Merges the optional incoming lifetime with the optional existing one.
pub fn merge_opt_lifetime(incoming: Option<Lifetime>, existing: Option<Lifetime>) -> (r: Option<
    Lifetime,
>)
    requires
        crate::bundle::opt_lifetime_wf(incoming),
        crate::bundle::opt_lifetime_wf(existing),
    ensures
        r == merged_opt_lifetime(incoming, existing),
{
    match (incoming, existing) {
        (Some(n), Some(o)) => {
            let mut merged = n;
            merged.merge(&o);
            Some(merged)
        },
        (Some(n), None) => Some(n),
        (None, e) => e,
    }
}

/// Merges the optional incoming delay with the optional existing one.
pub fn merge_opt_delay(incoming: Option<Delay>, existing: Option<Delay>) -> (r: Option<Delay>)
    requires
        crate::bundle::opt_delay_wf(incoming),
        crate::bundle::opt_delay_wf(existing),
    ensures
        r == merged_opt_delay(incoming, existing),
{
    match (incoming, existing) {
        (Some(n), Some(o)) => {
            let mut merged = n;
            merged.merge(&o);
            Some(merged)
        },
        (Some(n), None) => Some(n),
        (None, e) => e,
    }
}

} // verus!
