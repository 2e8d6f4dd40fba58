//! Small association-list maps from a `u64` key to a value, with unique
//! keys. Both the merge registry (kind to merge operation) and an effect's
//! payload (kind to component value) are stored this way, so the lookup and
//! update reasoning is shared here.

use vstd::prelude::*;

verus! {

/// No key occurs twice.
pub open spec fn assoc_unique<V>(s: Seq<(u64, V)>) -> bool {
    forall|i: int, j: int|
        0 <= i < s.len() && 0 <= j < s.len() && i != j ==> s[i].0 != s[j].0
}

/// The value bound to `k`, if any (first occurrence; with unique keys, the
/// only one).
pub open spec fn assoc_lookup<V>(s: Seq<(u64, V)>, k: u64) -> Option<V>
    decreases s.len(),
{
    if s.len() == 0 {
        None
    } else if s[0].0 == k {
        Some(s[0].1)
    } else {
        assoc_lookup(s.drop_first(), k)
    }
}

/// A key bound at some position looks up to that position's value, provided
/// keys are unique.
pub proof fn lemma_assoc_lookup_at<V>(s: Seq<(u64, V)>, k: u64, i: int)
    requires
        assoc_unique(s),
        0 <= i < s.len(),
        s[i].0 == k,
    ensures
        assoc_lookup(s, k) == Some(s[i].1),
    decreases s.len(),
{
    if i == 0 {
    } else {
        assert(s[0].0 != k);
        assert(forall|p: int, q: int|
            0 <= p < s.drop_first().len() && 0 <= q < s.drop_first().len() && p != q
                ==> s.drop_first()[p].0 != s.drop_first()[q].0) by {
            assert(forall|p: int| 0 <= p < s.drop_first().len() ==> s.drop_first()[p] == s[p + 1]);
        }
        lemma_assoc_lookup_at(s.drop_first(), k, i - 1);
    }
}

/// A key bound at no position looks up to `None`.
pub proof fn lemma_assoc_lookup_none<V>(s: Seq<(u64, V)>, k: u64)
    requires
        forall|i: int| 0 <= i < s.len() ==> s[i].0 != k,
    ensures
        assoc_lookup(s, k) == None::<V>,
    decreases s.len(),
{
    if s.len() > 0 {
        assert(forall|p: int| 0 <= p < s.drop_first().len() ==> s.drop_first()[p] == s[p + 1]);
        lemma_assoc_lookup_none(s.drop_first(), k);
    }
}

/// Looks `k` up in the list.
pub fn assoc_get<V: Copy>(v: &Vec<(u64, V)>, k: u64) -> (r: Option<V>)
    requires
        assoc_unique(v@),
    ensures
        r == assoc_lookup(v@, k),
{
    let mut i: usize = 0;
    while i < v.len()
        invariant
            assoc_unique(v@),
            0 <= i <= v.len(),
            forall|j: int| 0 <= j < i ==> v@[j].0 != k,
        decreases v.len() - i,
    {
        if v[i].0 == k {
            proof {
                lemma_assoc_lookup_at(v@, k, i as int);
            }
            return Some(v[i].1);
        }
        i = i + 1;
    }
    proof {
        lemma_assoc_lookup_none(v@, k);
    }
    None
}

/// Decides key uniqueness at run time, for callers outside verified code
/// that must establish it before handing a list to the library.
pub fn assoc_keys_unique<V>(v: &Vec<(u64, V)>) -> (r: bool)
    ensures
        r == assoc_unique(v@),
{
    let mut i: usize = 0;
    while i < v.len()
        invariant
            0 <= i <= v@.len(),
            forall|p: int, q: int|
                0 <= p < i && 0 <= q < v@.len() && p != q ==> v@[p].0 != v@[q].0,
        decreases v@.len() - i,
    {
        let mut j: usize = i + 1;
        while j < v.len()
            invariant
                0 <= i < j <= v@.len(),
                forall|p: int, q: int|
                    0 <= p < i && 0 <= q < v@.len() && p != q ==> v@[p].0 != v@[q].0,
                forall|q: int| i < q < j ==> v@[i as int].0 != v@[q].0,
            decreases v@.len() - j,
        {
            if v[i].0 == v[j].0 {
                proof {
                    assert(v@[i as int].0 == v@[j as int].0 && i < j);
                }
                return false;
            }
            j = j + 1;
        }
        proof {
            assert forall|p: int, q: int|
                0 <= p < i + 1 && 0 <= q < v@.len() && p != q implies v@[p].0 != v@[q].0 by {
                if p == i && q < i {
                    assert(v@[q].0 != v@[p].0);
                }
            }
        }
        i = i + 1;
    }
    true
}

/// Binds `k` to `val`, replacing any previous binding (last registration
/// wins; re-binding an existing key is not an error).
pub fn assoc_set<V: Copy>(v: &mut Vec<(u64, V)>, k: u64, val: V)
    requires
        assoc_unique(old(v)@),
    ensures
        assoc_unique(final(v)@),
        forall|k2: u64| #[trigger] assoc_lookup(final(v)@, k2) == (if k2 == k {
            Some(val)
        } else {
            assoc_lookup(old(v)@, k2)
        }),
        final(v)@.len() <= old(v)@.len() + 1,
{
    let ghost s0 = old(v)@;
    let mut i: usize = 0;
    while i < v.len()
        invariant
            s0 == old(v)@,
            v@ == s0,
            assoc_unique(v@),
            0 <= i <= v.len(),
            forall|j: int| 0 <= j < i ==> v@[j].0 != k,
        decreases v.len() - i,
    {
        if v[i].0 == k {
            v[i] = (k, val);
            proof {
                assert(v@ == s0.update(i as int, (k, val)));
                assert(assoc_unique(v@)) by {
                    assert(forall|p: int|
                        0 <= p < v@.len() && p != i ==> v@[p] == s0[p]);
                }
                lemma_assoc_lookup_at(v@, k, i as int);
                assert forall|k2: u64| k2 != k implies #[trigger] assoc_lookup(v@, k2)
                    == assoc_lookup(s0, k2) by {
                    lemma_assoc_eq_except(s0, v@, k2);
                }
            }
            return ;
        }
        i = i + 1;
    }
    v.push((k, val));
    proof {
        assert(v@ == s0.push((k, val)));
        assert(assoc_unique(v@)) by {
            assert(forall|p: int| 0 <= p < s0.len() ==> v@[p] == s0[p]);
        }
        lemma_assoc_lookup_at(v@, k, s0.len() as int);
        assert forall|k2: u64| k2 != k implies #[trigger] assoc_lookup(v@, k2)
            == assoc_lookup(s0, k2) by {
            lemma_assoc_eq_except(s0, v@, k2);
        }
    }
}

/// Two unique-keyed lists that bind `k2` at the same positions with the same
/// values agree on `k2`: used when one list is the other with one unrelated
/// binding changed or appended.
proof fn lemma_assoc_eq_except<V>(s: Seq<(u64, V)>, t: Seq<(u64, V)>, k2: u64)
    requires
        assoc_unique(s),
        assoc_unique(t),
        forall|i: int|
            0 <= i < s.len() && s[i].0 == k2 ==> 0 <= i < t.len() && t[i] == s[i],
        forall|i: int|
            0 <= i < t.len() && t[i].0 == k2 ==> 0 <= i < s.len() && s[i] == t[i],
    ensures
        assoc_lookup(s, k2) == assoc_lookup(t, k2),
{
    if exists|i: int| 0 <= i < s.len() && s[i].0 == k2 {
        let i = choose|i: int| 0 <= i < s.len() && s[i].0 == k2;
        lemma_assoc_lookup_at(s, k2, i);
        lemma_assoc_lookup_at(t, k2, i);
    } else {
        lemma_assoc_lookup_none(s, k2);
        lemma_assoc_lookup_none(t, k2);
    }
}

} // verus!
