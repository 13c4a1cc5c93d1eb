//! Bank allocation: binding the groups of a virtual bank to free slots.

use vstd::prelude::*;
use crate::bank::{after_delete, is_first_free, BankMap, MapEntry};

verus! {

/// The first free slot of `s`, if any.
pub open spec fn spec_first_free(s: Seq<MapEntry>) -> Option<int> {
    if exists|i: int| is_first_free(s, i) {
        Some(choose|i: int| is_first_free(s, i))
    } else {
        None
    }
}

/// There is only one first free slot.
pub proof fn lemma_first_free_unique(s: Seq<MapEntry>, i: int, j: int)
    requires
        is_first_free(s, i),
        is_first_free(s, j),
    ensures
        i == j,
{
    if i < j {
        assert(s[i].valid);
    } else if j < i {
        assert(s[j].valid);
    }
}

/// The first free slot found by a scan is the one the specification names.
pub proof fn lemma_spec_first_free(s: Seq<MapEntry>, r: Option<usize>)
    requires
        match r {
            Some(i) => is_first_free(s, i as int),
            None => forall|j: int| 0 <= j < s.len() ==> (#[trigger] s[j]).valid,
        },
    ensures
        match r {
            Some(i) => spec_first_free(s) == Some(i as int),
            None => spec_first_free(s) is None,
        },
{
    match r {
        Some(i) => {
            let c = choose|k: int| is_first_free(s, k);
            lemma_first_free_unique(s, c, i as int);
        },
        None => {
            if exists|k: int| is_first_free(s, k) {
                let c = choose|k: int| is_first_free(s, k);
                assert(s[c].valid);
            }
        },
    }
}

/// The slots after deleting virtual bank `v`.
pub open spec fn deleted(s: Seq<MapEntry>, v: u32) -> Seq<MapEntry> {
    Seq::new(s.len(), |i: int| after_delete(s[i], v))
}

/// Binds groups `0..groups` of virtual bank `v`, each to the first slot
/// free at that point: the resulting slots and the slot of each group, or
/// `None` when the slots run out.
pub open spec fn alloc_groups(s: Seq<MapEntry>, v: u32, groups: nat) -> Option<(Seq<MapEntry>, Seq<int>)>
    decreases groups,
{
    if groups == 0 {
        Some((s, Seq::<int>::empty()))
    } else {
        match alloc_groups(s, v, (groups - 1) as nat) {
            None => None,
            Some(prev) => match spec_first_free(prev.0) {
                None => None,
                Some(p) => Some(
                    (
                        prev.0.update(p, MapEntry { valid: true, vbank_id: v, group_id: (groups - 1) as u32 }),
                        prev.1.push(p),
                    ),
                ),
            },
        }
    }
}

/// Binds groups `0..groups` of `v` in `map`; on success the slot chosen
/// for each group, on failure `None` with `map` partly bound.
pub fn bind_groups(map: &mut BankMap, v: u32, groups: u64) -> (r: Option<Vec<usize>>)
    ensures
        match alloc_groups(old(map).slots@, v, groups as nat) {
            None => r is None,
            Some(res) => r matches Some(ps) && final(map).slots@ == res.0 && ps@.len() == res.1.len()
                && forall|k: int| 0 <= k < ps@.len() ==> ps@[k] as int == #[trigger] res.1[k],
        },
{
    let ghost s0 = map.slots@;
    let mut ps: Vec<usize> = Vec::new();
    let mut g: u64 = 0;
    while g < groups
        invariant
            g <= groups,
            s0 == old(map).slots@,
            alloc_groups(s0, v, g as nat) matches Some(res) && map.slots@ == res.0 && ps@.len()
                == res.1.len() && forall|k: int| 0 <= k < ps@.len() ==> ps@[k] as int == #[trigger] res.1[k],
        decreases groups - g,
    {
        let ghost before = map.slots@;
        let f = map.first_free_pbank();
        proof {
            lemma_spec_first_free(before, f);
        }
        match f {
            None => {
                proof {
                    lemma_alloc_groups_stuck(s0, v, g as nat, groups as nat);
                }
                return None;
            },
            Some(p) => {
                map.bind_group(p, v, g as u32);
                ps.push(p);
                proof {
                    let res = alloc_groups(s0, v, (g + 1) as nat).unwrap();
                    assert(map.slots@ == res.0);
                    assert forall|k: int| 0 <= k < ps@.len() implies ps@[k] as int == #[trigger] res.1[k] by {
                        let prev = alloc_groups(s0, v, g as nat).unwrap();
                        if k < ps@.len() - 1 {
                            assert(res.1[k] == prev.1[k]);
                        }
                    }
                }
            },
        }
        g = g + 1;
    }
    Some(ps)
}

/// Once binding a group fails, binding more groups fails too.
pub proof fn lemma_alloc_groups_stuck(s: Seq<MapEntry>, v: u32, g: nat, n: nat)
    requires
        g < n,
        alloc_groups(s, v, g) matches Some(res) && spec_first_free(res.0) is None,
    ensures
        alloc_groups(s, v, n) is None,
    decreases n - g,
{
    if g + 1 < n {
        lemma_alloc_groups_none_up(s, v, g + 1, n);
    }
}

/// A failed binding stays failed for more groups.
pub proof fn lemma_alloc_groups_none_up(s: Seq<MapEntry>, v: u32, g: nat, n: nat)
    requires
        g <= n,
        alloc_groups(s, v, g) is None,
    ensures
        alloc_groups(s, v, n) is None,
    decreases n - g,
{
    if g < n {
        lemma_alloc_groups_none_up(s, v, g + 1, n);
    }
}

} // verus!
