//! Configuration slots, and maps of them keyed by slot index.

use std::collections::HashMap;
use vstd::prelude::*;
use vstd::std_specs::iter::IteratorSpec;

verus! {

broadcast use vstd::std_specs::hash::group_hash_axioms;

/// Number of configuration slots the device exposes.
pub const SLOT_COUNT: usize = 8;

/// One configuration slot.
///
/// A record does not name its slot: the index of a slot is the key under which a map holds
/// its record.
#[derive(Clone, Copy, Debug, PartialEq, Eq, Structural)]
pub struct SlotRecord {
    /// Desired 16-bit setting.
    pub programmed: u16,
    /// Status value reported by the device; absent until a read filled it in.
    pub corrected: Option<u16>,
    /// Unix time in seconds of the last read that involved this slot.
    pub timestamp: Option<u64>,
}

impl SlotRecord {
    /// A record that only carries a desired setting.
    pub fn new(programmed: u16) -> (r: SlotRecord)
        ensures
            r == (SlotRecord { programmed, corrected: None, timestamp: None }),
    {
        SlotRecord { programmed, corrected: None, timestamp: None }
    }
}

/// Whether `order` lists exactly the members of `set`, each once, smallest first.
pub open spec fn lists_ascending(order: Seq<usize>, set: Set<usize>) -> bool {
    &&& forall|i: int, j: int| 0 <= i < j < order.len() ==> order[i] < order[j]
    &&& forall|k: usize| set.contains(k) <==> order.contains(k)
}

/// The members of `set`, smallest first.
pub open spec fn ascending(set: Set<usize>) -> Seq<usize> {
    choose|order: Seq<usize>| lists_ascending(order, set)
}

/// A set has at most one ascending listing.
pub proof fn lemma_ascending_unique(a: Seq<usize>, b: Seq<usize>, set: Set<usize>)
    requires
        lists_ascending(a, set),
        lists_ascending(b, set),
    ensures
        a == b,
    decreases a.len(),
{
    if a.len() == 0 {
        if b.len() > 0 {
            assert(b.contains(b[0]));
            assert(a.contains(b[0]));
        }
        assert(a =~= b);
    } else {
        let top = a.last();
        assert(a.contains(top));
        assert(b.contains(top));
        let at = choose|i: int| 0 <= i < b.len() && b[i] == top;
        if at != b.len() - 1 {
            let above = b.last();
            assert(b.contains(above));
            assert(a.contains(above));
            let j = choose|j: int| 0 <= j < a.len() && a[j] == above;
            assert(a[j] <= top);
            assert(b[at] < above);
        }
        let rest = set.remove(top);
        assert forall|k: usize| rest.contains(k) <==> a.drop_last().contains(k) by {
            if rest.contains(k) {
                assert(a.contains(k));
                let i = choose|i: int| 0 <= i < a.len() && a[i] == k;
                assert(a.drop_last()[i] == k);
            }
            if a.drop_last().contains(k) {
                let i = choose|i: int| 0 <= i < a.drop_last().len() && a.drop_last()[i] == k;
                assert(a[i] == k);
                assert(a[i] < top);
            }
        }
        assert forall|k: usize| rest.contains(k) <==> b.drop_last().contains(k) by {
            if rest.contains(k) {
                assert(b.contains(k));
                let i = choose|i: int| 0 <= i < b.len() && b[i] == k;
                assert(b.drop_last()[i] == k);
            }
            if b.drop_last().contains(k) {
                let i = choose|i: int| 0 <= i < b.drop_last().len() && b.drop_last()[i] == k;
                assert(b[i] == k);
                assert(b[i] < top);
            }
        }
        lemma_ascending_unique(a.drop_last(), b.drop_last(), rest);
        assert(a =~= a.drop_last().push(top));
        assert(b =~= b.drop_last().push(top));
    }
}

/// Puts `index` at its place in an ascending list that does not hold it yet.
fn insert_ascending(list: &mut Vec<usize>, index: usize)
    requires
        forall|i: int, j: int| 0 <= i < j < old(list)@.len() ==> old(list)@[i] < old(list)@[j],
        !old(list)@.contains(index),
    ensures
        forall|i: int, j: int|
            0 <= i < j < final(list)@.len() ==> final(list)@[i] < final(list)@[j],
        forall|k: usize| final(list)@.contains(k) <==> old(list)@.contains(k) || k == index,
        final(list)@.len() == old(list)@.len() + 1,
{
    let mut at: usize = 0;
    while at < list.len() && list[at] < index
        invariant
            list@ == old(list)@,
            at <= list@.len(),
            forall|i: int| 0 <= i < at ==> list@[i] < index,
        decreases list@.len() - at,
    {
        at += 1;
    }
    proof {
        if at < list@.len() {
            assert(list@.contains(list@[at as int]));
        }
    }
    list.insert(at, index);
    proof {
        let before = old(list)@;
        let after = list@;
        assert forall|k: usize| after.contains(k) <==> before.contains(k) || k == index by {
            if after.contains(k) {
                let i = choose|i: int| 0 <= i < after.len() && after[i] == k;
                if i < at {
                    assert(before[i] == k);
                } else if i > at {
                    assert(before[i - 1] == k);
                }
            }
            if before.contains(k) {
                let i = choose|i: int| 0 <= i < before.len() && before[i] == k;
                if i < at {
                    assert(after[i] == k);
                } else {
                    assert(after[i + 1] == k);
                }
            }
            if k == index {
                assert(after[at as int] == k);
            }
        }
    }
}

/// The indices that `slots` holds, smallest first.
pub fn indices(slots: &HashMap<usize, SlotRecord>) -> (list: Vec<usize>)
    ensures
        lists_ascending(list@, slots@.dom()),
        list@ == ascending(slots@.dom()),
        list@.len() == slots@.len(),
{
    let mut list: Vec<usize> = Vec::new();
    let ghost all: Seq<usize> = slots.keys().remaining().unref();
    for key in it: slots.keys()
        invariant
            it.seq().unref() == all,
            all.to_set() == slots@.dom(),
            it.seq().no_duplicates(),
            all.len() == slots@.dom().len(),
            list@.len() == it.index(),
            forall|i: int, j: int| 0 <= i < j < list@.len() ==> list@[i] < list@[j],
            forall|k: usize|
                list@.contains(k) <==> exists|i: int| 0 <= i < list@.len() && all[i] == k,
    {
        proof {
            assert(all[it.index()] == *key);
            if list@.contains(*key) {
                let i = choose|i: int| 0 <= i < list@.len() && all[i] == *key;
                assert(it.seq()[i] == it.seq()[it.index()]);
            }
        }
        let ghost before = list@;
        insert_ascending(&mut list, *key);
        proof {
            assert forall|k: usize| list@.contains(k) <==> exists|i: int|
                0 <= i < list@.len() && all[i] == k by {
                if before.contains(k) {
                    let i = choose|i: int| 0 <= i < before.len() && all[i] == k;
                    assert(0 <= i < list@.len() && all[i] == k);
                }
                if exists|i: int| 0 <= i < list@.len() && all[i] == k {
                    let i = choose|i: int| 0 <= i < list@.len() && all[i] == k;
                    if i < before.len() {
                        assert(before.contains(k));
                    }
                }
            }
        }
    }
    proof {
        assert(list@.len() == all.len());
        assert forall|k: usize| slots@.dom().contains(k) <==> list@.contains(k) by {
            if slots@.dom().contains(k) {
                assert(all.to_set().contains(k));
                assert(all.contains(k));
            }
            if list@.contains(k) {
                let i = choose|i: int| 0 <= i < list@.len() && all[i] == k;
                assert(all.contains(k));
            }
        }
        assert(lists_ascending(list@, slots@.dom()));
        lemma_ascending_unique(list@, ascending(slots@.dom()), slots@.dom());
    }
    list
}

} // verus!
