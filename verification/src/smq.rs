//! A shared multi-queue: any number of independent FIFO queues, keyed by an
//! owner id, whose entries are handles to items stored once in a shared
//! table. Enqueueing an identity always increments its reference count,
//! even when another owner already holds it; dequeueing decrements, and the
//! item is purged from the table only when its last handle is gone. An
//! identity with no remaining references is never exposed: the counts, not
//! queue presence, are authoritative.

use vstd::prelude::*;

use core::marker::PhantomData;
use std::collections::HashMap;
use std::collections::VecDeque;
use vstd::pervasive::cloned;
use vstd::std_specs::hash::obeys_key_model;

verus! {

/// Owner ids, keying the per-owner queues.
pub trait QId: Eq + core::hash::Hash + Copy {

}

/// Item identities, keying the shared table; copies of one are held in the
/// queues.
pub trait QItemId: Eq + core::hash::Hash + Copy {

}

/// Stored items: cloned out on dequeue while other handles remain.
pub trait QItem<Id: QItemId>: Clone {

}

impl QId for u64 {

}

impl QItemId for u64 {

}

/// One stored item together with the count of its outstanding handles.
struct QueueItemHandle<Item: QItem<ItemId>, ItemId: QItemId> {
    item: Item,
    count: usize,
    mar: PhantomData<ItemId>,
}

impl<Item: QItem<ItemId>, ItemId: QItemId> QueueItemHandle<Item, ItemId> {
    fn new(item: Item) -> (r: Self)
        ensures
            r.item == item,
            r.count == 0,
    {
        QueueItemHandle { item, count: 0, mar: PhantomData }
    }

    fn enq(&mut self)
        requires
            old(self).count < usize::MAX,
        ensures
            final(self).item == old(self).item,
            final(self).count == old(self).count + 1,
    {
        self.count = self.count + 1;
    }

    fn deq(&mut self) -> (r: Item)
        requires
            old(self).count > 0,
        ensures
            final(self).item == old(self).item,
            final(self).count == old(self).count - 1,
            cloned::<Item>(old(self).item, r),
    {
        self.count = self.count - 1;
        self.item.clone()
    }

    fn no_refs(&self) -> (r: bool)
        ensures
            r == (self.count == 0),
    {
        self.count == 0
    }
}

/// One owner's queue of item identities, newest at the front.
struct Queue<ItemId: QItemId> {
    q: VecDeque<ItemId>,
}

impl<ItemId: QItemId> Queue<ItemId> {
    fn new() -> (r: Self)
        ensures
            r.q@ == Seq::<ItemId>::empty(),
    {
        Queue { q: VecDeque::new() }
    }

    #[allow(dead_code)]
    fn with_capacity(capacity: usize) -> (r: Self)
        ensures
            r.q@ == Seq::<ItemId>::empty(),
    {
        Queue { q: VecDeque::with_capacity(capacity) }
    }

    fn enq(&mut self, id: ItemId)
        ensures
            final(self).q@ == seq![id] + old(self).q@,
    {
        self.q.push_front(id);
    }

    fn deq(&mut self) -> (r: Option<ItemId>)
        ensures
            old(self).q@.len() == 0 ==> r is None && final(self).q@ == old(self).q@,
            old(self).q@.len() > 0 ==> r == Some(old(self).q@.last()) && final(self).q@ == old(
                self,
            ).q@.drop_last(),
    {
        let r = self.q.pop_back();
        proof {
            if old(self).q@.len() > 0 {
                assert(self.q@ =~= old(self).q@.drop_last());
            }
        }
        r
    }
}

/// How many times `id` occurs in one owner's queue.
pub open spec fn count_in<ItemId>(q: Seq<ItemId>, id: ItemId) -> nat
    decreases q.len(),
{
    if q.len() == 0 {
        0
    } else {
        (if q.last() == id {
            1nat
        } else {
            0nat
        }) + count_in(q.drop_last(), id)
    }
}

/// The number of outstanding occurrences of `id` across all owners' queues.
pub open spec fn total_refs<Id, ItemId>(qs: Map<Id, Seq<ItemId>>, id: ItemId) -> nat {
    qs.dom().fold(0nat, |acc: nat, k: Id| acc + count_in(qs[k], id))
}

/// A fold depends on the folding function only at the set's own elements.
proof fn lemma_fold_congruence<A, B>(
    s: Set<A>,
    z: B,
    f: spec_fn(B, A) -> B,
    g: spec_fn(B, A) -> B,
)
    requires
        s.finite(),
        vstd::set::fold::is_fun_commutative(f),
        vstd::set::fold::is_fun_commutative(g),
        forall|acc: B, a: A| s.contains(a) ==> #[trigger] f(acc, a) == g(acc, a),
    ensures
        s.fold(z, f) == s.fold(z, g),
    decreases s.len(),
{
    if s.len() == 0 {
        assert(s =~= Set::<A>::empty());
        vstd::set::fold::lemma_fold_empty(z, f);
        vstd::set::fold::lemma_fold_empty(z, g);
    } else {
        let a = s.choose();
        assert(s.contains(a));
        let rest = s.remove(a);
        assert(rest.insert(a) =~= s);
        lemma_fold_congruence(rest, z, f, g);
        vstd::set::fold::lemma_fold_insert(rest, z, f, a);
        vstd::set::fold::lemma_fold_insert(rest, z, g, a);
    }
}

/// Prepending one identity raises its occurrence count by one and no other.
proof fn lemma_count_in_prepend<ItemId>(x: ItemId, q: Seq<ItemId>, id: ItemId)
    ensures
        count_in(seq![x] + q, id) == count_in(q, id) + (if x == id {
            1nat
        } else {
            0nat
        }),
    decreases q.len(),
{
    let s = seq![x] + q;
    assert(s.len() == q.len() + 1);
    assert(count_in(s, id) == (if s.last() == id {
        1nat
    } else {
        0nat
    }) + count_in(s.drop_last(), id));
    if q.len() == 0 {
        assert(s.last() == x);
        assert(s.drop_last() =~= Seq::<ItemId>::empty());
        assert(count_in(s.drop_last(), id) == 0);
        assert(count_in(q, id) == 0);
    } else {
        assert(s.last() == q.last());
        assert(s.drop_last() =~= seq![x] + q.drop_last());
        lemma_count_in_prepend(x, q.drop_last(), id);
        assert(count_in(q, id) == (if q.last() == id {
            1nat
        } else {
            0nat
        }) + count_in(q.drop_last(), id));
    }
}

/// What replacing (or adding) one owner's queue does to the total count of
/// an identity: the old queue's occurrences leave, the new queue's enter.
proof fn lemma_total_refs_insert<Id, ItemId>(
    qs: Map<Id, Seq<ItemId>>,
    k: Id,
    q: Seq<ItemId>,
    id: ItemId,
)
    requires
        qs.dom().finite(),
    ensures
        total_refs(qs.insert(k, q), id) == total_refs(qs, id) + count_in(q, id) - (
        if qs.contains_key(k) {
            count_in(qs[k], id)
        } else {
            0nat
        }),
{
    let m2 = qs.insert(k, q);
    let f = |acc: nat, j: Id| acc + count_in(qs[j], id);
    let g = |acc: nat, j: Id| acc + count_in(m2[j], id);
    assert(vstd::set::fold::is_fun_commutative(f));
    assert(vstd::set::fold::is_fun_commutative(g));
    if qs.contains_key(k) {
        let rest = qs.dom().remove(k);
        assert(rest.insert(k) =~= qs.dom());
        assert(m2.dom() =~= qs.dom());
        vstd::set::fold::lemma_fold_insert(rest, 0nat, f, k);
        vstd::set::fold::lemma_fold_insert(rest, 0nat, g, k);
        lemma_fold_congruence(rest, 0nat, f, g);
        assert(total_refs(qs, id) == rest.fold(0nat, f) + count_in(qs[k], id));
        assert(total_refs(m2, id) == rest.fold(0nat, g) + count_in(q, id));
    } else {
        assert(m2.dom() =~= qs.dom().insert(k));
        vstd::set::fold::lemma_fold_insert(qs.dom(), 0nat, g, k);
        lemma_fold_congruence(qs.dom(), 0nat, f, g);
        assert(total_refs(m2, id) == qs.dom().fold(0nat, g) + count_in(q, id));
    }
}

/// An identity queued by any owner is counted at least that often in total.
proof fn lemma_total_refs_member_bound<Id, ItemId>(qs: Map<Id, Seq<ItemId>>, k: Id, id: ItemId)
    requires
        qs.dom().finite(),
        qs.contains_key(k),
    ensures
        total_refs(qs, id) >= count_in(qs[k], id),
{
    let f = |acc: nat, j: Id| acc + count_in(qs[j], id);
    assert(vstd::set::fold::is_fun_commutative(f));
    let rest = qs.dom().remove(k);
    assert(rest.insert(k) =~= qs.dom());
    vstd::set::fold::lemma_fold_insert(rest, 0nat, f, k);
    assert(total_refs(qs, id) == rest.fold(0nat, f) + count_in(qs[k], id));
}

/// No owner's queue holds any identity in an empty family of queues.
proof fn lemma_total_refs_empty<Id, ItemId>(id: ItemId)
    ensures
        total_refs(Map::<Id, Seq<ItemId>>::empty(), id) == 0,
{
    let f = |acc: nat, j: Id| acc + count_in(Map::<Id, Seq<ItemId>>::empty()[j], id);
    assert(Map::<Id, Seq<ItemId>>::empty().dom() =~= Set::<Id>::empty());
    vstd::set::fold::lemma_fold_empty(0nat, f);
}

/// The shared table after one enqueue of `item` under `item_id`: a known
/// identity keeps its stored item and gains a reference; a new identity
/// stores the item with one reference.
pub open spec fn smq_enq_items<Item, ItemId>(
    items: Map<ItemId, (Item, nat)>,
    item: Item,
    item_id: ItemId,
) -> Map<ItemId, (Item, nat)> {
    if items.contains_key(item_id) {
        items.insert(item_id, (items[item_id].0, (items[item_id].1 + 1) as nat))
    } else {
        items.insert(item_id, (item, 1nat))
    }
}

/// The per-owner queues after one enqueue: the identity joins the front of
/// the owner's queue, which is created if the owner is new.
pub open spec fn smq_enq_queues<Id, ItemId>(
    qs: Map<Id, Seq<ItemId>>,
    qid: Id,
    item_id: ItemId,
) -> Map<Id, Seq<ItemId>> {
    let q = if qs.contains_key(qid) {
        qs[qid]
    } else {
        Seq::<ItemId>::empty()
    };
    qs.insert(qid, seq![item_id] + q)
}

/// Both tables and the dequeued item after one dequeue by `qid`: an unknown
/// owner or an empty queue yields nothing and changes nothing; otherwise the
/// oldest queued identity leaves the queue, loses a reference, and its item
/// is returned, leaving the table when that was the last reference.
pub open spec fn smq_deq_model<Id, Item, ItemId>(
    items: Map<ItemId, (Item, nat)>,
    qs: Map<Id, Seq<ItemId>>,
    qid: Id,
) -> (Map<ItemId, (Item, nat)>, Map<Id, Seq<ItemId>>, Option<Item>) {
    if !qs.contains_key(qid) || qs[qid].len() == 0 {
        (items, qs, None)
    } else {
        let popped = qs[qid].last();
        let qs1 = qs.insert(qid, qs[qid].drop_last());
        if !items.contains_key(popped) {
            (items, qs1, None)
        } else {
            let it = items[popped].0;
            let cnt = items[popped].1;
            let items1 = if cnt <= 1 {
                items.remove(popped)
            } else {
                items.insert(popped, (it, (cnt - 1) as nat))
            };
            (items1, qs1, Some(it))
        }
    }
}

/// Any number of FIFO queues sharing reference-counted items.
pub struct SharedMultiQueue<Id: QId, Item: QItem<ItemId>, ItemId: QItemId> {
    items: HashMap<ItemId, QueueItemHandle<Item, ItemId>>,
    qs: HashMap<Id, Queue<ItemId>>,
}

impl<Id: QId, Item: QItem<ItemId>, ItemId: QItemId> SharedMultiQueue<Id, Item, ItemId> {
    /// The shared table: each stored item with its reference count.
    pub closed spec fn items_model(&self) -> Map<ItemId, (Item, nat)> {
        self.items@.map_values(|h: QueueItemHandle<Item, ItemId>| (h.item, h.count as nat))
    }

    /// The per-owner queues of identities, newest first.
    pub closed spec fn queues_model(&self) -> Map<Id, Seq<ItemId>> {
        self.qs@.map_values(|q: Queue<ItemId>| q.q@)
    }

    /// The reference count of each stored item equals the number of its
    /// outstanding occurrences across all queues, and is never zero: when
    /// the last handle is dequeued the item leaves the table, and an
    /// identity that is not stored is queued nowhere.
    pub open spec fn wf(&self) -> bool {
        &&& self.queues_model().dom().finite()
        &&& forall|id: ItemId|
            self.items_model().contains_key(id) ==> (#[trigger] self.items_model()[id]).1
                == total_refs(self.queues_model(), id) && self.items_model()[id].1 >= 1
        &&& forall|id: ItemId|
            !self.items_model().contains_key(id) ==> #[trigger] total_refs(
                self.queues_model(),
                id,
            ) == 0
    }

    /// An empty multi-queue.
    pub fn new() -> (r: Self)
        ensures
            r.items_model() == Map::<ItemId, (Item, nat)>::empty(),
            r.queues_model() == Map::<Id, Seq<ItemId>>::empty(),
            r.wf(),
    {
        let r = SharedMultiQueue { items: HashMap::new(), qs: HashMap::new() };
        proof {
            assert(r.items_model() =~= Map::<ItemId, (Item, nat)>::empty());
            assert(r.queues_model() =~= Map::<Id, Seq<ItemId>>::empty());
            assert(r.queues_model().dom() =~= Set::<Id>::empty());
            assert forall|id: ItemId| total_refs(r.queues_model(), id) == 0 by {
                lemma_total_refs_empty::<Id, ItemId>(id);
            }
        }
        r
    }

    /// Store `item` under `item_id` if the identity is new, count one more
    /// reference to it either way, and append the identity to `qid`'s queue.
    pub fn enq(&mut self, qid: Id, item: Item, item_id: ItemId)
        requires
            obeys_key_model::<Id>(),
            obeys_key_model::<ItemId>(),
            old(self).wf(),
            old(self).items_model().contains_key(item_id) ==> old(self).items_model()[item_id].1
                < usize::MAX,
        ensures
            final(self).wf(),
            final(self).items_model() == smq_enq_items(old(self).items_model(), item, item_id),
            final(self).queues_model() == smq_enq_queues(old(self).queues_model(), qid, item_id),
    {
        let ghost items0 = self.items_model();
        let ghost qs0 = self.queues_model();
        if !self.qs.contains_key(&qid) {
            let _ = self.qs.insert(qid, Queue::new());
        }
        if !self.items.contains_key(&item_id) {
            let _ = self.items.insert(item_id, QueueItemHandle::new(item));
        }
        let mut handle = self.items.remove(&item_id).unwrap();
        handle.enq();
        let _ = self.items.insert(item_id, handle);
        let mut q = self.qs.remove(&qid).unwrap();
        q.enq(item_id);
        let _ = self.qs.insert(qid, q);
        proof {
            assert(self.items_model() =~= smq_enq_items(items0, item, item_id));
            assert(self.queues_model() =~= smq_enq_queues(qs0, qid, item_id));
            let q0 = if qs0.contains_key(qid) {
                qs0[qid]
            } else {
                Seq::<ItemId>::empty()
            };
            let newq = seq![item_id] + q0;
            let qs1 = self.queues_model();
            assert(qs1 == qs0.insert(qid, newq));
            assert(qs1.dom() =~= qs0.dom().insert(qid));
            assert forall|id: ItemId|
                total_refs(qs1, id) == total_refs(qs0, id) + (if id == item_id {
                    1nat
                } else {
                    0nat
                }) by {
                lemma_total_refs_insert(qs0, qid, newq, id);
                lemma_count_in_prepend(item_id, q0, id);
                if !qs0.contains_key(qid) {
                    assert(count_in(q0, id) == 0);
                }
            }
        }
    }

    /// Pop the oldest identity of `qid`'s queue and surrender one reference
    /// to it: the stored item is cloned out, and purged from the shared
    /// table when this was its last reference. An unknown owner or an empty
    /// queue yields nothing.
    pub fn deq(&mut self, qid: Id) -> (r: Option<Item>)
        requires
            obeys_key_model::<Id>(),
            obeys_key_model::<ItemId>(),
            old(self).wf(),
        ensures
            final(self).wf(),
            final(self).items_model() == smq_deq_model(
                old(self).items_model(),
                old(self).queues_model(),
                qid,
            ).0,
            final(self).queues_model() == smq_deq_model(
                old(self).items_model(),
                old(self).queues_model(),
                qid,
            ).1,
            (smq_deq_model(old(self).items_model(), old(self).queues_model(), qid).2 is None ==> r
                is None),
            (smq_deq_model(old(self).items_model(), old(self).queues_model(), qid).2 matches Some(
                it,
            ) ==> (r matches Some(x) && cloned::<Item>(it, x))),
    {
        let ghost items0 = self.items_model();
        let ghost qs0 = self.queues_model();
        let mut q = match self.qs.remove(&qid) {
            Some(q) => q,
            None => {
                proof {
                    assert(self.queues_model() =~= qs0);
                }
                return None;
            },
        };
        let popped = q.deq();
        let _ = self.qs.insert(qid, q);
        let item_id = match popped {
            Some(i) => i,
            None => {
                proof {
                    assert(self.queues_model() =~= qs0);
                }
                return None;
            },
        };
        proof {
            assert(self.queues_model() =~= qs0.insert(qid, qs0[qid].drop_last()));
            assert(self.items_model() =~= items0);
            assert(count_in(qs0[qid], item_id) >= 1);
        }
        if !self.items.contains_key(&item_id) {
            proof {
                // Unreachable under the invariant: a queued identity is
                // always stored, since its total count is at least one.
                lemma_total_refs_member_bound(qs0, qid, item_id);
            }
            return None;
        }
        let mut handle = self.items.remove(&item_id).unwrap();
        let item = handle.deq();
        let ghost count0 = items0[item_id].1;
        if handle.no_refs() {
            proof {
                assert(self.items_model() =~= items0.remove(item_id));
            }
        } else {
            let _ = self.items.insert(item_id, handle);
            proof {
                assert(self.items_model() =~= items0.insert(
                    item_id,
                    (items0[item_id].0, (items0[item_id].1 - 1) as nat),
                ));
            }
        }
        proof {
            let q0 = qs0[qid];
            let qs1 = qs0.insert(qid, q0.drop_last());
            assert(self.queues_model() =~= qs1);
            assert(qs1.dom() =~= qs0.dom());
            assert(q0.last() == item_id);
            assert forall|id: ItemId|
                total_refs(qs1, id) + (if q0.last() == id {
                    1nat
                } else {
                    0nat
                }) == total_refs(qs0, id) by {
                lemma_total_refs_insert(qs0, qid, q0.drop_last(), id);
                assert(count_in(q0, id) == (if q0.last() == id {
                    1nat
                } else {
                    0nat
                }) + count_in(q0.drop_last(), id));
            }
            assert(count0 == total_refs(qs0, item_id));
            assert forall|id: ItemId|
                self.items_model().contains_key(id) implies (#[trigger] self.items_model()[
                id]).1 == total_refs(self.queues_model(), id) && self.items_model()[id].1
                >= 1 by {
                assert(total_refs(qs1, id) + (if q0.last() == id {
                    1nat
                } else {
                    0nat
                }) == total_refs(qs0, id));
                if id == item_id {
                    assert(count0 >= 2);
                } else {
                    assert(items0.contains_key(id));
                    assert(items0[id].1 == total_refs(qs0, id));
                }
            }
            assert forall|id: ItemId|
                !self.items_model().contains_key(id) implies total_refs(
                self.queues_model(),
                id,
            ) == 0 by {
                assert(total_refs(qs1, id) + (if q0.last() == id {
                    1nat
                } else {
                    0nat
                }) == total_refs(qs0, id));
                if id == item_id {
                    assert(count0 == 1);
                } else {
                    assert(!items0.contains_key(id));
                    assert(total_refs(qs0, id) == 0);
                }
            }
        }
        Some(item)
    }
}

/// In the Shared Multi-Queue, reference counts are independent across
/// owners: enqueue one item identity into two different owners' queues, and
/// dequeueing it from the first owner still leaves the item stored for the
/// second; dequeueing it from both purges it from the shared table.
pub proof fn lemma_smq_ref_count_independence<Id, Item, ItemId>(
    items0: Map<ItemId, (Item, nat)>,
    qs0: Map<Id, Seq<ItemId>>,
    o1: Id,
    o2: Id,
    item: Item,
    item_id: ItemId,
)
    requires
        o1 != o2,
        !items0.contains_key(item_id),
        qs0.contains_key(o1) ==> qs0[o1].len() == 0,
        qs0.contains_key(o2) ==> qs0[o2].len() == 0,
    ensures
        ({
            let items1 = smq_enq_items(items0, item, item_id);
            let qs1 = smq_enq_queues(qs0, o1, item_id);
            let items2 = smq_enq_items(items1, item, item_id);
            let qs2 = smq_enq_queues(qs1, o2, item_id);
            let deq1 = smq_deq_model(items2, qs2, o1);
            let deq2 = smq_deq_model(deq1.0, deq1.1, o2);
            &&& deq1.2 == Some(item)
            &&& deq1.0.contains_key(item_id)
            &&& deq1.0[item_id] == (item, 1nat)
            &&& deq2.2 == Some(item)
            &&& !deq2.0.contains_key(item_id)
        }),
{
    let items1 = smq_enq_items(items0, item, item_id);
    let qs1 = smq_enq_queues(qs0, o1, item_id);
    let items2 = smq_enq_items(items1, item, item_id);
    let qs2 = smq_enq_queues(qs1, o2, item_id);
    assert(items2[item_id] == (item, 2nat));
    assert(qs2[o1] =~= seq![item_id]);
    assert(qs2[o2] =~= seq![item_id]);
    let deq1 = smq_deq_model(items2, qs2, o1);
    assert(deq1.1[o2] =~= seq![item_id]);
    assert(deq1.0[item_id] == (item, 1nat));
    let deq2 = smq_deq_model(deq1.0, deq1.1, o2);
    assert(!deq2.0.contains_key(item_id));
}

} // verus!
