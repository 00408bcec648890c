//! The durable external-id registry of a namespace: which memory id each external id
//! was given, in both directions, recorded only once the store has accepted a write.
use vstd::prelude::*;

use std::collections::BTreeMap;

use crate::order::{lemma_text_lt_total, text_less, text_lt};
use crate::resolve::PendingIds;
use crate::textmap::{lookup, TextMap};

verus! {

broadcast use vstd::laws_cmp::group_laws_cmp;

/// The registered ids of a namespace's enrichment objects, by kind, from external id to
/// memory id and back.
pub struct IdRegistry {
    pub entities: TextMap<u128>,
    pub threads: TextMap<u128>,
    pub derived_memories: TextMap<u128>,
    pub links: TextMap<u128>,
    pub reverse_entities: BTreeMap<u128, String>,
    pub reverse_threads: BTreeMap<u128, String>,
    pub reverse_derived_memories: BTreeMap<u128, String>,
    pub reverse_links: BTreeMap<u128, String>,
}

impl IdRegistry {
    pub open spec fn wf(&self) -> bool {
        &&& self.entities.wf()
        &&& self.threads.wf()
        &&& self.derived_memories.wf()
        &&& self.links.wf()
    }
}

/// Some pending entry assigns memory id `id`.
pub open spec fn assigns(entries: Seq<(String, u128)>, id: u128) -> bool {
    exists|k: int| 0 <= k < entries.len() && #[trigger] entries[k].1 == id
}

/// Entry `i` has the greatest external id among the pending entries that share its
/// memory id: walking the pending ids in order of external id, it is the last one
/// recorded under that memory id.
pub open spec fn last_for(entries: Seq<(String, u128)>, i: int) -> bool {
    forall|j: int|
        0 <= j < entries.len() && #[trigger] entries[j].1 == entries[i].1 ==> !text_lt(
            entries[i].0@,
            entries[j].0@,
        )
}

/// The forward map after registering `pending`: each pending external id reads its
/// pending memory id, every other key what it read before.
pub open spec fn forward_committed(before: TextMap<u128>, after: TextMap<u128>, pending: TextMap<u128>) -> bool {
    forall|key: Seq<char>|
        #[trigger] after.at(key) == match pending.at(key) {
            Some(id) => Some(id),
            None => before.at(key),
        }
}

/// The reverse map after registering `pending`: every assigned memory id reads the
/// greatest external id assigned it, every other memory id what it read before.
pub open spec fn reverse_committed(
    before: Map<u128, String>,
    after: Map<u128, String>,
    pending: Seq<(String, u128)>,
) -> bool {
    &&& forall|id: u128|
        #[trigger] after.contains_key(id) <==> before.contains_key(id) || assigns(pending, id)
    &&& forall|i: int|
        0 <= i < pending.len() && #[trigger] last_for(pending, i) ==> after[pending[i].1]@
            == pending[i].0@
    &&& forall|id: u128|
        !assigns(pending, id) && #[trigger] before.contains_key(id) ==> after[id] == before[id]
}

/// Whether some other pending entry with the same memory id has a greater external id.
fn outranked(entries: &Vec<(String, u128)>, i: usize) -> (r: bool)
    requires
        i < entries@.len(),
    ensures
        r == !last_for(entries@, i as int),
{
    let mut j: usize = 0;
    while j < entries.len()
        invariant
            i < entries@.len(),
            j <= entries@.len(),
            forall|k: int|
                0 <= k < j && #[trigger] entries@[k].1 == entries@[i as int].1 ==> !text_lt(
                    entries@[i as int].0@,
                    entries@[k].0@,
                ),
        decreases entries@.len() - j,
    {
        if entries[j].1 == entries[i].1 && text_less(entries[i].0.as_str(), entries[j].0.as_str()) {
            return true;
        }
        j = j + 1;
    }
    false
}

/// Registers one kind of pending ids in both directions.
fn commit_kind(forward: &mut TextMap<u128>, reverse: &mut BTreeMap<u128, String>, pending: &TextMap<u128>)
    requires
        old(forward).wf(),
        pending.wf(),
    ensures
        final(forward).wf(),
        forward_committed(*old(forward), *final(forward), *pending),
        reverse_committed(old(reverse)@, final(reverse)@, pending.entries@),
{
    let ghost old_fwd = *forward;
    let ghost old_rev = reverse@;
    let ghost es = pending.entries@;
    let mut i: usize = 0;
    while i < pending.entries.len()
        invariant
            es == pending.entries@,
            pending.wf(),
            i <= es.len(),
            forward.wf(),
            forall|key: Seq<char>|
                #[trigger] forward.at(key) == match lookup(es.subrange(0, i as int), key) {
                    Some(id) => Some(id),
                    None => old_fwd.at(key),
                },
            forall|id: u128|
                #[trigger] reverse@.contains_key(id) <==> old_rev.contains_key(id) || exists|k: int|
                    0 <= k < i && #[trigger] es[k].1 == id,
            forall|k: int| 0 <= k < i && #[trigger] last_for(es, k) ==> reverse@[es[k].1]@ == es[k].0@,
            forall|id: u128|
                (forall|k: int| 0 <= k < i ==> #[trigger] es[k].1 != id) && #[trigger] old_rev.contains_key(id)
                    ==> reverse@[id] == old_rev[id],
        decreases es.len() - i,
    {
        let key = &pending.entries[i].0;
        let id = pending.entries[i].1;
        let ghost before_fwd = *forward;
        forward.insert(key.as_str(), id);
        assert(es.subrange(0, i + 1).drop_last() =~= es.subrange(0, i as int));
        let skip = outranked(&pending.entries, i);
        // An outranked entry is recorded only to make its memory id present; the entry
        // that outranks it comes in its turn and records the greater external id.
        let already = reverse.contains_key(&id);
        if !skip || !already {
            let ghost before_rev = reverse@;
            reverse.insert(id, key.clone());
            proof {
                assert forall|k: int| 0 <= k < i + 1 && #[trigger] last_for(es, k) implies reverse@[es[k].1]@
                    == es[k].0@ by {
                    if k < i && es[k].1 == id {
                        if !skip {
                            assert(es[k].1 == es[i as int].1);
                            assert(!text_lt(es[k].0@, es[i as int].0@));
                            assert(!text_lt(es[i as int].0@, es[k].0@));
                            if es[k].0@ != es[i as int].0@ {
                                lemma_text_lt_total(es[k].0@, es[i as int].0@);
                            }
                            assert(false);
                        }
                    }
                }
            }
        }
        proof {
            assert forall|k: int| 0 <= k < i + 1 && #[trigger] last_for(es, k) implies reverse@[es[k].1]@
                == es[k].0@ by {
                if k == i && skip {
                    assert(!last_for(es, k));
                }
            }
        }
        i = i + 1;
    }
    proof {
        assert(es.subrange(0, es.len() as int) =~= es);
        assert forall|id: u128| !assigns(es, id) && #[trigger] old_rev.contains_key(id) implies reverse@[id]
            == old_rev[id] by {
            assert forall|k: int| 0 <= k < es.len() implies #[trigger] es[k].1 != id by {
                if es[k].1 == id {
                    assert(assigns(es, id));
                }
            }
        }
    }
}

/// Registers the ids of an enrichment write once the store has accepted it: when the
/// write was not accepted the registry is left as it was; otherwise each pending
/// external id of every kind reads its memory id, and each of those memory ids reads
/// back the greatest external id it was assigned.
pub fn commit_registered_ids(registry: &mut IdRegistry, pending: &PendingIds, accepted: bool)
    requires
        old(registry).wf(),
        pending.wf(),
    ensures
        final(registry).wf(),
        !accepted ==> *final(registry) == *old(registry),
        accepted ==> {
            &&& forward_committed(old(registry).entities, final(registry).entities, pending.entities)
            &&& forward_committed(old(registry).threads, final(registry).threads, pending.threads)
            &&& forward_committed(
                old(registry).derived_memories,
                final(registry).derived_memories,
                pending.derived_memories,
            )
            &&& forward_committed(old(registry).links, final(registry).links, pending.links)
            &&& reverse_committed(
                old(registry).reverse_entities@,
                final(registry).reverse_entities@,
                pending.entities.entries@,
            )
            &&& reverse_committed(
                old(registry).reverse_threads@,
                final(registry).reverse_threads@,
                pending.threads.entries@,
            )
            &&& reverse_committed(
                old(registry).reverse_derived_memories@,
                final(registry).reverse_derived_memories@,
                pending.derived_memories.entries@,
            )
            &&& reverse_committed(
                old(registry).reverse_links@,
                final(registry).reverse_links@,
                pending.links.entries@,
            )
        },
{
    if !accepted {
        return;
    }
    commit_kind(&mut registry.entities, &mut registry.reverse_entities, &pending.entities);
    commit_kind(&mut registry.threads, &mut registry.reverse_threads, &pending.threads);
    commit_kind(
        &mut registry.derived_memories,
        &mut registry.reverse_derived_memories,
        &pending.derived_memories,
    );
    commit_kind(&mut registry.links, &mut registry.reverse_links, &pending.links);
}

} // verus!
