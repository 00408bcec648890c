//! The ledger of objects a scenario run has admitted, and how each scripted operation
//! reads and extends it.
use vstd::prelude::*;

use crate::conversion::{opt_text_view, TextView};
use crate::driver::{
    correction_outcome, correction_target_input, endpoint, forget_target, forgettable, AdmittedObject,
    CorrectionTarget, DriverError, MemoryEndpoint, ObjectType,
};
use crate::render::decimal_text;
use crate::text::{contains_text, seq_contains_text, string_of};
use crate::textmap::TextMap;

verus! {

/// An admitted object seen through the views of its texts.
pub type AdmittedView = (ObjectType, Option<TextView>, Option<TextView>, Option<TextView>);

pub open spec fn admitted_view(o: AdmittedObject) -> AdmittedView {
    (
        o.object_type,
        opt_text_view(o.source_episode_external_id),
        opt_text_view(o.original_raw_ref),
        opt_text_view(o.original_setting_key),
    )
}

/// What the ledger records under `key`.
pub open spec fn entry(ledger: TextMap<AdmittedObject>, key: TextView) -> Option<AdmittedView> {
    match ledger.at(key) {
        Some(o) => Some(admitted_view(o)),
        None => None,
    }
}

fn object(
    object_type: ObjectType,
    source_episode_external_id: Option<String>,
    original_raw_ref: Option<String>,
    original_setting_key: Option<String>,
) -> (o: AdmittedObject)
    ensures
        o == (AdmittedObject {
            object_type,
            source_episode_external_id,
            original_raw_ref,
            original_setting_key,
        }),
{
    AdmittedObject { object_type, source_episode_external_id, original_raw_ref, original_setting_key }
}

/// A ledger that holds the scenario's entities and nothing else.
pub fn entity_ledger(entity_ids: &Vec<String>) -> (ledger: TextMap<AdmittedObject>)
    ensures
        ledger.wf(),
        forall|key: TextView|
            #[trigger] entry(ledger, key) == if seq_contains_text(entity_ids@, key) {
                Some((ObjectType::Entity, None::<TextView>, None::<TextView>, None::<TextView>))
            } else {
                None
            },
{
    let mut ledger: TextMap<AdmittedObject> = TextMap::new();
    let mut i: usize = 0;
    while i < entity_ids.len()
        invariant
            i <= entity_ids@.len(),
            ledger.wf(),
            forall|key: TextView|
                #[trigger] entry(ledger, key) == if seq_contains_text(entity_ids@.subrange(0, i as int), key) {
                    Some((ObjectType::Entity, None::<TextView>, None::<TextView>, None::<TextView>))
                } else {
                    None
                },
        decreases entity_ids@.len() - i,
    {
        let ghost before = ledger;
        ledger.insert(entity_ids[i].as_str(), object(ObjectType::Entity, None, None, None));
        assert forall|key: TextView| #[trigger] entry(ledger, key) == if seq_contains_text(
            entity_ids@.subrange(0, i + 1),
            key,
        ) {
            Some((ObjectType::Entity, None::<TextView>, None::<TextView>, None::<TextView>))
        } else {
            None
        } by {
            let prefix = entity_ids@.subrange(0, i as int);
            let next = entity_ids@.subrange(0, i + 1);
            if key == entity_ids@[i as int]@ {
                assert(next[i as int]@ == key);
            } else {
                assert(entry(ledger, key) == entry(before, key));
                if seq_contains_text(next, key) {
                    let j = choose|j: int| 0 <= j < next.len() && #[trigger] next[j]@ == key;
                    assert(prefix[j]@ == key);
                }
                if seq_contains_text(prefix, key) {
                    let j = choose|j: int| 0 <= j < prefix.len() && #[trigger] prefix[j]@ == key;
                    assert(next[j]@ == key);
                }
            }
        }
        i = i + 1;
    }
    assert(entity_ids@.subrange(0, entity_ids@.len() as int) =~= entity_ids@);
    ledger
}

/// How two objects are related by a scripted association.
#[derive(Debug, Clone, Copy, PartialEq, Eq, Structural)]
pub enum LinkRelation {
    Mentions,
    Involves,
    PartOfThread,
}

/// A link to write: its external id, its ends, its relation and its rationale.
#[derive(Debug, Clone, PartialEq, Eq)]
pub struct LinkPlan {
    pub external_id: String,
    pub from: MemoryEndpoint,
    pub relation: LinkRelation,
    pub to: MemoryEndpoint,
    pub rationale: String,
}

/// A link seen through the views of its texts.
pub type LinkView = (TextView, (ObjectType, TextView), LinkRelation, (ObjectType, TextView), TextView);

pub open spec fn link_view(l: LinkPlan) -> LinkView {
    (
        l.external_id@,
        (l.from.object_type, l.from.external_id@),
        l.relation,
        (l.to.object_type, l.to.external_id@),
        l.rationale@,
    )
}

pub open spec fn links_view(v: Seq<LinkPlan>) -> Seq<LinkView> {
    v.map_values(|l: LinkPlan| link_view(l))
}

/// `n` in decimal with at least four digits, zeros in front.
pub open spec fn four_digits(n: nat) -> TextView {
    crate::assemble::padded4(n)
}

/// The two links that associate the remembered episode with its `index`-th entity:
/// the episode mentions the entity, and the entity is involved in the episode.
pub open spec fn entity_links(
    fixture_id: TextView,
    event_id: TextView,
    episode_id: TextView,
    entity_id: TextView,
    index: nat,
) -> Seq<LinkView> {
    let stem = "continuity:"@ + fixture_id + ":"@ + event_id + ":entity-"@;
    let rationale = "fixture-scripted entity association "@ + event_id;
    seq![
        (
            stem + "mentions-"@ + four_digits(index),
            (ObjectType::Episode, episode_id),
            LinkRelation::Mentions,
            (ObjectType::Entity, entity_id),
            rationale,
        ),
        (
            stem + "involves-"@ + four_digits(index),
            (ObjectType::Entity, entity_id),
            LinkRelation::Involves,
            (ObjectType::Episode, episode_id),
            rationale,
        ),
    ]
}

/// The association links of the first `n` entities of a remembered turn.
pub open spec fn association_links(
    fixture_id: TextView,
    event_id: TextView,
    episode_id: TextView,
    entities: Seq<String>,
    n: int,
) -> Seq<LinkView>
    decreases n,
{
    if n <= 0 {
        Seq::empty()
    } else {
        association_links(fixture_id, event_id, episode_id, entities, n - 1) + entity_links(
            fixture_id,
            event_id,
            episode_id,
            entities[n - 1]@,
            (n - 1) as nat,
        )
    }
}

/// The association links of a remembered turn come two per entity, in the order of the
/// entities: the `i`-th entity is mentioned by the episode at position `2 i` and is
/// involved in the episode at position `2 i + 1`, each under the entity's own index.
pub proof fn lemma_association_links_pair_each_entity(
    fixture_id: TextView,
    event_id: TextView,
    episode_id: TextView,
    entities: Seq<String>,
    n: int,
)
    requires
        0 <= n <= entities.len(),
    ensures
        association_links(fixture_id, event_id, episode_id, entities, n).len() == 2 * n,
        forall|i: int|
            #![trigger entities[i]]
            0 <= i < n ==> {
                let links = association_links(fixture_id, event_id, episode_id, entities, n);
                let stem = "continuity:"@ + fixture_id + ":"@ + event_id + ":entity-"@;
                &&& links[2 * i].0 == stem + "mentions-"@ + four_digits(i as nat)
                &&& links[2 * i].1 == (ObjectType::Episode, episode_id)
                &&& links[2 * i].2 == LinkRelation::Mentions
                &&& links[2 * i].3 == (ObjectType::Entity, entities[i]@)
                &&& links[2 * i + 1].0 == stem + "involves-"@ + four_digits(i as nat)
                &&& links[2 * i + 1].1 == (ObjectType::Entity, entities[i]@)
                &&& links[2 * i + 1].2 == LinkRelation::Involves
                &&& links[2 * i + 1].3 == (ObjectType::Episode, episode_id)
            },
    decreases n,
{
    if n > 0 {
        lemma_association_links_pair_each_entity(fixture_id, event_id, episode_id, entities, n - 1);
        let prev = association_links(fixture_id, event_id, episode_id, entities, n - 1);
        let links = association_links(fixture_id, event_id, episode_id, entities, n);
        assert forall|i: int| #![trigger entities[i]] 0 <= i < n implies {
            let stem = "continuity:"@ + fixture_id + ":"@ + event_id + ":entity-"@;
            &&& links[2 * i].0 == stem + "mentions-"@ + four_digits(i as nat)
            &&& links[2 * i].1 == (ObjectType::Episode, episode_id)
            &&& links[2 * i].2 == LinkRelation::Mentions
            &&& links[2 * i].3 == (ObjectType::Entity, entities[i]@)
            &&& links[2 * i + 1].0 == stem + "involves-"@ + four_digits(i as nat)
            &&& links[2 * i + 1].1 == (ObjectType::Entity, entities[i]@)
            &&& links[2 * i + 1].2 == LinkRelation::Involves
            &&& links[2 * i + 1].3 == (ObjectType::Episode, episode_id)
        } by {
            if i < n - 1 {
                assert(links[2 * i] == prev[2 * i]);
                assert(links[2 * i + 1] == prev[2 * i + 1]);
                assert(entities[i] == entities[i]);
            }
        }
    }
}

/// The links at positions `2 i` and `2 i + 1` join the episode and the entity: the
/// episode mentions the entity, and the entity is involved in the episode.
pub open spec fn links_entity_pair(links: Seq<LinkPlan>, episode_id: TextView, entity_id: TextView, i: int) -> bool {
    &&& links[2 * i].from.object_type == ObjectType::Episode
    &&& links[2 * i].from.external_id@ == episode_id
    &&& links[2 * i].relation == LinkRelation::Mentions
    &&& links[2 * i].to.object_type == ObjectType::Entity
    &&& links[2 * i].to.external_id@ == entity_id
    &&& links[2 * i + 1].from.object_type == ObjectType::Entity
    &&& links[2 * i + 1].from.external_id@ == entity_id
    &&& links[2 * i + 1].relation == LinkRelation::Involves
    &&& links[2 * i + 1].to.object_type == ObjectType::Episode
    &&& links[2 * i + 1].to.external_id@ == episode_id
}

/// The reference under which a remembered turn was written.
pub open spec fn remember_raw_ref(fixture_id: TextView, event_id: TextView, scripted_time: TextView) -> TextView {
    "continuity://"@ + fixture_id + "/"@ + event_id + "?at="@ + scripted_time
}

/// What remembering a turn writes besides the episode: a thread to open, if the turn
/// names one that is not admitted yet, and the links to write.
pub struct RememberPlan {
    pub original_raw_ref: String,
    pub open_thread: bool,
    pub links: Vec<LinkPlan>,
}

fn text4(a: &str, b: &str, c: &str, d: &str) -> (s: String)
    ensures
        s@ == a@ + b@ + c@ + d@,
{
    let mut s = string_of(a);
    s.append(b);
    s.append(c);
    s.append(d);
    s
}

fn push_entity_links(
    links: &mut Vec<LinkPlan>,
    fixture_id: &str,
    event_id: &str,
    episode_id: &str,
    entity_id: &str,
    index: usize,
)
    ensures
        links_view(final(links)@) == links_view(old(links)@) + entity_links(
            fixture_id@,
            event_id@,
            episode_id@,
            entity_id@,
            index as nat,
        ),
{
    let stem = text4("continuity:", fixture_id, ":", event_id);
    let number = crate::assemble::padded4_text(index);
    let rationale = text4("fixture-scripted entity association ", event_id, "", "");
    let mentions = text4(stem.as_str(), ":entity-", "mentions-", number.as_str());
    let involves = text4(stem.as_str(), ":entity-", "involves-", number.as_str());
    let ghost before = links_view(links@);
    links.push(
        LinkPlan {
            external_id: mentions,
            from: MemoryEndpoint { object_type: ObjectType::Episode, external_id: string_of(episode_id) },
            relation: LinkRelation::Mentions,
            to: MemoryEndpoint { object_type: ObjectType::Entity, external_id: string_of(entity_id) },
            rationale: rationale.clone(),
        },
    );
    links.push(
        LinkPlan {
            external_id: involves,
            from: MemoryEndpoint { object_type: ObjectType::Entity, external_id: string_of(entity_id) },
            relation: LinkRelation::Involves,
            to: MemoryEndpoint { object_type: ObjectType::Episode, external_id: string_of(episode_id) },
            rationale,
        },
    );
    proof {
        reveal_strlit("");
    }
    assert(links_view(links@) =~= before + entity_links(
        fixture_id@,
        event_id@,
        episode_id@,
        entity_id@,
        index as nat,
    ));
}

/// Whether remembering a turn opens the thread it names: the thread is not admitted
/// yet, once the turn's episode and observation are.
pub open spec fn opens_thread(
    before: TextMap<AdmittedObject>,
    episode_id: TextView,
    observation_id: TextView,
    thread_id: Option<TextView>,
) -> bool {
    thread_id matches Some(t) && t != episode_id && t != observation_id && before.at(t) is None
}

/// What the ledger records under `key` once a turn is remembered: its episode and
/// observation (with the turn's reference unless its texts were given per surface), the
/// thread it opens, and its derived memory, each later one replacing an earlier one
/// under the same id.
pub open spec fn entry_after_remember(
    before: TextMap<AdmittedObject>,
    key: TextView,
    episode_id: TextView,
    observation_id: TextView,
    derived_id: TextView,
    raw_ref: Option<TextView>,
    thread_id: Option<TextView>,
) -> Option<AdmittedView> {
    if key == derived_id {
        Some((ObjectType::DerivedMemory, Some(episode_id), None, None))
    } else if opens_thread(before, episode_id, observation_id, thread_id) && key == thread_id->0 {
        Some((ObjectType::MemoryThread, None, None, None))
    } else if key == observation_id {
        Some((ObjectType::Observation, Some(episode_id), raw_ref, Some(episode_id)))
    } else if key == episode_id {
        Some((ObjectType::Episode, Some(episode_id), raw_ref, Some(episode_id)))
    } else {
        entry(before, key)
    }
}

/// The link that places a remembered turn's derived memory in its thread.
pub open spec fn thread_link(
    fixture_id: TextView,
    event_id: TextView,
    derived_id: TextView,
    thread_id: TextView,
) -> LinkView {
    (
        "continuity:"@ + fixture_id + ":"@ + event_id + ":derived-thread"@,
        (ObjectType::DerivedMemory, derived_id),
        LinkRelation::PartOfThread,
        (ObjectType::MemoryThread, thread_id),
        "fixture-scripted thread membership "@ + event_id,
    )
}

/// Records a remembered turn in the ledger and plans what else it writes: its episode
/// and observation, the thread it names if that is new, its derived memory, and the
/// links that associate it with its entities and its thread.
pub fn admit_remember(
    ledger: &mut TextMap<AdmittedObject>,
    fixture_id: &str,
    event_id: &str,
    episode_id: &str,
    observation_id: &str,
    derived_id: &str,
    scripted_time: &str,
    has_surface_texts: bool,
    thread_id: Option<&str>,
    entity_ids: &Vec<String>,
) -> (plan: RememberPlan)
    requires
        old(ledger).wf(),
    ensures
        final(ledger).wf(),
        plan.original_raw_ref@ == remember_raw_ref(fixture_id@, event_id@, scripted_time@),
        plan.open_thread == opens_thread(
            *old(ledger),
            episode_id@,
            observation_id@,
            crate::naming::opt_view(thread_id),
        ),
        links_view(plan.links@) == association_links(
            fixture_id@,
            event_id@,
            episode_id@,
            entity_ids@,
            entity_ids@.len() as int,
        ) + match thread_id {
            Some(t) => seq![thread_link(fixture_id@, event_id@, derived_id@, t@)],
            None => Seq::empty(),
        },
        forall|key: TextView|
            #[trigger] entry(*final(ledger), key) == entry_after_remember(
                *old(ledger),
                key,
                episode_id@,
                observation_id@,
                derived_id@,
                if has_surface_texts {
                    None
                } else {
                    Some(remember_raw_ref(fixture_id@, event_id@, scripted_time@))
                },
                crate::naming::opt_view(thread_id),
            ),
        plan.links@.len() >= 2 * entity_ids@.len(),
        forall|i: int|
            0 <= i < entity_ids@.len() ==> #[trigger] links_entity_pair(plan.links@, episode_id@, entity_ids@[i]@, i),
{
    let ghost start = *ledger;
    let mut raw_ref = text4("continuity://", fixture_id, "/", event_id);
    raw_ref.append("?at=");
    raw_ref.append(scripted_time);
    let kept_ref = if has_surface_texts {
        None
    } else {
        Some(raw_ref.clone())
    };
    ledger.insert(
        episode_id,
        object(ObjectType::Episode, Some(string_of(episode_id)), kept_ref.clone(), Some(string_of(episode_id))),
    );
    let ghost after_episode = *ledger;
    ledger.insert(
        observation_id,
        object(ObjectType::Observation, Some(string_of(episode_id)), kept_ref, Some(string_of(episode_id))),
    );
    let ghost after_observation = *ledger;
    let mut links: Vec<LinkPlan> = Vec::new();
    let mut i: usize = 0;
    while i < entity_ids.len()
        invariant
            i <= entity_ids@.len(),
            links_view(links@) == association_links(fixture_id@, event_id@, episode_id@, entity_ids@, i as int),
        decreases entity_ids@.len() - i,
    {
        push_entity_links(&mut links, fixture_id, event_id, episode_id, entity_ids[i].as_str(), i);
        i = i + 1;
    }
    let mut open_thread = false;
    match thread_id {
        Some(t) => {
            if !ledger.contains_key(t) {
                ledger.insert(t, object(ObjectType::MemoryThread, None, None, None));
                open_thread = true;
            }
            let ghost before_links = links_view(links@);
            let mut link_id = text4("continuity:", fixture_id, ":", event_id);
            link_id.append(":derived-thread");
            links.push(
                LinkPlan {
                    external_id: link_id,
                    from: MemoryEndpoint { object_type: ObjectType::DerivedMemory, external_id: string_of(derived_id) },
                    relation: LinkRelation::PartOfThread,
                    to: MemoryEndpoint { object_type: ObjectType::MemoryThread, external_id: string_of(t) },
                    rationale: text4("fixture-scripted thread membership ", event_id, "", ""),
                },
            );
            proof {
                reveal_strlit("");
            }
            assert(links_view(links@) =~= before_links.push(thread_link(fixture_id@, event_id@, derived_id@, t@)));
        },
        None => {},
    }
    let ghost after_thread = *ledger;
    ledger.insert(
        derived_id,
        object(ObjectType::DerivedMemory, Some(string_of(episode_id)), None, None),
    );
    proof {
        assert forall|key: TextView| #[trigger] entry(*ledger, key) == entry_after_remember(
            start,
            key,
            episode_id@,
            observation_id@,
            derived_id@,
            if has_surface_texts {
                None
            } else {
                Some(remember_raw_ref(fixture_id@, event_id@, scripted_time@))
            },
            crate::naming::opt_view(thread_id),
        ) by {
            if key != derived_id@ {
                assert(ledger.at(key) == after_thread.at(key));
                if key != observation_id@ {
                    if key != episode_id@ {
                        assert(after_observation.at(key) == after_episode.at(key));
                        assert(after_episode.at(key) == start.at(key));
                    }
                }
            }
        }
    }
    assert(links_view(links@) =~= association_links(
        fixture_id@,
        event_id@,
        episode_id@,
        entity_ids@,
        entity_ids@.len() as int,
    ) + match thread_id {
        Some(t) => seq![thread_link(fixture_id@, event_id@, derived_id@, t@)],
        None => Seq::empty(),
    });
    proof {
        lemma_association_links_pair_each_entity(
            fixture_id@,
            event_id@,
            episode_id@,
            entity_ids@,
            entity_ids@.len() as int,
        );
    }
    let plan = RememberPlan { original_raw_ref: raw_ref, open_thread, links };
    proof {
        let assoc = association_links(fixture_id@, event_id@, episode_id@, entity_ids@, entity_ids@.len() as int);
        let lv = links_view(plan.links@);
        assert(lv == assoc + match thread_id {
            Some(t) => seq![thread_link(fixture_id@, event_id@, derived_id@, t@)],
            None => Seq::<LinkView>::empty(),
        });
        assert(assoc.len() == 2 * entity_ids@.len());
        assert(lv.len() == plan.links@.len());
        assert forall|i: int| 0 <= i < entity_ids@.len() implies #[trigger] links_entity_pair(
            plan.links@,
            episode_id@,
            entity_ids@[i]@,
            i,
        ) by {
            assert(entity_ids@[i] == entity_ids@[i]);
            assert(lv[2 * i] == assoc[2 * i]);
            assert(lv[2 * i + 1] == assoc[2 * i + 1]);
            assert(lv[2 * i] == link_view(plan.links@[2 * i]));
            assert(lv[2 * i + 1] == link_view(plan.links@[2 * i + 1]));
            assert(assoc[2 * i].3 == (ObjectType::Entity, entity_ids@[i]@));
            assert(link_view(plan.links@[2 * i]).3 == (ObjectType::Entity, entity_ids@[i]@));
            assert(plan.links@[2 * i].to.object_type == ObjectType::Entity);
        }
    }
    plan
}

/// Records a scripted correction: the target must be admitted and come from a source
/// episode, and must be correctable; the replacement is then admitted as a derived
/// memory of that episode. Gives the correction target, the memories it supersedes and
/// the source episode.
pub fn admit_correction(
    ledger: &mut TextMap<AdmittedObject>,
    fixture_id: &str,
    target_id: &str,
    replacement_id: &str,
) -> (r: Result<(CorrectionTarget, Vec<String>, String), DriverError>)
    requires
        old(ledger).wf(),
    ensures
        final(ledger).wf(),
        match old(ledger).at(target_id@) {
            None => r matches Err(DriverError::CorrectionNotAdmitted { fixture_id: f, target_external_id: t })
                && f@ == fixture_id@ && t@ == target_id@ && *final(ledger) == *old(ledger),
            Some(o) => match o.source_episode_external_id {
                None => r matches Err(DriverError::NoSourceEpisode { target_external_id: t }) && t@
                    == target_id@ && *final(ledger) == *old(ledger),
                Some(src) => match r {
                    Ok((t, sup, s)) => correction_outcome(fixture_id@, target_id@, o, Ok((t, sup)))
                        && s@ == src@ && forall|key: TextView|
                        #[trigger] entry(*final(ledger), key) == if key == replacement_id@ {
                            Some((ObjectType::DerivedMemory, Some(src@), None::<TextView>, None::<TextView>))
                        } else {
                            entry(*old(ledger), key)
                        },
                    Err(e) => correction_outcome(fixture_id@, target_id@, o, Err(e)) && *final(ledger)
                        == *old(ledger),
                },
            },
        },
{
    let target = match ledger.get(target_id) {
        Some(t) => t,
        None => {
            return Err(
                DriverError::CorrectionNotAdmitted {
                    fixture_id: string_of(fixture_id),
                    target_external_id: string_of(target_id),
                },
            );
        },
    };
    let source = match &target.source_episode_external_id {
        Some(s) => s.clone(),
        None => {
            return Err(DriverError::NoSourceEpisode { target_external_id: string_of(target_id) });
        },
    };
    let (correction, supersedes) = match correction_target_input(fixture_id, target_id, target) {
        Ok(x) => x,
        Err(e) => {
            return Err(e);
        },
    };
    let ghost before = *ledger;
    ledger.insert(replacement_id, object(ObjectType::DerivedMemory, Some(source.clone()), None, None));
    assert forall|key: TextView| #[trigger] entry(*ledger, key) == if key == replacement_id@ {
        Some((ObjectType::DerivedMemory, Some(source@), None::<TextView>, None::<TextView>))
    } else {
        entry(before, key)
    } by {
        if key != replacement_id@ {
            assert(ledger.at(key) == before.at(key));
        }
    }
    Ok((correction, supersedes, source))
}

/// The admitted object under `id` may be forgotten.
pub open spec fn forgettable_entry(ledger: TextMap<AdmittedObject>, id: TextView) -> bool {
    ledger.at(id) matches Some(o) && forgettable(o.object_type)
}

/// The targets of a scripted forget, one per named id, or the refusal of the first id
/// that is not admitted or cannot be forgotten.
pub fn forget_targets(ledger: &TextMap<AdmittedObject>, fixture_id: &str, ids: &Vec<String>) -> (r:
    Result<Vec<MemoryEndpoint>, DriverError>)
    requires
        ledger.wf(),
    ensures
        r is Ok <==> forall|k: int| 0 <= k < ids@.len() ==> forgettable_entry(*ledger, #[trigger] ids@[k]@),
        r matches Ok(v) ==> v@.len() == ids@.len() && forall|k: int|
            0 <= k < v@.len() ==> #[trigger] v@[k].external_id@ == ids@[k]@ && v@[k].object_type
                == ledger.at(ids@[k]@)->0.object_type,
        r matches Err(e) ==> exists|k: int|
            0 <= k < ids@.len() && !forgettable_entry(*ledger, #[trigger] ids@[k]@) && (forall|j: int|
                0 <= j < k ==> forgettable_entry(*ledger, #[trigger] ids@[j]@)) && match ledger.at(ids@[k]@) {
                None => e matches DriverError::ForgetNotAdmitted { fixture_id: f, target_external_id: t }
                    && f@ == fixture_id@ && t@ == ids@[k]@,
                Some(o) => e matches DriverError::CannotForget { fixture_id: f, object_type }
                    && f@ == fixture_id@ && object_type == o.object_type,
            },
{
    let mut out: Vec<MemoryEndpoint> = Vec::new();
    let mut k: usize = 0;
    while k < ids.len()
        invariant
            ledger.wf(),
            k <= ids@.len(),
            out@.len() == k,
            forall|j: int| 0 <= j < k ==> forgettable_entry(*ledger, #[trigger] ids@[j]@),
            forall|j: int|
                #![trigger out@[j]]
                0 <= j < k ==> out@[j].external_id@ == ids@[j]@ && out@[j].object_type
                    == ledger.at(ids@[j]@)->0.object_type,
        decreases ids@.len() - k,
    {
        match forget_target(fixture_id, ledger, ids[k].as_str()) {
            Ok(ep) => {
                let ghost before = out@;
                out.push(ep);
                assert forall|j: int|
                    #![trigger out@[j]]
                    0 <= j < k + 1 implies out@[j].external_id@ == ids@[j]@ && out@[j].object_type
                        == ledger.at(ids@[j]@)->0.object_type by {
                    if j < k {
                        assert(out@[j] == before[j]);
                    } else {
                        assert(out@[j] == ep);
                    }
                }
            },
            Err(e) => {
                assert(!forgettable_entry(*ledger, ids@[k as int]@));
                return Err(e);
            },
        }
        k = k + 1;
    }
    Ok(out)
}

/// The admitted object under `id` may be a link's end.
pub open spec fn usable_endpoint(ledger: TextMap<AdmittedObject>, id: TextView) -> bool {
    ledger.at(id) matches Some(a) && a.object_type != ObjectType::MemoryLink
}

/// A link may join any two admitted objects except links themselves: an admitted
/// episode, observation, entity, memory thread or derived memory is a usable end; an
/// admitted link, or an id not admitted, is not.
pub proof fn lemma_link_ends_by_kind(ledger: TextMap<AdmittedObject>, id: TextView)
    ensures
        usable_endpoint(ledger, id) <==> (ledger.at(id) matches Some(a) && (a.object_type == ObjectType::Episode
            || a.object_type == ObjectType::Observation || a.object_type == ObjectType::Entity
            || a.object_type == ObjectType::MemoryThread || a.object_type == ObjectType::DerivedMemory)),
{
}

/// Records a scripted link: both ends must be admitted objects other than links; the
/// link is then admitted.
pub fn admit_link(
    ledger: &mut TextMap<AdmittedObject>,
    fixture_id: &str,
    link_id: &str,
    from_id: &str,
    to_id: &str,
) -> (r: Result<(MemoryEndpoint, MemoryEndpoint), DriverError>)
    requires
        old(ledger).wf(),
    ensures
        final(ledger).wf(),
        r is Ok <==> (usable_endpoint(*old(ledger), from_id@) && usable_endpoint(*old(ledger), to_id@)),
        r matches Ok((from, to)) ==> from.external_id@ == from_id@ && from.object_type == old(
            ledger,
        ).at(from_id@)->0.object_type && to.external_id@ == to_id@ && to.object_type == old(
            ledger,
        ).at(to_id@)->0.object_type && forall|key: TextView|
            #[trigger] entry(*final(ledger), key) == if key == link_id@ {
                Some((ObjectType::MemoryLink, None::<TextView>, None::<TextView>, None::<TextView>))
            } else {
                entry(*old(ledger), key)
            },
        r matches Err(e) ==> *final(ledger) == *old(ledger) && match old(ledger).at(from_id@) {
            None => e matches DriverError::EndpointNotAdmitted { fixture_id: f, external_id: x }
                && f@ == fixture_id@ && x@ == from_id@,
            Some(a) => if a.object_type == ObjectType::MemoryLink {
                e matches DriverError::LinkAsEndpoint { fixture_id: f } && f@ == fixture_id@
            } else {
                match old(ledger).at(to_id@) {
                    None => e matches DriverError::EndpointNotAdmitted { fixture_id: f, external_id: x }
                        && f@ == fixture_id@ && x@ == to_id@,
                    Some(b) => e matches DriverError::LinkAsEndpoint { fixture_id: f } && f@
                        == fixture_id@,
                }
            },
        },
{
    let from = match endpoint(fixture_id, ledger, from_id) {
        Ok(x) => x,
        Err(e) => {
            return Err(e);
        },
    };
    let to = match endpoint(fixture_id, ledger, to_id) {
        Ok(x) => x,
        Err(e) => {
            return Err(e);
        },
    };
    let ghost before = *ledger;
    ledger.insert(link_id, object(ObjectType::MemoryLink, None, None, None));
    assert forall|key: TextView| #[trigger] entry(*ledger, key) == if key == link_id@ {
        Some((ObjectType::MemoryLink, None::<TextView>, None::<TextView>, None::<TextView>))
    } else {
        entry(before, key)
    } by {
        if key != link_id@ {
            assert(ledger.at(key) == before.at(key));
        }
    }
    Ok((from, to))
}

/// The reference an experience's episode or observation is admitted with:
/// `eval://{namespace}/{object type}/{external id}`.
pub open spec fn eval_ref(namespace: TextView, object_type: TextView, id: TextView) -> TextView {
    "eval://"@ + namespace + "/"@ + object_type + "/"@ + id
}

fn eval_ref_text(namespace: &str, object_type: &str, id: &str) -> (s: String)
    ensures
        s@ == eval_ref(namespace@, object_type@, id@),
{
    let mut s = string_of("eval://");
    s.append(namespace);
    s.append("/");
    s.append(object_type);
    s.append("/");
    s.append(id);
    s
}

fn copy_opt(o: &Option<String>) -> (r: Option<String>)
    ensures
        opt_text_view(r) == opt_text_view(*o),
{
    match o {
        Some(s) => Some(s.clone()),
        None => None,
    }
}

/// Records a scripted experience once written: its episode, then its observation, both
/// drawn from the episode, each with its `eval://` reference and the scene's setting key.
pub fn admit_experience(
    ledger: &mut TextMap<AdmittedObject>,
    namespace: &str,
    episode_id: &str,
    observation_id: &str,
    setting_key: &Option<String>,
)
    requires
        old(ledger).wf(),
    ensures
        final(ledger).wf(),
        forall|key: TextView|
            #[trigger] entry(*final(ledger), key) == if key == observation_id@ {
                Some(
                    (
                        ObjectType::Observation,
                        Some(episode_id@),
                        Some(eval_ref(namespace@, "observation"@, observation_id@)),
                        opt_text_view(*setting_key),
                    ),
                )
            } else if key == episode_id@ {
                Some(
                    (
                        ObjectType::Episode,
                        Some(episode_id@),
                        Some(eval_ref(namespace@, "episode"@, episode_id@)),
                        opt_text_view(*setting_key),
                    ),
                )
            } else {
                entry(*old(ledger), key)
            },
{
    let ghost start = *ledger;
    let episode = object(
        ObjectType::Episode,
        Some(string_of(episode_id)),
        Some(eval_ref_text(namespace, "episode", episode_id)),
        copy_opt(setting_key),
    );
    ledger.insert(episode_id, episode);
    let ghost middle = *ledger;
    let observation = object(
        ObjectType::Observation,
        Some(string_of(episode_id)),
        Some(eval_ref_text(namespace, "observation", observation_id)),
        copy_opt(setting_key),
    );
    ledger.insert(observation_id, observation);
    proof {
        reveal_strlit("episode");
        reveal_strlit("observation");
        assert forall|key: TextView| #[trigger] entry(*ledger, key) == if key == observation_id@ {
            Some(
                (
                    ObjectType::Observation,
                    Some(episode_id@),
                    Some(eval_ref(namespace@, "observation"@, observation_id@)),
                    opt_text_view(*setting_key),
                ),
            )
        } else if key == episode_id@ {
            Some(
                (
                    ObjectType::Episode,
                    Some(episode_id@),
                    Some(eval_ref(namespace@, "episode"@, episode_id@)),
                    opt_text_view(*setting_key),
                ),
            )
        } else {
            entry(start, key)
        } by {
            if key != observation_id@ {
                assert(ledger.at(key) == middle.at(key));
                if key != episode_id@ {
                    assert(middle.at(key) == start.at(key));
                }
            }
        }
    }
}

/// A derived memory of a scripted derivation: its id and the first episode it is drawn
/// from, if any.
pub struct DerivedAdmission {
    pub external_id: String,
    pub source_episode_external_id: Option<String>,
}

/// What the ledger records under `key` once the first `n` derived memories are admitted,
/// a later one replacing an earlier one under the same id.
pub open spec fn entry_after_derived(
    before: TextMap<AdmittedObject>,
    memories: Seq<DerivedAdmission>,
    n: int,
    key: TextView,
) -> Option<AdmittedView>
    decreases n,
{
    if n <= 0 {
        entry(before, key)
    } else if memories[n - 1].external_id@ == key {
        Some(
            (
                ObjectType::DerivedMemory,
                opt_text_view(memories[n - 1].source_episode_external_id),
                None,
                None,
            ),
        )
    } else {
        entry_after_derived(before, memories, n - 1, key)
    }
}

/// Records the derived memories of a scripted derivation, in order.
pub fn admit_derived(ledger: &mut TextMap<AdmittedObject>, memories: &Vec<DerivedAdmission>)
    requires
        old(ledger).wf(),
    ensures
        final(ledger).wf(),
        forall|key: TextView|
            #[trigger] entry(*final(ledger), key) == entry_after_derived(
                *old(ledger),
                memories@,
                memories@.len() as int,
                key,
            ),
{
    let ghost start = *ledger;
    let mut i: usize = 0;
    while i < memories.len()
        invariant
            i <= memories@.len(),
            ledger.wf(),
            forall|key: TextView|
                #[trigger] entry(*ledger, key) == entry_after_derived(start, memories@, i as int, key),
        decreases memories@.len() - i,
    {
        let m = &memories[i];
        let source = match &m.source_episode_external_id {
            Some(s) => Some(s.clone()),
            None => None,
        };
        assert(opt_text_view(source) == opt_text_view(memories@[i as int].source_episode_external_id));
        let ghost before = *ledger;
        let value = object(ObjectType::DerivedMemory, source, None, None);
        ledger.insert(m.external_id.as_str(), value);
        assert forall|key: TextView| #[trigger] entry(*ledger, key) == entry_after_derived(
            start,
            memories@,
            i + 1,
            key,
        ) by {
            if key != m.external_id@ {
                assert(ledger.at(key) == before.at(key));
                assert(entry(before, key) == entry_after_derived(start, memories@, i as int, key));
            } else {
                assert(ledger.at(key) == Some(value));
            }
        }
        i = i + 1;
    }
}

} // verus!
