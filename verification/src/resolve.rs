//! How the adapter resolves external ids to memory ids, and renders a retrieved pack as
//! plain context text.
use vstd::prelude::*;

use crate::driver::{object_type_name, ObjectType};
use crate::render::{decimal_digits, decimal_text, quote, quoted};
use crate::text::{string_of, text_eq};
use crate::textmap::TextMap;

verus! {

/// The memory id of `id`: the persisted one, else the one pending in this batch.
pub open spec fn resolved(persisted: TextMap<u128>, pending: TextMap<u128>, id: Seq<char>) -> Option<u128> {
    match persisted.at(id) {
        Some(v) => Some(v),
        None => pending.at(id),
    }
}

/// An enrichment named an external id that is neither persisted nor pending.
#[derive(Debug, Clone, PartialEq, Eq)]
pub struct UnknownExternalId {
    pub kind: String,
    pub external_id: String,
}

impl UnknownExternalId {
    pub fn message(&self) -> (m: String)
        ensures
            m@ == self.kind@ + " enrichment references unknown external_id "@ + self.external_id@,
    {
        let mut m = self.kind.clone();
        m.append(" enrichment references unknown external_id ");
        m.append(self.external_id.as_str());
        m
    }
}

fn lookup(persisted: &TextMap<u128>, pending: &TextMap<u128>, id: &str) -> (r: Option<u128>)
    requires
        persisted.wf(),
        pending.wf(),
    ensures
        r == resolved(*persisted, *pending, id@),
{
    match persisted.get(id) {
        Some(v) => Some(*v),
        None => match pending.get(id) {
            Some(v) => Some(*v),
            None => None,
        },
    }
}

/// The memory ids of `external_ids`, in order, or the first that cannot be resolved.
pub fn resolve_ids(
    kind: &str,
    external_ids: &Vec<String>,
    persisted: &TextMap<u128>,
    pending: &TextMap<u128>,
) -> (r: Result<Vec<u128>, UnknownExternalId>)
    requires
        persisted.wf(),
        pending.wf(),
    ensures
        r is Ok <==> forall|k: int|
            0 <= k < external_ids@.len() ==> resolved(*persisted, *pending, #[trigger] external_ids@[k]@) is Some,
        r matches Ok(v) ==> v@.len() == external_ids@.len() && forall|k: int|
            0 <= k < v@.len() ==> Some(#[trigger] v@[k]) == resolved(*persisted, *pending, external_ids@[k]@),
        r matches Err(e) ==> e.kind@ == kind@ && exists|k: int|
            0 <= k < external_ids@.len() && e.external_id@ == external_ids@[k]@ && resolved(
                *persisted,
                *pending,
                #[trigger] external_ids@[k]@,
            ) is None && forall|j: int|
                0 <= j < k ==> resolved(*persisted, *pending, #[trigger] external_ids@[j]@) is Some,
{
    let mut out: Vec<u128> = Vec::new();
    let mut k: usize = 0;
    while k < external_ids.len()
        invariant
            persisted.wf(),
            pending.wf(),
            k <= external_ids@.len(),
            out@.len() == k,
            forall|j: int| 0 <= j < k ==> resolved(*persisted, *pending, #[trigger] external_ids@[j]@) is Some,
            forall|j: int| 0 <= j < k ==> Some(#[trigger] out@[j]) == resolved(*persisted, *pending, external_ids@[j]@),
        decreases external_ids@.len() - k,
    {
        match lookup(persisted, pending, external_ids[k].as_str()) {
            Some(id) => {
                out.push(id);
            },
            None => {
                return Err(
                    UnknownExternalId { kind: string_of(kind), external_id: external_ids[k].clone() },
                );
            },
        }
        k = k + 1;
    }
    Ok(out)
}

/// The object type written as `value`, if any.
pub open spec fn parsed_object_type(value: Seq<char>) -> Option<ObjectType> {
    if value == "episode"@ {
        Some(ObjectType::Episode)
    } else if value == "observation"@ {
        Some(ObjectType::Observation)
    } else if value == "entity"@ {
        Some(ObjectType::Entity)
    } else if value == "memory_thread"@ {
        Some(ObjectType::MemoryThread)
    } else if value == "derived_memory"@ {
        Some(ObjectType::DerivedMemory)
    } else if value == "memory_link"@ {
        Some(ObjectType::MemoryLink)
    } else {
        None
    }
}

/// Reads an object type from its snake-case name.
pub fn parse_object_type(value: &str) -> (r: Option<ObjectType>)
    ensures
        r == parsed_object_type(value@),
{
    if text_eq(value, "episode") {
        Some(ObjectType::Episode)
    } else if text_eq(value, "observation") {
        Some(ObjectType::Observation)
    } else if text_eq(value, "entity") {
        Some(ObjectType::Entity)
    } else if text_eq(value, "memory_thread") {
        Some(ObjectType::MemoryThread)
    } else if text_eq(value, "derived_memory") {
        Some(ObjectType::DerivedMemory)
    } else if text_eq(value, "memory_link") {
        Some(ObjectType::MemoryLink)
    } else {
        None
    }
}

/// The memory ids a namespace has persisted, by kind of object.
pub struct NamespaceIds {
    pub episodes: TextMap<u128>,
    pub observations: TextMap<u128>,
    pub entities: TextMap<u128>,
    pub threads: TextMap<u128>,
    pub derived_memories: TextMap<u128>,
}

/// The memory ids assigned in the batch being written, by kind of object.
pub struct PendingIds {
    pub entities: TextMap<u128>,
    pub threads: TextMap<u128>,
    pub derived_memories: TextMap<u128>,
    pub links: TextMap<u128>,
}

impl NamespaceIds {
    pub open spec fn wf(&self) -> bool {
        &&& self.episodes.wf()
        &&& self.observations.wf()
        &&& self.entities.wf()
        &&& self.threads.wf()
        &&& self.derived_memories.wf()
    }
}

impl PendingIds {
    pub open spec fn wf(&self) -> bool {
        &&& self.entities.wf()
        &&& self.threads.wf()
        &&& self.derived_memories.wf()
        &&& self.links.wf()
    }
}

/// The memory id of an endpoint of a given type: episodes and observations must be
/// persisted; entities, threads and derived memories may also be pending.
pub open spec fn endpoint_id(
    state: NamespaceIds,
    pending: PendingIds,
    t: ObjectType,
    id: Seq<char>,
) -> Option<u128> {
    match t {
        ObjectType::Episode => state.episodes.at(id),
        ObjectType::Observation => state.observations.at(id),
        ObjectType::Entity => resolved(state.entities, pending.entities, id),
        ObjectType::MemoryThread => resolved(state.threads, pending.threads, id),
        ObjectType::DerivedMemory => resolved(state.derived_memories, pending.derived_memories, id),
        ObjectType::MemoryLink => None,
    }
}

/// Why an enrichment link's endpoint could not be resolved.
#[derive(Debug, Clone, PartialEq, Eq)]
pub enum EndpointError {
    UnknownObjectType { value: String },
    LinkEndpoint,
    UnknownEndpoint { object_type: ObjectType, external_id: String },
}

pub open spec fn endpoint_error_text(e: EndpointError) -> Seq<char> {
    match e {
        EndpointError::UnknownObjectType { value } => "parse endpoint.object_type value "@ + quoted(
            value@,
        ),
        EndpointError::LinkEndpoint => "memory links cannot be endpoints in enrichment links"@,
        EndpointError::UnknownEndpoint { object_type, external_id } => "link endpoint "@
            + object_type_name(object_type) + " references unknown external_id "@ + external_id@,
    }
}

fn object_type_label(t: ObjectType) -> (s: String)
    ensures
        s@ == object_type_name(t),
{
    match t {
        ObjectType::Episode => String::from_str("Episode"),
        ObjectType::Observation => String::from_str("Observation"),
        ObjectType::Entity => String::from_str("Entity"),
        ObjectType::MemoryThread => String::from_str("MemoryThread"),
        ObjectType::DerivedMemory => String::from_str("DerivedMemory"),
        ObjectType::MemoryLink => String::from_str("MemoryLink"),
    }
}

impl EndpointError {
    pub fn message(&self) -> (m: String)
        ensures
            m@ == endpoint_error_text(*self),
    {
        match self {
            EndpointError::UnknownObjectType { value } => {
                let mut m = String::from_str("parse endpoint.object_type value ");
                m.append(quote(value.as_str()).as_str());
                m
            },
            EndpointError::LinkEndpoint => String::from_str(
                "memory links cannot be endpoints in enrichment links",
            ),
            EndpointError::UnknownEndpoint { object_type, external_id } => {
                let mut m = String::from_str("link endpoint ");
                m.append(object_type_label(*object_type).as_str());
                m.append(" references unknown external_id ");
                m.append(external_id.as_str());
                m
            },
        }
    }
}

/// Resolves an enrichment link's endpoint, written as an object type name and an external
/// id, to its object type and memory id; a link cannot be an endpoint.
pub fn resolve_endpoint(
    object_type: &str,
    external_id: &str,
    state: &NamespaceIds,
    pending: &PendingIds,
) -> (r: Result<(ObjectType, u128), EndpointError>)
    requires
        state.wf(),
        pending.wf(),
    ensures
        match parsed_object_type(object_type@) {
            None => r matches Err(EndpointError::UnknownObjectType { value }) && value@ == object_type@,
            Some(t) => if t == ObjectType::MemoryLink {
                r == Err::<(ObjectType, u128), EndpointError>(EndpointError::LinkEndpoint)
            } else {
                match endpoint_id(*state, *pending, t, external_id@) {
                    Some(id) => r == Ok::<(ObjectType, u128), EndpointError>((t, id)),
                    None => r matches Err(EndpointError::UnknownEndpoint { object_type: u, external_id: x })
                        && u == t && x@ == external_id@,
                }
            },
        },
{
    let t = match parse_object_type(object_type) {
        Some(t) => t,
        None => {
            return Err(EndpointError::UnknownObjectType { value: string_of(object_type) });
        },
    };
    let id = match t {
        ObjectType::Episode => match state.episodes.get(external_id) {
            Some(v) => Some(*v),
            None => None,
        },
        ObjectType::Observation => match state.observations.get(external_id) {
            Some(v) => Some(*v),
            None => None,
        },
        ObjectType::Entity => lookup(&state.entities, &pending.entities, external_id),
        ObjectType::MemoryThread => lookup(&state.threads, &pending.threads, external_id),
        ObjectType::DerivedMemory => lookup(&state.derived_memories, &pending.derived_memories, external_id),
        ObjectType::MemoryLink => {
            return Err(EndpointError::LinkEndpoint);
        },
    };
    match id {
        Some(id) => Ok((t, id)),
        None => Err(EndpointError::UnknownEndpoint { object_type: t, external_id: string_of(external_id) }),
    }
}

/// An item of a retrieved pack, as far as its context text shows it.
#[derive(Debug, Clone, PartialEq, Eq)]
pub struct ContextItem {
    pub kind: String,
    pub external_id: Option<String>,
    pub rank: usize,
    pub text: Option<String>,
}

/// The context line of an item that has a text.
pub open spec fn context_line(item: ContextItem) -> Seq<char> {
    "["@ + item.kind@ + ":"@ + match item.external_id {
        Some(x) => x@,
        None => "unknown"@,
    } + " rank="@ + decimal_digits(item.rank as nat) + "] "@ + item.text->0@
}

/// The context lines of the first `n` items, one per item that has a text.
pub open spec fn context_lines(items: Seq<ContextItem>, n: int) -> Seq<Seq<char>>
    decreases n,
{
    if n <= 0 {
        Seq::empty()
    } else if items[n - 1].text is Some {
        context_lines(items, n - 1).push(context_line(items[n - 1]))
    } else {
        context_lines(items, n - 1)
    }
}

/// `parts` joined by newlines.
pub open spec fn newline_joined(parts: Seq<Seq<char>>) -> Seq<char>
    decreases parts.len(),
{
    if parts.len() == 0 {
        Seq::empty()
    } else if parts.len() == 1 {
        parts[0]
    } else {
        newline_joined(parts.drop_last()) + "\n"@ + parts.last()
    }
}

/// The plain context text of a pack: one line per item that has a text, giving its kind,
/// its external id (or `unknown`), its rank and its text.
pub fn render_context_text(items: &Vec<ContextItem>) -> (s: String)
    ensures
        s@ == newline_joined(context_lines(items@, items@.len() as int)),
{
    let mut s = String::new();
    let mut any = false;
    let mut i: usize = 0;
    while i < items.len()
        invariant
            i <= items@.len(),
            any == (context_lines(items@, i as int).len() > 0),
            s@ == newline_joined(context_lines(items@, i as int)),
        decreases items@.len() - i,
    {
        let item = &items[i];
        match &item.text {
            Some(text) => {
                let ghost lines = context_lines(items@, i as int);
                if any {
                    s.append("\n");
                }
                any = true;
                s.append("[");
                s.append(item.kind.as_str());
                s.append(":");
                match &item.external_id {
                    Some(x) => s.append(x.as_str()),
                    None => s.append("unknown"),
                }
                s.append(" rank=");
                s.append(decimal_text(item.rank).as_str());
                s.append("] ");
                s.append(text.as_str());
                proof {
                    let next = lines.push(context_line(items@[i as int]));
                    assert(next.drop_last() =~= lines);
                    assert(context_lines(items@, i + 1) == next);
                }
            },
            None => {},
        }
        i = i + 1;
    }
    s
}

} // verus!
