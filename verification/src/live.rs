//! Source-neutral live events (`stead.live.v1`, a compatible superset of
//! `veil.live.v1`) and their conversion into journaled observations.

use vstd::prelude::*;
use vstd::string::StringExecFns;

use crate::ids::{named_entity_id, slug};
use crate::model::{Entity, EntityKind, Observation, Provenance};
use crate::state::{
    apply_all, apply_spec, lemma_apply_all_keeps, lemma_apply_all_prefix, JournalEvent, SiteModel, SiteState,
};
use crate::text::{push_text, text_eq};

verus! {

/// Where a live event came from.
#[derive(Debug)]
pub struct Source {
    /// "mqtt" | "meshtastic" | "http" | "ha-websocket" | …
    pub protocol: String,
    pub transport: Option<String>,
}

/// One live event from any source (sensor, tracker, drone, gateway).
#[derive(Debug)]
pub struct LiveEvent {
    /// Schema tag: "stead.live.v1" (accepts "veil.live.v1" too).
    pub schema: String,
    /// "position" | "message" | "data" | "status" | "media" | "command"
    pub kind: String,
    pub device_id: String,
    pub label: Option<String>,
    pub observed_at: String,
    /// The reported position, as its JSON text.
    pub position: Option<String>,
    /// The flat `data` object: each key with its value's JSON text, in
    /// key order.
    pub data: Option<Vec<(String, String)>>,
    pub source: Option<Source>,
}

/// Adapter trait: every source (MQTT subscriber, HA websocket, drone
/// upload endpoint) normalizes into [`LiveEvent`]s.
pub trait IngestAdapter {
    fn name(&self) -> &str;
}

/// The accepted schema tags.
pub open spec fn known_schema(s: Seq<char>) -> bool {
    s == "stead.live.v1"@ || s == "veil.live.v1"@
}

/// The accepted event kinds.
pub open spec fn known_kind(k: Seq<char>) -> bool {
    ||| k == "position"@
    ||| k == "message"@
    ||| k == "data"@
    ||| k == "status"@
    ||| k == "media"@
    ||| k == "command"@
}

/// What validation says of an event: `Ok` when it is well-formed, else
/// the guidance text.
pub open spec fn validation(e: LiveEvent) -> Result<(), Seq<char>> {
    if !known_schema(e.schema@) {
        Err("unsupported schema: "@ + e.schema@ + " (expected stead.live.v1 or veil.live.v1)"@)
    } else if !known_kind(e.kind@) {
        Err(
            "unsupported kind: "@ + e.kind@
                + " (expected one of position, message, data, status, media, command)"@,
        )
    } else if e.device_id@.len() == 0 {
        Err("device_id must not be empty"@)
    } else if e.observed_at@.len() == 0 {
        Err("observed_at must not be empty"@)
    } else {
        Ok(())
    }
}

/// The entity a live event's device is recorded as: `device:<slug>`.
pub open spec fn device_entity_id(e: LiveEvent) -> Seq<char> {
    "device"@ + seq![':'] + slug(e.device_id@)
}

/// The provenance source of a live event: its protocol, or `live`.
pub open spec fn live_source(e: LiveEvent) -> Seq<char> {
    match e.source {
        Some(s) => s.protocol@,
        None => "live"@,
    }
}

/// `o` is the observation of `(attr, value)` that event `e` yields.
pub open spec fn is_live_observation(o: Observation, e: LiveEvent, attr: Seq<char>, value: Seq<char>) -> bool {
    &&& o.entity_id@ == device_entity_id(e)
    &&& o.attr@ == attr
    &&& o.value@ == value
    &&& o.provenance.source@ == live_source(e)
    &&& o.provenance.run_id is None
    &&& o.provenance.confidence is None
    &&& o.provenance.observed_at@ == e.observed_at@
}

/// How many `data` entries an event carries.
pub open spec fn data_len(e: LiveEvent) -> int {
    match e.data {
        Some(d) => d@.len() as int,
        None => 0,
    }
}

/// `obs` are the observations of event `e`: one per `data` entry in
/// order, then one `position` observation when a position is present.
pub open spec fn are_live_observations(obs: Seq<Observation>, e: LiveEvent) -> bool {
    &&& obs.len() == data_len(e) + if e.position is Some { 1int } else { 0int }
    &&& forall|i: int|
        0 <= i < data_len(e) ==> is_live_observation(
            #[trigger] obs[i],
            e,
            e.data.unwrap()@[i].0@,
            e.data.unwrap()@[i].1@,
        )
    &&& e.position matches Some(p) ==> is_live_observation(obs[data_len(e)], e, "position"@, p@)
}

fn live_observation(e: &LiveEvent, entity_id: &String, attr: &String, value: &String) -> (o: Observation)
    requires
        entity_id@ == device_entity_id(*e),
    ensures
        is_live_observation(o, *e, attr@, value@),
{
    let source = match &e.source {
        Some(s) => s.protocol.clone(),
        None => String::from_str("live"),
    };
    Observation {
        entity_id: entity_id.clone(),
        attr: attr.clone(),
        value: value.clone(),
        provenance: Provenance {
            source,
            run_id: None,
            confidence: None,
            observed_at: e.observed_at.clone(),
        },
    }
}

impl LiveEvent {
    /// Check the schema tag, the kind, and that the device and time are
    /// given.
    pub fn validate(&self) -> (r: Result<(), String>)
        ensures
            r is Ok <==> validation(*self) is Ok,
            r matches Err(m) ==> validation(*self) == Err::<(), Seq<char>>(m@),
    {
        if !(text_eq(self.schema.as_str(), "stead.live.v1") || text_eq(self.schema.as_str(), "veil.live.v1")) {
            let mut m = String::from_str("unsupported schema: ");
            push_text(&mut m, self.schema.as_str());
            push_text(&mut m, " (expected stead.live.v1 or veil.live.v1)");
            return Err(m);
        }
        let k = self.kind.as_str();
        if !(text_eq(k, "position") || text_eq(k, "message") || text_eq(k, "data") || text_eq(k, "status")
            || text_eq(k, "media") || text_eq(k, "command")) {
            let mut m = String::from_str("unsupported kind: ");
            push_text(&mut m, k);
            push_text(&mut m, " (expected one of position, message, data, status, media, command)");
            return Err(m);
        }
        if self.device_id.as_str().is_empty() {
            return Err(String::from_str("device_id must not be empty"));
        }
        if self.observed_at.as_str().is_empty() {
            return Err(String::from_str("observed_at must not be empty"));
        }
        Ok(())
    }

    /// The entity id of the event's device: `device:<slug>`.
    pub fn entity_id(&self) -> (id: String)
        ensures
            id@ == device_entity_id(*self),
    {
        named_entity_id("device", self.device_id.as_str())
    }

    /// One observation per `data` key, then one for the position.
    pub fn into_observations(self) -> (obs: Vec<Observation>)
        ensures
            are_live_observations(obs@, self),
    {
        let entity_id = self.entity_id();
        let mut obs: Vec<Observation> = Vec::new();
        match &self.data {
            Some(d) => {
                let mut i: usize = 0;
                while i < d.len()
                    invariant
                        self.data == Some(*d),
                        entity_id@ == device_entity_id(self),
                        i <= d@.len(),
                        obs@.len() == i,
                        forall|j: int| 0 <= j < i ==> is_live_observation(#[trigger] obs@[j], self, d@[j].0@, d@[j].1@),
                    decreases d@.len() - i,
                {
                    let o = live_observation(&self, &entity_id, &d[i].0, &d[i].1);
                    obs.push(o);
                    i = i + 1;
                }
            },
            None => {},
        }
        match &self.position {
            Some(p) => {
                let attr = String::from_str("position");
                let o = live_observation(&self, &entity_id, &attr, p);
                obs.push(o);
            },
            None => {},
        }
        obs
    }
}

/// The journal entries that ingest `e` into the site: `Err` with the
/// validation guidance when the event is malformed; else an entry that
/// registers the device (when the site does not know it yet, created at
/// `now`) followed by the event's observations.
pub open spec fn ingest_plan(entries: Seq<JournalEvent>, known: bool, e: LiveEvent, now: Seq<char>) -> bool {
    let skip = if known { 0int } else { 1int };
    &&& entries.len() == skip + data_len(e) + if e.position is Some { 1int } else { 0int }
    &&& !known ==> (entries[0] matches JournalEvent::UpsertEntity(ent) && ent.id@ == device_entity_id(e)
        && ent.kind == EntityKind::Device && ent.name is None && ent.created_at@ == now && ent.retired_at is None)
    &&& forall|i: int| skip <= i < entries.len() ==> #[trigger] entries[i] is Observe
    &&& are_live_observations(
        entries.subrange(skip, entries.len() as int).map_values(|x: JournalEvent| x->Observe_0),
        e,
    )
}

/// Ingest one live event: validate it, then plan its journal entries
/// against the current site.
pub fn ingest_events(state: &SiteState, event: LiveEvent, now: &str) -> (r: Result<Vec<JournalEvent>, String>)
    requires
        state.wf(),
    ensures
        r is Ok <==> validation(event) is Ok,
        r matches Err(m) ==> validation(event) == Err::<(), Seq<char>>(m@),
        r matches Ok(entries) ==> ingest_plan(
            entries@,
            state@.entities.contains_key(device_entity_id(event)),
            event,
            now@,
        ),
{
    match event.validate() {
        Err(m) => {
            return Err(m);
        },
        Ok(()) => {},
    }
    let entity_id = event.entity_id();
    let known = state.entity(entity_id.as_str()).is_some();
    let ghost e0 = event;
    let observations = event.into_observations();
    let mut entries: Vec<JournalEvent> = Vec::new();
    if !known {
        entries.push(
            JournalEvent::UpsertEntity(
                Entity {
                    id: entity_id,
                    kind: EntityKind::Device,
                    name: None,
                    created_at: String::from_str(now),
                    retired_at: None,
                },
            ),
        );
    }
    let skip: usize = if known { 0 } else { 1 };
    let ghost head = entries@;
    let mut i: usize = 0;
    let n = observations.len();
    while i < n
        invariant
            n == observations@.len(),
            i <= n,
            entries@.len() == skip + i,
            entries@.subrange(0, skip as int) == head,
            forall|j: int| skip <= j < entries@.len() ==> #[trigger] entries@[j] is Observe,
            forall|j: int| 0 <= j < i ==> #[trigger] entries@[skip + j] == JournalEvent::Observe(observations@[j]),
        decreases n - i,
    {
        entries.push(JournalEvent::Observe(observations[i].clone()));
        i = i + 1;
    }
    let ghost tail = entries@.subrange(skip as int, entries@.len() as int).map_values(|x: JournalEvent| x->Observe_0);
    assert forall|j: int| 0 <= j < observations@.len() implies tail[j] == observations@[j] by {
        assert(entries@[skip + j] == JournalEvent::Observe(observations@[j]));
    }
    assert(tail =~= observations@);
    assert(!known ==> entries@[0] == head[0]);
    Ok(entries)
}

/// Ingestion lands: once an event's planned entries are applied, the
/// site knows its device, and the device has a current value for every
/// `data` key and, when the event carries one, for `position`.
pub proof fn law_ingest_lands(m: SiteModel, entries: Seq<JournalEvent>, e: LiveEvent, now: Seq<char>)
    requires
        ingest_plan(entries, m.entities.contains_key(device_entity_id(e)), e, now),
    ensures
        apply_all(m, entries).entities.contains_key(device_entity_id(e)),
        forall|i: int|
            0 <= i < data_len(e) ==> apply_all(m, entries).latest.contains_key(device_entity_id(e))
                && apply_all(m, entries).latest[device_entity_id(e)].contains_key(#[trigger] e.data.unwrap()@[i].0@),
        e.position is Some ==> apply_all(m, entries).latest.contains_key(device_entity_id(e))
            && apply_all(m, entries).latest[device_entity_id(e)].contains_key("position"@),
{
    let id = device_entity_id(e);
    let known = m.entities.contains_key(id);
    let skip = if known { 0int } else { 1int };
    let after = apply_all(m, entries);
    if known {
        lemma_apply_all_keeps(m, entries, id);
    } else {
        lemma_apply_all_prefix(m, entries, 1);
        assert(entries.take(1).drop_last() =~= Seq::<JournalEvent>::empty());
        assert(apply_all(m, entries.take(1)).entities.contains_key(id));
    }
    let obs = entries.subrange(skip, entries.len() as int).map_values(|x: JournalEvent| x->Observe_0);
    assert forall|j: int| skip <= j < entries.len() implies after.latest.contains_key(id)
        && after.latest[id].contains_key(#[trigger] entries[j]->Observe_0.attr@) by {
        let o = entries[j]->Observe_0;
        assert(obs[j - skip] == o);
        lemma_apply_all_prefix(m, entries, j + 1);
        assert(entries.take(j + 1).drop_last() =~= entries.take(j));
        assert(entries.take(j + 1).last() == entries[j]);
        assert(entries[j] is Observe);
        assert(entries[j] == JournalEvent::Observe(o));
        let before = apply_all(m, entries.take(j));
        assert(apply_all(m, entries.take(j + 1)) == apply_spec(before, JournalEvent::Observe(o)));
        assert(o.entity_id@ == id);
        assert(apply_all(m, entries.take(j + 1)).latest.contains_key(id));
        assert(apply_all(m, entries.take(j + 1)).latest[id].contains_key(o.attr@));
    }
    assert forall|i: int| 0 <= i < data_len(e) implies after.latest.contains_key(id)
        && after.latest[id].contains_key(#[trigger] e.data.unwrap()@[i].0@) by {
        assert(is_live_observation(obs[i], e, e.data.unwrap()@[i].0@, e.data.unwrap()@[i].1@));
        assert(obs[i] == entries[skip + i]->Observe_0);
        assert(after.latest[id].contains_key(entries[skip + i]->Observe_0.attr@));
    }
    if e.position is Some {
        let n = data_len(e);
        assert(obs[n] == entries[skip + n]->Observe_0);
        assert(after.latest[id].contains_key(entries[skip + n]->Observe_0.attr@));
    }
}

/// Exactly the well-formed events validate: the schema is
/// `stead.live.v1` or `veil.live.v1`, the kind is one of position,
/// message, data, status, media and command, and the device and time
/// are given.
pub proof fn law_validation_accepts_exactly_wellformed(e: LiveEvent)
    ensures
        validation(e) is Ok <==> {
            &&& (e.schema@ == "stead.live.v1"@ || e.schema@ == "veil.live.v1"@)
            &&& (e.kind@ == "position"@ || e.kind@ == "message"@ || e.kind@ == "data"@ || e.kind@ == "status"@
                || e.kind@ == "media"@ || e.kind@ == "command"@)
            &&& e.device_id@.len() > 0
            &&& e.observed_at@.len() > 0
        },
{
}

} // verus!
