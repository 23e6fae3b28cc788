//! `SiteState`: the materialized view of a site, rebuilt by replaying
//! the journal. The journal is the system of record; this struct is a
//! disposable derivation — delete it, replay, and you get the exact
//! same state.

use vstd::prelude::*;

use crate::geometry::{
    bbox_area, bbox_contains, is_bbox_of, point_in_polygon, polygon_contains, region_contains, BBox, LocalPoint,
    Region,
};
use crate::model::{
    clone_opt_text, expired, Anchor, Entity, EntityKind, Feature, FeatureView, Observation, Zone,
    ZoneView,
};
use crate::table::{
    count_keys, derefs, lemma_map_of_count, lemma_map_of_index, lemma_map_of_len, lemma_picked_done, lemma_picked_start, lemma_picked_step, lists,
    picked, Keyed, Table,
};
use crate::text::{text_eq, text_lt};

verus! {

/// One domain event of the journal.
#[derive(Debug)]
pub enum JournalEvent {
    UpsertEntity(Entity),
    RetireEntity { id: String, at: String },
    UpsertZone { zone: Zone, at: String },
    UpsertFeature { feature: Feature, at: String },
    UpsertAnchor { anchor: Anchor, at: String },
    Observe(Observation),
}

/// `b` carries the same event as `a`.
pub open spec fn same_event(a: JournalEvent, b: JournalEvent) -> bool {
    match (a, b) {
        (JournalEvent::UpsertEntity(x), JournalEvent::UpsertEntity(y)) => x == y,
        (JournalEvent::RetireEntity { id, at }, JournalEvent::RetireEntity { id: id2, at: at2 }) => id == id2 && at == at2,
        (JournalEvent::UpsertZone { zone, at }, JournalEvent::UpsertZone { zone: zone2, at: at2 }) => zone@ == zone2@ && at == at2,
        (JournalEvent::UpsertFeature { feature, at }, JournalEvent::UpsertFeature { feature: feature2, at: at2 }) => feature@
            == feature2@ && at == at2,
        (JournalEvent::UpsertAnchor { anchor, at }, JournalEvent::UpsertAnchor { anchor: anchor2, at: at2 }) => anchor
            == anchor2 && at == at2,
        (JournalEvent::Observe(x), JournalEvent::Observe(y)) => x == y,
        _ => false,
    }
}

impl Clone for JournalEvent {
    fn clone(&self) -> (r: Self)
        ensures
            same_event(*self, r),
    {
        match self {
            JournalEvent::UpsertEntity(e) => JournalEvent::UpsertEntity(e.clone()),
            JournalEvent::RetireEntity { id, at } => JournalEvent::RetireEntity { id: id.clone(), at: at.clone() },
            JournalEvent::UpsertZone { zone, at } => JournalEvent::UpsertZone { zone: zone.clone(), at: at.clone() },
            JournalEvent::UpsertFeature { feature, at } => JournalEvent::UpsertFeature {
                feature: feature.clone(),
                at: at.clone(),
            },
            JournalEvent::UpsertAnchor { anchor, at } => JournalEvent::UpsertAnchor { anchor: anchor.clone(), at: at.clone() },
            JournalEvent::Observe(o) => JournalEvent::Observe(o.clone()),
        }
    }
}

/// The current observations of one entity, by attribute.
#[derive(Debug)]
pub struct AttrTable {
    entity_id: String,
    attrs: Table<Observation>,
}

impl View for AttrTable {
    type V = Map<Seq<char>, Observation>;

    closed spec fn view(&self) -> Map<Seq<char>, Observation> {
        self.attrs.as_map()
    }
}

impl Keyed for AttrTable {
    closed spec fn key_of(&self) -> Seq<char> {
        self.entity_id@
    }

    fn key(&self) -> (k: &str) {
        self.entity_id.as_str()
    }
}

/// The site as maps from ids: what a replay of the journal determines.
pub ghost struct SiteModel {
    pub entities: Map<Seq<char>, Entity>,
    pub zones: Map<Seq<char>, ZoneView>,
    pub features: Map<Seq<char>, FeatureView>,
    pub anchors: Map<Seq<char>, Anchor>,
    /// Latest observation per entity id and attribute.
    pub latest: Map<Seq<char>, Map<Seq<char>, Observation>>,
    /// How many observations were applied.
    pub observations: nat,
}

/// The empty site.
pub open spec fn empty_model() -> SiteModel {
    SiteModel {
        entities: Map::empty(),
        zones: Map::empty(),
        features: Map::empty(),
        anchors: Map::empty(),
        latest: Map::empty(),
        observations: 0,
    }
}

/// Insert an entity, or un-retire the one with its id (keeping its
/// kind and creation time, and its name unless the new one names it).
pub open spec fn upsert_entity_spec(m: Map<Seq<char>, Entity>, e: Entity) -> Map<Seq<char>, Entity> {
    if m.contains_key(e.id@) {
        let existing = m[e.id@];
        m.insert(
            e.id@,
            Entity {
                name: if e.name is Some { e.name } else { existing.name },
                retired_at: None,
                ..existing
            },
        )
    } else {
        m.insert(e.id@, e)
    }
}

/// The entity record an upsert of a zone, feature or anchor implies.
pub open spec fn implied_entity(id: String, kind: EntityKind, name: Option<String>, at: String) -> Entity {
    Entity { id, kind, name, created_at: at, retired_at: None }
}

/// The effect of one journal event on the site.
pub open spec fn apply_spec(m: SiteModel, event: JournalEvent) -> SiteModel {
    match event {
        JournalEvent::UpsertEntity(e) => SiteModel { entities: upsert_entity_spec(m.entities, e), ..m },
        JournalEvent::RetireEntity { id, at } => {
            if m.entities.contains_key(id@) {
                SiteModel {
                    entities: m.entities.insert(id@, Entity { retired_at: Some(at), ..m.entities[id@] }),
                    ..m
                }
            } else {
                m
            }
        },
        JournalEvent::UpsertZone { zone, at } => SiteModel {
            entities: upsert_entity_spec(
                m.entities,
                implied_entity(zone.id, EntityKind::Zone, Some(zone.name), at),
            ),
            zones: m.zones.insert(zone.id@, zone@),
            ..m
        },
        JournalEvent::UpsertFeature { feature, at } => SiteModel {
            entities: upsert_entity_spec(
                m.entities,
                implied_entity(feature.id, EntityKind::Feature, feature.name, at),
            ),
            features: m.features.insert(feature.id@, feature@),
            ..m
        },
        JournalEvent::UpsertAnchor { anchor, at } => SiteModel {
            entities: upsert_entity_spec(
                m.entities,
                implied_entity(anchor.id, EntityKind::Anchor, anchor.name, at),
            ),
            anchors: m.anchors.insert(anchor.id@, anchor),
            ..m
        },
        JournalEvent::Observe(obs) => {
            let attrs = if m.latest.contains_key(obs.entity_id@) {
                m.latest[obs.entity_id@]
            } else {
                Map::empty()
            };
            SiteModel {
                latest: m.latest.insert(obs.entity_id@, attrs.insert(obs.attr@, obs)),
                observations: m.observations + 1,
                ..m
            }
        },
    }
}

/// The site a sequence of events replays to, from the empty site.
pub open spec fn replay_spec(events: Seq<JournalEvent>) -> SiteModel
    decreases events.len(),
{
    if events.len() == 0 {
        empty_model()
    } else {
        apply_spec(replay_spec(events.drop_last()), events.last())
    }
}

/// The id is known and not retired.
pub open spec fn alive(m: SiteModel, id: Seq<char>) -> bool {
    m.entities.contains_key(id) && m.entities[id].retired_at is None
}

/// Counts of a site's contents.
#[derive(Clone, Copy, PartialEq, Eq, Structural, Debug)]
pub struct SiteSummary {
    pub entities: usize,
    pub retired: usize,
    pub zones: usize,
    pub features: usize,
    pub observations: usize,
}

#[derive(Debug)]
pub struct SiteState {
    entities: Table<Entity>,
    zones: Table<Zone>,
    features: Table<Feature>,
    anchors: Table<Anchor>,
    /// Latest observation per (entity, attribute). Full history stays
    /// in the journal — history is a replay query, not archaeology.
    latest: Table<AttrTable>,
    observation_count: usize,
}

impl View for SiteState {
    type V = SiteModel;

    closed spec fn view(&self) -> SiteModel {
        SiteModel {
            entities: self.entities.as_map(),
            zones: self.zones.as_map(),
            features: self.features.as_map(),
            anchors: self.anchors.as_map(),
            latest: self.latest.as_map(),
            observations: self.observation_count as nat,
        }
    }
}

impl SiteState {
    /// The state's invariant: every index is sorted by key.
    pub closed spec fn wf(&self) -> bool {
        &&& self.entities.wf()
        &&& self.zones.wf()
        &&& self.features.wf()
        &&& self.anchors.wf()
        &&& self.latest.wf()
        &&& forall|i: int|
            0 <= i < self.latest.entries().len() ==> (#[trigger] self.latest.entries()[i]).attrs.wf()
    }

    /// An empty site.
    pub fn new() -> (s: Self)
        ensures
            s.wf(),
            s@ == empty_model(),
    {
        let s = SiteState {
            entities: Table::new(),
            zones: Table::new(),
            features: Table::new(),
            anchors: Table::new(),
            latest: Table::new(),
            observation_count: 0,
        };
        assert(s@ =~= empty_model());
        s
    }

    /// Insert or un-retire; never deletes.
    fn upsert_entity(&mut self, entity: Entity)
        requires
            old(self).wf(),
        ensures
            final(self).wf(),
            final(self)@ == (SiteModel { entities: upsert_entity_spec(old(self)@.entities, entity), ..old(self)@ }),
    {
        match self.entities.find(entity.id.as_str()) {
            Some(i) => {
                let existing = &self.entities.as_slice()[i];
                proof {
                    lemma_map_of_index(self.entities.entries(), i as int);
                }
                let updated = Entity {
                    id: existing.id.clone(),
                    kind: existing.kind,
                    name: match entity.name {
                        Some(n) => Some(n),
                        None => clone_opt_text(&existing.name),
                    },
                    created_at: existing.created_at.clone(),
                    retired_at: None,
                };
                self.entities.replace_at(i, updated);
            },
            None => {
                self.entities.upsert(entity);
            },
        }
    }

    /// Apply one event. Used by replay and by live writers (append to
    /// the journal first, then apply — the journal is the record).
    pub fn apply(&mut self, event: &JournalEvent)
        requires
            old(self).wf(),
            event is Observe ==> old(self)@.observations < usize::MAX,
        ensures
            final(self).wf(),
            final(self)@ == apply_spec(old(self)@, *event),
    {
        match event {
            JournalEvent::UpsertEntity(entity) => {
                self.upsert_entity(entity.clone());
            },
            JournalEvent::RetireEntity { id, at } => {
                match self.entities.find(id.as_str()) {
                    Some(i) => {
                        let existing = &self.entities.as_slice()[i];
                        proof {
                            lemma_map_of_index(self.entities.entries(), i as int);
                        }
                        let updated = Entity {
                            id: existing.id.clone(),
                            kind: existing.kind,
                            name: clone_opt_text(&existing.name),
                            created_at: existing.created_at.clone(),
                            retired_at: Some(at.clone()),
                        };
                        self.entities.replace_at(i, updated);
                    },
                    None => {},
                }
            },
            JournalEvent::UpsertZone { zone, at } => {
                self.upsert_entity(
                    Entity {
                        id: zone.id.clone(),
                        kind: EntityKind::Zone,
                        name: Some(zone.name.clone()),
                        created_at: at.clone(),
                        retired_at: None,
                    },
                );
                self.zones.upsert(zone.clone());
            },
            JournalEvent::UpsertFeature { feature, at } => {
                self.upsert_entity(
                    Entity {
                        id: feature.id.clone(),
                        kind: EntityKind::Feature,
                        name: clone_opt_text(&feature.name),
                        created_at: at.clone(),
                        retired_at: None,
                    },
                );
                self.features.upsert(feature.clone());
            },
            JournalEvent::UpsertAnchor { anchor, at } => {
                self.upsert_entity(
                    Entity {
                        id: anchor.id.clone(),
                        kind: EntityKind::Anchor,
                        name: clone_opt_text(&anchor.name),
                        created_at: at.clone(),
                        retired_at: None,
                    },
                );
                self.anchors.upsert(anchor.clone());
            },
            JournalEvent::Observe(obs) => {
                self.record(obs.clone());
                self.observation_count = self.observation_count + 1;
            },
        }
    }

    /// Make `obs` the latest observation of its (entity, attribute).
    fn record(&mut self, obs: Observation)
        requires
            old(self).wf(),
        ensures
            final(self).wf(),
            final(self)@ == (SiteModel {
                latest: old(self)@.latest.insert(
                    obs.entity_id@,
                    (if old(self)@.latest.contains_key(obs.entity_id@) {
                        old(self)@.latest[obs.entity_id@]
                    } else {
                        Map::empty()
                    }).insert(obs.attr@, obs),
                ),
                ..old(self)@
            }),
    {
        let ghost old_latest = self.latest.entries();
        let ghost old_model = self@;
        let ghost attrs0 = if old_model.latest.contains_key(obs.entity_id@) {
            old_model.latest[obs.entity_id@]
        } else {
            Map::empty()
        };
        let ghost obs0 = obs;
        let ghost target = old_model.latest.insert(obs0.entity_id@, attrs0.insert(obs0.attr@, obs0));
        match self.latest.find(obs.entity_id.as_str()) {
            Some(i) => {
                proof {
                    lemma_map_of_index(self.latest.entries(), i as int);
                    assert(self.latest.entries()[i as int].attrs.wf());
                }
                let placeholder = AttrTable { entity_id: obs.entity_id.clone(), attrs: Table::new() };
                let mut current = self.latest.replace_at(i, placeholder);
                assert(current@ == attrs0);
                current.attrs.upsert(obs);
                assert(current@ == attrs0.insert(obs0.attr@, obs0));
                let ghost mid = self.latest.entries();
                self.latest.replace_at(i, current);
                assert(self.latest.as_map() =~= target);
                proof {
                    assert forall|j: int| 0 <= j < self.latest.entries().len() implies (#[trigger] self.latest.entries()[j]).attrs.wf() by {
                        if j != i {
                            assert(self.latest.entries()[j] == old_latest[j]);
                        }
                    }
                }
            },
            None => {
                let mut attrs = Table::new();
                let id = obs.entity_id.clone();
                attrs.upsert(obs);
                let table = AttrTable { entity_id: id, attrs };
                assert(attrs0 == Map::<Seq<char>, Observation>::empty());
                assert(table@ == attrs0.insert(obs0.attr@, obs0));
                let ghost before = self.latest.entries();
                self.latest.upsert(table);
                assert(self.latest.as_map() =~= target);
                proof {
                    assert forall|j: int| 0 <= j < self.latest.entries().len() implies (#[trigger] self.latest.entries()[j]).attrs.wf() by {
                        let e = self.latest.entries()[j];
                        if e != table {
                            let k = choose|k: int| 0 <= k < before.len() && before[k] == e;
                            assert(before[k].attrs.wf());
                        }
                    }
                }
            },
        }
    }
}

/// The area of a zone's bounding box (the one box `BBox::of` finds).
pub open spec fn zone_area(z: ZoneView) -> int {
    bbox_area(choose|b: BBox| is_bbox_of(b, z.boundary))
}

/// A zone on floor `zf` is selected by the floor filter `floor`: no
/// filter selects every zone, a filter selects zones on that floor.
pub open spec fn floor_matches(floor: Option<Seq<char>>, zf: Option<String>) -> bool {
    match floor {
        None => true,
        Some(f) => zf matches Some(z) && z@ == f,
    }
}

/// The zone with id `k` is a candidate for the zone at `point`: living,
/// on the requested floor, not expired at `now` (when given), and
/// containing the point.
pub open spec fn zone_candidate(
    m: SiteModel,
    k: Seq<char>,
    point: LocalPoint,
    floor: Option<Seq<char>>,
    now: Option<Seq<char>>,
) -> bool {
    &&& m.zones.contains_key(k)
    &&& alive(m, k)
    &&& floor_matches(floor, m.zones[k].floor)
    &&& (now matches Some(t) ==> !expired(m.zones[k].expires_at, t))
    &&& polygon_contains(m.zones[k].boundary, point)
}

/// `k` is the innermost candidate: the smallest bounding-box area, and
/// the first in id order among equal areas.
pub open spec fn innermost(
    m: SiteModel,
    k: Seq<char>,
    point: LocalPoint,
    floor: Option<Seq<char>>,
    now: Option<Seq<char>>,
) -> bool {
    &&& zone_candidate(m, k, point, floor, now)
    &&& forall|c: Seq<char>|
        #[trigger] zone_candidate(m, c, point, floor, now) ==> zone_area(m.zones[k]) < zone_area(m.zones[c])
            || (zone_area(m.zones[k]) == zone_area(m.zones[c]) && (k == c || text_lt(k, c)))
}

/// The answer of a zone lookup: the innermost candidate, or nothing when
/// no zone qualifies.
pub open spec fn zone_lookup(
    m: SiteModel,
    r: Option<&Zone>,
    point: LocalPoint,
    floor: Option<Seq<char>>,
    now: Option<Seq<char>>,
) -> bool {
    &&& r is None <==> !exists|k: Seq<char>| #[trigger] zone_candidate(m, k, point, floor, now)
    &&& r matches Some(z) ==> m.zones.contains_key(z.id@) && m.zones[z.id@] == z@ && innermost(m, z.id@, point, floor, now)
}

/// The text behind an optional text reference.
pub open spec fn opt_text(o: Option<&str>) -> Option<Seq<char>> {
    match o {
        Some(t) => Some(t@),
        None => None,
    }
}

/// Two boxes that both bound a point set exactly are the same box.
proof fn lemma_bbox_unique(b1: BBox, b2: BBox, s: Seq<LocalPoint>)
    requires
        is_bbox_of(b1, s),
        is_bbox_of(b2, s),
    ensures
        b1 == b2,
{
    let i = choose|i: int| 0 <= i < s.len() && #[trigger] s[i].x == b1.min_x;
    let j = choose|j: int| 0 <= j < s.len() && #[trigger] s[j].x == b2.min_x;
    assert(bbox_contains(b1, s[j]) && bbox_contains(b2, s[i]));
    let i = choose|i: int| 0 <= i < s.len() && #[trigger] s[i].y == b1.min_y;
    let j = choose|j: int| 0 <= j < s.len() && #[trigger] s[j].y == b2.min_y;
    assert(bbox_contains(b1, s[j]) && bbox_contains(b2, s[i]));
    let i = choose|i: int| 0 <= i < s.len() && #[trigger] s[i].x == b1.max_x;
    let j = choose|j: int| 0 <= j < s.len() && #[trigger] s[j].x == b2.max_x;
    assert(bbox_contains(b1, s[j]) && bbox_contains(b2, s[i]));
    let i = choose|i: int| 0 <= i < s.len() && #[trigger] s[i].y == b1.max_y;
    let j = choose|j: int| 0 <= j < s.len() && #[trigger] s[j].y == b2.max_y;
    assert(bbox_contains(b1, s[j]) && bbox_contains(b2, s[i]));
}

impl SiteState {
    /// Rebuild state by replaying events in journal order.
    pub fn replay(events: &[JournalEvent]) -> (s: Self)
        ensures
            s.wf(),
            s@ == replay_spec(events@),
    {
        let mut state = SiteState::new();
        let mut i: usize = 0;
        while i < events.len()
            invariant
                i <= events@.len(),
                state.wf(),
                state@ == replay_spec(events@.take(i as int)),
                state@.observations <= i,
            decreases events@.len() - i,
        {
            assert(events@.take(i + 1).drop_last() =~= events@.take(i as int));
            state.apply(&events[i]);
            i = i + 1;
        }
        assert(events@.take(i as int) =~= events@);
        state
    }

    /// The id is known and not retired.
    pub fn is_alive(&self, id: &str) -> (r: bool)
        requires
            self.wf(),
        ensures
            r == alive(self@, id@),
    {
        match self.entities.get(id) {
            Some(e) => e.retired_at.is_none(),
            None => false,
        }
    }

    /// The entity with this id, retired or not.
    pub fn entity(&self, id: &str) -> (r: Option<&Entity>)
        requires
            self.wf(),
        ensures
            r is None <==> !self@.entities.contains_key(id@),
            r matches Some(e) ==> *e == self@.entities[id@],
    {
        self.entities.get(id)
    }

    /// Every entity, retired ones included, in id order.
    pub fn entities(&self) -> (r: Vec<&Entity>)
        requires
            self.wf(),
        ensures
            lists(derefs(r@), self@.entities, |k: Seq<char>| true),
    {
        let s = self.entities.as_slice();
        let ghost keep = |k: Seq<char>| true;
        let mut r: Vec<&Entity> = Vec::new();
        let mut i: usize = 0;
        proof {
            lemma_picked_start(s@, keep);
            assert(derefs(r@) =~= Seq::<Entity>::empty());
        }
        while i < s.len()
            invariant
                s@ == self.entities.entries(),
                self.entities.wf(),
                picked(s@, derefs(r@), i as int, keep),
                forall|k: Seq<char>| #[trigger] keep(k),
            decreases s@.len() - i,
        {
            proof {
                lemma_picked_step(s@, derefs(r@), i as int, keep, true);
            }
            let ghost prev = derefs(r@);
            r.push(&s[i]);
            assert(derefs(r@) =~= prev.push(s@[i as int]));
            i = i + 1;
        }
        proof {
            lemma_picked_done(s@, derefs(r@), keep);
            assert(keep =~= (|k: Seq<char>| true));
        }
        r
    }

    /// The living zones, in id order.
    pub fn zones(&self) -> (r: Vec<&Zone>)
        requires
            self.wf(),
        ensures
            lists(derefs(r@), self@.zones, |k: Seq<char>| alive(self@, k)),
    {
        let s = self.zones.as_slice();
        let ghost keep = |k: Seq<char>| alive(self@, k);
        let mut r: Vec<&Zone> = Vec::new();
        let mut i: usize = 0;
        proof {
            lemma_picked_start(s@, keep);
            assert(derefs(r@) =~= Seq::<Zone>::empty());
        }
        while i < s.len()
            invariant
                self.wf(),
                s@ == self.zones.entries(),
                picked(s@, derefs(r@), i as int, keep),
                forall|k: Seq<char>| #[trigger] keep(k) == alive(self@, k),
            decreases s@.len() - i,
        {
            let take = self.is_alive(s[i].id.as_str());
            proof {
                lemma_picked_step(s@, derefs(r@), i as int, keep, take);
            }
            if take {
                let ghost prev = derefs(r@);
                r.push(&s[i]);
                assert(derefs(r@) =~= prev.push(s@[i as int]));
            }
            i = i + 1;
        }
        proof {
            lemma_picked_done(s@, derefs(r@), keep);
            assert(keep =~= (|k: Seq<char>| alive(self@, k)));
        }
        r
    }

    /// The living features, in id order.
    pub fn features(&self) -> (r: Vec<&Feature>)
        requires
            self.wf(),
        ensures
            lists(derefs(r@), self@.features, |k: Seq<char>| alive(self@, k)),
    {
        self.features_where(&Region::All)
    }

    /// The living anchors, in id order.
    pub fn anchors(&self) -> (r: Vec<&Anchor>)
        requires
            self.wf(),
        ensures
            lists(derefs(r@), self@.anchors, |k: Seq<char>| alive(self@, k)),
    {
        let s = self.anchors.as_slice();
        let ghost keep = |k: Seq<char>| alive(self@, k);
        let mut r: Vec<&Anchor> = Vec::new();
        let mut i: usize = 0;
        proof {
            lemma_picked_start(s@, keep);
            assert(derefs(r@) =~= Seq::<Anchor>::empty());
        }
        while i < s.len()
            invariant
                self.wf(),
                s@ == self.anchors.entries(),
                picked(s@, derefs(r@), i as int, keep),
                forall|k: Seq<char>| #[trigger] keep(k) == alive(self@, k),
            decreases s@.len() - i,
        {
            let take = self.is_alive(s[i].id.as_str());
            proof {
                lemma_picked_step(s@, derefs(r@), i as int, keep, take);
            }
            if take {
                let ghost prev = derefs(r@);
                r.push(&s[i]);
                assert(derefs(r@) =~= prev.push(s@[i as int]));
            }
            i = i + 1;
        }
        proof {
            lemma_picked_done(s@, derefs(r@), keep);
            assert(keep =~= (|k: Seq<char>| alive(self@, k)));
        }
        r
    }

    /// Living features whose position falls inside a region, in id
    /// order.
    pub fn features_in(&self, region: &Region) -> (r: Vec<&Feature>)
        requires
            self.wf(),
        ensures
            lists(
                derefs(r@),
                self@.features,
                |k: Seq<char>| alive(self@, k) && region_contains(region, self@.features[k].position),
            ),
    {
        self.features_where(region)
    }

    fn features_where(&self, region: &Region) -> (r: Vec<&Feature>)
        requires
            self.wf(),
        ensures
            lists(
                derefs(r@),
                self@.features,
                |k: Seq<char>| alive(self@, k) && region_contains(region, self@.features[k].position),
            ),
            *region == Region::All ==> lists(derefs(r@), self@.features, |k: Seq<char>| alive(self@, k)),
    {
        let s = self.features.as_slice();
        let ghost keep = |k: Seq<char>| alive(self@, k) && region_contains(region, self@.features[k].position);
        let mut r: Vec<&Feature> = Vec::new();
        let mut i: usize = 0;
        proof {
            lemma_picked_start(s@, keep);
            assert(derefs(r@) =~= Seq::<Feature>::empty());
        }
        while i < s.len()
            invariant
                self.wf(),
                s@ == self.features.entries(),
                picked(s@, derefs(r@), i as int, keep),
                forall|k: Seq<char>| #[trigger] keep(k) == (alive(self@, k) && region_contains(region, self@.features[k].position)),
            decreases s@.len() - i,
        {
            proof {
                lemma_map_of_index(s@, i as int);
            }
            let take = self.is_alive(s[i].id.as_str()) && region.contains(s[i].position);
            proof {
                lemma_picked_step(s@, derefs(r@), i as int, keep, take);
            }
            if take {
                let ghost prev = derefs(r@);
                r.push(&s[i]);
                assert(derefs(r@) =~= prev.push(s@[i as int]));
            }
            i = i + 1;
        }
        proof {
            lemma_picked_done(s@, derefs(r@), keep);
            assert(keep =~= (|k: Seq<char>| alive(self@, k) && region_contains(region, self@.features[k].position)));
            if *region == Region::All {
                assert(keep =~= (|k: Seq<char>| alive(self@, k)));
            }
        }
        r
    }

    /// Latest observation for one (entity, attribute).
    pub fn latest(&self, id: &str, attr: &str) -> (r: Option<&Observation>)
        requires
            self.wf(),
        ensures
            r is None <==> !(self@.latest.contains_key(id@) && self@.latest[id@].contains_key(attr@)),
            r matches Some(o) ==> *o == self@.latest[id@][attr@],
    {
        match self.latest.find(id) {
            Some(i) => {
                let table = &self.latest.as_slice()[i];
                proof {
                    lemma_map_of_index(self.latest.entries(), i as int);
                    assert(self.latest.entries()[i as int].attrs.wf());
                }
                table.attrs.get(attr)
            },
            None => None,
        }
    }

    /// All current attributes of one entity, with provenance, in
    /// attribute order; `None` when the entity has no observation.
    pub fn attrs(&self, id: &str) -> (r: Option<Vec<&Observation>>)
        requires
            self.wf(),
        ensures
            r is None <==> !self@.latest.contains_key(id@),
            r matches Some(v) ==> lists(derefs(v@), self@.latest[id@], |k: Seq<char>| true),
    {
        match self.latest.find(id) {
            Some(i) => {
                let table = &self.latest.as_slice()[i];
                proof {
                    lemma_map_of_index(self.latest.entries(), i as int);
                    assert(self.latest.entries()[i as int].attrs.wf());
                }
                let s = table.attrs.as_slice();
                let ghost keep = |k: Seq<char>| true;
                let mut r: Vec<&Observation> = Vec::new();
                let mut j: usize = 0;
                proof {
                    lemma_picked_start(s@, keep);
                    assert(derefs(r@) =~= Seq::<Observation>::empty());
                }
                while j < s.len()
                    invariant
                        s@ == table.attrs.entries(),
                        table.attrs.wf(),
                        picked(s@, derefs(r@), j as int, keep),
                        forall|k: Seq<char>| #[trigger] keep(k),
                    decreases s@.len() - j,
                {
                    proof {
                        lemma_picked_step(s@, derefs(r@), j as int, keep, true);
                    }
                    let ghost prev = derefs(r@);
                    r.push(&s[j]);
                    assert(derefs(r@) =~= prev.push(s@[j as int]));
                    j = j + 1;
                }
                proof {
                    lemma_picked_done(s@, derefs(r@), keep);
                    assert(keep =~= (|k: Seq<char>| true));
                }
                Some(r)
            },
            None => None,
        }
    }


    /// The innermost living zone containing a point. When `floor` is
    /// given, only zones on that floor match; otherwise any zone does.
    /// "Innermost" = smallest bounding box, so a nested zone (a garden
    /// bed inside the yard) wins over its container; among equal boxes
    /// the first in id order wins.
    pub fn zone_at(&self, point: LocalPoint, floor: Option<&str>) -> (r: Option<&Zone>)
        requires
            self.wf(),
        ensures
            zone_lookup(self@, r, point, opt_text(floor), None),
    {
        self.find_zone(point, floor, None)
    }

    /// Like [`SiteState::zone_at`], skipping temporary zones that have
    /// expired at `now` (an RFC 3339 UTC time).
    pub fn zone_at_as_of(&self, point: LocalPoint, floor: Option<&str>, now: &str) -> (r: Option<&Zone>)
        requires
            self.wf(),
        ensures
            zone_lookup(self@, r, point, opt_text(floor), Some(now@)),
    {
        self.find_zone(point, floor, Some(now))
    }

    fn find_zone(&self, point: LocalPoint, floor: Option<&str>, now: Option<&str>) -> (r: Option<&Zone>)
        requires
            self.wf(),
        ensures
            zone_lookup(self@, r, point, opt_text(floor), opt_text(now)),
    {
        let ghost m = self@;
        let ghost fl = opt_text(floor);
        let ghost nw = opt_text(now);
        let s = self.zones.as_slice();
        let mut best: Option<usize> = None;
        let mut best_area: i128 = 0;
        let mut i: usize = 0;
        while i < s.len()
            invariant
                self.wf(),
                m == self@,
                fl == opt_text(floor),
                nw == opt_text(now),
                s@ == self.zones.entries(),
                i <= s@.len(),
                best matches Some(b) ==> b < i && zone_candidate(m, s@[b as int].key_of(), point, fl, nw)
                    && best_area == zone_area(s@[b as int]@),
                best matches Some(b) ==> forall|j: int|
                    0 <= j < i && #[trigger] zone_candidate(m, s@[j].key_of(), point, fl, nw) ==> best_area
                        < zone_area(s@[j]@) || (best_area == zone_area(s@[j]@) && b <= j),
                best is None ==> forall|j: int| 0 <= j < i ==> !#[trigger] zone_candidate(m, s@[j].key_of(), point, fl, nw),
            decreases s@.len() - i,
        {
            let z = &s[i];
            proof {
                lemma_map_of_index(s@, i as int);
            }
            let on_floor = match floor {
                None => true,
                Some(f) => match &z.floor {
                    Some(zf) => text_eq(zf.as_str(), f),
                    None => false,
                },
            };
            let current = match now {
                Some(t) => !z.is_expired(t),
                None => true,
            };
            if on_floor && current && self.is_alive(z.id.as_str()) && point_in_polygon(point, z.boundary.as_slice()) {
                assert(zone_candidate(m, s@[i as int].key_of(), point, fl, nw));
                match BBox::of(z.boundary.as_slice()) {
                    Some(b) => {
                        let area = b.area();
                        proof {
                            let c = choose|c: BBox| is_bbox_of(c, z@.boundary);
                            lemma_bbox_unique(b, c, z@.boundary);
                        }
                        let better = match best {
                            None => true,
                            Some(_) => area < best_area,
                        };
                        if better {
                            best = Some(i);
                            best_area = area;
                        }
                    },
                    None => {},
                }
            } else {
                assert(!zone_candidate(m, s@[i as int].key_of(), point, fl, nw));
            }
            i = i + 1;
        }
        proof {
            assert forall|k: Seq<char>| #[trigger] zone_candidate(m, k, point, fl, nw) implies best is Some && (best matches Some(b) ==> zone_area(m.zones[s@[b as int].key_of()]) < zone_area(m.zones[k])
                || (zone_area(m.zones[s@[b as int].key_of()]) == zone_area(m.zones[k]) && (s@[b as int].key_of() == k || text_lt(s@[b as int].key_of(), k)))) by {
                let j = choose|j: int| 0 <= j < s@.len() && #[trigger] s@[j].key_of() == k;
                lemma_map_of_index(s@, j);
                assert(zone_candidate(m, s@[j].key_of(), point, fl, nw));
                if let Some(b) = best {
                    lemma_map_of_index(s@, b as int);
                    if (b as int) < j {
                        assert(text_lt(s@[b as int].key_of(), s@[j].key_of()));
                    }
                }
            }
        }
        match best {
            Some(b) => {
                proof {
                    lemma_map_of_index(s@, b as int);
                }
                Some(&s[b])
            },
            None => None,
        }
    }

    /// Counts of the site: entities (retired included), retired
    /// entities, zones and features ever upserted, and observations
    /// applied.
    pub fn summary(&self) -> (r: SiteSummary)
        requires
            self.wf(),
        ensures
            r.entities == self@.entities.dom().len(),
            r.retired == self@.entities.dom().filter(|k: Seq<char>| self@.entities[k].retired_at is Some).len(),
            r.zones == self@.zones.dom().len(),
            r.features == self@.features.dom().len(),
            r.observations == self@.observations,
    {
        let s = self.entities.as_slice();
        let ghost m = self@;
        let ghost p = |k: Seq<char>| m.entities[k].retired_at is Some;
        let mut retired: usize = 0;
        let mut i: usize = 0;
        while i < s.len()
            invariant
                s@ == self.entities.entries(),
                self.entities.wf(),
                m == self@,
                i <= s@.len(),
                retired == count_keys(s@.take(i as int), p),
                retired <= i,
                forall|k: Seq<char>| #[trigger] p(k) == (m.entities[k].retired_at is Some),
            decreases s@.len() - i,
        {
            proof {
                lemma_map_of_index(s@, i as int);
                assert(s@.take(i + 1).drop_last() =~= s@.take(i as int));
            }
            if s[i].retired_at.is_some() {
                retired = retired + 1;
            }
            i = i + 1;
        }
        proof {
            assert(s@.take(i as int) =~= s@);
            lemma_map_of_count(s@, p);
            assert(p =~= (|k: Seq<char>| self@.entities[k].retired_at is Some));
            lemma_map_of_len(self.entities.entries());
            lemma_map_of_len(self.zones.entries());
            lemma_map_of_len(self.features.entries());
        }
        SiteSummary {
            entities: self.entities.len(),
            retired,
            zones: self.zones.len(),
            features: self.features.len(),
            observations: self.observation_count,
        }
    }
}

/// Append-then-apply agrees with replay: applying one more event to the
/// replayed state gives the replay of the journal with that event
/// appended, so a restart rebuilds exactly the state the live writer
/// held.
pub proof fn law_apply_extends_replay(events: Seq<JournalEvent>, event: JournalEvent)
    ensures
        replay_spec(events.push(event)) == apply_spec(replay_spec(events), event),
{
    assert(events.push(event).drop_last() =~= events);
}

/// Entities are never deleted: every id known before an event is still
/// known after it.
pub proof fn law_event_keeps_entities(m: SiteModel, event: JournalEvent, id: Seq<char>)
    requires
        m.entities.contains_key(id),
    ensures
        apply_spec(m, event).entities.contains_key(id),
{
}

/// Entities are never deleted: every id known after replaying a prefix
/// of the journal is known after replaying all of it.
pub proof fn law_replay_keeps_entities(events: Seq<JournalEvent>, n: int, id: Seq<char>)
    requires
        0 <= n <= events.len(),
        replay_spec(events.take(n)).entities.contains_key(id),
    ensures
        replay_spec(events).entities.contains_key(id),
    decreases events.len() - n,
{
    if n < events.len() {
        assert(events.take(n + 1).drop_last() =~= events.take(n));
        law_event_keeps_entities(replay_spec(events.take(n)), events[n], id);
        law_replay_keeps_entities(events, n + 1, id);
    } else {
        assert(events.take(n) =~= events);
    }
}

/// Latest wins: after an observation, it is the current value of its
/// (entity, attribute), and every other current value is unchanged.
pub proof fn law_latest_wins(m: SiteModel, obs: Observation, id: Seq<char>, attr: Seq<char>)
    ensures
        apply_spec(m, JournalEvent::Observe(obs)).latest[obs.entity_id@][obs.attr@] == obs,
        (id != obs.entity_id@ || attr != obs.attr@) && m.latest.contains_key(id) && m.latest[id].contains_key(attr)
            ==> apply_spec(m, JournalEvent::Observe(obs)).latest[id][attr] == m.latest[id][attr],
        apply_spec(m, JournalEvent::Observe(obs)).observations == m.observations + 1,
{
}

/// Retire, never delete: retiring a known entity keeps its record and
/// marks it retired at the given time.
pub proof fn law_retire_keeps_record(m: SiteModel, id: String, at: String)
    requires
        m.entities.contains_key(id@),
    ensures
        ({
            let after = apply_spec(m, JournalEvent::RetireEntity { id, at });
            &&& after.entities.contains_key(id@)
            &&& after.entities[id@].retired_at == Some(at)
            &&& after.entities[id@].created_at == m.entities[id@].created_at
            &&& !alive(after, id@)
        }),
{
}

/// A later upsert of the same id un-retires it: ids are permanent, and
/// the entity keeps its kind and creation time.
pub proof fn law_upsert_unretires(m: SiteModel, zone: Zone, at: String)
    ensures
        ({
            let after = apply_spec(m, JournalEvent::UpsertZone { zone, at });
            &&& alive(after, zone.id@)
            &&& after.zones[zone.id@] == zone@
            &&& m.entities.contains_key(zone.id@) ==> after.entities[zone.id@].created_at
                == m.entities[zone.id@].created_at && after.entities[zone.id@].kind
                == m.entities[zone.id@].kind
        }),
{
}

/// A feature upsert makes the feature current and its entity alive.
pub proof fn law_feature_upsert_unretires(m: SiteModel, feature: Feature, at: String)
    ensures
        ({
            let after = apply_spec(m, JournalEvent::UpsertFeature { feature, at });
            &&& alive(after, feature.id@)
            &&& after.features[feature.id@] == feature@
        }),
{
}

/// Events that are not observations leave the observation count alone,
/// so a replay counts exactly its `observe` events.
pub proof fn law_only_observations_count(m: SiteModel, event: JournalEvent)
    ensures
        apply_spec(m, event).observations == m.observations + if event is Observe {
            1nat
        } else {
            0nat
        },
{
}

/// Nothing is ever lost: after any event every entity, zone, feature,
/// anchor and current (entity, attribute) value the site knew is still
/// there, the observation count never falls, and a known entity keeps
/// its id, kind and creation time.
pub proof fn law_apply_forgets_nothing(m: SiteModel, event: JournalEvent)
    ensures
        ({
            let after = apply_spec(m, event);
            &&& keeps_all(m, after)
            &&& forall|k: Seq<char>| #[trigger] m.zones.contains_key(k) ==> after.zones.contains_key(k)
            &&& forall|k: Seq<char>| #[trigger] m.features.contains_key(k) ==> after.features.contains_key(k)
            &&& forall|k: Seq<char>| #[trigger] m.anchors.contains_key(k) ==> after.anchors.contains_key(k)
            &&& after.observations >= m.observations
            &&& forall|k: Seq<char>|
                #[trigger] m.entities.contains_key(k) ==> after.entities[k].id == m.entities[k].id
                    && after.entities[k].kind == m.entities[k].kind && after.entities[k].created_at
                    == m.entities[k].created_at
        }),
{
    lemma_apply_keeps_all(m, event);
}

/// Innermost wins: the zone found at a point has a bounding box whose
/// area (width times height) is no larger than that of any other
/// living candidate containing the point, so a room nested inside a
/// larger zone is preferred over it.
pub proof fn law_zone_lookup_smallest_box(
    m: SiteModel,
    z: Zone,
    point: LocalPoint,
    floor: Option<Seq<char>>,
    now: Option<Seq<char>>,
    k: Seq<char>,
    found: BBox,
    other: BBox,
)
    requires
        zone_lookup(m, Some(&z), point, floor, now),
        zone_candidate(m, k, point, floor, now),
        is_bbox_of(found, z@.boundary),
        is_bbox_of(other, m.zones[k].boundary),
    ensures
        (found.max_x - found.min_x) * (found.max_y - found.min_y) <= (other.max_x - other.min_x) * (other.max_y
            - other.min_y),
{
    let zk = m.zones[k];
    let c1 = choose|b: BBox| is_bbox_of(b, z@.boundary);
    let c2 = choose|b: BBox| is_bbox_of(b, zk.boundary);
    lemma_bbox_unique(found, c1, z@.boundary);
    lemma_bbox_unique(other, c2, zk.boundary);
    assert(zone_area(m.zones[z.id@]) <= zone_area(zk));
}

/// An upsert that names its entity renames it: after any upsert whose
/// entity name is `Some(n)` the entity of that id is named `n`, whether
/// or not the site knew it; an upsert without a name keeps the name a
/// known entity had.
pub proof fn law_upsert_carries_name(m: SiteModel, event: JournalEvent)
    ensures
        ({
            let after = apply_spec(m, event);
            match event {
                JournalEvent::UpsertEntity(e) => {
                    &&& e.name is Some ==> after.entities[e.id@].name == e.name
                    &&& e.name is None && m.entities.contains_key(e.id@) ==> after.entities[e.id@].name
                        == m.entities[e.id@].name
                },
                JournalEvent::UpsertZone { zone, at } => after.entities[zone.id@].name == Some(zone.name),
                JournalEvent::UpsertFeature { feature, at } => {
                    &&& feature.name is Some ==> after.entities[feature.id@].name == feature.name
                    &&& feature.name is None && m.entities.contains_key(feature.id@)
                        ==> after.entities[feature.id@].name == m.entities[feature.id@].name
                },
                JournalEvent::UpsertAnchor { anchor, at } => {
                    &&& anchor.name is Some ==> after.entities[anchor.id@].name == anchor.name
                    &&& anchor.name is None && m.entities.contains_key(anchor.id@)
                        ==> after.entities[anchor.id@].name == m.entities[anchor.id@].name
                },
                _ => true,
            }
        }),
{
}

/// The site after applying `events` in order to `m`.
pub open spec fn apply_all(m: SiteModel, events: Seq<JournalEvent>) -> SiteModel
    decreases events.len(),
{
    if events.len() == 0 {
        m
    } else {
        apply_spec(apply_all(m, events.drop_last()), events.last())
    }
}

/// Applying more events never forgets an entity.
pub proof fn lemma_apply_all_keeps(m: SiteModel, events: Seq<JournalEvent>, id: Seq<char>)
    requires
        m.entities.contains_key(id),
    ensures
        apply_all(m, events).entities.contains_key(id),
    decreases events.len(),
{
    if events.len() > 0 {
        lemma_apply_all_keeps(m, events.drop_last(), id);
        law_event_keeps_entities(apply_all(m, events.drop_last()), events.last(), id);
    }
}

/// Nothing known in `a` is forgotten in `b`: its entities, and every
/// (entity, attribute) with a current observation.
pub open spec fn keeps_all(a: SiteModel, b: SiteModel) -> bool {
    &&& forall|k: Seq<char>| #[trigger] a.entities.contains_key(k) ==> b.entities.contains_key(k)
    &&& forall|k: Seq<char>, t: Seq<char>|
        #![trigger a.latest[k].contains_key(t)]
        a.latest.contains_key(k) && a.latest[k].contains_key(t) ==> b.latest.contains_key(k)
            && b.latest[k].contains_key(t)
}

/// One event forgets nothing.
pub proof fn lemma_apply_keeps_all(m: SiteModel, event: JournalEvent)
    ensures
        keeps_all(m, apply_spec(m, event)),
{
}

proof fn lemma_keeps_all_transitive(a: SiteModel, b: SiteModel, c: SiteModel)
    requires
        keeps_all(a, b),
        keeps_all(b, c),
    ensures
        keeps_all(a, c),
{
    assert forall|k: Seq<char>| #[trigger] a.entities.contains_key(k) implies c.entities.contains_key(k) by {
        assert(b.entities.contains_key(k));
    }
    assert forall|k: Seq<char>, t: Seq<char>|
        #![trigger a.latest[k].contains_key(t)]
        a.latest.contains_key(k) && a.latest[k].contains_key(t) implies c.latest.contains_key(k)
            && c.latest[k].contains_key(t) by {
        assert(b.latest.contains_key(k) && b.latest[k].contains_key(t));
    }
}

/// Applying a longer prefix of the same events forgets nothing.
pub proof fn lemma_apply_all_prefix(m: SiteModel, events: Seq<JournalEvent>, k: int)
    requires
        0 <= k <= events.len(),
    ensures
        keeps_all(apply_all(m, events.take(k)), apply_all(m, events)),
    decreases events.len() - k,
{
    if k < events.len() {
        lemma_apply_all_prefix(m, events, k + 1);
        assert(events.take(k + 1).drop_last() =~= events.take(k));
        assert(events.take(k + 1).last() == events[k]);
        lemma_apply_keeps_all(apply_all(m, events.take(k)), events[k]);
        lemma_keeps_all_transitive(
            apply_all(m, events.take(k)),
            apply_all(m, events.take(k + 1)),
            apply_all(m, events),
        );
    } else {
        assert(events.take(k) =~= events);
    }
}

} // verus!
