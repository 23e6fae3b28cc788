//! One-shot Home Assistant registry sync: HA areas/floors become stead
//! zone *stubs* (no boundary yet — draw those later), and HA entities in
//! useful domains become *unplaced* features with their `ha_entity`
//! binding already wired. Re-running is idempotent: anything that
//! already exists in the site is left untouched, so a boundary you drew
//! or a feature you placed is never clobbered.

use vstd::prelude::*;
use vstd::std_specs::iter::IteratorSpec;
use vstd::string::StringExecFns;

use crate::geometry::LocalPoint;
use crate::ids::{named_entity_id, slug};
use crate::model::{clone_opt_text, Binding, BindingKind, Entity, Feature, Zone, ZoneKind};
use crate::state::{
    apply_all, lemma_apply_all_keeps, law_event_keeps_entities, JournalEvent, SiteModel, SiteState,
};
use crate::text::{push_char, push_text, text_eq};

verus! {

/// An HA area as reported by the area registry.
#[derive(Debug)]
pub struct HaArea {
    pub area_id: String,
    pub name: String,
    pub floor_id: Option<String>,
}

/// An HA floor as reported by the floor registry.
#[derive(Debug)]
pub struct HaFloor {
    pub floor_id: String,
    pub name: String,
}

/// An entry of the HA entity registry.
#[derive(Debug)]
pub struct HaEntityReg {
    pub entity_id: String,
    pub area_id: Option<String>,
    pub device_id: Option<String>,
    pub name: Option<String>,
    pub original_name: Option<String>,
    pub disabled_by: Option<String>,
}

/// An entry of the HA device registry.
#[derive(Debug)]
pub struct HaDevice {
    pub id: String,
    pub area_id: Option<String>,
}

/// The four registries, as fetched together.
#[derive(Debug)]
pub struct RegistrySnapshot {
    pub areas: Vec<HaArea>,
    pub floors: Vec<HaFloor>,
    pub entities: Vec<HaEntityReg>,
    pub devices: Vec<HaDevice>,
}

/// Domains worth representing as placeable features. Everything else
/// (automations, scenes, updates, …) has no physical location.
pub open spec fn is_placeable(domain: Seq<char>) -> bool {
    ||| domain == "light"@
    ||| domain == "switch"@
    ||| domain == "sensor"@
    ||| domain == "binary_sensor"@
    ||| domain == "climate"@
    ||| domain == "fan"@
    ||| domain == "cover"@
    ||| domain == "camera"@
    ||| domain == "media_player"@
    ||| domain == "lock"@
    ||| domain == "vacuum"@
    ||| domain == "valve"@
}

/// The domain of an HA entity id: the text before its first `.`.
pub open spec fn domain_of(entity_id: Seq<char>) -> Seq<char>
    decreases entity_id.len(),
{
    if entity_id.len() == 0 || entity_id[0] == '.' {
        seq![]
    } else {
        seq![entity_id[0]] + domain_of(entity_id.drop_first())
    }
}

/// The display name of floor `f`: the name of the last floor with that
/// id, or the id itself when no floor has it.
pub open spec fn floor_display(floors: Seq<HaFloor>, f: Seq<char>) -> Seq<char>
    decreases floors.len(),
{
    if floors.len() == 0 {
        f
    } else if floors.last().floor_id@ == f {
        floors.last().name@
    } else {
        floor_display(floors.drop_last(), f)
    }
}

/// The display name of area `a`: the name of the last area with that
/// id, or the id itself.
pub open spec fn area_display(areas: Seq<HaArea>, a: Seq<char>) -> Seq<char>
    decreases areas.len(),
{
    if areas.len() == 0 {
        a
    } else if areas.last().area_id@ == a {
        areas.last().name@
    } else {
        area_display(areas.drop_last(), a)
    }
}

/// The area of device `d`: that of the last device with id `d` that
/// has an area.
pub open spec fn device_area(devices: Seq<HaDevice>, d: Seq<char>) -> Option<Seq<char>>
    decreases devices.len(),
{
    if devices.len() == 0 {
        None
    } else if devices.last().id@ == d && devices.last().area_id is Some {
        Some(devices.last().area_id.unwrap()@)
    } else {
        device_area(devices.drop_last(), d)
    }
}

/// An entity's area: its own, else the one inherited from its device.
pub open spec fn entity_area(e: HaEntityReg, devices: Seq<HaDevice>) -> Option<Seq<char>> {
    match e.area_id {
        Some(a) => Some(a@),
        None => match e.device_id {
            Some(d) => device_area(devices, d@),
            None => None,
        },
    }
}

/// The text behind an optional string.
pub open spec fn opt_view(o: Option<String>) -> Option<Seq<char>> {
    match o {
        Some(s) => Some(s@),
        None => None,
    }
}

/// The texts behind a sequence of strings.
pub open spec fn texts(s: Seq<String>) -> Seq<Seq<char>> {
    s.map_values(|t: String| t@)
}

/// A journal event the sync plans, by content.
pub ghost enum PlannedEvent {
    /// A zone stub for an HA area.
    Zone { id: Seq<char>, name: Seq<char>, floor: Option<Seq<char>>, tags: Seq<Seq<char>> },
    /// An unplaced feature bound to an HA entity.
    Feature { id: Seq<char>, name: Option<Seq<char>>, tags: Seq<Seq<char>>, entity_id: Seq<char> },
}

/// The entity id a planned event upserts.
pub open spec fn planned_id(p: PlannedEvent) -> Seq<char> {
    match p {
        PlannedEvent::Zone { id, .. } => id,
        PlannedEvent::Feature { id, .. } => id,
    }
}

/// The zone id of an HA area named `name`.
pub open spec fn zone_id_of(name: Seq<char>) -> Seq<char> {
    "zone"@ + seq![':'] + slug(name)
}

/// The feature id of an HA entity.
pub open spec fn feature_id_of(entity_id: Seq<char>) -> Seq<char> {
    "feature"@ + seq![':'] + slug(entity_id)
}

/// Zone stubs for the areas whose zone the site does not know yet, in
/// area order.
pub open spec fn zone_plan(areas: Seq<HaArea>, floors: Seq<HaFloor>, known: Map<Seq<char>, Entity>) -> Seq<PlannedEvent>
    decreases areas.len(),
{
    if areas.len() == 0 {
        seq![]
    } else {
        let rest = zone_plan(areas.drop_last(), floors, known);
        let a = areas.last();
        let id = zone_id_of(a.name@);
        if known.contains_key(id) {
            rest
        } else {
            rest.push(
                PlannedEvent::Zone {
                    id,
                    name: a.name@,
                    floor: match a.floor_id {
                        Some(f) => Some(floor_display(floors, f@)),
                        None => None,
                    },
                    tags: seq!["ha:area:"@ + a.area_id@],
                },
            )
        }
    }
}

/// An HA entity becomes a feature when it is enabled, in a placeable
/// domain, and has an area (its own or its device's).
pub open spec fn feature_candidate(e: HaEntityReg, devices: Seq<HaDevice>) -> bool {
    e.disabled_by is None && is_placeable(domain_of(e.entity_id@)) && entity_area(e, devices) is Some
}

/// Unplaced features for the candidate entities the site does not know
/// yet, in registry order.
pub open spec fn feature_plan(
    entities: Seq<HaEntityReg>,
    areas: Seq<HaArea>,
    devices: Seq<HaDevice>,
    known: Map<Seq<char>, Entity>,
) -> Seq<PlannedEvent>
    decreases entities.len(),
{
    if entities.len() == 0 {
        seq![]
    } else {
        let rest = feature_plan(entities.drop_last(), areas, devices, known);
        let e = entities.last();
        let id = feature_id_of(e.entity_id@);
        if !feature_candidate(e, devices) || known.contains_key(id) {
            rest
        } else {
            let area = entity_area(e, devices).unwrap();
            rest.push(
                PlannedEvent::Feature {
                    id,
                    name: match e.name {
                        Some(n) => Some(n@),
                        None => opt_view(e.original_name),
                    },
                    tags: seq!["unplaced"@, "ha:area:"@ + area, "ha:area_name:"@ + area_display(areas, area)],
                    entity_id: e.entity_id@,
                },
            )
        }
    }
}

/// An entity's own area wins: every planned feature is bound to some
/// registry entity, and is tagged with that entity's own area when it
/// has one, else with the area of its device (and that area's name).
pub proof fn law_feature_area_precedence(
    entities: Seq<HaEntityReg>,
    areas: Seq<HaArea>,
    devices: Seq<HaDevice>,
    known: Map<Seq<char>, Entity>,
    j: int,
)
    requires
        0 <= j < feature_plan(entities, areas, devices, known).len(),
    ensures
        exists|i: int|
            0 <= i < entities.len() && #[trigger] area_tagged(
                entities[i],
                devices,
                areas,
                feature_plan(entities, areas, devices, known)[j],
            ),
    decreases entities.len(),
{
    let rest = feature_plan(entities.drop_last(), areas, devices, known);
    if j < rest.len() {
        law_feature_area_precedence(entities.drop_last(), areas, devices, known, j);
        let i = choose|i: int|
            0 <= i < entities.drop_last().len() && #[trigger] area_tagged(entities.drop_last()[i], devices, areas, rest[j]);
        assert(entities.drop_last()[i] == entities[i]);
        assert(area_tagged(entities[i], devices, areas, feature_plan(entities, areas, devices, known)[j]));
    } else {
        let i = entities.len() - 1;
        assert(entities[i] == entities.last());
        assert(area_tagged(entities[i], devices, areas, feature_plan(entities, areas, devices, known)[j]));
    }
}

/// `p` is a feature bound to HA entity `e` and tagged with the area it
/// sits in: `e`'s own area when it has one, else its device's.
pub open spec fn area_tagged(e: HaEntityReg, devices: Seq<HaDevice>, areas: Seq<HaArea>, p: PlannedEvent) -> bool {
    p matches PlannedEvent::Feature { tags, entity_id, .. } && entity_id == e.entity_id@ && tags.len() == 3
        && tags[0] == "unplaced"@ && match e.area_id {
        Some(a) => tags[1] == "ha:area:"@ + a@ && tags[2] == "ha:area_name:"@ + area_display(areas, a@),
        None => e.device_id matches Some(d) && device_area(devices, d@) matches Some(da) && tags[1] == "ha:area:"@ + da
            && tags[2] == "ha:area_name:"@ + area_display(areas, da),
    }
}

/// Everything a sync plans against a site knowing `known`: zone stubs,
/// then features.
pub open spec fn plan_spec(s: RegistrySnapshot, known: Map<Seq<char>, Entity>) -> Seq<PlannedEvent> {
    zone_plan(s.areas@, s.floors@, known) + feature_plan(s.entities@, s.areas@, s.devices@, known)
}

/// Journal event `e` carries planned event `p`, stamped `at`.
pub open spec fn realizes(e: JournalEvent, p: PlannedEvent, at: Seq<char>) -> bool {
    match p {
        PlannedEvent::Zone { id, name, floor, tags } => (e matches JournalEvent::UpsertZone { zone, at: t } && {
            &&& zone.id@ == id
            &&& zone.kind == ZoneKind::Room
            &&& zone.name@ == name
            &&& opt_view(zone.floor) == floor
            &&& zone.boundary@.len() == 0
            &&& texts(zone.tags@) == tags
            &&& zone.expires_at is None
            &&& t@ == at
        }),
        PlannedEvent::Feature { id, name, tags, entity_id } => (e matches JournalEvent::UpsertFeature {
            feature,
            at: t,
        } && {
            &&& feature.id@ == id
            &&& opt_view(feature.name) == name
            &&& feature.position == LocalPoint { x: 0, y: 0, z: 0 }
            &&& texts(feature.tags@) == tags
            &&& feature.bindings@.len() == 1
            &&& feature.bindings@[0].kind == BindingKind::HaEntity
            &&& feature.bindings@[0].external_id@ == entity_id
            &&& t@ == at
        }),
    }
}

fn is_placeable_domain(d: &str) -> (r: bool)
    ensures
        r == is_placeable(d@),
{
    text_eq(d, "light") || text_eq(d, "switch") || text_eq(d, "sensor") || text_eq(d, "binary_sensor")
        || text_eq(d, "climate") || text_eq(d, "fan") || text_eq(d, "cover") || text_eq(d, "camera")
        || text_eq(d, "media_player") || text_eq(d, "lock") || text_eq(d, "vacuum") || text_eq(d, "valve")
}

fn domain(entity_id: &str) -> (d: String)
    ensures
        d@ == domain_of(entity_id@),
{
    let ghost s = entity_id@;
    let mut d = String::new();
    let mut it = entity_id.chars();
    let ghost mut k: int = 0;
    assert(s.skip(0) =~= s);
    assert(d@ + domain_of(s.skip(0)) =~= domain_of(s));
    loop
        invariant_except_break
            it.remaining() =~= s.skip(k),
            domain_of(s) == d@ + domain_of(s.skip(k)),
        invariant
            s == entity_id@,
            0 <= k <= s.len(),
        ensures
            d@ == domain_of(s),
        decreases s.len() - k,
    {
        match it.next() {
            None => {
                assert(s.skip(k).len() == 0);
                assert(d@ + domain_of(s.skip(k)) =~= d@);
                break;
            },
            Some(c) => {
                if c == '.' {
                    assert(d@ + domain_of(s.skip(k)) =~= d@);
                    break;
                }
                proof {
                    assert(s.skip(k).drop_first() =~= s.skip(k + 1));
                    assert(d@.push(c) + domain_of(s.skip(k + 1)) =~= d@ + domain_of(s.skip(k)));
                    k = k + 1;
                }
                push_char(&mut d, c);
            },
        }
    }
    d
}

fn floor_name(floors: &Vec<HaFloor>, f: &str) -> (r: String)
    ensures
        r@ == floor_display(floors@, f@),
{
    let mut i = floors.len();
    assert(floors@.take(i as int) =~= floors@);
    while i > 0
        invariant
            i <= floors@.len(),
            floor_display(floors@, f@) == floor_display(floors@.take(i as int), f@),
        decreases i,
    {
        assert(floors@.take(i as int).drop_last() =~= floors@.take(i - 1));
        if text_eq(floors[i - 1].floor_id.as_str(), f) {
            return floors[i - 1].name.clone();
        }
        i = i - 1;
    }
    String::from_str(f)
}

fn area_name(areas: &Vec<HaArea>, a: &str) -> (r: String)
    ensures
        r@ == area_display(areas@, a@),
{
    let mut i = areas.len();
    assert(areas@.take(i as int) =~= areas@);
    while i > 0
        invariant
            i <= areas@.len(),
            area_display(areas@, a@) == area_display(areas@.take(i as int), a@),
        decreases i,
    {
        assert(areas@.take(i as int).drop_last() =~= areas@.take(i - 1));
        if text_eq(areas[i - 1].area_id.as_str(), a) {
            return areas[i - 1].name.clone();
        }
        i = i - 1;
    }
    String::from_str(a)
}

fn area_of_device(devices: &Vec<HaDevice>, d: &str) -> (r: Option<String>)
    ensures
        opt_view(r) == device_area(devices@, d@),
{
    let mut i = devices.len();
    assert(devices@.take(i as int) =~= devices@);
    while i > 0
        invariant
            i <= devices@.len(),
            device_area(devices@, d@) == device_area(devices@.take(i as int), d@),
        decreases i,
    {
        assert(devices@.take(i as int).drop_last() =~= devices@.take(i - 1));
        let dev = &devices[i - 1];
        if text_eq(dev.id.as_str(), d) && dev.area_id.is_some() {
            return clone_opt_text(&dev.area_id);
        }
        i = i - 1;
    }
    None
}

fn area_of_entity(e: &HaEntityReg, devices: &Vec<HaDevice>) -> (r: Option<String>)
    ensures
        opt_view(r) == entity_area(*e, devices@),
{
    match &e.area_id {
        Some(a) => Some(a.clone()),
        None => match &e.device_id {
            Some(d) => area_of_device(devices, d.as_str()),
            None => None,
        },
    }
}

/// `"<prefix><rest>"` as a new string.
fn joined(prefix: &str, rest: &str) -> (r: String)
    ensures
        r@ == prefix@ + rest@,
{
    let mut r = String::from_str(prefix);
    push_text(&mut r, rest);
    r
}

/// Pure planning: the journal events that would bring `existing` up to
/// date with the HA registries. Existing entities are never modified
/// (idempotent, non-clobbering), so this is safe to run on a site with
/// hand-drawn boundaries and placed features.
pub fn plan_events(snapshot: &RegistrySnapshot, existing: &SiteState, at: &str) -> (r: Vec<JournalEvent>)
    requires
        existing.wf(),
    ensures
        r@.len() == plan_spec(*snapshot, existing@.entities).len(),
        forall|i: int| 0 <= i < r@.len() ==> realizes(#[trigger] r@[i], plan_spec(*snapshot, existing@.entities)[i], at@),
{
    let ghost known = existing@.entities;
    let areas = &snapshot.areas;
    let mut events: Vec<JournalEvent> = Vec::new();
    let mut i: usize = 0;
    while i < areas.len()
        invariant
            existing.wf(),
            known == existing@.entities,
            i <= areas@.len(),
            events@.len() == zone_plan(areas@.take(i as int), snapshot.floors@, known).len(),
            forall|j: int|
                0 <= j < events@.len() ==> realizes(#[trigger] events@[j], zone_plan(areas@.take(i as int), snapshot.floors@, known)[j], at@),
        decreases areas@.len() - i,
    {
        let area = &areas[i];
        proof {
            assert(areas@.take(i + 1).drop_last() =~= areas@.take(i as int));
        }
        let zone_id = named_entity_id("zone", area.name.as_str());
        if existing.entity(zone_id.as_str()).is_none() {
            let floor = match &area.floor_id {
                Some(f) => Some(floor_name(&snapshot.floors, f.as_str())),
                None => None,
            };
            let mut tags: Vec<String> = Vec::new();
            tags.push(joined("ha:area:", area.area_id.as_str()));
            assert(texts(tags@) =~= seq!["ha:area:"@ + area.area_id@]);
            let ghost before = events@;
            events.push(
                JournalEvent::UpsertZone {
                    zone: Zone {
                        id: zone_id,
                        kind: ZoneKind::Room,
                        name: area.name.clone(),
                        floor,
                        boundary: Vec::new(),
                        tags,
                        expires_at: None,
                    },
                    at: String::from_str(at),
                },
            );
            assert(forall|j: int| 0 <= j < before.len() ==> events@[j] == before[j]);
        }
        i = i + 1;
    }
    assert(areas@.take(i as int) =~= areas@);
    let ghost zones = events@;
    let n_zones = events.len();
    let entities = &snapshot.entities;
    let mut k: usize = 0;
    while k < entities.len()
        invariant
            existing.wf(),
            known == existing@.entities,
            k <= entities@.len(),
            n_zones == zone_plan(areas@, snapshot.floors@, known).len(),
            events@.len() == n_zones + feature_plan(entities@.take(k as int), areas@, snapshot.devices@, known).len(),
            forall|j: int| 0 <= j < n_zones ==> #[trigger] events@[j] == zones[j],
            forall|j: int| 0 <= j < n_zones ==> realizes(#[trigger] zones[j], zone_plan(areas@, snapshot.floors@, known)[j], at@),
            zones.len() == n_zones,
            forall|j: int|
                n_zones <= j < events@.len() ==> realizes(
                    #[trigger] events@[j],
                    feature_plan(entities@.take(k as int), areas@, snapshot.devices@, known)[j - n_zones],
                    at@,
                ),
        decreases entities@.len() - k,
    {
        let e = &entities[k];
        proof {
            assert(entities@.take(k + 1).drop_last() =~= entities@.take(k as int));
        }
        if e.disabled_by.is_none() {
            let d = domain(e.entity_id.as_str());
            if is_placeable_domain(d.as_str()) {
                match area_of_entity(e, &snapshot.devices) {
                    Some(area_id) => {
                        let feature_id = named_entity_id("feature", e.entity_id.as_str());
                        if existing.entity(feature_id.as_str()).is_none() {
                            let name = match &e.name {
                                Some(n) => Some(n.clone()),
                                None => clone_opt_text(&e.original_name),
                            };
                            let display = area_name(areas, area_id.as_str());
                            let mut tags: Vec<String> = Vec::new();
                            tags.push(String::from_str("unplaced"));
                            tags.push(joined("ha:area:", area_id.as_str()));
                            tags.push(joined("ha:area_name:", display.as_str()));
                            assert(texts(tags@) =~= seq![
                                "unplaced"@,
                                "ha:area:"@ + area_id@,
                                "ha:area_name:"@ + area_display(areas@, area_id@),
                            ]);
                            let mut bindings: Vec<Binding> = Vec::new();
                            bindings.push(Binding { kind: BindingKind::HaEntity, external_id: e.entity_id.clone() });
                            let ghost before = events@;
                            events.push(
                                JournalEvent::UpsertFeature {
                                    feature: Feature {
                                        id: feature_id,
                                        name,
                                        position: LocalPoint { x: 0, y: 0, z: 0 },
                                        tags,
                                        bindings,
                                    },
                                    at: String::from_str(at),
                                },
                            );
                            assert(forall|j: int| 0 <= j < before.len() ==> events@[j] == before[j]);
                        }
                    },
                    None => {},
                }
            }
        }
        k = k + 1;
    }
    assert(entities@.take(k as int) =~= entities@);
    proof {
        let plan = plan_spec(*snapshot, known);
        assert forall|j: int| 0 <= j < events@.len() implies realizes(#[trigger] events@[j], plan[j], at@) by {
            if j < n_zones {
                assert(events@[j] == zones[j]);
            }
        }
    }
    events
}

/// The entity id a realized planned event upserts is known once the
/// events are applied.
proof fn lemma_realized_known(m: SiteModel, events: Seq<JournalEvent>, plan: Seq<PlannedEvent>, at: Seq<char>, j: int)
    requires
        events.len() == plan.len(),
        forall|i: int| 0 <= i < events.len() ==> realizes(#[trigger] events[i], plan[i], at),
        0 <= j < events.len(),
    ensures
        apply_all(m, events).entities.contains_key(planned_id(plan[j])),
    decreases events.len(),
{
    let n = events.len() - 1;
    if j == n {
        assert(realizes(events[n], plan[n], at));
    } else {
        let d = events.drop_last();
        assert forall|i: int| 0 <= i < d.len() implies realizes(#[trigger] d[i], plan.drop_last()[i], at) by {
            assert(realizes(events[i], plan[i], at));
        }
        lemma_realized_known(m, d, plan.drop_last(), at, j);
        law_event_keeps_entities(apply_all(m, d), events.last(), planned_id(plan[j]));
    }
}

/// Every area's zone is known or planned.
proof fn lemma_zone_plan_covers(areas: Seq<HaArea>, floors: Seq<HaFloor>, known: Map<Seq<char>, Entity>, i: int)
    requires
        0 <= i < areas.len(),
    ensures
        known.contains_key(zone_id_of(areas[i].name@)) || exists|j: int|
            0 <= j < zone_plan(areas, floors, known).len() && planned_id(
                #[trigger] zone_plan(areas, floors, known)[j],
            ) == zone_id_of(areas[i].name@),
    decreases areas.len(),
{
    let rest = zone_plan(areas.drop_last(), floors, known);
    if i < areas.len() - 1 {
        lemma_zone_plan_covers(areas.drop_last(), floors, known, i);
        assert(areas.drop_last()[i] == areas[i]);
        if !known.contains_key(zone_id_of(areas[i].name@)) {
            let j = choose|j: int| 0 <= j < rest.len() && planned_id(#[trigger] rest[j]) == zone_id_of(areas[i].name@);
            assert(zone_plan(areas, floors, known)[j] == rest[j]);
        }
    } else if !known.contains_key(zone_id_of(areas[i].name@)) {
        assert(planned_id(zone_plan(areas, floors, known)[rest.len() as int]) == zone_id_of(areas[i].name@));
    }
}

/// No zone is planned when every area's zone is known.
proof fn lemma_zone_plan_empty(areas: Seq<HaArea>, floors: Seq<HaFloor>, known: Map<Seq<char>, Entity>)
    requires
        forall|i: int| 0 <= i < areas.len() ==> known.contains_key(zone_id_of(#[trigger] areas[i].name@)),
    ensures
        zone_plan(areas, floors, known).len() == 0,
    decreases areas.len(),
{
    if areas.len() > 0 {
        assert forall|i: int| 0 <= i < areas.drop_last().len() implies known.contains_key(zone_id_of(#[trigger] areas.drop_last()[i].name@)) by {
            assert(areas.drop_last()[i] == areas[i]);
        }
        lemma_zone_plan_empty(areas.drop_last(), floors, known);
        assert(known.contains_key(zone_id_of(areas[areas.len() - 1].name@)));
    }
}

/// Every candidate entity's feature is known or planned.
proof fn lemma_feature_plan_covers(
    entities: Seq<HaEntityReg>,
    areas: Seq<HaArea>,
    devices: Seq<HaDevice>,
    known: Map<Seq<char>, Entity>,
    i: int,
)
    requires
        0 <= i < entities.len(),
        feature_candidate(entities[i], devices),
    ensures
        known.contains_key(feature_id_of(entities[i].entity_id@)) || exists|j: int|
            0 <= j < feature_plan(entities, areas, devices, known).len() && planned_id(
                #[trigger] feature_plan(entities, areas, devices, known)[j],
            ) == feature_id_of(entities[i].entity_id@),
    decreases entities.len(),
{
    let rest = feature_plan(entities.drop_last(), areas, devices, known);
    let id = feature_id_of(entities[i].entity_id@);
    if i < entities.len() - 1 {
        assert(entities.drop_last()[i] == entities[i]);
        lemma_feature_plan_covers(entities.drop_last(), areas, devices, known, i);
        if !known.contains_key(id) {
            let j = choose|j: int| 0 <= j < rest.len() && planned_id(#[trigger] rest[j]) == id;
            assert(feature_plan(entities, areas, devices, known)[j] == rest[j]);
        }
    } else if !known.contains_key(id) {
        assert(planned_id(feature_plan(entities, areas, devices, known)[rest.len() as int]) == id);
    }
}

/// No feature is planned when every candidate's feature is known.
proof fn lemma_feature_plan_empty(
    entities: Seq<HaEntityReg>,
    areas: Seq<HaArea>,
    devices: Seq<HaDevice>,
    known: Map<Seq<char>, Entity>,
)
    requires
        forall|i: int|
            0 <= i < entities.len() && feature_candidate(#[trigger] entities[i], devices) ==> known.contains_key(
                feature_id_of(entities[i].entity_id@),
            ),
    ensures
        feature_plan(entities, areas, devices, known).len() == 0,
    decreases entities.len(),
{
    if entities.len() > 0 {
        let d = entities.drop_last();
        assert forall|i: int| 0 <= i < d.len() && feature_candidate(#[trigger] d[i], devices) implies known.contains_key(
            feature_id_of(d[i].entity_id@),
        ) by {
            assert(d[i] == entities[i]);
        }
        lemma_feature_plan_empty(d, areas, devices, known);
        let last = entities[entities.len() - 1];
        if feature_candidate(last, devices) {
            assert(known.contains_key(feature_id_of(last.entity_id@)));
        }
    }
}

/// The sync never clobbers: no planned event touches an entity the site
/// already knows.
pub proof fn law_sync_non_clobbering(s: RegistrySnapshot, known: Map<Seq<char>, Entity>, j: int)
    requires
        0 <= j < plan_spec(s, known).len(),
    ensures
        !known.contains_key(planned_id(plan_spec(s, known)[j])),
{
    lemma_zone_plan_fresh(s.areas@, s.floors@, known);
    lemma_feature_plan_fresh(s.entities@, s.areas@, s.devices@, known);
    let z = zone_plan(s.areas@, s.floors@, known);
    if j >= z.len() {
        assert(plan_spec(s, known)[j] == feature_plan(s.entities@, s.areas@, s.devices@, known)[j - z.len()]);
    }
}

proof fn lemma_zone_plan_fresh(areas: Seq<HaArea>, floors: Seq<HaFloor>, known: Map<Seq<char>, Entity>)
    ensures
        forall|j: int|
            0 <= j < zone_plan(areas, floors, known).len() ==> !known.contains_key(
                planned_id(#[trigger] zone_plan(areas, floors, known)[j]),
            ),
    decreases areas.len(),
{
    if areas.len() > 0 {
        lemma_zone_plan_fresh(areas.drop_last(), floors, known);
        let rest = zone_plan(areas.drop_last(), floors, known);
        let p = zone_plan(areas, floors, known);
        assert forall|j: int| 0 <= j < p.len() implies !known.contains_key(planned_id(#[trigger] p[j])) by {
            if j < rest.len() {
                assert(p[j] == rest[j]);
            }
        }
    }
}

proof fn lemma_feature_plan_fresh(
    entities: Seq<HaEntityReg>,
    areas: Seq<HaArea>,
    devices: Seq<HaDevice>,
    known: Map<Seq<char>, Entity>,
)
    ensures
        forall|j: int|
            0 <= j < feature_plan(entities, areas, devices, known).len() ==> !known.contains_key(
                planned_id(#[trigger] feature_plan(entities, areas, devices, known)[j]),
            ),
    decreases entities.len(),
{
    if entities.len() > 0 {
        lemma_feature_plan_fresh(entities.drop_last(), areas, devices, known);
        let rest = feature_plan(entities.drop_last(), areas, devices, known);
        let p = feature_plan(entities, areas, devices, known);
        assert forall|j: int| 0 <= j < p.len() implies !known.contains_key(planned_id(#[trigger] p[j])) by {
            if j < rest.len() {
                assert(p[j] == rest[j]);
            }
        }
    }
}

/// The sync is idempotent: once the events it planned are applied, a
/// second sync of the same registries plans nothing, whatever its time.
pub proof fn law_sync_idempotent(s: RegistrySnapshot, m: SiteModel, events: Seq<JournalEvent>, at: Seq<char>)
    requires
        events.len() == plan_spec(s, m.entities).len(),
        forall|i: int| 0 <= i < events.len() ==> realizes(#[trigger] events[i], plan_spec(s, m.entities)[i], at),
    ensures
        plan_spec(s, apply_all(m, events).entities).len() == 0,
{
    let plan = plan_spec(s, m.entities);
    let after = apply_all(m, events).entities;
    let z = zone_plan(s.areas@, s.floors@, m.entities);
    let f = feature_plan(s.entities@, s.areas@, s.devices@, m.entities);
    assert forall|i: int| 0 <= i < s.areas@.len() implies after.contains_key(zone_id_of(#[trigger] s.areas@[i].name@)) by {
        lemma_zone_plan_covers(s.areas@, s.floors@, m.entities, i);
        let id = zone_id_of(s.areas@[i].name@);
        if m.entities.contains_key(id) {
            lemma_apply_all_keeps(m, events, id);
        } else {
            let j = choose|j: int| 0 <= j < z.len() && planned_id(#[trigger] z[j]) == id;
            assert(plan[j] == z[j]);
            lemma_realized_known(m, events, plan, at, j);
        }
    }
    assert forall|i: int| 0 <= i < s.entities@.len() && feature_candidate(#[trigger] s.entities@[i], s.devices@) implies after.contains_key(
        feature_id_of(s.entities@[i].entity_id@),
    ) by {
        lemma_feature_plan_covers(s.entities@, s.areas@, s.devices@, m.entities, i);
        let id = feature_id_of(s.entities@[i].entity_id@);
        if m.entities.contains_key(id) {
            lemma_apply_all_keeps(m, events, id);
        } else {
            let j = choose|j: int| 0 <= j < f.len() && planned_id(#[trigger] f[j]) == id;
            assert(plan[z.len() + j] == f[j]);
            lemma_realized_known(m, events, plan, at, z.len() + j);
        }
    }
    lemma_zone_plan_empty(s.areas@, s.floors@, after);
    lemma_feature_plan_empty(s.entities@, s.areas@, s.devices@, after);
}

/// What to do with a message of the websocket authentication handshake
/// (`auth_required` -> `auth` -> `auth_ok`).
#[derive(Clone, Copy, PartialEq, Eq, Structural, Debug)]
pub enum AuthStep {
    /// Send the access token.
    SendToken,
    /// Authenticated: go on to the registry commands.
    Authenticated,
    /// The token was refused.
    Rejected,
    /// Not part of the handshake: keep reading.
    Ignore,
}

/// The handshake step for a message whose `type` is `t`.
pub open spec fn auth_step_of(t: Option<Seq<char>>) -> AuthStep {
    match t {
        Some(t) => if t == "auth_required"@ {
            AuthStep::SendToken
        } else if t == "auth_ok"@ {
            AuthStep::Authenticated
        } else if t == "auth_invalid"@ {
            AuthStep::Rejected
        } else {
            AuthStep::Ignore
        },
        None => AuthStep::Ignore,
    }
}

pub fn auth_step(msg_type: Option<&str>) -> (r: AuthStep)
    ensures
        r == auth_step_of(match msg_type {
            Some(t) => Some(t@),
            None => None,
        }),
{
    match msg_type {
        Some(t) => if text_eq(t, "auth_required") {
            AuthStep::SendToken
        } else if text_eq(t, "auth_ok") {
            AuthStep::Authenticated
        } else if text_eq(t, "auth_invalid") {
            AuthStep::Rejected
        } else {
            AuthStep::Ignore
        },
        None => AuthStep::Ignore,
    }
}

/// The error text for a refused token, with Home Assistant's message.
pub fn rejected_token_message(detail: &str) -> (m: String)
    ensures
        m@ == "Home Assistant rejected the token: "@ + detail@,
{
    joined("Home Assistant rejected the token: ", detail)
}

/// The registry commands, by request id: areas (1), floors (2),
/// entities (3), devices (4).
pub open spec fn registry_command(id: u64) -> Seq<char> {
    if id == 1 {
        "config/area_registry/list"@
    } else if id == 2 {
        "config/floor_registry/list"@
    } else if id == 3 {
        "config/entity_registry/list"@
    } else {
        "config/device_registry/list"@
    }
}

/// The registry commands to send, in order of their ids 1 to 4.
pub fn registry_commands() -> (r: Vec<(u64, String)>)
    ensures
        r@.len() == 4,
        forall|i: int| 0 <= i < 4 ==> #[trigger] r@[i].0 == i + 1 && r@[i].1@ == registry_command((i + 1) as u64),
{
    let mut r: Vec<(u64, String)> = Vec::new();
    r.push((1, String::from_str("config/area_registry/list")));
    r.push((2, String::from_str("config/floor_registry/list")));
    r.push((3, String::from_str("config/entity_registry/list")));
    r.push((4, String::from_str("config/device_registry/list")));
    r
}

/// What to do with a message while collecting registry results.
#[derive(Clone, Copy, PartialEq, Eq, Structural, Debug)]
pub enum ReplyStep {
    /// The result of command `id`: keep it.
    Store(u64),
    /// Command `id` failed: stop with an error.
    Failed(u64),
    /// Not a result: keep reading.
    Ignore,
}

/// The step for a message of type `msg_type`, id `id` (0 when absent)
/// and success flag `success`.
pub fn reply_step(msg_type: Option<&str>, id: Option<u64>, success: Option<bool>) -> (r: ReplyStep)
    ensures
        r == (if (match msg_type {
            Some(t) => t@ == "result"@,
            None => false,
        }) {
            let n = match id {
                Some(n) => n,
                None => 0u64,
            };
            if success == Some(true) {
                ReplyStep::Store(n)
            } else {
                ReplyStep::Failed(n)
            }
        } else {
            ReplyStep::Ignore
        }),
{
    let is_result = match msg_type {
        Some(t) => text_eq(t, "result"),
        None => false,
    };
    if !is_result {
        return ReplyStep::Ignore;
    }
    let n = match id {
        Some(n) => n,
        None => 0,
    };
    if success == Some(true) {
        ReplyStep::Store(n)
    } else {
        ReplyStep::Failed(n)
    }
}

/// The registry replies received so far, by request id; the fetch is
/// done once there are as many distinct ids as commands sent.
#[derive(Debug)]
pub struct ReplyTally {
    ids: Vec<u64>,
}

impl View for ReplyTally {
    type V = Set<u64>;

    closed spec fn view(&self) -> Set<u64> {
        self.ids@.to_set()
    }
}

impl ReplyTally {
    /// Each id is held once.
    pub closed spec fn wf(&self) -> bool {
        self.ids@.no_duplicates()
    }

    /// No reply yet.
    pub fn new() -> (t: Self)
        ensures
            t.wf(),
            t@ == Set::<u64>::empty(),
    {
        let t = ReplyTally { ids: Vec::new() };
        assert(t@ =~= Set::<u64>::empty());
        t
    }

    /// Count the reply to request `id` (a repeated id counts once).
    pub fn record(&mut self, id: u64)
        requires
            old(self).wf(),
        ensures
            final(self).wf(),
            final(self)@ == old(self)@.insert(id),
    {
        let ghost before = self.ids@;
        let mut i: usize = 0;
        while i < self.ids.len()
            invariant
                self.ids@ == before,
                before.no_duplicates(),
                i <= self.ids@.len(),
                forall|j: int| 0 <= j < i ==> self.ids@[j] != id,
            decreases self.ids@.len() - i,
        {
            if self.ids[i] == id {
                assert(self.ids@.contains(id));
                assert(self@.insert(id) =~= self@);
                return;
            }
            i = i + 1;
        }
        assert(!before.contains(id));
        self.ids.push(id);
        assert(self.ids@ =~= before.push(id));
        assert forall|a: u64| #[trigger] self.ids@.contains(a) <==> (before.contains(a) || a == id) by {
            if before.contains(a) {
                let j = choose|j: int| 0 <= j < before.len() && before[j] == a;
                assert(self.ids@[j] == a);
            }
            if self.ids@.contains(a) && a != id {
                let j = choose|j: int| 0 <= j < self.ids@.len() && self.ids@[j] == a;
                assert(j < before.len());
                assert(before[j] == a);
            }
            if a == id {
                assert(self.ids@[before.len() as int] == id);
            }
        }
        assert(self.ids@.to_set() =~= before.to_set().insert(id));
    }

    /// Whether replies to `commands` distinct requests are in.
    pub fn done(&self, commands: usize) -> (r: bool)
        requires
            self.wf(),
        ensures
            r == (self@.len() >= commands),
    {
        proof {
            self.ids@.unique_seq_to_set();
        }
        self.ids.len() >= commands
    }
}

} // verus!
