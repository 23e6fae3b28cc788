//! The domain model: entities (zones, features, devices, anchors),
//! observations with provenance, and bindings to external systems
//! (Home Assistant).
//!
//! Positions are integer millimetres in the site frame. Values that
//! the model carries without reading them (an observation's value, an
//! anchor's positioning payload) are kept as their JSON text.

use vstd::prelude::*;

use crate::geometry::LocalPoint;
use crate::table::Keyed;
use crate::text::{compare_text, text_le, TextOrder};

verus! {

pub type EntityId = String;

#[derive(Clone, Copy, PartialEq, Eq, Structural, Debug)]
pub enum EntityKind {
    Zone,
    Feature,
    Device,
    Anchor,
    SurveyFeature,
}

/// How a relocalization anchor is found again by a device.
#[derive(Clone, Copy, PartialEq, Eq, Structural, Debug)]
pub enum AnchorKind {
    /// Printed QR code at a known position — the zero-dependency baseline.
    QrCode,
    /// Fiducial marker (AprilTag/ArUco) for robots and CV pipelines.
    Fiducial,
    /// Niantic Lightship VPS anchor.
    VpsLightship,
    /// Google ARCore Geospatial anchor (WGS84 + heading).
    ArcoreGeospatial,
    /// Apple ARKit world anchor / RoomPlan reference.
    ArkitWorld,
    /// Manually surveyed point.
    Manual,
}

#[derive(Clone, Copy, PartialEq, Eq, Structural, Debug)]
pub enum ZoneKind {
    Room,
    GardenBed,
    Lawn,
    Deck,
    Path,
    EventSpace,
    Utility,
    Other,
}

#[derive(Clone, Copy, PartialEq, Eq, Structural, Debug)]
pub enum BindingKind {
    HaEntity,
    HaArea,
    MqttTopic,
    Url,
}

/// A copy of an optional text.
pub fn clone_opt_text(o: &Option<String>) -> (r: Option<String>)
    ensures
        r == *o,
{
    match o {
        Some(s) => Some(s.clone()),
        None => None,
    }
}

/// A copy of a list of texts.
pub fn clone_texts(v: &Vec<String>) -> (r: Vec<String>)
    ensures
        r@ == v@,
{
    let mut r: Vec<String> = Vec::new();
    let mut i: usize = 0;
    while i < v.len()
        invariant
            i <= v@.len(),
            r@ == v@.take(i as int),
        decreases v@.len() - i,
    {
        r.push(v[i].clone());
        assert(v@.take(i + 1) =~= v@.take(i as int).push(v@[i as int]));
        i = i + 1;
    }
    assert(v@.take(i as int) =~= v@);
    r
}

/// A copy of a list of points.
pub fn clone_points(v: &Vec<LocalPoint>) -> (r: Vec<LocalPoint>)
    ensures
        r@ == v@,
{
    let mut r: Vec<LocalPoint> = Vec::new();
    let mut i: usize = 0;
    while i < v.len()
        invariant
            i <= v@.len(),
            r@ == v@.take(i as int),
        decreases v@.len() - i,
    {
        r.push(v[i]);
        assert(v@.take(i + 1) =~= v@.take(i as int).push(v@[i as int]));
        i = i + 1;
    }
    assert(v@.take(i as int) =~= v@);
    r
}

/// A stored entity. Never deleted: `retired_at` marks disappearance,
/// and a later re-observation un-retires it.
#[derive(Debug)]
pub struct Entity {
    pub id: EntityId,
    pub kind: EntityKind,
    pub name: Option<String>,
    pub created_at: String,
    pub retired_at: Option<String>,
}

impl Clone for Entity {
    fn clone(&self) -> (r: Self)
        ensures
            r == *self,
    {
        Entity {
            id: self.id.clone(),
            kind: self.kind,
            name: clone_opt_text(&self.name),
            created_at: self.created_at.clone(),
            retired_at: clone_opt_text(&self.retired_at),
        }
    }
}

impl View for Entity {
    type V = Entity;

    open spec fn view(&self) -> Entity {
        *self
    }
}

impl Keyed for Entity {
    open spec fn key_of(&self) -> Seq<char> {
        self.id@
    }

    fn key(&self) -> (k: &str) {
        self.id.as_str()
    }
}

/// Zones are the semantic unit: rooms, garden beds, decks, stages.
#[derive(Debug)]
pub struct Zone {
    pub id: EntityId,
    pub kind: ZoneKind,
    pub name: String,
    /// Floor id for indoor zones; None for outdoor.
    pub floor: Option<String>,
    /// Closed polygon in scene-local millimetres (first != last;
    /// auto-closed). May be empty for a *stub* zone (e.g. synced from
    /// Home Assistant before anyone draws it); stubs never match
    /// spatial queries.
    pub boundary: Vec<LocalPoint>,
    pub tags: Vec<String>,
    /// RFC 3339 UTC expiry for temporary zones. RFC 3339 UTC strings
    /// compare lexicographically, so expiry checks are plain string
    /// comparisons.
    pub expires_at: Option<String>,
}

/// The contents of a zone.
pub ghost struct ZoneView {
    pub id: String,
    pub kind: ZoneKind,
    pub name: String,
    pub floor: Option<String>,
    pub boundary: Seq<LocalPoint>,
    pub tags: Seq<String>,
    pub expires_at: Option<String>,
}

impl View for Zone {
    type V = ZoneView;

    open spec fn view(&self) -> ZoneView {
        ZoneView {
            id: self.id,
            kind: self.kind,
            name: self.name,
            floor: self.floor,
            boundary: self.boundary@,
            tags: self.tags@,
            expires_at: self.expires_at,
        }
    }
}

impl Keyed for Zone {
    open spec fn key_of(&self) -> Seq<char> {
        self.id@
    }

    fn key(&self) -> (k: &str) {
        self.id.as_str()
    }
}

impl Clone for Zone {
    fn clone(&self) -> (r: Self)
        ensures
            r@ == self@,
    {
        Zone {
            id: self.id.clone(),
            kind: self.kind,
            name: self.name.clone(),
            floor: clone_opt_text(&self.floor),
            boundary: clone_points(&self.boundary),
            tags: clone_texts(&self.tags),
            expires_at: clone_opt_text(&self.expires_at),
        }
    }
}

/// A zone with expiry `expires_at` has expired at `now`: its expiry is
/// at or before `now`.
pub open spec fn expired(expires_at: Option<String>, now: Seq<char>) -> bool {
    expires_at matches Some(e) && text_le(e@, now)
}

impl Zone {
    pub fn is_expired(&self, now: &str) -> (r: bool)
        ensures
            r == expired(self.expires_at, now@),
    {
        match &self.expires_at {
            Some(e) => compare_text(e.as_str(), now) != TextOrder::Greater,
            None => false,
        }
    }
}

/// Binding of a feature/zone to an external control-plane object.
#[derive(Debug)]
pub struct Binding {
    pub kind: BindingKind,
    /// e.g. Home Assistant entity_id ("switch.backyard_fan_3").
    pub external_id: String,
}

impl Clone for Binding {
    fn clone(&self) -> (r: Self)
        ensures
            r == *self,
    {
        Binding { kind: self.kind, external_id: self.external_id.clone() }
    }
}

/// A copy of a list of bindings.
pub fn clone_bindings(v: &Vec<Binding>) -> (r: Vec<Binding>)
    ensures
        r@ == v@,
{
    let mut r: Vec<Binding> = Vec::new();
    let mut i: usize = 0;
    while i < v.len()
        invariant
            i <= v@.len(),
            r@ == v@.take(i as int),
        decreases v@.len() - i,
    {
        r.push(v[i].clone());
        assert(v@.take(i + 1) =~= v@.take(i as int).push(v@[i as int]));
        i = i + 1;
    }
    assert(v@.take(i as int) =~= v@);
    r
}

/// A point feature inside the site: a tree, a fan, a sensor mount, a
/// stage, a raised bed corner.
#[derive(Debug)]
pub struct Feature {
    pub id: EntityId,
    pub name: Option<String>,
    pub position: LocalPoint,
    pub tags: Vec<String>,
    pub bindings: Vec<Binding>,
}

/// The contents of a feature.
pub ghost struct FeatureView {
    pub id: String,
    pub name: Option<String>,
    pub position: LocalPoint,
    pub tags: Seq<String>,
    pub bindings: Seq<Binding>,
}

impl View for Feature {
    type V = FeatureView;

    open spec fn view(&self) -> FeatureView {
        FeatureView {
            id: self.id,
            name: self.name,
            position: self.position,
            tags: self.tags@,
            bindings: self.bindings@,
        }
    }
}

impl Keyed for Feature {
    open spec fn key_of(&self) -> Seq<char> {
        self.id@
    }

    fn key(&self) -> (k: &str) {
        self.id.as_str()
    }
}

impl Clone for Feature {
    fn clone(&self) -> (r: Self)
        ensures
            r@ == self@,
    {
        Feature {
            id: self.id.clone(),
            name: clone_opt_text(&self.name),
            position: self.position,
            tags: clone_texts(&self.tags),
            bindings: clone_bindings(&self.bindings),
        }
    }
}

/// A physical relocalization point: where an AR device, robot, or
/// positioning service can re-find the site frame. The payload (JSON
/// text) is whatever the positioning system needs — stored opaquely.
#[derive(Debug)]
pub struct Anchor {
    /// "anchor:<slug>"
    pub id: EntityId,
    pub name: Option<String>,
    /// Anchor position in scene-local millimetres.
    pub position: LocalPoint,
    pub kind: AnchorKind,
    /// Opaque positioning payload, keyed by the anchor kind.
    pub payload: String,
}

impl Clone for Anchor {
    fn clone(&self) -> (r: Self)
        ensures
            r == *self,
    {
        Anchor {
            id: self.id.clone(),
            name: clone_opt_text(&self.name),
            position: self.position,
            kind: self.kind,
            payload: self.payload.clone(),
        }
    }
}

impl View for Anchor {
    type V = Anchor;

    open spec fn view(&self) -> Anchor {
        *self
    }
}

impl Keyed for Anchor {
    open spec fn key_of(&self) -> Seq<char> {
        self.id@
    }

    fn key(&self) -> (k: &str) {
        self.id.as_str()
    }
}

/// Provenance carried by every observation — answers must be
/// checkable. `confidence` holds the bits of an `f32`.
#[derive(Debug)]
pub struct Provenance {
    pub source: String,
    pub run_id: Option<String>,
    pub confidence: Option<u32>,
    pub observed_at: String,
}

impl Clone for Provenance {
    fn clone(&self) -> (r: Self)
        ensures
            r == *self,
    {
        Provenance {
            source: self.source.clone(),
            run_id: clone_opt_text(&self.run_id),
            confidence: self.confidence,
            observed_at: self.observed_at.clone(),
        }
    }
}

/// One append-only fact: entity + attribute + value (JSON text) +
/// provenance. Current state is the latest observation per
/// (entity, attr).
#[derive(Debug)]
pub struct Observation {
    pub entity_id: EntityId,
    pub attr: String,
    pub value: String,
    pub provenance: Provenance,
}

impl Clone for Observation {
    fn clone(&self) -> (r: Self)
        ensures
            r == *self,
    {
        Observation {
            entity_id: self.entity_id.clone(),
            attr: self.attr.clone(),
            value: self.value.clone(),
            provenance: self.provenance.clone(),
        }
    }
}

impl View for Observation {
    type V = Observation;

    open spec fn view(&self) -> Observation {
        *self
    }
}

impl Keyed for Observation {
    open spec fn key_of(&self) -> Seq<char> {
        self.attr@
    }

    fn key(&self) -> (k: &str) {
        self.attr.as_str()
    }
}

} // verus!
