use stead::geometry::{LocalPoint, RegionSpec};
use stead::model::{Entity, EntityKind, Feature, Observation, Provenance, Zone, ZoneKind};
use stead::state::{JournalEvent, SiteState};

/// A point at (`x`, `y`) millimetres.
fn p(x: i32, y: i32) -> LocalPoint {
    LocalPoint { x, y, z: 0 }
}

fn zone(id: &str, name: &str, ring: Vec<LocalPoint>) -> JournalEvent {
    JournalEvent::UpsertZone {
        zone: Zone {
            id: id.into(),
            kind: ZoneKind::Room,
            name: name.into(),
            floor: None,
            boundary: ring,
            tags: vec![],
            expires_at: None,
        },
        at: "2026-07-11T00:00:00Z".into(),
    }
}

fn observe(entity: &str, attr: &str, value: &str, at: &str) -> JournalEvent {
    JournalEvent::Observe(Observation {
        entity_id: entity.into(),
        attr: attr.into(),
        value: value.into(),
        provenance: Provenance {
            source: "test".into(),
            run_id: None,
            confidence: None,
            observed_at: at.into(),
        },
    })
}

#[test]
fn replay_materializes_zones_features_and_latest_attrs() {
    let mut state = SiteState::new();
    state.apply(&zone(
        "zone:yard",
        "Yard",
        vec![p(0, 0), p(100_000, 0), p(100_000, 100_000), p(0, 100_000)],
    ));
    state.apply(&zone(
        "zone:fire_pit",
        "Fire pit",
        vec![p(40_000, 40_000), p(50_000, 40_000), p(50_000, 50_000), p(40_000, 50_000)],
    ));
    state.apply(&JournalEvent::UpsertFeature {
        feature: Feature {
            id: "feature:fan_1".into(),
            name: Some("Fire pit fan".into()),
            position: p(45_000, 45_000),
            tags: vec!["fan".into()],
            bindings: vec![],
        },
        at: "2026-07-11T00:00:01Z".into(),
    });
    for (i, temp) in ["71.0", "73.5"].iter().enumerate() {
        state.apply(&observe(
            "zone:fire_pit",
            "temperature_f",
            temp,
            &format!("2026-07-11T00:00:0{}Z", i + 2),
        ));
    }

    // innermost zone wins
    let z = state.zone_at(p(45_000, 45_000), None).unwrap();
    assert_eq!(z.id, "zone:fire_pit");
    // latest observation, not the first
    let obs = state.latest("zone:fire_pit", "temperature_f").unwrap();
    assert_eq!(obs.value, "73.5");
    // region query finds the fan
    let region = RegionSpec { within_m: Some(10_000), point: Some(p(45_000, 45_000)), ..Default::default() }
        .resolve()
        .unwrap();
    assert_eq!(state.features_in(&region).len(), 1);
    assert_eq!(state.summary().observations, 2);
}

#[test]
fn retire_and_unretire() {
    let mut state = SiteState::new();
    state.apply(&zone("zone:stage", "Stage", vec![p(0, 0), p(5_000, 0), p(5_000, 5_000), p(0, 5_000)]));
    state.apply(&JournalEvent::RetireEntity { id: "zone:stage".into(), at: "2026-07-11T01:00:00Z".into() });
    assert!(state.zone_at(p(2_000, 2_000), None).is_none());
    assert_eq!(state.summary().retired, 1);
    // reappearing un-retires the same identity
    state.apply(&zone("zone:stage", "Stage", vec![p(0, 0), p(5_000, 0), p(5_000, 5_000), p(0, 5_000)]));
    assert!(state.zone_at(p(2_000, 2_000), None).is_some());
    assert_eq!(state.summary().retired, 0);
}

#[test]
fn replay_equals_live_application() {
    let events = vec![
        zone("zone:b", "B", vec![p(0, 0), p(10, 0), p(10, 10)]),
        zone("zone:a", "A", vec![p(0, 0), p(20, 0), p(20, 20)]),
        observe("zone:a", "t", "1", "2026-07-11T00:00:00Z"),
        JournalEvent::RetireEntity { id: "zone:b".into(), at: "2026-07-11T01:00:00Z".into() },
        observe("zone:a", "t", "2", "2026-07-11T00:00:01Z"),
    ];
    let replayed = SiteState::replay(&events);
    let mut live = SiteState::new();
    for e in &events {
        live.apply(e);
    }
    assert_eq!(replayed.summary(), live.summary());
    assert_eq!(replayed.summary().entities, 2);
    assert_eq!(replayed.summary().retired, 1);
    assert_eq!(replayed.latest("zone:a", "t").unwrap().value, "2");
    let ids: Vec<&str> = replayed.entities().iter().map(|e| e.id.as_str()).collect();
    assert_eq!(ids, vec!["zone:a", "zone:b"]);
    let zones: Vec<&str> = replayed.zones().iter().map(|z| z.id.as_str()).collect();
    assert_eq!(zones, vec!["zone:a"]);
}

#[test]
fn entity_upserts_never_delete_and_keep_identity() {
    let mut state = SiteState::new();
    state.apply(&JournalEvent::UpsertEntity(Entity {
        id: "device:probe".into(),
        kind: EntityKind::Device,
        name: Some("Probe".into()),
        created_at: "2026-07-11T00:00:00Z".into(),
        retired_at: None,
    }));
    state.apply(&JournalEvent::RetireEntity { id: "device:probe".into(), at: "2026-07-11T02:00:00Z".into() });
    assert!(!state.is_alive("device:probe"));
    assert_eq!(state.entity("device:probe").unwrap().retired_at.as_deref(), Some("2026-07-11T02:00:00Z"));
    state.apply(&JournalEvent::UpsertEntity(Entity {
        id: "device:probe".into(),
        kind: EntityKind::Feature,
        name: None,
        created_at: "2026-07-12T00:00:00Z".into(),
        retired_at: None,
    }));
    let e = state.entity("device:probe").unwrap();
    assert!(state.is_alive("device:probe"));
    assert_eq!(e.kind, EntityKind::Device);
    assert_eq!(e.name.as_deref(), Some("Probe"));
    assert_eq!(e.created_at, "2026-07-11T00:00:00Z");
    // retiring an unknown id changes nothing
    state.apply(&JournalEvent::RetireEntity { id: "device:ghost".into(), at: "2026-07-12T00:00:00Z".into() });
    assert!(state.entity("device:ghost").is_none());
    assert_eq!(state.summary().entities, 1);
}

#[test]
fn zone_lookup_honours_floor_expiry_and_ties() {
    let mut state = SiteState::new();
    let square = vec![p(0, 0), p(10_000, 0), p(10_000, 10_000), p(0, 10_000)];
    let mut upstairs = match zone("zone:upstairs", "Upstairs", square.clone()) {
        JournalEvent::UpsertZone { zone, .. } => zone,
        _ => unreachable!(),
    };
    upstairs.floor = Some("upper".into());
    state.apply(&JournalEvent::UpsertZone { zone: upstairs, at: "2026-07-11T00:00:00Z".into() });
    let mut stage = match zone("zone:stage", "Stage", square.clone()) {
        JournalEvent::UpsertZone { zone, .. } => zone,
        _ => unreachable!(),
    };
    stage.expires_at = Some("2026-07-12T00:00:00Z".into());
    state.apply(&JournalEvent::UpsertZone { zone: stage, at: "2026-07-11T00:00:00Z".into() });

    // no floor filter: equal boxes, the first id wins
    assert_eq!(state.zone_at(p(5_000, 5_000), None).unwrap().id, "zone:stage");
    // floor filter keeps only zones on that floor
    assert_eq!(state.zone_at(p(5_000, 5_000), Some("upper")).unwrap().id, "zone:upstairs");
    assert!(state.zone_at(p(5_000, 5_000), Some("basement")).is_none());
    // the expired stage is skipped when a time is given
    assert_eq!(
        state.zone_at_as_of(p(5_000, 5_000), None, "2026-07-12T00:00:00Z").unwrap().id,
        "zone:upstairs"
    );
    assert_eq!(
        state.zone_at_as_of(p(5_000, 5_000), None, "2026-07-11T23:59:59Z").unwrap().id,
        "zone:stage"
    );
    // outside every zone
    assert!(state.zone_at(p(20_000, 5_000), None).is_none());
}

#[test]
fn attributes_are_listed_by_name() {
    let mut state = SiteState::new();
    state.apply(&observe("device:probe", "temperature_f", "70", "2026-07-11T00:00:00Z"));
    state.apply(&observe("device:probe", "humidity_pct", "40", "2026-07-11T00:00:00Z"));
    state.apply(&observe("device:probe", "temperature_f", "71", "2026-07-11T00:01:00Z"));
    let attrs = state.attrs("device:probe").unwrap();
    let names: Vec<&str> = attrs.iter().map(|o| o.attr.as_str()).collect();
    assert_eq!(names, vec!["humidity_pct", "temperature_f"]);
    assert_eq!(attrs[1].value, "71");
    assert!(state.attrs("device:other").is_none());
    assert!(state.latest("device:probe", "pressure").is_none());
    assert_eq!(state.summary().observations, 3);
}

#[test]
fn zone_expiry_compares_rfc3339_text() {
    let mut z = match zone("zone:x", "X", vec![]) {
        JournalEvent::UpsertZone { zone, .. } => zone,
        _ => unreachable!(),
    };
    assert!(!z.is_expired("2030-01-01T00:00:00Z"));
    z.expires_at = Some("2026-07-12T00:00:00Z".into());
    assert!(z.is_expired("2026-07-12T00:00:00Z"));
    assert!(z.is_expired("2026-07-12T00:00:01Z"));
    assert!(!z.is_expired("2026-07-11T23:59:59Z"));
}
