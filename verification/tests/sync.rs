use stead::ha::sync::{plan_events, HaArea, HaDevice, HaEntityReg, HaFloor, RegistrySnapshot};
use stead::model::BindingKind;
use stead::state::{JournalEvent, SiteState};

fn snapshot() -> RegistrySnapshot {
    RegistrySnapshot {
        areas: vec![HaArea { area_id: "kitchen".into(), name: "Kitchen".into(), floor_id: Some("main".into()) }],
        floors: vec![HaFloor { floor_id: "main".into(), name: "Main Floor".into() }],
        entities: vec![
            HaEntityReg {
                entity_id: "light.kitchen_pendant".into(),
                area_id: Some("kitchen".into()),
                device_id: None,
                name: Some("Kitchen pendant".into()),
                original_name: None,
                disabled_by: None,
            },
            HaEntityReg {
                entity_id: "sensor.kitchen_temp".into(),
                area_id: None,
                device_id: Some("dev1".into()),
                name: None,
                original_name: Some("Kitchen temperature".into()),
                disabled_by: None,
            },
            HaEntityReg {
                entity_id: "automation.morning".into(), // not placeable
                area_id: Some("kitchen".into()),
                device_id: None,
                name: None,
                original_name: None,
                disabled_by: None,
            },
        ],
        devices: vec![HaDevice { id: "dev1".into(), area_id: Some("kitchen".into()) }],
    }
}

#[test]
fn plans_zone_stubs_and_bound_features() {
    let state = SiteState::new();
    let events = plan_events(&snapshot(), &state, "2026-07-12T00:00:00Z");
    // 1 zone + 2 placeable features (automation excluded)
    assert_eq!(events.len(), 3);
    let zones: Vec<_> = events
        .iter()
        .filter_map(|e| match e {
            JournalEvent::UpsertZone { zone, .. } => Some(zone),
            _ => None,
        })
        .collect();
    assert_eq!(zones.len(), 1);
    assert_eq!(zones[0].floor.as_deref(), Some("Main Floor"));
    assert!(zones[0].boundary.is_empty(), "stub zones have no boundary");
}

#[test]
fn sync_is_idempotent_and_non_clobbering() {
    let mut state = SiteState::new();
    for event in plan_events(&snapshot(), &state, "2026-07-12T00:00:00Z") {
        state.apply(&event);
    }
    let again = plan_events(&snapshot(), &state, "2026-07-12T01:00:00Z");
    assert!(again.is_empty(), "second sync plans nothing");
}

#[test]
fn planned_features_carry_names_tags_and_bindings() {
    let state = SiteState::new();
    let events = plan_events(&snapshot(), &state, "2026-07-12T00:00:00Z");
    match &events[0] {
        JournalEvent::UpsertZone { zone, at } => {
            assert_eq!(zone.id, "zone:kitchen");
            assert_eq!(zone.name, "Kitchen");
            assert_eq!(zone.tags, vec!["ha:area:kitchen".to_string()]);
            assert_eq!(at, "2026-07-12T00:00:00Z");
        },
        other => panic!("expected a zone stub, got {other:?}"),
    }
    match &events[2] {
        JournalEvent::UpsertFeature { feature, .. } => {
            assert_eq!(feature.id, "feature:sensor_kitchen_temp");
            assert_eq!(feature.name.as_deref(), Some("Kitchen temperature"));
            assert_eq!(
                feature.tags,
                vec!["unplaced".to_string(), "ha:area:kitchen".to_string(), "ha:area_name:Kitchen".to_string()]
            );
            assert_eq!(feature.bindings.len(), 1);
            assert_eq!(feature.bindings[0].kind, BindingKind::HaEntity);
            assert_eq!(feature.bindings[0].external_id, "sensor.kitchen_temp");
        },
        other => panic!("expected a feature, got {other:?}"),
    }
}

#[test]
fn disabled_and_arealess_entities_are_skipped() {
    let mut snap = snapshot();
    snap.entities[0].disabled_by = Some("user".into());
    snap.devices[0].area_id = None;
    snap.floors.clear();
    let events = plan_events(&snap, &SiteState::new(), "t");
    assert_eq!(events.len(), 1);
    match &events[0] {
        // without a floor record the floor id itself is kept
        JournalEvent::UpsertZone { zone, .. } => assert_eq!(zone.floor.as_deref(), Some("main")),
        other => panic!("expected a zone stub, got {other:?}"),
    }
}

#[test]
fn existing_entities_are_never_replanned() {
    let mut state = SiteState::new();
    let first = plan_events(&snapshot(), &state, "t0");
    // only the zone was applied: the features are still planned, the zone is not
    state.apply(&first[0]);
    let second = plan_events(&snapshot(), &state, "t1");
    assert_eq!(second.len(), 2);
    assert!(second.iter().all(|e| matches!(e, JournalEvent::UpsertFeature { .. })));
}
