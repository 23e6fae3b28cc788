use stead::live::{ingest_events, LiveEvent, Source};
use stead::model::EntityKind;
use stead::state::{JournalEvent, SiteState};

fn event(schema: &str, kind: &str) -> LiveEvent {
    LiveEvent {
        schema: schema.into(),
        kind: kind.into(),
        device_id: "soil-probe-1".into(),
        label: None,
        observed_at: "2026-07-11T02:00:00Z".into(),
        position: None,
        data: Some(vec![("soil_moisture_pct".into(), "38.2".into()), ("temperature_f".into(), "68.2".into())]),
        source: None,
    }
}

#[test]
fn live_events_validate_schema_and_kind() {
    assert!(event("stead.live.v1", "data").validate().is_ok());
    assert!(event("veil.live.v1", "position").validate().is_ok());
    let err = event("x", "data").validate().unwrap_err();
    assert!(err.contains("stead.live.v1"));
    let err = event("stead.live.v1", "telemetry").validate().unwrap_err();
    assert!(err.contains("unsupported kind: telemetry"));
    let mut e = event("stead.live.v1", "data");
    e.device_id = String::new();
    assert_eq!(e.validate().unwrap_err(), "device_id must not be empty");
}

#[test]
fn live_events_become_device_observations() {
    let mut e = event("stead.live.v1", "data");
    e.position = Some("{\"lat\":38.9,\"lon\":-77.0}".into());
    e.source = Some(Source { protocol: "mqtt".into(), transport: None });
    assert_eq!(e.entity_id(), "device:soil_probe_1");
    let obs = e.into_observations();
    assert_eq!(obs.len(), 3);
    assert_eq!(obs[0].attr, "soil_moisture_pct");
    assert_eq!(obs[0].value, "38.2");
    assert_eq!(obs[1].attr, "temperature_f");
    assert_eq!(obs[2].attr, "position");
    assert!(obs.iter().all(|o| o.entity_id == "device:soil_probe_1"));
    assert!(obs.iter().all(|o| o.provenance.source == "mqtt"));
    assert!(obs.iter().all(|o| o.provenance.observed_at == "2026-07-11T02:00:00Z"));
    let plain = event("stead.live.v1", "data").into_observations();
    assert_eq!(plain[0].provenance.source, "live");
}

#[test]
fn ingestion_registers_new_devices_once() {
    let mut state = SiteState::new();
    let entries = ingest_events(&state, event("stead.live.v1", "data"), "2026-07-11T02:00:05Z").unwrap();
    assert_eq!(entries.len(), 3);
    match &entries[0] {
        JournalEvent::UpsertEntity(ent) => {
            assert_eq!(ent.id, "device:soil_probe_1");
            assert_eq!(ent.kind, EntityKind::Device);
            assert_eq!(ent.created_at, "2026-07-11T02:00:05Z");
        },
        other => panic!("expected the device entity first, got {other:?}"),
    }
    for entry in &entries {
        state.apply(entry);
    }
    assert_eq!(state.latest("device:soil_probe_1", "soil_moisture_pct").unwrap().value, "38.2");
    let again = ingest_events(&state, event("stead.live.v1", "data"), "2026-07-11T02:01:00Z").unwrap();
    assert_eq!(again.len(), 2);
    assert!(again.iter().all(|e| matches!(e, JournalEvent::Observe(_))));
    assert!(ingest_events(&state, event("nope", "data"), "t").is_err());
}
