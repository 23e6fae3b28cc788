use stead::api::zone_upsert;
use stead::geometry::{LocalPoint, Region};
use stead::ha::sync::{
    auth_step, registry_commands, rejected_token_message, reply_step, AuthStep, ReplyStep, ReplyTally,
};
use stead::mcp::{
    nearby_region, observe_call, observe_event, required_arg, rpc_method, tool_from_name, unknown_entity_message, unknown_method_message,
    RpcMethod, Tool,
};
use stead::model::{Zone, ZoneKind};
use stead::state::{JournalEvent, SiteState};

fn p(x: i32, y: i32) -> LocalPoint {
    LocalPoint { x, y, z: 0 }
}

fn stage(boundary: Vec<LocalPoint>) -> Zone {
    Zone {
        id: "zone:stage".into(),
        kind: ZoneKind::EventSpace,
        name: "Stage".into(),
        floor: None,
        boundary,
        tags: vec![],
        expires_at: None,
    }
}

#[test]
fn rpc_methods_are_dispatched_by_name() {
    assert_eq!(rpc_method("initialize"), RpcMethod::Initialize);
    assert_eq!(rpc_method("ping"), RpcMethod::Ping);
    assert_eq!(rpc_method("tools/list"), RpcMethod::ToolsList);
    assert_eq!(rpc_method("tools/call"), RpcMethod::ToolsCall);
    assert_eq!(rpc_method("resources/list"), RpcMethod::Unknown);
    assert_eq!(rpc_method(""), RpcMethod::Unknown);
    assert_eq!(unknown_method_message("resources/list"), "unknown method: resources/list");
}

#[test]
fn tools_are_selected_by_name_with_guidance_otherwise() {
    assert_eq!(tool_from_name("describe_site"), Ok(Tool::DescribeSite));
    assert_eq!(tool_from_name("list_zones"), Ok(Tool::ListZones));
    assert_eq!(tool_from_name("zone_at"), Ok(Tool::ZoneAt));
    assert_eq!(tool_from_name("query_features"), Ok(Tool::QueryFeatures));
    assert_eq!(tool_from_name("get_entity"), Ok(Tool::GetEntity));
    assert_eq!(tool_from_name("list_anchors"), Ok(Tool::ListAnchors));
    assert_eq!(tool_from_name("observe"), Ok(Tool::Observe));
    assert_eq!(tool_from_name("locate_point"), Ok(Tool::LocatePoint));
    assert_eq!(
        tool_from_name("teleport"),
        Err("unknown tool: teleport; available: describe_site, list_zones, zone_at, query_features, \
             get_entity, list_anchors, observe, locate_point"
            .to_string())
    );
    assert_eq!(
        unknown_entity_message("zone:nowhere"),
        "unknown entity: zone:nowhere (try describe_site / list_zones)"
    );
}

#[test]
fn observe_tool_journals_with_default_source() {
    let e = observe_event("zone:fire_pit".into(), "temperature_f".into(), "74.5".into(), None, "2026-07-11T02:00:00Z");
    match &e {
        JournalEvent::Observe(o) => {
            assert_eq!(o.entity_id, "zone:fire_pit");
            assert_eq!(o.attr, "temperature_f");
            assert_eq!(o.value, "74.5");
            assert_eq!(o.provenance.source, "mcp");
            assert_eq!(o.provenance.observed_at, "2026-07-11T02:00:00Z");
            assert!(o.provenance.run_id.is_none() && o.provenance.confidence.is_none());
        }
        other => panic!("expected an observation, got {other:?}"),
    }
    let e = observe_event("zone:fire_pit".into(), "lit".into(), "true".into(), Some("agent".into()), "t");
    match &e {
        JournalEvent::Observe(o) => assert_eq!(o.provenance.source, "agent"),
        other => panic!("expected an observation, got {other:?}"),
    }
    let mut state = SiteState::new();
    state.apply(&e);
    assert_eq!(state.latest("zone:fire_pit", "lit").unwrap().value, "true");
}

#[test]
fn locate_point_looks_five_metres_around() {
    let r = nearby_region(p(45_000, 45_000));
    assert!(matches!(r, Region::Within { center, radius_m: 5000 } if center == p(45_000, 45_000)));
    assert!(r.contains(p(48_000, 49_000)));
    assert!(!r.contains(p(49_000, 49_000)));
}

#[test]
fn posted_zones_need_three_vertices() {
    let ring = vec![p(0, 0), p(5_000, 0), p(5_000, 5_000)];
    match zone_upsert(stage(ring), "2026-07-11T00:00:00Z") {
        Ok(JournalEvent::UpsertZone { zone, at }) => {
            assert_eq!(zone.id, "zone:stage");
            assert_eq!(zone.boundary.len(), 3);
            assert_eq!(at, "2026-07-11T00:00:00Z");
        }
        other => panic!("expected a zone upsert, got {other:?}"),
    }
    match zone_upsert(stage(vec![p(0, 0), p(1_000, 0)]), "t") {
        Err(m) => assert_eq!(m, "zone boundary needs at least 3 vertices"),
        other => panic!("expected a refusal, got {other:?}"),
    }
    assert!(zone_upsert(stage(vec![]), "t").is_err());
}

#[test]
fn websocket_handshake_steps() {
    assert_eq!(auth_step(Some("auth_required")), AuthStep::SendToken);
    assert_eq!(auth_step(Some("auth_ok")), AuthStep::Authenticated);
    assert_eq!(auth_step(Some("auth_invalid")), AuthStep::Rejected);
    assert_eq!(auth_step(Some("event")), AuthStep::Ignore);
    assert_eq!(auth_step(None), AuthStep::Ignore);
    assert_eq!(rejected_token_message("Invalid access token"), "Home Assistant rejected the token: Invalid access token");
}

#[test]
fn registry_commands_and_replies() {
    let cmds = registry_commands();
    let expected = [
        (1u64, "config/area_registry/list"),
        (2, "config/floor_registry/list"),
        (3, "config/entity_registry/list"),
        (4, "config/device_registry/list"),
    ];
    assert_eq!(cmds.len(), 4);
    for (got, want) in cmds.iter().zip(expected.iter()) {
        assert_eq!(got.0, want.0);
        assert_eq!(got.1, want.1);
    }
    assert_eq!(reply_step(Some("result"), Some(3), Some(true)), ReplyStep::Store(3));
    assert_eq!(reply_step(Some("result"), Some(2), Some(false)), ReplyStep::Failed(2));
    assert_eq!(reply_step(Some("result"), None, None), ReplyStep::Failed(0));
    assert_eq!(reply_step(Some("event"), Some(1), Some(true)), ReplyStep::Ignore);
    assert_eq!(reply_step(None, Some(1), Some(true)), ReplyStep::Ignore);
}

#[test]
fn tool_arguments_must_be_given() {
    assert_eq!(required_arg(Some("zone:yard"), "id"), Ok("zone:yard"));
    assert_eq!(required_arg(None, "id"), Err("missing id".to_string()));
    let now = "2026-07-11T02:00:00Z";
    let missing = |e, a, v: Option<&str>| observe_call(e, a, v.map(String::from), None, now).unwrap_err();
    assert_eq!(missing(None, Some("t"), Some("1")), "missing entity");
    assert_eq!(missing(None, None, None), "missing entity");
    assert_eq!(missing(Some("zone:yard"), None, Some("1")), "missing attr");
    assert_eq!(missing(Some("zone:yard"), Some("t"), None), "missing value");
    match observe_call(Some("zone:yard"), Some("t"), Some("71".into()), Some("probe"), now) {
        Ok(JournalEvent::Observe(o)) => {
            assert_eq!((o.entity_id.as_str(), o.attr.as_str(), o.value.as_str()), ("zone:yard", "t", "71"));
            assert_eq!(o.provenance.source, "probe");
            assert_eq!(o.provenance.observed_at, now);
        }
        other => panic!("expected an observation, got {other:?}"),
    }
    match observe_call(Some("zone:yard"), Some("t"), Some("71".into()), None, now) {
        Ok(JournalEvent::Observe(o)) => assert_eq!(o.provenance.source, "mcp"),
        other => panic!("expected an observation, got {other:?}"),
    }
}

#[test]
fn registry_fetch_ends_after_four_distinct_replies() {
    let mut tally = ReplyTally::new();
    assert!(!tally.done(4));
    tally.record(1);
    tally.record(1);
    tally.record(3);
    assert!(!tally.done(4));
    tally.record(2);
    assert!(!tally.done(4));
    tally.record(4);
    assert!(tally.done(4));
    assert!(ReplyTally::new().done(0));
}
