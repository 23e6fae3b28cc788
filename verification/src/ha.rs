//! The Home Assistant bridge.
//!
//! Inbound: HA areas/floors and the entity registry sync into stead
//! zones and bindings (see [`sync`]). Outbound: stead exposes
//! zone-aware aggregate sensors back to HA via MQTT discovery.

use vstd::prelude::*;

pub mod sync;

verus! {

/// Connection settings for the HA websocket + MQTT discovery paths.
#[derive(Debug)]
pub struct HaConfig {
    /// e.g. "ws://homeassistant.home-services.svc:8123/api/websocket"
    pub websocket_url: String,
    /// Long-lived access token (injected via env/secret, never stored).
    pub token: String,
    /// MQTT broker for discovery-based outbound sensors.
    pub mqtt_host: Option<String>,
    pub mqtt_port: Option<u16>,
}

/// An HA area as reported by the registry, pre-mapping into a zone.
#[derive(Debug)]
pub struct HaArea {
    pub area_id: String,
    pub name: String,
    pub floor_id: Option<String>,
}

} // verus!
