//! stead: the site model of whole-home localized mapping, verified.
//!
//! A **site** is one property — house, yard, garden, outbuildings —
//! expressed in one local frame (x = east, y = north, z = up), here in
//! integer millimetres. The append-only journal of domain events is
//! the system of record; [`state::SiteState`] is its materialization,
//! rebuilt by replay. Entities are never deleted, only retired, and
//! the current state is the latest observation per (entity, attribute),
//! each with provenance.
//!
//! - [`text`], [`table`]: key order and the sorted indexes of the state
//! - [`ids`]: deterministic entity ids
//! - [`geometry`]: points, boxes, polygons and the region grammar
//! - [`model`], [`state`]: the domain model, journal events and replay
//! - [`journal`]: the journal's file layout
//! - [`live`], [`mqtt`]: live events and their ingestion
//! - [`ha`]: the Home Assistant registry sync
//! - [`mcp`], [`api`]: the decisions of the MCP server and HTTP API

pub mod api;
pub mod geometry;
pub mod ha;
pub mod ids;
pub mod journal;
pub mod live;
pub mod mcp;
pub mod model;
pub mod mqtt;
pub mod state;
pub mod table;
pub mod text;
