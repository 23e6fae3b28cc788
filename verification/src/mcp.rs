//! The decisions of the MCP (Model Context Protocol) server over one
//! site: which JSON-RPC method and which tool a request names, and the
//! journal entry an `observe` call writes. The JSON itself is read and
//! written at the edge.

use vstd::prelude::*;
use vstd::string::StringExecFns;

use crate::geometry::{LocalPoint, Region};
use crate::model::{Observation, Provenance};
use crate::state::JournalEvent;
use crate::text::{push_text, text_eq};

verus! {

/// The JSON-RPC methods the server answers.
#[derive(Clone, Copy, PartialEq, Eq, Structural, Debug)]
pub enum RpcMethod {
    Initialize,
    Ping,
    ToolsList,
    ToolsCall,
    Unknown,
}

/// The method a request names.
pub open spec fn method_of(m: Seq<char>) -> RpcMethod {
    if m == "initialize"@ {
        RpcMethod::Initialize
    } else if m == "ping"@ {
        RpcMethod::Ping
    } else if m == "tools/list"@ {
        RpcMethod::ToolsList
    } else if m == "tools/call"@ {
        RpcMethod::ToolsCall
    } else {
        RpcMethod::Unknown
    }
}

pub fn rpc_method(method: &str) -> (r: RpcMethod)
    ensures
        r == method_of(method@),
{
    if text_eq(method, "initialize") {
        RpcMethod::Initialize
    } else if text_eq(method, "ping") {
        RpcMethod::Ping
    } else if text_eq(method, "tools/list") {
        RpcMethod::ToolsList
    } else if text_eq(method, "tools/call") {
        RpcMethod::ToolsCall
    } else {
        RpcMethod::Unknown
    }
}

/// The error text for a method the server does not know.
pub fn unknown_method_message(method: &str) -> (m: String)
    ensures
        m@ == "unknown method: "@ + method@,
{
    let mut m = String::from_str("unknown method: ");
    push_text(&mut m, method);
    m
}

/// The tools the server offers.
#[derive(Clone, Copy, PartialEq, Eq, Structural, Debug)]
pub enum Tool {
    DescribeSite,
    ListZones,
    ZoneAt,
    QueryFeatures,
    GetEntity,
    ListAnchors,
    Observe,
    LocatePoint,
}

/// The tool a name selects, if any.
pub open spec fn tool_of(name: Seq<char>) -> Option<Tool> {
    if name == "describe_site"@ {
        Some(Tool::DescribeSite)
    } else if name == "list_zones"@ {
        Some(Tool::ListZones)
    } else if name == "zone_at"@ {
        Some(Tool::ZoneAt)
    } else if name == "query_features"@ {
        Some(Tool::QueryFeatures)
    } else if name == "get_entity"@ {
        Some(Tool::GetEntity)
    } else if name == "list_anchors"@ {
        Some(Tool::ListAnchors)
    } else if name == "observe"@ {
        Some(Tool::Observe)
    } else if name == "locate_point"@ {
        Some(Tool::LocatePoint)
    } else {
        None
    }
}

/// The guidance for an unknown tool: it names the tool and lists the
/// available ones.
pub open spec fn unknown_tool_text(name: Seq<char>) -> Seq<char> {
    "unknown tool: "@ + name
        + "; available: describe_site, list_zones, zone_at, query_features, get_entity, list_anchors, observe, locate_point"@
}

/// The tool named `name`, or the guidance listing the available ones.
pub fn tool_from_name(name: &str) -> (r: Result<Tool, String>)
    ensures
        r is Ok <==> tool_of(name@) is Some,
        r matches Ok(t) ==> tool_of(name@) == Some(t),
        r matches Err(m) ==> m@ == unknown_tool_text(name@),
{
    if text_eq(name, "describe_site") {
        Ok(Tool::DescribeSite)
    } else if text_eq(name, "list_zones") {
        Ok(Tool::ListZones)
    } else if text_eq(name, "zone_at") {
        Ok(Tool::ZoneAt)
    } else if text_eq(name, "query_features") {
        Ok(Tool::QueryFeatures)
    } else if text_eq(name, "get_entity") {
        Ok(Tool::GetEntity)
    } else if text_eq(name, "list_anchors") {
        Ok(Tool::ListAnchors)
    } else if text_eq(name, "observe") {
        Ok(Tool::Observe)
    } else if text_eq(name, "locate_point") {
        Ok(Tool::LocatePoint)
    } else {
        let mut m = String::from_str("unknown tool: ");
        push_text(&mut m, name);
        push_text(
            &mut m,
            "; available: describe_site, list_zones, zone_at, query_features, get_entity, list_anchors, observe, locate_point",
        );
        Err(m)
    }
}

/// The error text for an entity the site does not know.
pub fn unknown_entity_message(id: &str) -> (m: String)
    ensures
        m@ == "unknown entity: "@ + id@ + " (try describe_site / list_zones)"@,
{
    let mut m = String::from_str("unknown entity: ");
    push_text(&mut m, id);
    push_text(&mut m, " (try describe_site / list_zones)");
    m
}

/// The journal entry of an `observe` call: the observation, with the
/// given source (default `mcp`), stamped `now`.
pub fn observe_event(entity: String, attr: String, value: String, source: Option<String>, now: &str) -> (e: JournalEvent)
    ensures
        e matches JournalEvent::Observe(o) && o.entity_id == entity && o.attr == attr && o.value == value
            && o.provenance.source@ == (match source {
            Some(s) => s@,
            None => "mcp"@,
        }) && o.provenance.run_id is None && o.provenance.confidence is None && o.provenance.observed_at@ == now@,
{
    let source = match source {
        Some(s) => s,
        None => String::from_str("mcp"),
    };
    JournalEvent::Observe(
        Observation {
            entity_id: entity,
            attr,
            value,
            provenance: Provenance { source, run_id: None, confidence: None, observed_at: String::from_str(now) },
        },
    )
}

/// The neighbourhood `locate_point` reports features of: 5 m around
/// the point.
pub fn nearby_region(point: LocalPoint) -> (r: Region)
    ensures
        r == (Region::Within { center: point, radius_m: 5000 }),
{
    Region::Within { center: point, radius_m: 5000 }
}

/// A tool argument that must be given: the argument, or the error
/// `missing <name>`.
pub fn required_arg<'a>(arg: Option<&'a str>, name: &str) -> (r: Result<&'a str, String>)
    ensures
        arg matches Some(a) ==> r == Ok::<&str, String>(a),
        arg is None ==> (r matches Err(m) && m@ == "missing "@ + name@),
{
    match arg {
        Some(a) => Ok(a),
        None => {
            let mut m = String::from_str("missing ");
            push_text(&mut m, name);
            Err(m)
        },
    }
}

/// The journal entry of an `observe` call from its arguments: the
/// entity, the attribute and the value (its JSON text) must be given,
/// checked in that order; the source defaults to `mcp`.
pub fn observe_call(
    entity: Option<&str>,
    attr: Option<&str>,
    value: Option<String>,
    source: Option<&str>,
    now: &str,
) -> (r: Result<JournalEvent, String>)
    ensures
        entity is None ==> (r matches Err(m) && m@ == "missing entity"@),
        entity is Some && attr is None ==> (r matches Err(m) && m@ == "missing attr"@),
        entity is Some && attr is Some && value is None ==> (r matches Err(m) && m@ == "missing value"@),
        r is Ok <==> (entity is Some && attr is Some && value is Some),
        r matches Ok(e) ==> (e matches JournalEvent::Observe(o) && o.entity_id@ == entity.unwrap()@ && o.attr@
            == attr.unwrap()@ && o.value == value.unwrap() && o.provenance.source@ == (match source {
            Some(s) => s@,
            None => "mcp"@,
        }) && o.provenance.run_id is None && o.provenance.confidence is None && o.provenance.observed_at@ == now@),
{
    let entity = match required_arg(entity, "entity") {
        Ok(e) => e,
        Err(m) => {
            proof {
                reveal_strlit("missing ");
                reveal_strlit("entity");
                reveal_strlit("missing entity");
            }
            assert(m@ =~= "missing entity"@);
            return Err(m);
        },
    };
    let attr = match required_arg(attr, "attr") {
        Ok(a) => a,
        Err(m) => {
            proof {
                reveal_strlit("missing ");
                reveal_strlit("attr");
                reveal_strlit("missing attr");
            }
            assert(m@ =~= "missing attr"@);
            return Err(m);
        },
    };
    let value = match value {
        Some(v) => v,
        None => {
            return Err(String::from_str("missing value"));
        },
    };
    let source = match source {
        Some(s) => Some(String::from_str(s)),
        None => None,
    };
    Ok(observe_event(String::from_str(entity), String::from_str(attr), value, source, now))
}

} // verus!
