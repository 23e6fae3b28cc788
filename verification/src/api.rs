//! The write rules of the HTTP API: every write is journaled first,
//! then applied.

use vstd::prelude::*;
use vstd::string::StringExecFns;

use crate::model::Zone;
use crate::state::JournalEvent;

verus! {

/// The journal entry that upserts a posted zone, stamped `now`; a zone
/// whose boundary has fewer than 3 vertices is refused.
pub fn zone_upsert(zone: Zone, now: &str) -> (r: Result<JournalEvent, String>)
    ensures
        r is Ok <==> zone.boundary@.len() >= 3,
        r matches Err(m) ==> m@ == "zone boundary needs at least 3 vertices"@,
        r matches Ok(e) ==> (e matches JournalEvent::UpsertZone { zone: z, at } && z == zone && at@ == now@),
{
    if zone.boundary.len() < 3 {
        return Err(String::from_str("zone boundary needs at least 3 vertices"));
    }
    Ok(JournalEvent::UpsertZone { zone, at: String::from_str(now) })
}

} // verus!
