//! The graph output of the Curve pipeline.
use vstd::prelude::*;
use crate::entity::{EntityChange, EntityChanges, change_views};

verus! {

/// The entity changes handed to the graph: those of the `Fees` module,
/// unchanged and in order.
pub fn graph_out(fees_entity_map: EntityChanges) -> (r: EntityChanges)
    ensures
        change_views(r.entity_changes@) == change_views(fees_entity_map.entity_changes@),
{
    let mut entity_changes: Vec<EntityChange> = Vec::new();
    let mut incoming = fees_entity_map.entity_changes;
    let ghost all = incoming@;
    entity_changes.append(&mut incoming);
    proof {
        assert(entity_changes@ =~= all);
    }
    EntityChanges { entity_changes }
}

} // verus!
