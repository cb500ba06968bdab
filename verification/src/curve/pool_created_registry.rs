//! Pools announced by the Curve registry's `PoolAdded` events.
use vstd::prelude::*;
use crate::eth::BlockHeader;
use super::factory_added::{address_records, push_address_records};
use super::records::{AddressEvent, EventRecordView, Pool, Pools, record_views};

verus! {

/// Appends the pools announced, in order, by `PoolAdded` events of the
/// registry.
fn get_pools(block: &BlockHeader, registry: &[u8], events: &Vec<AddressEvent>, pools: &mut Vec<Pool>)
    ensures
        record_views(final(pools)@) == record_views(old(pools)@) + address_records(
            *block,
            registry@,
            events@,
        ),
{
    push_address_records(block, registry, events, pools);
}

/// The pools of a block: one record per `PoolAdded` event emitted by the
/// registry `registry`, in order, holding the pool's address as text, the
/// log's index, the block's number and timestamp, and the transaction's
/// index and hash.
pub fn map_pool_created(block: &BlockHeader, registry: &[u8], pool_added: &Vec<AddressEvent>) -> (r:
    Pools)
    ensures
        record_views(r.pools@) == address_records(*block, registry@, pool_added@),
{
    let mut pools: Vec<Pool> = Vec::new();
    proof {
        assert(record_views(pools@) =~= Seq::<EventRecordView>::empty());
    }
    get_pools(block, registry, pool_added, &mut pools);
    proof {
        assert(record_views(pools@) =~= address_records(*block, registry@, pool_added@));
    }
    Pools { pools }
}

} // verus!
