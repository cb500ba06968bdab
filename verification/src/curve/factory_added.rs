//! Factories announced by the Curve address provider.
use vstd::prelude::*;
use crate::eth::{BlockHeader, bytes_eq};
use crate::text::{spec_hex, to_hex};
use super::records::{
    AddressEvent, EventRecordView, Factory, announces, event_record, new_record, push_record,
    record_views,
};

verus! {

/// All factory records of a block.
pub struct Factories {
    pub factories: Vec<Factory>,
}

/// The records of the events, in order, that `filter` emitted.
pub open spec fn address_records(
    block: BlockHeader,
    filter: Seq<u8>,
    events: Seq<AddressEvent>,
) -> Seq<EventRecordView>
    decreases events.len(),
{
    if events.len() == 0 {
        Seq::empty()
    } else {
        let e = events.last();
        address_records(block, filter, events.drop_last()) + if e.log.address@ == filter {
            seq![event_record(spec_hex(e.address@), e.log, e.transaction, block)]
        } else {
            Seq::empty()
        }
    }
}

/// The event was logged by the contract at `filter`.
pub open spec fn emitted_by(e: AddressEvent, filter: Seq<u8>) -> bool {
    e.log.address@ == filter
}

/// Some event of `events` logged by `filter` is announced by `r`.
pub open spec fn announced_by_some(
    r: EventRecordView,
    block: BlockHeader,
    filter: Seq<u8>,
    events: Seq<AddressEvent>,
) -> bool {
    exists|i: int|
        0 <= i < events.len() && emitted_by(#[trigger] events[i], filter) && announces(
            r,
            spec_hex(events[i].address@),
            events[i].log,
            events[i].transaction,
            block,
        )
}

/// Law: every record of the events of `filter` announces the address named
/// by one of those events, with that event's log index, its transaction's
/// index and hash, and the block's number and timestamp.
pub proof fn lemma_address_records_announce(
    block: BlockHeader,
    filter: Seq<u8>,
    events: Seq<AddressEvent>,
)
    ensures
        forall|j: int|
            0 <= j < address_records(block, filter, events).len() ==> announced_by_some(
                #[trigger] address_records(block, filter, events)[j],
                block,
                filter,
                events,
            ),
    decreases events.len(),
{
    if events.len() > 0 {
        let prev = events.drop_last();
        lemma_address_records_announce(block, filter, prev);
        let n = events.len() - 1;
        let all = address_records(block, filter, events);
        let p = address_records(block, filter, prev);
        assert forall|j: int| 0 <= j < all.len() implies announced_by_some(
            #[trigger] all[j],
            block,
            filter,
            events,
        ) by {
            if j < p.len() {
                assert(all[j] == p[j]);
                assert(announced_by_some(p[j], block, filter, prev));
                let i = choose|i: int|
                    0 <= i < prev.len() && emitted_by(#[trigger] prev[i], filter) && announces(
                        p[j],
                        spec_hex(prev[i].address@),
                        prev[i].log,
                        prev[i].transaction,
                        block,
                    );
                assert(events[i] == prev[i]);
            } else {
                assert(events[n] == events.last());
                assert(emitted_by(events[n], filter));
            }
        }
    }
}

/// Appends the records of the events that `filter` emitted.
pub fn push_address_records(
    block: &BlockHeader,
    filter: &[u8],
    events: &Vec<AddressEvent>,
    out: &mut Vec<Factory>,
)
    ensures
        record_views(final(out)@) == record_views(old(out)@) + address_records(
            *block,
            filter@,
            events@,
        ),
{
    let ghost start = record_views(out@);
    let mut i: usize = 0;
    while i < events.len()
        invariant
            i <= events.len(),
            record_views(out@) == start + address_records(*block, filter@, events@.take(i as int)),
        decreases events.len() - i,
    {
        let e = &events[i];
        proof {
            assert(events@.take((i + 1) as int).drop_last() =~= events@.take(i as int));
            assert(events@.take((i + 1) as int).last() == *e);
        }
        if bytes_eq(e.log.address.as_slice(), filter) {
            let r = new_record(to_hex(e.address.as_slice()), &e.log, &e.transaction, block);
            push_record(out, r);
        }
        proof {
            assert(start + address_records(*block, filter@, events@.take((i + 1) as int))
                =~= record_views(out@));
        }
        i = i + 1;
    }
    proof {
        assert(events@.take(events.len() as int) =~= events@);
    }
}

/// The factories announced, in order, by `NewAddressIdentified` events of
/// the address provider.
pub fn get_factory_from_new_address_identified_events(
    block: &BlockHeader,
    provider: &[u8],
    events: &Vec<AddressEvent>,
    factories: &mut Vec<Factory>,
)
    ensures
        record_views(final(factories)@) == record_views(old(factories)@) + address_records(
            *block,
            provider@,
            events@,
        ),
{
    push_address_records(block, provider, events, factories);
}

/// The factories announced, in order, by `AddressModified` events of the
/// address provider.
pub fn get_factory_from_address_modified_events(
    block: &BlockHeader,
    provider: &[u8],
    events: &Vec<AddressEvent>,
    factories: &mut Vec<Factory>,
)
    ensures
        record_views(final(factories)@) == record_views(old(factories)@) + address_records(
            *block,
            provider@,
            events@,
        ),
{
    push_address_records(block, provider, events, factories);
}

/// The factories of a block: first those of the `NewAddressIdentified`
/// events of the address provider `provider`, then those of its
/// `AddressModified` events; each record holds the announced address as
/// text, the log's index, the block's number and timestamp, and the
/// transaction's index and hash.
pub fn map_factory_added(
    block: &BlockHeader,
    provider: &[u8],
    new_address_identified: &Vec<AddressEvent>,
    address_modified: &Vec<AddressEvent>,
) -> (r: Factories)
    ensures
        record_views(r.factories@) == address_records(*block, provider@, new_address_identified@)
            + address_records(*block, provider@, address_modified@),
{
    let mut factories: Vec<Factory> = Vec::new();
    proof {
        assert(record_views(factories@) =~= Seq::<EventRecordView>::empty());
    }
    get_factory_from_new_address_identified_events(
        block,
        provider,
        new_address_identified,
        &mut factories,
    );
    get_factory_from_address_modified_events(block, provider, address_modified, &mut factories);
    proof {
        assert(record_views(factories@) =~= address_records(
            *block,
            provider@,
            new_address_identified@,
        ) + address_records(*block, provider@, address_modified@));
    }
    Factories { factories }
}

} // verus!
