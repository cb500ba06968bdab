//! Pools deployed by the Curve factories the pipeline knows, from the eight
//! kinds of deployment events.
use vstd::prelude::*;
use crate::eth::{
    BlockHeader, Call, Log, Transfer, bytes_eq, null_address, transfer_decodes, transfer_from,
    transfer_to,
};
use crate::text::{spec_hex, to_hex};
use super::records::{
    AddressEvent, DeploymentTrace, EventRecordView, KnownEmitter, MinterAnswer, Pool, Pools,
    announces, event_record, new_record, push_record, record_views,
};

verus! {

/// `l` mints LP tokens of a new pool: a decodable transfer from the zero
/// address to the log's own emitter or to the deployment event's emitter.
pub open spec fn is_pool_mint(l: Log, origin: Seq<u8>) -> bool {
    &&& transfer_decodes(l)
    &&& transfer_from(l) == null_address()
    &&& (transfer_to(l) == l.address@ || transfer_to(l) == origin)
}

/// The logs of the calls whose state changes were kept, call by call.
pub open spec fn recorded_logs(calls: Seq<Call>) -> Seq<Log>
    decreases calls.len(),
{
    if calls.len() == 0 {
        Seq::empty()
    } else {
        (if calls[0].state_reverted {
            Seq::empty()
        } else {
            calls[0].logs@
        }) + recorded_logs(calls.drop_first())
    }
}

/// The emitter of the first log that mints a new pool's tokens.
pub open spec fn first_pool_log(logs: Seq<Log>, origin: Seq<u8>) -> Option<Seq<u8>>
    decreases logs.len(),
{
    if logs.len() == 0 {
        None
    } else if is_pool_mint(logs[0], origin) {
        Some(logs[0].address@)
    } else {
        first_pool_log(logs.drop_first(), origin)
    }
}

/// The text of the pool a deployment created, found in the logs of its
/// transaction's calls: the first of them that mints a new pool's tokens.
pub open spec fn pool_of_deployment(calls: Seq<Call>, origin: Seq<u8>) -> Option<Seq<char>> {
    match first_pool_log(recorded_logs(calls), origin) {
        Some(a) => Some(spec_hex(a)),
        None => None,
    }
}

proof fn lemma_recorded_logs_skip(calls: Seq<Call>, i: int)
    requires
        0 <= i < calls.len(),
    ensures
        recorded_logs(calls.skip(i)) == (if calls[i].state_reverted {
            Seq::empty()
        } else {
            calls[i].logs@
        }) + recorded_logs(calls.skip(i + 1)),
{
    assert(calls.skip(i).drop_first() =~= calls.skip(i + 1));
    assert(calls.skip(i)[0] == calls[i]);
}

proof fn lemma_first_pool_log_step(s: Seq<Log>, j: int, rest: Seq<Log>, origin: Seq<u8>)
    requires
        0 <= j < s.len(),
    ensures
        first_pool_log(s.skip(j) + rest, origin) == if is_pool_mint(s[j], origin) {
            Some(s[j].address@)
        } else {
            first_pool_log(s.skip(j + 1) + rest, origin)
        },
{
    let t = s.skip(j) + rest;
    assert(t[0] == s[j]);
    assert(t.drop_first() =~= s.skip(j + 1) + rest);
}

fn null_address_bytes() -> (r: Vec<u8>)
    ensures
        r@ == null_address(),
{
    let mut r: Vec<u8> = Vec::new();
    let mut i: usize = 0;
    while i < 20
        invariant
            i <= 20,
            r@ =~= Seq::new(i as nat, |k: int| 0u8),
        decreases 20 - i,
    {
        r.push(0);
        i = i + 1;
    }
    r
}

/// The text of the pool created by the deployment logged by `log`: the
/// emitter of the first log, among those of the calls that were not
/// reverted, that records a transfer from the zero address to that emitter
/// or to `log`'s emitter.
pub fn find_pool_from_plain_pool_deployed_event(calls: &Vec<Call>, log: &Log) -> (r: Option<
    String,
>)
    ensures
        r matches Some(t) ==> pool_of_deployment(calls@, log.address@) == Some(t@),
        r is None ==> pool_of_deployment(calls@, log.address@) is None,
{
    let null = null_address_bytes();
    let ghost origin = log.address@;
    let mut i: usize = 0;
    proof {
        assert(calls@.skip(0) =~= calls@);
    }
    while i < calls.len()
        invariant
            i <= calls.len(),
            null@ == null_address(),
            origin == log.address@,
            first_pool_log(recorded_logs(calls@), origin) == first_pool_log(
                recorded_logs(calls@.skip(i as int)),
                origin,
            ),
        decreases calls.len() - i,
    {
        let call = &calls[i];
        proof {
            lemma_recorded_logs_skip(calls@, i as int);
        }
        if !call.state_reverted {
            let ghost rest = recorded_logs(calls@.skip(i + 1));
            let mut j: usize = 0;
            proof {
                assert(call.logs@.skip(0) =~= call.logs@);
            }
            while j < call.logs.len()
                invariant
                    j <= call.logs.len(),
                    null@ == null_address(),
                    origin == log.address@,
                    first_pool_log(recorded_logs(calls@), origin) == first_pool_log(
                        call.logs@.skip(j as int) + rest,
                        origin,
                    ),
                decreases call.logs.len() - j,
            {
                let l = &call.logs[j];
                proof {
                    lemma_first_pool_log_step(call.logs@, j as int, rest, origin);
                }
                match Transfer::match_and_decode(l) {
                    Some(t) => {
                        if bytes_eq(t.from.as_slice(), null.as_slice()) && (bytes_eq(
                            t.to.as_slice(),
                            l.address.as_slice(),
                        ) || bytes_eq(t.to.as_slice(), log.address.as_slice())) {
                            return Some(to_hex(l.address.as_slice()));
                        }
                    },
                    None => {},
                }
                j = j + 1;
            }
            proof {
                assert(call.logs@.skip(call.logs.len() as int) + rest =~= rest);
            }
        } else {
            proof {
                assert(Seq::<Log>::empty() + recorded_logs(calls@.skip(i + 1)) =~= recorded_logs(
                    calls@.skip(i + 1),
                ));
            }
        }
        i = i + 1;
    }
    proof {
        assert(calls@.skip(calls.len() as int) =~= Seq::<Call>::empty());
    }
    None
}

/// The records of the events of known factories, each for the address the
/// event names.
pub open spec fn known_address_records(
    block: BlockHeader,
    events: Seq<KnownEmitter<AddressEvent>>,
) -> Seq<EventRecordView>
    decreases events.len(),
{
    if events.len() == 0 {
        Seq::empty()
    } else {
        let k = events.last();
        known_address_records(block, events.drop_last()) + if k.emitter_known {
            seq![event_record(spec_hex(k.event.address@), k.event.log, k.event.transaction, block)]
        } else {
            Seq::empty()
        }
    }
}

/// The records of the crypto-pool deployments of known factories whose LP
/// token named its minter, each for that minter.
pub open spec fn minter_records(block: BlockHeader, events: Seq<KnownEmitter<MinterAnswer>>) -> Seq<
    EventRecordView,
>
    decreases events.len(),
{
    if events.len() == 0 {
        Seq::empty()
    } else {
        let k = events.last();
        minter_records(block, events.drop_last()) + if k.emitter_known && k.event.minter is Some {
            seq![
                event_record(
                    spec_hex(k.event.minter->0@),
                    k.event.log,
                    k.event.transaction,
                    block,
                ),
            ]
        } else {
            Seq::empty()
        }
    }
}

/// The records of the plain- or meta-pool deployments of known factories
/// whose pool was found in their transaction, each for that pool.
pub open spec fn deployment_records(
    block: BlockHeader,
    events: Seq<KnownEmitter<DeploymentTrace>>,
) -> Seq<EventRecordView>
    decreases events.len(),
{
    if events.len() == 0 {
        Seq::empty()
    } else {
        let k = events.last();
        deployment_records(block, events.drop_last()) + if k.emitter_known && pool_of_deployment(
            k.event.calls@,
            k.event.log.address@,
        ) is Some {
            seq![
                event_record(
                    pool_of_deployment(k.event.calls@, k.event.log.address@)->0,
                    k.event.log,
                    k.event.transaction,
                    block,
                ),
            ]
        } else {
            Seq::empty()
        }
    }
}

/// Some event of a known factory in `events` is announced by `r`.
pub open spec fn announced_by_known(
    r: EventRecordView,
    block: BlockHeader,
    events: Seq<KnownEmitter<AddressEvent>>,
) -> bool {
    exists|i: int|
        0 <= i < events.len() && (#[trigger] events[i]).emitter_known && true
            && announces(
            r,
            spec_hex(events[i].event.address@),
            events[i].event.log,
            events[i].event.transaction,
            block,
        )
}

/// Law: every record of the events of known factories announces the address
/// named by an event whose emitter is a known factory, with that event's log
/// index, its transaction's index and hash, and the block's number and
/// timestamp.
pub proof fn lemma_known_address_records_announce(block: BlockHeader, events: Seq<KnownEmitter<AddressEvent>>)
    ensures
        forall|j: int|
            0 <= j < known_address_records(block, events).len() ==> announced_by_known(
                #[trigger] known_address_records(block, events)[j],
                block,
                events,
            ),
    decreases events.len(),
{
    if events.len() > 0 {
        let prev = events.drop_last();
        lemma_known_address_records_announce(block, prev);
        let n = events.len() - 1;
        let all = known_address_records(block, events);
        let p = known_address_records(block, prev);
        assert forall|j: int| 0 <= j < all.len() implies announced_by_known(
            #[trigger] all[j],
            block,
            events,
        ) by {
            if j < p.len() {
                assert(all[j] == p[j]);
                assert(announced_by_known(p[j], block, prev));
                let i = choose|i: int|
                    0 <= i < prev.len() && (#[trigger] prev[i]).emitter_known && true
                        && announces(
                        p[j],
                        spec_hex(prev[i].event.address@),
                        prev[i].event.log,
                        prev[i].event.transaction,
                        block,
                    );
                assert(events[i] == prev[i]);
            } else {
                assert(events[n] == events.last());
            }
        }
    }
}

/// Some deployment of a known factory in `events` whose token named its
/// minter is announced by `r`.
pub open spec fn minter_announced_by_known(
    r: EventRecordView,
    block: BlockHeader,
    events: Seq<KnownEmitter<MinterAnswer>>,
) -> bool {
    exists|i: int|
        0 <= i < events.len() && (#[trigger] events[i]).emitter_known && events[i].event.minter is Some
            && announces(
            r,
            spec_hex(events[i].event.minter->0@),
            events[i].event.log,
            events[i].event.transaction,
            block,
        )
}

/// Law: every crypto-pool record announces the minter named by the LP token
/// of a deployment whose emitter is a known factory, with that deployment's
/// log index, its transaction's index and hash, and the block's number and
/// timestamp.
pub proof fn lemma_minter_records_announce(block: BlockHeader, events: Seq<KnownEmitter<MinterAnswer>>)
    ensures
        forall|j: int|
            0 <= j < minter_records(block, events).len() ==> minter_announced_by_known(
                #[trigger] minter_records(block, events)[j],
                block,
                events,
            ),
    decreases events.len(),
{
    if events.len() > 0 {
        let prev = events.drop_last();
        lemma_minter_records_announce(block, prev);
        let n = events.len() - 1;
        let all = minter_records(block, events);
        let p = minter_records(block, prev);
        assert forall|j: int| 0 <= j < all.len() implies minter_announced_by_known(
            #[trigger] all[j],
            block,
            events,
        ) by {
            if j < p.len() {
                assert(all[j] == p[j]);
                assert(minter_announced_by_known(p[j], block, prev));
                let i = choose|i: int|
                    0 <= i < prev.len() && (#[trigger] prev[i]).emitter_known && prev[i].event.minter is Some
                        && announces(
                        p[j],
                        spec_hex(prev[i].event.minter->0@),
                        prev[i].event.log,
                        prev[i].event.transaction,
                        block,
                    );
                assert(events[i] == prev[i]);
            } else {
                assert(events[n] == events.last());
            }
        }
    }
}

/// Some deployment of a known factory in `events` whose pool was found is
/// announced by `r`.
pub open spec fn pool_announced_by_known(
    r: EventRecordView,
    block: BlockHeader,
    events: Seq<KnownEmitter<DeploymentTrace>>,
) -> bool {
    exists|i: int|
        0 <= i < events.len() && (#[trigger] events[i]).emitter_known && pool_of_deployment(events[i].event.calls@, events[i].event.log.address@) is Some
            && announces(
            r,
            pool_of_deployment(events[i].event.calls@, events[i].event.log.address@)->0,
            events[i].event.log,
            events[i].event.transaction,
            block,
        )
}

/// Law: every plain- or meta-pool record announces the pool found in the
/// transaction of a deployment whose emitter is a known factory, with that
/// deployment's log index, its transaction's index and hash, and the block's
/// number and timestamp.
pub proof fn lemma_deployment_records_announce(block: BlockHeader, events: Seq<KnownEmitter<DeploymentTrace>>)
    ensures
        forall|j: int|
            0 <= j < deployment_records(block, events).len() ==> pool_announced_by_known(
                #[trigger] deployment_records(block, events)[j],
                block,
                events,
            ),
    decreases events.len(),
{
    if events.len() > 0 {
        let prev = events.drop_last();
        lemma_deployment_records_announce(block, prev);
        let n = events.len() - 1;
        let all = deployment_records(block, events);
        let p = deployment_records(block, prev);
        assert forall|j: int| 0 <= j < all.len() implies pool_announced_by_known(
            #[trigger] all[j],
            block,
            events,
        ) by {
            if j < p.len() {
                assert(all[j] == p[j]);
                assert(pool_announced_by_known(p[j], block, prev));
                let i = choose|i: int|
                    0 <= i < prev.len() && (#[trigger] prev[i]).emitter_known && pool_of_deployment(prev[i].event.calls@, prev[i].event.log.address@) is Some
                        && announces(
                        p[j],
                        pool_of_deployment(prev[i].event.calls@, prev[i].event.log.address@)->0,
                        prev[i].event.log,
                        prev[i].event.transaction,
                        block,
                    );
                assert(events[i] == prev[i]);
            } else {
                assert(events[n] == events.last());
            }
        }
    }
}

proof fn lemma_known_address_records_append(
    block: BlockHeader,
    a: Seq<KnownEmitter<AddressEvent>>,
    b: Seq<KnownEmitter<AddressEvent>>,
)
    ensures
        known_address_records(block, a + b) == known_address_records(block, a) + known_address_records(block, b),
    decreases b.len(),
{
    if b.len() == 0 {
        assert(a + b =~= a);
        assert(known_address_records(block, a) + known_address_records(block, b) =~= known_address_records(block, a));
    } else {
        lemma_known_address_records_append(block, a, b.drop_last());
        assert((a + b).drop_last() =~= a + b.drop_last());
        assert((a + b).last() == b.last());
        assert(known_address_records(block, a + b) =~= known_address_records(block, a) + known_address_records(block, b));
    }
}

/// Law: an event of an emitter that is not a known factory adds no pool:
/// inserting it anywhere among the events leaves the records unchanged.
pub proof fn lemma_unknown_emitters_add_no_pools(
    block: BlockHeader,
    before: Seq<KnownEmitter<AddressEvent>>,
    e: KnownEmitter<AddressEvent>,
    after: Seq<KnownEmitter<AddressEvent>>,
)
    requires
        !e.emitter_known,
    ensures
        known_address_records(block, before + seq![e] + after) == known_address_records(block, before + after),
{
    lemma_known_address_records_append(block, before + seq![e], after);
    lemma_known_address_records_append(block, before, seq![e]);
    lemma_known_address_records_append(block, before, after);
    assert(seq![e].drop_last() =~= Seq::<KnownEmitter<AddressEvent>>::empty());
    assert(seq![e].last() == e);
    assert(known_address_records(block, seq![e].drop_last()) =~= Seq::<EventRecordView>::empty());
    assert(known_address_records(block, seq![e]) =~= Seq::<EventRecordView>::empty());
    assert(known_address_records(block, before) + known_address_records(block, seq![e]) =~= known_address_records(block, before));
}

proof fn lemma_minter_records_append(
    block: BlockHeader,
    a: Seq<KnownEmitter<MinterAnswer>>,
    b: Seq<KnownEmitter<MinterAnswer>>,
)
    ensures
        minter_records(block, a + b) == minter_records(block, a) + minter_records(block, b),
    decreases b.len(),
{
    if b.len() == 0 {
        assert(a + b =~= a);
        assert(minter_records(block, a) + minter_records(block, b) =~= minter_records(block, a));
    } else {
        lemma_minter_records_append(block, a, b.drop_last());
        assert((a + b).drop_last() =~= a + b.drop_last());
        assert((a + b).last() == b.last());
        assert(minter_records(block, a + b) =~= minter_records(block, a) + minter_records(block, b));
    }
}

/// Law: a crypto-pool deployment by an emitter that is not a known factory adds
/// no pool: inserting it anywhere leaves the records unchanged.
pub proof fn lemma_unknown_crypto_deployers_add_no_pools(
    block: BlockHeader,
    before: Seq<KnownEmitter<MinterAnswer>>,
    e: KnownEmitter<MinterAnswer>,
    after: Seq<KnownEmitter<MinterAnswer>>,
)
    requires
        !e.emitter_known,
    ensures
        minter_records(block, before + seq![e] + after) == minter_records(block, before + after),
{
    lemma_minter_records_append(block, before + seq![e], after);
    lemma_minter_records_append(block, before, seq![e]);
    lemma_minter_records_append(block, before, after);
    assert(seq![e].drop_last() =~= Seq::<KnownEmitter<MinterAnswer>>::empty());
    assert(seq![e].last() == e);
    assert(minter_records(block, seq![e].drop_last()) =~= Seq::<EventRecordView>::empty());
    assert(minter_records(block, seq![e]) =~= Seq::<EventRecordView>::empty());
    assert(minter_records(block, before) + minter_records(block, seq![e]) =~= minter_records(block, before));
}

proof fn lemma_deployment_records_append(
    block: BlockHeader,
    a: Seq<KnownEmitter<DeploymentTrace>>,
    b: Seq<KnownEmitter<DeploymentTrace>>,
)
    ensures
        deployment_records(block, a + b) == deployment_records(block, a) + deployment_records(block, b),
    decreases b.len(),
{
    if b.len() == 0 {
        assert(a + b =~= a);
        assert(deployment_records(block, a) + deployment_records(block, b) =~= deployment_records(block, a));
    } else {
        lemma_deployment_records_append(block, a, b.drop_last());
        assert((a + b).drop_last() =~= a + b.drop_last());
        assert((a + b).last() == b.last());
        assert(deployment_records(block, a + b) =~= deployment_records(block, a) + deployment_records(block, b));
    }
}

/// Law: a plain- or meta-pool deployment by an emitter that is not a known
/// factory adds no pool, even when its transaction mints a pool's tokens:
/// inserting it anywhere leaves the records unchanged.
pub proof fn lemma_unknown_plain_deployers_add_no_pools(
    block: BlockHeader,
    before: Seq<KnownEmitter<DeploymentTrace>>,
    e: KnownEmitter<DeploymentTrace>,
    after: Seq<KnownEmitter<DeploymentTrace>>,
)
    requires
        !e.emitter_known,
    ensures
        deployment_records(block, before + seq![e] + after) == deployment_records(block, before + after),
{
    lemma_deployment_records_append(block, before + seq![e], after);
    lemma_deployment_records_append(block, before, seq![e]);
    lemma_deployment_records_append(block, before, after);
    assert(seq![e].drop_last() =~= Seq::<KnownEmitter<DeploymentTrace>>::empty());
    assert(seq![e].last() == e);
    assert(deployment_records(block, seq![e].drop_last()) =~= Seq::<EventRecordView>::empty());
    assert(deployment_records(block, seq![e]) =~= Seq::<EventRecordView>::empty());
    assert(deployment_records(block, before) + deployment_records(block, seq![e]) =~= deployment_records(block, before));
}

/// Appends the records of the events of known factories.
fn push_known_address_records(
    block: &BlockHeader,
    events: &Vec<KnownEmitter<AddressEvent>>,
    pools: &mut Vec<Pool>,
)
    ensures
        record_views(final(pools)@) == record_views(old(pools)@) + known_address_records(
            *block,
            events@,
        ),
{
    let ghost start = record_views(pools@);
    let mut i: usize = 0;
    while i < events.len()
        invariant
            i <= events.len(),
            record_views(pools@) == start + known_address_records(*block, events@.take(i as int)),
        decreases events.len() - i,
    {
        let k = &events[i];
        proof {
            assert(events@.take((i + 1) as int).drop_last() =~= events@.take(i as int));
            assert(events@.take((i + 1) as int).last() == *k);
        }
        if k.emitter_known {
            let e = &k.event;
            let r = new_record(to_hex(e.address.as_slice()), &e.log, &e.transaction, block);
            push_record(pools, r);
        }
        proof {
            assert(start + known_address_records(*block, events@.take((i + 1) as int))
                =~= record_views(pools@));
        }
        i = i + 1;
    }
    proof {
        assert(events@.take(events.len() as int) =~= events@);
    }
}

/// Appends the records of the deployments of known factories whose pool was
/// found.
fn push_deployment_records(
    block: &BlockHeader,
    events: &Vec<KnownEmitter<DeploymentTrace>>,
    pools: &mut Vec<Pool>,
)
    ensures
        record_views(final(pools)@) == record_views(old(pools)@) + deployment_records(
            *block,
            events@,
        ),
{
    let ghost start = record_views(pools@);
    let mut i: usize = 0;
    while i < events.len()
        invariant
            i <= events.len(),
            record_views(pools@) == start + deployment_records(*block, events@.take(i as int)),
        decreases events.len() - i,
    {
        let k = &events[i];
        proof {
            assert(events@.take((i + 1) as int).drop_last() =~= events@.take(i as int));
            assert(events@.take((i + 1) as int).last() == *k);
        }
        if k.emitter_known {
            let e = &k.event;
            match find_pool_from_plain_pool_deployed_event(&e.calls, &e.log) {
                Some(address) => {
                    let r = new_record(address, &e.log, &e.transaction, block);
                    push_record(pools, r);
                },
                None => {},
            }
        }
        proof {
            assert(start + deployment_records(*block, events@.take((i + 1) as int))
                =~= record_views(pools@));
        }
        i = i + 1;
    }
    proof {
        assert(events@.take(events.len() as int) =~= events@);
    }
}

/// Appends the pools of the crypto-pool deployments of known factories: the
/// minter named by each deployment's LP token; a deployment whose token named
/// none is skipped.
pub fn get_pool_from_deploy_crypto_pool_deployed_events(
    block: &BlockHeader,
    events: &Vec<KnownEmitter<MinterAnswer>>,
    pools: &mut Vec<Pool>,
)
    ensures
        record_views(final(pools)@) == record_views(old(pools)@) + minter_records(
            *block,
            events@,
        ),
{
    let ghost start = record_views(pools@);
    let mut i: usize = 0;
    while i < events.len()
        invariant
            i <= events.len(),
            record_views(pools@) == start + minter_records(*block, events@.take(i as int)),
        decreases events.len() - i,
    {
        let k = &events[i];
        proof {
            assert(events@.take((i + 1) as int).drop_last() =~= events@.take(i as int));
            assert(events@.take((i + 1) as int).last() == *k);
        }
        if k.emitter_known {
            let e = &k.event;
            match &e.minter {
                Some(minter) => {
                    let r = new_record(to_hex(minter.as_slice()), &e.log, &e.transaction, block);
                    push_record(pools, r);
                },
                None => {},
            }
        }
        proof {
            assert(start + minter_records(*block, events@.take((i + 1) as int)) =~= record_views(
                pools@,
            ));
        }
        i = i + 1;
    }
    proof {
        assert(events@.take(events.len() as int) =~= events@);
    }
}

/// Appends the pools named by `TricryptoPoolDeployed` events of known
/// factories.
pub fn get_pool_from_tri_deploy_crypto_pool_deployed_events(
    block: &BlockHeader,
    events: &Vec<KnownEmitter<AddressEvent>>,
    pools: &mut Vec<Pool>,
)
    ensures
        record_views(final(pools)@) == record_views(old(pools)@) + known_address_records(
            *block,
            events@,
        ),
{
    push_known_address_records(block, events, pools);
}

/// Appends the pools found in the transactions of `PlainPoolDeployed` events
/// of known factories.
pub fn get_pool_from_plain_pool_deployed_events(
    block: &BlockHeader,
    events: &Vec<KnownEmitter<DeploymentTrace>>,
    pools: &mut Vec<Pool>,
)
    ensures
        record_views(final(pools)@) == record_views(old(pools)@) + deployment_records(
            *block,
            events@,
        ),
{
    push_deployment_records(block, events, pools);
}

/// Appends the pools named by `PlainPoolDeployed` events (the kind that
/// names its pool) of known factories.
pub fn get_pool_from_plain_pool_deployed_with_pool_events(
    block: &BlockHeader,
    events: &Vec<KnownEmitter<AddressEvent>>,
    pools: &mut Vec<Pool>,
)
    ensures
        record_views(final(pools)@) == record_views(old(pools)@) + known_address_records(
            *block,
            events@,
        ),
{
    push_known_address_records(block, events, pools);
}

/// Appends the base pools named by `BasePoolAdded` events of known
/// factories.
pub fn get_pool_from_base_pool_added_events(
    block: &BlockHeader,
    events: &Vec<KnownEmitter<AddressEvent>>,
    pools: &mut Vec<Pool>,
)
    ensures
        record_views(final(pools)@) == record_views(old(pools)@) + known_address_records(
            *block,
            events@,
        ),
{
    push_known_address_records(block, events, pools);
}

/// Appends the base pools named by `BasePoolAdded` events (the kind that
/// also names an implementation) of known factories.
pub fn get_pool_from_base_pool_added_with_implementation_events(
    block: &BlockHeader,
    events: &Vec<KnownEmitter<AddressEvent>>,
    pools: &mut Vec<Pool>,
)
    ensures
        record_views(final(pools)@) == record_views(old(pools)@) + known_address_records(
            *block,
            events@,
        ),
{
    push_known_address_records(block, events, pools);
}

/// Appends the pools found in the transactions of `MetaPoolDeployed` events
/// of known factories.
pub fn get_pool_from_meta_pool_deployed_events(
    block: &BlockHeader,
    events: &Vec<KnownEmitter<DeploymentTrace>>,
    pools: &mut Vec<Pool>,
)
    ensures
        record_views(final(pools)@) == record_views(old(pools)@) + deployment_records(
            *block,
            events@,
        ),
{
    push_deployment_records(block, events, pools);
}

/// Appends the pools named by `PoolAdded` events of known factories.
pub fn get_pool_pool_addded_events(
    block: &BlockHeader,
    events: &Vec<KnownEmitter<AddressEvent>>,
    pools: &mut Vec<Pool>,
)
    ensures
        record_views(final(pools)@) == record_views(old(pools)@) + known_address_records(
            *block,
            events@,
        ),
{
    push_known_address_records(block, events, pools);
}

/// The deployment events of one block, kind by kind, each in block order.
pub struct DeploymentEvents {
    pub crypto_pool_deployed: Vec<KnownEmitter<MinterAnswer>>,
    pub tricrypto_pool_deployed: Vec<KnownEmitter<AddressEvent>>,
    pub plain_pool_deployed: Vec<KnownEmitter<DeploymentTrace>>,
    pub plain_pool_deployed_with_pool: Vec<KnownEmitter<AddressEvent>>,
    pub base_pool_added: Vec<KnownEmitter<AddressEvent>>,
    pub base_pool_added_with_implementation: Vec<KnownEmitter<AddressEvent>>,
    pub meta_pool_deployed: Vec<KnownEmitter<DeploymentTrace>>,
    pub pool_added: Vec<KnownEmitter<AddressEvent>>,
}

/// The records of all the pools a block's deployment events create, kind by
/// kind in the order of the fields of `DeploymentEvents`.
pub open spec fn deployed_pool_records(block: BlockHeader, ev: DeploymentEvents) -> Seq<
    EventRecordView,
> {
    minter_records(block, ev.crypto_pool_deployed@) + known_address_records(
        block,
        ev.tricrypto_pool_deployed@,
    ) + deployment_records(block, ev.plain_pool_deployed@) + known_address_records(
        block,
        ev.plain_pool_deployed_with_pool@,
    ) + known_address_records(block, ev.base_pool_added@) + known_address_records(
        block,
        ev.base_pool_added_with_implementation@,
    ) + deployment_records(block, ev.meta_pool_deployed@) + known_address_records(
        block,
        ev.pool_added@,
    )
}

/// The pools created in a block by the factories the pipeline knows: those
/// of crypto-pool, tricrypto-pool, plain-pool (both kinds), base-pool (both
/// kinds), meta-pool and pool-added events, in that order.
pub fn map_pool_created(block: &BlockHeader, events: &DeploymentEvents) -> (r: Pools)
    ensures
        record_views(r.pools@) == deployed_pool_records(*block, *events),
{
    let mut pools: Vec<Pool> = Vec::new();
    proof {
        assert(record_views(pools@) =~= Seq::<EventRecordView>::empty());
    }
    get_pool_from_deploy_crypto_pool_deployed_events(
        block,
        &events.crypto_pool_deployed,
        &mut pools,
    );
    get_pool_from_tri_deploy_crypto_pool_deployed_events(
        block,
        &events.tricrypto_pool_deployed,
        &mut pools,
    );
    get_pool_from_plain_pool_deployed_events(block, &events.plain_pool_deployed, &mut pools);
    get_pool_from_plain_pool_deployed_with_pool_events(
        block,
        &events.plain_pool_deployed_with_pool,
        &mut pools,
    );
    get_pool_from_base_pool_added_events(block, &events.base_pool_added, &mut pools);
    get_pool_from_base_pool_added_with_implementation_events(
        block,
        &events.base_pool_added_with_implementation,
        &mut pools,
    );
    get_pool_from_meta_pool_deployed_events(block, &events.meta_pool_deployed, &mut pools);
    get_pool_pool_addded_events(block, &events.pool_added, &mut pools);
    proof {
        assert(record_views(pools@) =~= deployed_pool_records(*block, *events));
    }
    Pools { pools }
}

} // verus!
