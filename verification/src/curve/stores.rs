//! What the Curve pipeline writes to its stores: markers for factories and
//! pools, and the admin balances of known pools.
use vstd::prelude::*;
use crate::bigint::{BigInteger, be_bytes_value};
use crate::eth::{RpcResponse, decode_uint_response};
use crate::text::{spec_hex, to_hex};
use super::records::{EventRecord, Factory, Pools, uint_answer};
use super::factory_added::Factories;
use super::store_key::{StoreKey, spec_unique_key};
use crate::store::{StoreWrite, int_writes, text_writes};

verus! {

/// The marker value of factories and pools.
pub open spec fn added() -> Seq<char> {
    seq!['A', 'd', 'd', 'e', 'd']
}

fn added_text() -> (r: String)
    ensures
        r@ == added(),
{
    proof {
        reveal_strlit("Added");
    }
    String::from_str("Added")
}

/// The marker writes, at ordinal 0, of the records' addresses, in order.
pub open spec fn marker_writes(records: Seq<EventRecord>) -> Seq<(u64, Seq<char>, Seq<char>)> {
    records.map_values(|r: EventRecord| (0u64, r.address@, added()))
}

/// Law: the marker writes are one per record, in order, each at ordinal 0,
/// keyed by the record's address text, with the value `Added`.
pub proof fn lemma_marker_writes(records: Seq<EventRecord>)
    ensures
        marker_writes(records).len() == records.len(),
        forall|k: int|
            0 <= k < records.len() ==> #[trigger] marker_writes(records)[k] == (
                0u64,
                records[k].address@,
                seq!['A', 'd', 'd', 'e', 'd'],
            ),
{
}

fn push_text_write(out: &mut Vec<StoreWrite<String>>, ordinal: u64, key: String, value: String)
    ensures
        text_writes(final(out)@) == text_writes(old(out)@).push((ordinal, key@, value@)),
{
    let ghost before = out@;
    let ghost k = key@;
    let ghost v = value@;
    out.push(StoreWrite { ordinal, key, value });
    proof {
        assert(text_writes(out@) =~= text_writes(before).push((ordinal, k, v)));
    }
}

fn push_markers(records: &Vec<EventRecord>, out: &mut Vec<StoreWrite<String>>)
    ensures
        text_writes(final(out)@) == text_writes(old(out)@) + marker_writes(records@),
{
    let ghost start = text_writes(out@);
    let mut i: usize = 0;
    while i < records.len()
        invariant
            i <= records.len(),
            text_writes(out@) == start + marker_writes(records@.take(i as int)),
        decreases records.len() - i,
    {
        let key = records[i].address.clone();
        push_text_write(out, 0, key, added_text());
        proof {
            assert(marker_writes(records@.take((i + 1) as int)) =~= marker_writes(
                records@.take(i as int),
            ).push((0u64, records@[i as int].address@, added())));
        }
        i = i + 1;
    }
    proof {
        assert(records@.take(records.len() as int) =~= records@);
    }
}

/// The writes that mark each factory's address as added (each to be made
/// only where the key is not yet set), at ordinal 0, in order.
pub fn store_factories(factories_added: &Factories) -> (r: Vec<StoreWrite<String>>)
    ensures
        text_writes(r@) == marker_writes(factories_added.factories@),
{
    let mut r: Vec<StoreWrite<String>> = Vec::new();
    proof {
        assert(text_writes(r@) =~= Seq::empty());
    }
    push_markers(&factories_added.factories, &mut r);
    proof {
        assert(text_writes(r@) =~= marker_writes(factories_added.factories@));
    }
    r
}

/// The writes that mark each created pool's address as added, then each of
/// the pools deployed before the factories (each to be made only where the
/// key is not yet set), all at ordinal 0, in order.
pub fn store_pools(pools_created: &Pools, deployed_before_factories: &Vec<String>) -> (r: Vec<
    StoreWrite<String>,
>)
    ensures
        text_writes(r@) == marker_writes(pools_created.pools@) + crate::entity::texts(
            deployed_before_factories@,
        ).map_values(|a: Seq<char>| (0u64, a, added())),
{
    let mut r: Vec<StoreWrite<String>> = Vec::new();
    proof {
        assert(text_writes(r@) =~= Seq::empty());
    }
    push_markers(&pools_created.pools, &mut r);
    let ghost start = text_writes(r@);
    let mut i: usize = 0;
    while i < deployed_before_factories.len()
        invariant
            i <= deployed_before_factories.len(),
            text_writes(r@) == start + crate::entity::texts(deployed_before_factories@).take(
                i as int,
            ).map_values(|a: Seq<char>| (0u64, a, added())),
        decreases deployed_before_factories.len() - i,
    {
        let key = deployed_before_factories[i].clone();
        push_text_write(&mut r, 0, key, added_text());
        proof {
            assert(crate::entity::texts(deployed_before_factories@).take((i + 1) as int).map_values(
                |a: Seq<char>| (0u64, a, added()),
            ) =~= crate::entity::texts(deployed_before_factories@).take(i as int).map_values(
                |a: Seq<char>| (0u64, a, added()),
            ).push((0u64, deployed_before_factories@[i as int]@, added())));
        }
        i = i + 1;
    }
    proof {
        assert(crate::entity::texts(deployed_before_factories@).take(
            deployed_before_factories.len() as int,
        ) =~= crate::entity::texts(deployed_before_factories@));
    }
    r
}

/// A call of a block: its callee, end ordinal, whether the callee is a known
/// pool (the answer of the pools store for the callee's address text), and,
/// for a known pool, the answers to its `admin_balances(0..=3)` queries.
pub struct BalanceCall {
    pub address: Vec<u8>,
    pub end_ordinal: u64,
    pub pool_known: bool,
    pub balance_responses: Vec<RpcResponse>,
}

/// The balance a contract answered, or zero.
pub open spec fn balance_or_zero(resp: RpcResponse) -> int {
    match uint_answer(resp) {
        Some(v) => v as int,
        None => 0,
    }
}

/// The five writes for a call into a known pool, at the call's end ordinal:
/// the pool's marker (1) and its four admin balances.
pub open spec fn call_balance_writes(c: BalanceCall) -> Seq<(u64, Seq<char>, int)> {
    let a = spec_hex(c.address@);
    let o = c.end_ordinal;
    seq![
        (o, spec_unique_key(StoreKey::Pool, a), 1),
        (o, spec_unique_key(StoreKey::AdminBalanceToken0, a), balance_or_zero(c.balance_responses@[0])),
        (o, spec_unique_key(StoreKey::AdminBalanceToken1, a), balance_or_zero(c.balance_responses@[1])),
        (o, spec_unique_key(StoreKey::AdminBalanceToken2, a), balance_or_zero(c.balance_responses@[2])),
        (o, spec_unique_key(StoreKey::AdminBalanceToken3, a), balance_or_zero(c.balance_responses@[3])),
    ]
}

/// The kind of the `k`-th of a call's five writes.
pub open spec fn balance_write_kind(k: int) -> StoreKey {
    if k == 0 {
        StoreKey::Pool
    } else if k == 1 {
        StoreKey::AdminBalanceToken0
    } else if k == 2 {
        StoreKey::AdminBalanceToken1
    } else if k == 3 {
        StoreKey::AdminBalanceToken2
    } else {
        StoreKey::AdminBalanceToken3
    }
}

/// Law: two of the balance writes of calls share a key only when the calls
/// go to the same pool and the writes are the same one of the five: a pool's
/// marker and balances never land under another pool's key, nor one token's
/// balance under another token's key.
pub proof fn lemma_balance_write_keys(c1: BalanceCall, i: int, c2: BalanceCall, j: int)
    requires
        0 <= i < 5,
        0 <= j < 5,
        call_balance_writes(c1)[i].1 == call_balance_writes(c2)[j].1,
    ensures
        c1.address@ == c2.address@,
        i == j,
{
    assert(call_balance_writes(c1)[i].1 == spec_unique_key(
        balance_write_kind(i),
        spec_hex(c1.address@),
    ));
    assert(call_balance_writes(c2)[j].1 == spec_unique_key(
        balance_write_kind(j),
        spec_hex(c2.address@),
    ));
    super::store_key::lemma_unique_key_injective(
        balance_write_kind(i),
        spec_hex(c1.address@),
        balance_write_kind(j),
        spec_hex(c2.address@),
    );
    crate::text::lemma_hex_injective(c1.address@, c2.address@);
}

/// The writes for the calls into known pools, in order.
pub open spec fn balance_writes(calls: Seq<BalanceCall>) -> Seq<(u64, Seq<char>, int)>
    decreases calls.len(),
{
    if calls.len() == 0 {
        Seq::empty()
    } else {
        balance_writes(calls.drop_last()) + if calls.last().pool_known {
            call_balance_writes(calls.last())
        } else {
            Seq::empty()
        }
    }
}

/// Law: a call into a pool that is not known adds no write; a call into a
/// known pool adds, after the writes of the calls before it, exactly five
/// writes at its end ordinal: its `Pool` marker set to 1, then for each token
/// `t` its `ABTt` key set to the whole uint256 the pool answered to
/// `admin_balances(t)` (however large), or to zero when that query failed or
/// its answer is shorter than one word.
pub proof fn lemma_balance_writes_hold_whole_answers(calls: Seq<BalanceCall>, c: BalanceCall)
    ensures
        !c.pool_known ==> balance_writes(calls.push(c)) == balance_writes(calls),
        c.pool_known ==> {
            let w = balance_writes(calls.push(c));
            let n = balance_writes(calls).len() as int;
            let a = spec_hex(c.address@);
            &&& w.len() == n + 5
            &&& w.subrange(0, n) == balance_writes(calls)
            &&& w[n] == (c.end_ordinal, spec_unique_key(StoreKey::Pool, a), 1int)
            &&& w[n + 1] == (
                c.end_ordinal,
                spec_unique_key(StoreKey::AdminBalanceToken0, a),
                if !c.balance_responses@[0].failed && c.balance_responses@[0].raw@.len() >= 32 {
                    be_bytes_value(c.balance_responses@[0].raw@.subrange(0, 32)) as int
                } else {
                    0
                },
            )
            &&& w[n + 2] == (
                c.end_ordinal,
                spec_unique_key(StoreKey::AdminBalanceToken1, a),
                if !c.balance_responses@[1].failed && c.balance_responses@[1].raw@.len() >= 32 {
                    be_bytes_value(c.balance_responses@[1].raw@.subrange(0, 32)) as int
                } else {
                    0
                },
            )
            &&& w[n + 3] == (
                c.end_ordinal,
                spec_unique_key(StoreKey::AdminBalanceToken2, a),
                if !c.balance_responses@[2].failed && c.balance_responses@[2].raw@.len() >= 32 {
                    be_bytes_value(c.balance_responses@[2].raw@.subrange(0, 32)) as int
                } else {
                    0
                },
            )
            &&& w[n + 4] == (
                c.end_ordinal,
                spec_unique_key(StoreKey::AdminBalanceToken3, a),
                if !c.balance_responses@[3].failed && c.balance_responses@[3].raw@.len() >= 32 {
                    be_bytes_value(c.balance_responses@[3].raw@.subrange(0, 32)) as int
                } else {
                    0
                },
            )
        },
{
    let s = calls.push(c);
    assert(s.drop_last() =~= calls);
    assert(s.last() == c);
    if c.pool_known {
        let w = balance_writes(s);
        let n = balance_writes(calls).len() as int;
        assert(w == balance_writes(calls) + call_balance_writes(c));
        assert(w.subrange(0, n) =~= balance_writes(calls));
    } else {
        assert(balance_writes(s) =~= balance_writes(calls));
    }
}

fn push_int_write(out: &mut Vec<StoreWrite<BigInteger>>, ordinal: u64, key: String, value: BigInteger)
    ensures
        int_writes(final(out)@) == int_writes(old(out)@).push((ordinal, key@, value@)),
{
    let ghost before = out@;
    let ghost k = key@;
    let ghost v = value@;
    out.push(StoreWrite { ordinal, key, value });
    proof {
        assert(int_writes(out@) =~= int_writes(before).push((ordinal, k, v)));
    }
}

fn balance_value(resp: &RpcResponse) -> (r: BigInteger)
    ensures
        r@ == balance_or_zero(*resp),
{
    match decode_uint_response(resp) {
        Some(v) => v,
        None => BigInteger::zero(),
    }
}

/// For every call into a known pool, in call order and at the call's end
/// ordinal: the pool's `Pool` key set to 1, and its `ABT0`..`ABT3` keys set
/// to the answers of `admin_balances(0)`..`admin_balances(3)` (zero where a
/// query failed or did not decode).
pub fn store_pool_admin_balances(calls: &Vec<BalanceCall>) -> (r: Vec<StoreWrite<BigInteger>>)
    requires
        forall|i: int|
            0 <= i < calls@.len() && #[trigger] calls@[i].pool_known ==> calls@[i].balance_responses@.len()
                >= 4,
    ensures
        int_writes(r@) == balance_writes(calls@),
{
    let mut r: Vec<StoreWrite<BigInteger>> = Vec::new();
    let mut i: usize = 0;
    proof {
        assert(int_writes(r@) =~= balance_writes(calls@.take(0)));
    }
    while i < calls.len()
        invariant
            i <= calls.len(),
            forall|j: int|
                0 <= j < calls@.len() && #[trigger] calls@[j].pool_known
                    ==> calls@[j].balance_responses@.len() >= 4,
            int_writes(r@) == balance_writes(calls@.take(i as int)),
        decreases calls.len() - i,
    {
        let c = &calls[i];
        proof {
            assert(calls@.take((i + 1) as int).drop_last() =~= calls@.take(i as int));
            assert(calls@.take((i + 1) as int).last() == *c);
        }
        if c.pool_known {
            proof {
                assert(calls@[i as int].pool_known);
            }
            let text = to_hex(c.address.as_slice());
            let t = text.as_str();
            push_int_write(&mut r, c.end_ordinal, StoreKey::Pool.get_unique_key(t), BigInteger::one());
            push_int_write(
                &mut r,
                c.end_ordinal,
                StoreKey::AdminBalanceToken0.get_unique_key(t),
                balance_value(&c.balance_responses[0]),
            );
            push_int_write(
                &mut r,
                c.end_ordinal,
                StoreKey::AdminBalanceToken1.get_unique_key(t),
                balance_value(&c.balance_responses[1]),
            );
            push_int_write(
                &mut r,
                c.end_ordinal,
                StoreKey::AdminBalanceToken2.get_unique_key(t),
                balance_value(&c.balance_responses[2]),
            );
            push_int_write(
                &mut r,
                c.end_ordinal,
                StoreKey::AdminBalanceToken3.get_unique_key(t),
                balance_value(&c.balance_responses[3]),
            );
        }
        proof {
            assert(int_writes(r@) =~= balance_writes(calls@.take((i + 1) as int)));
        }
        i = i + 1;
    }
    proof {
        assert(calls@.take(calls.len() as int) =~= calls@);
    }
    r
}

} // verus!
