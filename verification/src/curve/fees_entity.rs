//! `Fees` entities: one per distinct known pool called in a block, with its
//! fees and the changes of its admin balances.
use vstd::prelude::*;
use crate::bigint::{int_to_decimal, nat_to_decimal, u64_to_decimal};
use crate::entity::{
    EntityChange, EntityChangeView, EntityChanges, FieldValue, Operation, ValueView, change_views,
};
use crate::eth::{BlockHeader, RpcResponse, bytes_eq};
use crate::text::{push_char, spec_hex, to_hex};
use super::admin_balances::{Delta, admin_balance_changes, get_admin_balances, last_change};
use super::store_key::{StoreKey, spec_unique_key};
use super::pool_fees::decimal_texts;
use super::records::{fee_answer, fee_value, first_word_fee, fits_u64};

verus! {

/// The callee of a call of a block, and whether it is a pool with stored
/// admin balances (the answer of the balance store for its `Pool` key).
pub struct KnownCall {
    pub address: Vec<u8>,
    pub pool_known: bool,
}

/// The distinct callees that are known pools, in order of first call.
pub open spec fn distinct_known(calls: Seq<KnownCall>) -> Seq<Seq<u8>>
    decreases calls.len(),
{
    if calls.len() == 0 {
        Seq::empty()
    } else {
        let p = distinct_known(calls.drop_last());
        let c = calls.last();
        if c.pool_known && !p.contains(c.address@) {
            p.push(c.address@)
        } else {
            p
        }
    }
}

/// Law: the pools of `distinct_known` are exactly the known callees, each
/// once.
pub proof fn lemma_distinct_known(calls: Seq<KnownCall>)
    ensures
        forall|i: int, j: int|
            0 <= i < j < distinct_known(calls).len() ==> distinct_known(calls)[i] != distinct_known(
                calls,
            )[j],
        forall|a: Seq<u8>|
            distinct_known(calls).contains(a) <==> exists|k: int|
                0 <= k < calls.len() && #[trigger] calls[k].pool_known && calls[k].address@ == a,
    decreases calls.len(),
{
    if calls.len() > 0 {
        let prev = calls.drop_last();
        lemma_distinct_known(prev);
        let p = distinct_known(prev);
        let c = calls.last();
        assert forall|a: Seq<u8>|
            distinct_known(calls).contains(a) <==> exists|k: int|
                0 <= k < calls.len() && #[trigger] calls[k].pool_known && calls[k].address@ == a by {
            if distinct_known(calls).contains(a) {
                if p.contains(a) {
                    let k = choose|k: int|
                        0 <= k < prev.len() && #[trigger] prev[k].pool_known && prev[k].address@ == a;
                    assert(calls[k] == prev[k]);
                } else {
                    let n = calls.len() - 1;
                    assert(calls[n].pool_known && calls[n].address@ == a);
                }
            }
            if exists|k: int|
                0 <= k < calls.len() && #[trigger] calls[k].pool_known && calls[k].address@ == a {
                let k = choose|k: int|
                    0 <= k < calls.len() && #[trigger] calls[k].pool_known && calls[k].address@ == a;
                if k < calls.len() - 1 {
                    assert(prev[k] == calls[k]);
                    assert(p.contains(a));
                    if c.pool_known && !p.contains(c.address@) {
                        let i = choose|i: int| 0 <= i < p.len() && p[i] == a;
                        assert(p.push(c.address@)[i] == a);
                    }
                } else {
                    if !p.contains(a) {
                        assert(p.push(c.address@)[p.len() as int] == a);
                    }
                }
            }
        }
    }
}

/// The distinct callees that are known pools, in order of first call.
pub fn unique_pools(calls: &Vec<KnownCall>) -> (r: Vec<Vec<u8>>)
    ensures
        r@.map_values(|p: Vec<u8>| p@) == distinct_known(calls@),
{
    let mut r: Vec<Vec<u8>> = Vec::new();
    let mut i: usize = 0;
    proof {
        assert(r@.map_values(|p: Vec<u8>| p@) =~= distinct_known(calls@.take(0)));
    }
    while i < calls.len()
        invariant
            i <= calls.len(),
            r@.map_values(|p: Vec<u8>| p@) == distinct_known(calls@.take(i as int)),
        decreases calls.len() - i,
    {
        let c = &calls[i];
        let ghost seen = r@.map_values(|p: Vec<u8>| p@);
        proof {
            assert(calls@.take((i + 1) as int).drop_last() =~= calls@.take(i as int));
            assert(calls@.take((i + 1) as int).last() == *c);
        }
        if c.pool_known {
            let mut found = false;
            let mut j: usize = 0;
            while j < r.len()
                invariant
                    j <= r.len(),
                    seen == r@.map_values(|p: Vec<u8>| p@),
                    found == exists|k: int| 0 <= k < j && seen[k] == c.address@,
                decreases r.len() - j,
            {
                if bytes_eq(r[j].as_slice(), c.address.as_slice()) {
                    found = true;
                }
                proof {
                    assert(seen[j as int] == r@[j as int]@);
                }
                j = j + 1;
            }
            if !found {
                r.push(c.address.clone());
                proof {
                    assert(!seen.contains(c.address@));
                    assert(r@.map_values(|p: Vec<u8>| p@) =~= seen.push(c.address@));
                }
            } else {
                proof {
                    let k = choose|k: int| 0 <= k < r.len() && seen[k] == c.address@;
                    assert(seen.contains(c.address@));
                }
            }
        }
        i = i + 1;
    }
    proof {
        assert(calls@.take(calls.len() as int) =~= calls@);
    }
    r
}

/// A fee answer as a 64-bit number, zero where there is none.
pub open spec fn fee_or_zero(resp: RpcResponse) -> u64 {
    match fee_answer(resp) {
        Some(v) => v,
        None => 0,
    }
}

/// The row id of a pool's fees in a block: its address text, `-`, the
/// block's number.
pub open spec fn fees_id(pool: Seq<u8>, block: BlockHeader) -> Seq<char> {
    spec_hex(pool) + seq!['-'] + nat_to_decimal(block.number as nat)
}

/// Law: the `Fees` changes of one block are for distinct rows: the pools of
/// `distinct_known` have pairwise distinct ids.
pub proof fn lemma_fees_ids_distinct(calls: Seq<KnownCall>, block: BlockHeader)
    ensures
        forall|i: int, j: int|
            0 <= i < j < distinct_known(calls).len() ==> fees_id(
                #[trigger] distinct_known(calls)[i],
                block,
            ) != fees_id(#[trigger] distinct_known(calls)[j], block),
{
    lemma_distinct_known(calls);
    let d = distinct_known(calls);
    let tail = seq!['-'] + nat_to_decimal(block.number as nat);
    assert forall|i: int, j: int| 0 <= i < j < d.len() implies fees_id(#[trigger] d[i], block)
        != fees_id(#[trigger] d[j], block) by {
        let x = fees_id(d[i], block);
        let y = fees_id(d[j], block);
        assert(x =~= spec_hex(d[i]) + tail);
        assert(y =~= spec_hex(d[j]) + tail);
        if x == y {
            assert(spec_hex(d[i]) =~= x.subrange(0, x.len() - tail.len()));
            assert(spec_hex(d[j]) =~= y.subrange(0, y.len() - tail.len()));
            crate::text::lemma_hex_injective(d[i], d[j]);
        }
    }
}

/// The `Fees` change of a pool: update of row `fees_id` at ordinal 0, with
/// fields `id`, `pool`, `fee`, `adminFee`, `adminBalances`, `blockNumber`
/// and `timestamp`.
pub open spec fn fees_change(
    block: BlockHeader,
    pool: Seq<u8>,
    answers: Seq<RpcResponse>,
    deltas: Seq<Delta>,
) -> EntityChangeView {
    let id = fees_id(pool, block);
    EntityChangeView {
        entity: "Fees"@,
        id,
        ordinal: 0,
        operation: Operation::Update,
        fields: seq![
            ("id"@, ValueView::String(id)),
            ("pool"@, ValueView::String(spec_hex(pool))),
            ("fee"@, ValueView::BigInt(nat_to_decimal(fee_or_zero(answers[0]) as nat))),
            ("adminFee"@, ValueView::BigInt(nat_to_decimal(fee_or_zero(answers[1]) as nat))),
            (
                "adminBalances"@,
                ValueView::BigIntArray(
                    admin_balance_changes(deltas, spec_hex(pool)).map_values(
                        |x: int| int_to_decimal(x),
                    ),
                ),
            ),
            ("blockNumber"@, ValueView::BigInt(nat_to_decimal(block.number as nat))),
            (
                "timestamp"@,
                ValueView::BigInt(nat_to_decimal((block.timestamp.seconds as u64) as nat)),
            ),
        ],
    }
}

/// A fee answer's first word as a 64-bit fee, zero where there is none.
pub open spec fn first_word_fee_or_zero(resp: RpcResponse) -> u64 {
    match first_word_fee(resp) {
        Some(v) => v,
        None => 0,
    }
}

/// Law: the `Fees` change of a pool updates, at ordinal 0, the row whose id is
/// the pool's text, `-`, the block's number; its fields are, in order, that
/// id, the pool's text, the two fee answers (zero where a query failed), the
/// decimal texts of the changes of the four admin balances, the block's
/// number and the block's timestamp in seconds.
pub proof fn lemma_fees_change_fields(
    block: BlockHeader,
    pool: Seq<u8>,
    answers: Seq<RpcResponse>,
    deltas: Seq<Delta>,
)
    ensures
        ({
            let c = fees_change(block, pool, answers, deltas);
            let id = spec_hex(pool) + seq!['-'] + nat_to_decimal(block.number as nat);
            &&& c.entity == "Fees"@
            &&& c.id == id
            &&& c.ordinal == 0
            &&& c.operation == Operation::Update
            &&& c.fields.len() == 7
            &&& c.fields[0] == ("id"@, ValueView::String(id))
            &&& c.fields[1] == ("pool"@, ValueView::String(spec_hex(pool)))
            &&& c.fields[2] == (
                "fee"@,
                ValueView::BigInt(nat_to_decimal(first_word_fee_or_zero(answers[0]) as nat)),
            )
            &&& c.fields[3] == (
                "adminFee"@,
                ValueView::BigInt(nat_to_decimal(first_word_fee_or_zero(answers[1]) as nat)),
            )
            &&& c.fields[4] == ("adminBalances"@, ValueView::BigIntArray(seq![
                int_to_decimal(last_change(deltas, spec_unique_key(StoreKey::AdminBalanceToken0, spec_hex(pool)))),
                int_to_decimal(last_change(deltas, spec_unique_key(StoreKey::AdminBalanceToken1, spec_hex(pool)))),
                int_to_decimal(last_change(deltas, spec_unique_key(StoreKey::AdminBalanceToken2, spec_hex(pool)))),
                int_to_decimal(last_change(deltas, spec_unique_key(StoreKey::AdminBalanceToken3, spec_hex(pool)))),
            ]))
            &&& c.fields[5] == ("blockNumber"@, ValueView::BigInt(nat_to_decimal(block.number as nat)))
            &&& c.fields[6] == (
                "timestamp"@,
                ValueView::BigInt(nat_to_decimal((block.timestamp.seconds as u64) as nat)),
            )
        }),
{
    let c = fees_change(block, pool, answers, deltas);
    let b = admin_balance_changes(deltas, spec_hex(pool)).map_values(|x: int| int_to_decimal(x));
    assert(b =~= seq![
                int_to_decimal(last_change(deltas, spec_unique_key(StoreKey::AdminBalanceToken0, spec_hex(pool)))),
                int_to_decimal(last_change(deltas, spec_unique_key(StoreKey::AdminBalanceToken1, spec_hex(pool)))),
                int_to_decimal(last_change(deltas, spec_unique_key(StoreKey::AdminBalanceToken2, spec_hex(pool)))),
                int_to_decimal(last_change(deltas, spec_unique_key(StoreKey::AdminBalanceToken3, spec_hex(pool)))),
    ]);
}

/// Both fee answers are there and fit in 64 bits.
pub open spec fn answers_ready(answers: Seq<RpcResponse>) -> bool {
    answers.len() >= 2 && fits_u64(answers[0]) && fits_u64(answers[1])
}

/// The `Fees` change of one pool, from the answers to its `fee()` and
/// `admin_fee()` queries and the block's balance deltas.
pub fn fees_entity_change(
    block: &BlockHeader,
    pool: &Vec<u8>,
    answers: &Vec<RpcResponse>,
    deltas: &Vec<Delta>,
) -> (r: EntityChange)
    requires
        answers_ready(answers@),
    ensures
        r@ == fees_change(*block, pool@, answers@, deltas@),
{
    let address = to_hex(pool.as_slice());
    let mut id = to_hex(pool.as_slice());
    push_char(&mut id, '-');
    let number = u64_to_decimal(block.number);
    id.append(number.as_str());
    let mut change = EntityChange::new("Fees", id.as_str(), 0, Operation::Update);
    let fee = match fee_value(&answers[0]) {
        Some(v) => v,
        None => 0,
    };
    let admin_fee = match fee_value(&answers[1]) {
        Some(v) => v,
        None => 0,
    };
    let balances = get_admin_balances(deltas, address.as_str());
    let ghost spec_change = fees_change(*block, pool@, answers@, deltas@);
    assert(id@ == fees_id(pool@, *block));
    assert(change@.fields =~= Seq::empty());
    change.change("id", FieldValue::String(id));
    assert(change@.fields =~= spec_change.fields.take(1));
    change.change("pool", FieldValue::String(address));
    change.change("fee", FieldValue::BigInt(u64_to_decimal(fee)));
    change.change("adminFee", FieldValue::BigInt(u64_to_decimal(admin_fee)));
    assert(change@.fields =~= spec_change.fields.take(4));
    let texts_b = decimal_texts(&balances);
    assert(crate::entity::texts(texts_b@) =~= admin_balance_changes(deltas@, spec_hex(pool@)).map_values(|x: int| int_to_decimal(x)));
    change.change("adminBalances", FieldValue::BigIntArray(texts_b));
    assert(change@.fields =~= spec_change.fields.take(5));
    change.change("blockNumber", FieldValue::BigInt(u64_to_decimal(block.number)));
    change.change("timestamp", FieldValue::BigInt(u64_to_decimal(block.timestamp_seconds())));
    proof {
        assert(change@.fields =~= fees_change(*block, pool@, answers@, deltas@).fields);
    }
    change
}

/// The `Fees` changes of a block: one per distinct callee that is a known
/// pool, in order of first call, the `k`-th built from `answers[k]`, the
/// answers to that pool's fee queries.
pub fn map_fees_entity(
    block: &BlockHeader,
    calls: &Vec<KnownCall>,
    answers: &Vec<Vec<RpcResponse>>,
    deltas: &Vec<Delta>,
) -> (r: EntityChanges)
    requires
        answers@.len() == distinct_known(calls@).len(),
        forall|k: int| 0 <= k < answers@.len() ==> answers_ready(#[trigger] answers@[k]@),
    ensures
        change_views(r.entity_changes@) == Seq::new(
            distinct_known(calls@).len(),
            |k: int| fees_change(*block, distinct_known(calls@)[k], answers@[k]@, deltas@),
        ),
{
    let pools = unique_pools(calls);
    let ghost want = Seq::new(
        distinct_known(calls@).len(),
        |k: int| fees_change(*block, distinct_known(calls@)[k], answers@[k]@, deltas@),
    );
    let mut changes: Vec<EntityChange> = Vec::new();
    let mut k: usize = 0;
    proof {
        assert(pools@.len() == distinct_known(calls@).len());
    }
    while k < pools.len()
        invariant
            k <= pools.len(),
            pools@.len() == answers@.len(),
            pools@.map_values(|p: Vec<u8>| p@) == distinct_known(calls@),
            forall|j: int| 0 <= j < answers@.len() ==> answers_ready(#[trigger] answers@[j]@),
            want == Seq::new(
                distinct_known(calls@).len(),
                |j: int| fees_change(*block, distinct_known(calls@)[j], answers@[j]@, deltas@),
            ),
            change_views(changes@) == want.take(k as int),
        decreases pools.len() - k,
    {
        let c = fees_entity_change(block, &pools[k], &answers[k], deltas);
        let ghost before = changes@;
        changes.push(c);
        proof {
            assert(pools@.map_values(|p: Vec<u8>| p@)[k as int] == pools@[k as int]@);
            assert(change_views(changes@) =~= change_views(before).push(c@));
            assert(want.take((k + 1) as int) =~= want.take(k as int).push(want[k as int]));
        }
        k = k + 1;
    }
    proof {
        assert(want.take(pools.len() as int) =~= want);
    }
    EntityChanges { entity_changes: changes }
}

} // verus!
