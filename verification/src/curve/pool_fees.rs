//! Fees of the Curve pools whose admin balances moved in a block, one record
//! per call into such a pool.
use vstd::prelude::*;
use crate::bigint::{BigInteger, int_to_decimal};
use crate::entity::texts;
use crate::eth::{BlockHeader, RpcResponse, Transaction};
use crate::text::{spec_hex, to_hex};
use super::admin_balances::{Delta, admin_balance_changes, get_admin_balances, ints, last_change};
use super::records::{
    PoolFee, PoolFeeView, PoolFees, fee_answer, fee_value, fee_views, first_word_fee, fits_u64,
    push_fee,
};
use super::store_key::{StoreKey, spec_unique_key};

verus! {

/// A call of a block: its callee, end ordinal and transaction, whether the
/// callee is a pool with stored admin balances (the answer of the balance
/// store for the callee's `Pool` key), and, when its fees are wanted, the
/// answers to its `fee()` and `admin_fee()` queries.
pub struct FeeCall {
    pub address: Vec<u8>,
    pub end_ordinal: u64,
    pub transaction: Transaction,
    pub pool_known: bool,
    pub fee_responses: Vec<RpcResponse>,
}

/// The key under which the balance store marks the pool `address`.
pub fn pool_store_key(address: &[u8]) -> (r: String)
    ensures
        r@ == spec_unique_key(StoreKey::Pool, spec_hex(address@)),
{
    let text = to_hex(address);
    StoreKey::Pool.get_unique_key(text.as_str())
}

/// Some balance went down, or none moved.
pub open spec fn balances_unchanged(b: Seq<int>) -> bool {
    (exists|i: int| 0 <= i < b.len() && #[trigger] b[i] < 0) || (forall|i: int|
        0 <= i < b.len() ==> #[trigger] b[i] == 0)
}

/// The admin-balance changes of a call's pool.
pub open spec fn call_balances(c: FeeCall, deltas: Seq<Delta>) -> Seq<int> {
    admin_balance_changes(deltas, spec_hex(c.address@))
}

/// The call goes to a known pool whose admin balances grew and none shrank.
pub open spec fn fee_wanted(c: FeeCall, deltas: Seq<Delta>) -> bool {
    c.pool_known && !balances_unchanged(call_balances(c, deltas))
}

/// Both fee answers are there and fit in 64 bits.
pub open spec fn call_answers_ready(c: FeeCall) -> bool {
    &&& c.fee_responses@.len() >= 2
    &&& fits_u64(c.fee_responses@[0])
    &&& fits_u64(c.fee_responses@[1])
}

/// The fee record of a call's pool.
pub open spec fn call_fee_record(block: BlockHeader, c: FeeCall, deltas: Seq<Delta>) -> PoolFeeView {
    PoolFeeView {
        address: spec_hex(c.address@),
        fee: fee_answer(c.fee_responses@[0]),
        admin_fee: fee_answer(c.fee_responses@[1]),
        admin_balances: call_balances(c, deltas).map_values(|x: int| int_to_decimal(x)),
        log_index: 0,
        block_number: block.number as i64,
        block_timestmap: Some(block.timestamp),
        transaction_index: c.transaction.index as i64,
        transaction_hash: spec_hex(c.transaction.hash@),
    }
}

/// The fee records of the calls whose fees are wanted, in order.
pub open spec fn call_fee_records(block: BlockHeader, calls: Seq<FeeCall>, deltas: Seq<Delta>) -> Seq<
    PoolFeeView,
>
    decreases calls.len(),
{
    if calls.len() == 0 {
        Seq::empty()
    } else {
        call_fee_records(block, calls.drop_last(), deltas) + if fee_wanted(calls.last(), deltas) {
            seq![call_fee_record(block, calls.last(), deltas)]
        } else {
            Seq::empty()
        }
    }
}

/// The call goes to a known pool none of whose admin balances shrank and at
/// least one of which grew.
pub open spec fn balances_grew(c: FeeCall, deltas: Seq<Delta>) -> bool {
    &&& c.pool_known
    &&& forall|t: int| 0 <= t < 4 ==> #[trigger] call_balances(c, deltas)[t] >= 0
    &&& exists|t: int| 0 <= t < 4 && #[trigger] call_balances(c, deltas)[t] > 0
}

/// Law: every fee record `map_pool_fees` emits is the record of one of the
/// calls, a call into a known pool whose admin balances grew with none
/// shrinking; and every such call has its record.
pub proof fn lemma_fee_records_show_growth(block: BlockHeader, calls: Seq<FeeCall>, deltas: Seq<Delta>)
    ensures
        forall|k: int|
            #![trigger call_fee_records(block, calls, deltas)[k]]
            0 <= k < call_fee_records(block, calls, deltas).len() ==> exists|i: int|
                0 <= i < calls.len() && balances_grew(#[trigger] calls[i], deltas)
                    && call_fee_records(block, calls, deltas)[k] == call_fee_record(
                    block,
                    calls[i],
                    deltas,
                ),
        forall|i: int|
            0 <= i < calls.len() && balances_grew(#[trigger] calls[i], deltas)
                ==> call_fee_records(block, calls, deltas).contains(
                call_fee_record(block, calls[i], deltas),
            ),
    decreases calls.len(),
{
    if calls.len() > 0 {
        let prev = calls.drop_last();
        lemma_fee_records_show_growth(block, prev, deltas);
        let c = calls.last();
        let n = calls.len() - 1;
        let p = call_fee_records(block, prev, deltas);
        let all = call_fee_records(block, calls, deltas);
        assert(calls[n] == c);
        let b = call_balances(c, deltas);
        assert(b.len() == 4);
        assert(fee_wanted(c, deltas) <==> balances_grew(c, deltas)) by {
            if fee_wanted(c, deltas) {
                assert(!(exists|t: int| 0 <= t < b.len() && #[trigger] b[t] < 0));
                assert(!(forall|t: int| 0 <= t < b.len() ==> #[trigger] b[t] == 0));
                let t = choose|t: int| !(0 <= t < b.len() ==> #[trigger] b[t] == 0);
                assert(b[t] > 0);
            }
            if balances_grew(c, deltas) {
                let t = choose|t: int| 0 <= t < 4 && #[trigger] b[t] > 0;
                assert(!(forall|u: int| 0 <= u < b.len() ==> #[trigger] b[u] == 0));
                assert(!(exists|u: int| 0 <= u < b.len() && #[trigger] b[u] < 0));
            }
        }
        assert forall|k: int| #![trigger all[k]] 0 <= k < all.len() implies exists|i: int|
            0 <= i < calls.len() && balances_grew(#[trigger] calls[i], deltas) && all[k]
                == call_fee_record(block, calls[i], deltas) by {
            if k < p.len() {
                assert(all[k] == p[k]);
                let i = choose|i: int|
                    0 <= i < prev.len() && balances_grew(#[trigger] prev[i], deltas) && p[k]
                        == call_fee_record(block, prev[i], deltas);
                assert(calls[i] == prev[i]);
            } else {
                assert(all[k] == call_fee_record(block, calls[n], deltas));
            }
        }
        assert forall|i: int|
            0 <= i < calls.len() && balances_grew(#[trigger] calls[i], deltas) implies all.contains(
            call_fee_record(block, calls[i], deltas),
        ) by {
            if i < n {
                assert(calls[i] == prev[i]);
                assert(p.contains(call_fee_record(block, prev[i], deltas)));
                let k = choose|k: int| 0 <= k < p.len() && p[k] == call_fee_record(block, prev[i], deltas);
                assert(all[k] == p[k]);
            } else {
                assert(all[p.len() as int] == call_fee_record(block, c, deltas));
            }
        }
    }
}

/// `f` is the fee record of the call `c`: the text of its callee, log index
/// 0, the block's number and timestamp, the index and hash text of the call's
/// transaction, the pool's two fee answers, and for each token the decimal
/// text of the change of its admin balance.
pub open spec fn fee_record_of_call(f: PoolFeeView, block: BlockHeader, c: FeeCall, deltas: Seq<Delta>) -> bool {
    &&& f.address == spec_hex(c.address@)
    &&& f.log_index == 0
    &&& f.block_number == block.number as i64
    &&& f.block_timestmap == Some(block.timestamp)
    &&& f.transaction_index == c.transaction.index as i64
    &&& f.transaction_hash == spec_hex(c.transaction.hash@)
    &&& f.fee == first_word_fee(c.fee_responses@[0])
    &&& f.admin_fee == first_word_fee(c.fee_responses@[1])
    &&& f.admin_balances.len() == 4
    &&& f.admin_balances[0] == int_to_decimal(
        last_change(deltas, spec_unique_key(StoreKey::AdminBalanceToken0, spec_hex(c.address@))),
    )
    &&& f.admin_balances[1] == int_to_decimal(
        last_change(deltas, spec_unique_key(StoreKey::AdminBalanceToken1, spec_hex(c.address@))),
    )
    &&& f.admin_balances[2] == int_to_decimal(
        last_change(deltas, spec_unique_key(StoreKey::AdminBalanceToken2, spec_hex(c.address@))),
    )
    &&& f.admin_balances[3] == int_to_decimal(
        last_change(deltas, spec_unique_key(StoreKey::AdminBalanceToken3, spec_hex(c.address@))),
    )
}

/// Some call of `calls` into a known pool whose admin balances grew has `f`
/// as its fee record.
pub open spec fn fee_record_of_some_call(
    f: PoolFeeView,
    block: BlockHeader,
    calls: Seq<FeeCall>,
    deltas: Seq<Delta>,
) -> bool {
    exists|i: int|
        0 <= i < calls.len() && balances_grew(#[trigger] calls[i], deltas) && fee_record_of_call(
            f,
            block,
            calls[i],
            deltas,
        )
}

/// Law: every fee record of `map_pool_fees` is made for one call into a known
/// pool whose admin balances grew: it carries that call's pool, the index and
/// hash of that call's own transaction, the block's number and timestamp,
/// the pool's fee answers and its balance changes.
pub proof fn lemma_fee_records_describe_their_calls(
    block: BlockHeader,
    calls: Seq<FeeCall>,
    deltas: Seq<Delta>,
)
    ensures
        forall|k: int|
            0 <= k < call_fee_records(block, calls, deltas).len() ==> fee_record_of_some_call(
                #[trigger] call_fee_records(block, calls, deltas)[k],
                block,
                calls,
                deltas,
            ),
{
    lemma_fee_records_show_growth(block, calls, deltas);
    let all = call_fee_records(block, calls, deltas);
    assert forall|k: int| 0 <= k < all.len() implies fee_record_of_some_call(
        #[trigger] all[k],
        block,
        calls,
        deltas,
    ) by {
        let i = choose|i: int|
            0 <= i < calls.len() && balances_grew(#[trigger] calls[i], deltas) && all[k]
                == call_fee_record(block, calls[i], deltas);
        let c = calls[i];
        assert(fee_record_of_call(all[k], block, c, deltas));
    }
}

/// Whether a list of balance changes has a negative one, or only zeros.
fn unchanged(b: &Vec<BigInteger>) -> (r: bool)
    ensures
        r == balances_unchanged(ints(b@)),
{
    let mut any_negative = false;
    let mut all_zero = true;
    let mut i: usize = 0;
    while i < b.len()
        invariant
            i <= b.len(),
            any_negative == exists|j: int| 0 <= j < i && #[trigger] ints(b@)[j] < 0,
            all_zero == forall|j: int| 0 <= j < i ==> #[trigger] ints(b@)[j] == 0,
        decreases b.len() - i,
    {
        if b[i].is_negative() {
            any_negative = true;
        }
        if !b[i].is_zero() {
            all_zero = false;
        }
        proof {
            assert(ints(b@)[i as int] == b@[i as int]@);
        }
        i = i + 1;
    }
    any_negative || all_zero
}

/// The decimal texts of a list of integers.
pub fn decimal_texts(b: &Vec<BigInteger>) -> (r: Vec<String>)
    ensures
        texts(r@) == ints(b@).map_values(|x: int| int_to_decimal(x)),
{
    let mut r: Vec<String> = Vec::new();
    let mut i: usize = 0;
    while i < b.len()
        invariant
            i <= b.len(),
            texts(r@) == ints(b@).take(i as int).map_values(|x: int| int_to_decimal(x)),
        decreases b.len() - i,
    {
        let t = b[i].to_decimal_string();
        let ghost before = r@;
        r.push(t);
        proof {
            assert(texts(r@) =~= texts(before).push(t@));
            assert(ints(b@).take((i + 1) as int).map_values(|x: int| int_to_decimal(x))
                =~= ints(b@).take(i as int).map_values(|x: int| int_to_decimal(x)).push(t@));
        }
        i = i + 1;
    }
    proof {
        assert(ints(b@).take(b.len() as int) =~= ints(b@));
    }
    r
}

/// Whether the fees of `c`'s pool are wanted: the pool is known and its
/// admin balances moved, none of them downwards.
fn fee_is_wanted(c: &FeeCall, deltas: &Vec<Delta>) -> (r: bool)
    ensures
        r == fee_wanted(*c, deltas@),
{
    if !c.pool_known {
        return false;
    }
    let text = to_hex(c.address.as_slice());
    let balances = get_admin_balances(deltas, text.as_str());
    !unchanged(&balances)
}

/// For each call, whether its pool's fees are wanted (and so must be queried
/// before `map_pool_fees`).
pub fn fee_requests(calls: &Vec<FeeCall>, deltas: &Vec<Delta>) -> (r: Vec<bool>)
    ensures
        r@.len() == calls@.len(),
        forall|i: int| 0 <= i < calls@.len() ==> r@[i] == fee_wanted(#[trigger] calls@[i], deltas@),
{
    let mut r: Vec<bool> = Vec::new();
    let mut i: usize = 0;
    while i < calls.len()
        invariant
            i <= calls.len(),
            r@.len() == i,
            forall|j: int| 0 <= j < i ==> r@[j] == fee_wanted(#[trigger] calls@[j], deltas@),
        decreases calls.len() - i,
    {
        let w = fee_is_wanted(&calls[i], deltas);
        r.push(w);
        i = i + 1;
    }
    r
}

/// One fee record for every call into a known pool whose admin balances
/// grew in the block with none shrinking, in call order: the pool's address
/// text, the answers to its fee queries, its four balance changes as decimal
/// text, log index 0, the block's number and timestamp, and the
/// transaction's index and hash.
pub fn map_pool_fees(block: &BlockHeader, calls: &Vec<FeeCall>, deltas: &Vec<Delta>) -> (r: PoolFees)
    requires
        forall|i: int|
            0 <= i < calls@.len() && fee_wanted(#[trigger] calls@[i], deltas@) ==> call_answers_ready(
                calls@[i],
            ),
    ensures
        fee_views(r.fees@) == call_fee_records(*block, calls@, deltas@),
{
    let mut fees: Vec<PoolFee> = Vec::new();
    let mut i: usize = 0;
    proof {
        assert(fee_views(fees@) =~= call_fee_records(*block, calls@.take(0), deltas@));
    }
    while i < calls.len()
        invariant
            i <= calls.len(),
            forall|j: int|
                0 <= j < calls@.len() && fee_wanted(#[trigger] calls@[j], deltas@)
                    ==> call_answers_ready(calls@[j]),
            fee_views(fees@) == call_fee_records(*block, calls@.take(i as int), deltas@),
        decreases calls.len() - i,
    {
        let c = &calls[i];
        proof {
            assert(calls@.take((i + 1) as int).drop_last() =~= calls@.take(i as int));
            assert(calls@.take((i + 1) as int).last() == *c);
        }
        if c.pool_known {
            let text = to_hex(c.address.as_slice());
            let balances = get_admin_balances(deltas, text.as_str());
            if !unchanged(&balances) {
                proof {
                    assert(fee_wanted(calls@[i as int], deltas@));
                }
                let f = PoolFee {
                    address: to_hex(c.address.as_slice()),
                    fee: fee_value(&c.fee_responses[0]),
                    admin_fee: fee_value(&c.fee_responses[1]),
                    admin_balances: decimal_texts(&balances),
                    log_index: 0,
                    block_number: block.number as i64,
                    block_timestmap: Some(block.timestamp),
                    transaction_index: c.transaction.index as i64,
                    transaction_hash: to_hex(c.transaction.hash.as_slice()),
                };
                push_fee(&mut fees, f);
            }
        }
        proof {
            assert(fee_views(fees@) =~= call_fee_records(
                *block,
                calls@.take((i + 1) as int),
                deltas@,
            ));
        }
        i = i + 1;
    }
    proof {
        assert(calls@.take(calls.len() as int) =~= calls@);
    }
    PoolFees { fees }
}

} // verus!
