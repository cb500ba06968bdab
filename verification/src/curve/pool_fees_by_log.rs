//! Fees of the Curve pools that emitted logs in a block, one record per log.
use vstd::prelude::*;
use crate::eth::{BlockHeader, Log, RpcResponse, Transaction};
use crate::text::{spec_hex, to_hex};
use super::records::{
    PoolFee, PoolFeeView, PoolFees, fee_answer, fee_value, fee_views, first_word_fee, fits_u64,
    push_fee,
};

verus! {

/// A log of a block, whether its emitter is a known pool (the answer of the
/// pools store for the emitter's address text), and, for a known pool, the
/// answers to its `fee()` and `admin_fee()` queries.
pub struct FeeLog {
    pub log: Log,
    pub transaction: Transaction,
    pub pool_known: bool,
    pub fee_responses: Vec<RpcResponse>,
}

/// Both fee answers are there and fit in 64 bits.
pub open spec fn log_answers_ready(l: FeeLog) -> bool {
    &&& l.fee_responses@.len() >= 2
    &&& fits_u64(l.fee_responses@[0])
    &&& fits_u64(l.fee_responses@[1])
}

/// The fee record of the pool that emitted a log.
pub open spec fn log_fee_record(block: BlockHeader, l: FeeLog) -> PoolFeeView {
    PoolFeeView {
        address: spec_hex(l.log.address@),
        fee: fee_answer(l.fee_responses@[0]),
        admin_fee: fee_answer(l.fee_responses@[1]),
        admin_balances: Seq::empty(),
        log_index: l.log.index as i64,
        block_number: block.number as i64,
        block_timestmap: Some(block.timestamp),
        transaction_index: l.transaction.index as i64,
        transaction_hash: spec_hex(l.transaction.hash@),
    }
}

/// The fee records of the logs of known pools, in order.
pub open spec fn log_fee_records(block: BlockHeader, logs: Seq<FeeLog>) -> Seq<PoolFeeView>
    decreases logs.len(),
{
    if logs.len() == 0 {
        Seq::empty()
    } else {
        log_fee_records(block, logs.drop_last()) + if logs.last().pool_known {
            seq![log_fee_record(block, logs.last())]
        } else {
            Seq::empty()
        }
    }
}

/// `f` is the fee record of the log `l`: the text of its emitter, its own log
/// index, the block's number and timestamp, the index and hash text of its
/// transaction, the pool's two fee answers, and no balance changes.
pub open spec fn fee_record_of_log(f: PoolFeeView, block: BlockHeader, l: FeeLog) -> bool {
    &&& f.address == spec_hex(l.log.address@)
    &&& f.log_index == l.log.index as i64
    &&& f.block_number == block.number as i64
    &&& f.block_timestmap == Some(block.timestamp)
    &&& f.transaction_index == l.transaction.index as i64
    &&& f.transaction_hash == spec_hex(l.transaction.hash@)
    &&& f.fee == first_word_fee(l.fee_responses@[0])
    &&& f.admin_fee == first_word_fee(l.fee_responses@[1])
    &&& f.admin_balances.len() == 0
}

/// Some log of a known pool in `logs` has `f` as its fee record.
pub open spec fn fee_record_of_some_log(f: PoolFeeView, block: BlockHeader, logs: Seq<FeeLog>) -> bool {
    exists|i: int| 0 <= i < logs.len() && (#[trigger] logs[i]).pool_known && fee_record_of_log(f, block, logs[i])
}

/// Law: every fee record is made for one log of a known pool, and carries
/// that log's emitter and index, the index and hash of its transaction, the
/// block's number and timestamp, and the pool's fee answers.
pub proof fn lemma_log_fee_records_describe_their_logs(block: BlockHeader, logs: Seq<FeeLog>)
    ensures
        forall|k: int|
            0 <= k < log_fee_records(block, logs).len() ==> fee_record_of_some_log(
                #[trigger] log_fee_records(block, logs)[k],
                block,
                logs,
            ),
    decreases logs.len(),
{
    if logs.len() > 0 {
        let prev = logs.drop_last();
        lemma_log_fee_records_describe_their_logs(block, prev);
        let n = logs.len() - 1;
        let all = log_fee_records(block, logs);
        let p = log_fee_records(block, prev);
        assert forall|k: int| 0 <= k < all.len() implies fee_record_of_some_log(
            #[trigger] all[k],
            block,
            logs,
        ) by {
            if k < p.len() {
                assert(all[k] == p[k]);
                assert(fee_record_of_some_log(p[k], block, prev));
                let i = choose|i: int|
                    0 <= i < prev.len() && (#[trigger] prev[i]).pool_known && fee_record_of_log(
                        p[k],
                        block,
                        prev[i],
                    );
                assert(logs[i] == prev[i]);
            } else {
                assert(logs[n] == logs.last());
                assert(fee_record_of_log(all[k], block, logs[n]));
            }
        }
    }
}

/// One fee record for every log of a known pool, in log order: the pool's
/// address text, the answers to its fee queries, the log's index, the
/// block's number and timestamp, and the transaction's index and hash.
pub fn map_pool_fees(block: &BlockHeader, logs: &Vec<FeeLog>) -> (r: PoolFees)
    requires
        forall|i: int| 0 <= i < logs@.len() && #[trigger] logs@[i].pool_known ==> log_answers_ready(
            logs@[i],
        ),
    ensures
        fee_views(r.fees@) == log_fee_records(*block, logs@),
{
    let mut fees: Vec<PoolFee> = Vec::new();
    let mut i: usize = 0;
    proof {
        assert(fee_views(fees@) =~= log_fee_records(*block, logs@.take(0)));
    }
    while i < logs.len()
        invariant
            i <= logs.len(),
            forall|j: int| 0 <= j < logs@.len() && #[trigger] logs@[j].pool_known ==> log_answers_ready(
                logs@[j],
            ),
            fee_views(fees@) == log_fee_records(*block, logs@.take(i as int)),
        decreases logs.len() - i,
    {
        let l = &logs[i];
        proof {
            assert(logs@.take((i + 1) as int).drop_last() =~= logs@.take(i as int));
            assert(logs@.take((i + 1) as int).last() == *l);
        }
        if l.pool_known {
            proof {
                assert(logs@[i as int].pool_known);
            }
            let f = PoolFee {
                address: to_hex(l.log.address.as_slice()),
                fee: fee_value(&l.fee_responses[0]),
                admin_fee: fee_value(&l.fee_responses[1]),
                admin_balances: Vec::new(),
                log_index: l.log.index as i64,
                block_number: block.number as i64,
                block_timestmap: Some(block.timestamp),
                transaction_index: l.transaction.index as i64,
                transaction_hash: to_hex(l.transaction.hash.as_slice()),
            };
            proof {
                assert(crate::entity::texts(f.admin_balances@) =~= Seq::<Seq<char>>::empty());
            }
            push_fee(&mut fees, f);
        }
        proof {
            assert(fee_views(fees@) =~= log_fee_records(*block, logs@.take((i + 1) as int)));
        }
        i = i + 1;
    }
    proof {
        assert(logs@.take(logs.len() as int) =~= logs@);
    }
    PoolFees { fees }
}

} // verus!
