//! Records the Curve pipeline emits for factories, pools and pool fees, and
//! the decoded events it builds them from.
use vstd::prelude::*;
use crate::eth::{BlockHeader, Log, Timestamp, Transaction, Call, RpcResponse, decode_uint_response};
use crate::bigint::be_bytes_value;
use crate::text::{spec_hex, to_hex};

verus! {

/// Where and when an address was announced: a factory or a pool.
pub struct EventRecord {
    pub address: String,
    pub log_index: i64,
    pub block_number: i64,
    pub block_timestmap: Option<Timestamp>,
    pub transaction_index: i64,
    pub transaction_hash: String,
}

/// A factory announcement.
pub type Factory = EventRecord;

/// A pool announcement.
pub type Pool = EventRecord;

/// All pool records of a block.
pub struct Pools {
    pub pools: Vec<Pool>,
}

/// The values of an `EventRecord`.
pub struct EventRecordView {
    pub address: Seq<char>,
    pub log_index: i64,
    pub block_number: i64,
    pub block_timestmap: Option<Timestamp>,
    pub transaction_index: i64,
    pub transaction_hash: Seq<char>,
}

impl View for EventRecord {
    type V = EventRecordView;

    open spec fn view(&self) -> EventRecordView {
        EventRecordView {
            address: self.address@,
            log_index: self.log_index,
            block_number: self.block_number,
            block_timestmap: self.block_timestmap,
            transaction_index: self.transaction_index,
            transaction_hash: self.transaction_hash@,
        }
    }
}

/// The record of `address`, announced by `log` of `tx` in `block`.
pub open spec fn event_record(
    address: Seq<char>,
    log: Log,
    tx: Transaction,
    block: BlockHeader,
) -> EventRecordView {
    EventRecordView {
        address,
        log_index: log.index as i64,
        block_number: block.number as i64,
        block_timestmap: Some(block.timestamp),
        transaction_index: tx.index as i64,
        transaction_hash: spec_hex(tx.hash@),
    }
}

/// The record `r` announces `address`: it holds that address, the index of
/// the log `log` that announced it, the number and timestamp of `block`, and
/// the index and hash text of the transaction `tx` that carried the log.
pub open spec fn announces(
    r: EventRecordView,
    address: Seq<char>,
    log: Log,
    tx: Transaction,
    block: BlockHeader,
) -> bool {
    &&& r.address == address
    &&& r.log_index == log.index as i64
    &&& r.block_number == block.number as i64
    &&& r.block_timestmap == Some(block.timestamp)
    &&& r.transaction_index == tx.index as i64
    &&& r.transaction_hash == spec_hex(tx.hash@)
}

/// The first 32-byte word of a contract's answer read as a big-endian
/// number and taken as a 64-bit fee; nothing when the call failed or the
/// answer is shorter than one word.
pub open spec fn first_word_fee(resp: RpcResponse) -> Option<u64> {
    if resp.failed || resp.raw@.len() < 32 {
        None
    } else {
        Some(be_bytes_value(resp.raw@.subrange(0, 32)) as u64)
    }
}

/// The views of a sequence of records.
pub open spec fn record_views(s: Seq<EventRecord>) -> Seq<EventRecordView> {
    s.map_values(|r: EventRecord| r@)
}

/// The record of `address` announced by `log` of `tx` in `block`.
pub fn new_record(address: String, log: &Log, tx: &Transaction, block: &BlockHeader) -> (r:
    EventRecord)
    ensures
        r@ == event_record(address@, *log, *tx, *block),
{
    EventRecord {
        address,
        log_index: log.index as i64,
        block_number: block.number as i64,
        block_timestmap: Some(block.timestamp),
        transaction_index: tx.index as i64,
        transaction_hash: to_hex(tx.hash.as_slice()),
    }
}

/// Appends one record; the views grow by its view.
pub fn push_record(out: &mut Vec<EventRecord>, r: EventRecord)
    ensures
        record_views(final(out)@) == record_views(old(out)@).push(r@),
{
    let ghost before = out@;
    out.push(r);
    proof {
        assert(record_views(out@) =~= record_views(before).push(r@));
    }
}

/// A decoded event that names an address (a factory, a pool or a base pool),
/// with the log and transaction that carried it.
pub struct AddressEvent {
    pub address: Vec<u8>,
    pub log: Log,
    pub transaction: Transaction,
}

/// An event, with whether its emitter is a factory the pipeline knows (the
/// answer of the factories store for the emitter's address text).
pub struct KnownEmitter<E> {
    pub event: E,
    pub emitter_known: bool,
}

/// A crypto-pool deployment: the answer of the LP token's `minter()` call,
/// when it gave one, with the log and transaction of the deployment.
pub struct MinterAnswer {
    pub minter: Option<Vec<u8>>,
    pub log: Log,
    pub transaction: Transaction,
}

/// A plain- or meta-pool deployment: its log, its transaction and the calls
/// of that transaction, in which the pool is searched for.
pub struct DeploymentTrace {
    pub log: Log,
    pub transaction: Transaction,
    pub calls: Vec<Call>,
}

/// The fees of a pool at some point of a block, with the changes of its
/// admin balances (as decimal text) where they were looked at.
pub struct PoolFee {
    pub address: String,
    pub fee: Option<u64>,
    pub admin_fee: Option<u64>,
    pub admin_balances: Vec<String>,
    pub log_index: i64,
    pub block_number: i64,
    pub block_timestmap: Option<Timestamp>,
    pub transaction_index: i64,
    pub transaction_hash: String,
}

/// The values of a `PoolFee`.
pub struct PoolFeeView {
    pub address: Seq<char>,
    pub fee: Option<u64>,
    pub admin_fee: Option<u64>,
    pub admin_balances: Seq<Seq<char>>,
    pub log_index: i64,
    pub block_number: i64,
    pub block_timestmap: Option<Timestamp>,
    pub transaction_index: i64,
    pub transaction_hash: Seq<char>,
}

impl View for PoolFee {
    type V = PoolFeeView;

    open spec fn view(&self) -> PoolFeeView {
        PoolFeeView {
            address: self.address@,
            fee: self.fee,
            admin_fee: self.admin_fee,
            admin_balances: crate::entity::texts(self.admin_balances@),
            log_index: self.log_index,
            block_number: self.block_number,
            block_timestmap: self.block_timestmap,
            transaction_index: self.transaction_index,
            transaction_hash: self.transaction_hash@,
        }
    }
}

/// The views of a sequence of pool fees.
pub open spec fn fee_views(s: Seq<PoolFee>) -> Seq<PoolFeeView> {
    s.map_values(|f: PoolFee| f@)
}

/// All pool-fee records of a block.
pub struct PoolFees {
    pub fees: Vec<PoolFee>,
}

/// Appends one pool fee; the views grow by its view.
pub fn push_fee(out: &mut Vec<PoolFee>, f: PoolFee)
    ensures
        fee_views(final(out)@) == fee_views(old(out)@).push(f@),
{
    let ghost before = out@;
    out.push(f);
    proof {
        assert(fee_views(out@) =~= fee_views(before).push(f@));
    }
}

/// The `uint256` a contract answered, when it answered one.
pub open spec fn uint_answer(resp: RpcResponse) -> Option<nat> {
    if !resp.failed && resp.raw@.len() >= 32 {
        Some(be_bytes_value(resp.raw@.subrange(0, 32)))
    } else {
        None
    }
}

/// The answer, if any, fits in 64 bits.
pub open spec fn fits_u64(resp: RpcResponse) -> bool {
    uint_answer(resp) matches Some(v) ==> v <= u64::MAX
}

/// Whether the answer, if any, fits in 64 bits.
pub fn answer_fits_u64(resp: &RpcResponse) -> (r: bool)
    ensures
        r == fits_u64(*resp),
{
    match decode_uint_response(resp) {
        Some(v) => v.to_u64_checked().is_some(),
        None => true,
    }
}

/// The answer to a fee query, as a 64-bit number.
pub open spec fn fee_answer(resp: RpcResponse) -> Option<u64> {
    match uint_answer(resp) {
        Some(v) => Some(v as u64),
        None => None,
    }
}

/// The fee a contract answered; the answer must fit in 64 bits.
pub fn fee_value(resp: &RpcResponse) -> (r: Option<u64>)
    requires
        fits_u64(*resp),
    ensures
        r == fee_answer(*resp),
{
    match decode_uint_response(resp) {
        Some(v) => Some(v.to_u64()),
        None => None,
    }
}

} // verus!
