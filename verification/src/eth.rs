//! Plain values of the Ethereum data the pipelines read: block header values,
//! transactions, logs, calls and contract-call answers; the ABI decoding of
//! single words, and the ERC-20 `Transfer` event.
use vstd::prelude::*;
use crate::bigint::{BigInteger, be_bytes_value};

verus! {

/// A point in time: seconds and nanoseconds since the Unix epoch.
#[derive(Clone, Copy, Debug, PartialEq, Eq, Structural)]
pub struct Timestamp {
    pub seconds: i64,
    pub nanos: i32,
}

/// The header values of a block that the pipelines copy into records.
#[derive(Clone, Copy)]
pub struct BlockHeader {
    pub number: u64,
    pub timestamp: Timestamp,
}

impl BlockHeader {
    /// The header timestamp's seconds, reinterpreted as unsigned.
    pub fn timestamp_seconds(&self) -> (r: u64)
        ensures
            r == self.timestamp.seconds as u64,
    {
        self.timestamp.seconds as u64
    }
}

/// The values of a transaction that records carry.
pub struct Transaction {
    pub index: u32,
    pub hash: Vec<u8>,
    pub from: Vec<u8>,
    pub to: Vec<u8>,
}

/// An event log: emitter, topics, data and its positions.
pub struct Log {
    pub address: Vec<u8>,
    pub topics: Vec<Vec<u8>>,
    pub data: Vec<u8>,
    /// Position in the transaction receipt.
    pub index: u32,
    /// Position in the block.
    pub block_index: u32,
    pub ordinal: u64,
}

/// A call of a transaction trace: callee, whether its state changes were
/// reverted, its end ordinal and the logs it emitted.
pub struct Call {
    pub address: Vec<u8>,
    pub state_reverted: bool,
    pub end_ordinal: u64,
    pub logs: Vec<Log>,
}

/// The answer to one read-only contract call.
pub struct RpcResponse {
    pub raw: Vec<u8>,
    pub failed: bool,
}

/// Decodes one ABI `address` word with `ethabi::decode`: the word must hold
/// at least 32 bytes, and the address is the 20 bytes at offsets 12 to 32.
#[verifier::external_body]
pub(crate) fn abi_decode_address(word: &[u8]) -> (r: Option<Vec<u8>>)
    ensures
        r is Some <==> word@.len() >= 32,
        r matches Some(a) ==> a@ == word@.subrange(12, 32),
{
    match ethabi::decode(&[ethabi::ParamType::Address], word) {
        Ok(mut tokens) => tokens.pop().and_then(|t| t.into_address()).map(|a| a.as_bytes().to_vec()),
        Err(_) => None,
    }
}

/// Decodes one ABI `uint256` word with `ethabi::decode` and writes it back as
/// 32 big-endian bytes: the data must hold at least 32 bytes, and the word is
/// its first 32 bytes.
#[verifier::external_body]
pub(crate) fn abi_decode_uint256(data: &[u8]) -> (r: Option<Vec<u8>>)
    ensures
        r is Some <==> data@.len() >= 32,
        r matches Some(w) ==> w@ == data@.subrange(0, 32),
{
    match ethabi::decode(&[ethabi::ParamType::Uint(256)], data) {
        Ok(mut tokens) => tokens.pop().and_then(|t| t.into_uint()).map(|u| {
            let mut word = [0u8; 32];
            u.to_big_endian(&mut word);
            word.to_vec()
        }),
        Err(_) => None,
    }
}

/// Whether two byte strings are equal.
pub fn bytes_eq(a: &[u8], b: &[u8]) -> (r: bool)
    ensures
        r == (a@ == b@),
{
    if a.len() != b.len() {
        return false;
    }
    let mut i: usize = 0;
    while i < a.len()
        invariant
            i <= a.len(),
            a.len() == b.len(),
            forall|j: int| 0 <= j < i ==> a@[j] == b@[j],
        decreases a.len() - i,
    {
        if a[i] != b[i] {
            return false;
        }
        i = i + 1;
    }
    proof {
        assert(a@ =~= b@);
    }
    true
}

/// The bytes of `data` from position `start` on.
pub fn bytes_from(data: &[u8], start: usize) -> (r: Vec<u8>)
    requires
        start <= data@.len(),
    ensures
        r@ == data@.skip(start as int),
{
    let mut r: Vec<u8> = Vec::new();
    let mut i: usize = start;
    while i < data.len()
        invariant
            start <= i <= data.len(),
            r@ =~= data@.subrange(start as int, i as int),
        decreases data.len() - i,
    {
        r.push(data[i]);
        i = i + 1;
    }
    r
}

/// The decoded answer of a contract call whose single output is a `uint256`:
/// nothing when the call failed or its answer does not decode.
pub fn decode_uint_response(resp: &RpcResponse) -> (r: Option<BigInteger>)
    ensures
        r is Some <==> (!resp.failed && resp.raw@.len() >= 32),
        r matches Some(v) ==> v@ == be_bytes_value(resp.raw@.subrange(0, 32)) as int,
{
    if resp.failed {
        return None;
    }
    match abi_decode_uint256(resp.raw.as_slice()) {
        Some(word) => Some(BigInteger::from_unsigned_bytes_be(word.as_slice())),
        None => None,
    }
}

/// The all-zero address.
/// The address a contract answered to a call returning `address` (such as
/// `minter()`): absent when the call failed or the answer is shorter than
/// one word, else the last 20 bytes of the first word.
pub fn decode_address_response(resp: &RpcResponse) -> (r: Option<Vec<u8>>)
    ensures
        r is Some <==> (!resp.failed && resp.raw@.len() >= 32),
        r matches Some(a) ==> a@ == resp.raw@.subrange(12, 32),
{
    if resp.failed {
        return None;
    }
    abi_decode_address(resp.raw.as_slice())
}

/// The twenty zero bytes of the null address.
pub open spec fn null_address() -> Seq<u8> {
    Seq::new(20, |i: int| 0u8)
}

/// The first topic of an ERC-20 `Transfer(address,address,uint256)` log.
pub open spec fn transfer_topic() -> Seq<u8> {
    seq![
        221u8, 242u8, 82u8, 173u8, 27u8, 226u8, 200u8, 155u8, 105u8, 194u8, 176u8, 104u8,
        252u8, 55u8, 141u8, 170u8, 149u8, 43u8, 167u8, 241u8, 99u8, 196u8, 161u8, 22u8,
        40u8, 245u8, 90u8, 77u8, 245u8, 35u8, 179u8, 239u8,
    ]
}

fn transfer_topic_bytes() -> (r: Vec<u8>)
    ensures
        r@ == transfer_topic(),
{
    let v: Vec<u8> = vec![
        221u8, 242u8, 82u8, 173u8, 27u8, 226u8, 200u8, 155u8, 105u8, 194u8, 176u8, 104u8,
        252u8, 55u8, 141u8, 170u8, 149u8, 43u8, 167u8, 241u8, 99u8, 196u8, 161u8, 22u8,
        40u8, 245u8, 90u8, 77u8, 245u8, 35u8, 179u8, 239u8,
    ];
    proof {
        assert(v@ =~= transfer_topic());
    }
    v
}

/// An ERC-20 transfer.
pub struct Transfer {
    pub from: Vec<u8>,
    pub to: Vec<u8>,
    pub quantity: BigInteger,
}

/// The log has the shape of a `Transfer`: three topics, the first the event's
/// topic, and one data word.
pub open spec fn transfer_matches(log: Log) -> bool {
    &&& log.topics@.len() == 3
    &&& log.data@.len() == 32
    &&& log.topics@[0]@ == transfer_topic()
}

/// The log is a `Transfer` whose indexed addresses decode.
pub open spec fn transfer_decodes(log: Log) -> bool {
    &&& transfer_matches(log)
    &&& log.topics@[1]@.len() >= 32
    &&& log.topics@[2]@.len() >= 32
}

/// The sender of a decodable `Transfer` log.
pub open spec fn transfer_from(log: Log) -> Seq<u8> {
    log.topics@[1]@.subrange(12, 32)
}

/// The receiver of a decodable `Transfer` log.
pub open spec fn transfer_to(log: Log) -> Seq<u8> {
    log.topics@[2]@.subrange(12, 32)
}

impl Transfer {
    /// Whether the log has the shape of a `Transfer`.
    pub fn match_log(log: &Log) -> (r: bool)
        ensures
            r == transfer_matches(*log),
    {
        if log.topics.len() != 3 {
            return false;
        }
        if log.data.len() != 32 {
            return false;
        }
        let topic = transfer_topic_bytes();
        bytes_eq(log.topics[0].as_slice(), topic.as_slice())
    }

    /// The transfer a log records, when it is one and decodes.
    pub fn match_and_decode(log: &Log) -> (r: Option<Transfer>)
        ensures
            r is Some <==> transfer_decodes(*log),
            r matches Some(t) ==> {
                &&& t.from@ == transfer_from(*log)
                &&& t.to@ == transfer_to(*log)
                &&& t.quantity@ == be_bytes_value(log.data@) as int
            },
    {
        if !Self::match_log(log) {
            return None;
        }
        let word = abi_decode_uint256(log.data.as_slice());
        let quantity = match word {
            Some(w) => BigInteger::from_unsigned_bytes_be(w.as_slice()),
            None => {
                return None;
            },
        };
        proof {
            assert(log.data@.subrange(0, 32) =~= log.data@);
        }
        let from = match abi_decode_address(log.topics[1].as_slice()) {
            Some(a) => a,
            None => {
                return None;
            },
        };
        let to = match abi_decode_address(log.topics[2].as_slice()) {
            Some(a) => a,
            None => {
                return None;
            },
        };
        Some(Transfer { from, to, quantity })
    }
}

} // verus!
