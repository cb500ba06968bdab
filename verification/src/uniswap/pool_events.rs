//! Swap events of the Uniswap V2 pools the pipeline knows.
use vstd::prelude::*;
use crate::bigint::{BigInteger, int_to_decimal};
use crate::eth::{BlockHeader, Log, Transaction, abi_decode_address, abi_decode_uint256, bytes_eq, bytes_from};
use crate::bigint::be_bytes_value;
use crate::text::{spec_hex, to_hex};

verus! {

/// An ERC-20 token as the pools store keeps it.
pub struct Erc20Token {
    pub address: String,
    pub name: String,
    pub symbol: String,
    pub decimals: u64,
}

/// The values of an `Erc20Token`.
pub struct TokenView {
    pub address: Seq<char>,
    pub name: Seq<char>,
    pub symbol: Seq<char>,
    pub decimals: u64,
}

impl View for Erc20Token {
    type V = TokenView;

    open spec fn view(&self) -> TokenView {
        TokenView {
            address: self.address@,
            name: self.name@,
            symbol: self.symbol@,
            decimals: self.decimals,
        }
    }
}

impl Erc20Token {
    /// A second token record with the same values.
    pub fn duplicate(&self) -> (r: Self)
        ensures
            r@ == self@,
    {
        Erc20Token {
            address: self.address.clone(),
            name: self.name.clone(),
            symbol: self.symbol.clone(),
            decimals: self.decimals,
        }
    }
}

/// The two tokens of a pool, as the pools store keeps them.
pub struct PoolTokens {
    pub token0: Erc20Token,
    pub token1: Erc20Token,
}

/// The first topic of a pair's `Swap(address,uint256,uint256,uint256,uint256,address)` log.
pub open spec fn swap_topic() -> Seq<u8> {
    seq![
        215u8, 138u8, 217u8, 95u8, 164u8, 108u8, 153u8, 75u8, 101u8, 81u8, 208u8, 218u8, 133u8,
        252u8, 39u8, 95u8, 230u8, 19u8, 206u8, 55u8, 101u8, 127u8, 184u8, 213u8, 227u8, 209u8,
        48u8, 132u8, 1u8, 89u8, 216u8, 34u8,
    ]
}

fn swap_topic_bytes() -> (r: Vec<u8>)
    ensures
        r@ == swap_topic(),
{
    let v: Vec<u8> = vec![
        215u8, 138u8, 217u8, 95u8, 164u8, 108u8, 153u8, 75u8, 101u8, 81u8, 208u8, 218u8, 133u8,
        252u8, 39u8, 95u8, 230u8, 19u8, 206u8, 55u8, 101u8, 127u8, 184u8, 213u8, 227u8, 209u8,
        48u8, 132u8, 1u8, 89u8, 216u8, 34u8,
    ];
    proof {
        assert(v@ =~= swap_topic());
    }
    v
}

/// The log has the shape of a `Swap`: three topics, the first the event's
/// topic, and four data words.
pub open spec fn swap_matches(log: Log) -> bool {
    &&& log.topics@.len() == 3
    &&& log.data@.len() == 128
    &&& log.topics@[0]@ == swap_topic()
}

/// The log is a `Swap` whose indexed addresses decode.
pub open spec fn swap_decodes(log: Log) -> bool {
    &&& swap_matches(log)
    &&& log.topics@[1]@.len() >= 32
    &&& log.topics@[2]@.len() >= 32
}

/// The unsigned value of the `k`-th data word of a log.
pub open spec fn data_word(log: Log, k: int) -> int {
    be_bytes_value(log.data@.subrange(32 * k, 32 * k + 32)) as int
}

/// A `Swap` event of a pair: who swapped, the four amounts, and the
/// receiver.
pub struct Swap {
    pub sender: Vec<u8>,
    pub amount0_in: BigInteger,
    pub amount1_in: BigInteger,
    pub amount0_out: BigInteger,
    pub amount1_out: BigInteger,
    pub to: Vec<u8>,
}

/// The `k`-th data word of a log of four words, as an unsigned integer.
fn decode_data_word(log: &Log, k: usize) -> (r: Option<BigInteger>)
    requires
        log.data@.len() == 128,
        k < 4,
    ensures
        r matches Some(v) && v@ == be_bytes_value(
            log.data@.subrange(32 * k as int, 32 * k as int + 32),
        ) as int,
{
    let rest = bytes_from(log.data.as_slice(), 32 * k);
    match abi_decode_uint256(rest.as_slice()) {
        Some(w) => {
            proof {
                assert(w@ =~= log.data@.subrange(32 * k as int, 32 * k as int + 32));
            }
            Some(BigInteger::from_unsigned_bytes_be(w.as_slice()))
        },
        None => None,
    }
}

impl Swap {
    /// Whether the log has the shape of a `Swap`.
    pub fn match_log(log: &Log) -> (r: bool)
        ensures
            r == swap_matches(*log),
    {
        if log.topics.len() != 3 {
            return false;
        }
        if log.data.len() != 128 {
            return false;
        }
        let topic = swap_topic_bytes();
        bytes_eq(log.topics[0].as_slice(), topic.as_slice())
    }

    /// The swap a log records, when it is one and decodes.
    pub fn match_and_decode(log: &Log) -> (r: Option<Swap>)
        ensures
            r is Some <==> swap_decodes(*log),
            r matches Some(s) ==> {
                &&& s.sender@ == log.topics@[1]@.subrange(12, 32)
                &&& s.to@ == log.topics@[2]@.subrange(12, 32)
                &&& s.amount0_in@ == be_bytes_value(log.data@.subrange(0, 32)) as int
                &&& s.amount1_in@ == be_bytes_value(log.data@.subrange(32, 64)) as int
                &&& s.amount0_out@ == be_bytes_value(log.data@.subrange(64, 96)) as int
                &&& s.amount1_out@ == be_bytes_value(log.data@.subrange(96, 128)) as int
            },
    {
        if !Self::match_log(log) {
            return None;
        }
        let amount0_in = match decode_data_word(log, 0) {
            Some(v) => v,
            None => {
                return None;
            },
        };
        let amount1_in = match decode_data_word(log, 1) {
            Some(v) => v,
            None => {
                return None;
            },
        };
        let amount0_out = match decode_data_word(log, 2) {
            Some(v) => v,
            None => {
                return None;
            },
        };
        let amount1_out = match decode_data_word(log, 3) {
            Some(v) => v,
            None => {
                return None;
            },
        };
        let sender = match abi_decode_address(log.topics[1].as_slice()) {
            Some(a) => a,
            None => {
                return None;
            },
        };
        let to = match abi_decode_address(log.topics[2].as_slice()) {
            Some(a) => a,
            None => {
                return None;
            },
        };
        Some(Swap { sender, amount0_in, amount1_in, amount0_out, amount1_out, to })
    }
}

/// A swap: the token that went in and its net amount, the token that came
/// out and its net amount (amounts as decimal text).
pub struct SwapEvent {
    pub token_in: Option<Erc20Token>,
    pub amount_in: String,
    pub token_out: Option<Erc20Token>,
    pub amount_out: String,
}

/// The values of a `SwapEvent`.
pub struct SwapView {
    pub token_in: Option<TokenView>,
    pub amount_in: Seq<char>,
    pub token_out: Option<TokenView>,
    pub amount_out: Seq<char>,
}

/// The view of an optional token.
pub open spec fn opt_token(t: Option<Erc20Token>) -> Option<TokenView> {
    match t {
        Some(x) => Some(x@),
        None => None,
    }
}

impl View for SwapEvent {
    type V = SwapView;

    open spec fn view(&self) -> SwapView {
        SwapView {
            token_in: opt_token(self.token_in),
            amount_in: self.amount_in@,
            token_out: opt_token(self.token_out),
            amount_out: self.amount_out@,
        }
    }
}

/// The swap an event of a pair records. When token 0 came out, token 1 went
/// in: in `amount1_in - amount1_out`, out `amount0_out - amount0_in`;
/// otherwise token 0 went in: in `amount0_in - amount0_out`, out
/// `amount1_out - amount1_in`.
pub open spec fn swap_of_amounts(
    amount0_in: int,
    amount1_in: int,
    amount0_out: int,
    amount1_out: int,
    pool: PoolTokens,
) -> SwapView {
    if amount0_out > 0 {
        SwapView {
            token_in: Some(pool.token1@),
            amount_in: int_to_decimal(amount1_in - amount1_out),
            token_out: Some(pool.token0@),
            amount_out: int_to_decimal(amount0_out - amount0_in),
        }
    } else {
        SwapView {
            token_in: Some(pool.token0@),
            amount_in: int_to_decimal(amount0_in - amount0_out),
            token_out: Some(pool.token1@),
            amount_out: int_to_decimal(amount1_out - amount1_in),
        }
    }
}

/// The swap recorded by a `Swap` event of the pair whose tokens are `pool`.
pub open spec fn swap_of(a: Swap, pool: PoolTokens) -> SwapView {
    swap_of_amounts(a.amount0_in@, a.amount1_in@, a.amount0_out@, a.amount1_out@, pool)
}

/// The swap recorded by an event of the pair whose tokens are `pool`.
pub fn get_swap_event(event: &Swap, pool: &PoolTokens) -> (r: SwapEvent)
    ensures
        r@ == swap_of(*event, *pool),
{
    if event.amount0_out.is_positive() {
        SwapEvent {
            token_in: Some(pool.token1.duplicate()),
            amount_in: event.amount1_in.sub(&event.amount1_out).to_decimal_string(),
            token_out: Some(pool.token0.duplicate()),
            amount_out: event.amount0_out.sub(&event.amount0_in).to_decimal_string(),
        }
    } else {
        SwapEvent {
            token_in: Some(pool.token0.duplicate()),
            amount_in: event.amount0_in.sub(&event.amount0_out).to_decimal_string(),
            token_out: Some(pool.token1.duplicate()),
            amount_out: event.amount1_out.sub(&event.amount1_in).to_decimal_string(),
        }
    }
}

/// The kind of a pool event; only swaps are produced here.
pub enum EventType {
    Swap(SwapEvent),
    Deposit,
    Withdraw,
    Sync,
}

/// The values of an `EventType`.
pub enum EventTypeView {
    Swap(SwapView),
    Deposit,
    Withdraw,
    Sync,
}

impl View for EventType {
    type V = EventTypeView;

    open spec fn view(&self) -> EventTypeView {
        match self {
            EventType::Swap(s) => EventTypeView::Swap(s@),
            EventType::Deposit => EventTypeView::Deposit,
            EventType::Withdraw => EventTypeView::Withdraw,
            EventType::Sync => EventTypeView::Sync,
        }
    }
}

/// An event of a pool, with where and when it happened.
pub struct Event {
    pub hash: String,
    pub log_index: u32,
    pub log_ordinal: u64,
    pub to: String,
    pub from: String,
    pub block_number: u64,
    pub timestamp: u64,
    pub pool: String,
    pub event_type: Option<EventType>,
}

/// The values of an `Event`.
pub struct EventView {
    pub hash: Seq<char>,
    pub log_index: u32,
    pub log_ordinal: u64,
    pub to: Seq<char>,
    pub from: Seq<char>,
    pub block_number: u64,
    pub timestamp: u64,
    pub pool: Seq<char>,
    pub event_type: Option<EventTypeView>,
}

impl View for Event {
    type V = EventView;

    open spec fn view(&self) -> EventView {
        EventView {
            hash: self.hash@,
            log_index: self.log_index,
            log_ordinal: self.log_ordinal,
            to: self.to@,
            from: self.from@,
            block_number: self.block_number,
            timestamp: self.timestamp,
            pool: self.pool@,
            event_type: match self.event_type {
                Some(t) => Some(t@),
                None => None,
            },
        }
    }
}

/// The views of a sequence of events.
pub open spec fn event_views(s: Seq<Event>) -> Seq<EventView> {
    s.map_values(|e: Event| e@)
}

/// All events of a block.
pub struct Events {
    pub events: Vec<Event>,
}

/// A log of a block, with its transaction, and the tokens of the pool that
/// emitted it when that pool is one the pipeline knows (the answer of the
/// pools store for the emitter).
pub struct SwapLog {
    pub log: Log,
    pub transaction: Transaction,
    pub pool: Option<PoolTokens>,
}

/// The swap event of a log of a known pool.
pub open spec fn swap_event(block: BlockHeader, s: SwapLog) -> EventView {
    EventView {
        hash: spec_hex(s.transaction.hash@),
        log_index: s.log.block_index,
        log_ordinal: s.log.ordinal,
        to: spec_hex(s.transaction.to@),
        from: spec_hex(s.transaction.from@),
        block_number: block.number,
        timestamp: block.timestamp.seconds as u64,
        pool: spec_hex(s.log.address@),
        event_type: Some(
            EventTypeView::Swap(
                swap_of_amounts(
                    data_word(s.log, 0),
                    data_word(s.log, 1),
                    data_word(s.log, 2),
                    data_word(s.log, 3),
                    s.pool->0,
                ),
            ),
        ),
    }
}

/// The swap events of the `Swap` logs of known pools, in order.
pub open spec fn swap_events(block: BlockHeader, swaps: Seq<SwapLog>) -> Seq<EventView>
    decreases swaps.len(),
{
    if swaps.len() == 0 {
        Seq::empty()
    } else {
        swap_events(block, swaps.drop_last()) + if swaps.last().pool is Some && swap_decodes(
            swaps.last().log,
        ) {
            seq![swap_event(block, swaps.last())]
        } else {
            Seq::empty()
        }
    }
}

/// Appends the swap events of the `Swap` logs of known pools (logs of other
/// shapes, or that do not decode, are passed over): transaction hash,
/// the log's block index and ordinal, transaction receiver and sender, the
/// block's number and timestamp, the pool's address text and the swap.
pub fn handle_swap(block: &BlockHeader, swaps: &Vec<SwapLog>, events: &mut Vec<Event>)
    ensures
        event_views(final(events)@) == event_views(old(events)@) + swap_events(*block, swaps@),
{
    let ghost start = event_views(events@);
    let mut i: usize = 0;
    while i < swaps.len()
        invariant
            i <= swaps.len(),
            event_views(events@) == start + swap_events(*block, swaps@.take(i as int)),
        decreases swaps.len() - i,
    {
        let s = &swaps[i];
        proof {
            assert(swaps@.take((i + 1) as int).drop_last() =~= swaps@.take(i as int));
            assert(swaps@.take((i + 1) as int).last() == *s);
        }
        match (&s.pool, Swap::match_and_decode(&s.log)) {
            (Some(pool), Some(swap)) => {
                let e = Event {
                    hash: to_hex(s.transaction.hash.as_slice()),
                    log_index: s.log.block_index,
                    log_ordinal: s.log.ordinal,
                    to: to_hex(s.transaction.to.as_slice()),
                    from: to_hex(s.transaction.from.as_slice()),
                    block_number: block.number,
                    timestamp: block.timestamp_seconds(),
                    pool: to_hex(s.log.address.as_slice()),
                    event_type: Some(EventType::Swap(get_swap_event(&swap, pool))),
                };
                let ghost before = events@;
                events.push(e);
                proof {
                    assert(event_views(events@) =~= event_views(before).push(e@));
                }
            },
            _ => {},
        }
        proof {
            assert(event_views(events@) =~= start + swap_events(*block, swaps@.take((i + 1) as int)));
        }
        i = i + 1;
    }
    proof {
        assert(swaps@.take(swaps.len() as int) =~= swaps@);
    }
}

/// The event `e` is the swap recorded by the log of `s`: its transaction,
/// log and pool, and the net amounts of the log's four data words, each read
/// as one whole 32-byte big-endian number (`amount0In`, `amount1In`,
/// `amount0Out`, `amount1Out`). When token 0 came out, token 1 went in.
pub open spec fn records_whole_swap(e: EventView, block: BlockHeader, s: SwapLog) -> bool {
    let w = s.log.data@;
    let a0in = be_bytes_value(w.subrange(0, 32)) as int;
    let a1in = be_bytes_value(w.subrange(32, 64)) as int;
    let a0out = be_bytes_value(w.subrange(64, 96)) as int;
    let a1out = be_bytes_value(w.subrange(96, 128)) as int;
    let p = s.pool->0;
    &&& e.hash == spec_hex(s.transaction.hash@)
    &&& e.log_index == s.log.block_index
    &&& e.log_ordinal == s.log.ordinal
    &&& e.to == spec_hex(s.transaction.to@)
    &&& e.from == spec_hex(s.transaction.from@)
    &&& e.block_number == block.number
    &&& e.timestamp == block.timestamp.seconds as u64
    &&& e.pool == spec_hex(s.log.address@)
    &&& e.event_type == Some(
        EventTypeView::Swap(
            if a0out > 0 {
                SwapView {
                    token_in: Some(p.token1@),
                    amount_in: int_to_decimal(a1in - a1out),
                    token_out: Some(p.token0@),
                    amount_out: int_to_decimal(a0out - a0in),
                }
            } else {
                SwapView {
                    token_in: Some(p.token0@),
                    amount_in: int_to_decimal(a0in - a0out),
                    token_out: Some(p.token1@),
                    amount_out: int_to_decimal(a1out - a1in),
                }
            },
        ),
    )
}

/// Law: every swap event of a block comes from a `Swap` log of a known pair,
/// and its amounts are the net differences of the log's data words read whole
/// (a word holding 10^20 counts as 10^20, never reduced to 64 bits).
pub proof fn lemma_swap_events_read_whole_words(block: BlockHeader, swaps: Seq<SwapLog>)
    ensures
        forall|j: int|
            #![trigger swap_events(block, swaps)[j]]
            0 <= j < swap_events(block, swaps).len() ==> exists|i: int|
                0 <= i < swaps.len() && (#[trigger] swaps[i]).pool is Some && swap_decodes(
                    swaps[i].log,
                ) && records_whole_swap(swap_events(block, swaps)[j], block, swaps[i]),
    decreases swaps.len(),
{
    if swaps.len() > 0 {
        let prev = swaps.drop_last();
        lemma_swap_events_read_whole_words(block, prev);
        let n = swaps.len() - 1;
        let last = swaps[n];
        let all = swap_events(block, swaps);
        let p = swap_events(block, prev);
        assert(data_word(last.log, 0) == be_bytes_value(last.log.data@.subrange(0, 32)) as int);
        assert(data_word(last.log, 1) == be_bytes_value(last.log.data@.subrange(32, 64)) as int);
        assert(data_word(last.log, 2) == be_bytes_value(last.log.data@.subrange(64, 96)) as int);
        assert(data_word(last.log, 3) == be_bytes_value(last.log.data@.subrange(96, 128)) as int);
        assert forall|j: int| #![trigger all[j]] 0 <= j < all.len() implies exists|i: int|
            0 <= i < swaps.len() && (#[trigger] swaps[i]).pool is Some && swap_decodes(swaps[i].log)
                && records_whole_swap(all[j], block, swaps[i]) by {
            if j < p.len() {
                assert(all[j] == p[j]);
                let i = choose|i: int|
                    0 <= i < prev.len() && (#[trigger] prev[i]).pool is Some && swap_decodes(
                        prev[i].log,
                    ) && records_whole_swap(p[j], block, prev[i]);
                assert(swaps[i] == prev[i]);
            } else {
                assert(all[j] == swap_event(block, last));
                assert(records_whole_swap(all[j], block, swaps[n]));
            }
        }
    }
}

/// The swap events of a block, one per `Swap` log of a known pool that
/// decodes, in order.
pub fn map_pool_events(block: &BlockHeader, swaps: &Vec<SwapLog>) -> (r: Events)
    ensures
        event_views(r.events@) == swap_events(*block, swaps@),
{
    let mut events: Vec<Event> = Vec::new();
    proof {
        assert(event_views(events@) =~= Seq::<EventView>::empty());
    }
    handle_swap(block, swaps, &mut events);
    proof {
        assert(event_views(events@) =~= swap_events(*block, swaps@));
    }
    Events { events }
}

} // verus!
