//! `Swap` entities of the Uniswap V2 pipeline.
use vstd::prelude::*;
use crate::bigint::{
    BigInteger, int_to_decimal, lemma_decimal_round_trip, nat_to_decimal, spec_parse_value,
    spec_parses, u64_to_decimal, is_digit, lemma_nat_to_decimal_body,
};
use crate::entity::{
    EntityChange, EntityChangeView, EntityChanges, FieldValue, Operation, ValueView, change_views,
};
use crate::eth::BlockHeader;
use crate::text::push_char;
use super::pool_events::{
    Event, EventType, EventTypeView, EventView, Events, SwapEvent, SwapLog, SwapView, event_views,
    swap_events, swap_event, swap_decodes, data_word,
};

verus! {

/// The id of an event: its transaction hash, `-`, its log index.
pub open spec fn event_id(hash: Seq<char>, log_index: u32) -> Seq<char> {
    hash + seq!['-'] + nat_to_decimal(log_index as nat)
}

/// `hash-logIndex`, the id of an event.
pub fn get_event_id(event: &Event) -> (r: String)
    ensures
        r@ == event_id(event.hash@, event.log_index),
{
    let mut id = event.hash.clone();
    push_char(&mut id, '-');
    let index = u64_to_decimal(event.log_index as u64);
    id.append(index.as_str());
    id
}

/// Law: two events share an id only when they share hash and log index
/// (the log index's digits hold no `-`, so the last `-` of an id ends its
/// hash).
pub proof fn lemma_event_id_injective(h1: Seq<char>, i1: u32, h2: Seq<char>, i2: u32)
    requires
        event_id(h1, i1) == event_id(h2, i2),
    ensures
        h1 == h2,
        i1 == i2,
{
    let x = event_id(h1, i1);
    let y = event_id(h2, i2);
    let d1 = nat_to_decimal(i1 as nat);
    let d2 = nat_to_decimal(i2 as nat);
    lemma_nat_to_decimal_body(i1 as nat);
    lemma_nat_to_decimal_body(i2 as nat);
    let p1 = h1 + seq!['-'];
    let p2 = h2 + seq!['-'];
    assert(x == p1 + d1);
    assert(y == p2 + d2);
    assert(x.len() == h1.len() + 1 + d1.len());
    assert(y.len() == h2.len() + 1 + d2.len());
    if h1.len() < h2.len() {
        let k = h2.len() - h1.len() - 1;
        assert(y[h2.len() as int] == p2[h2.len() as int]);
        assert(x[h2.len() as int] == d1[k]);
        assert(is_digit(d1[k]) || d1[k] == '_');
    } else if h2.len() < h1.len() {
        let k = h1.len() - h2.len() - 1;
        assert(x[h1.len() as int] == p1[h1.len() as int]);
        assert(y[h1.len() as int] == d2[k]);
        assert(is_digit(d2[k]) || d2[k] == '_');
    }
    assert(x.subrange(0, h1.len() as int) =~= h1);
    assert(y.subrange(0, h2.len() as int) =~= h2);
    assert(x.skip(h1.len() as int + 1) =~= d1);
    assert(y.skip(h2.len() as int + 1) =~= d2);
    crate::bigint::lemma_nat_to_decimal_injective(i1 as nat, i2 as nat);
}

/// The decimal text `0` of a zero decimal amount.
pub open spec fn zero_decimal() -> Seq<char> {
    seq!['0']
}

/// The `Swap` change of a swap event: creation of row `hash-logIndex` at
/// `ordinal`, with fields `id`, `hash`, `logIndex`, `protocol`, `to`, `from`,
/// `blockNumber`, `timestamp`, `tokenIn`, `amountIn`, `amountInUSD` (zero),
/// `tokenOut`, `amountOut`, `amountOutUSD` (zero) and `pool`.
pub open spec fn swap_change(ordinal: u64, e: EventView, s: SwapView, protocol: Seq<char>) -> EntityChangeView {
    let id = event_id(e.hash, e.log_index);
    EntityChangeView {
        entity: "Swap"@,
        id,
        ordinal,
        operation: Operation::Create,
        fields: seq![
            ("id"@, ValueView::String(id)),
            ("hash"@, ValueView::String(e.hash)),
            ("logIndex"@, ValueView::Int32(e.log_index as i32)),
            ("protocol"@, ValueView::String(protocol)),
            ("to"@, ValueView::String(e.to)),
            ("from"@, ValueView::String(e.from)),
            ("blockNumber"@, ValueView::BigInt(nat_to_decimal(e.block_number as nat))),
            ("timestamp"@, ValueView::BigInt(nat_to_decimal(e.timestamp as nat))),
            ("tokenIn"@, ValueView::String(s.token_in->0.address)),
            ("amountIn"@, ValueView::BigInt(int_to_decimal(spec_parse_value(s.amount_in)))),
            ("amountInUSD"@, ValueView::BigDecimal(zero_decimal())),
            ("tokenOut"@, ValueView::String(s.token_out->0.address)),
            ("amountOut"@, ValueView::BigInt(int_to_decimal(spec_parse_value(s.amount_out)))),
            ("amountOutUSD"@, ValueView::BigDecimal(zero_decimal())),
            ("pool"@, ValueView::String(e.pool)),
        ],
    }
}

/// Law: the `Swap` change of an event creates, at the given ordinal, the row
/// whose id is the event's hash text, `-`, its log index; its fields are, in
/// order, that id, the hash, the log index, the protocol, the transaction's
/// receiver and sender, the block's number and timestamp, the token that went
/// in and the integer its amount text denotes, a zero USD amount, the token
/// that came out and its amount, a zero USD amount, and the pool.
pub proof fn lemma_swap_change_fields(ordinal: u64, e: EventView, s: SwapView, protocol: Seq<char>)
    ensures
        ({
            let c = swap_change(ordinal, e, s, protocol);
            let id = e.hash + seq!['-'] + nat_to_decimal(e.log_index as nat);
            &&& c.entity == "Swap"@
            &&& c.id == id
            &&& c.ordinal == ordinal
            &&& c.operation == Operation::Create
            &&& c.fields.len() == 15
            &&& c.fields[0] == ("id"@, ValueView::String(id))
            &&& c.fields[1] == ("hash"@, ValueView::String(e.hash))
            &&& c.fields[2] == ("logIndex"@, ValueView::Int32(e.log_index as i32))
            &&& c.fields[3] == ("protocol"@, ValueView::String(protocol))
            &&& c.fields[4] == ("to"@, ValueView::String(e.to))
            &&& c.fields[5] == ("from"@, ValueView::String(e.from))
            &&& c.fields[6] == ("blockNumber"@, ValueView::BigInt(nat_to_decimal(e.block_number as nat)))
            &&& c.fields[7] == ("timestamp"@, ValueView::BigInt(nat_to_decimal(e.timestamp as nat)))
            &&& c.fields[8] == ("tokenIn"@, ValueView::String(s.token_in->0.address))
            &&& c.fields[9] == ("amountIn"@, ValueView::BigInt(int_to_decimal(spec_parse_value(s.amount_in))))
            &&& c.fields[10] == ("amountInUSD"@, ValueView::BigDecimal(seq!['0']))
            &&& c.fields[11] == ("tokenOut"@, ValueView::String(s.token_out->0.address))
            &&& c.fields[12] == ("amountOut"@, ValueView::BigInt(int_to_decimal(spec_parse_value(s.amount_out))))
            &&& c.fields[13] == ("amountOutUSD"@, ValueView::BigDecimal(seq!['0']))
            &&& c.fields[14] == ("pool"@, ValueView::String(e.pool))
        }),
{
}

/// The swap names both tokens and its amounts are integer texts.
pub open spec fn swap_ready(s: SwapView) -> bool {
    &&& s.token_in is Some
    &&& s.token_out is Some
    &&& spec_parses(s.amount_in)
    &&& spec_parses(s.amount_out)
}

fn zero_text() -> (r: String)
    ensures
        r@ == zero_decimal(),
{
    let mut r = String::new();
    push_char(&mut r, '0');
    proof {
        assert(r@ =~= zero_decimal());
    }
    r
}

/// The `Swap` entity change of a swap event; both tokens must be named and
/// both amounts must be integer texts.
pub fn create_swap_transaction(ordinal: u64, event: &Event, swap: &SwapEvent, protocol: &str) -> (r:
    EntityChange)
    requires
        swap_ready(swap@),
    ensures
        r@ == swap_change(ordinal, event@, swap@, protocol@),
{
    let id = get_event_id(event);
    let mut change = EntityChange::new("Swap", id.as_str(), ordinal, Operation::Create);
    let token_in = match &swap.token_in {
        Some(t) => t.address.clone(),
        None => {
            return change;
        },
    };
    let token_out = match &swap.token_out {
        Some(t) => t.address.clone(),
        None => {
            return change;
        },
    };
    let amount_in = match BigInteger::parse(swap.amount_in.as_str()) {
        Some(x) => x,
        None => {
            return change;
        },
    };
    let amount_out = match BigInteger::parse(swap.amount_out.as_str()) {
        Some(x) => x,
        None => {
            return change;
        },
    };
    change.change("id", FieldValue::String(id));
    change.change("hash", FieldValue::String(event.hash.clone()));
    change.change("logIndex", FieldValue::Int32(event.log_index as i32));
    change.change("protocol", FieldValue::String(String::from_str(protocol)));
    change.change("to", FieldValue::String(event.to.clone()));
    change.change("from", FieldValue::String(event.from.clone()));
    change.change("blockNumber", FieldValue::BigInt(u64_to_decimal(event.block_number)));
    change.change("timestamp", FieldValue::BigInt(u64_to_decimal(event.timestamp)));
    change.change("tokenIn", FieldValue::String(token_in));
    change.change("amountIn", FieldValue::BigInt(amount_in.to_decimal_string()));
    change.change("amountInUSD", FieldValue::BigDecimal(zero_text()));
    change.change("tokenOut", FieldValue::String(token_out));
    change.change("amountOut", FieldValue::BigInt(amount_out.to_decimal_string()));
    change.change("amountOutUSD", FieldValue::BigDecimal(zero_text()));
    change.change("pool", FieldValue::String(event.pool.clone()));
    proof {
        assert(change@.fields =~= swap_change(ordinal, event@, swap@, protocol@).fields);
    }
    change
}

/// The event has a kind, and a swap names both tokens with integer amounts.
pub open spec fn event_ready(e: EventView) -> bool {
    &&& e.event_type is Some
    &&& (e.event_type->0 matches EventTypeView::Swap(s) ==> swap_ready(s))
}

/// The `Swap` changes of the swap events, in order.
pub open spec fn swap_changes(events: Seq<EventView>, protocol: Seq<char>) -> Seq<EntityChangeView>
    decreases events.len(),
{
    if events.len() == 0 {
        Seq::empty()
    } else {
        let e = events.last();
        swap_changes(events.drop_last(), protocol) + match e.event_type {
            Some(EventTypeView::Swap(s)) => seq![swap_change(e.log_ordinal, e, s, protocol)],
            _ => Seq::empty(),
        }
    }
}

/// One `Swap` entity change per swap event, in order, at the event's log
/// ordinal; events of other kinds give none. Every event must have a kind,
/// and every swap must name both tokens with integer amounts; `protocol` is
/// the text of the protocol field.
pub fn map_events_entity(pool_events_map: &Events, protocol: &str) -> (r: EntityChanges)
    requires
        forall|i: int|
            0 <= i < pool_events_map.events@.len() ==> event_ready(
                #[trigger] event_views(pool_events_map.events@)[i],
            ),
    ensures
        change_views(r.entity_changes@) == swap_changes(event_views(pool_events_map.events@), protocol@),
{
    let events = &pool_events_map.events;
    let ghost all = event_views(events@);
    let mut changes: Vec<EntityChange> = Vec::new();
    let mut i: usize = 0;
    proof {
        assert(all.take(0) =~= Seq::<EventView>::empty());
        assert(change_views(changes@) =~= swap_changes(all.take(0), protocol@));
    }
    while i < events.len()
        invariant
            i <= events.len(),
            all == event_views(events@),
            forall|j: int| 0 <= j < all.len() ==> event_ready(#[trigger] all[j]),
            change_views(changes@) == swap_changes(all.take(i as int), protocol@),
        decreases events.len() - i,
    {
        let event = &events[i];
        proof {
            assert(all.take((i + 1) as int).drop_last() =~= all.take(i as int));
            assert(all.take((i + 1) as int).last() == event@);
            assert(event_ready(all[i as int]));
        }
        match &event.event_type {
            Some(EventType::Swap(swap)) => {
                let c = create_swap_transaction(event.log_ordinal, event, swap, protocol);
                let ghost before = changes@;
                changes.push(c);
                proof {
                    assert(change_views(changes@) =~= change_views(before).push(c@));
                }
            },
            _ => {},
        }
        proof {
            assert(change_views(changes@) =~= swap_changes(all.take((i + 1) as int), protocol@));
        }
        i = i + 1;
    }
    proof {
        assert(all.take(events.len() as int) =~= all);
    }
    EntityChanges { entity_changes: changes }
}

/// The event is a swap whose amounts are the texts of the values they parse
/// to.
pub open spec fn amounts_round_trip(e: EventView) -> bool {
    match e.event_type {
        Some(EventTypeView::Swap(s)) => int_to_decimal(spec_parse_value(s.amount_in)) == s.amount_in
            && int_to_decimal(spec_parse_value(s.amount_out)) == s.amount_out,
        _ => false,
    }
}

/// Law: every event `map_pool_events` produces is accepted by
/// `map_events_entity`, and the amounts its `Swap` change carries are the
/// net amounts the swap computed.
pub proof fn lemma_swap_events_accepted(block: BlockHeader, swaps: Seq<SwapLog>)
    ensures
        forall|k: int|
            0 <= k < swap_events(block, swaps).len() ==> event_ready(
                #[trigger] swap_events(block, swaps)[k],
            ),
        forall|k: int|
            0 <= k < swap_events(block, swaps).len() ==> amounts_round_trip(
                #[trigger] swap_events(block, swaps)[k],
            ),
    decreases swaps.len(),
{
    if swaps.len() > 0 {
        let prev = swaps.drop_last();
        lemma_swap_events_accepted(block, prev);
        let last = swaps.last();
        if last.pool is Some && swap_decodes(last.log) {
            let a0in = data_word(last.log, 0);
            let a1in = data_word(last.log, 1);
            let a0out = data_word(last.log, 2);
            let a1out = data_word(last.log, 3);
            lemma_decimal_round_trip(a1in - a1out);
            lemma_decimal_round_trip(a0out - a0in);
            lemma_decimal_round_trip(a0in - a0out);
            lemma_decimal_round_trip(a1out - a1in);
            let e = swap_event(block, last);
            assert(event_ready(e));
            let all = swap_events(block, swaps);
            let p = swap_events(block, prev);
            assert forall|k: int| 0 <= k < all.len() implies event_ready(#[trigger] all[k]) by {
                if k < p.len() {
                    assert(all[k] == p[k]);
                }
            }
            assert(amounts_round_trip(e));
            assert forall|k: int| 0 <= k < all.len() implies amounts_round_trip(#[trigger] all[k]) by {
                if k < p.len() {
                    assert(all[k] == p[k]);
                }
            }
        } else {
            assert(swap_events(block, swaps) =~= swap_events(block, prev));
        }
    }
}

} // verus!
