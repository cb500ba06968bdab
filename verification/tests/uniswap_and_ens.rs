use defi_substreams::bigint::BigInteger;
use defi_substreams::ens::{store_ens_record, Domain, Domains};
use defi_substreams::entity::{FieldValue, Operation};
use defi_substreams::eth::{BlockHeader, Log, Timestamp, Transaction};
use defi_substreams::uniswap::events_entity::{create_swap_transaction, get_event_id, map_events_entity};
use defi_substreams::uniswap::pool_events::{
    get_swap_event, map_pool_events, Erc20Token, Event, EventType, Events, PoolTokens, Swap,
    SwapEvent, SwapLog,
};

fn token(address: &str) -> Erc20Token {
    Erc20Token { address: address.to_string(), name: format!("{} token", address), symbol: "T".to_string(), decimals: 18 }
}

fn pool() -> PoolTokens {
    PoolTokens { token0: token("0xt0"), token1: token("0xt1") }
}

fn integer(s: &str) -> BigInteger {
    BigInteger::parse(s).unwrap()
}

fn amounts(a0_in: &str, a1_in: &str, a0_out: &str, a1_out: &str) -> Swap {
    Swap {
        sender: vec![],
        amount0_in: integer(a0_in),
        amount1_in: integer(a1_in),
        amount0_out: integer(a0_out),
        amount1_out: integer(a1_out),
        to: vec![],
    }
}

fn swap_topic() -> Vec<u8> {
    vec![
        215, 138, 217, 95, 164, 108, 153, 75, 101, 81, 208, 218, 133, 252, 39, 95, 230, 19, 206, 55,
        101, 127, 184, 213, 227, 209, 48, 132, 1, 89, 216, 34,
    ]
}

fn swap_data(words: [u64; 4]) -> Vec<u8> {
    let mut data = vec![0u8; 128];
    for (k, w) in words.iter().enumerate() {
        data[32 * k + 24..32 * k + 32].copy_from_slice(&w.to_be_bytes());
    }
    data
}

fn block() -> BlockHeader {
    BlockHeader { number: 12_000_000, timestamp: Timestamp { seconds: 1_650_000_000, nanos: 0 } }
}

fn swap_log(emitter: u8, block_index: u32, known: bool) -> SwapLog {
    SwapLog {
        log: Log {
            address: vec![emitter; 2],
            topics: vec![swap_topic(), vec![0; 32], vec![5; 32]],
            data: swap_data([100, 0, 0, 250]),
            index: 1,
            block_index,
            ordinal: 77,
        },
        transaction: Transaction { index: 3, hash: vec![0xaa, 0xbb], from: vec![0x01], to: vec![0x02] },
        pool: if known { Some(pool()) } else { None },
    }
}

fn event(hash: &str, log_index: u32, kind: Option<EventType>) -> Event {
    Event {
        hash: hash.to_string(),
        log_index,
        log_ordinal: 9,
        to: "0xto".to_string(),
        from: "0xfrom".to_string(),
        block_number: 42,
        timestamp: 1000,
        pool: "0xpool".to_string(),
        event_type: kind,
    }
}

fn swap(amount_in: &str, amount_out: &str) -> SwapEvent {
    SwapEvent { token_in: Some(token("0xin")), amount_in: amount_in.to_string(), token_out: Some(token("0xout")), amount_out: amount_out.to_string() }
}

fn text_of(v: &FieldValue) -> String {
    match v {
        FieldValue::String(s) | FieldValue::BigInt(s) | FieldValue::BigDecimal(s) => s.clone(),
        FieldValue::Int32(i) => i.to_string(),
        FieldValue::BigIntArray(a) => a.join(","),
    }
}

#[test]
fn token1_goes_in_when_token0_comes_out() {
    let s = get_swap_event(&amounts("1", "500", "300", "20"), &pool());
    assert_eq!(s.token_in.as_ref().unwrap().address, "0xt1");
    assert_eq!(s.token_out.as_ref().unwrap().address, "0xt0");
    assert_eq!(s.amount_in, "480");
    assert_eq!(s.amount_out, "299");
    assert_eq!(s.token_in.unwrap().name, "0xt1 token");
}

#[test]
fn token0_goes_in_otherwise() {
    let s = get_swap_event(&amounts("100", "0", "0", "250"), &pool());
    assert_eq!(s.token_in.unwrap().address, "0xt0");
    assert_eq!(s.token_out.unwrap().address, "0xt1");
    assert_eq!(s.amount_in, "100");
    assert_eq!(s.amount_out, "250");
}

#[test]
fn net_amounts_may_be_negative() {
    let s = get_swap_event(&amounts("5", "0", "0", "2"), &PoolTokens { token0: token("a"), token1: token("b") });
    assert_eq!(s.amount_in, "5");
    let t = get_swap_event(&amounts("1", "0", "0", "0"), &pool());
    assert_eq!(t.amount_out, "0");
    let u = get_swap_event(&amounts("1", "10", "0", "3"), &pool());
    assert_eq!(u.amount_out, "-7");
}

#[test]
fn swap_events_of_known_pools_only() {
    let swaps = vec![swap_log(0x10, 4, true), swap_log(0x11, 5, false), swap_log(0x12, 6, true)];
    let r = map_pool_events(&block(), &swaps);
    assert_eq!(r.events.len(), 2);
    let e = &r.events[0];
    assert_eq!(e.hash, "0xaabb");
    assert_eq!(e.log_index, 4);
    assert_eq!(e.log_ordinal, 77);
    assert_eq!(e.to, "0x02");
    assert_eq!(e.from, "0x01");
    assert_eq!(e.block_number, 12_000_000);
    assert_eq!(e.timestamp, 1_650_000_000);
    assert_eq!(e.pool, "0x1010");
    assert_eq!(r.events[1].pool, "0x1212");
    match &e.event_type {
        Some(EventType::Swap(s)) => {
            assert_eq!(s.amount_in, "100");
            assert_eq!(s.amount_out, "250");
        }
        _ => panic!("not a swap"),
    }
}

#[test]
fn other_logs_are_not_swaps() {
    let mut not_swap = swap_log(0x10, 4, true);
    not_swap.log.topics[0][0] = 0;
    let mut short_data = swap_log(0x11, 5, true);
    short_data.log.data.pop();
    let mut short_topic = swap_log(0x12, 6, true);
    short_topic.log.topics[2].pop();
    let r = map_pool_events(&block(), &vec![not_swap, short_data, short_topic, swap_log(0x13, 7, true)]);
    assert_eq!(r.events.len(), 1);
    assert_eq!(r.events[0].pool, "0x1313");
}

#[test]
fn swap_logs_decode() {
    let log = swap_log(0x10, 4, true).log;
    assert!(Swap::match_log(&log));
    let s = Swap::match_and_decode(&log).unwrap();
    assert_eq!(s.sender, vec![0u8; 20]);
    assert_eq!(s.to, vec![5u8; 20]);
    assert_eq!(s.amount0_in.to_decimal_string(), "100");
    assert_eq!(s.amount1_in.to_decimal_string(), "0");
    assert_eq!(s.amount0_out.to_decimal_string(), "0");
    assert_eq!(s.amount1_out.to_decimal_string(), "250");
}

#[test]
fn event_id_joins_hash_and_log_index() {
    assert_eq!(get_event_id(&event("0xabc", 17, None)), "0xabc-17");
    assert_eq!(get_event_id(&event("0xabc", 0, None)), "0xabc-0");
    assert_ne!(get_event_id(&event("0xabc", 1, None)), get_event_id(&event("0xabc", 11, None)));
    assert_ne!(get_event_id(&event("a-1", 2, None)), get_event_id(&event("a", 12, None)));
    assert_eq!(get_event_id(&event("a-1", 2, None)), "a-1-2");
}

#[test]
fn swap_entity_fields() {
    let e = event("0xh", 3, None);
    let c = create_swap_transaction(9, &e, &swap("0012", "-3_0"), "0xfactory");
    assert_eq!(c.entity, "Swap");
    assert_eq!(c.id, "0xh-3");
    assert_eq!(c.ordinal, 9);
    assert_eq!(c.operation, Operation::Create);
    let got: Vec<(String, String)> = c.fields.iter().map(|f| (f.name.clone(), text_of(&f.value))).collect();
    let want: Vec<(String, String)> = [
        ("id", "0xh-3"),
        ("hash", "0xh"),
        ("logIndex", "3"),
        ("protocol", "0xfactory"),
        ("to", "0xto"),
        ("from", "0xfrom"),
        ("blockNumber", "42"),
        ("timestamp", "1000"),
        ("tokenIn", "0xin"),
        ("amountIn", "12"),
        ("amountInUSD", "0"),
        ("tokenOut", "0xout"),
        ("amountOut", "-30"),
        ("amountOutUSD", "0"),
        ("pool", "0xpool"),
    ]
    .iter()
    .map(|(a, b)| (a.to_string(), b.to_string()))
    .collect();
    assert_eq!(got, want);
    assert!(matches!(c.fields[2].value, FieldValue::Int32(3)));
    assert!(matches!(&c.fields[6].value, FieldValue::BigInt(_)));
    assert!(matches!(&c.fields[10].value, FieldValue::BigDecimal(_)));
}

#[test]
fn log_index_field_wraps_like_a_cast() {
    let e = event("0xh", u32::MAX, None);
    let c = create_swap_transaction(0, &e, &swap("1", "1"), "p");
    assert!(matches!(c.fields[2].value, FieldValue::Int32(-1)));
}

#[test]
fn entities_only_for_swaps() {
    let events = Events {
        events: vec![
            event("0x1", 1, Some(EventType::Swap(swap("1", "2")))),
            event("0x2", 2, Some(EventType::Sync)),
            event("0x3", 3, Some(EventType::Deposit)),
            event("0x4", 4, Some(EventType::Swap(swap("3", "4")))),
        ],
    };
    let r = map_events_entity(&events, "0xfactory");
    assert_eq!(r.entity_changes.len(), 2);
    assert_eq!(r.entity_changes[0].id, "0x1-1");
    assert_eq!(r.entity_changes[1].id, "0x4-4");
    assert_eq!(r.entity_changes[1].ordinal, 9);
}

#[test]
fn produced_swap_events_are_accepted_with_their_amounts() {
    let swaps = vec![swap_log(0x10, 4, true)];
    let events = map_pool_events(&block(), &swaps);
    let changes = map_events_entity(&events, "p");
    assert_eq!(changes.entity_changes.len(), 1);
    let c = &changes.entity_changes[0];
    assert_eq!(text_of(&c.fields[9].value), "100");
    assert_eq!(text_of(&c.fields[12].value), "250");
    assert_eq!(c.id, "0xaabb-4");
}

#[test]
fn ens_records_are_keyed_by_name() {
    let domains = Domains {
        items: vec![
            Domain { ens_name: "vitalik.eth".to_string(), record: 1u32 },
            Domain { ens_name: "".to_string(), record: 2u32 },
        ],
    };
    let writes = store_ens_record(domains);
    assert_eq!(writes.len(), 2);
    assert_eq!(writes[0].key, "Domain:vitalik.eth");
    assert_eq!(writes[0].value, 1);
    assert_eq!(writes[0].ordinal, 0);
    assert_eq!(writes[1].key, "Domain:");
    assert_eq!(writes[1].value, 2);
    assert!(store_ens_record(Domains::<u32> { items: vec![] }).is_empty());
}
