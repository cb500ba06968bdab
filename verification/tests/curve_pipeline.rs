use defi_substreams::bigint::BigInteger;
use defi_substreams::curve::admin_balances::{get_admin_balances, Delta};
use defi_substreams::curve::factory_added::{map_factory_added, Factories};
use defi_substreams::curve::fees_entity::{map_fees_entity, unique_pools, KnownCall};
use defi_substreams::curve::graph_out::graph_out;
use defi_substreams::curve::pool_created::{
    find_pool_from_plain_pool_deployed_event, map_pool_created, DeploymentEvents,
};
use defi_substreams::curve::pool_created_registry;
use defi_substreams::curve::pool_fees::{fee_requests, map_pool_fees, pool_store_key, FeeCall};
use defi_substreams::curve::pool_fees_by_log::{self, FeeLog};
use defi_substreams::curve::records::{
    answer_fits_u64, AddressEvent, DeploymentTrace, EventRecord, KnownEmitter, MinterAnswer, Pools,
};
use defi_substreams::curve::stores::{store_factories, store_pool_admin_balances, store_pools, BalanceCall};
use defi_substreams::entity::{EntityChange, EntityChanges, FieldValue, Operation};
use defi_substreams::eth::{BlockHeader, Call, Log, RpcResponse, Timestamp, Transaction};

fn block() -> BlockHeader {
    BlockHeader { number: 17, timestamp: Timestamp { seconds: 1_600_000_000, nanos: 0 } }
}

fn log_from(emitter: u8, index: u32) -> Log {
    Log { address: vec![emitter; 20], topics: vec![], data: vec![], index, block_index: index + 100, ordinal: 5 }
}

fn tx(index: u32, hash: u8) -> Transaction {
    Transaction { index, hash: vec![hash; 2], from: vec![1; 2], to: vec![2; 2] }
}

fn address_event(address: u8, emitter: u8, index: u32) -> AddressEvent {
    AddressEvent { address: vec![address; 2], log: log_from(emitter, index), transaction: tx(index, 0xab) }
}

fn known<E>(event: E, emitter_known: bool) -> KnownEmitter<E> {
    KnownEmitter { event, emitter_known }
}

fn answer(value: u8) -> RpcResponse {
    let mut raw = vec![0u8; 32];
    raw[31] = value;
    RpcResponse { raw, failed: false }
}

fn failed() -> RpcResponse {
    RpcResponse { raw: vec![], failed: true }
}

fn integer(s: &str) -> BigInteger {
    BigInteger::parse(s).unwrap()
}

fn delta(key: String, old: &str, new: &str) -> Delta {
    Delta { key, old_value: integer(old), new_value: integer(new) }
}

fn addresses(records: &[EventRecord]) -> Vec<String> {
    records.iter().map(|r| r.address.clone()).collect()
}

fn transfer_log(emitter: u8, from: u8, to: u8) -> Log {
    let topic = vec![
        221, 242, 82, 173, 27, 226, 200, 155, 105, 194, 176, 104, 252, 55, 141, 170, 149, 43, 167,
        241, 99, 196, 161, 22, 40, 245, 90, 77, 245, 35, 179, 239,
    ];
    let mut f = vec![0u8; 32];
    let mut t = vec![0u8; 32];
    for i in 12..32 {
        f[i] = from;
        t[i] = to;
    }
    Log { address: vec![emitter; 20], topics: vec![topic, f, t], data: vec![0; 32], index: 0, block_index: 0, ordinal: 0 }
}

#[test]
fn factories_come_from_the_provider_only_new_then_modified() {
    let provider = vec![7u8; 20];
    let new_events = vec![address_event(0x11, 7, 1), address_event(0x12, 8, 2)];
    let modified = vec![address_event(0x13, 7, 3)];
    let r: Factories = map_factory_added(&block(), &provider, &new_events, &modified);
    assert_eq!(addresses(&r.factories), vec!["0x1111", "0x1313"]);
    let f = &r.factories[0];
    assert_eq!(f.log_index, 1);
    assert_eq!(f.block_number, 17);
    assert_eq!(f.block_timestmap, Some(Timestamp { seconds: 1_600_000_000, nanos: 0 }));
    assert_eq!(f.transaction_index, 1);
    assert_eq!(f.transaction_hash, "0xabab");
}

#[test]
fn registry_pools_come_from_the_registry_only() {
    let registry = vec![3u8; 20];
    let events = vec![address_event(0x21, 3, 4), address_event(0x22, 4, 5), address_event(0x23, 3, 6)];
    let r: Pools = pool_created_registry::map_pool_created(&block(), &registry, &events);
    assert_eq!(addresses(&r.pools), vec!["0x2121", "0x2323"]);
    assert_eq!(r.pools[1].log_index, 6);
}

#[test]
fn plain_pool_is_the_first_mint_outside_reverted_calls() {
    let deployment = log_from(0x50, 0);
    let calls = vec![
        Call { address: vec![], state_reverted: true, end_ordinal: 0, logs: vec![transfer_log(0x61, 0, 0x61)] },
        Call {
            address: vec![],
            state_reverted: false,
            end_ordinal: 0,
            logs: vec![transfer_log(0x62, 1, 0x62), transfer_log(0x63, 0, 0x99), transfer_log(0x64, 0, 0x50), transfer_log(0x65, 0, 0x65)],
        },
    ];
    let found = find_pool_from_plain_pool_deployed_event(&calls, &deployment).unwrap();
    assert_eq!(found, format!("0x{}", "64".repeat(20)));
}

#[test]
fn plain_pool_mint_to_itself_counts() {
    let deployment = log_from(0x50, 0);
    let calls = vec![Call { address: vec![], state_reverted: false, end_ordinal: 0, logs: vec![transfer_log(0x65, 0, 0x65)] }];
    let found = find_pool_from_plain_pool_deployed_event(&calls, &deployment).unwrap();
    assert_eq!(found, format!("0x{}", "65".repeat(20)));
}

#[test]
fn no_mint_means_no_plain_pool() {
    let deployment = log_from(0x50, 0);
    let calls = vec![Call { address: vec![], state_reverted: false, end_ordinal: 0, logs: vec![transfer_log(0x62, 1, 0x62)] }];
    assert!(find_pool_from_plain_pool_deployed_event(&calls, &deployment).is_none());
    assert!(find_pool_from_plain_pool_deployed_event(&vec![], &deployment).is_none());
}

#[test]
fn deployed_pools_kind_by_kind() {
    let minted = Call { address: vec![], state_reverted: false, end_ordinal: 0, logs: vec![transfer_log(0x77, 0, 0x77)] };
    let events = DeploymentEvents {
        crypto_pool_deployed: vec![
            known(MinterAnswer { minter: Some(vec![0x31; 2]), log: log_from(1, 1), transaction: tx(1, 1) }, true),
            known(MinterAnswer { minter: None, log: log_from(1, 2), transaction: tx(2, 1) }, true),
            known(MinterAnswer { minter: Some(vec![0x32; 2]), log: log_from(2, 3), transaction: tx(3, 1) }, false),
        ],
        tricrypto_pool_deployed: vec![known(address_event(0x33, 1, 4), true)],
        plain_pool_deployed: vec![known(DeploymentTrace { log: log_from(1, 5), transaction: tx(5, 1), calls: vec![minted] }, true)],
        plain_pool_deployed_with_pool: vec![known(address_event(0x34, 1, 6), true)],
        base_pool_added: vec![known(address_event(0x35, 1, 7), true), known(address_event(0x36, 1, 8), false)],
        base_pool_added_with_implementation: vec![known(address_event(0x37, 1, 9), true)],
        meta_pool_deployed: vec![known(DeploymentTrace { log: log_from(1, 10), transaction: tx(10, 1), calls: vec![] }, true)],
        pool_added: vec![known(address_event(0x38, 1, 11), true)],
    };
    let r = map_pool_created(&block(), &events);
    let want = vec![
        "0x3131".to_string(),
        "0x3333".to_string(),
        format!("0x{}", "77".repeat(20)),
        "0x3434".to_string(),
        "0x3535".to_string(),
        "0x3737".to_string(),
        "0x3838".to_string(),
    ];
    assert_eq!(addresses(&r.pools), want);
    assert_eq!(r.pools[2].log_index, 5);
}

#[test]
fn factory_and_pool_markers() {
    let r = map_factory_added(&block(), &vec![7u8; 20], &vec![address_event(0x11, 7, 1)], &vec![]);
    let writes = store_factories(&r);
    assert_eq!(writes.len(), 1);
    assert_eq!(writes[0].ordinal, 0);
    assert_eq!(writes[0].key, "0x1111");
    assert_eq!(writes[0].value, "Added");
    let pools = pool_created_registry::map_pool_created(&block(), &vec![3u8; 20], &vec![address_event(0x21, 3, 4)]);
    let writes = store_pools(&pools, &vec!["0xold".to_string()]);
    let keys: Vec<&str> = writes.iter().map(|w| w.key.as_str()).collect();
    assert_eq!(keys, vec!["0x2121", "0xold"]);
    assert!(writes.iter().all(|w| w.value == "Added" && w.ordinal == 0));
}

#[test]
fn admin_balance_writes_for_known_pools() {
    let calls = vec![
        BalanceCall { address: vec![0xaa], end_ordinal: 9, pool_known: true, balance_responses: vec![answer(1), failed(), answer(3), RpcResponse { raw: vec![1; 4], failed: false }] },
        BalanceCall { address: vec![0xbb], end_ordinal: 10, pool_known: false, balance_responses: vec![] },
    ];
    let writes = store_pool_admin_balances(&calls);
    let got: Vec<(u64, String, String)> = writes.iter().map(|w| (w.ordinal, w.key.clone(), w.value.to_decimal_string())).collect();
    let want = vec![
        (9, "Pool:0xaa".to_string(), "1".to_string()),
        (9, "ABT0:0xaa".to_string(), "1".to_string()),
        (9, "ABT1:0xaa".to_string(), "0".to_string()),
        (9, "ABT2:0xaa".to_string(), "3".to_string()),
        (9, "ABT3:0xaa".to_string(), "0".to_string()),
    ];
    assert_eq!(got, want);
}

#[test]
fn admin_balance_changes_take_the_last_delta_of_each_slot() {
    let deltas = vec![
        delta("ABT0:0xaa".to_string(), "10", "15"),
        delta("ABT0:0xaa".to_string(), "15", "12"),
        delta("ABT1:0xaa".to_string(), "0", "100000000000000000000000000000"),
        delta("ABT2:0xbb".to_string(), "0", "5"),
        delta("Pool:0xaa".to_string(), "0", "1"),
        delta("ABT3:0xaa".to_string(), "7", "7"),
    ];
    let b = get_admin_balances(&deltas, "0xaa");
    let got: Vec<String> = b.iter().map(|x| x.to_decimal_string()).collect();
    assert_eq!(got, vec!["-3", "100000000000000000000000000000", "0", "0"]);
    let none = get_admin_balances(&vec![], "0xaa");
    assert!(none.iter().all(|x| x.is_zero()) && none.len() == 4);
}

#[test]
fn pool_store_key_of_an_address() {
    assert_eq!(pool_store_key(&[0xab, 0x01]), "Pool:0xab01");
}

fn fee_call(address: u8, known: bool, tx_index: u32) -> FeeCall {
    FeeCall { address: vec![address], end_ordinal: 1, transaction: tx(tx_index, 0xcd), pool_known: known, fee_responses: vec![answer(4), answer(2)] }
}

#[test]
fn fees_are_wanted_only_when_balances_grew_and_none_shrank() {
    let deltas = vec![
        delta("ABT0:0x01".to_string(), "1", "5"),
        delta("ABT0:0x02".to_string(), "5", "1"),
        delta("ABT1:0x02".to_string(), "1", "5"),
        delta("ABT0:0x04".to_string(), "1", "5"),
    ];
    let calls = vec![fee_call(1, true, 0), fee_call(2, true, 1), fee_call(3, true, 2), fee_call(4, false, 3)];
    assert_eq!(fee_requests(&calls, &deltas), vec![true, false, false, false]);
    let r = map_pool_fees(&block(), &calls, &deltas);
    assert_eq!(r.fees.len(), 1);
    let f = &r.fees[0];
    assert_eq!(f.address, "0x01");
    assert_eq!(f.fee, Some(4));
    assert_eq!(f.admin_fee, Some(2));
    assert_eq!(f.admin_balances, vec!["4", "0", "0", "0"]);
    assert_eq!(f.log_index, 0);
    assert_eq!(f.transaction_index, 0);
    assert_eq!(f.transaction_hash, "0xcdcd");
    assert_eq!(f.block_number, 17);
}

#[test]
fn fees_per_log_of_known_pools() {
    let logs = vec![
        FeeLog { log: log_from(0x0a, 3), transaction: tx(2, 0xee), pool_known: true, fee_responses: vec![answer(9), failed()] },
        FeeLog { log: log_from(0x0b, 4), transaction: tx(2, 0xee), pool_known: false, fee_responses: vec![] },
    ];
    let r = pool_fees_by_log::map_pool_fees(&block(), &logs);
    assert_eq!(r.fees.len(), 1);
    assert_eq!(r.fees[0].fee, Some(9));
    assert_eq!(r.fees[0].admin_fee, None);
    assert_eq!(r.fees[0].log_index, 3);
    assert!(r.fees[0].admin_balances.is_empty());
}

fn field<'a>(c: &'a EntityChange, name: &str) -> &'a FieldValue {
    &c.fields.iter().find(|f| f.name == name).unwrap().value
}

fn text_of(v: &FieldValue) -> String {
    match v {
        FieldValue::String(s) | FieldValue::BigInt(s) | FieldValue::BigDecimal(s) => s.clone(),
        FieldValue::Int32(i) => i.to_string(),
        FieldValue::BigIntArray(a) => a.join(","),
    }
}

#[test]
fn one_fees_entity_per_distinct_known_pool() {
    let calls = vec![
        KnownCall { address: vec![0x01], pool_known: true },
        KnownCall { address: vec![0x02], pool_known: false },
        KnownCall { address: vec![0x03], pool_known: true },
        KnownCall { address: vec![0x01], pool_known: true },
    ];
    let pools = unique_pools(&calls);
    assert_eq!(pools, vec![vec![0x01], vec![0x03]]);
    let deltas = vec![delta("ABT2:0x03".to_string(), "1", "4")];
    let answers = vec![vec![answer(5), answer(6)], vec![failed(), answer(1)]];
    let r = map_fees_entity(&block(), &calls, &answers, &deltas);
    assert_eq!(r.entity_changes.len(), 2);
    let c = &r.entity_changes[1];
    assert_eq!(c.entity, "Fees");
    assert_eq!(c.id, "0x03-17");
    assert_eq!(c.ordinal, 0);
    assert_eq!(c.operation, Operation::Update);
    let names: Vec<&str> = c.fields.iter().map(|f| f.name.as_str()).collect();
    assert_eq!(names, vec!["id", "pool", "fee", "adminFee", "adminBalances", "blockNumber", "timestamp"]);
    assert_eq!(text_of(field(c, "id")), "0x03-17");
    assert_eq!(text_of(field(c, "pool")), "0x03");
    assert!(matches!(field(c, "fee"), FieldValue::BigInt(s) if s == "0"));
    assert_eq!(text_of(field(c, "adminFee")), "1");
    assert!(matches!(field(c, "adminBalances"), FieldValue::BigIntArray(a) if a == &vec!["0", "0", "3", "0"]));
    assert_eq!(text_of(field(c, "blockNumber")), "17");
    assert_eq!(text_of(field(c, "timestamp")), "1600000000");
    assert_eq!(text_of(field(&r.entity_changes[0], "fee")), "5");
}

#[test]
fn graph_out_passes_changes_through() {
    let mut a = EntityChange::new("Fees", "x", 0, Operation::Update);
    a.change("pool", FieldValue::String("0x01".to_string()));
    let b = EntityChange::new("Fees", "y", 3, Operation::Create);
    let out = graph_out(EntityChanges { entity_changes: vec![a, b] });
    assert_eq!(out.entity_changes.len(), 2);
    assert_eq!(out.entity_changes[0].id, "x");
    assert_eq!(out.entity_changes[0].fields.len(), 1);
    assert_eq!(out.entity_changes[1].id, "y");
    assert_eq!(out.entity_changes[1].ordinal, 3);
    assert!(graph_out(EntityChanges { entity_changes: vec![] }).entity_changes.is_empty());
}

#[test]
fn fee_answers_fit_only_below_two_to_the_sixty_four() {
    let mut small = vec![0u8; 32];
    small[31] = 9;
    assert!(answer_fits_u64(&RpcResponse { raw: small, failed: false }));
    let mut max = vec![0u8; 32];
    for b in max[24..32].iter_mut() {
        *b = 255;
    }
    assert!(answer_fits_u64(&RpcResponse { raw: max, failed: false }));
    let mut big = vec![0u8; 32];
    big[23] = 1;
    assert!(!answer_fits_u64(&RpcResponse { raw: big.clone(), failed: false }));
    assert!(answer_fits_u64(&RpcResponse { raw: big, failed: true }));
    assert!(answer_fits_u64(&RpcResponse { raw: vec![1; 5], failed: false }));
}

#[test]
fn balance_writes_of_two_pools_never_share_a_key() {
    let calls = vec![
        BalanceCall { address: vec![0x0a], end_ordinal: 1, pool_known: true, balance_responses: vec![answer(1), answer(2), answer(3), answer(4)] },
        BalanceCall { address: vec![0x0a, 0x00], end_ordinal: 2, pool_known: true, balance_responses: vec![answer(5), answer(6), answer(7), answer(8)] },
    ];
    let writes = store_pool_admin_balances(&calls);
    assert_eq!(writes.len(), 10);
    for i in 0..writes.len() {
        for j in (i + 1)..writes.len() {
            assert_ne!(writes[i].key, writes[j].key);
        }
    }
}

#[test]
fn fees_rows_of_a_block_are_distinct() {
    let calls = vec![
        KnownCall { address: vec![0x01], pool_known: true },
        KnownCall { address: vec![0x01, 0x00], pool_known: true },
        KnownCall { address: vec![0x10], pool_known: true },
    ];
    let answers = vec![vec![answer(1), answer(1)], vec![answer(1), answer(1)], vec![answer(1), answer(1)]];
    let r = map_fees_entity(&block(), &calls, &answers, &vec![]);
    let ids: Vec<&str> = r.entity_changes.iter().map(|c| c.id.as_str()).collect();
    assert_eq!(ids, vec!["0x01-17", "0x0100-17", "0x10-17"]);
}
