use defi_substreams::eth::{bytes_eq, decode_address_response, decode_uint_response, BlockHeader, Log, RpcResponse, Timestamp, Transfer};

fn transfer_topic() -> Vec<u8> {
    vec![
        221, 242, 82, 173, 27, 226, 200, 155, 105, 194, 176, 104, 252, 55, 141, 170, 149, 43, 167,
        241, 99, 196, 161, 22, 40, 245, 90, 77, 245, 35, 179, 239,
    ]
}

fn word_of_address(a: u8) -> Vec<u8> {
    let mut w = vec![0u8; 32];
    for b in w[12..32].iter_mut() {
        *b = a;
    }
    w
}

fn log_with(topics: Vec<Vec<u8>>, data: Vec<u8>) -> Log {
    Log { address: vec![9; 20], topics, data, index: 0, block_index: 0, ordinal: 0 }
}

#[test]
fn failed_answers_do_not_decode() {
    let resp = RpcResponse { raw: vec![0; 32], failed: true };
    assert!(decode_uint_response(&resp).is_none());
}

#[test]
fn short_answers_do_not_decode() {
    let resp = RpcResponse { raw: vec![1; 31], failed: false };
    assert!(decode_uint_response(&resp).is_none());
    let empty = RpcResponse { raw: vec![], failed: false };
    assert!(decode_uint_response(&empty).is_none());
}

#[test]
fn answers_decode_from_their_first_word() {
    let mut raw = vec![0u8; 64];
    raw[30] = 1;
    raw[31] = 2;
    raw[63] = 9;
    let v = decode_uint_response(&RpcResponse { raw, failed: false }).unwrap();
    assert_eq!(v.to_decimal_string(), "258");
}

#[test]
fn transfer_logs_decode() {
    let mut data = vec![0u8; 32];
    data[31] = 100;
    let log = log_with(vec![transfer_topic(), word_of_address(0), word_of_address(7)], data);
    assert!(Transfer::match_log(&log));
    let t = Transfer::match_and_decode(&log).unwrap();
    assert_eq!(t.from, vec![0u8; 20]);
    assert_eq!(t.to, vec![7u8; 20]);
    assert_eq!(t.quantity.to_decimal_string(), "100");
}

#[test]
fn other_logs_are_not_transfers() {
    let mut other = transfer_topic();
    other[0] = 0;
    let wrong_topic = log_with(vec![other, word_of_address(0), word_of_address(7)], vec![0; 32]);
    assert!(Transfer::match_and_decode(&wrong_topic).is_none());
    let wrong_data = log_with(vec![transfer_topic(), word_of_address(0), word_of_address(7)], vec![0; 64]);
    assert!(!Transfer::match_log(&wrong_data));
    let two_topics = log_with(vec![transfer_topic(), word_of_address(0)], vec![0; 32]);
    assert!(Transfer::match_and_decode(&two_topics).is_none());
}

#[test]
fn transfers_with_short_topics_match_but_do_not_decode() {
    let log = log_with(vec![transfer_topic(), vec![0; 31], word_of_address(7)], vec![0; 32]);
    assert!(Transfer::match_log(&log));
    assert!(Transfer::match_and_decode(&log).is_none());
}

#[test]
fn byte_strings_compare_by_content() {
    assert!(bytes_eq(&[1, 2, 3], &[1, 2, 3]));
    assert!(!bytes_eq(&[1, 2, 3], &[1, 2]));
    assert!(!bytes_eq(&[1, 2, 3], &[1, 2, 4]));
    assert!(bytes_eq(&[], &[]));
}

#[test]
fn timestamp_seconds_of_a_header() {
    let b = BlockHeader { number: 5, timestamp: Timestamp { seconds: 1_700_000_000, nanos: 3 } };
    assert_eq!(b.timestamp_seconds(), 1_700_000_000);
    let before_epoch = BlockHeader { number: 5, timestamp: Timestamp { seconds: -1, nanos: 0 } };
    assert_eq!(before_epoch.timestamp_seconds(), u64::MAX);
}

#[test]
fn address_answers_are_the_last_twenty_bytes_of_the_first_word() {
    let mut raw = word_of_address(7);
    raw.extend(vec![5u8; 32]);
    let resp = RpcResponse { raw, failed: false };
    assert_eq!(decode_address_response(&resp), Some(vec![7u8; 20]));
    let failed = RpcResponse { raw: word_of_address(7), failed: true };
    assert_eq!(decode_address_response(&failed), None);
    let short = RpcResponse { raw: vec![7u8; 31], failed: false };
    assert_eq!(decode_address_response(&short), None);
}
