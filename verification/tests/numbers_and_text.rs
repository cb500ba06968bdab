use defi_substreams::bigint::{u64_to_decimal, BigInteger};
use defi_substreams::curve::store_key::StoreKey;
use defi_substreams::text::to_hex;

fn integer(s: &str) -> BigInteger {
    BigInteger::parse(s).expect("integer text")
}

fn text(x: &BigInteger) -> String {
    x.to_decimal_string()
}

#[test]
fn unique_ids_of_every_kind() {
    assert_eq!(StoreKey::Pool.unique_id(), "Pool");
    assert_eq!(StoreKey::AdminBalanceToken0.unique_id(), "ABT0");
    assert_eq!(StoreKey::AdminBalanceToken1.unique_id(), "ABT1");
    assert_eq!(StoreKey::AdminBalanceToken2.unique_id(), "ABT2");
    assert_eq!(StoreKey::AdminBalanceToken3.unique_id(), "ABT3");
}

#[test]
fn unique_keys_join_id_and_key_with_a_colon() {
    assert_eq!(StoreKey::Pool.get_unique_key("0xabc"), "Pool:0xabc");
    assert_eq!(StoreKey::AdminBalanceToken2.get_unique_key("0x01"), "ABT2:0x01");
    assert_eq!(StoreKey::AdminBalanceToken0.get_unique_key(""), "ABT0:");
}

#[test]
fn unique_keys_of_distinct_kinds_differ() {
    let a = StoreKey::AdminBalanceToken0.get_unique_key("0xab");
    let b = StoreKey::AdminBalanceToken1.get_unique_key("0xab");
    let c = StoreKey::AdminBalanceToken0.get_unique_key("0xac");
    assert_ne!(a, b);
    assert_ne!(a, c);
}

#[test]
fn hex_text_is_prefixed_and_lowercase() {
    assert_eq!(to_hex(&[]), "0x");
    assert_eq!(to_hex(&[0xde, 0xad, 0xBE, 0x0f]), "0xdeadbe0f");
    assert_eq!(to_hex(&[0, 1, 255]), "0x0001ff");
}

#[test]
fn decimal_text_of_u64() {
    assert_eq!(u64_to_decimal(0), "0");
    assert_eq!(u64_to_decimal(7), "7");
    assert_eq!(u64_to_decimal(1_000_000), "1000000");
    assert_eq!(u64_to_decimal(u64::MAX), "18446744073709551615");
}

#[test]
fn parse_accepts_signs_underscores_and_leading_zeros() {
    assert_eq!(text(&integer("123")), "123");
    assert_eq!(text(&integer("-45")), "-45");
    assert_eq!(text(&integer("+7")), "7");
    assert_eq!(text(&integer("1_000")), "1000");
    assert_eq!(text(&integer("007")), "7");
    assert_eq!(text(&integer("-0")), "0");
    assert_eq!(text(&integer("0")), "0");
    assert_eq!(text(&integer("5_")), "5");
}

#[test]
fn parse_rejects_what_is_not_an_integer() {
    for s in ["", "-", "+", "_1", "-_1", "1a", "+-1", "-+1", "--1", "++1", " 1", "1 ", "0x10", "1.5"] {
        assert!(BigInteger::parse(s).is_none(), "accepted {:?}", s);
    }
}

#[test]
fn decimal_text_round_trips() {
    for s in ["0", "1", "-1", "9", "10", "-10", "340282366920938463463374607431768211456", "-99999999999999999999999"] {
        assert_eq!(text(&integer(s)), s);
        assert_eq!(text(&integer(&text(&integer(s)))), s);
    }
}

#[test]
fn subtraction_of_signed_integers() {
    let cases = [
        ("5", "3", "2"),
        ("3", "5", "-2"),
        ("-3", "5", "-8"),
        ("3", "-5", "8"),
        ("-3", "-5", "2"),
        ("-5", "-3", "-2"),
        ("0", "0", "0"),
        ("7", "7", "0"),
        ("1000", "1", "999"),
        ("340282366920938463463374607431768211456", "1", "340282366920938463463374607431768211455"),
        ("1", "100000000000000000000000000000000000000000", "-99999999999999999999999999999999999999999"),
    ];
    for (a, b, want) in cases {
        assert_eq!(text(&integer(a).sub(&integer(b))), want, "{} - {}", a, b);
    }
}

#[test]
fn sign_tests() {
    assert!(integer("-1").is_negative());
    assert!(!integer("0").is_negative());
    assert!(integer("0").is_zero());
    assert!(integer("-0").is_zero());
    assert!(integer("2").is_positive());
    assert!(!integer("-2").is_positive());
    assert!(!integer("0").is_positive());
    assert!(BigInteger::zero().is_zero());
    assert_eq!(text(&BigInteger::one()), "1");
}

#[test]
fn unsigned_big_endian_bytes() {
    assert_eq!(text(&BigInteger::from_unsigned_bytes_be(&[])), "0");
    assert_eq!(text(&BigInteger::from_unsigned_bytes_be(&[0, 0, 1, 0])), "256");
    assert_eq!(text(&BigInteger::from_unsigned_bytes_be(&[0xff; 8])), "18446744073709551615");
    let mut word = [0u8; 32];
    word[0] = 1;
    assert_eq!(
        text(&BigInteger::from_unsigned_bytes_be(&word)),
        "452312848583266388373324160190187140051835877600158453279131187530910662656"
    );
}

#[test]
fn conversions_to_u64() {
    assert_eq!(integer("0").to_u64(), 0);
    assert_eq!(integer("18446744073709551615").to_u64(), u64::MAX);
    assert_eq!(BigInteger::from_u64(123456789).to_u64(), 123456789);
    assert_eq!(text(&integer("42").duplicate()), "42");
}

#[test]
fn checked_conversion_to_u64_stops_at_the_range() {
    assert_eq!(integer("0").to_u64_checked(), Some(0));
    assert_eq!(integer("18446744073709551615").to_u64_checked(), Some(u64::MAX));
    assert_eq!(integer("18446744073709551616").to_u64_checked(), None);
    assert_eq!(integer("100000000000000000000").to_u64_checked(), None);
    assert_eq!(integer("-1").to_u64_checked(), None);
    assert_eq!(integer("42").to_u64_checked(), Some(42));
}
