use carmine_api::digits::parse_dec_u64;
use carmine_api::felt::{felt_from_hex, felt_to_dec, felt_to_hex, Felt};

#[test]
fn dec_of_zero() {
    let f = Felt::from_u64(0);
    assert_eq!(felt_to_dec(&f), "0");
}

#[test]
fn dec_of_small_value() {
    let f = Felt::from_u64(123456789);
    assert_eq!(felt_to_dec(&f), "123456789");
}

#[test]
fn dec_of_one_limb_carry() {
    // 2^64
    let f = Felt {
        l0: 0,
        l1: 1,
        l2: 0,
        l3: 0,
    };
    assert_eq!(felt_to_dec(&f), "18446744073709551616");
}

#[test]
fn dec_of_top_limb() {
    // 2^192 + 5
    let f = Felt {
        l0: 5,
        l1: 0,
        l2: 0,
        l3: 1,
    };
    assert_eq!(
        felt_to_dec(&f),
        "6277101735386680763835789423207666416102355444464034512901"
    );
}

#[test]
fn hex_of_zero() {
    let f = Felt::from_u64(0);
    assert_eq!(felt_to_hex(&f), "0x0");
}

#[test]
fn hex_uses_lower_case_without_leading_zeros() {
    let f = Felt::from_u64(0xdeadbeef);
    assert_eq!(felt_to_hex(&f), "0xdeadbeef");
    let g = Felt::from_u64(15);
    assert_eq!(felt_to_hex(&g), "0xf");
}

#[test]
fn hex_of_multi_limb_value() {
    // 2^128 + 0xff
    let f = Felt {
        l0: 0xff,
        l1: 0,
        l2: 1,
        l3: 0,
    };
    assert_eq!(felt_to_hex(&f), "0x1000000000000000000000000000000ff");
}

#[test]
fn to_u64_round_trip_and_overflow() {
    let f = Felt::from_u64(77);
    assert_eq!(f.to_u64(), Some(77));
    let g = Felt {
        l0: 3,
        l1: 2,
        l2: 0,
        l3: 0,
    };
    assert_eq!(g.to_u64(), None);
}

#[test]
fn hex_parse_accepts_both_letter_cases() {
    assert_eq!(felt_from_hex("0x0"), Some(Felt::from_u64(0)));
    assert_eq!(felt_from_hex("0xDeadBeef"), Some(Felt::from_u64(0xdeadbeef)));
    assert_eq!(felt_from_hex("0x00ff"), Some(Felt::from_u64(0xff)));
    assert_eq!(
        felt_from_hex("0x10000000000000000"),
        Some(Felt {
            l0: 0,
            l1: 1,
            l2: 0,
            l3: 0
        })
    );
}

#[test]
fn hex_parse_rejects_malformed_literals() {
    assert_eq!(felt_from_hex(""), None);
    assert_eq!(felt_from_hex("0x"), None);
    assert_eq!(felt_from_hex("ff"), None);
    assert_eq!(felt_from_hex("0xg1"), None);
    assert_eq!(felt_from_hex("1x23"), None);
    // 2^256 needs a 65th significant digit
    let too_big = format!("0x1{}", "0".repeat(64));
    assert_eq!(felt_from_hex(&too_big), None);
    let max = format!("0x{}", "f".repeat(64));
    assert_eq!(
        felt_from_hex(&max),
        Some(Felt {
            l0: u64::MAX,
            l1: u64::MAX,
            l2: u64::MAX,
            l3: u64::MAX
        })
    );
}

#[test]
fn hex_rendering_parses_back() {
    let samples = [
        Felt::from_u64(0),
        Felt::from_u64(0xdeadbeef),
        Felt {
            l0: 5,
            l1: 0,
            l2: 7,
            l3: 1,
        },
    ];
    for f in samples {
        assert_eq!(felt_from_hex(&felt_to_hex(&f)), Some(f));
    }
}

#[test]
fn parse_rejects_empty_and_non_digits() {
    assert_eq!(parse_dec_u64(""), None);
    assert_eq!(parse_dec_u64("12a"), None);
    assert_eq!(parse_dec_u64("-5"), None);
    assert_eq!(parse_dec_u64(" 5"), None);
}

#[test]
fn parse_accepts_digits_and_leading_zeros() {
    assert_eq!(parse_dec_u64("0"), Some(0));
    assert_eq!(parse_dec_u64("007"), Some(7));
    assert_eq!(parse_dec_u64("1696518000"), Some(1696518000));
}

#[test]
fn parse_handles_the_u64_boundary() {
    assert_eq!(parse_dec_u64("18446744073709551615"), Some(u64::MAX));
    assert_eq!(parse_dec_u64("18446744073709551616"), None);
}
