use carmine_api::chain::{
    block_header, combine_roster_partitions, complete_chunks, decode_option_record, first_felt,
    lptoken_addresses_from_result, format_call_result, option_address_from_result,
    option_info_from_pools, pool_state_from_calls, collect_pool_states, split_options_by_expiry,
    strip_length_prefix, volatilities_from_results,
};
use carmine_api::felt::Felt;
use carmine_api::types::IOption;

fn felts(values: &[u64]) -> Vec<Felt> {
    values.iter().map(|&v| Felt::from_u64(v)).collect()
}

fn option_with_maturity(address: &str, maturity: i64) -> IOption {
    IOption {
        option_side: 0,
        maturity,
        strike_price: "0x64".to_string(),
        quote_token_address: "0x1".to_string(),
        base_token_address: "0x2".to_string(),
        option_type: 0,
        option_address: address.to_string(),
        lp_address: "0x3".to_string(),
    }
}

#[test]
fn format_drops_the_length_prefix() {
    let raw = felts(&[3, 10, 255, 7]);
    let formatted = format_call_result(&raw);
    assert_eq!(formatted, vec!["10", "255", "7"]);
}

#[test]
fn format_of_empty_result_is_empty() {
    let raw: Vec<Felt> = Vec::new();
    assert!(format_call_result(&raw).is_empty());
}

#[test]
fn roster_concatenates_call_then_put() {
    let call = Some(felts(&[2, 11, 12]));
    let put = Some(felts(&[1, 21]));
    let combined = combine_roster_partitions(&call, &put).unwrap();
    assert_eq!(combined, vec!["11", "12", "21"]);
}

#[test]
fn one_failed_partition_fails_the_roster_fetch() {
    let call = Some(felts(&[2, 11, 12]));
    assert!(combine_roster_partitions(&call, &None).is_none());
    let put = Some(felts(&[1, 21]));
    assert!(combine_roster_partitions(&None, &put).is_none());
}

#[test]
fn lptoken_result_needs_prefix_and_one_address() {
    assert!(lptoken_addresses_from_result(&felts(&[0])).is_none());
    let two = lptoken_addresses_from_result(&felts(&[1, 42])).unwrap();
    assert_eq!(two, felts(&[42]));
}

#[test]
fn option_record_decodes_exactly() {
    let chunk = felts(&[1, 1696518000, 1700, 3, 4, 0]);
    let lp = Felt::from_u64(0xabc);
    let addr = "0xdef".to_string();
    let o = decode_option_record(&chunk, &addr, &lp).unwrap();
    assert_eq!(o.option_side, 1);
    assert_eq!(o.maturity, 1696518000);
    assert_eq!(o.strike_price, "0x6a4");
    assert_eq!(o.quote_token_address, "0x3");
    assert_eq!(o.base_token_address, "0x4");
    assert_eq!(o.option_type, 0);
    assert_eq!(o.option_address, "0xdef");
    assert_eq!(o.lp_address, "0xabc");
}

#[test]
fn wrong_width_or_oversized_fields_are_rejected() {
    let lp = Felt::from_u64(1);
    let addr = "0x1".to_string();
    assert!(decode_option_record(&felts(&[1, 2, 3, 4, 5]), &addr, &lp).is_none());
    // side too large for its column
    assert!(decode_option_record(&felts(&[40000, 2, 3, 4, 5, 0]), &addr, &lp).is_none());
    // maturity too large for its column
    let big = Felt { l0: 0, l1: 1, l2: 0, l3: 0 };
    let chunk = vec![
        Felt::from_u64(0),
        big,
        Felt::from_u64(3),
        Felt::from_u64(4),
        Felt::from_u64(5),
        Felt::from_u64(0),
    ];
    assert!(decode_option_record(&chunk, &addr, &lp).is_none());
}

#[test]
fn option_info_prefers_the_call_pool_and_skips_malformed_answers() {
    let call_lp = Felt::from_u64(0xca);
    let put_lp = Felt::from_u64(0xb0);
    let addr = "0x123".to_string();
    let good = Some(felts(&[0, 100, 1, 2, 3, 1]));
    let malformed = Some(felts(&[0, 100, 1]));

    let from_call = option_info_from_pools(&good, &None, &call_lp, &put_lp, &addr).unwrap();
    assert_eq!(from_call.lp_address, "0xca");
    assert_eq!(from_call.option_address, "0x123");

    // a malformed call-pool answer is skipped in favour of the put pool
    let from_put = option_info_from_pools(&malformed, &good, &call_lp, &put_lp, &addr).unwrap();
    assert_eq!(from_put.lp_address, "0xb0");

    assert!(option_info_from_pools(&None, &malformed, &call_lp, &put_lp, &addr).is_none());
    assert!(option_info_from_pools(&None, &None, &call_lp, &put_lp, &addr).is_none());
}

#[test]
fn prefix_stripping_keeps_packed_fields() {
    assert_eq!(strip_length_prefix(&felts(&[2, 5, 6])), felts(&[5, 6]));
    assert!(strip_length_prefix(&Vec::new()).is_empty());
    assert!(strip_length_prefix(&felts(&[0])).is_empty());
}

#[test]
fn chunking_drops_a_trailing_partial_record() {
    let data = felts(&[1, 2, 3, 4, 5, 6, 7, 8]);
    let chunks = complete_chunks(&data);
    assert_eq!(chunks.len(), 1);
    assert_eq!(chunks[0], felts(&[1, 2, 3, 4, 5, 6]));
}

#[test]
fn first_felt_and_address_extraction() {
    assert!(first_felt(&Vec::new()).is_none());
    assert_eq!(first_felt(&felts(&[9, 8])), Some(Felt::from_u64(9)));
    assert_eq!(
        option_address_from_result(&felts(&[0xbeef])),
        Some("0xbeef".to_string())
    );
    assert!(option_address_from_result(&Vec::new()).is_none());
}

#[test]
fn pool_state_assembles_all_four_calls() {
    let locked = Some(felts(&[100]));
    let unlocked = Some(felts(&[200]));
    let balance = Some(felts(&[300]));
    let position = Some(felts(&[400]));
    let pool = Felt::from_u64(0x77);
    let ps = pool_state_from_calls(&locked, &unlocked, &balance, &position, &pool, 42).unwrap();
    assert_eq!(ps.locked_cap, "0x64");
    assert_eq!(ps.unlocked_cap, "0xc8");
    assert_eq!(ps.lp_balance, "0x12c");
    assert_eq!(ps.pool_position, "0x190");
    assert_eq!(ps.lp_token_value, "0x0");
    assert_eq!(ps.lp_address, "0x77");
    assert_eq!(ps.block_number, 42);
}

#[test]
fn pool_state_fails_on_any_missing_or_empty_call() {
    let good = Some(felts(&[1]));
    let empty: Option<Vec<Felt>> = Some(Vec::new());
    let pool = Felt::from_u64(1);
    assert!(pool_state_from_calls(&None, &good, &good, &good, &pool, 1).is_none());
    assert!(pool_state_from_calls(&good, &empty, &good, &good, &pool, 1).is_none());
}

#[test]
fn block_pool_snapshot_is_all_or_nothing() {
    let locked = Some(felts(&[1]));
    let pool = Felt::from_u64(1);
    let one = pool_state_from_calls(&locked, &locked, &locked, &locked, &pool, 7);
    let all = collect_pool_states(&vec![one.clone(), one.clone()]).unwrap();
    assert_eq!(all.len(), 2);
    assert!(collect_pool_states(&vec![one, None]).is_none());
}

#[test]
fn expiry_split_follows_the_block_timestamp() {
    let options = vec![
        option_with_maturity("0xa", 100),
        option_with_maturity("0xb", 300),
        option_with_maturity("0xc", 200),
    ];
    let (expired, live) = split_options_by_expiry(&options, 200);
    assert_eq!(expired.len(), 2);
    assert_eq!(expired[0].option_address, "0xa");
    assert_eq!(expired[1].option_address, "0xc");
    assert_eq!(live.len(), 1);
    assert_eq!(live[0].option_address, "0xb");
}

#[test]
fn volatilities_zero_expired_and_decode_live() {
    let expired = vec![option_with_maturity("0xa", 100)];
    let live = vec![option_with_maturity("0xb", 300)];
    let results = vec![Some(Felt::from_u64(0x5f))];
    let vols = volatilities_from_results(&expired, &live, &results, 9).unwrap();
    assert_eq!(vols.len(), 2);
    assert_eq!(vols[0].option_address, "0xa");
    assert_eq!(vols[0].volatility, "0x0");
    assert_eq!(vols[0].block_number, 9);
    assert_eq!(vols[1].option_address, "0xb");
    assert_eq!(vols[1].volatility, "0x5f");
}

#[test]
fn one_failed_volatility_call_fails_the_block() {
    let expired = vec![option_with_maturity("0xa", 100)];
    let live = vec![
        option_with_maturity("0xb", 300),
        option_with_maturity("0xc", 300),
    ];
    let results = vec![Some(Felt::from_u64(0x5f)), None];
    assert!(volatilities_from_results(&expired, &live, &results, 9).is_none());
}

#[test]
fn block_header_checks_the_signed_columns() {
    let b = block_header(123, 456).unwrap();
    assert_eq!(b.block_number, 123);
    assert_eq!(b.timestamp, 456);
    assert!(block_header(u64::MAX, 456).is_none());
    assert!(block_header(123, u64::MAX).is_none());
}
