use carmine_api::sync::{commit_block, determine_range, GapWalk, RangeWalk};
use carmine_api::types::{DbBlock, OptionVolatility, OraclePrice, PoolState};

fn header() -> DbBlock {
    DbBlock {
        block_number: 500,
        timestamp: 1_700_000_000,
    }
}

fn pool_states() -> Vec<PoolState> {
    vec![PoolState {
        unlocked_cap: "0x1".to_string(),
        locked_cap: "0x2".to_string(),
        lp_balance: "0x3".to_string(),
        pool_position: "0x4".to_string(),
        lp_token_value: "0x0".to_string(),
        block_number: 500,
        lp_address: "0x5".to_string(),
    }]
}

fn volatilities() -> Vec<OptionVolatility> {
    vec![OptionVolatility {
        option_address: "0x6".to_string(),
        block_number: 500,
        volatility: "0x7".to_string(),
    }]
}

fn price() -> OraclePrice {
    OraclePrice {
        token_pair: "eth-usdc".to_string(),
        price: "0x8".to_string(),
        block_number: 500,
    }
}

#[test]
fn commit_requires_every_piece() {
    let full = commit_block(
        Some(header()),
        Some(pool_states()),
        Some(volatilities()),
        Some(price()),
    );
    let data = full.unwrap();
    assert_eq!(data.header, header());
    assert_eq!(data.pool_states, pool_states());
    assert_eq!(data.volatilities, volatilities());
    assert_eq!(data.oracle_price.price, "0x8");

    assert!(commit_block(None, Some(pool_states()), Some(volatilities()), Some(price())).is_none());
    assert!(commit_block(Some(header()), None, Some(volatilities()), Some(price())).is_none());
    assert!(commit_block(Some(header()), Some(pool_states()), None, Some(price())).is_none());
    assert!(commit_block(Some(header()), Some(pool_states()), Some(volatilities()), None).is_none());
}

#[test]
fn range_starts_past_the_watermark() {
    assert_eq!(determine_range(99, 150), Some((100, 150)));
}

#[test]
fn no_range_when_caught_up() {
    assert_eq!(determine_range(149, 150), None);
    assert_eq!(determine_range(150, 150), None);
    assert_eq!(determine_range(200, 150), None);
}

#[test]
fn walk_advances_only_on_success() {
    let mut walk = RangeWalk::new(100, 102, 1, 10);
    assert_eq!(walk.current(), Some(100));
    let backoff = walk.record_failure();
    assert_eq!(backoff, 10);
    // the failed block is re-targeted
    assert_eq!(walk.current(), Some(100));
    walk.record_success();
    assert_eq!(walk.current(), Some(101));
    walk.record_success();
    assert_eq!(walk.current(), Some(102));
    walk.record_success();
    assert_eq!(walk.current(), None);
}

#[test]
fn walk_honours_the_step() {
    let mut walk = RangeWalk::new(10, 15, 5, 3);
    walk.record_success();
    assert_eq!(walk.current(), Some(15));
    walk.record_success();
    assert_eq!(walk.current(), None);
}

#[test]
fn gap_walk_retries_then_moves_through_the_list() {
    let mut walk = GapWalk::new(vec![7, 3, 11], 4);
    assert_eq!(walk.current(), Some(7));
    assert_eq!(walk.record_failure(), 4);
    assert_eq!(walk.current(), Some(7));
    walk.record_success();
    assert_eq!(walk.current(), Some(3));
    walk.record_success();
    assert_eq!(walk.current(), Some(11));
    walk.record_success();
    assert_eq!(walk.current(), None);
}
