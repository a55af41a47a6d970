use carmine_api::cache::Cache;
use carmine_api::types::{Event, IOption};
use carmine_api::Network;

const CALL_POOL: &str = "0xcallpool";
const PUT_POOL: &str = "0xputpool";

fn event(timestamp: i64, action: &str, token_address: &str) -> Event {
    Event {
        timestamp,
        action: action.to_string(),
        caller: "0xcaller".to_string(),
        token_address: token_address.to_string(),
        capital_transfered: "0x64".to_string(),
        tokens_minted: "0x32".to_string(),
    }
}

fn option_at(address: &str) -> IOption {
    IOption {
        option_side: 0,
        maturity: 999,
        strike_price: "0x64".to_string(),
        quote_token_address: "0x1".to_string(),
        base_token_address: "0x2".to_string(),
        option_type: 0,
        option_address: address.to_string(),
        lp_address: CALL_POOL.to_string(),
    }
}

fn record(tag: &str, expiry: &str) -> Vec<String> {
    vec![
        tag.to_string(),
        expiry.to_string(),
        "1".to_string(),
        "2".to_string(),
        "3".to_string(),
        "4".to_string(),
        "5".to_string(),
    ]
}

fn fresh_cache(roster: &Vec<String>, now: u64) -> Cache {
    Cache::new(
        Network::Mainnet,
        CALL_POOL.to_string(),
        PUT_POOL.to_string(),
        vec![event(2, "TradeClose", "0xopt"), event(1, "TradeOpen", "0xopt")],
        vec![option_at("0xopt")],
        roster,
        now,
    )
}

#[test]
fn new_cache_derives_history_and_prunes_roster() {
    let mut roster = record("1", "2000");
    roster.extend(record("2", "500"));
    let cache = fresh_cache(&roster, 1000);
    // the expired record is dropped right away
    assert_eq!(cache.get_all_non_expired(), record("1", "2000"));
    let history = cache.get_trade_history();
    assert_eq!(history.len(), 2);
    assert_eq!(history[0].timestamp, 1);
    assert_eq!(history[1].timestamp, 2);
    assert_eq!(history[0].option.as_ref().map(|o| o.maturity), Some(999));
}

#[test]
fn new_cache_rejects_malformed_roster() {
    let roster: Vec<String> = (0..10).map(|i| i.to_string()).collect();
    let cache = fresh_cache(&roster, 1000);
    assert!(cache.get_all_non_expired().is_empty());
}

#[test]
fn roster_refresh_is_a_no_op_on_malformed_fetch() {
    let roster = record("1", "2000");
    let mut cache = fresh_cache(&roster, 1000);
    let malformed: Vec<String> = (0..10).map(|i| i.to_string()).collect();
    cache.update_all_non_expired(&malformed, 1000);
    assert_eq!(cache.get_all_non_expired(), record("1", "2000"));
}

#[test]
fn roster_refresh_merges_and_prunes() {
    let roster = record("1", "2000");
    let mut cache = fresh_cache(&roster, 1000);
    let mut fetched = record("1", "2000");
    fetched.extend(record("2", "3000"));
    cache.update_all_non_expired(&fetched, 2500);
    // the new record is kept, the now-expired old one dropped
    assert_eq!(cache.get_all_non_expired(), record("2", "3000"));
}

#[test]
fn event_refresh_feeds_the_next_history_derivation() {
    let roster = record("1", "2000");
    let mut cache = fresh_cache(&roster, 1000);
    cache.update_events(vec![event(5, "TradeSettle", "0xopt"), event(4, "Upgrade", "0x9")]);
    // history is rederived only by its own refresh
    assert_eq!(cache.get_trade_history().len(), 2);
    cache.update_trade_history();
    let history = cache.get_trade_history();
    assert_eq!(history.len(), 1);
    assert_eq!(history[0].timestamp, 5);
}

#[test]
fn full_update_runs_history_last() {
    let roster = record("1", "2000");
    let mut cache = fresh_cache(&roster, 1000);
    let fetched = record("2", "3000");
    cache.update(
        vec![option_at("0xnew")],
        vec![event(7, "TradeOpen", "0xnew")],
        &fetched,
        1500,
    );
    let data = cache.get_app_data();
    let mut expected = record("1", "2000");
    expected.extend(record("2", "3000"));
    assert_eq!(data.all_non_expired, expected);
    assert_eq!(data.trade_history.len(), 1);
    assert_eq!(data.trade_history[0].timestamp, 7);
    assert_eq!(
        data.trade_history[0].option.as_ref().map(|o| o.option_address.clone()),
        Some("0xnew".to_string())
    );
}
