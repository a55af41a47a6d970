use carmine_api::trade::generate_trade_history;
use carmine_api::types::{Event, IOption};

const CALL_POOL: &str = "0x7aba50fdb4e024c1ba63e2c60565d0fd32566ff4b18aa5818fc80c92d9a74";
const PUT_POOL: &str = "0x18a6abca394bd5f822cfa5f88783c01b13e593d1603e7b41b00d31d2ea4827a";

fn event(timestamp: i64, action: &str, token_address: &str) -> Event {
    Event {
        timestamp,
        action: action.to_string(),
        caller: "0xcaller".to_string(),
        token_address: token_address.to_string(),
        capital_transfered: "0x64".to_string(),
        tokens_minted: "0x32".to_string(),
    }
}

fn option_at(address: &str, maturity: i64) -> IOption {
    IOption {
        option_side: 0,
        maturity,
        strike_price: "0x6400000000000000000".to_string(),
        quote_token_address: "0xquote".to_string(),
        base_token_address: "0xbase".to_string(),
        option_type: 1,
        option_address: address.to_string(),
        lp_address: CALL_POOL.to_string(),
    }
}

fn addrs() -> (String, String) {
    (CALL_POOL.to_string(), PUT_POOL.to_string())
}

#[test]
fn ignores_unknown_actions_and_sorts_by_timestamp() {
    // three events, one outside the allow-list, out of order
    let events = vec![
        event(1, "TradeOpen", "0xaaa"),
        event(3, "Upgrade", "0xbbb"),
        event(2, "TradeClose", "0xccc"),
    ];
    let options: Vec<IOption> = Vec::new();
    let (call, put) = addrs();
    let history = generate_trade_history(&events, &options, &call, &put);
    assert_eq!(history.len(), 2);
    assert_eq!(history[0].timestamp, 1);
    assert_eq!(history[0].action, "TradeOpen");
    assert_eq!(history[1].timestamp, 2);
    assert_eq!(history[1].action, "TradeClose");
}

#[test]
fn all_allow_listed_actions_pass() {
    let events = vec![
        event(5, "TradeSettle", "0xaaa"),
        event(4, "DepositLiquidity", "0xbbb"),
        event(3, "WithdrawLiquidity", "0xccc"),
        event(2, "ExpireOptionTokenForPool", "0xddd"),
    ];
    let options: Vec<IOption> = Vec::new();
    let (call, put) = addrs();
    let history = generate_trade_history(&events, &options, &call, &put);
    assert_eq!(history.len(), 3);
    assert_eq!(history[0].action, "WithdrawLiquidity");
    assert_eq!(history[1].action, "DepositLiquidity");
    assert_eq!(history[2].action, "TradeSettle");
}

#[test]
fn deposit_to_call_pool_is_labeled_call() {
    let events = vec![event(1, "DepositLiquidity", CALL_POOL)];
    let options: Vec<IOption> = Vec::new();
    let (call, put) = addrs();
    let history = generate_trade_history(&events, &options, &call, &put);
    assert_eq!(history[0].liquidity_pool, Some("Call".to_string()));
}

#[test]
fn withdraw_from_put_pool_is_labeled_put() {
    let events = vec![event(1, "WithdrawLiquidity", PUT_POOL)];
    let options: Vec<IOption> = Vec::new();
    let (call, put) = addrs();
    let history = generate_trade_history(&events, &options, &call, &put);
    assert_eq!(history[0].liquidity_pool, Some("Put".to_string()));
}

#[test]
fn other_token_address_gets_no_label() {
    let events = vec![
        event(1, "DepositLiquidity", "0xsomewhere"),
        event(2, "TradeOpen", CALL_POOL),
    ];
    let options: Vec<IOption> = Vec::new();
    let (call, put) = addrs();
    let history = generate_trade_history(&events, &options, &call, &put);
    assert_eq!(history[0].liquidity_pool, None);
    // a trade on the pool address is not a deposit/withdraw, so no label
    assert_eq!(history[1].liquidity_pool, None);
}

#[test]
fn joins_event_to_known_option() {
    let events = vec![event(1, "TradeOpen", "0xopt1"), event(2, "TradeOpen", "0xother")];
    let options = vec![option_at("0xopt1", 1000)];
    let (call, put) = addrs();
    let history = generate_trade_history(&events, &options, &call, &put);
    assert_eq!(
        history[0].option.as_ref().map(|o| o.maturity),
        Some(1000)
    );
    // an address absent from the option map is tolerated, not an error
    assert!(history[1].option.is_none());
}

#[test]
fn later_option_with_same_address_shadows_earlier() {
    let events = vec![event(1, "TradeOpen", "0xopt1")];
    let options = vec![option_at("0xopt1", 1000), option_at("0xopt1", 2000)];
    let (call, put) = addrs();
    let history = generate_trade_history(&events, &options, &call, &put);
    assert_eq!(history[0].option.as_ref().map(|o| o.maturity), Some(2000));
}

#[test]
fn repeated_derivation_is_identical() {
    let events = vec![
        event(9, "TradeOpen", "0xopt1"),
        event(2, "DepositLiquidity", PUT_POOL),
        event(9, "TradeClose", "0xopt1"),
        event(1, "Upgrade", "0xzzz"),
    ];
    let options = vec![option_at("0xopt1", 555)];
    let (call, put) = addrs();
    let first = generate_trade_history(&events, &options, &call, &put);
    let second = generate_trade_history(&events, &options, &call, &put);
    assert_eq!(first, second);
    // equal timestamps keep their event order (stable sort)
    assert_eq!(first[1].action, "TradeOpen");
    assert_eq!(first[2].action, "TradeClose");
}
