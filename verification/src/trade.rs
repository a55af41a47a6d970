//! Trade-history derivation: a pure projection of the persisted event log
//! joined against the known option instruments, restricted to the fixed
//! allow-list of protocol actions, labeled with the liquidity pool for
//! deposits and withdrawals, and ordered ascending by timestamp.

use crate::types::{
    event_views, option_views, th_views, Event, EventV, IOption, IOptionV, TradeHistory,
    TradeHistoryV,
};
use vstd::prelude::*;
use vstd::string::StringExecFns;

verus! {

/// The fixed allow-list: only these protocol actions contribute to trade
/// history; protocol-internal maintenance events are ignored.
pub open spec fn allowed_action(a: Seq<char>) -> bool {
    a == "TradeOpen"@ || a == "TradeClose"@ || a == "TradeSettle"@ || a == "DepositLiquidity"@
        || a == "WithdrawLiquidity"@
}

/// The liquidity-pool label of an event: set only for deposit/withdraw
/// actions whose token address is one of the two configured pool addresses;
/// the put pool is checked first.
pub open spec fn spec_pool_label(
    action: Seq<char>,
    token: Seq<char>,
    call_addr: Seq<char>,
    put_addr: Seq<char>,
) -> Option<Seq<char>> {
    if (action == "DepositLiquidity"@ || action == "WithdrawLiquidity"@) && token == put_addr {
        Some("Put"@)
    } else if (action == "DepositLiquidity"@ || action == "WithdrawLiquidity"@) && token
        == call_addr {
        Some("Call"@)
    } else {
        None
    }
}

/// The option an event joins against: the last instrument whose address
/// equals the event's token address (later roster entries shadow earlier
/// ones, as insertion into the address-keyed map does).
pub open spec fn lookup_option(opts: Seq<IOptionV>, addr: Seq<char>) -> Option<IOptionV>
    decreases opts.len(),
{
    if opts.len() == 0 {
        None
    } else if opts.last().option_address == addr {
        Some(opts.last())
    } else {
        lookup_option(opts.drop_last(), addr)
    }
}

/// The trade-history entry derived from one event.
pub open spec fn spec_entry(
    e: EventV,
    opts: Seq<IOptionV>,
    call_addr: Seq<char>,
    put_addr: Seq<char>,
) -> TradeHistoryV {
    TradeHistoryV {
        timestamp: e.timestamp,
        action: e.action,
        caller: e.caller,
        capital_transfered: e.capital_transfered,
        tokens_minted: e.tokens_minted,
        option: lookup_option(opts, e.token_address),
        liquidity_pool: spec_pool_label(e.action, e.token_address, call_addr, put_addr),
    }
}

/// Entries of all allow-listed events, in event order, before sorting.
pub open spec fn spec_unsorted(
    events: Seq<EventV>,
    opts: Seq<IOptionV>,
    call_addr: Seq<char>,
    put_addr: Seq<char>,
) -> Seq<TradeHistoryV>
    decreases events.len(),
{
    if events.len() == 0 {
        Seq::empty()
    } else {
        spec_unsorted(events.drop_last(), opts, call_addr, put_addr) + (if allowed_action(
            events.last().action,
        ) {
            seq![spec_entry(events.last(), opts, call_addr, put_addr)]
        } else {
            Seq::empty()
        })
    }
}

/// Stable insertion into a timestamp-sorted sequence: the new entry goes
/// before the first entry with an equal or later timestamp.
pub open spec fn insert_by_ts(x: TradeHistoryV, s: Seq<TradeHistoryV>) -> Seq<TradeHistoryV>
    decreases s.len(),
{
    if s.len() == 0 {
        seq![x]
    } else if x.timestamp <= s[0].timestamp {
        seq![x] + s
    } else {
        seq![s[0]] + insert_by_ts(x, s.drop_first())
    }
}

/// Stable sort by ascending timestamp (insertion sort; events that compare
/// equal keep their relative order).
pub open spec fn sort_by_ts(s: Seq<TradeHistoryV>) -> Seq<TradeHistoryV>
    decreases s.len(),
{
    if s.len() == 0 {
        Seq::empty()
    } else {
        insert_by_ts(s[0], sort_by_ts(s.drop_first()))
    }
}

/// Ascending by timestamp.
pub open spec fn sorted_by_ts(s: Seq<TradeHistoryV>) -> bool {
    forall|i: int, j: int| 0 <= i <= j < s.len() ==> s[i].timestamp <= s[j].timestamp
}

/// The full derivation: a pure function of the event log, the option map and
/// the two configured pool addresses.
pub open spec fn spec_trade_history(
    events: Seq<EventV>,
    opts: Seq<IOptionV>,
    call_addr: Seq<char>,
    put_addr: Seq<char>,
) -> Seq<TradeHistoryV> {
    sort_by_ts(spec_unsorted(events, opts, call_addr, put_addr))
}

proof fn lemma_insert_by_ts_len(x: TradeHistoryV, s: Seq<TradeHistoryV>)
    ensures
        insert_by_ts(x, s).len() == s.len() + 1,
    decreases s.len(),
{
    if s.len() != 0 && x.timestamp > s[0].timestamp {
        lemma_insert_by_ts_len(x, s.drop_first());
    }
}

/// Every property that holds of the inserted entry and of every entry of the
/// sequence holds of every entry after insertion.
proof fn lemma_insert_by_ts_all(
    x: TradeHistoryV,
    s: Seq<TradeHistoryV>,
    p: spec_fn(TradeHistoryV) -> bool,
)
    requires
        p(x),
        forall|k: int| 0 <= k < s.len() ==> p(#[trigger] s[k]),
    ensures
        forall|k: int| 0 <= k < insert_by_ts(x, s).len() ==> p(#[trigger] insert_by_ts(x, s)[k]),
    decreases s.len(),
{
    if s.len() == 0 {
        assert(insert_by_ts(x, s) =~= seq![x]);
    } else if x.timestamp <= s[0].timestamp {
        let r = seq![x] + s;
        assert forall|k: int| 0 <= k < r.len() implies p(r[k]) by {
            if k > 0 {
                assert(r[k] == s[k - 1]);
            }
        }
    } else {
        assert(forall|k: int| 0 <= k < s.drop_first().len() ==> p(#[trigger] s.drop_first()[k]));
        lemma_insert_by_ts_all(x, s.drop_first(), p);
        let t = insert_by_ts(x, s.drop_first());
        let r = seq![s[0]] + t;
        assert forall|k: int| 0 <= k < r.len() implies p(r[k]) by {
            if k > 0 {
                assert(r[k] == t[k - 1]);
            }
        }
    }
}

proof fn lemma_insert_by_ts_sorted(x: TradeHistoryV, s: Seq<TradeHistoryV>)
    requires
        sorted_by_ts(s),
    ensures
        sorted_by_ts(insert_by_ts(x, s)),
    decreases s.len(),
{
    if s.len() == 0 {
    } else if x.timestamp <= s[0].timestamp {
    } else {
        assert(sorted_by_ts(s.drop_first()));
        lemma_insert_by_ts_sorted(x, s.drop_first());
        lemma_insert_by_ts_all(
            x,
            s.drop_first(),
            |y: TradeHistoryV| s[0].timestamp <= y.timestamp,
        );
        lemma_insert_by_ts_len(x, s.drop_first());
        let r = seq![s[0]] + insert_by_ts(x, s.drop_first());
        assert forall|i: int, j: int| 0 <= i <= j < r.len() implies r[i].timestamp
            <= r[j].timestamp by {
            if i > 0 {
                assert(r[i] == insert_by_ts(x, s.drop_first())[i - 1]);
            }
            if j > 0 {
                assert(r[j] == insert_by_ts(x, s.drop_first())[j - 1]);
            }
        }
    }
}

/// The sorted derivation is ascending by timestamp.
proof fn lemma_sort_by_ts_sorted(s: Seq<TradeHistoryV>)
    ensures
        sorted_by_ts(sort_by_ts(s)),
    decreases s.len(),
{
    if s.len() != 0 {
        lemma_sort_by_ts_sorted(s.drop_first());
        lemma_insert_by_ts_sorted(s[0], sort_by_ts(s.drop_first()));
    }
}

/// Every property that holds of every entry holds of every entry of the sort.
proof fn lemma_sort_by_ts_all(s: Seq<TradeHistoryV>, p: spec_fn(TradeHistoryV) -> bool)
    requires
        forall|k: int| 0 <= k < s.len() ==> p(#[trigger] s[k]),
    ensures
        forall|k: int| 0 <= k < sort_by_ts(s).len() ==> p(#[trigger] sort_by_ts(s)[k]),
    decreases s.len(),
{
    if s.len() != 0 {
        assert(forall|k: int| 0 <= k < s.drop_first().len() ==> p(#[trigger] s.drop_first()[k]));
        lemma_sort_by_ts_all(s.drop_first(), p);
        lemma_insert_by_ts_all(s[0], sort_by_ts(s.drop_first()), p);
    }
}

/// Every entry of the unsorted derivation comes from an allow-listed event.
proof fn lemma_unsorted_all_allowed(
    events: Seq<EventV>,
    opts: Seq<IOptionV>,
    call_addr: Seq<char>,
    put_addr: Seq<char>,
)
    ensures
        forall|k: int|
            0 <= k < spec_unsorted(events, opts, call_addr, put_addr).len() ==> allowed_action(
                #[trigger] spec_unsorted(events, opts, call_addr, put_addr)[k].action,
            ),
    decreases events.len(),
{
    if events.len() != 0 {
        lemma_unsorted_all_allowed(events.drop_last(), opts, call_addr, put_addr);
    }
}

/// Trade-history derivation is a pure function of its inputs: for fixed
/// events, options and pool addresses there is one derived view, so repeated
/// derivation yields identical output.
pub proof fn lemma_trade_history_pure(
    events: Seq<EventV>,
    opts: Seq<IOptionV>,
    call_addr: Seq<char>,
    put_addr: Seq<char>,
    r1: Seq<TradeHistoryV>,
    r2: Seq<TradeHistoryV>,
)
    requires
        r1 == spec_trade_history(events, opts, call_addr, put_addr),
        r2 == spec_trade_history(events, opts, call_addr, put_addr),
    ensures
        r1 == r2,
        sorted_by_ts(r1),
{
    lemma_sort_by_ts_sorted(spec_unsorted(events, opts, call_addr, put_addr));
}

/// Events whose action is outside the fixed allow-list never appear in the
/// trade-history output.
pub proof fn lemma_trade_history_only_allowed(
    events: Seq<EventV>,
    opts: Seq<IOptionV>,
    call_addr: Seq<char>,
    put_addr: Seq<char>,
)
    ensures
        forall|k: int|
            0 <= k < spec_trade_history(events, opts, call_addr, put_addr).len() ==> allowed_action(
                #[trigger] spec_trade_history(events, opts, call_addr, put_addr)[k].action,
            ),
{
    lemma_unsorted_all_allowed(events, opts, call_addr, put_addr);
    lemma_sort_by_ts_all(
        spec_unsorted(events, opts, call_addr, put_addr),
        |y: TradeHistoryV| allowed_action(y.action),
    );
}

/// A deposit or withdraw event whose token address equals the put-pool
/// address is labeled `Put`; one whose token address equals the call-pool
/// address (and not the put pool's) is labeled `Call`; any other token
/// address, or any other action, yields no label.
pub proof fn lemma_pool_label_cases(
    action: Seq<char>,
    token: Seq<char>,
    call_addr: Seq<char>,
    put_addr: Seq<char>,
)
    ensures
        (action == "DepositLiquidity"@ || action == "WithdrawLiquidity"@) && token == put_addr
            ==> spec_pool_label(action, token, call_addr, put_addr) == Some("Put"@),
        (action == "DepositLiquidity"@ || action == "WithdrawLiquidity"@) && token == call_addr
            && token != put_addr ==> spec_pool_label(action, token, call_addr, put_addr) == Some(
            "Call"@,
        ),
        token != call_addr && token != put_addr ==> spec_pool_label(
            action,
            token,
            call_addr,
            put_addr,
        ) is None,
        !(action == "DepositLiquidity"@ || action == "WithdrawLiquidity"@) ==> spec_pool_label(
            action,
            token,
            call_addr,
            put_addr,
        ) is None,
{
}

/// True exactly when the two strings hold the same characters.
fn string_eq(a: &String, b: &str) -> (r: bool)
    ensures
        r == (a@ == b@),
{
    let bs = String::from_str(b);
    a.eq(&bs)
}

/// True exactly when the action is on the fixed allow-list.
pub fn action_allowed(a: &String) -> (r: bool)
    ensures
        r == allowed_action(a@),
{
    string_eq(a, "TradeOpen") || string_eq(a, "TradeClose") || string_eq(a, "TradeSettle")
        || string_eq(a, "DepositLiquidity") || string_eq(a, "WithdrawLiquidity")
}

/// The liquidity-pool label of an event, if any.
fn pool_label(action: &String, token: &String, call_addr: &String, put_addr: &String) -> (r: Option<
    String,
>)
    ensures
        (match r {
            Some(ref s) => Some(s@),
            None => None,
        }) == spec_pool_label(action@, token@, call_addr@, put_addr@),
{
    let deposit_or_withdraw = string_eq(action, "DepositLiquidity") || string_eq(
        action,
        "WithdrawLiquidity",
    );
    if deposit_or_withdraw && token.eq(put_addr) {
        Some(String::from_str("Put"))
    } else if deposit_or_withdraw && token.eq(call_addr) {
        Some(String::from_str("Call"))
    } else {
        None
    }
}

/// The last option whose address equals the given token address, if any.
fn find_option(options: &Vec<IOption>, addr: &String) -> (r: Option<IOption>)
    ensures
        (match r {
            Some(ref o) => Some(o@),
            None => None,
        }) == lookup_option(option_views(options@), addr@),
{
    let mut i: usize = options.len();
    proof {
        assert(option_views(options@).subrange(0, options@.len() as int) =~= option_views(
            options@,
        ));
    }
    while i > 0
        invariant
            0 <= i <= options@.len(),
            lookup_option(option_views(options@), addr@) == lookup_option(
                option_views(options@).subrange(0, i as int),
                addr@,
            ),
        decreases i,
    {
        i = i - 1;
        proof {
            let pre = option_views(options@).subrange(0, i + 1);
            assert(pre.last() == options@[i as int]@);
            assert(pre.drop_last() =~= option_views(options@).subrange(0, i as int));
        }
        if options[i].option_address.eq(addr) {
            return Some(options[i].duplicate());
        }
    }
    proof {
        assert(option_views(options@).subrange(0, 0) =~= Seq::<IOptionV>::empty());
    }
    None
}

/// Inserts an entry before the first entry with an equal or later timestamp.
fn insert_entry(r: &mut Vec<TradeHistory>, x: TradeHistory)
    ensures
        th_views(final(r)@) == insert_by_ts(x@, th_views(old(r)@)),
{
    let n = r.len();
    let mut j: usize = 0;
    while j < n && r[j].timestamp < x.timestamp
        invariant
            0 <= j <= n,
            n == r@.len(),
            forall|k: int| 0 <= k < j ==> #[trigger] r@[k]@.timestamp < x@.timestamp,
        decreases n - j,
    {
        j = j + 1;
    }
    let ghost old_views = th_views(r@);
    r.insert(j, x);
    proof {
        lemma_insert_at(x@, old_views, j as int);
        assert(th_views(r@) =~= old_views.subrange(0, j as int) + seq![x@] + old_views.subrange(
            j as int,
            old_views.len() as int,
        ));
    }
}

/// Inserting before the first entry with an equal or later timestamp is what
/// the recursive insertion spec does.
proof fn lemma_insert_at(x: TradeHistoryV, s: Seq<TradeHistoryV>, j: int)
    requires
        0 <= j <= s.len(),
        forall|k: int| 0 <= k < j ==> #[trigger] s[k].timestamp < x.timestamp,
        j < s.len() ==> x.timestamp <= s[j].timestamp,
    ensures
        insert_by_ts(x, s) == s.subrange(0, j) + seq![x] + s.subrange(j, s.len() as int),
    decreases s.len(),
{
    if s.len() == 0 {
        assert(insert_by_ts(x, s) =~= s.subrange(0, j) + seq![x] + s.subrange(j, s.len() as int));
    } else if j == 0 {
        assert(x.timestamp <= s[0].timestamp);
        assert(insert_by_ts(x, s) =~= s.subrange(0, j) + seq![x] + s.subrange(j, s.len() as int));
    } else {
        assert(s[0].timestamp < x.timestamp);
        assert(forall|k: int|
            0 <= k < j - 1 ==> #[trigger] s.drop_first()[k].timestamp < x.timestamp);
        lemma_insert_at(x, s.drop_first(), j - 1);
        assert(seq![s[0]] + (s.drop_first().subrange(0, j - 1) + seq![x] + s.drop_first().subrange(
            j - 1,
            s.drop_first().len() as int,
        )) =~= s.subrange(0, j) + seq![x] + s.subrange(j, s.len() as int));
    }
}

/// Stable sort of the entries by ascending timestamp.
fn sort_entries(a: Vec<TradeHistory>) -> (r: Vec<TradeHistory>)
    ensures
        th_views(r@) == sort_by_ts(th_views(a@)),
{
    let n = a.len();
    let mut r: Vec<TradeHistory> = Vec::new();
    let mut i: usize = n;
    while i > 0
        invariant
            0 <= i <= n,
            n == a@.len(),
            th_views(r@) == sort_by_ts(th_views(a@).subrange(i as int, n as int)),
        decreases i,
    {
        i = i - 1;
        let x = a[i].duplicate();
        proof {
            let tail = th_views(a@).subrange(i as int, n as int);
            assert(tail[0] == a@[i as int]@);
            assert(tail.drop_first() =~= th_views(a@).subrange(i + 1, n as int));
        }
        insert_entry(&mut r, x);
    }
    proof {
        assert(th_views(a@).subrange(0, n as int) =~= th_views(a@));
    }
    r
}

/// Fully recomputes the trade-history view from the event log, the known
/// options and the two configured pool addresses: every allow-listed event
/// contributes exactly one entry, joined to its option and pool label, and
/// the result is ordered ascending by timestamp. Repeated derivation from
/// the same inputs yields identical output.
pub fn generate_trade_history(
    events: &Vec<Event>,
    options: &Vec<IOption>,
    call_addr: &String,
    put_addr: &String,
) -> (r: Vec<TradeHistory>)
    ensures
        th_views(r@) == spec_trade_history(
            event_views(events@),
            option_views(options@),
            call_addr@,
            put_addr@,
        ),
        sorted_by_ts(th_views(r@)),
        forall|k: int| 0 <= k < r@.len() ==> allowed_action(#[trigger] r@[k]@.action),
{
    let mut unsorted: Vec<TradeHistory> = Vec::new();
    let mut i: usize = 0;
    while i < events.len()
        invariant
            0 <= i <= events@.len(),
            th_views(unsorted@) == spec_unsorted(
                event_views(events@).subrange(0, i as int),
                option_views(options@),
                call_addr@,
                put_addr@,
            ),
        decreases events@.len() - i,
    {
        let ghost pre = event_views(events@).subrange(0, i as int);
        let ghost pre1 = event_views(events@).subrange(0, i + 1);
        proof {
            assert(pre1.drop_last() =~= pre);
            assert(pre1.last() == events@[i as int]@);
        }
        let event = &events[i];
        if action_allowed(&event.action) {
            let entry = TradeHistory {
                timestamp: event.timestamp,
                action: event.action.clone(),
                caller: event.caller.clone(),
                capital_transfered: event.capital_transfered.clone(),
                tokens_minted: event.tokens_minted.clone(),
                option: find_option(options, &event.token_address),
                liquidity_pool: pool_label(&event.action, &event.token_address, call_addr, put_addr),
            };
            proof {
                assert(entry@ =~= spec_entry(
                    events@[i as int]@,
                    option_views(options@),
                    call_addr@,
                    put_addr@,
                ));
            }
            unsorted.push(entry);
            proof {
                assert(th_views(unsorted@) =~= spec_unsorted(pre, option_views(options@), call_addr@, put_addr@)
                    + seq![
                    spec_entry(events@[i as int]@, option_views(options@), call_addr@, put_addr@),
                ]);
            }
        } else {
            proof {
                assert(th_views(unsorted@) =~= spec_unsorted(pre, option_views(options@), call_addr@, put_addr@)
                    + Seq::<TradeHistoryV>::empty());
            }
        }
        i = i + 1;
    }
    proof {
        assert(event_views(events@).subrange(0, events@.len() as int) =~= event_views(events@));
    }
    let r = sort_entries(unsorted);
    proof {
        lemma_sort_by_ts_sorted(
            spec_unsorted(event_views(events@), option_views(options@), call_addr@, put_addr@),
        );
        lemma_trade_history_only_allowed(
            event_views(events@),
            option_views(options@),
            call_addr@,
            put_addr@,
        );
        assert(forall|k: int|
            0 <= k < r@.len() ==> #[trigger] r@[k]@ == th_views(r@)[k]);
    }
    r
}

} // verus!
