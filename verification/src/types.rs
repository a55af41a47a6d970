//! The records the ingestion core works over, each with a mathematical view:
//! timestamps as integers, textual fields as character sequences. Numeric
//! chain values are carried as hexadecimal strings once persisted; decimal
//! strings appear only transiently while small integer fields are parsed.

use vstd::prelude::*;

verus! {

/// An immutable protocol action record, as read back from the event store.
#[derive(Debug, Clone, PartialEq)]
pub struct Event {
    pub timestamp: i64,
    pub action: String,
    pub caller: String,
    pub token_address: String,
    pub capital_transfered: String,
    pub tokens_minted: String,
}

/// Mathematical view of an [`Event`].
pub struct EventV {
    pub timestamp: int,
    pub action: Seq<char>,
    pub caller: Seq<char>,
    pub token_address: Seq<char>,
    pub capital_transfered: Seq<char>,
    pub tokens_minted: Seq<char>,
}

impl View for Event {
    type V = EventV;

    open spec fn view(&self) -> EventV {
        EventV {
            timestamp: self.timestamp as int,
            action: self.action@,
            caller: self.caller@,
            token_address: self.token_address@,
            capital_transfered: self.capital_transfered@,
            tokens_minted: self.tokens_minted@,
        }
    }
}

impl Event {
    /// A field-wise copy; the views agree exactly.
    pub fn duplicate(&self) -> (r: Event)
        ensures
            r@ == self@,
    {
        Event {
            timestamp: self.timestamp,
            action: self.action.clone(),
            caller: self.caller.clone(),
            token_address: self.token_address.clone(),
            capital_transfered: self.capital_transfered.clone(),
            tokens_minted: self.tokens_minted.clone(),
        }
    }
}

/// Metadata for one tradable option instrument, keyed by `option_address`,
/// created once at roster discovery and immutable thereafter.
#[derive(Debug, Clone, PartialEq)]
pub struct IOption {
    pub option_side: i16,
    pub maturity: i64,
    pub strike_price: String,
    pub quote_token_address: String,
    pub base_token_address: String,
    pub option_type: i16,
    pub option_address: String,
    pub lp_address: String,
}

/// Mathematical view of an [`IOption`].
pub struct IOptionV {
    pub option_side: int,
    pub maturity: int,
    pub strike_price: Seq<char>,
    pub quote_token_address: Seq<char>,
    pub base_token_address: Seq<char>,
    pub option_type: int,
    pub option_address: Seq<char>,
    pub lp_address: Seq<char>,
}

impl View for IOption {
    type V = IOptionV;

    open spec fn view(&self) -> IOptionV {
        IOptionV {
            option_side: self.option_side as int,
            maturity: self.maturity as int,
            strike_price: self.strike_price@,
            quote_token_address: self.quote_token_address@,
            base_token_address: self.base_token_address@,
            option_type: self.option_type as int,
            option_address: self.option_address@,
            lp_address: self.lp_address@,
        }
    }
}

impl IOption {
    /// A field-wise copy; the views agree exactly.
    pub fn duplicate(&self) -> (r: IOption)
        ensures
            r@ == self@,
    {
        IOption {
            option_side: self.option_side,
            maturity: self.maturity,
            strike_price: self.strike_price.clone(),
            quote_token_address: self.quote_token_address.clone(),
            base_token_address: self.base_token_address.clone(),
            option_type: self.option_type,
            option_address: self.option_address.clone(),
            lp_address: self.lp_address.clone(),
        }
    }
}

/// A derived, read-only projection joining an event to its option (if known)
/// and to a liquidity-pool label.
#[derive(Debug, Clone, PartialEq)]
pub struct TradeHistory {
    pub timestamp: i64,
    pub action: String,
    pub caller: String,
    pub capital_transfered: String,
    pub tokens_minted: String,
    pub option: Option<IOption>,
    pub liquidity_pool: Option<String>,
}

/// Mathematical view of a [`TradeHistory`] entry.
pub struct TradeHistoryV {
    pub timestamp: int,
    pub action: Seq<char>,
    pub caller: Seq<char>,
    pub capital_transfered: Seq<char>,
    pub tokens_minted: Seq<char>,
    pub option: Option<IOptionV>,
    pub liquidity_pool: Option<Seq<char>>,
}

impl View for TradeHistory {
    type V = TradeHistoryV;

    open spec fn view(&self) -> TradeHistoryV {
        TradeHistoryV {
            timestamp: self.timestamp as int,
            action: self.action@,
            caller: self.caller@,
            capital_transfered: self.capital_transfered@,
            tokens_minted: self.tokens_minted@,
            option: match self.option {
                Some(o) => Some(o@),
                None => None,
            },
            liquidity_pool: match self.liquidity_pool {
                Some(ref s) => Some(s@),
                None => None,
            },
        }
    }
}

impl TradeHistory {
    /// A field-wise copy; the views agree exactly.
    pub fn duplicate(&self) -> (r: TradeHistory)
        ensures
            r@ == self@,
    {
        TradeHistory {
            timestamp: self.timestamp,
            action: self.action.clone(),
            caller: self.caller.clone(),
            capital_transfered: self.capital_transfered.clone(),
            tokens_minted: self.tokens_minted.clone(),
            option: match &self.option {
                Some(o) => Some(o.duplicate()),
                None => None,
            },
            liquidity_pool: match &self.liquidity_pool {
                Some(s) => Some(s.clone()),
                None => None,
            },
        }
    }
}

/// Capital, balance and position of one liquidity pool at one block; written
/// once per block, never mutated. Numeric fields are hexadecimal strings.
#[derive(Debug, Clone, PartialEq)]
pub struct PoolState {
    pub unlocked_cap: String,
    pub locked_cap: String,
    pub lp_balance: String,
    pub pool_position: String,
    pub lp_token_value: String,
    pub block_number: i64,
    pub lp_address: String,
}

/// Mathematical view of a [`PoolState`].
pub struct PoolStateV {
    pub unlocked_cap: Seq<char>,
    pub locked_cap: Seq<char>,
    pub lp_balance: Seq<char>,
    pub pool_position: Seq<char>,
    pub lp_token_value: Seq<char>,
    pub block_number: int,
    pub lp_address: Seq<char>,
}

impl View for PoolState {
    type V = PoolStateV;

    open spec fn view(&self) -> PoolStateV {
        PoolStateV {
            unlocked_cap: self.unlocked_cap@,
            locked_cap: self.locked_cap@,
            lp_balance: self.lp_balance@,
            pool_position: self.pool_position@,
            lp_token_value: self.lp_token_value@,
            block_number: self.block_number as int,
            lp_address: self.lp_address@,
        }
    }
}

impl PoolState {
    /// A field-wise copy; the views agree exactly.
    pub fn duplicate(&self) -> (r: PoolState)
        ensures
            r@ == self@,
    {
        PoolState {
            unlocked_cap: self.unlocked_cap.clone(),
            locked_cap: self.locked_cap.clone(),
            lp_balance: self.lp_balance.clone(),
            pool_position: self.pool_position.clone(),
            lp_token_value: self.lp_token_value.clone(),
            block_number: self.block_number,
            lp_address: self.lp_address.clone(),
        }
    }
}

/// Volatility of one option at one block; zero for expired instruments.
#[derive(Debug, Clone, PartialEq)]
pub struct OptionVolatility {
    pub option_address: String,
    pub block_number: i64,
    pub volatility: String,
}

/// Mathematical view of an [`OptionVolatility`].
pub struct OptionVolatilityV {
    pub option_address: Seq<char>,
    pub block_number: int,
    pub volatility: Seq<char>,
}

impl View for OptionVolatility {
    type V = OptionVolatilityV;

    open spec fn view(&self) -> OptionVolatilityV {
        OptionVolatilityV {
            option_address: self.option_address@,
            block_number: self.block_number as int,
            volatility: self.volatility@,
        }
    }
}

/// A block header: the syncer's durable watermark.
#[derive(Debug, Clone, Copy, PartialEq, Eq, Structural)]
pub struct DbBlock {
    pub block_number: i64,
    pub timestamp: i64,
}

/// A spot median price for a token pair at a historical block, as the oracle
/// collaborator reports it.
#[derive(Debug, Clone, PartialEq)]
pub struct OraclePrice {
    pub token_pair: String,
    pub price: String,
    pub block_number: i64,
}

/// Mathematical view of an [`OraclePrice`].
pub struct OraclePriceV {
    pub token_pair: Seq<char>,
    pub price: Seq<char>,
    pub block_number: int,
}

impl View for OraclePrice {
    type V = OraclePriceV;

    open spec fn view(&self) -> OraclePriceV {
        OraclePriceV {
            token_pair: self.token_pair@,
            price: self.price@,
            block_number: self.block_number as int,
        }
    }
}

/// The read-only snapshot the cache exposes to the serving layer.
#[derive(Debug, Clone, PartialEq)]
pub struct AppData {
    pub all_non_expired: Vec<String>,
    pub trade_history: Vec<TradeHistory>,
}

/// Views of a sequence of events.
pub open spec fn event_views(s: Seq<Event>) -> Seq<EventV> {
    s.map_values(|e: Event| e@)
}

/// Views of a sequence of options.
pub open spec fn option_views(s: Seq<IOption>) -> Seq<IOptionV> {
    s.map_values(|o: IOption| o@)
}

/// Views of a sequence of trade-history entries.
pub open spec fn th_views(s: Seq<TradeHistory>) -> Seq<TradeHistoryV> {
    s.map_values(|t: TradeHistory| t@)
}

/// Views of a sequence of strings.
pub open spec fn str_views(s: Seq<String>) -> Seq<Seq<char>> {
    s.map_values(|x: String| x@)
}

/// A copy of a string vector; the views agree exactly.
pub fn clone_strings(v: &Vec<String>) -> (r: Vec<String>)
    ensures
        str_views(r@) == str_views(v@),
        r@.len() == v@.len(),
{
    let mut r: Vec<String> = Vec::new();
    let mut i: usize = 0;
    while i < v.len()
        invariant
            0 <= i <= v@.len(),
            r@.len() == i,
            forall|k: int| 0 <= k < i ==> #[trigger] r@[k]@ == v@[k]@,
        decreases v@.len() - i,
    {
        r.push(v[i].clone());
        i = i + 1;
    }
    proof {
        assert(str_views(r@) =~= str_views(v@));
    }
    r
}

/// A copy of a trade-history vector; the views agree exactly.
pub fn clone_trade_history(v: &Vec<TradeHistory>) -> (r: Vec<TradeHistory>)
    ensures
        th_views(r@) == th_views(v@),
        r@.len() == v@.len(),
{
    let mut r: Vec<TradeHistory> = Vec::new();
    let mut i: usize = 0;
    while i < v.len()
        invariant
            0 <= i <= v@.len(),
            r@.len() == i,
            forall|k: int| 0 <= k < i ==> #[trigger] r@[k]@ == v@[k]@,
        decreases v@.len() - i,
    {
        r.push(v[i].duplicate());
        i = i + 1;
    }
    proof {
        assert(th_views(r@) =~= th_views(v@));
    }
    r
}

} // verus!
