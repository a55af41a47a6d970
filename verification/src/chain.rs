//! Decoding of raw contract-call results and the aggregation policies built
//! on them. A raw result is a length-prefixed flat sequence of field-sized
//! integers; the prefix is dropped before the remainder is read as records.
//! Batch operations are all-or-nothing: one failed call discards the whole
//! batch, so no partial snapshot is ever handed on.

use crate::digits::{dec_string, hex_string};
use crate::felt::{felt_to_dec, felt_to_hex, felt_value, Felt};
use crate::types::{
    option_views, str_views, DbBlock, IOption, IOptionV, OptionVolatility, OptionVolatilityV,
    PoolState, PoolStateV,
};
use vstd::prelude::*;

verus! {

/// A raw call result with its length prefix dropped, each remaining field
/// rendered as a decimal string.
pub open spec fn formatted_result(raw: Seq<Felt>) -> Seq<Seq<char>> {
    if raw.len() == 0 {
        Seq::empty()
    } else {
        Seq::new((raw.len() - 1) as nat, |i: int| dec_string(felt_value(raw[i + 1])))
    }
}

/// Drops the length prefix of a raw result and renders every remaining
/// field as a decimal string. An empty result stays empty.
pub fn format_call_result(raw: &Vec<Felt>) -> (r: Vec<String>)
    ensures
        str_views(r@) == formatted_result(raw@),
{
    let mut r: Vec<String> = Vec::new();
    let n = raw.len();
    let mut i: usize = 1;
    while i < n
        invariant
            1 <= i <= n || (n == 0 && i == 1),
            n == raw@.len(),
            r@.len() == (if i <= n { i - 1 } else { 0 }),
            forall|k: int| 0 <= k < r@.len() ==> #[trigger] r@[k]@ == dec_string(
                felt_value(raw@[k + 1]),
            ),
        decreases n - i,
    {
        r.push(felt_to_dec(&raw[i]));
        i = i + 1;
    }
    proof {
        assert(str_views(r@) =~= formatted_result(raw@));
    }
    r
}

/// The roster the chain reports, if both per-pool calls came back: the call
/// pool's formatted result followed by the put pool's. One failed call
/// rejects the whole fetch, since a partial roster would corrupt the
/// merge-by-exact-record invariant downstream.
pub fn combine_roster_partitions(call_part: &Option<Vec<Felt>>, put_part: &Option<Vec<Felt>>) -> (r:
    Option<Vec<String>>)
    ensures
        r is Some <==> call_part is Some && put_part is Some,
        r matches Some(v) ==> str_views(v@) == formatted_result(call_part->0@) + formatted_result(
            put_part->0@,
        ),
{
    match (call_part, put_part) {
        (Some(c), Some(p)) => {
            let mut v = format_call_result(c);
            let mut tail = format_call_result(p);
            let ghost head_views = str_views(v@);
            let ghost tail_views = str_views(tail@);
            v.append(&mut tail);
            proof {
                assert(str_views(v@) =~= head_views + tail_views);
            }
            Some(v)
        },
        _ => None,
    }
}

/// The pool addresses enumerated by the chain: a raw result is rejected
/// when it is too short to hold a length prefix and at least one address;
/// otherwise the prefix is dropped.
pub fn lptoken_addresses_from_result(raw: &Vec<Felt>) -> (r: Option<Vec<Felt>>)
    ensures
        r is Some <==> raw@.len() >= 2,
        r matches Some(v) ==> v@ == raw@.skip(1),
{
    let n = raw.len();
    if n < 2 {
        return None;
    }
    let mut v: Vec<Felt> = Vec::new();
    let mut i: usize = 1;
    while i < n
        invariant
            1 <= i <= n,
            n == raw@.len(),
            v@.len() == i - 1,
            forall|k: int| 0 <= k < v@.len() ==> #[trigger] v@[k] == raw@[k + 1],
        decreases n - i,
    {
        v.push(raw[i]);
        i = i + 1;
    }
    proof {
        assert(v@ =~= raw@.skip(1));
    }
    Some(v)
}

/// Drops the length prefix of a raw result, leaving the packed fields as
/// they are. An empty result stays empty.
pub fn strip_length_prefix(raw: &Vec<Felt>) -> (r: Vec<Felt>)
    ensures
        raw@.len() == 0 ==> r@ == Seq::<Felt>::empty(),
        raw@.len() > 0 ==> r@ == raw@.skip(1),
{
    let n = raw.len();
    let mut r: Vec<Felt> = Vec::new();
    let mut i: usize = 1;
    while i < n
        invariant
            1 <= i <= n || (n == 0 && i == 1),
            n == raw@.len(),
            r@.len() == (if i <= n { i - 1 } else { 0 }),
            forall|k: int| 0 <= k < r@.len() ==> #[trigger] r@[k] == raw@[k + 1],
        decreases n - i,
    {
        r.push(raw[i]);
        i = i + 1;
    }
    proof {
        if raw@.len() > 0 {
            assert(r@ =~= raw@.skip(1));
        } else {
            assert(r@ =~= Seq::<Felt>::empty());
        }
    }
    r
}

/// The first field of a raw call result, if there is one.
pub fn first_felt(raw: &Vec<Felt>) -> (r: Option<Felt>)
    ensures
        r is Some <==> raw@.len() > 0,
        r matches Some(f) ==> f == raw@[0],
{
    if raw.len() > 0 {
        Some(raw[0])
    } else {
        None
    }
}

/// An option token address resolved by the chain: the first field of the
/// result, rendered in the persisted hexadecimal form. An empty result is a
/// failed resolution.
pub fn option_address_from_result(raw: &Vec<Felt>) -> (r: Option<String>)
    ensures
        r is Some <==> raw@.len() > 0,
        r matches Some(s) ==> s@ == hex_string(felt_value(raw@[0])),
{
    match first_felt(raw) {
        Some(f) => Some(felt_to_hex(&f)),
        None => None,
    }
}

/// A well-formed packed option record: exactly six fields, with side, type
/// and maturity small enough for their persisted integer columns.
pub open spec fn option_record_ok(c: Seq<Felt>) -> bool {
    c.len() == 6 && felt_value(c[0]) <= i16::MAX && felt_value(c[5]) <= i16::MAX && felt_value(
        c[1],
    ) <= i64::MAX
}

/// The option record decoded from six packed fields: side, expiry and type
/// read as small integers, the money fields rendered hexadecimal.
pub open spec fn decoded_option(
    c: Seq<Felt>,
    option_address: Seq<char>,
    lp_pool: Felt,
) -> IOptionV {
    IOptionV {
        option_side: felt_value(c[0]) as int,
        maturity: felt_value(c[1]) as int,
        strike_price: hex_string(felt_value(c[2])),
        quote_token_address: hex_string(felt_value(c[3])),
        base_token_address: hex_string(felt_value(c[4])),
        option_type: felt_value(c[5]) as int,
        option_address,
        lp_address: hex_string(felt_value(lp_pool)),
    }
}

/// Decodes one packed option record. A chunk of the wrong width, or one
/// whose small integer fields overflow their columns, is rejected (the
/// caller skips it and goes on with the batch).
pub fn decode_option_record(chunk: &Vec<Felt>, option_address: &String, lp_pool: &Felt) -> (r:
    Option<IOption>)
    ensures
        r is Some <==> option_record_ok(chunk@),
        r matches Some(o) ==> o@ == decoded_option(chunk@, option_address@, *lp_pool),
{
    if chunk.len() != 6 {
        return None;
    }
    let side: u64 = match chunk[0].to_u64() {
        Some(v) => v,
        None => {
            return None;
        },
    };
    if side > 0x7fff {
        return None;
    }
    let kind: u64 = match chunk[5].to_u64() {
        Some(v) => v,
        None => {
            return None;
        },
    };
    if kind > 0x7fff {
        return None;
    }
    let maturity: u64 = match chunk[1].to_u64() {
        Some(v) => v,
        None => {
            return None;
        },
    };
    if maturity > 0x7fffffffffffffff {
        return None;
    }
    Some(
        IOption {
            option_side: side as i16,
            maturity: maturity as i64,
            strike_price: felt_to_hex(&chunk[2]),
            quote_token_address: felt_to_hex(&chunk[3]),
            base_token_address: felt_to_hex(&chunk[4]),
            option_type: kind as i16,
            option_address: option_address.clone(),
            lp_address: felt_to_hex(lp_pool),
        },
    )
}

/// What one pool's option-info answer decodes to, if anything: a present,
/// well-formed six-field record.
pub open spec fn decoded_partition(
    res: Option<Vec<Felt>>,
    option_address: Seq<char>,
    lp_pool: Felt,
) -> Option<IOptionV> {
    match res {
        Some(c) => if option_record_ok(c@) {
            Some(decoded_option(c@, option_address, lp_pool))
        } else {
            None
        },
        None => None,
    }
}

/// Decodes an option looked up in both pools: the call pool's answer wins
/// when it is present and well-formed, else the put pool's is tried; a
/// malformed answer is skipped, not fatal. Nothing decodes when neither
/// pool knows the address.
pub fn option_info_from_pools(
    call_res: &Option<Vec<Felt>>,
    put_res: &Option<Vec<Felt>>,
    call_lp: &Felt,
    put_lp: &Felt,
    option_address: &String,
) -> (r: Option<IOption>)
    ensures
        (match r {
            Some(o) => Some(o@),
            None => None,
        }) == (if decoded_partition(*call_res, option_address@, *call_lp) is Some {
            decoded_partition(*call_res, option_address@, *call_lp)
        } else {
            decoded_partition(*put_res, option_address@, *put_lp)
        }),
{
    if let Some(c) = call_res {
        if let Some(o) = decode_option_record(c, option_address, call_lp) {
            return Some(o);
        }
    }
    if let Some(p) = put_res {
        if let Some(o) = decode_option_record(p, option_address, put_lp) {
            return Some(o);
        }
    }
    None
}

/// Splits an enumerated option list into complete six-field records; a
/// trailing chunk of the wrong width is dropped, not decoded.
pub fn complete_chunks(data: &Vec<Felt>) -> (r: Vec<Vec<Felt>>)
    ensures
        r@.len() == data@.len() / 6,
        forall|k: int| 0 <= k < r@.len() ==> #[trigger] r@[k]@ == data@.subrange(6 * k, 6 * k + 6),
{
    let n = data.len();
    let mut r: Vec<Vec<Felt>> = Vec::new();
    let mut base: usize = 0;
    while n - base >= 6
        invariant
            0 <= base <= n,
            base % 6 == 0,
            n == data@.len(),
            r@.len() == base / 6,
            forall|k: int| 0 <= k < r@.len() ==> #[trigger] r@[k]@ == data@.subrange(
                6 * k,
                6 * k + 6,
            ),
        decreases n - base,
    {
        let mut chunk: Vec<Felt> = Vec::new();
        let mut f: usize = 0;
        while f < 6
            invariant
                0 <= f <= 6,
                base + 6 <= n == data@.len(),
                chunk@.len() == f,
                forall|k: int| 0 <= k < f ==> #[trigger] chunk@[k] == data@[base + k],
            decreases 6 - f,
        {
            chunk.push(data[base + f]);
            f = f + 1;
        }
        proof {
            assert(chunk@ =~= data@.subrange(6 * (base / 6), 6 * (base / 6) + 6));
        }
        r.push(chunk);
        base = base + 6;
    }
    proof {
        vstd::arithmetic::div_mod::lemma_fundamental_div_mod(base as int, 6);
        vstd::arithmetic::div_mod::lemma_div_multiples_vanish_fancy(
            base as int / 6,
            n - base as int,
            6,
        );
    }
    r
}

/// The value a successful, non-empty call hands back: its first field.
pub open spec fn call_value(res: Option<Vec<Felt>>) -> Option<Felt> {
    match res {
        Some(v) => if v@.len() > 0 {
            Some(v@[0])
        } else {
            None
        },
        None => None,
    }
}

/// The pool-state record assembled from the four per-pool capital calls.
pub open spec fn spec_pool_state(
    locked: Felt,
    unlocked: Felt,
    balance: Felt,
    position: Felt,
    pool: Felt,
    block_number: int,
) -> PoolStateV {
    PoolStateV {
        unlocked_cap: hex_string(felt_value(unlocked)),
        locked_cap: hex_string(felt_value(locked)),
        lp_balance: hex_string(felt_value(balance)),
        pool_position: hex_string(felt_value(position)),
        lp_token_value: hex_string(0),
        block_number: block_number,
        lp_address: hex_string(felt_value(pool)),
    }
}

/// Assembles one pool's state at one block from its four capital calls
/// (locked capital, unlocked capital, pool balance, position value). All
/// four must have come back non-empty; otherwise the pool's state for this
/// block cannot be formed and the whole block will be retried.
pub fn pool_state_from_calls(
    locked: &Option<Vec<Felt>>,
    unlocked: &Option<Vec<Felt>>,
    balance: &Option<Vec<Felt>>,
    position: &Option<Vec<Felt>>,
    pool: &Felt,
    block_number: i64,
) -> (r: Option<PoolState>)
    ensures
        r is Some <==> call_value(*locked) is Some && call_value(*unlocked) is Some && call_value(
            *balance,
        ) is Some && call_value(*position) is Some,
        r matches Some(ps) ==> ps@ == spec_pool_state(
            call_value(*locked)->0,
            call_value(*unlocked)->0,
            call_value(*balance)->0,
            call_value(*position)->0,
            *pool,
            block_number as int,
        ),
{
    let l = match locked {
        Some(v) => first_felt(v),
        None => None,
    };
    let u = match unlocked {
        Some(v) => first_felt(v),
        None => None,
    };
    let b = match balance {
        Some(v) => first_felt(v),
        None => None,
    };
    let p = match position {
        Some(v) => first_felt(v),
        None => None,
    };
    match (l, u, b, p) {
        (Some(lf), Some(uf), Some(bf), Some(pf)) => Some(
            PoolState {
                unlocked_cap: felt_to_hex(&uf),
                locked_cap: felt_to_hex(&lf),
                lp_balance: felt_to_hex(&bf),
                pool_position: felt_to_hex(&pf),
                lp_token_value: felt_to_hex(&Felt::from_u64(0)),
                block_number,
                lp_address: felt_to_hex(pool),
            },
        ),
        _ => None,
    }
}

/// The whole block's pool snapshot, only if every pool's state was formed:
/// a single failed pool discards the batch.
pub fn collect_pool_states(states: &Vec<Option<PoolState>>) -> (r: Option<Vec<PoolState>>)
    ensures
        r is Some <==> (forall|i: int| 0 <= i < states@.len() ==> #[trigger] states@[i] is Some),
        r matches Some(v) ==> v@.len() == states@.len() && (forall|i: int|
            0 <= i < states@.len() ==> #[trigger] v@[i]@ == states@[i]->0@),
{
    let mut v: Vec<PoolState> = Vec::new();
    let n = states.len();
    let mut i: usize = 0;
    while i < n
        invariant
            0 <= i <= n,
            n == states@.len(),
            v@.len() == i,
            forall|k: int| 0 <= k < i ==> #[trigger] states@[k] is Some,
            forall|k: int| 0 <= k < i ==> #[trigger] v@[k]@ == states@[k]->0@,
        decreases n - i,
    {
        match &states[i] {
            Some(ps) => {
                v.push(ps.duplicate());
            },
            None => {
                return None;
            },
        }
        i = i + 1;
    }
    Some(v)
}

/// Options expired at the block (maturity at or before the block
/// timestamp), in input order.
pub open spec fn expired_of(opts: Seq<IOptionV>, ts: int) -> Seq<IOptionV>
    decreases opts.len(),
{
    if opts.len() == 0 {
        Seq::empty()
    } else {
        expired_of(opts.drop_last(), ts) + (if opts.last().maturity <= ts {
            seq![opts.last()]
        } else {
            Seq::empty()
        })
    }
}

/// Options still live at the block (maturity after the block timestamp), in
/// input order.
pub open spec fn live_of(opts: Seq<IOptionV>, ts: int) -> Seq<IOptionV>
    decreases opts.len(),
{
    if opts.len() == 0 {
        Seq::empty()
    } else {
        live_of(opts.drop_last(), ts) + (if opts.last().maturity > ts {
            seq![opts.last()]
        } else {
            Seq::empty()
        })
    }
}

/// Splits the known options at a block's timestamp: expired instruments are
/// assigned zero volatility without a chain call; live ones each need one
/// volatility call at the historical block.
pub fn split_options_by_expiry(options: &Vec<IOption>, block_timestamp: i64) -> (r: (
    Vec<IOption>,
    Vec<IOption>,
))
    ensures
        option_views(r.0@) == expired_of(option_views(options@), block_timestamp as int),
        option_views(r.1@) == live_of(option_views(options@), block_timestamp as int),
{
    let mut expired: Vec<IOption> = Vec::new();
    let mut live: Vec<IOption> = Vec::new();
    let n = options.len();
    let mut i: usize = 0;
    while i < n
        invariant
            0 <= i <= n,
            n == options@.len(),
            option_views(expired@) == expired_of(
                option_views(options@).subrange(0, i as int),
                block_timestamp as int,
            ),
            option_views(live@) == live_of(
                option_views(options@).subrange(0, i as int),
                block_timestamp as int,
            ),
        decreases n - i,
    {
        let ghost pre = option_views(options@).subrange(0, i as int);
        let ghost pre1 = option_views(options@).subrange(0, i + 1);
        proof {
            assert(pre1.drop_last() =~= pre);
            assert(pre1.last() == options@[i as int]@);
        }
        if options[i].maturity <= block_timestamp {
            expired.push(options[i].duplicate());
            proof {
                assert(option_views(expired@) =~= expired_of(pre, block_timestamp as int) + seq![
                    options@[i as int]@,
                ]);
                assert(option_views(live@) =~= live_of(pre, block_timestamp as int)
                    + Seq::<IOptionV>::empty());
            }
        } else {
            live.push(options[i].duplicate());
            proof {
                assert(option_views(expired@) =~= expired_of(pre, block_timestamp as int)
                    + Seq::<IOptionV>::empty());
                assert(option_views(live@) =~= live_of(pre, block_timestamp as int) + seq![
                    options@[i as int]@,
                ]);
            }
        }
        i = i + 1;
    }
    proof {
        assert(option_views(options@).subrange(0, n as int) =~= option_views(options@));
    }
    (expired, live)
}

/// Zero-volatility entries for expired options.
pub open spec fn zero_vols(opts: Seq<IOptionV>, block_number: int) -> Seq<OptionVolatilityV> {
    opts.map_values(
        |o: IOptionV|
            OptionVolatilityV {
                option_address: o.option_address,
                block_number: block_number,
                volatility: hex_string(0),
            },
    )
}

/// Volatility entries for live options, one per fetched value.
pub open spec fn live_vols(opts: Seq<IOptionV>, vols: Seq<Felt>, block_number: int) -> Seq<
    OptionVolatilityV,
> {
    Seq::new(
        opts.len(),
        |i: int|
            OptionVolatilityV {
                option_address: opts[i].option_address,
                block_number: block_number,
                volatility: hex_string(felt_value(vols[i])),
            },
    )
}

/// The block's volatility batch: zero entries for the expired options
/// followed by one entry per live option, only if every live option's
/// volatility call came back. A single failed call fails the whole block's
/// volatility fetch, so the block is retried rather than committed short.
pub fn volatilities_from_results(
    expired: &Vec<IOption>,
    live: &Vec<IOption>,
    results: &Vec<Option<Felt>>,
    block_number: i64,
) -> (r: Option<Vec<OptionVolatility>>)
    requires
        results@.len() == live@.len(),
    ensures
        r is Some <==> (forall|i: int| 0 <= i < results@.len() ==> #[trigger] results@[i] is Some),
        r matches Some(v) ==> {
            let vals = Seq::new(results@.len(), |i: int| results@[i]->0);
            v@.map_values(|ov: OptionVolatility| ov@) == zero_vols(
                option_views(expired@),
                block_number as int,
            ) + live_vols(option_views(live@), vals, block_number as int)
        },
{
    let mut v: Vec<OptionVolatility> = Vec::new();
    let zero_hex = felt_to_hex(&Felt::from_u64(0));
    let ne = expired.len();
    let mut i: usize = 0;
    while i < ne
        invariant
            0 <= i <= ne,
            ne == expired@.len(),
            zero_hex@ == hex_string(0),
            v@.len() == i,
            forall|k: int| 0 <= k < i ==> #[trigger] v@[k]@ == zero_vols(
                option_views(expired@),
                block_number as int,
            )[k],
        decreases ne - i,
    {
        v.push(
            OptionVolatility {
                option_address: expired[i].option_address.clone(),
                block_number,
                volatility: zero_hex.clone(),
            },
        );
        i = i + 1;
    }
    let nl = live.len();
    let mut j: usize = 0;
    while j < nl
        invariant
            0 <= j <= nl,
            nl == live@.len() == results@.len(),
            ne == expired@.len(),
            v@.len() == ne + j,
            forall|k: int| 0 <= k < j ==> #[trigger] results@[k] is Some,
            forall|k: int| 0 <= k < ne ==> #[trigger] v@[k]@ == zero_vols(
                option_views(expired@),
                block_number as int,
            )[k],
            forall|k: int| 0 <= k < j ==> #[trigger] v@[ne + k]@ == (OptionVolatilityV {
                option_address: live@[k]@.option_address,
                block_number: block_number as int,
                volatility: hex_string(felt_value(results@[k]->0)),
            }),
        decreases nl - j,
    {
        match &results[j] {
            Some(f) => {
                v.push(
                    OptionVolatility {
                        option_address: live[j].option_address.clone(),
                        block_number,
                        volatility: felt_to_hex(f),
                    },
                );
            },
            None => {
                return None;
            },
        }
        j = j + 1;
    }
    proof {
        let vals = Seq::new(results@.len(), |i: int| results@[i]->0);
        assert forall|k: int| 0 <= k < v@.len() implies v@.map_values(|ov: OptionVolatility| ov@)[k]
            == (zero_vols(option_views(expired@), block_number as int) + live_vols(
            option_views(live@),
            vals,
            block_number as int,
        ))[k] by {
            if k < ne {
                assert(v@[k]@ == zero_vols(option_views(expired@), block_number as int)[k]);
            } else {
                assert(v@[ne + (k - ne)]@ == OptionVolatilityV {
                    option_address: live@[k - ne]@.option_address,
                    block_number: block_number as int,
                    volatility: hex_string(felt_value(results@[k - ne]->0)),
                });
            }
        }
        assert(v@.map_values(|ov: OptionVolatility| ov@) =~= zero_vols(
            option_views(expired@),
            block_number as int,
        ) + live_vols(option_views(live@), vals, block_number as int));
    }
    Some(v)
}

/// The block header the syncer persists, when both raw header fields fit
/// their signed columns.
pub fn block_header(block_number: u64, timestamp: u64) -> (r: Option<DbBlock>)
    ensures
        r is Some <==> block_number <= i64::MAX && timestamp <= i64::MAX,
        r matches Some(b) ==> b.block_number == block_number && b.timestamp == timestamp,
{
    if block_number <= 0x7fffffffffffffff && timestamp <= 0x7fffffffffffffff {
        Some(DbBlock { block_number: block_number as i64, timestamp: timestamp as i64 })
    } else {
        None
    }
}

} // verus!
