//! The block-range synchronization state machine: determine the resume
//! range from the persisted watermark and the chain head, walk it strictly
//! in order, commit a block only when every required sub-fetch succeeded,
//! and on any failure re-target the same block after a fixed backoff —
//! indefinitely, so a wedged block blocks all later blocks by design. The
//! clock and the fetches themselves are injected by the caller, which
//! performs the waiting and the chain access.

use crate::types::{DbBlock, OptionVolatility, OraclePrice, PoolState};
use vstd::prelude::*;

verus! {

/// Everything that must be persisted for one block as one logical unit.
pub struct BlockData {
    pub header: DbBlock,
    pub pool_states: Vec<PoolState>,
    pub volatilities: Vec<OptionVolatility>,
    pub oracle_price: OraclePrice,
}

/// The commit rule: a block's data is formed only if the header and all
/// three derived record sets were obtained. One missing piece yields
/// nothing, so no partial record for the block can reach the store.
pub fn commit_block(
    header: Option<DbBlock>,
    pool_states: Option<Vec<PoolState>>,
    volatilities: Option<Vec<OptionVolatility>>,
    oracle_price: Option<OraclePrice>,
) -> (r: Option<BlockData>)
    ensures
        r is Some <==> header is Some && pool_states is Some && volatilities is Some
            && oracle_price is Some,
        r matches Some(b) ==> b.header == header->0 && b.pool_states == pool_states->0
            && b.volatilities == volatilities->0 && b.oracle_price == oracle_price->0,
{
    match (header, pool_states, volatilities, oracle_price) {
        (Some(h), Some(ps), Some(vs), Some(op)) => Some(
            BlockData { header: h, pool_states: ps, volatilities: vs, oracle_price: op },
        ),
        _ => None,
    }
}

/// Block commit is all-or-nothing: under the commit rule, a failure of any
/// of the four sub-fetches leaves nothing to persist for the block.
pub proof fn lemma_commit_all_or_nothing(
    header: Option<DbBlock>,
    pool_states: Option<Vec<PoolState>>,
    volatilities: Option<Vec<OptionVolatility>>,
    oracle_price: Option<OraclePrice>,
    r: Option<BlockData>,
)
    requires
        r is Some <==> header is Some && pool_states is Some && volatilities is Some
            && oracle_price is Some,
    ensures
        header is None || pool_states is None || volatilities is None || oracle_price is None
            ==> r is None,
{
}

/// The range a sync pass covers: from just past the highest persisted block
/// up to the chain head; nothing to do when the store has caught up.
pub fn determine_range(last_persisted: i64, chain_head: i64) -> (r: Option<(i64, i64)>)
    requires
        last_persisted < i64::MAX,
    ensures
        r is Some <==> last_persisted + 1 < chain_head,
        r matches Some(p) ==> p.0 == last_persisted + 1 && p.1 == chain_head,
{
    let start = last_persisted + 1;
    if start < chain_head {
        Some((start, chain_head))
    } else {
        None
    }
}

/// The cursor of one contiguous sync pass. The caller fetches the block
/// `current` names, reports the outcome, and sleeps for the returned
/// backoff after a failure; the cursor only ever advances on success.
pub struct RangeWalk {
    pub next: i64,
    pub finish: i64,
    pub increment: i64,
    pub backoff_secs: u64,
}

impl RangeWalk {
    /// The walk's internal consistency: a positive step that cannot push
    /// the cursor past representable block numbers.
    pub open spec fn wf(self) -> bool {
        0 <= self.next && 0 <= self.finish && 1 <= self.increment && self.finish <= i64::MAX
            - self.increment && self.next <= self.finish + self.increment
    }

    /// A walk over `start..=finish` with the given step and backoff.
    pub fn new(start: i64, finish: i64, increment: i64, backoff_secs: u64) -> (r: RangeWalk)
        requires
            0 <= start <= finish,
            1 <= increment,
            finish <= i64::MAX - increment,
        ensures
            r.wf(),
            r.next == start,
            r.finish == finish,
            r.increment == increment,
            r.backoff_secs == backoff_secs,
    {
        RangeWalk { next: start, finish, increment, backoff_secs }
    }

    /// The block to fetch next, or nothing once the cursor has passed the
    /// end of the range.
    pub fn current(&self) -> (r: Option<i64>)
        ensures
            r is Some <==> self.next <= self.finish,
            r matches Some(n) ==> n == self.next,
    {
        if self.next <= self.finish {
            Some(self.next)
        } else {
            None
        }
    }

    /// After a fully committed block the cursor advances by the step; the
    /// rest of the walk is unchanged.
    pub fn record_success(&mut self)
        requires
            old(self).wf(),
            old(self).next <= old(self).finish,
        ensures
            final(self).wf(),
            final(self).next == old(self).next + old(self).increment,
            final(self).finish == old(self).finish,
            final(self).increment == old(self).increment,
            final(self).backoff_secs == old(self).backoff_secs,
    {
        self.next = self.next + self.increment;
    }

    /// After any sub-fetch failure the walk is left exactly as it was — the
    /// next attempt re-targets the same block — and the caller is told how
    /// long to back off before retrying.
    pub fn record_failure(&mut self) -> (backoff: u64)
        ensures
            *final(self) == *old(self),
            backoff == old(self).backoff_secs,
    {
        self.backoff_secs
    }
}

/// The cursor of a gap-fill pass: the same fetch/commit/retry discipline
/// applied to an explicit list of previously skipped block numbers,
/// independent of the contiguous-range watermark.
pub struct GapWalk {
    pub blocks: Vec<i64>,
    pub idx: usize,
    pub backoff_secs: u64,
}

impl GapWalk {
    /// A walk over the listed blocks, in order.
    pub fn new(blocks: Vec<i64>, backoff_secs: u64) -> (r: GapWalk)
        ensures
            r.blocks == blocks,
            r.idx == 0,
            r.backoff_secs == backoff_secs,
    {
        GapWalk { blocks, idx: 0, backoff_secs }
    }

    /// The block to fetch next, or nothing once every listed block is done.
    pub fn current(&self) -> (r: Option<i64>)
        ensures
            r is Some <==> self.idx < self.blocks@.len(),
            r matches Some(n) ==> n == self.blocks@[self.idx as int],
    {
        if self.idx < self.blocks.len() {
            Some(self.blocks[self.idx])
        } else {
            None
        }
    }

    /// After a fully committed block the walk moves to the next listed one.
    pub fn record_success(&mut self)
        requires
            old(self).idx < old(self).blocks@.len(),
        ensures
            final(self).idx == old(self).idx + 1,
            final(self).blocks == old(self).blocks,
            final(self).backoff_secs == old(self).backoff_secs,
    {
        let bound = self.blocks.len();
        assert(self.idx < bound);
        self.idx = self.idx + 1;
    }

    /// After any sub-fetch failure the walk is left exactly as it was; the
    /// same listed block is re-attempted after the returned backoff.
    pub fn record_failure(&mut self) -> (backoff: u64)
        ensures
            *final(self) == *old(self),
            backoff == old(self).backoff_secs,
    {
        self.backoff_secs
    }
}

} // verus!
