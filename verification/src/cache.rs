//! The incremental merge cache: the last successfully materialized events,
//! options, non-expired roster and trade history for one network. Each
//! refresh takes the freshly read or fetched data as plain values — the
//! store and chain access happen outside — and the roster refresh keeps the
//! prior roster whenever the fetch is malformed, so previously known data
//! is never lost to a partial fetch failure.

use crate::roster::{
    lemma_roster_refresh_no_duplicates, merge_roster, no_duplicate_records, roster_refresh,
};
use crate::trade::{generate_trade_history, spec_trade_history, sorted_by_ts};
use crate::types::{
    clone_strings, clone_trade_history, event_views, option_views, str_views, th_views, AppData,
    Event, IOption, TradeHistory,
};
use crate::Network;
use vstd::prelude::*;

verus! {

/// The per-network cache of materialized views.
pub struct Cache {
    pub network: Network,
    pub call_pool_address: String,
    pub put_pool_address: String,
    pub events: Vec<Event>,
    pub options: Vec<IOption>,
    pub all_non_expired: Vec<String>,
    pub trade_history: Vec<TradeHistory>,
}

impl Cache {
    /// The roster always holds whole records, no two of them field-wise
    /// identical.
    pub open spec fn wf(self) -> bool {
        self.all_non_expired@.len() % 7 == 0 && no_duplicate_records(
            str_views(self.all_non_expired@),
        )
    }

    /// The trade-history view is current: derived from the cached events,
    /// options and pool addresses.
    pub open spec fn history_current(self) -> bool {
        th_views(self.trade_history@) == spec_trade_history(
            event_views(self.events@),
            option_views(self.options@),
            self.call_pool_address@,
            self.put_pool_address@,
        )
    }

    /// A cache primed from the persisted events and options and one fresh
    /// roster fetch. The fetched roster passes through the same validation
    /// and dedup-then-prune as every later refresh (a malformed fetch
    /// yields an empty roster), and the trade history is derived at once.
    pub fn new(
        network: Network,
        call_pool_address: String,
        put_pool_address: String,
        events: Vec<Event>,
        options: Vec<IOption>,
        fetched_roster: &Vec<String>,
        now: u64,
    ) -> (r: Cache)
        ensures
            r.wf(),
            r.history_current(),
            r.network == network,
            r.call_pool_address == call_pool_address,
            r.put_pool_address == put_pool_address,
            r.events == events,
            r.options == options,
            str_views(r.all_non_expired@) == roster_refresh(
                Seq::empty(),
                str_views(fetched_roster@),
                now,
            ),
    {
        let empty: Vec<String> = Vec::new();
        proof {
            assert(str_views(empty@) =~= Seq::<Seq<char>>::empty());
            lemma_roster_refresh_no_duplicates(
                Seq::<Seq<char>>::empty(),
                str_views(fetched_roster@),
                now,
            );
        }
        let all_non_expired = merge_roster(&empty, fetched_roster, now);
        let trade_history = generate_trade_history(
            &events,
            &options,
            &call_pool_address,
            &put_pool_address,
        );
        Cache {
            network,
            call_pool_address,
            put_pool_address,
            events,
            options,
            all_non_expired,
            trade_history,
        }
    }

    /// The cached non-expired roster, as fetched and merged.
    pub fn get_all_non_expired(&self) -> (r: Vec<String>)
        ensures
            str_views(r@) == str_views(self.all_non_expired@),
    {
        clone_strings(&self.all_non_expired)
    }

    /// The cached trade-history view, ascending by timestamp.
    pub fn get_trade_history(&self) -> (r: Vec<TradeHistory>)
        ensures
            th_views(r@) == th_views(self.trade_history@),
    {
        clone_trade_history(&self.trade_history)
    }

    /// The read-only snapshot served to the outside: the current roster and
    /// trade history together.
    pub fn get_app_data(&self) -> (r: AppData)
        ensures
            str_views(r.all_non_expired@) == str_views(self.all_non_expired@),
            th_views(r.trade_history@) == th_views(self.trade_history@),
    {
        AppData {
            all_non_expired: self.get_all_non_expired(),
            trade_history: self.get_trade_history(),
        }
    }

    /// Replaces the in-memory option map wholesale with the re-read store
    /// contents; nothing else changes (the trade history is not rederived
    /// until its own refresh runs).
    pub fn update_options(&mut self, options: Vec<IOption>)
        ensures
            final(self).options == options,
            final(self).network == old(self).network,
            final(self).call_pool_address == old(self).call_pool_address,
            final(self).put_pool_address == old(self).put_pool_address,
            final(self).events == old(self).events,
            final(self).all_non_expired == old(self).all_non_expired,
            final(self).trade_history == old(self).trade_history,
    {
        self.options = options;
    }

    /// Replaces the in-memory event list wholesale with the re-read store
    /// contents; nothing else changes.
    pub fn update_events(&mut self, events: Vec<Event>)
        ensures
            final(self).events == events,
            final(self).network == old(self).network,
            final(self).call_pool_address == old(self).call_pool_address,
            final(self).put_pool_address == old(self).put_pool_address,
            final(self).options == old(self).options,
            final(self).all_non_expired == old(self).all_non_expired,
            final(self).trade_history == old(self).trade_history,
    {
        self.events = events;
    }

    /// One roster refresh against a fresh fetch: a malformed fetch (length
    /// not a non-zero multiple of the record width) is rejected and the
    /// cached roster kept unchanged; otherwise new records are appended by
    /// exact-record dedup and every record whose expiry is at or before
    /// `now` is dropped.
    pub fn update_all_non_expired(&mut self, fetched: &Vec<String>, now: u64)
        requires
            old(self).wf(),
        ensures
            final(self).wf(),
            str_views(final(self).all_non_expired@) == roster_refresh(
                str_views(old(self).all_non_expired@),
                str_views(fetched@),
                now,
            ),
            final(self).network == old(self).network,
            final(self).call_pool_address == old(self).call_pool_address,
            final(self).put_pool_address == old(self).put_pool_address,
            final(self).events == old(self).events,
            final(self).options == old(self).options,
            final(self).trade_history == old(self).trade_history,
    {
        proof {
            lemma_roster_refresh_no_duplicates(
                str_views(self.all_non_expired@),
                str_views(fetched@),
                now,
            );
        }
        self.all_non_expired = merge_roster(&self.all_non_expired, fetched, now);
    }

    /// Fully recomputes the trade-history view from the cached events and
    /// options; nothing else changes.
    pub fn update_trade_history(&mut self)
        ensures
            final(self).history_current(),
            sorted_by_ts(th_views(final(self).trade_history@)),
            final(self).network == old(self).network,
            final(self).call_pool_address == old(self).call_pool_address,
            final(self).put_pool_address == old(self).put_pool_address,
            final(self).events == old(self).events,
            final(self).options == old(self).options,
            final(self).all_non_expired == old(self).all_non_expired,
    {
        self.trade_history = generate_trade_history(
            &self.events,
            &self.options,
            &self.call_pool_address,
            &self.put_pool_address,
        );
    }

    /// One full refresh in the fixed order options, events, roster, trade
    /// history — the trade history last, since it reads the other views.
    pub fn update(
        &mut self,
        options: Vec<IOption>,
        events: Vec<Event>,
        fetched_roster: &Vec<String>,
        now: u64,
    )
        requires
            old(self).wf(),
        ensures
            final(self).wf(),
            final(self).history_current(),
            final(self).options == options,
            final(self).events == events,
            str_views(final(self).all_non_expired@) == roster_refresh(
                str_views(old(self).all_non_expired@),
                str_views(fetched_roster@),
                now,
            ),
            final(self).network == old(self).network,
            final(self).call_pool_address == old(self).call_pool_address,
            final(self).put_pool_address == old(self).put_pool_address,
    {
        self.update_options(options);
        self.update_events(events);
        self.update_all_non_expired(fetched_roster, now);
        self.update_trade_history();
    }
}

} // verus!
