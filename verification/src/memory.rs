//! A handler that keeps its logs in memory: the publishing half of the stream
//! handler, joined to a capped log for each kind of event.

use vstd::prelude::*;
use crate::block::BlockHeight;
use crate::driver::{
    FeedBlock, feed_block_infos, feed_claims, lemma_relayed_in_ascending_order, relayed,
};
use crate::error::SinkUnavailable;
use crate::events::{BlockInfoEvent, ClaimEvent};
use crate::extractor::{ClaimFilter, block_info_views, claim_views};
use crate::{TpsEventHandler, added};
use crate::redis_handler::{
    FlushPlan, PushToRedisStream, block_info_entries, block_info_entry, claim_entries, claim_entry,
};
use crate::stream::{
    BoundedLog, StreamEntry, capped_append, due, kept, lemma_follows_after_flush,
    lemma_follows_after_publish, log_follows, most_recent,
};

verus! {

/// Receives events, and on each flush appends what is due to its two capped logs.
/// It can be made unreachable, and then fails every flush.
pub struct MemoryHandler {
    publisher: PushToRedisStream,
    block_info_log: BoundedLog<BlockInfoEvent>,
    claim_log: BoundedLog<ClaimEvent>,
    flushed: Vec<BlockHeight>,
    reachable: bool,
    handed_block_infos: Ghost<Seq<BlockInfoEvent>>,
    handed_claims: Ghost<Seq<ClaimEvent>>,
    appended_block_infos: Ghost<Seq<StreamEntry<BlockInfoEvent>>>,
    appended_claims: Ghost<Seq<StreamEntry<ClaimEvent>>>,
}

impl MemoryHandler {
    /// The most entries each log holds.
    pub closed spec fn max_stream_size(&self) -> usize {
        self.publisher.max_stream_size()
    }

    /// Whether a flush goes through.
    pub closed spec fn reachable(&self) -> bool {
        self.reachable
    }

    /// The block statistics that wait for a flush, oldest first.
    pub closed spec fn pending_block_infos(&self) -> Seq<StreamEntry<BlockInfoEvent>> {
        self.publisher.pending_block_infos()
    }

    /// The claims that wait for a flush, oldest first.
    pub closed spec fn pending_claims(&self) -> Seq<StreamEntry<ClaimEvent>> {
        self.publisher.pending_claims()
    }

    /// Every entry that was ever appended to the log of block statistics, oldest first.
    pub closed spec fn appended_block_infos(&self) -> Seq<StreamEntry<BlockInfoEvent>> {
        self.appended_block_infos@
    }

    /// Every entry that was ever appended to the log of claims, oldest first.
    pub closed spec fn appended_claims(&self) -> Seq<StreamEntry<ClaimEvent>> {
        self.appended_claims@
    }

    /// The entries that the log of block statistics holds, oldest first.
    pub closed spec fn block_info_log(&self) -> Seq<StreamEntry<BlockInfoEvent>> {
        self.block_info_log@
    }

    /// The entries that the log of claims holds, oldest first.
    pub closed spec fn claim_log(&self) -> Seq<StreamEntry<ClaimEvent>> {
        self.claim_log@
    }

    /// A reachable handler with empty logs of at most `max_stream_size` entries.
    pub fn new(max_stream_size: usize) -> (handler: Self)
        ensures
            handler.well_formed(),
            handler.reachable(),
            handler.max_stream_size() == max_stream_size,
            handler.block_infos() == Seq::<BlockInfoEvent>::empty(),
            handler.claims() == Seq::<ClaimEvent>::empty(),
            handler.checkpoints() == Seq::<BlockHeight>::empty(),
            handler.block_info_log() == Seq::<StreamEntry<BlockInfoEvent>>::empty(),
            handler.claim_log() == Seq::<StreamEntry<ClaimEvent>>::empty(),
            handler.pending_block_infos() == Seq::<StreamEntry<BlockInfoEvent>>::empty(),
            handler.pending_claims() == Seq::<StreamEntry<ClaimEvent>>::empty(),
            handler.appended_block_infos() == Seq::<StreamEntry<BlockInfoEvent>>::empty(),
            handler.appended_claims() == Seq::<StreamEntry<ClaimEvent>>::empty(),
    {
        let handler = MemoryHandler {
            publisher: PushToRedisStream::new(max_stream_size),
            block_info_log: BoundedLog::new(),
            claim_log: BoundedLog::new(),
            flushed: Vec::new(),
            reachable: true,
            handed_block_infos: Ghost(Seq::empty()),
            handed_claims: Ghost(Seq::empty()),
            appended_block_infos: Ghost(Seq::empty()),
            appended_claims: Ghost(Seq::empty()),
        };
        proof {
            let none_b = Seq::<StreamEntry<BlockInfoEvent>>::empty();
            let none_c = Seq::<StreamEntry<ClaimEvent>>::empty();
            assert(none_b + none_b == block_info_entries(Seq::<BlockInfoEvent>::empty()));
            assert(none_c + none_c == claim_entries(Seq::<ClaimEvent>::empty()));
        }
        handler
    }

    /// Makes the logs reachable or unreachable for the flushes to come.
    pub fn set_reachable(&mut self, reachable: bool)
        ensures
            final(self).reachable() == reachable,
            final(self).max_stream_size() == old(self).max_stream_size(),
            final(self).block_infos() == old(self).block_infos(),
            final(self).claims() == old(self).claims(),
            final(self).checkpoints() == old(self).checkpoints(),
            final(self).block_info_log() == old(self).block_info_log(),
            final(self).claim_log() == old(self).claim_log(),
            final(self).pending_block_infos() == old(self).pending_block_infos(),
            final(self).pending_claims() == old(self).pending_claims(),
            final(self).appended_block_infos() == old(self).appended_block_infos(),
            final(self).appended_claims() == old(self).appended_claims(),
            old(self).well_formed() ==> final(self).well_formed(),
    {
        self.reachable = reachable;
    }

    /// Neither log holds more entries than the cap allows.
    pub proof fn lemma_logs_are_bounded(&self)
        requires
            self.well_formed(),
        ensures
            self.block_info_log().len() <= self.max_stream_size(),
            self.claim_log().len() <= self.max_stream_size(),
    {
    }

    /// Each log holds the most recent of the entries appended to it. And as
    /// long as the events of a kind were handed over with ascending heights,
    /// the entries appended, followed by those that wait for a flush, are the
    /// events in the order in which they were handed over.
    pub proof fn lemma_logs_keep_order(&self)
        requires
            self.well_formed(),
        ensures
            log_follows(
                self.block_info_log(),
                self.appended_block_infos(),
                self.pending_block_infos(),
                block_info_entries(self.block_infos()),
                self.max_stream_size() as nat,
            ),
            log_follows(
                self.claim_log(),
                self.appended_claims(),
                self.pending_claims(),
                claim_entries(self.claims()),
                self.max_stream_size() as nat,
            ),
    {
    }

    /// A run keeps the order of its feed. Where a handler that had been handed
    /// nothing was driven through the leading blocks of `feed`, the entries
    /// that were appended to each of its logs, followed by those that wait for
    /// a flush, are the events of those blocks in the order of the feed, and
    /// each log holds the most recent of the entries appended to it.
    pub proof fn lemma_run_keeps_order(
        before: MemoryHandler,
        after: MemoryHandler,
        filter: Option<ClaimFilter>,
        feed: Seq<FeedBlock>,
        handed: int,
        flushed: int,
    )
        requires
            relayed(before, after, filter, feed, handed, flushed),
            before.block_infos().len() == 0,
            before.claims().len() == 0,
            after.well_formed(),
        ensures
            block_info_views(after.block_infos()) == feed_block_infos(feed.take(handed)),
            claim_views(after.claims()) == feed_claims(filter, feed.take(handed)),
            after.appended_block_infos() + after.pending_block_infos() == block_info_entries(
                after.block_infos(),
            ),
            after.appended_claims() + after.pending_claims() == claim_entries(after.claims()),
            after.block_info_log() == most_recent(
                after.appended_block_infos(),
                after.max_stream_size() as nat,
            ),
            after.claim_log() == most_recent(
                after.appended_claims(),
                after.max_stream_size() as nat,
            ),
    {
        lemma_relayed_in_ascending_order(before, after, filter, feed, handed, flushed);
        assert(added(before.block_infos(), after.block_infos()) == after.block_infos());
        assert(added(before.claims(), after.claims()) == after.claims());
    }

    /// The entries that the log of block statistics holds, oldest first.
    pub fn logged_block_infos(&self) -> (entries: &Vec<StreamEntry<BlockInfoEvent>>)
        ensures
            entries@ == self.block_info_log(),
    {
        self.block_info_log.entries()
    }

    /// The entries that the log of claims holds, oldest first.
    pub fn logged_claims(&self) -> (entries: &Vec<StreamEntry<ClaimEvent>>)
        ensures
            entries@ == self.claim_log(),
    {
        self.claim_log.entries()
    }

    /// The heights at which a flush succeeded, oldest first.
    pub fn flushed_heights(&self) -> (heights: &Vec<BlockHeight>)
        ensures
            heights@ == self.checkpoints(),
    {
        &self.flushed
    }
}

impl TpsEventHandler for MemoryHandler {
    closed spec fn block_infos(&self) -> Seq<BlockInfoEvent> {
        self.handed_block_infos@
    }

    closed spec fn claims(&self) -> Seq<ClaimEvent> {
        self.handed_claims@
    }

    closed spec fn checkpoints(&self) -> Seq<BlockHeight> {
        self.flushed@
    }

    /// Each of the two logs follows its publisher.
    closed spec fn well_formed(&self) -> bool {
        &&& log_follows(
            self.block_info_log@,
            self.appended_block_infos@,
            self.publisher.pending_block_infos(),
            block_info_entries(self.handed_block_infos@),
            self.publisher.max_stream_size() as nat,
        )
        &&& log_follows(
            self.claim_log@,
            self.appended_claims@,
            self.publisher.pending_claims(),
            claim_entries(self.handed_claims@),
            self.publisher.max_stream_size() as nat,
        )
    }

    fn handle_block_info(&mut self, event: BlockInfoEvent)
        ensures
            final(self).pending_block_infos() == old(self).pending_block_infos().push(
                block_info_entry(event),
            ),
            final(self).pending_claims() == old(self).pending_claims(),
            final(self).block_info_log() == old(self).block_info_log(),
            final(self).claim_log() == old(self).claim_log(),
            final(self).appended_block_infos() == old(self).appended_block_infos(),
            final(self).appended_claims() == old(self).appended_claims(),
            final(self).reachable() == old(self).reachable(),
            final(self).max_stream_size() == old(self).max_stream_size(),
    {
        proof {
            let before = self.handed_block_infos@;
            assert(block_info_entries(before.push(event)) == block_info_entries(before).push(
                block_info_entry(event),
            ));
            if self.well_formed() {
                lemma_follows_after_publish(
                    self.block_info_log@,
                    self.appended_block_infos@,
                    self.publisher.pending_block_infos(),
                    block_info_entries(before),
                    self.publisher.max_stream_size() as nat,
                    block_info_entry(event),
                );
            }
            self.handed_block_infos@ = before.push(event);
        }
        self.publisher.handle_block_info(event);
    }

    fn handle_claim(&mut self, event: ClaimEvent)
        ensures
            final(self).pending_block_infos() == old(self).pending_block_infos(),
            final(self).pending_claims() == old(self).pending_claims().push(claim_entry(event)),
            final(self).block_info_log() == old(self).block_info_log(),
            final(self).claim_log() == old(self).claim_log(),
            final(self).appended_block_infos() == old(self).appended_block_infos(),
            final(self).appended_claims() == old(self).appended_claims(),
            final(self).reachable() == old(self).reachable(),
            final(self).max_stream_size() == old(self).max_stream_size(),
    {
        proof {
            let before = self.handed_claims@;
            assert(claim_entries(before.push(event)) == claim_entries(before).push(
                claim_entry(event),
            ));
            if self.well_formed() {
                lemma_follows_after_publish(
                    self.claim_log@,
                    self.appended_claims@,
                    self.publisher.pending_claims(),
                    claim_entries(before),
                    self.publisher.max_stream_size() as nat,
                    claim_entry(event),
                );
            }
            self.handed_claims@ = before.push(event);
        }
        self.publisher.handle_claim(event);
    }

    fn flush_events(&mut self, block_height: BlockHeight) -> (result: Result<(), SinkUnavailable>)
        ensures
            result is Ok <==> old(self).reachable(),
            final(self).reachable() == old(self).reachable(),
            final(self).max_stream_size() == old(self).max_stream_size(),
            result is Err ==> {
                &&& final(self).pending_block_infos() == old(self).pending_block_infos()
                &&& final(self).pending_claims() == old(self).pending_claims()
                &&& final(self).block_info_log() == old(self).block_info_log()
                &&& final(self).claim_log() == old(self).claim_log()
                &&& final(self).appended_block_infos() == old(self).appended_block_infos()
                &&& final(self).appended_claims() == old(self).appended_claims()
            },
            result is Ok ==> {
                &&& final(self).pending_block_infos() == kept(
                    old(self).pending_block_infos(),
                    block_height,
                )
                &&& final(self).pending_claims() == kept(old(self).pending_claims(), block_height)
                &&& final(self).appended_block_infos() == old(self).appended_block_infos() + due(
                    old(self).pending_block_infos(),
                    block_height,
                )
                &&& final(self).appended_claims() == old(self).appended_claims() + due(
                    old(self).pending_claims(),
                    block_height,
                )
            },
            result is Ok ==> {
                &&& final(self).block_info_log() == capped_append(
                    old(self).block_info_log(),
                    due(old(self).pending_block_infos(), block_height),
                    old(self).max_stream_size() as nat,
                )
                &&& final(self).claim_log() == capped_append(
                    old(self).claim_log(),
                    due(old(self).pending_claims(), block_height),
                    old(self).max_stream_size() as nat,
                )
            },
    {
        if !self.reachable {
            return Err(SinkUnavailable);
        }
        let ghost max = self.publisher.max_stream_size() as nat;
        let ghost pending_b = self.publisher.pending_block_infos();
        let ghost pending_c = self.publisher.pending_claims();
        proof {
            if self.well_formed() {
                lemma_follows_after_flush(
                    self.block_info_log@,
                    self.appended_block_infos@,
                    pending_b,
                    block_info_entries(self.handed_block_infos@),
                    max,
                    block_height,
                );
                lemma_follows_after_flush(
                    self.claim_log@,
                    self.appended_claims@,
                    pending_c,
                    claim_entries(self.handed_claims@),
                    max,
                    block_height,
                );
            }
            self.appended_block_infos@ = self.appended_block_infos@ + due(pending_b, block_height);
            self.appended_claims@ = self.appended_claims@ + due(pending_c, block_height);
        }
        let plan = self.publisher.flush_events(block_height);
        let FlushPlan { block_info, claims } = plan;
        if let Some(batch) = block_info {
            self.block_info_log.apply(batch);
        }
        if let Some(batch) = claims {
            self.claim_log.apply(batch);
        }
        self.flushed.push(block_height);
        Ok(())
    }
}

} // verus!
