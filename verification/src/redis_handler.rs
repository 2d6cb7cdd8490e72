//! The publishing half of a handler that writes to capped streams: it buffers
//! the events of each kind and turns a flush into the capped appends that the
//! connection to the store is to carry out.

use vstd::prelude::*;
use crate::block::BlockHeight;
use crate::events::{BLOCK_INFO_STREAM, BlockInfoEvent, CLAIM_STREAM, ClaimEvent};
use crate::stream::{EventStream, FlushBatch, StreamEntry, is_batch_of, kept};

verus! {

/// The capped appends of one flush: for each log, the batch to append, or
/// `None` where its publisher holds nothing that is due.
#[derive(Clone, Debug, PartialEq, Eq)]
pub struct FlushPlan {
    pub block_info: Option<FlushBatch<BlockInfoEvent>>,
    pub claims: Option<FlushBatch<ClaimEvent>>,
}

/// The statistics event `event` as an entry of its log, under the height of its block.
pub open spec fn block_info_entry(event: BlockInfoEvent) -> StreamEntry<BlockInfoEvent> {
    StreamEntry { key: event.block_height, record: event }
}

/// The claim `event` as an entry of its log, under the height of its block.
pub open spec fn claim_entry(event: ClaimEvent) -> StreamEntry<ClaimEvent> {
    StreamEntry { key: event.block_height, record: event }
}

/// The log entries of the statistics events `events`, in their order.
pub open spec fn block_info_entries(events: Seq<BlockInfoEvent>) -> Seq<StreamEntry<BlockInfoEvent>> {
    events.map_values(|event: BlockInfoEvent| block_info_entry(event))
}

/// The log entries of the claims `events`, in their order.
pub open spec fn claim_entries(events: Seq<ClaimEvent>) -> Seq<StreamEntry<ClaimEvent>> {
    events.map_values(|event: ClaimEvent| claim_entry(event))
}

/// Buffers block statistics and claims, each kind for its own log, and caps
/// both logs at the same number of entries.
pub struct PushToRedisStream {
    block_info_stream: EventStream<BlockInfoEvent>,
    claim_stream: EventStream<ClaimEvent>,
    max_stream_size: usize,
}

impl PushToRedisStream {
    /// The most entries each log is to hold.
    pub closed spec fn max_stream_size(&self) -> usize {
        self.max_stream_size
    }

    /// The block statistics that no flush has taken yet, oldest first.
    pub closed spec fn pending_block_infos(&self) -> Seq<StreamEntry<BlockInfoEvent>> {
        self.block_info_stream.pending()
    }

    /// The claims that no flush has taken yet, oldest first.
    pub closed spec fn pending_claims(&self) -> Seq<StreamEntry<ClaimEvent>> {
        self.claim_stream.pending()
    }

    /// Name of the log of the block statistics.
    pub closed spec fn block_info_stream(&self) -> Seq<char> {
        self.block_info_stream.name()
    }

    /// Name of the log of the claims.
    pub closed spec fn claim_stream(&self) -> Seq<char> {
        self.claim_stream.name()
    }

    /// Nothing but the buffers differs between `self` and `other`.
    pub open spec fn same_setup(&self, other: &Self) -> bool {
        &&& self.max_stream_size() == other.max_stream_size()
        &&& self.block_info_stream() == other.block_info_stream()
        &&& self.claim_stream() == other.claim_stream()
    }

    /// A handler with nothing buffered, for logs of at most `max_stream_size` entries.
    pub fn new(max_stream_size: usize) -> (handler: Self)
        ensures
            handler.max_stream_size() == max_stream_size,
            handler.block_info_stream() == BLOCK_INFO_STREAM@,
            handler.claim_stream() == CLAIM_STREAM@,
            handler.pending_block_infos() == Seq::<StreamEntry<BlockInfoEvent>>::empty(),
            handler.pending_claims() == Seq::<StreamEntry<ClaimEvent>>::empty(),
    {
        PushToRedisStream {
            block_info_stream: EventStream::new(BLOCK_INFO_STREAM.to_owned()),
            claim_stream: EventStream::new(CLAIM_STREAM.to_owned()),
            max_stream_size,
        }
    }

    /// A handler with nothing buffered, for the logs of one network: their
    /// names end with `suffix`.
    pub fn with_suffix(max_stream_size: usize, suffix: &str) -> (handler: Self)
        ensures
            handler.max_stream_size() == max_stream_size,
            handler.block_info_stream() == BLOCK_INFO_STREAM@ + suffix@,
            handler.claim_stream() == CLAIM_STREAM@ + suffix@,
            handler.pending_block_infos() == Seq::<StreamEntry<BlockInfoEvent>>::empty(),
            handler.pending_claims() == Seq::<StreamEntry<ClaimEvent>>::empty(),
    {
        PushToRedisStream {
            block_info_stream: EventStream::new(BLOCK_INFO_STREAM.to_owned().concat(suffix)),
            claim_stream: EventStream::new(CLAIM_STREAM.to_owned().concat(suffix)),
            max_stream_size,
        }
    }

    /// The cap on the number of entries of each log.
    pub fn stream_size_limit(&self) -> (limit: usize)
        ensures
            limit == self.max_stream_size(),
    {
        self.max_stream_size
    }

    /// Buffers the statistics of one block for its log, under the height of the block.
    pub fn handle_block_info(&mut self, event: BlockInfoEvent)
        ensures
            final(self).pending_block_infos() == old(self).pending_block_infos().push(
                block_info_entry(event),
            ),
            final(self).pending_claims() == old(self).pending_claims(),
            final(self).same_setup(old(self)),
    {
        let key = event.ordering_key();
        self.block_info_stream.publish(event, key);
    }

    /// Buffers one claim for its log, under the height of its block.
    pub fn handle_claim(&mut self, event: ClaimEvent)
        ensures
            final(self).pending_block_infos() == old(self).pending_block_infos(),
            final(self).pending_claims() == old(self).pending_claims().push(claim_entry(event)),
            final(self).same_setup(old(self)),
    {
        let key = event.ordering_key();
        self.claim_stream.publish(event, key);
    }

    /// Takes out of both buffers what is due at `block_height` and returns the
    /// capped appends that make it durable. A publisher with nothing due gets no batch.
    pub fn flush_events(&mut self, block_height: BlockHeight) -> (plan: FlushPlan)
        ensures
            final(self).pending_block_infos() == kept(old(self).pending_block_infos(), block_height),
            final(self).pending_claims() == kept(old(self).pending_claims(), block_height),
            final(self).same_setup(old(self)),
            is_batch_of(
                plan.block_info,
                old(self).pending_block_infos(),
                block_height,
                old(self).block_info_stream(),
                old(self).max_stream_size(),
            ),
            is_batch_of(
                plan.claims,
                old(self).pending_claims(),
                block_height,
                old(self).claim_stream(),
                old(self).max_stream_size(),
            ),
    {
        let block_info = self.block_info_stream.flush(block_height, self.max_stream_size);
        let claims = self.claim_stream.flush(block_height, self.max_stream_size);
        FlushPlan { block_info, claims }
    }
}

} // verus!
