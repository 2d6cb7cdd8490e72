//! A relay from a feed of blocks to capped event logs: it derives events from
//! each block and publishes them, block by block, in the order of the heights.

pub mod account;
pub mod block;
pub mod driver;
pub mod error;
pub mod events;
pub mod extractor;
pub mod memory;
pub mod range;
pub mod redis_handler;
pub mod stream;

use vstd::prelude::*;
use crate::block::{Block, BlockHeight, Receipt, Transaction};
use crate::error::{PipelineError, SinkUnavailable};
use crate::events::{BlockInfoEvent, ClaimEvent};
use crate::extractor::{
    ClaimFilter, block_info_of, block_info_views, claim_views, claims_of, extract_block_info,
    extract_claim_events,
};

verus! {

/// `after` begins with all of `before`: nothing that was there was lost or changed.
pub open spec fn extends<E>(before: Seq<E>, after: Seq<E>) -> bool {
    before.is_prefix_of(after)
}

/// What `after` holds beyond `before`, where it extends it.
pub open spec fn added<E>(before: Seq<E>, after: Seq<E>) -> Seq<E> {
    after.skip(before.len() as int)
}

/// What was added in two steps is what the first step added, followed by what
/// the second added.
pub proof fn lemma_added_in_steps<E>(before: Seq<E>, between: Seq<E>, after: Seq<E>)
    requires
        extends(before, between),
        extends(between, after),
    ensures
        extends(before, after),
        added(before, after) == added(before, between) + added(between, after),
{
}

/// Receives the events of the pipeline and flushes them block by block.
///
/// The model functions say what an implementation has been handed so far, and
/// what it keeps true of itself. An implementation that is verified defines
/// them over its own state; the bodies given here serve implementations that
/// are not, of which nothing is proved.
pub trait TpsEventHandler: Send + Sync {
    /// Every block statistics event handed over so far, oldest first.
    open spec fn block_infos(&self) -> Seq<BlockInfoEvent> {
        Seq::empty()
    }

    /// Every claim handed over so far, oldest first.
    open spec fn claims(&self) -> Seq<ClaimEvent> {
        Seq::empty()
    }

    /// The heights at which a flush succeeded, oldest first.
    open spec fn checkpoints(&self) -> Seq<BlockHeight> {
        Seq::empty()
    }

    /// What the implementation keeps true of its own state from call to call.
    open spec fn well_formed(&self) -> bool {
        true
    }

    /// Takes the statistics of one block.
    fn handle_block_info(&mut self, event: BlockInfoEvent)
        ensures
            final(self).block_infos() == old(self).block_infos().push(event),
            final(self).claims() == old(self).claims(),
            final(self).checkpoints() == old(self).checkpoints(),
            old(self).well_formed() ==> final(self).well_formed(),
    ;

    /// Takes one claim.
    fn handle_claim(&mut self, event: ClaimEvent)
        ensures
            final(self).block_infos() == old(self).block_infos(),
            final(self).claims() == old(self).claims().push(event),
            final(self).checkpoints() == old(self).checkpoints(),
            old(self).well_formed() ==> final(self).well_formed(),
    ;

    /// Called after each block: makes every event handed over for a block up to
    /// `block_height` durable, or fails.
    fn flush_events(&mut self, block_height: BlockHeight) -> (result: Result<(), SinkUnavailable>)
        ensures
            final(self).block_infos() == old(self).block_infos(),
            final(self).claims() == old(self).claims(),
            result is Ok ==> final(self).checkpoints() == old(self).checkpoints().push(
                block_height,
            ),
            result is Err ==> final(self).checkpoints() == old(self).checkpoints(),
            old(self).well_formed() ==> final(self).well_formed(),
    ;
}

/// Derives the events of each block and receipt and hands them to its handler.
pub struct TpsIndexer<T: TpsEventHandler>(pub T);

impl<T: TpsEventHandler> TpsIndexer<T> {
    /// Hands the statistics of `block` to the handler.
    pub fn process_block(&mut self, block: &Block) -> (result: Result<(), PipelineError>)
        ensures
            result is Ok,
            extends(old(self).0.block_infos(), final(self).0.block_infos()),
            block_info_views(added(old(self).0.block_infos(), final(self).0.block_infos()))
                == seq![block_info_of(*block)],
            final(self).0.claims() == old(self).0.claims(),
            final(self).0.checkpoints() == old(self).0.checkpoints(),
            old(self).0.well_formed() ==> final(self).0.well_formed(),
    {
        let event = extract_block_info(block);
        self.0.handle_block_info(event);
        proof {
            let before = old(self).0.block_infos();
            assert(added(before, before.push(event)) == seq![event]);
            assert(block_info_views(seq![event]) == seq![event@]);
        }
        Ok(())
    }

    /// Hands the claims of `receipt` to the handler, in the order of its actions.
    pub fn on_receipt(
        &mut self,
        filter: &ClaimFilter,
        receipt: &Receipt,
        transaction: &Transaction,
        block: &Block,
    ) -> (result: Result<(), PipelineError>)
        ensures
            result is Ok,
            final(self).0.block_infos() == old(self).0.block_infos(),
            extends(old(self).0.claims(), final(self).0.claims()),
            claim_views(added(old(self).0.claims(), final(self).0.claims())) == claims_of(
                *filter,
                *receipt,
                *transaction,
                *block,
            ),
            final(self).0.checkpoints() == old(self).0.checkpoints(),
            old(self).0.well_formed() ==> final(self).0.well_formed(),
    {
        let events = extract_claim_events(filter, receipt, transaction, block);
        let ghost found = events@;
        let ghost before = self.0.claims();
        for event in it: events
            invariant
                it.seq() == found,
                self.0.block_infos() == old(self).0.block_infos(),
                self.0.claims() == before + found.take(it.index()),
                self.0.checkpoints() == old(self).0.checkpoints(),
                old(self).0.well_formed() ==> self.0.well_formed(),
        {
            proof {
                assert(found.take(it.index() + 1) == found.take(it.index()).push(event));
            }
            self.0.handle_claim(event);
        }
        proof {
            assert(found.take(found.len() as int) == found);
            assert(extends(before, before + found));
            assert(added(before, before + found) == found);
        }
        Ok(())
    }

    /// Flushes the handler at the height of `block`.
    pub fn process_block_end(&mut self, block: &Block) -> (result: Result<(), PipelineError>)
        ensures
            final(self).0.block_infos() == old(self).0.block_infos(),
            final(self).0.claims() == old(self).0.claims(),
            result is Ok ==> final(self).0.checkpoints() == old(self).0.checkpoints().push(
                block.header.height,
            ),
            result is Err ==> result == Err::<(), PipelineError>(PipelineError::SinkUnavailable)
                && final(self).0.checkpoints() == old(self).0.checkpoints(),
            old(self).0.well_formed() ==> final(self).0.well_formed(),
    {
        match self.0.flush_events(block.header.height) {
            Ok(()) => Ok(()),
            Err(_) => Err(PipelineError::SinkUnavailable),
        }
    }
}

} // verus!
