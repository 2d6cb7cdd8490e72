//! The control loop of the pipeline: block by block, in the order of the
//! heights, it has the events derived and handed over, and then flushed.

use vstd::prelude::*;
use crate::block::{Block, BlockHeight, Receipt, Transaction};
use crate::error::PipelineError;
use crate::events::{BlockInfoEvent, BlockInfoEventView, ClaimEvent, ClaimEventView};
use crate::extractor::{ClaimFilter, block_info_of, block_info_views, claim_views, claims_of};
use crate::redis_handler::{block_info_entries, claim_entries};
use crate::stream::{keys_ascend, lemma_joined_keys_ascend};
use crate::{TpsEventHandler, TpsIndexer, added, extends, lemma_added_in_steps};

verus! {

/// Where the driver stands.
#[derive(Clone, Copy, Debug, PartialEq, Eq)]
pub enum DriverState {
    /// No block is in flight: before the first block, and after the last.
    Idle,
    /// The events of the block at this height are being derived and handed over.
    ProcessingBlock(BlockHeight),
    /// The events of the block at this height are being flushed.
    FlushingBlock(BlockHeight),
    /// The run has failed. Nothing leads out of this state.
    Failed,
}

/// What the driver is told.
#[derive(Clone, Copy, Debug, PartialEq, Eq)]
pub enum DriverEvent {
    /// The feed delivered its first block, at this height.
    BlockReceived(BlockHeight),
    /// Every event of the block in flight was handed to its publisher.
    EventsSubmitted,
    /// The flush of the block in flight went through, and the feed delivered
    /// the block at the height `next`, or has come to its end.
    FlushSucceeded { next: Option<BlockHeight> },
    /// An event of the block in flight could not be derived.
    ExtractionFailed,
    /// The flush of the block in flight failed.
    FlushFailed,
    /// The feed could not deliver the next block.
    FeedFailed,
}

/// What the driver has its caller do next.
#[derive(Clone, Copy, Debug, PartialEq, Eq)]
pub enum DriverAction {
    /// Derive the events of the block at this height and hand them to their publishers.
    Extract(BlockHeight),
    /// Flush every publisher that was handed an event, at this height.
    Flush(BlockHeight),
    /// Stop: the feed has come to its end and everything is flushed.
    Stop,
    /// Give up: the run has failed.
    Abort,
}

/// The state that follows `state` on `event`, and what is to be done then.
///
/// A block is taken up when none is in flight; its flush follows once its
/// events are handed over; the next block follows once the flush went
/// through, and has to stand at a greater height. A failure, and an event
/// that the state does not allow for, lead to `Failed`.
pub open spec fn next_step(state: DriverState, event: DriverEvent) -> (DriverState, DriverAction) {
    match (state, event) {
        (DriverState::Idle, DriverEvent::BlockReceived(height)) => (
            DriverState::ProcessingBlock(height),
            DriverAction::Extract(height),
        ),
        (DriverState::ProcessingBlock(height), DriverEvent::EventsSubmitted) => (
            DriverState::FlushingBlock(height),
            DriverAction::Flush(height),
        ),
        (DriverState::FlushingBlock(height), DriverEvent::FlushSucceeded { next: Some(next) }) => {
            if next > height {
                (DriverState::ProcessingBlock(next), DriverAction::Extract(next))
            } else {
                (DriverState::Failed, DriverAction::Abort)
            }
        },
        (DriverState::FlushingBlock(_), DriverEvent::FlushSucceeded { next: None }) => (
            DriverState::Idle,
            DriverAction::Stop,
        ),
        _ => (DriverState::Failed, DriverAction::Abort),
    }
}

/// Takes one step of the driver: from a state and an event to the state that
/// follows and the action to carry out.
pub fn step(state: DriverState, event: DriverEvent) -> (next: (DriverState, DriverAction))
    ensures
        next == next_step(state, event),
{
    match state {
        DriverState::Idle => match event {
            DriverEvent::BlockReceived(height) => (
                DriverState::ProcessingBlock(height),
                DriverAction::Extract(height),
            ),
            _ => (DriverState::Failed, DriverAction::Abort),
        },
        DriverState::ProcessingBlock(height) => match event {
            DriverEvent::EventsSubmitted => (
                DriverState::FlushingBlock(height),
                DriverAction::Flush(height),
            ),
            _ => (DriverState::Failed, DriverAction::Abort),
        },
        DriverState::FlushingBlock(height) => match event {
            DriverEvent::FlushSucceeded { next: Some(next) } => {
                if next > height {
                    (DriverState::ProcessingBlock(next), DriverAction::Extract(next))
                } else {
                    (DriverState::Failed, DriverAction::Abort)
                }
            },
            DriverEvent::FlushSucceeded { next: None } => (DriverState::Idle, DriverAction::Stop),
            _ => (DriverState::Failed, DriverAction::Abort),
        },
        DriverState::Failed => (DriverState::Failed, DriverAction::Abort),
    }
}

/// The height of the block in flight, where one is.
pub open spec fn height_in_flight(state: DriverState) -> Option<BlockHeight> {
    match state {
        DriverState::ProcessingBlock(height) => Some(height),
        DriverState::FlushingBlock(height) => Some(height),
        _ => None,
    }
}

/// Nothing leads out of `Failed`.
pub proof fn lemma_failed_is_final(event: DriverEvent)
    ensures
        next_step(DriverState::Failed, event) == (DriverState::Failed, DriverAction::Abort),
{
}

/// A flush is called for just when the events of the block in flight were
/// handed over, and at the height of that block: no block is left out, and
/// none is flushed twice.
pub proof fn lemma_flush_follows_submission(state: DriverState, event: DriverEvent, height: BlockHeight)
    ensures
        next_step(state, event).1 == DriverAction::Flush(height) <==> state
            == DriverState::ProcessingBlock(height) && event == DriverEvent::EventsSubmitted,
        next_step(state, event).0 == DriverState::FlushingBlock(height) <==> state
            == DriverState::ProcessingBlock(height) && event == DriverEvent::EventsSubmitted,
{
}

/// The height in flight never falls, and the block taken up after a flush
/// stands higher than the block that was flushed.
pub proof fn lemma_heights_only_rise(state: DriverState, event: DriverEvent)
    ensures
        height_in_flight(state) is Some && height_in_flight(next_step(state, event).0) is Some
            ==> height_in_flight(state)->0 <= height_in_flight(next_step(state, event).0)->0,
        state is FlushingBlock && next_step(state, event).0 is ProcessingBlock
            ==> height_in_flight(state)->0 < height_in_flight(next_step(state, event).0)->0,
{
}

/// A block is taken up only where none is in flight and the one before it,
/// if any, was flushed.
pub proof fn lemma_extract_follows_flush(state: DriverState, event: DriverEvent, height: BlockHeight)
    ensures
        next_step(state, event).1 == DriverAction::Extract(height) ==> state is Idle
            || state is FlushingBlock,
{
}

/// A receipt as the feed delivers it: with the transaction that it stems from.
#[derive(Clone, Debug, PartialEq, Eq)]
pub struct FeedReceipt {
    pub receipt: Receipt,
    pub transaction: Transaction,
}

/// A block as the feed delivers it: with the receipts that were executed in it.
#[derive(Clone, Debug, PartialEq, Eq)]
pub struct FeedBlock {
    pub block: Block,
    pub receipts: Vec<FeedReceipt>,
}

/// The heights of the blocks of `feed`, in their order.
pub open spec fn feed_heights(feed: Seq<FeedBlock>) -> Seq<BlockHeight> {
    feed.map_values(|item: FeedBlock| item.block.header.height)
}

/// Each height is greater than every one before it.
pub open spec fn strictly_ascending(heights: Seq<BlockHeight>) -> bool {
    forall|i: int, j: int| 0 <= i < j < heights.len() ==> heights[i] < heights[j]
}

/// The block statistics of the blocks of `feed`, in their order.
pub open spec fn feed_block_infos(feed: Seq<FeedBlock>) -> Seq<BlockInfoEventView> {
    feed.map_values(|item: FeedBlock| block_info_of(item.block))
}

/// The claims of `receipts`, all executed in `block`, receipt by receipt.
pub open spec fn receipts_claims(
    filter: ClaimFilter,
    receipts: Seq<FeedReceipt>,
    block: Block,
) -> Seq<ClaimEventView>
    decreases receipts.len(),
{
    if receipts.len() == 0 {
        Seq::empty()
    } else {
        receipts_claims(filter, receipts.drop_last(), block) + claims_of(
            filter,
            receipts.last().receipt,
            receipts.last().transaction,
            block,
        )
    }
}

/// The claims of one block of the feed: those of its receipts where claims are
/// collected, none where they are not.
pub open spec fn block_claims(filter: Option<ClaimFilter>, item: FeedBlock) -> Seq<ClaimEventView> {
    match filter {
        Some(filter) => receipts_claims(filter, item.receipts@, item.block),
        None => Seq::empty(),
    }
}

/// The claims of the blocks of `feed`, block by block.
pub open spec fn feed_claims(filter: Option<ClaimFilter>, feed: Seq<FeedBlock>) -> Seq<
    ClaimEventView,
>
    decreases feed.len(),
{
    if feed.len() == 0 {
        Seq::empty()
    } else {
        feed_claims(filter, feed.drop_last()) + block_claims(filter, feed.last())
    }
}

/// What a run did to its handler: between `before` and `after` the handler was
/// handed the events of the first `handed` blocks of `feed`, block by block,
/// and was flushed at the heights of the first `flushed` of them, which ascend.
pub open spec fn relayed<T: TpsEventHandler>(
    before: T,
    after: T,
    filter: Option<ClaimFilter>,
    feed: Seq<FeedBlock>,
    handed: int,
    flushed: int,
) -> bool {
    &&& 0 <= flushed <= handed <= feed.len()
    &&& extends(before.block_infos(), after.block_infos())
    &&& block_info_views(added(before.block_infos(), after.block_infos())) == feed_block_infos(
        feed.take(handed),
    )
    &&& extends(before.claims(), after.claims())
    &&& claim_views(added(before.claims(), after.claims())) == feed_claims(
        filter,
        feed.take(handed),
    )
    &&& after.checkpoints() == before.checkpoints() + feed_heights(feed.take(flushed))
    &&& strictly_ascending(feed_heights(feed.take(handed)))
}

/// What handling one block did to a handler: it was handed the statistics of
/// the block, then its claims, and was not flushed.
pub open spec fn handed_block<T: TpsEventHandler>(
    before: T,
    after: T,
    filter: Option<ClaimFilter>,
    item: FeedBlock,
) -> bool {
    &&& extends(before.block_infos(), after.block_infos())
    &&& block_info_views(added(before.block_infos(), after.block_infos())) == seq![
        block_info_of(item.block),
    ]
    &&& extends(before.claims(), after.claims())
    &&& claim_views(added(before.claims(), after.claims())) == block_claims(filter, item)
    &&& after.checkpoints() == before.checkpoints()
}

/// A handler that was handed nothing and was not flushed has relayed no block.
proof fn lemma_relayed_nothing<T: TpsEventHandler>(
    handler: T,
    filter: Option<ClaimFilter>,
    feed: Seq<FeedBlock>,
)
    ensures
        relayed(handler, handler, filter, feed, 0, 0),
{
    assert(feed.take(0) == Seq::<FeedBlock>::empty());
    assert(added(handler.block_infos(), handler.block_infos()) == Seq::<BlockInfoEvent>::empty());
    assert(added(handler.claims(), handler.claims()) == Seq::<ClaimEvent>::empty());
    assert(block_info_views(Seq::<BlockInfoEvent>::empty()) == feed_block_infos(
        Seq::<FeedBlock>::empty(),
    ));
    assert(claim_views(Seq::<ClaimEvent>::empty()) == Seq::<ClaimEventView>::empty());
    assert(handler.checkpoints() + feed_heights(Seq::<FeedBlock>::empty())
        == handler.checkpoints());
}

/// Handing over one more block, at a height above those before it, extends
/// what was relayed by that block.
proof fn lemma_relayed_one_more<T: TpsEventHandler>(
    before: T,
    between: T,
    after: T,
    filter: Option<ClaimFilter>,
    feed: Seq<FeedBlock>,
    done: int,
)
    requires
        0 <= done < feed.len(),
        relayed(before, between, filter, feed, done, done),
        handed_block(between, after, filter, feed[done]),
        strictly_ascending(feed_heights(feed.take(done + 1))),
    ensures
        relayed(before, after, filter, feed, done + 1, done),
{
    let more = feed.take(done + 1);
    assert(more.drop_last() == feed.take(done));
    assert(more.last() == feed[done]);
    lemma_added_in_steps(before.block_infos(), between.block_infos(), after.block_infos());
    lemma_added_in_steps(before.claims(), between.claims(), after.claims());
    let infos_first = added(before.block_infos(), between.block_infos());
    let infos_then = added(between.block_infos(), after.block_infos());
    assert(block_info_views(infos_first + infos_then) == block_info_views(infos_first)
        + block_info_views(infos_then));
    assert(feed_block_infos(more) == feed_block_infos(feed.take(done)) + seq![
        block_info_of(feed[done].block),
    ]);
    let claims_first = added(before.claims(), between.claims());
    let claims_then = added(between.claims(), after.claims());
    assert(claim_views(claims_first + claims_then) == claim_views(claims_first) + claim_views(
        claims_then,
    ));
}

/// A flush at the height of the block handed over last completes that block.
proof fn lemma_relayed_flushed<T: TpsEventHandler>(
    before: T,
    between: T,
    after: T,
    filter: Option<ClaimFilter>,
    feed: Seq<FeedBlock>,
    done: int,
)
    requires
        0 <= done < feed.len(),
        relayed(before, between, filter, feed, done + 1, done),
        after.block_infos() == between.block_infos(),
        after.claims() == between.claims(),
        after.checkpoints() == between.checkpoints().push(feed[done].block.header.height),
    ensures
        relayed(before, after, filter, feed, done + 1, done + 1),
{
    assert(feed_heights(feed.take(done + 1)) == feed_heights(feed.take(done)).push(
        feed[done].block.header.height,
    ));
    let earlier = before.checkpoints();
    let heights = feed_heights(feed.take(done));
    assert((earlier + heights).push(feed[done].block.header.height) == earlier + heights.push(
        feed[done].block.header.height,
    ));
}

/// A height above the last of ascending heights keeps them ascending.
proof fn lemma_ascending_one_more(feed: Seq<FeedBlock>, done: int)
    requires
        0 < done < feed.len(),
        strictly_ascending(feed_heights(feed.take(done))),
        feed[done - 1].block.header.height < feed[done].block.header.height,
    ensures
        strictly_ascending(feed_heights(feed.take(done + 1))),
{
    let shorter = feed_heights(feed.take(done));
    let longer = feed_heights(feed.take(done + 1));
    assert forall|i: int, j: int| 0 <= i < j < longer.len() implies longer[i] < longer[j] by {
        if j < done {
            assert(longer[i] == shorter[i] && longer[j] == shorter[j]);
        } else if i < done - 1 {
            assert(longer[i] == shorter[i]);
            assert(shorter[i] < shorter[done - 1]);
        }
    }
}

/// Every claim of the receipts of a block carries the height of that block.
proof fn lemma_receipts_claims_heights(
    filter: ClaimFilter,
    receipts: Seq<FeedReceipt>,
    block: Block,
)
    ensures
        forall|i: int|
            0 <= i < receipts_claims(filter, receipts, block).len() ==> (
            #[trigger] receipts_claims(filter, receipts, block)[i]).block_height
                == block.header.height,
    decreases receipts.len(),
{
    if receipts.len() > 0 {
        lemma_receipts_claims_heights(filter, receipts.drop_last(), block);
        let front = receipts_claims(filter, receipts.drop_last(), block);
        let last = claims_of(filter, receipts.last().receipt, receipts.last().transaction, block);
        let all = receipts_claims(filter, receipts, block);
        assert(all == front + last);
        assert forall|i: int| 0 <= i < all.len() implies (#[trigger] all[i]).block_height
            == block.header.height by {
            if i < front.len() {
                assert(all[i] == front[i]);
            } else {
                assert(all[i] == last[i - front.len()]);
            }
        }
    }
}

/// The heights of `claims` do not descend, and lie between `low` and `high`.
spec fn claim_heights_ascend_within(
    claims: Seq<ClaimEventView>,
    low: BlockHeight,
    high: BlockHeight,
) -> bool {
    &&& forall|i: int, j: int|
        0 <= i <= j < claims.len() ==> (#[trigger] claims[i]).block_height <= (
        #[trigger] claims[j]).block_height
    &&& forall|i: int|
        0 <= i < claims.len() ==> low <= (#[trigger] claims[i]).block_height <= high
}

/// The claims of a feed with ascending heights come with heights that do not
/// descend, between those of its first and its last block.
proof fn lemma_feed_claims_heights(filter: Option<ClaimFilter>, feed: Seq<FeedBlock>)
    requires
        feed.len() > 0,
        strictly_ascending(feed_heights(feed)),
    ensures
        claim_heights_ascend_within(
            feed_claims(filter, feed),
            feed.first().block.header.height,
            feed.last().block.header.height,
        ),
    decreases feed.len(),
{
    let heights = feed_heights(feed);
    let front = feed.drop_last();
    let last = feed.last();
    let of_last = block_claims(filter, last);
    assert forall|i: int| 0 <= i < of_last.len() implies (#[trigger] of_last[i]).block_height
        == last.block.header.height by {
        if let Some(f) = filter {
            lemma_receipts_claims_heights(f, last.receipts@, last.block);
        }
    }
    assert(heights[0] <= heights[feed.len() - 1]) by {
        if feed.len() > 1 {
            assert(heights[0] < heights[feed.len() - 1]);
        }
    }
    if front.len() == 0 {
        assert(feed_claims(filter, front) == Seq::<ClaimEventView>::empty());
        assert(feed_claims(filter, feed) == of_last);
    } else {
        assert(strictly_ascending(feed_heights(front))) by {
            assert forall|i: int, j: int| 0 <= i < j < feed_heights(front).len() implies feed_heights(
                front,
            )[i] < feed_heights(front)[j] by {
                assert(feed_heights(front)[i] == heights[i]);
                assert(feed_heights(front)[j] == heights[j]);
            }
        }
        lemma_feed_claims_heights(filter, front);
        let of_front = feed_claims(filter, front);
        assert(front.first() == feed.first());
        assert(front.last().block.header.height < last.block.header.height) by {
            assert(heights[feed.len() - 2] < heights[feed.len() - 1]);
        }
        let all = of_front + of_last;
        assert forall|i: int, j: int| 0 <= i <= j < all.len() implies (#[trigger] all[i]).block_height
            <= (#[trigger] all[j]).block_height by {
            if j < of_front.len() {
                assert(all[i] == of_front[i] && all[j] == of_front[j]);
            } else if i < of_front.len() {
                assert(all[i] == of_front[i] && all[j] == of_last[j - of_front.len()]);
            } else {
                assert(all[i] == of_last[i - of_front.len()]);
                assert(all[j] == of_last[j - of_front.len()]);
            }
        }
        assert forall|i: int| 0 <= i < all.len() implies feed.first().block.header.height <= (
        #[trigger] all[i]).block_height <= last.block.header.height by {
            if i < of_front.len() {
                assert(all[i] == of_front[i]);
            } else {
                assert(all[i] == of_last[i - of_front.len()]);
            }
        }
    }
}

/// The events of a run come with ascending heights. Where the events that the
/// handler was handed before the run came with ascending heights, none above
/// the height of the first block of the feed, all the events that it was
/// handed, before the run and in it, come with ascending heights.
pub proof fn lemma_relayed_in_ascending_order<T: TpsEventHandler>(
    before: T,
    after: T,
    filter: Option<ClaimFilter>,
    feed: Seq<FeedBlock>,
    handed: int,
    flushed: int,
)
    requires
        relayed(before, after, filter, feed, handed, flushed),
        keys_ascend(block_info_entries(before.block_infos())),
        keys_ascend(claim_entries(before.claims())),
        feed.len() > 0 ==> forall|i: int|
            0 <= i < before.block_infos().len() ==> (#[trigger] before.block_infos()[i]).block_height
                <= feed[0].block.header.height,
        feed.len() > 0 ==> forall|i: int|
            0 <= i < before.claims().len() ==> (#[trigger] before.claims()[i]).block_height
                <= feed[0].block.header.height,
    ensures
        keys_ascend(block_info_entries(after.block_infos())),
        keys_ascend(claim_entries(after.claims())),
{
    let taken = feed.take(handed);
    let heights = feed_heights(taken);
    let old_infos = before.block_infos();
    let new_infos = added(old_infos, after.block_infos());
    let old_claims = before.claims();
    let new_claims = added(old_claims, after.claims());
    assert(after.block_infos() == old_infos + new_infos);
    assert(after.claims() == old_claims + new_claims);
    assert(block_info_entries(old_infos + new_infos) == block_info_entries(old_infos)
        + block_info_entries(new_infos));
    assert(claim_entries(old_claims + new_claims) == claim_entries(old_claims) + claim_entries(
        new_claims,
    ));
    if handed == 0 {
        assert(taken == Seq::<FeedBlock>::empty());
        assert(new_infos.len() == block_info_views(new_infos).len());
        assert(new_claims.len() == claim_views(new_claims).len());
        assert(block_info_entries(old_infos) + block_info_entries(new_infos) == block_info_entries(
            old_infos,
        ));
        assert(claim_entries(old_claims) + claim_entries(new_claims) == claim_entries(old_claims));
    } else {
        assert(heights[0] == feed[0].block.header.height);
        assert(new_infos.len() == block_info_views(new_infos).len());
        assert(new_infos.len() == taken.len());
        assert forall|i: int| 0 <= i < new_infos.len() implies (#[trigger] new_infos[i]).block_height
            == heights[i] by {
            assert(block_info_views(new_infos)[i] == new_infos[i]@);
            assert(feed_block_infos(taken)[i] == block_info_of(taken[i].block));
        }
        assert(keys_ascend(block_info_entries(new_infos))) by {
            let entries = block_info_entries(new_infos);
            assert forall|i: int, j: int| 0 <= i <= j < entries.len() implies (
            #[trigger] entries[i]).key <= (#[trigger] entries[j]).key by {
                assert(entries[i].key == new_infos[i].block_height);
                assert(entries[j].key == new_infos[j].block_height);
                if i < j {
                    assert(heights[i] < heights[j]);
                }
            }
        }
        assert forall|i: int, j: int|
            0 <= i < block_info_entries(old_infos).len() && 0 <= j < block_info_entries(
                new_infos,
            ).len() implies (#[trigger] block_info_entries(old_infos)[i]).key <= (
        #[trigger] block_info_entries(new_infos)[j]).key by {
            assert(block_info_entries(old_infos)[i].key == old_infos[i].block_height);
            assert(block_info_entries(new_infos)[j].key == new_infos[j].block_height);
            if 0 < j {
                assert(heights[0] < heights[j]);
            }
        }
        lemma_joined_keys_ascend(block_info_entries(old_infos), block_info_entries(new_infos));

        lemma_feed_claims_heights(filter, taken);
        let views = feed_claims(filter, taken);
        assert(new_claims.len() == claim_views(new_claims).len());
        assert forall|i: int| 0 <= i < new_claims.len() implies (#[trigger] new_claims[i]).block_height
            == views[i].block_height by {
            assert(claim_views(new_claims)[i] == new_claims[i]@);
        }
        assert(keys_ascend(claim_entries(new_claims))) by {
            let entries = claim_entries(new_claims);
            assert forall|i: int, j: int| 0 <= i <= j < entries.len() implies (
            #[trigger] entries[i]).key <= (#[trigger] entries[j]).key by {
                assert(entries[i].key == new_claims[i].block_height);
                assert(entries[j].key == new_claims[j].block_height);
                assert(views[i].block_height <= views[j].block_height);
            }
        }
        assert forall|i: int, j: int|
            0 <= i < claim_entries(old_claims).len() && 0 <= j < claim_entries(new_claims).len() implies (
        #[trigger] claim_entries(old_claims)[i]).key <= (#[trigger] claim_entries(
            new_claims,
        )[j]).key by {
            assert(claim_entries(old_claims)[i].key == old_claims[i].block_height);
            assert(claim_entries(new_claims)[j].key == new_claims[j].block_height);
            assert(taken.first() == feed[0]);
            assert(feed[0].block.header.height <= views[j].block_height);
        }
        lemma_joined_keys_ascend(claim_entries(old_claims), claim_entries(new_claims));
    }
}

/// How a run that began with no block in flight ended: whether it succeeded,
/// and what it did to its handler on the way from `before` to `after`.
///
/// A run succeeds when every block of the feed is handed over and flushed. It
/// ends with `SinkUnavailable` at the first flush that fails: the events of
/// that block were handed over, and nothing after it was touched. It ends with
/// `FeedUnavailable` at the first block whose height is not above that of the
/// block before it: nothing of that block was handed over.
pub open spec fn run_outcome<T: TpsEventHandler>(
    before: T,
    after: T,
    filter: Option<ClaimFilter>,
    feed: Seq<FeedBlock>,
    result: Result<(), PipelineError>,
) -> bool {
    let flushed = after.checkpoints().len() - before.checkpoints().len();
    match result {
        Ok(()) => relayed(before, after, filter, feed, feed.len() as int, feed.len() as int),
        Err(PipelineError::SinkUnavailable) => {
            &&& 0 <= flushed < feed.len()
            &&& relayed(before, after, filter, feed, flushed + 1, flushed)
        },
        Err(PipelineError::FeedUnavailable) => {
            &&& 0 < flushed < feed.len()
            &&& relayed(before, after, filter, feed, flushed, flushed)
            &&& feed[flushed].block.header.height <= feed[flushed - 1].block.header.height
        },
    }
}

/// Drives a handler through the blocks of a feed.
pub struct Driver<T: TpsEventHandler> {
    indexer: TpsIndexer<T>,
    claim_filter: Option<ClaimFilter>,
    state: DriverState,
    failure: Option<PipelineError>,
}

impl<T: TpsEventHandler> Driver<T> {
    /// The handler that the driver hands its events to.
    pub closed spec fn handler(&self) -> T {
        self.indexer.0
    }

    /// Where the driver stands.
    pub closed spec fn state(&self) -> DriverState {
        self.state
    }

    /// Why the driver failed, where it did.
    pub closed spec fn failure(&self) -> Option<PipelineError> {
        self.failure
    }

    /// Which receipts hold claims, where claims are collected at all.
    pub closed spec fn claim_filter(&self) -> Option<ClaimFilter> {
        self.claim_filter
    }

    /// The driver is at rest: it has no block in flight, and has failed just
    /// when it knows why.
    pub open spec fn at_rest(&self) -> bool {
        match self.state() {
            DriverState::Idle => self.failure() is None,
            DriverState::Failed => self.failure() is Some,
            _ => false,
        }
    }

    /// A driver for `handler` with no block in flight. It collects the claims
    /// that `claim_filter` describes, or none without one.
    pub fn new(handler: T, claim_filter: Option<ClaimFilter>) -> (driver: Self)
        ensures
            driver.at_rest(),
            driver.state() is Idle,
            driver.handler() == handler,
            driver.claim_filter() == claim_filter,
    {
        Driver {
            indexer: TpsIndexer(handler),
            claim_filter,
            state: DriverState::Idle,
            failure: None,
        }
    }

    /// Where the driver stands.
    pub fn current_state(&self) -> (state: DriverState)
        ensures
            state == self.state(),
    {
        self.state
    }

    /// The handler that the driver hands its events to.
    pub fn handler_ref(&self) -> (handler: &T)
        ensures
            *handler == self.handler(),
    {
        &self.indexer.0
    }

    /// Gives up the driver for its handler.
    pub fn into_handler(self) -> (handler: T)
        ensures
            handler == self.handler(),
    {
        self.indexer.0
    }

    /// Why the driver failed, where it did.
    pub fn failure_cause(&self) -> (cause: Option<PipelineError>)
        ensures
            cause == self.failure(),
    {
        self.failure
    }

    /// Hands the events of the block in flight to the handler: its statistics,
    /// then the claims of its receipts.
    fn hand_over(&mut self, item: &FeedBlock)
        requires
            old(self).state == DriverState::ProcessingBlock(item.block.header.height),
        ensures
            final(self).state == DriverState::FlushingBlock(item.block.header.height),
            final(self).failure == old(self).failure,
            final(self).claim_filter == old(self).claim_filter,
            handed_block(old(self).indexer.0, final(self).indexer.0, old(self).claim_filter, *item),
            old(self).indexer.0.well_formed() ==> final(self).indexer.0.well_formed(),
    {
        let ghost before = self.indexer.0;
        let _ = self.indexer.process_block(&item.block);
        let ghost with_info = self.indexer.0;
        match &self.claim_filter {
            Some(filter) => {
                let mut i: usize = 0;
                proof {
                    assert(added(with_info.claims(), with_info.claims()) == Seq::<
                        ClaimEvent,
                    >::empty());
                    assert(claim_views(Seq::<ClaimEvent>::empty()) == receipts_claims(
                        *filter,
                        item.receipts@.take(0),
                        item.block,
                    ));
                }
                while i < item.receipts.len()
                    invariant
                        i <= item.receipts.len(),
                        self.state == old(self).state,
                        self.failure == old(self).failure,
                        self.claim_filter == old(self).claim_filter,
                        self.claim_filter == Some(*filter),
                        self.indexer.0.block_infos() == with_info.block_infos(),
                        self.indexer.0.checkpoints() == with_info.checkpoints(),
                        old(self).indexer.0.well_formed() ==> self.indexer.0.well_formed(),
                        extends(with_info.claims(), self.indexer.0.claims()),
                        claim_views(added(with_info.claims(), self.indexer.0.claims()))
                            == receipts_claims(*filter, item.receipts@.take(i as int), item.block),
                    decreases item.receipts.len() - i,
                {
                    let ghost so_far = self.indexer.0.claims();
                    let _ = self.indexer.on_receipt(
                        filter,
                        &item.receipts[i].receipt,
                        &item.receipts[i].transaction,
                        &item.block,
                    );
                    proof {
                        let now = self.indexer.0.claims();
                        lemma_added_in_steps(with_info.claims(), so_far, now);
                        assert(claim_views(added(with_info.claims(), so_far) + added(so_far, now))
                            == claim_views(added(with_info.claims(), so_far)) + claim_views(
                            added(so_far, now),
                        ));
                        assert(item.receipts@.take(i + 1).drop_last() == item.receipts@.take(
                            i as int,
                        ));
                    }
                    i = i + 1;
                }
                proof {
                    assert(item.receipts@.take(i as int) == item.receipts@);
                }
            },
            None => {
                proof {
                    assert(added(with_info.claims(), with_info.claims()) == Seq::<
                        ClaimEvent,
                    >::empty());
                    assert(claim_views(Seq::<ClaimEvent>::empty()) == Seq::<
                        ClaimEventView,
                    >::empty());
                }
            },
        }
        let (state, _) = step(self.state, DriverEvent::EventsSubmitted);
        self.state = state;
    }

    /// Flushes the handler at the height of the block in flight.
    fn flush(&mut self, item: &FeedBlock) -> (result: Result<(), PipelineError>)
        requires
            old(self).state == DriverState::FlushingBlock(item.block.header.height),
            old(self).failure is None,
        ensures
            final(self).claim_filter == old(self).claim_filter,
            final(self).indexer.0.block_infos() == old(self).indexer.0.block_infos(),
            final(self).indexer.0.claims() == old(self).indexer.0.claims(),
            old(self).indexer.0.well_formed() ==> final(self).indexer.0.well_formed(),
            result is Ok ==> {
                &&& final(self).state == old(self).state
                &&& final(self).failure is None
                &&& final(self).indexer.0.checkpoints() == old(self).indexer.0.checkpoints().push(
                    item.block.header.height,
                )
            },
            result is Err ==> {
                &&& result == Err::<(), PipelineError>(PipelineError::SinkUnavailable)
                &&& final(self).state == DriverState::Failed
                &&& final(self).failure == Some(PipelineError::SinkUnavailable)
                &&& final(self).indexer.0.checkpoints() == old(self).indexer.0.checkpoints()
            },
    {
        match self.indexer.process_block_end(&item.block) {
            Ok(()) => Ok(()),
            Err(cause) => {
                let (state, _) = step(self.state, DriverEvent::FlushFailed);
                self.state = state;
                self.failure = Some(cause);
                Err(cause)
            },
        }
    }

    /// Relays the blocks of `feed`, in their order: for each block, its events
    /// are handed to the handler, then the handler is flushed at the height of
    /// the block, and only then is the next block taken up.
    ///
    /// A driver that has failed stays failed: it touches nothing and returns
    /// the failure again.
    pub fn run(&mut self, feed: &[FeedBlock]) -> (result: Result<(), PipelineError>)
        requires
            old(self).at_rest(),
        ensures
            final(self).at_rest(),
            final(self).claim_filter() == old(self).claim_filter(),
            old(self).handler().well_formed() ==> final(self).handler().well_formed(),
            result is Ok <==> final(self).state() is Idle,
            result matches Err(cause) ==> final(self).failure() == Some(cause),
            old(self).state() is Failed ==> {
                &&& result is Err
                &&& final(self).failure() == old(self).failure()
                &&& final(self).handler() == old(self).handler()
            },
            old(self).state() is Idle ==> run_outcome(
                old(self).handler(),
                final(self).handler(),
                old(self).claim_filter(),
                feed@,
                result,
            ),
    {
        if let Some(cause) = self.failure {
            return Err(cause);
        }
        let ghost before = self.indexer.0;
        let ghost filter = self.claim_filter;
        proof {
            lemma_relayed_nothing(before, filter, feed@);
        }
        if feed.len() == 0 {
            return Ok(());
        }
        let (state, _) = step(self.state, DriverEvent::BlockReceived(feed[0].block.header.height));
        self.state = state;
        let mut done: usize = 0;
        loop
            invariant
                done < feed.len(),
                self.state == DriverState::ProcessingBlock(feed[done as int].block.header.height),
                self.failure is None,
                self.claim_filter == filter,
                old(self).state is Idle,
                old(self).indexer.0.well_formed() ==> self.indexer.0.well_formed(),
                before == old(self).indexer.0,
                filter == old(self).claim_filter,
                relayed(before, self.indexer.0, filter, feed@, done as int, done as int),
                strictly_ascending(feed_heights(feed@.take(done + 1))),
            decreases feed.len() - done,
        {
            let ghost at_start = self.indexer.0;
            self.hand_over(&feed[done]);
            let ghost handed = self.indexer.0;
            proof {
                lemma_relayed_one_more(before, at_start, handed, filter, feed@, done as int);
            }
            if let Err(cause) = self.flush(&feed[done]) {
                return Err(cause);
            }
            proof {
                lemma_relayed_flushed(before, handed, self.indexer.0, filter, feed@, done as int);
            }
            let next = if done + 1 < feed.len() {
                Some(feed[done + 1].block.header.height)
            } else {
                None
            };
            let (state, action) = step(self.state, DriverEvent::FlushSucceeded { next });
            self.state = state;
            match action {
                DriverAction::Extract(_) => {
                    proof {
                        lemma_ascending_one_more(feed@, done + 1);
                    }
                    done = done + 1;
                },
                DriverAction::Stop => {
                    proof {
                        assert(feed@.take(feed@.len() as int) == feed@);
                    }
                    return Ok(());
                },
                _ => {
                    self.failure = Some(PipelineError::FeedUnavailable);
                    return Err(PipelineError::FeedUnavailable);
                },
            }
        }
    }
}

} // verus!
