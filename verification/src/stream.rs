//! Publication of events on a capped, ordered log: the publisher that batches
//! events, and a log held in memory that carries out its batches.

use vstd::prelude::*;
use vstd::seq_lib::lemma_concat_associative;
use crate::block::BlockHeight;

verus! {

/// One record of a log, under the key that orders it.
#[derive(Clone, Debug, PartialEq, Eq)]
pub struct StreamEntry<E> {
    pub key: BlockHeight,
    pub record: E,
}

/// A capped append: `entries` go to the end of the log `stream` in the order given,
/// after which the log keeps its `max_len` most recent entries.
#[derive(Clone, Debug, PartialEq, Eq)]
pub struct FlushBatch<E> {
    pub stream: String,
    pub entries: Vec<StreamEntry<E>>,
    pub max_len: usize,
}

/// The buffered entries that a flush at `checkpoint_key` appends: those with a key
/// up to and including it, in the order they were published.
pub open spec fn due<E>(pending: Seq<StreamEntry<E>>, checkpoint_key: BlockHeight) -> Seq<
    StreamEntry<E>,
> {
    pending.filter(|entry: StreamEntry<E>| entry.key <= checkpoint_key)
}

/// The buffered entries that a flush at `checkpoint_key` leaves in the buffer.
pub open spec fn kept<E>(pending: Seq<StreamEntry<E>>, checkpoint_key: BlockHeight) -> Seq<
    StreamEntry<E>,
> {
    pending.filter(|entry: StreamEntry<E>| entry.key > checkpoint_key)
}

/// The last `max_len` entries of `log`, or all of it where it holds no more.
pub open spec fn most_recent<E>(log: Seq<StreamEntry<E>>, max_len: nat) -> Seq<StreamEntry<E>> {
    if log.len() <= max_len {
        log
    } else {
        log.subrange(log.len() - max_len, log.len() as int)
    }
}

/// What a log holds after a flush at which `batch` was due: the log as it was
/// where nothing was due, else the most recent `max_len` entries of the log
/// with `batch` appended.
pub open spec fn capped_append<E>(
    log: Seq<StreamEntry<E>>,
    batch: Seq<StreamEntry<E>>,
    max_len: nat,
) -> Seq<StreamEntry<E>> {
    if batch.len() == 0 {
        log
    } else {
        most_recent(log + batch, max_len)
    }
}

/// No entry has a smaller key than one before it.
pub open spec fn keys_ascend<E>(entries: Seq<StreamEntry<E>>) -> bool {
    forall|i: int, j: int|
        0 <= i <= j < entries.len() ==> (#[trigger] entries[i]).key <= (#[trigger] entries[j]).key
}

/// `batch` is the capped append of what is due in `pending` at `checkpoint_key`:
/// nothing where nothing is due, else the due entries in their order, for the log
/// `stream` and the cap `max_len`.
pub open spec fn is_batch_of<E>(
    batch: Option<FlushBatch<E>>,
    pending: Seq<StreamEntry<E>>,
    checkpoint_key: BlockHeight,
    stream: Seq<char>,
    max_len: usize,
) -> bool {
    match batch {
        None => due(pending, checkpoint_key).len() == 0,
        Some(b) => {
            &&& due(pending, checkpoint_key).len() > 0
            &&& b.entries@ == due(pending, checkpoint_key)
            &&& b.stream@ == stream
            &&& b.max_len == max_len
        },
    }
}

/// Buffers the events of one kind and hands them out, batch by batch, for the
/// capped append to the one log of that kind.
pub struct EventStream<E> {
    name: String,
    pending: Vec<StreamEntry<E>>,
}

impl<E> EventStream<E> {
    /// Name of the log this publisher writes to.
    pub closed spec fn name(&self) -> Seq<char> {
        self.name@
    }

    /// The published entries that no flush has taken yet, oldest first.
    pub closed spec fn pending(&self) -> Seq<StreamEntry<E>> {
        self.pending@
    }

    /// A publisher for the log `name`, with nothing buffered.
    pub fn new(name: String) -> (stream: Self)
        ensures
            stream.name() == name@,
            stream.pending() == Seq::<StreamEntry<E>>::empty(),
    {
        EventStream { name, pending: Vec::new() }
    }

    /// Number of buffered entries.
    pub fn pending_len(&self) -> (len: usize)
        ensures
            len == self.pending().len(),
    {
        self.pending.len()
    }

    /// Buffers `event` for append under `ordering_key`.
    pub fn publish(&mut self, event: E, ordering_key: BlockHeight)
        ensures
            final(self).pending() == old(self).pending().push(
                StreamEntry { key: ordering_key, record: event },
            ),
            final(self).name() == old(self).name(),
    {
        self.pending.push(StreamEntry { key: ordering_key, record: event });
    }

    /// Takes every buffered entry with a key up to and including `checkpoint_key`
    /// out of the buffer and returns them as one batch, in publication order, for
    /// a log that is to keep at most `max_len` entries. Returns `None` where no
    /// buffered entry is due.
    pub fn flush(&mut self, checkpoint_key: BlockHeight, max_len: usize) -> (batch: Option<
        FlushBatch<E>,
    >)
        ensures
            final(self).pending() == kept(old(self).pending(), checkpoint_key),
            final(self).name() == old(self).name(),
            is_batch_of(batch, old(self).pending(), checkpoint_key, old(self).name(), max_len),
    {
        let mut buffered: Vec<StreamEntry<E>> = Vec::new();
        core::mem::swap(&mut self.pending, &mut buffered);
        let ghost all = buffered@;
        let mut taken: Vec<StreamEntry<E>> = Vec::new();
        let mut left: Vec<StreamEntry<E>> = Vec::new();
        for entry in it: buffered
            invariant
                it.seq() == all,
                taken@ == due(all.take(it.index()), checkpoint_key),
                left@ == kept(all.take(it.index()), checkpoint_key),
        {
            proof {
                reveal(Seq::filter);
                assert(all.take(it.index() + 1).drop_last() == all.take(it.index()));
            }
            if entry.key <= checkpoint_key {
                taken.push(entry);
            } else {
                left.push(entry);
            }
        }
        proof {
            assert(all.take(all.len() as int) == all);
        }
        self.pending = left;
        if taken.len() == 0 {
            None
        } else {
            Some(FlushBatch { stream: self.name.clone(), entries: taken, max_len })
        }
    }
}

/// A capped log held in memory: it does what the log store does on a capped append.
pub struct BoundedLog<E> {
    entries: Vec<StreamEntry<E>>,
}

impl<E> View for BoundedLog<E> {
    type V = Seq<StreamEntry<E>>;

    /// The entries the log holds, oldest first.
    closed spec fn view(&self) -> Seq<StreamEntry<E>> {
        self.entries@
    }
}

impl<E> BoundedLog<E> {
    /// An empty log.
    pub fn new() -> (log: Self)
        ensures
            log@ == Seq::<StreamEntry<E>>::empty(),
    {
        BoundedLog { entries: Vec::new() }
    }

    /// Number of entries the log holds.
    pub fn len(&self) -> (len: usize)
        ensures
            len == self@.len(),
    {
        self.entries.len()
    }

    /// The entries the log holds, oldest first.
    pub fn entries(&self) -> (entries: &Vec<StreamEntry<E>>)
        ensures
            entries@ == self@,
    {
        &self.entries
    }

    /// Appends one entry at the end.
    pub fn append(&mut self, entry: StreamEntry<E>)
        ensures
            final(self)@ == old(self)@.push(entry),
    {
        self.entries.push(entry);
    }

    /// Drops the oldest entries until at most `max_len` are left.
    pub fn trim(&mut self, max_len: usize)
        ensures
            final(self)@ == most_recent(old(self)@, max_len as nat),
            final(self)@.len() <= max_len,
    {
        let len = self.entries.len();
        if len > max_len {
            let recent = self.entries.split_off(len - max_len);
            self.entries = recent;
        }
    }

    /// Carries out a capped append: the entries of `batch` go to the end in their
    /// order, then the log is trimmed to the `max_len` of the batch.
    pub fn apply(&mut self, batch: FlushBatch<E>)
        ensures
            final(self)@ == most_recent(old(self)@ + batch.entries@, batch.max_len as nat),
            final(self)@.len() <= batch.max_len,
    {
        let mut batch = batch;
        self.entries.append(&mut batch.entries);
        self.trim(batch.max_len);
    }
}

/// How `due` and `kept` treat the last entry of a buffer.
proof fn lemma_flush_last<E>(pending: Seq<StreamEntry<E>>, checkpoint_key: BlockHeight)
    requires
        pending.len() > 0,
    ensures
        pending.last().key <= checkpoint_key ==> {
            &&& due(pending, checkpoint_key) == due(pending.drop_last(), checkpoint_key).push(
                pending.last(),
            )
            &&& kept(pending, checkpoint_key) == kept(pending.drop_last(), checkpoint_key)
        },
        pending.last().key > checkpoint_key ==> {
            &&& due(pending, checkpoint_key) == due(pending.drop_last(), checkpoint_key)
            &&& kept(pending, checkpoint_key) == kept(pending.drop_last(), checkpoint_key).push(
                pending.last(),
            )
        },
{
    reveal(Seq::filter);
}

/// A flush of an empty buffer takes nothing and leaves nothing.
proof fn lemma_flush_empty<E>(pending: Seq<StreamEntry<E>>, checkpoint_key: BlockHeight)
    requires
        pending.len() == 0,
    ensures
        due(pending, checkpoint_key) == pending,
        kept(pending, checkpoint_key) == pending,
{
    reveal(Seq::filter);
}

/// Where every buffered key is up to the checkpoint, a flush takes the whole
/// buffer and leaves nothing behind.
pub proof fn lemma_flush_takes_all<E>(pending: Seq<StreamEntry<E>>, checkpoint_key: BlockHeight)
    requires
        forall|i: int| 0 <= i < pending.len() ==> (#[trigger] pending[i]).key <= checkpoint_key,
    ensures
        due(pending, checkpoint_key) == pending,
        kept(pending, checkpoint_key) == Seq::<StreamEntry<E>>::empty(),
    decreases pending.len(),
{
    if pending.len() > 0 {
        let front = pending.drop_last();
        assert forall|i: int| 0 <= i < front.len() implies (#[trigger] front[i]).key
            <= checkpoint_key by {
            assert(front[i] == pending[i]);
        }
        lemma_flush_takes_all(front, checkpoint_key);
        lemma_flush_last(pending, checkpoint_key);
        assert(front.push(pending.last()) == pending);
    } else {
        lemma_flush_empty(pending, checkpoint_key);
    }
}

/// A flush takes a leading part of the buffer where the buffered keys ascend:
/// what it appends, followed by what it leaves, is the buffer as it was.
pub proof fn lemma_flush_splits_in_order<E>(
    pending: Seq<StreamEntry<E>>,
    checkpoint_key: BlockHeight,
)
    requires
        keys_ascend(pending),
    ensures
        due(pending, checkpoint_key) + kept(pending, checkpoint_key) == pending,
    decreases pending.len(),
{
    if pending.len() == 0 {
        lemma_flush_empty(pending, checkpoint_key);
        assert(pending + pending == pending);
    } else {
        let front = pending.drop_last();
        let last = pending.last();
        lemma_flush_last(pending, checkpoint_key);
        assert(front.push(last) == pending);
        if last.key <= checkpoint_key {
            assert forall|i: int| 0 <= i < pending.len() implies (#[trigger] pending[i]).key
                <= checkpoint_key by {
                assert(pending[i].key <= pending[pending.len() - 1].key);
            }
            lemma_flush_takes_all(pending, checkpoint_key);
            assert(pending + Seq::<StreamEntry<E>>::empty() == pending);
        } else {
            assert(keys_ascend(front)) by {
                assert forall|i: int, j: int| 0 <= i <= j < front.len() implies (
                #[trigger] front[i]).key <= (#[trigger] front[j]).key by {
                    assert(front[i] == pending[i] && front[j] == pending[j]);
                }
            }
            lemma_flush_splits_in_order(front, checkpoint_key);
            let d = due(front, checkpoint_key);
            let k = kept(front, checkpoint_key);
            assert(d + k.push(last) == (d + k).push(last));
        }
    }
}

/// Trimming early changes nothing: the most recent entries of a log that was
/// trimmed before `batch` was appended are those of the log never trimmed.
pub proof fn lemma_most_recent_of_appended<E>(
    log: Seq<StreamEntry<E>>,
    batch: Seq<StreamEntry<E>>,
    max_len: nat,
)
    ensures
        most_recent(most_recent(log, max_len) + batch, max_len) == most_recent(
            log + batch,
            max_len,
        ),
{
    let early = most_recent(log, max_len) + batch;
    let late = log + batch;
    assert(most_recent(early, max_len) =~= most_recent(late, max_len));
}

/// A log that was trimmed to `max_len` entries holds no more than that, and
/// what it holds is the end of what it held before.
pub proof fn lemma_most_recent_is_bounded<E>(log: Seq<StreamEntry<E>>, max_len: nat)
    ensures
        most_recent(log, max_len).len() <= max_len,
        most_recent(log, max_len).is_suffix_of(log),
{
}

/// Trimming twice to the same cap is trimming once: a trim can safely be repeated.
pub proof fn lemma_trim_can_be_repeated<E>(log: Seq<StreamEntry<E>>, max_len: nat)
    ensures
        most_recent(most_recent(log, max_len), max_len) == most_recent(log, max_len),
{
}

/// While a batch is appended to a log within its cap, and before the log is
/// trimmed, the log exceeds the cap by no more than the size of the batch.
pub proof fn lemma_overshoot_is_bounded<E>(
    log: Seq<StreamEntry<E>>,
    batch: Seq<StreamEntry<E>>,
    max_len: nat,
)
    requires
        log.len() <= max_len,
    ensures
        (log + batch).len() <= max_len + batch.len(),
{
}

/// How a capped log follows its publisher. `log` holds the most recent of
/// `appended`, which is all that was ever appended to it. And where the
/// entries in `published`, all that were ever published, have ascending keys,
/// `appended` followed by the buffer `pending` is `published`: the log got the
/// entries in the order in which they were published, and none was lost.
pub open spec fn log_follows<E>(
    log: Seq<StreamEntry<E>>,
    appended: Seq<StreamEntry<E>>,
    pending: Seq<StreamEntry<E>>,
    published: Seq<StreamEntry<E>>,
    max_len: nat,
) -> bool {
    &&& log == most_recent(appended, max_len)
    &&& keys_ascend(published) ==> appended + pending == published
}

/// The leading part of a sequence with ascending keys has ascending keys.
proof fn lemma_front_ascends<E>(entries: Seq<StreamEntry<E>>, last: StreamEntry<E>)
    requires
        keys_ascend(entries.push(last)),
    ensures
        keys_ascend(entries),
{
    let whole = entries.push(last);
    assert forall|i: int, j: int| 0 <= i <= j < entries.len() implies (#[trigger] entries[i]).key
        <= (#[trigger] entries[j]).key by {
        assert(entries[i] == whole[i] && entries[j] == whole[j]);
    }
}

/// The trailing part of a sequence with ascending keys has ascending keys.
proof fn lemma_back_ascends<E>(front: Seq<StreamEntry<E>>, back: Seq<StreamEntry<E>>)
    requires
        keys_ascend(front + back),
    ensures
        keys_ascend(back),
{
    let whole = front + back;
    assert forall|i: int, j: int| 0 <= i <= j < back.len() implies (#[trigger] back[i]).key <= (
    #[trigger] back[j]).key by {
        assert(back[i] == whole[front.len() + i] && back[j] == whole[front.len() + j]);
    }
}

/// Publishing an entry keeps the log in step with its publisher.
pub proof fn lemma_follows_after_publish<E>(
    log: Seq<StreamEntry<E>>,
    appended: Seq<StreamEntry<E>>,
    pending: Seq<StreamEntry<E>>,
    published: Seq<StreamEntry<E>>,
    max_len: nat,
    entry: StreamEntry<E>,
)
    requires
        log_follows(log, appended, pending, published, max_len),
    ensures
        log_follows(log, appended, pending.push(entry), published.push(entry), max_len),
{
    if keys_ascend(published.push(entry)) {
        lemma_front_ascends(published, entry);
        assert(appended + pending.push(entry) == (appended + pending).push(entry));
    }
}

/// Where all that was published has ascending keys and is what was appended
/// followed by the buffer, it still is after a flush.
proof fn lemma_flush_loses_nothing<E>(
    appended: Seq<StreamEntry<E>>,
    pending: Seq<StreamEntry<E>>,
    checkpoint_key: BlockHeight,
)
    requires
        keys_ascend(appended + pending),
    ensures
        (appended + due(pending, checkpoint_key)) + kept(pending, checkpoint_key) == appended
            + pending,
{
    lemma_back_ascends(appended, pending);
    lemma_flush_splits_in_order(pending, checkpoint_key);
    lemma_concat_associative(
        appended,
        due(pending, checkpoint_key),
        kept(pending, checkpoint_key),
    );
}

/// A flush, carried out on the log as a capped append, keeps the log in step
/// with its publisher. A flush at which nothing is due leaves the log as it is.
pub proof fn lemma_follows_after_flush<E>(
    log: Seq<StreamEntry<E>>,
    appended: Seq<StreamEntry<E>>,
    pending: Seq<StreamEntry<E>>,
    published: Seq<StreamEntry<E>>,
    max_len: nat,
    checkpoint_key: BlockHeight,
)
    requires
        log_follows(log, appended, pending, published, max_len),
    ensures
        log_follows(
            most_recent(log + due(pending, checkpoint_key), max_len),
            appended + due(pending, checkpoint_key),
            kept(pending, checkpoint_key),
            published,
            max_len,
        ),
        due(pending, checkpoint_key).len() == 0 ==> most_recent(
            log + due(pending, checkpoint_key),
            max_len,
        ) == log,
{
    let taken = due(pending, checkpoint_key);
    let left = kept(pending, checkpoint_key);
    assert(most_recent(log + taken, max_len) == most_recent(appended + taken, max_len)) by {
        lemma_most_recent_of_appended(appended, taken, max_len);
    }
    assert(taken.len() == 0 ==> most_recent(log + taken, max_len) == log) by {
        if taken.len() == 0 {
            assert(log + taken == log);
            assert(appended + taken == appended);
        }
    }
    assert(keys_ascend(published) ==> (appended + taken) + left == published) by {
        if keys_ascend(published) {
            lemma_flush_loses_nothing(appended, pending, checkpoint_key);
        }
    }
}

/// Two runs of entries with ascending keys, the second of which begins no
/// lower than the first ends, have ascending keys when joined.
pub proof fn lemma_joined_keys_ascend<E>(first: Seq<StreamEntry<E>>, second: Seq<StreamEntry<E>>)
    requires
        keys_ascend(first),
        keys_ascend(second),
        forall|i: int, j: int|
            0 <= i < first.len() && 0 <= j < second.len() ==> (#[trigger] first[i]).key <= (
            #[trigger] second[j]).key,
    ensures
        keys_ascend(first + second),
{
    let joined = first + second;
    assert forall|i: int, j: int| 0 <= i <= j < joined.len() implies (#[trigger] joined[i]).key
        <= (#[trigger] joined[j]).key by {
        if j < first.len() {
            assert(joined[i] == first[i] && joined[j] == first[j]);
        } else if i < first.len() {
            assert(joined[i] == first[i] && joined[j] == second[j - first.len()]);
        } else {
            assert(joined[i] == second[i - first.len()] && joined[j] == second[j - first.len()]);
        }
    }
}

} // verus!
