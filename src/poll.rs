//! The model of a polling session: the frames reassembled from the pieces
//! of stream read, the tags they carry, and where an inventory round ends.
use vstd::prelude::*;
use crate::frame::TYPE_NOTIFICATION;
use crate::response::{parse_tag, tag_reply, tag_views};
use crate::stream::{
    concat_pieces, drain_frames, lemma_drain_append, lemma_take_frame_shrinks, take_frame,
    FrameAssembler,
};
use crate::types::{TagInfo, TagView};

verus! {

/// Command code of the notification that ends an inventory round.
pub const ROUND_END_COMMAND: u8 = 0xFF;

/// Status byte of the notification that ends an inventory round.
pub const ROUND_END_STATUS: u8 = 0x15;

/// The notification the reader sends when an inventory round is over.
pub open spec fn is_round_end(frame: Seq<u8>) -> bool {
    &&& frame.len() >= 8
    &&& frame[1] == TYPE_NOTIFICATION
    &&& frame[2] == ROUND_END_COMMAND
    &&& frame[5] == ROUND_END_STATUS
}

/// Whether `frame` is the notification that ends an inventory round.
pub fn ends_round(frame: &[u8]) -> (b: bool)
    ensures
        b == is_round_end(frame@),
{
    frame.len() >= 8 && frame[1] == TYPE_NOTIFICATION && frame[2] == ROUND_END_COMMAND
        && frame[5] == ROUND_END_STATUS
}

/// The frames cut from a stream read piece by piece, cutting after each
/// piece, with the bytes still waiting for their terminator.
pub open spec fn reassemble(pieces: Seq<Seq<u8>>) -> (Seq<Seq<u8>>, Seq<u8>)
    decreases pieces.len(),
{
    if pieces.len() == 0 {
        (Seq::empty(), Seq::empty())
    } else {
        let before = reassemble(pieces.drop_last());
        let d = drain_frames(before.1 + pieces.last());
        (before.0 + d.0, d.1)
    }
}

/// However the stream was split into pieces, cutting after each piece gives
/// the frames, and the bytes left over, of the whole stream cut at once.
pub proof fn lemma_split_independent(pieces: Seq<Seq<u8>>)
    ensures
        reassemble(pieces) == drain_frames(concat_pieces(pieces)),
    decreases pieces.len(),
{
    if pieces.len() > 0 {
        lemma_split_independent(pieces.drop_last());
        lemma_drain_append(concat_pieces(pieces.drop_last()), pieces.last());
    } else {
        assert(drain_frames(Seq::<u8>::empty()) == (Seq::<Seq<u8>>::empty(), Seq::<u8>::empty()));
    }
}

/// The tag a frame carries, if it is a well-formed tag frame.
pub open spec fn frame_tag(frame: Seq<u8>) -> Seq<TagView> {
    match tag_reply(frame) {
        Some(Some(t)) => seq![t],
        _ => Seq::empty(),
    }
}

/// The tags that a sequence of frames carries, in order; frames that carry
/// none, or that do not parse, are passed over.
pub open spec fn frame_tags(frames: Seq<Seq<u8>>) -> Seq<TagView>
    decreases frames.len(),
{
    if frames.len() == 0 {
        Seq::empty()
    } else {
        frame_tags(frames.drop_last()) + frame_tag(frames.last())
    }
}

/// Index of the first round-end notification in `frames` at or after `i`,
/// or `frames.len()` if none.
pub open spec fn round_end_index(frames: Seq<Seq<u8>>, i: int) -> int
    decreases frames.len() - i,
{
    if i < 0 || i >= frames.len() {
        frames.len() as int
    } else if is_round_end(frames[i]) {
        i
    } else {
        round_end_index(frames, i + 1)
    }
}

/// The number of round-end notifications in `frames`.
pub open spec fn round_end_count(frames: Seq<Seq<u8>>) -> nat
    decreases frames.len(),
{
    if frames.len() == 0 {
        0
    } else {
        round_end_count(frames.drop_last()) + if is_round_end(frames.last()) {
            1nat
        } else {
            0nat
        }
    }
}

/// The pieces of a session: what `post` read beyond what `pre` had read.
pub open spec fn pieces_since(pre: Seq<Seq<u8>>, post: Seq<Seq<u8>>) -> Seq<Seq<u8>> {
    post.subrange(pre.len() as int, post.len() as int)
}

/// When no frame before index `k` ends a round and the frame at `k` does (or
/// `k` is the end), the first round end is at `k`.
pub proof fn lemma_round_end_index(frames: Seq<Seq<u8>>, i: int, k: int)
    requires
        0 <= i <= k <= frames.len(),
        forall|j: int| i <= j < k ==> !is_round_end(#[trigger] frames[j]),
        k < frames.len() ==> is_round_end(frames[k]),
    ensures
        round_end_index(frames, i) == k,
    decreases k - i,
{
    if i < k {
        lemma_round_end_index(frames, i + 1, k);
    }
}

/// What `round_end_index` finds: no round end before it, and a round end
/// at it unless it is the end.
pub proof fn lemma_round_end_index_props(frames: Seq<Seq<u8>>, i: int)
    requires
        0 <= i <= frames.len(),
    ensures
        i <= round_end_index(frames, i) <= frames.len(),
        forall|j: int| i <= j < round_end_index(frames, i) ==> !is_round_end(#[trigger] frames[j]),
        round_end_index(frames, i) < frames.len() ==> is_round_end(
            frames[round_end_index(frames, i)],
        ),
    decreases frames.len() - i,
{
    if i < frames.len() && !is_round_end(frames[i]) {
        lemma_round_end_index_props(frames, i + 1);
    }
}

/// The tags of two runs of frames are the tags of each, in order.
pub proof fn lemma_frame_tags_concat(a: Seq<Seq<u8>>, b: Seq<Seq<u8>>)
    ensures
        frame_tags(a + b) == frame_tags(a) + frame_tags(b),
    decreases b.len(),
{
    if b.len() == 0 {
        assert(a + b =~= a);
        assert(frame_tags(b) =~= Seq::<TagView>::empty());
        assert(frame_tags(a) + frame_tags(b) =~= frame_tags(a));
    } else {
        lemma_frame_tags_concat(a, b.drop_last());
        assert((a + b).drop_last() =~= a + b.drop_last());
        assert((a + b).last() == b.last());
        assert(frame_tags(a + b) =~= frame_tags(a) + frame_tags(b));
    }
}

/// Round ends in two runs of frames add up.
pub proof fn lemma_round_end_count_concat(a: Seq<Seq<u8>>, b: Seq<Seq<u8>>)
    ensures
        round_end_count(a + b) == round_end_count(a) + round_end_count(b),
    decreases b.len(),
{
    if b.len() == 0 {
        assert(a + b =~= a);
    } else {
        lemma_round_end_count_concat(a, b.drop_last());
        assert((a + b).drop_last() =~= a + b.drop_last());
        assert((a + b).last() == b.last());
    }
}

/// Frames without a round-end notification count none.
pub proof fn lemma_no_round_end_count(frames: Seq<Seq<u8>>)
    requires
        forall|j: int| 0 <= j < frames.len() ==> !is_round_end(#[trigger] frames[j]),
    ensures
        round_end_count(frames) == 0,
    decreases frames.len(),
{
    if frames.len() > 0 {
        let rest = frames.drop_last();
        assert forall|j: int| 0 <= j < rest.len() implies !is_round_end(#[trigger] rest[j]) by {
            assert(rest[j] == frames[j]);
        }
        lemma_no_round_end_count(rest);
    }
}

/// A round-end notification carries no tag.
pub proof fn lemma_round_end_no_tag(frame: Seq<u8>)
    requires
        is_round_end(frame),
    ensures
        frame_tag(frame) == Seq::<TagView>::empty(),
{
}

/// Taking a frame off a buffer is the first step of draining it.
pub proof fn lemma_drain_step(b: Seq<u8>)
    ensures
        take_frame(b).0 matches Some(f) ==> drain_frames(b) == (
            seq![f] + drain_frames(take_frame(b).1).0,
            drain_frames(take_frame(b).1).1,
        ),
        take_frame(b).0 is None ==> drain_frames(b) == (Seq::<Seq<u8>>::empty(), take_frame(b).1),
{
    lemma_take_frame_shrinks(b);
}

/// Something that takes the tags of a polling session as they are found.
pub(crate) trait TagSink {
    /// Whether the sink can take a tag now.
    spec fn ready(&self) -> bool;

    /// The tags taken so far.
    spec fn taken(&self) -> Seq<TagView>;

    /// Takes one tag.
    fn take(&mut self, tag: TagInfo)
        requires
            old(self).ready(),
        ensures
            final(self).ready(),
            final(self).taken() == old(self).taken().push(tag@),
    ;
}

impl TagSink for Vec<TagInfo> {
    open spec fn ready(&self) -> bool {
        true
    }

    open spec fn taken(&self) -> Seq<TagView> {
        tag_views(self@)
    }

    fn take(&mut self, tag: TagInfo) {
        let ghost before = self@;
        self.push(tag);
        proof {
            assert(tag_views(self@) =~= tag_views(before).push(tag@));
        }
    }
}

/// Hands each tag to a caller's callback.
pub(crate) struct CallbackSink<F: FnMut(TagInfo)> {
    pub(crate) callback: F,
    pub(crate) taken: Ghost<Seq<TagView>>,
}

impl<F: FnMut(TagInfo)> TagSink for CallbackSink<F> {
    open spec fn ready(&self) -> bool {
        forall|t: TagInfo| self.callback.requires((t,))
    }

    open spec fn taken(&self) -> Seq<TagView> {
        self.taken@
    }

    fn take(&mut self, tag: TagInfo) {
        let ghost v = tag@;
        (self.callback)(tag);
        self.taken = Ghost(self.taken@.push(v));
    }
}

/// Cuts the complete frames out of `pending` in stream order and hands the tag
/// of each tag frame to `sink`, stopping after the first round-end
/// notification; returns whether one was met. Frames that do not parse are
/// passed over.
pub(crate) fn cut_frames<S: TagSink>(pending: &mut FrameAssembler, sink: &mut S, count: &mut usize) -> (ended: bool)
    requires
        old(sink).ready(),
        *old(count) + old(pending)@.len() <= usize::MAX,
    ensures
        final(sink).ready(),
        ({
            let d = drain_frames(old(pending)@);
            let k = round_end_index(d.0, 0);
            &&& ended == (k < d.0.len())
            &&& drain_frames(final(pending)@) == (
                if ended {
                    d.0.skip(k + 1)
                } else {
                    Seq::<Seq<u8>>::empty()
                },
                d.1,
            )
            &&& final(sink).taken() == old(sink).taken() + frame_tags(d.0.take(k))
            &&& *final(count) == *old(count) + frame_tags(d.0.take(k)).len()
            &&& !ended ==> final(pending)@ == d.1
        }),
        *final(count) + final(pending)@.len() <= *old(count) + old(pending)@.len(),
        ended ==> final(pending)@.len() < old(pending)@.len(),
{
    let ghost d0 = drain_frames(pending@);
    let ghost taken0 = sink.taken();
    let ghost count0 = *count;
    let ghost bound = *count + pending@.len();
    let ghost mut done: Seq<Seq<u8>> = Seq::empty();
    proof {
        assert(done + drain_frames(pending@).0 =~= d0.0);
        assert(frame_tags(done) =~= Seq::<TagView>::empty());
        assert(sink.taken() =~= taken0 + frame_tags(done));
    }
    loop
        invariant
            sink.ready(),
            done + drain_frames(pending@).0 == d0.0,
            drain_frames(pending@).1 == d0.1,
            forall|j: int| 0 <= j < done.len() ==> !is_round_end(#[trigger] done[j]),
            sink.taken() == taken0 + frame_tags(done),
            *count == count0 + frame_tags(done).len(),
            *count + pending@.len() <= bound,
            bound <= usize::MAX,
            bound == *old(count) + old(pending)@.len(),
            d0 == drain_frames(old(pending)@),
            taken0 == old(sink).taken(),
            count0 == *old(count),
            pending@.len() <= old(pending)@.len(),
        decreases pending@.len(),
    {
        let ghost before = pending@;
        proof {
            lemma_drain_step(before);
            lemma_take_frame_shrinks(before);
        }
        match pending.next_frame() {
            None => {
                proof {
                    lemma_take_frame_shrinks(before);
                    assert(take_frame(pending@).0 is None);
                    lemma_drain_step(pending@);
                    assert(done =~= d0.0);
                    lemma_round_end_index(d0.0, 0, d0.0.len() as int);
                    assert(d0.0.take(d0.0.len() as int) =~= d0.0);
                }
                return false;
            },
            Some(frame) => {
                proof {
                    assert(d0.0 =~= done + (seq![frame@] + drain_frames(pending@).0));
                }
                if ends_round(frame.as_slice()) {
                    proof {
                        lemma_round_end_index(d0.0, 0, done.len() as int);
                        assert(d0.0.take(done.len() as int) =~= done);
                        assert(d0.0.skip(done.len() + 1 as int) =~= drain_frames(pending@).0);
                    }
                    return true;
                }
                let ghost tags_before = sink.taken();
                match parse_tag(frame.as_slice()) {
                    Ok(Some(tag)) => {
                        sink.take(tag);
                        *count = *count + 1;
                    },
                    _ => {},
                }
                proof {
                    let next = done.push(frame@);
                    assert(next.drop_last() =~= done);
                    assert(frame_tags(next) == frame_tags(done) + frame_tag(frame@));
                    assert(sink.taken() =~= taken0 + frame_tags(next));
                    assert(next + drain_frames(pending@).0 =~= d0.0);
                    done = next;
                }
            },
        }
    }
}

/// Whether a read brought bytes: `None` is a failed read, `Some` holds what
/// a successful one brought.
pub open spec fn got_bytes(read: Option<Seq<u8>>) -> bool {
    read is Some && read->0.len() > 0
}

/// The pieces of stream among a session's reads: what each read that
/// brought bytes brought, in order.
pub open spec fn pieces_of(reads: Seq<Option<Seq<u8>>>) -> Seq<Seq<u8>>
    decreases reads.len(),
{
    if reads.len() == 0 {
        Seq::empty()
    } else if got_bytes(reads.last()) {
        pieces_of(reads.drop_last()).push(reads.last()->0)
    } else {
        pieces_of(reads.drop_last())
    }
}

/// How many clock readings are below `limit`.
pub open spec fn count_below(readings: Seq<u128>, limit: u128) -> nat
    decreases readings.len(),
{
    if readings.len() == 0 {
        0
    } else {
        count_below(readings.drop_last(), limit) + if readings.last() < limit {
            1nat
        } else {
            0nat
        }
    }
}

/// What a round-bounded session does after a read.
#[derive(Debug, Clone, Copy, PartialEq, Eq, Structural)]
pub enum PollStep {
    /// Read again at once.
    Continue,
    /// Pause, then read again.
    Pause,
    /// End the session.
    Stop,
}

/// The decision of a round-bounded session after a read: stop at the
/// round-end notification; go on at once after bytes arrived; after a read
/// that brought nothing, stop once more than `max_wait_ms` milliseconds have
/// passed since bytes last arrived (or since the start), and pause otherwise.
pub fn round_step(round_end: bool, got_bytes: bool, idle_ms: u128, max_wait_ms: u128) -> (s: PollStep)
    ensures
        s == if round_end {
            PollStep::Stop
        } else if got_bytes {
            PollStep::Continue
        } else if idle_ms > max_wait_ms {
            PollStep::Stop
        } else {
            PollStep::Pause
        },
{
    if round_end {
        PollStep::Stop
    } else if got_bytes {
        PollStep::Continue
    } else if idle_ms > max_wait_ms {
        PollStep::Stop
    } else {
        PollStep::Pause
    }
}

/// The decision of a time-bounded session at a clock reading: go on (read,
/// or restart after a round end) exactly while the reading is below the
/// session's length.
pub fn time_remains(elapsed_ms: u128, timeout_ms: u128) -> (b: bool)
    ensures
        b == (elapsed_ms < timeout_ms),
{
    elapsed_ms < timeout_ms
}

} // verus!
