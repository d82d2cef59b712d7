//! Reassembly of frames from a byte stream that arrives in arbitrary pieces.
//!
//! A frame ends at the first terminator byte in the buffer and starts at the
//! closest header byte before it. Bytes before that header are dropped, and a
//! terminator with no header before it is dropped together with everything up
//! to it: the stream resynchronises on the next header.
use vstd::prelude::*;
use crate::frame::{HEADER, END, copy_range};

verus! {

/// Index of the first `v` in `b` at or after `i`, or `b.len()` if none.
pub open spec fn first_index_from(b: Seq<u8>, v: u8, i: int) -> int
    decreases b.len() - i,
{
    if i < 0 || i >= b.len() {
        b.len() as int
    } else if b[i] == v {
        i
    } else {
        first_index_from(b, v, i + 1)
    }
}

/// Index of the last `v` in `b` before index `e`, or -1 if none.
pub open spec fn last_index_before(b: Seq<u8>, v: u8, e: int) -> int
    decreases e,
{
    if e <= 0 || e > b.len() {
        -1
    } else if b[e - 1] == v {
        e - 1
    } else {
        last_index_before(b, v, e - 1)
    }
}

/// Takes the next complete frame from the front of `b`, with what remains of
/// `b` after it. With no terminator in `b`, there is no frame and `b` stays.
pub open spec fn take_frame(b: Seq<u8>) -> (Option<Seq<u8>>, Seq<u8>)
    decreases b.len(),
{
    let e = first_index_from(b, END, 0);
    if e < 0 || e >= b.len() {
        (None, b)
    } else {
        let s = last_index_before(b, HEADER, e);
        if s >= 0 {
            (Some(b.subrange(s, e + 1)), b.skip(e + 1))
        } else {
            take_frame(b.skip(e + 1))
        }
    }
}

/// All complete frames in `b`, in stream order, with the bytes left over.
pub open spec fn drain_frames(b: Seq<u8>) -> (Seq<Seq<u8>>, Seq<u8>)
    decreases b.len(),
{
    match take_frame(b) {
        (Some(f), rest) => if rest.len() < b.len() {
            let d = drain_frames(rest);
            (seq![f] + d.0, d.1)
        } else {
            (seq![f], rest)
        },
        (None, rest) => (Seq::empty(), rest),
    }
}

proof fn lemma_first_index_bounds(b: Seq<u8>, v: u8, i: int)
    requires
        0 <= i,
    ensures
        i <= first_index_from(b, v, i) <= b.len() || (i > b.len() && first_index_from(b, v, i)
            == b.len()),
        first_index_from(b, v, i) < b.len() ==> b[first_index_from(b, v, i)] == v,
        forall|j: int|
            i <= j < first_index_from(b, v, i) && j < b.len() ==> b[j] != v,
    decreases b.len() - i,
{
    if i < b.len() && b[i] != v {
        lemma_first_index_bounds(b, v, i + 1);
    }
}

proof fn lemma_last_index_bounds(b: Seq<u8>, v: u8, e: int)
    ensures
        -1 <= last_index_before(b, v, e) < e || (e <= 0 && last_index_before(b, v, e) == -1),
        last_index_before(b, v, e) >= 0 ==> b[last_index_before(b, v, e)] == v,
    decreases e,
{
    if 0 < e <= b.len() && b[e - 1] != v {
        lemma_last_index_bounds(b, v, e - 1);
    }
}

/// Taking a frame never lengthens the buffer, and taking one shortens it.
pub proof fn lemma_take_frame_shrinks(b: Seq<u8>)
    ensures
        take_frame(b).1.len() <= b.len(),
        take_frame(b).0 is Some ==> take_frame(b).1.len() < b.len(),
        take_frame(b).0 is None ==> first_index_from(take_frame(b).1, END, 0) >= take_frame(
            b,
        ).1.len(),
    decreases b.len(),
{
    lemma_first_index_bounds(b, END, 0);
    let e = first_index_from(b, END, 0);
    if 0 <= e < b.len() {
        let s = last_index_before(b, HEADER, e);
        if s < 0 {
            lemma_take_frame_shrinks(b.skip(e + 1));
        }
    }
}

proof fn lemma_first_index_prefix(b: Seq<u8>, c: Seq<u8>, v: u8, i: int)
    requires
        0 <= i,
        first_index_from(b, v, i) < b.len(),
    ensures
        first_index_from(b + c, v, i) == first_index_from(b, v, i),
    decreases b.len() - i,
{
    if i < b.len() && b[i] != v {
        lemma_first_index_prefix(b, c, v, i + 1);
    }
}

proof fn lemma_last_index_prefix(b: Seq<u8>, c: Seq<u8>, v: u8, e: int)
    requires
        e <= b.len(),
    ensures
        last_index_before(b + c, v, e) == last_index_before(b, v, e),
    decreases e,
{
    if 0 < e && (b + c)[e - 1] != v {
        lemma_last_index_prefix(b, c, v, e - 1);
    }
}

/// More bytes after a buffer do not change the frame taken from it; with no
/// frame in it, only what is left of it matters.
proof fn lemma_take_frame_append(b: Seq<u8>, c: Seq<u8>)
    ensures
        take_frame(b).0 is Some ==> take_frame(b + c) == (take_frame(b).0, take_frame(b).1 + c),
        take_frame(b).0 is None ==> take_frame(b + c) == take_frame(take_frame(b).1 + c),
    decreases b.len(),
{
    lemma_first_index_bounds(b, END, 0);
    let e = first_index_from(b, END, 0);
    if e < b.len() {
        lemma_first_index_prefix(b, c, END, 0);
        lemma_last_index_prefix(b, c, HEADER, e);
        lemma_last_index_bounds(b, HEADER, e);
        let s = last_index_before(b, HEADER, e);
        assert((b + c).skip(e + 1) =~= b.skip(e + 1) + c);
        if s >= 0 {
            assert((b + c).subrange(s, e + 1) =~= b.subrange(s, e + 1));
        } else {
            lemma_take_frame_append(b.skip(e + 1), c);
        }
    } else {
        assert(take_frame(b) == (None::<Seq<u8>>, b));
    }
}

/// Draining a buffer and then what follows it gives the frames of the whole.
pub proof fn lemma_drain_append(b: Seq<u8>, c: Seq<u8>)
    ensures
        drain_frames(b + c) == (
            drain_frames(b).0 + drain_frames(drain_frames(b).1 + c).0,
            drain_frames(drain_frames(b).1 + c).1,
        ),
    decreases b.len(),
{
    lemma_take_frame_shrinks(b);
    lemma_take_frame_shrinks(b + c);
    lemma_take_frame_append(b, c);
    let r = take_frame(b).1;
    if take_frame(b).0 is Some {
        lemma_drain_append(r, c);
        assert(drain_frames(b).0 + drain_frames(drain_frames(b).1 + c).0 =~= seq![
            take_frame(b).0->0,
        ] + drain_frames(r + c).0);
    } else {
        lemma_take_frame_shrinks(r + c);
        assert(drain_frames(b).0 + drain_frames(r + c).0 =~= drain_frames(r + c).0);
    }
}

/// The bytes of a sequence of pieces, one after the other.
pub open spec fn concat_pieces(pieces: Seq<Seq<u8>>) -> Seq<u8>
    decreases pieces.len(),
{
    if pieces.len() == 0 {
        Seq::empty()
    } else {
        concat_pieces(pieces.drop_last()) + pieces.last()
    }
}

proof fn lemma_last_index_finds(b: Seq<u8>, v: u8, e: int, j: int)
    requires
        0 <= j < e <= b.len(),
        b[j] == v,
    ensures
        last_index_before(b, v, e) >= j,
    decreases e,
{
    if b[e - 1] != v {
        lemma_last_index_finds(b, v, e - 1, j);
    }
}

/// A frame on its own: a header first, the terminator last, and neither
/// anywhere else.
pub open spec fn is_clean_frame(f: Seq<u8>) -> bool {
    &&& f.len() >= 2
    &&& f[0] == HEADER
    &&& f.last() == END
    &&& forall|i: int| 0 < i < f.len() ==> #[trigger] f[i] != HEADER
    &&& forall|i: int| 0 <= i < f.len() - 1 ==> #[trigger] f[i] != END
}

/// A frame on its own is cut out whole, with nothing left over.
pub proof fn lemma_clean_frame(f: Seq<u8>)
    requires
        is_clean_frame(f),
    ensures
        drain_frames(f) == (seq![f], Seq::<u8>::empty()),
{
    let e = f.len() - 1;
    lemma_first_index_bounds(f, END, 0);
    let r = first_index_from(f, END, 0);
    if r < e {
        assert(f[r] == END);
    }
    if r == f.len() {
        assert(f[e] != END);
    }
    assert(r == e);
    lemma_last_index_bounds(f, HEADER, e);
    lemma_last_index_finds(f, HEADER, e, 0);
    let s = last_index_before(f, HEADER, e);
    if s > 0 {
        assert(f[s] == HEADER);
    }
    assert(s == 0);
    assert(f.subrange(0, e + 1) =~= f);
    assert(f.skip(e + 1) =~= Seq::<u8>::empty());
    assert(take_frame(f) == (Some(f), Seq::<u8>::empty()));
    let empty = Seq::<u8>::empty();
    assert(first_index_from(empty, END, 0) == 0);
    assert(take_frame(empty) == (None::<Seq<u8>>, empty));
    assert(drain_frames(empty) == (Seq::<Seq<u8>>::empty(), empty));
    assert(seq![f] + Seq::<Seq<u8>>::empty() =~= seq![f]);
}

/// Bytes received from the reader, waiting to be cut into frames.
pub struct FrameAssembler {
    buf: Vec<u8>,
}

impl View for FrameAssembler {
    type V = Seq<u8>;

    closed spec fn view(&self) -> Seq<u8> {
        self.buf@
    }
}

impl FrameAssembler {
    /// An empty assembler.
    pub fn new() -> (a: FrameAssembler)
        ensures
            a@ == Seq::<u8>::empty(),
    {
        FrameAssembler { buf: Vec::new() }
    }

    /// Appends received bytes.
    pub fn push(&mut self, bytes: &[u8])
        ensures
            final(self)@ == old(self)@ + bytes@,
    {
        let ghost start = self.buf@;
        let mut i: usize = 0;
        while i < bytes.len()
            invariant
                i <= bytes@.len(),
                self.buf@ == start + bytes@.take(i as int),
            decreases bytes@.len() - i,
        {
            self.buf.push(bytes[i]);
            i = i + 1;
            proof {
                assert(self.buf@ =~= start + bytes@.take(i as int));
            }
        }
        proof {
            assert(bytes@.take(i as int) =~= bytes@);
        }
    }

    /// Takes the next complete frame, if the buffer holds one: see
    /// `take_frame`.
    pub fn next_frame(&mut self) -> (r: Option<Vec<u8>>)
        ensures
            match take_frame(old(self)@) {
                (Some(f), rest) => r is Some && r->0@ == f && final(self)@ == rest,
                (None, rest) => r is None && final(self)@ == rest,
            },
    {
        loop
            invariant
                take_frame(self.buf@) == take_frame(old(self)@),
            decreases self.buf@.len(),
        {
            let n = self.buf.len();
            let mut i: usize = 0;
            while i < n && self.buf[i] != END
                invariant
                    i <= n,
                    n == self.buf@.len(),
                    first_index_from(self.buf@, END, 0) == first_index_from(self.buf@, END, i as int),
                decreases n - i,
            {
                i = i + 1;
            }
            if i == n {
                return None;
            }
            let mut k: usize = i;
            while k > 0 && self.buf[k - 1] != HEADER
                invariant
                    k <= i < n,
                    n == self.buf@.len(),
                    last_index_before(self.buf@, HEADER, i as int) == last_index_before(
                        self.buf@,
                        HEADER,
                        k as int,
                    ),
                decreases k,
            {
                k = k - 1;
            }
            let ghost b = self.buf@;
            let rest = self.buf.split_off(i + 1);
            if k > 0 {
                let frame = copy_range(self.buf.as_slice(), k - 1, i + 1);
                self.buf = rest;
                proof {
                    assert(b.skip(i + 1) =~= self.buf@);
                }
                return Some(frame);
            }
            self.buf = rest;
            proof {
                assert(b.skip(i + 1) =~= self.buf@);
            }
        }
    }
}

} // verus!
