//! Frame reassembly: accumulating raw network bytes and splitting them into
//! server-sent event frames on the blank-line delimiter.
//!
//! The buffer keeps at most one partial, undelimited frame between chunks, so
//! frames that arrive split across reads are reassembled; the split of the
//! byte stream into chunks never changes which frames come out.

use vstd::prelude::*;
use vstd::slice::slice_subrange;
use vstd::slice::slice_to_vec;

verus! {

/// The newline byte; two in a row separate frames.
pub const NL: u8 = 10;

/// A frame delimiter (two consecutive newline bytes) sits at position `i`.
pub open spec fn delim_at(s: Seq<u8>, i: int) -> bool {
    0 <= i && i + 2 <= s.len() && s[i] == NL && s[i + 1] == NL
}

/// Position of the first frame delimiter in `s`, or -1 if there is none.
pub open spec fn first_delim(s: Seq<u8>) -> int
    decreases s.len(),
{
    if s.len() < 2 {
        -1
    } else if s[0] == NL && s[1] == NL {
        0
    } else {
        let r = first_delim(s.drop_first());
        if r < 0 {
            -1
        } else {
            r + 1
        }
    }
}

proof fn lemma_first_delim(s: Seq<u8>)
    ensures
        first_delim(s) >= 0 ==> delim_at(s, first_delim(s)),
        first_delim(s) >= 0 ==> forall|j: int| 0 <= j < first_delim(s) ==> !delim_at(s, j),
        first_delim(s) < 0 ==> forall|j: int| !delim_at(s, j),
    decreases s.len(),
{
    if s.len() < 2 {
    } else if s[0] == NL && s[1] == NL {
    } else {
        lemma_first_delim(s.drop_first());
        let t = s.drop_first();
        assert(forall|j: int| 0 <= j ==> #[trigger] delim_at(s, j + 1) == delim_at(t, j));
        assert(!delim_at(s, 0));
        let r = first_delim(t);
        if r >= 0 {
            assert(delim_at(t, r));
            assert(delim_at(s, r + 1));
            assert forall|j: int| 0 <= j < r + 1 implies !delim_at(s, j) by {
                if j > 0 {
                    assert(!delim_at(t, j - 1));
                    assert(delim_at(s, (j - 1) + 1) == delim_at(t, j - 1));
                }
            }
        } else {
            assert forall|j: int| !delim_at(s, j) by {
                if j > 0 {
                    assert(!delim_at(t, j - 1));
                    assert(delim_at(s, (j - 1) + 1) == delim_at(t, j - 1));
                }
            }
        }
    }
}

proof fn lemma_first_delim_bound(s: Seq<u8>)
    ensures
        first_delim(s) >= 0 ==> first_delim(s) + 2 <= s.len(),
        first_delim(s) >= -1,
    decreases s.len(),
{
    if s.len() >= 2 && !(s[0] == NL && s[1] == NL) {
        lemma_first_delim_bound(s.drop_first());
    }
}

/// The complete frames in `s`: every segment up to a delimiter, in order,
/// delimiters removed.
pub open spec fn frames_of(s: Seq<u8>) -> Seq<Seq<u8>>
    decreases s.len(),
    via frames_of_decreases
{
    let fd = first_delim(s);
    if fd < 0 {
        Seq::empty()
    } else {
        seq![s.take(fd)] + frames_of(s.skip(fd + 2))
    }
}

#[via_fn]
proof fn frames_of_decreases(s: Seq<u8>) {
    lemma_first_delim_bound(s);
}

/// What remains of `s` after the last delimiter: the one partial frame still
/// waiting for more bytes.
pub open spec fn rest_of(s: Seq<u8>) -> Seq<u8>
    decreases s.len(),
    via rest_of_decreases
{
    let fd = first_delim(s);
    if fd < 0 {
        s
    } else {
        rest_of(s.skip(fd + 2))
    }
}

#[via_fn]
proof fn rest_of_decreases(s: Seq<u8>) {
    lemma_first_delim_bound(s);
}

/// What stays buffered never holds a complete delimiter.
pub proof fn lemma_rest_has_no_delim(s: Seq<u8>)
    ensures
        first_delim(rest_of(s)) == -1,
    decreases s.len(),
{
    lemma_first_delim_bound(s);
    let fd = first_delim(s);
    if fd < 0 {
    } else {
        lemma_rest_has_no_delim(s.skip(fd + 2));
    }
}

proof fn lemma_first_delim_append(s: Seq<u8>, t: Seq<u8>)
    requires
        first_delim(s) >= 0,
    ensures
        first_delim(s + t) == first_delim(s),
    decreases s.len(),
{
    lemma_first_delim_bound(s);
    if s[0] == NL && s[1] == NL {
        assert((s + t)[0] == NL);
        assert((s + t)[1] == NL);
    } else {
        assert((s + t)[0] == s[0]);
        assert((s + t)[1] == s[1]);
        lemma_first_delim_append(s.drop_first(), t);
        assert(s.drop_first() + t =~= (s + t).drop_first());
    }
}

/// Splitting is compositional: the frames of `s + t` are the frames of `s`
/// followed by the frames of the remainder of `s` joined with `t`, and the
/// remainders agree likewise.
pub proof fn lemma_split_append(s: Seq<u8>, t: Seq<u8>)
    ensures
        frames_of(s + t) == frames_of(s) + frames_of(rest_of(s) + t),
        rest_of(s + t) == rest_of(rest_of(s) + t),
    decreases s.len(),
{
    lemma_first_delim_bound(s);
    let fd = first_delim(s);
    if fd < 0 {
        assert(rest_of(s) == s);
        assert(frames_of(s) =~= Seq::<Seq<u8>>::empty());
        assert(frames_of(s) + frames_of(s + t) =~= frames_of(s + t));
    } else {
        lemma_first_delim_append(s, t);
        assert(first_delim(s + t) == fd);
        assert((s + t).take(fd) =~= s.take(fd));
        assert((s + t).skip(fd + 2) =~= s.skip(fd + 2) + t);
        lemma_split_append(s.skip(fd + 2), t);
        assert(frames_of(s + t) =~= seq![s.take(fd)] + (frames_of(s.skip(fd + 2)) + frames_of(
            rest_of(s.skip(fd + 2)) + t,
        )));
        assert(seq![s.take(fd)] + (frames_of(s.skip(fd + 2)) + frames_of(
            rest_of(s.skip(fd + 2)) + t,
        )) =~= (seq![s.take(fd)] + frames_of(s.skip(fd + 2))) + frames_of(
            rest_of(s.skip(fd + 2)) + t,
        ));
    }
}

/// Growable accumulator for not-yet-delimited network data.  After each push
/// it holds at most one partial frame; complete frames are handed out and
/// removed.
pub struct FrameBuffer {
    buf: Vec<u8>,
    history: Ghost<Seq<u8>>,
}

impl FrameBuffer {
    /// Every byte this buffer was ever fed.
    pub closed spec fn fed(&self) -> Seq<u8> {
        self.history@
    }

    /// The bytes still waiting for a delimiter.
    pub closed spec fn pending(&self) -> Seq<u8> {
        self.buf@
    }

    /// The buffer holds exactly what follows the last delimiter of the bytes
    /// fed so far.
    pub closed spec fn wf(&self) -> bool {
        self.buf@ == rest_of(self.history@)
    }

    /// An empty buffer: nothing fed, nothing pending.
    pub fn new() -> (b: FrameBuffer)
        ensures
            b.wf(),
            b.fed() == Seq::<u8>::empty(),
            b.pending() == Seq::<u8>::empty(),
    {
        let b = FrameBuffer { buf: Vec::new(), history: Ghost(Seq::empty()) };
        proof {
            assert(rest_of(Seq::<u8>::empty()) == Seq::<u8>::empty());
        }
        b
    }

    fn find_delim(&self) -> (r: Option<usize>)
        ensures
            match r {
                Some(d) => d == first_delim(self.buf@),
                None => first_delim(self.buf@) == -1,
            },
    {
        proof {
            lemma_first_delim(self.buf@);
            lemma_first_delim_bound(self.buf@);
        }
        if self.buf.len() < 2 {
            return None;
        }
        let mut i: usize = 0;
        while i < self.buf.len() - 1
            invariant
                self.buf@.len() >= 2,
                i <= self.buf@.len(),
                forall|j: int| 0 <= j < i ==> !delim_at(self.buf@, j),
            decreases self.buf.len() - i,
        {
            if self.buf[i] == NL && self.buf[i + 1] == NL {
                proof {
                    assert(delim_at(self.buf@, i as int));
                    lemma_first_delim(self.buf@);
                    lemma_first_delim_bound(self.buf@);
                    let fd = first_delim(self.buf@);
                    if fd < 0 {
                        assert(!delim_at(self.buf@, i as int));
                    } else if fd < i {
                        assert(!delim_at(self.buf@, fd));
                    } else if fd > i {
                        assert(!delim_at(self.buf@, i as int));
                    }
                }
                return Some(i);
            }
            i = i + 1;
        }
        proof {
            assert forall|j: int| !delim_at(self.buf@, j) by {
                if 0 <= j && j + 2 <= self.buf@.len() {
                    assert(j <= self.buf@.len() - 2);
                    assert(j < i);
                }
            }
            lemma_first_delim(self.buf@);
            lemma_first_delim_bound(self.buf@);
            let fd = first_delim(self.buf@);
            if fd >= 0 {
                assert(delim_at(self.buf@, fd));
            }
        }
        None
    }

    /// Appends one network chunk and hands out every frame it completes, in
    /// order; the final, possibly incomplete remainder stays buffered.
    #[verifier::loop_isolation(false)]
    pub fn push_chunk(&mut self, chunk: &[u8]) -> (frames: Vec<Vec<u8>>)
        requires
            old(self).wf(),
        ensures
            final(self).wf(),
            final(self).fed() == old(self).fed() + chunk@,
            frames.deep_view() == frames_of(old(self).pending() + chunk@),
            final(self).pending() == rest_of(old(self).pending() + chunk@),
            frames_of(final(self).fed()) == frames_of(old(self).fed()) + frames.deep_view(),
            rest_of(final(self).fed()) == final(self).pending(),
    {
        let mut cvec: Vec<u8> = slice_to_vec(chunk);
        self.buf.append(&mut cvec);
        self.history = Ghost(self.history@ + chunk@);
        let ghost u = old(self).pending() + chunk@;
        proof {
            lemma_split_append(old(self).fed(), chunk@);
        }
        let mut frames: Vec<Vec<u8>> = Vec::new();
        proof {
            assert(frames.deep_view() =~~= Seq::<Seq<u8>>::empty());
            assert(self.buf@ == u);
            assert(frames.deep_view() + frames_of(self.buf@) =~= frames_of(u));
        }
        loop
            invariant
                self.history@ == old(self).fed() + chunk@,
                frames.deep_view() + frames_of(self.buf@) == frames_of(u),
                rest_of(self.buf@) == rest_of(u),
            decreases self.buf@.len(),
        {
            let found = self.find_delim();
            match found {
                Some(d) => {
                    let ghost b = self.buf@;
                    let ghost fdv = frames.deep_view();
                    proof {
                        lemma_first_delim_bound(b);
                        assert(first_delim(b) == d as int);
                        assert(d as int + 2 <= b.len());
                    }
                    let len = self.buf.len();
                    proof {
                        assert(d as int + 2 <= len as int);
                    }
                    let frame: Vec<u8> = slice_to_vec(slice_subrange(self.buf.as_slice(), 0, d));
                    let rest: Vec<u8> = slice_to_vec(
                        slice_subrange(self.buf.as_slice(), d + 2, len),
                    );
                    proof {
                        assert(frame@ =~= b.take(d as int));
                        assert(rest@ =~= b.skip(d as int + 2));
                    }
                    frames.push(frame);
                    self.buf = rest;
                    proof {
                        assert(frames_of(b) == seq![b.take(d as int)] + frames_of(
                            b.skip(d as int + 2),
                        ));
                        assert(rest_of(b) == rest_of(b.skip(d as int + 2)));
                        assert(frames.deep_view() =~~= fdv.push(frame@));
                        assert(fdv.push(frame@) + frames_of(self.buf@) =~= fdv + (seq![b.take(
                            d as int,
                        )] + frames_of(b.skip(d as int + 2))));
                    }
                }
                None => {
                    proof {
                        assert(frames_of(self.buf@) =~= Seq::<Seq<u8>>::empty());
                        assert(frames.deep_view() + Seq::<Seq<u8>>::empty() =~= frames.deep_view());
                        assert(rest_of(self.buf@) == self.buf@);
                    }
                    return frames;
                }
            }
        }
    }
}

/// The frames and the remainder that pushing `chunks` one after another
/// yields, starting from a buffered remainder `pending`.
pub open spec fn feed(pending: Seq<u8>, chunks: Seq<Seq<u8>>) -> (Seq<Seq<u8>>, Seq<u8>)
    decreases chunks.len(),
{
    if chunks.len() == 0 {
        (Seq::empty(), pending)
    } else {
        let emitted = frames_of(pending + chunks[0]);
        let rest = rest_of(pending + chunks[0]);
        let later = feed(rest, chunks.drop_first());
        (emitted + later.0, later.1)
    }
}

proof fn lemma_feed_from_rest(pending: Seq<u8>, chunks: Seq<Seq<u8>>)
    requires
        first_delim(pending) == -1,
    ensures
        feed(pending, chunks).0 == frames_of(pending + chunks.flatten()),
        feed(pending, chunks).1 == rest_of(pending + chunks.flatten()),
    decreases chunks.len(),
{
    if chunks.len() == 0 {
        assert(chunks.flatten() =~= Seq::<u8>::empty());
        assert(pending + chunks.flatten() =~= pending);
        assert(frames_of(pending) =~= Seq::<Seq<u8>>::empty());
        assert(rest_of(pending) == pending);
    } else {
        let c0 = chunks[0];
        let head = pending + c0;
        let rest = rest_of(head);
        lemma_rest_has_no_delim(head);
        lemma_feed_from_rest(rest, chunks.drop_first());
        lemma_split_append(head, chunks.drop_first().flatten());
        assert(chunks.flatten() == c0 + chunks.drop_first().flatten());
        assert(pending + chunks.flatten() =~= head + chunks.drop_first().flatten());
        assert(frames_of(head + chunks.drop_first().flatten()) =~= frames_of(head) + frames_of(
            rest + chunks.drop_first().flatten(),
        ));
        assert(feed(pending, chunks).0 =~= frames_of(head) + feed(rest, chunks.drop_first()).0);
    }
}

/// Reassembly is fragmentation-invariant: however a byte stream is split into
/// chunks, feeding the chunks one by one emits exactly the frames of the
/// whole stream, and leaves exactly its undelimited tail buffered.  `feed`
/// mirrors what repeated calls of `FrameBuffer::push_chunk` produce, clause
/// for clause.
pub proof fn lemma_reassembly_fragmentation_invariant(chunks: Seq<Seq<u8>>)
    ensures
        feed(Seq::empty(), chunks).0 == frames_of(chunks.flatten()),
        feed(Seq::empty(), chunks).1 == rest_of(chunks.flatten()),
{
    assert(first_delim(Seq::<u8>::empty()) == -1);
    lemma_feed_from_rest(Seq::empty(), chunks);
    assert(Seq::<u8>::empty() + chunks.flatten() =~= chunks.flatten());
}

} // verus!
