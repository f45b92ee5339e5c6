use vstd::prelude::*;
use crate::wire::{be_nat, read_u32, append_range};

verus! {

/// Largest frame a peer may announce: 256 MiB.
pub const MAX_FRAME_SIZE: u32 = 268435456;

/// The complete frames in a stream of `u32 length | bytes` frames. A header that
/// announces no bytes, or more than 256 MiB, is dropped and reading goes on right
/// after it.
pub open spec fn frames(s: Seq<u8>) -> Seq<Seq<u8>>
    decreases s.len(),
{
    if s.len() < 4 {
        Seq::empty()
    } else {
        let n: int = be_nat(s.take(4)) as int;
        if n == 0 || n > MAX_FRAME_SIZE {
            frames(s.skip(4))
        } else if s.len() < 4 + n {
            Seq::empty()
        } else {
            seq![s.subrange(4, 4 + n)] + frames(s.skip(4 + n))
        }
    }
}

/// What is left of a stream once its complete frames are taken out: an incomplete
/// header, or a header and part of its frame.
pub open spec fn pending(s: Seq<u8>) -> Seq<u8>
    decreases s.len(),
{
    if s.len() < 4 {
        s
    } else {
        let n: int = be_nat(s.take(4)) as int;
        if n == 0 || n > MAX_FRAME_SIZE {
            pending(s.skip(4))
        } else if s.len() < 4 + n {
            s
        } else {
            pending(s.skip(4 + n))
        }
    }
}

/// Cutting a stream in two changes nothing: the frames of the whole are those of the
/// first part followed by those of its remainder joined to the second part.
pub proof fn lemma_frames_split(a: Seq<u8>, b: Seq<u8>)
    ensures
        frames(a + b) == frames(a) + frames(pending(a) + b),
        pending(a + b) == pending(pending(a) + b),
    decreases a.len(),
{
    if a.len() >= 4 {
        let s = a + b;
        assert(s.take(4) =~= a.take(4));
        let n: int = be_nat(a.take(4)) as int;
        if n == 0 || n > MAX_FRAME_SIZE {
            assert(s.skip(4) =~= a.skip(4) + b);
            lemma_frames_split(a.skip(4), b);
        } else if a.len() >= 4 + n {
            assert(s.skip(4 + n) =~= a.skip(4 + n) + b);
            assert(s.subrange(4, 4 + n) =~= a.subrange(4, 4 + n));
            lemma_frames_split(a.skip(4 + n), b);
            assert(frames(a + b) =~= frames(a) + frames(pending(a) + b));
        } else {
            assert(frames(a) =~= Seq::<Seq<u8>>::empty());
            assert(frames(a + b) =~= frames(a) + frames(pending(a) + b));
        }
    } else {
        assert(frames(a) =~= Seq::<Seq<u8>>::empty());
        assert(frames(a + b) =~= frames(a) + frames(pending(a) + b));
    }
}

/// A header that announces more than 256 MiB is dropped: the frames after it are read
/// as if it were not there.
pub proof fn lemma_oversized_frame_skipped(header: Seq<u8>, rest: Seq<u8>)
    requires
        header.len() == 4,
        be_nat(header) > MAX_FRAME_SIZE,
    ensures
        frames(header + rest) == frames(rest),
        pending(header + rest) == pending(rest),
{
    let s = header + rest;
    assert(s.take(4) =~= header);
    assert(s.skip(4) =~= rest);
}

/// The concatenation of a sequence of chunks.
pub open spec fn concat(chunks: Seq<Seq<u8>>) -> Seq<u8>
    decreases chunks.len(),
{
    if chunks.len() == 0 {
        Seq::empty()
    } else {
        concat(chunks.drop_last()) + chunks.last()
    }
}

/// What a fresh framer holds after being fed `chunks` one by one.
pub open spec fn held_after(chunks: Seq<Seq<u8>>) -> Seq<u8>
    decreases chunks.len(),
{
    if chunks.len() == 0 {
        Seq::empty()
    } else {
        pending(held_after(chunks.drop_last()) + chunks.last())
    }
}

/// The frames a fresh framer hands out while being fed `chunks` one by one.
pub open spec fn delivered_after(chunks: Seq<Seq<u8>>) -> Seq<Seq<u8>>
    decreases chunks.len(),
{
    if chunks.len() == 0 {
        Seq::empty()
    } else {
        delivered_after(chunks.drop_last()) + frames(held_after(chunks.drop_last()) + chunks.last())
    }
}

/// However a stream is cut into chunks, feeding them one by one to a fresh framer
/// hands out exactly the complete frames of the whole stream, in order.
pub proof fn lemma_any_split_same_frames(chunks: Seq<Seq<u8>>)
    ensures
        delivered_after(chunks) == frames(concat(chunks)),
        held_after(chunks) == pending(concat(chunks)),
    decreases chunks.len(),
{
    if chunks.len() == 0 {
        assert(frames(Seq::<u8>::empty()) =~= Seq::<Seq<u8>>::empty());
    } else {
        let init = chunks.drop_last();
        lemma_any_split_same_frames(init);
        lemma_frames_split(concat(init), chunks.last());
    }
}

/// Splits a byte stream into frames, keeping what is incomplete until more comes.
pub struct Framer {
    header: Vec<u8>,
    expected: u32,
    buffer: Vec<u8>,
}

impl View for Framer {
    type V = Seq<u8>;

    /// The bytes held back: a partial header, or a header and part of its frame.
    closed spec fn view(&self) -> Seq<u8> {
        self.header@ + self.buffer@
    }
}

impl Framer {
    pub closed spec fn wf(&self) -> bool {
        if self.expected == 0 {
            self.header@.len() < 4 && self.buffer@.len() == 0
        } else {
            &&& self.header@.len() == 4
            &&& be_nat(self.header@) == self.expected as nat
            &&& self.expected <= MAX_FRAME_SIZE
            &&& self.buffer@.len() < self.expected
        }
    }

    proof fn lemma_held_is_pending(&self)
        requires
            self.wf(),
        ensures
            frames(self@) == Seq::<Seq<u8>>::empty(),
            pending(self@) == self@,
    {
        if self.expected != 0 {
            assert(self@.take(4) =~= self.header@);
        }
    }

    pub fn new() -> (r: Framer)
        ensures
            r.wf(),
            r@ == Seq::<u8>::empty(),
    {
        let r = Framer { header: Vec::new(), expected: 0, buffer: Vec::new() };
        assert(r@ =~= Seq::<u8>::empty());
        r
    }

    /// The part of a frame received so far, after its length header; empty between
    /// frames.
    pub fn held_body(&self) -> (r: &[u8])
        requires
            self.wf(),
        ensures
            self@.len() >= 4 ==> r@ == self@.skip(4),
            self@.len() < 4 ==> r@.len() == 0,
    {
        proof {
            if self.expected != 0 {
                assert(self@.skip(4) =~= self.buffer@);
            }
        }
        self.buffer.as_slice()
    }

    /// Drops whatever is held, header and partial frame alike.
    pub fn clear(&mut self)
        ensures
            final(self).wf(),
            final(self)@ == Seq::<u8>::empty(),
    {
        self.header.clear();
        self.buffer.clear();
        self.expected = 0;
        assert(self@ =~= Seq::<u8>::empty());
    }

    /// The frame size that the last complete header announced, while its frame is
    /// incomplete; 0 between frames.
    pub closed spec fn announced(&self) -> u32 {
        self.expected
    }

    pub fn expected_size(&self) -> (r: u32)
        ensures
            r == self.announced(),
    {
        self.expected
    }

    /// Feeds the next chunk of the stream; hands out the frames it completes.
    pub fn feed(&mut self, chunk: &[u8]) -> (r: Vec<Vec<u8>>)
        requires
            old(self).wf(),
        ensures
            final(self).wf(),
            r@.map_values(|f: Vec<u8>| f@) == frames(old(self)@ + chunk@),
            final(self)@ == pending(old(self)@ + chunk@),
    {
        let ghost total = self@ + chunk@;
        let mut out: Vec<Vec<u8>> = Vec::new();
        let mut i: usize = 0;
        proof {
            self.lemma_held_is_pending();
            lemma_frames_split(self@, chunk@);
            assert(chunk@.skip(0) =~= chunk@);
            assert(out@.map_values(|f: Vec<u8>| f@) =~= Seq::<Seq<u8>>::empty());
        }
        while i < chunk.len()
            invariant
                self.wf(),
                i <= chunk@.len(),
                frames(total) == out@.map_values(|f: Vec<u8>| f@) + frames(self@ + chunk@.skip(i as int)),
                pending(total) == pending(self@ + chunk@.skip(i as int)),
            decreases chunk@.len() - i,
        {
            let ghost before = self@ + chunk@.skip(i as int);
            let ghost delivered = out@.map_values(|f: Vec<u8>| f@);
            if self.expected == 0 {
                self.header.push(chunk[i]);
                i = i + 1;
                assert(self@ + chunk@.skip(i as int) =~= before);
                if self.header.len() == 4 {
                    let n = read_u32(self.header.as_slice(), 0);
                    proof {
                        assert(self.header@.subrange(0, 4) =~= self.header@);
                        let s = self@ + chunk@.skip(i as int);
                        assert(s.take(4) =~= self.header@);
                        assert(s.skip(4) =~= chunk@.skip(i as int));
                    }
                    if n == 0 || n > MAX_FRAME_SIZE {
                        self.header.clear();
                        assert(self@ + chunk@.skip(i as int) =~= chunk@.skip(i as int));
                    } else {
                        self.expected = n;
                    }
                }
            } else {
                let want = (self.expected as usize) - self.buffer.len();
                let avail = chunk.len() - i;
                let take = if want < avail { want } else { avail };
                append_range(&mut self.buffer, chunk, i, i + take);
                i = i + take;
                assert(self@ + chunk@.skip(i as int) =~= before);
                if self.buffer.len() == self.expected as usize {
                    let mut frame: Vec<u8> = Vec::new();
                    std::mem::swap(&mut frame, &mut self.buffer);
                    proof {
                        let s = self.header@ + frame@ + chunk@.skip(i as int);
                        let n = self.expected as int;
                        assert(s.take(4) =~= self.header@);
                        assert(s.subrange(4, 4 + n) =~= frame@);
                        assert(s.skip(4 + n) =~= chunk@.skip(i as int));
                    }
                    out.push(frame);
                    self.header.clear();
                    self.expected = 0;
                    proof {
                        assert(self@ + chunk@.skip(i as int) =~= chunk@.skip(i as int));
                        assert(out@.map_values(|f: Vec<u8>| f@) =~= delivered.push(frame@));
                        assert(delivered.push(frame@) + frames(chunk@.skip(i as int))
                            =~= delivered + (seq![frame@] + frames(chunk@.skip(i as int))));
                    }
                }
            }
        }
        proof {
            assert(chunk@.skip(i as int) =~= Seq::<u8>::empty());
            assert(self@ + Seq::<u8>::empty() =~= self@);
            self.lemma_held_is_pending();
            assert(out@.map_values(|f: Vec<u8>| f@) + Seq::<Seq<u8>>::empty() =~= out@.map_values(|f: Vec<u8>| f@));
        }
        out
    }
}

} // verus!
