//! Reassembly of self-delimited frames: each frame ends with a `0x00` byte, and the
//! consumer may receive the byte stream in pieces of any size.
use vstd::prelude::*;
use crate::ring::Channel;

verus! {

/// The byte that ends every frame.
pub const FRAME_TERMINATOR: u8 = 0;

/// Position of the first terminator in `s`, or `s.len()` if there is none.
pub open spec fn first_terminator(s: Seq<u8>) -> int
    decreases s.len(),
{
    if s.len() == 0 {
        0
    } else if s[0] == FRAME_TERMINATOR {
        0
    } else {
        1 + first_terminator(s.drop_first())
    }
}

/// The complete frames of `s`, in order, each with its terminator.
pub open spec fn frames(s: Seq<u8>) -> Seq<Seq<u8>>
    decreases s.len(),
{
    let k = first_terminator(s);
    if 0 <= k < s.len() {
        seq![s.take(k + 1)] + frames(s.skip(k + 1))
    } else {
        Seq::empty()
    }
}

/// `s` holds no terminator.
pub open spec fn unterminated(s: Seq<u8>) -> bool {
    forall|i: int| 0 <= i < s.len() ==> s[i] != FRAME_TERMINATOR
}

proof fn lemma_first_terminator(s: Seq<u8>)
    ensures
        0 <= first_terminator(s) <= s.len(),
        forall|j: int| 0 <= j < first_terminator(s) ==> s[j] != FRAME_TERMINATOR,
        first_terminator(s) < s.len() ==> s[first_terminator(s)] == FRAME_TERMINATOR,
    decreases s.len(),
{
    if s.len() > 0 && s[0] != FRAME_TERMINATOR {
        lemma_first_terminator(s.drop_first());
        assert forall|j: int| 0 <= j < first_terminator(s) implies s[j] != FRAME_TERMINATOR by {
            if j > 0 {
                assert(s[j] == s.drop_first()[j - 1]);
            }
        }
    }
}

proof fn lemma_first_terminator_at(s: Seq<u8>, k: int)
    requires
        0 <= k < s.len(),
        s[k] == FRAME_TERMINATOR,
        forall|j: int| 0 <= j < k ==> s[j] != FRAME_TERMINATOR,
    ensures
        first_terminator(s) == k,
    decreases s.len(),
{
    if k > 0 {
        lemma_first_terminator_at(s.drop_first(), k - 1);
    }
}

proof fn lemma_no_terminator(s: Seq<u8>)
    requires
        unterminated(s),
    ensures
        first_terminator(s) == s.len(),
    decreases s.len(),
{
    if s.len() > 0 {
        lemma_no_terminator(s.drop_first());
    }
}

/// Frames of a stream that ends with a terminator are not disturbed by what follows.
proof fn lemma_frames_append(a: Seq<u8>, b: Seq<u8>)
    requires
        a.len() > 0,
        a.last() == FRAME_TERMINATOR,
    ensures
        frames(a + b) == frames(a) + frames(b),
    decreases a.len(),
{
    let k = first_terminator(a);
    lemma_first_terminator(a);
    assert(k < a.len());
    lemma_first_terminator(a + b);
    assert forall|j: int| 0 <= j < k implies (a + b)[j] != FRAME_TERMINATOR by {
        assert((a + b)[j] == a[j]);
    }
    lemma_first_terminator_at(a + b, k as int);
    assert((a + b).take(k + 1) =~= a.take(k + 1));
    let rest = a.skip(k + 1);
    assert((a + b).skip(k + 1) =~= rest + b);
    if rest.len() == 0 {
        assert(rest + b =~= b);
        assert(frames(rest) =~= Seq::<Seq<u8>>::empty()) by {
            lemma_first_terminator(rest);
        }
        assert(frames(a) =~= seq![a.take(k + 1)]);
        assert(frames(a + b) =~= frames(a) + frames(b));
    } else {
        assert(rest.last() == a.last());
        lemma_frames_append(rest, b);
        assert(frames(a + b) =~= frames(a) + frames(b));
    }
}

/// Resynchronisation: whatever bytes precede a terminator, the frame that follows
/// it is recovered whole.
pub proof fn law_resync(garbage: Seq<u8>, frame_body: Seq<u8>)
    requires
        unterminated(frame_body),
    ensures
        frames(garbage.push(FRAME_TERMINATOR) + frame_body.push(FRAME_TERMINATOR)).last()
            == frame_body.push(FRAME_TERMINATOR),
{
    let g = garbage.push(FRAME_TERMINATOR);
    let f = frame_body.push(FRAME_TERMINATOR);
    lemma_frames_append(g, f);
    lemma_first_terminator_at(f, frame_body.len() as int);
    assert(f.take(frame_body.len() as int + 1) =~= f);
    assert(f.skip(frame_body.len() as int + 1) =~= Seq::<u8>::empty());
    assert(frames(Seq::<u8>::empty()) =~= Seq::<Seq<u8>>::empty());
    assert(frames(f) =~= seq![f]);
}

/// Collects received bytes and hands out the complete frames among them.
pub struct FrameAssembler {
    pending: Vec<u8>,
}

impl FrameAssembler {
    /// The bytes received and not yet handed out in a frame.
    pub closed spec fn view(&self) -> Seq<u8> {
        self.pending@
    }

    pub fn new() -> (r: FrameAssembler)
        ensures
            r@ == Seq::<u8>::empty(),
    {
        FrameAssembler { pending: Vec::new() }
    }

    /// Appends received bytes.
    pub fn push(&mut self, bytes: &[u8])
        ensures
            final(self)@ == old(self)@ + bytes@,
    {
        let mut i: usize = 0;
        while i < bytes.len()
            invariant
                i <= bytes@.len(),
                self@ == old(self)@ + bytes@.take(i as int),
            decreases bytes@.len() - i,
        {
            self.pending.push(bytes[i]);
            i = i + 1;
            assert(self@ =~= old(self)@ + bytes@.take(i as int));
        }
        assert(bytes@.take(bytes@.len() as int) =~= bytes@);
    }

    /// Takes the oldest complete frame, terminator included, if there is one.
    pub fn next_frame(&mut self) -> (r: Option<Vec<u8>>)
        ensures
            frames(old(self)@).len() == 0 ==> r is None && final(self)@ == old(self)@,
            frames(old(self)@).len() > 0 ==> r is Some && r->0@ == frames(old(self)@)[0]
                && frames(final(self)@) == frames(old(self)@).drop_first(),
    {
        let ghost s = self@;
        proof {
            lemma_first_terminator(s);
        }
        let mut k: usize = 0;
        while k < self.pending.len() && self.pending[k] != FRAME_TERMINATOR
            invariant
                self@ == s,
                k <= first_terminator(s),
                0 <= first_terminator(s) <= s.len(),
                forall|j: int| 0 <= j < first_terminator(s) ==> s[j] != FRAME_TERMINATOR,
                first_terminator(s) < s.len() ==> s[first_terminator(s)] == FRAME_TERMINATOR,
            decreases s.len() - k,
        {
            k = k + 1;
        }
        if k == self.pending.len() {
            return None;
        }
        assert(k == first_terminator(s));
        let mut frame: Vec<u8> = Vec::new();
        let mut rest: Vec<u8> = Vec::new();
        let mut i: usize = 0;
        while i < self.pending.len()
            invariant
                self@ == s,
                k < s.len(),
                i <= s.len(),
                i <= k + 1 ==> frame@ == s.take(i as int) && rest@.len() == 0,
                i > k + 1 ==> frame@ == s.take(k + 1) && rest@ == s.subrange(k + 1, i as int),
            decreases s.len() - i,
        {
            if i <= k {
                frame.push(self.pending[i]);
            } else {
                rest.push(self.pending[i]);
            }
            i = i + 1;
            assert(frame@ =~= if i <= k + 1 { s.take(i as int) } else { s.take(k + 1) });
            assert(i > k + 1 ==> rest@ =~= s.subrange(k + 1, i as int));
        }
        assert(s.skip(k + 1) =~= rest@);
        assert(frame@ =~= s.take(k + 1));
        self.pending = rest;
        Some(frame)
    }

    /// Moves what `channel` holds, at most `chunk` bytes of it, into the pending
    /// bytes, then takes the oldest complete frame.
    pub fn receive<const N: usize>(&mut self, channel: &mut Channel<N>, chunk: usize) -> (r: Option<Vec<u8>>)
        requires
            old(channel).wf(),
        ensures
            final(channel).wf(),
            ({
                let n = if chunk < old(channel)@.len() { chunk as int } else { old(channel)@.len() as int };
                let all = old(self)@ + old(channel)@.take(n);
                &&& final(channel)@ == old(channel)@.skip(n)
                &&& frames(all).len() == 0 ==> r is None && final(self)@ == all
                &&& frames(all).len() > 0 ==> r is Some && r->0@ == frames(all)[0]
                    && frames(final(self)@) == frames(all).drop_first()
            }),
    {
        let mut buffer = vec![0u8; chunk];
        let n = channel.read(buffer.as_mut_slice());
        let got = buffer.as_slice();
        let ghost taken = got@.take(n as int);
        let mut i: usize = 0;
        while i < n
            invariant
                n <= got@.len(),
                i <= n,
                self@ == old(self)@ + taken.take(i as int),
                taken == got@.take(n as int),
            decreases n - i,
        {
            self.pending.push(got[i]);
            i = i + 1;
            assert(self@ =~= old(self)@ + taken.take(i as int));
        }
        assert(taken.take(n as int) =~= taken);
        self.next_frame()
    }
}

} // verus!
