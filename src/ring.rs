//! A byte ring of fixed capacity shared by several producers and one consumer.
//! A producer claims space, copies its bytes into it and commits it; commits go in
//! the order of the claims, so each producer's bytes reach the consumer whole and
//! in order. One byte of capacity always stays unused, so that a full ring and an
//! empty one differ.
use vstd::prelude::*;

verus! {

/// Capacity of the ring shared with the consumer, in bytes.
pub const DEFAULT_CHANNEL_SIZE: usize = 4096;

/// `x` brought back into `[0, n)`, for `x < 2 * n`.
pub open spec fn wrap(x: int, n: int) -> int {
    if x >= n {
        x - n
    } else {
        x
    }
}

/// The `len` bytes of `buf` from position `start` on, going round past the end.
pub open spec fn ring_bytes(buf: Seq<u8>, start: int, len: int) -> Seq<u8> {
    Seq::new(len as nat, |i: int| buf[wrap(start + i, buf.len() as int)])
}

/// The ring's contents after an attempt to append `data` to `contents`, in a ring
/// of capacity `n`: `None` when `data` does not fit in the free space.
pub open spec fn after_write(contents: Seq<u8>, data: Seq<u8>, n: nat) -> Option<Seq<u8>> {
    if contents.len() + data.len() <= n - 1 {
        Some(contents + data)
    } else {
        None
    }
}

/// The contents after each write of `writes` in turn, `None` once one did not fit.
pub open spec fn after_writes(contents: Seq<u8>, writes: Seq<Seq<u8>>, n: nat) -> Option<Seq<u8>>
    decreases writes.len(),
{
    if writes.len() == 0 {
        Some(contents)
    } else {
        match after_writes(contents, writes.drop_last(), n) {
            Some(c) => after_write(c, writes.last(), n),
            None => None,
        }
    }
}

/// The byte strings of `parts`, one after another.
pub open spec fn concat(parts: Seq<Seq<u8>>) -> Seq<u8>
    decreases parts.len(),
{
    if parts.len() == 0 {
        Seq::empty()
    } else {
        concat(parts.drop_last()) + parts.last()
    }
}

/// Distance from position `a` forward to position `b` in a ring of `n` positions.
pub open spec fn dist(a: int, b: int, n: int) -> int {
    if b >= a {
        b - a
    } else {
        b + n - a
    }
}

/// Sum of `lens`.
pub open spec fn total(lens: Seq<nat>) -> nat
    decreases lens.len(),
{
    if lens.len() == 0 {
        0
    } else {
        total(lens.drop_last()) + lens.last()
    }
}

proof fn lemma_total_push(lens: Seq<nat>, x: nat)
    ensures
        total(lens.push(x)) == total(lens) + x,
{
    assert(lens.push(x).drop_last() =~= lens);
}

proof fn lemma_total_drop_first(lens: Seq<nat>)
    requires
        lens.len() > 0,
    ensures
        total(lens) == lens[0] + total(lens.drop_first()),
    decreases lens.len(),
{
    if lens.len() > 1 {
        lemma_total_drop_first(lens.drop_last());
        assert(lens.drop_last().drop_first() =~= lens.drop_first().drop_last());
    } else {
        assert(lens.drop_first() =~= Seq::<nat>::empty());
        assert(lens.drop_last() =~= Seq::<nat>::empty());
    }
}

/// The prefixes of `lens` grow by each length in turn, up to the total.
proof fn lemma_prefix(lens: Seq<nat>, j: int, k: int)
    requires
        0 <= j < k <= lens.len(),
    ensures
        total(lens.take(j)) + lens[j] <= total(lens.take(k)),
        total(lens.take(k)) <= total(lens),
    decreases lens.len(),
{
    if k == lens.len() {
        assert(lens.take(k) =~= lens);
        if j == k - 1 {
            assert(lens.take(j) =~= lens.drop_last());
        } else {
            lemma_prefix(lens.drop_last(), j, k - 1);
            assert(lens.drop_last().take(j) =~= lens.take(j));
            assert(lens.drop_last().take(k - 1) =~= lens.drop_last());
        }
    } else {
        lemma_prefix(lens.drop_last(), j, k);
        assert(lens.drop_last().take(j) =~= lens.take(j));
        assert(lens.drop_last().take(k) =~= lens.take(k));
    }
}

/// Space claimed in a ring by one producer, to be filled and then committed.
pub struct Reservation {
    start: usize,
    len: usize,
}

impl Reservation {
    /// Position of the claimed space in the ring.
    pub closed spec fn start(&self) -> int {
        self.start as int
    }

    /// Number of bytes claimed.
    pub closed spec fn len(&self) -> nat {
        self.len as nat
    }

    pub fn size(&self) -> (r: usize)
        ensures
            r == self.len(),
    {
        self.len
    }
}

/// A ring of `N` bytes with three cursors. From `read` to `commit` lie the bytes
/// that the consumer may take; from `commit` to `reserve` lies the space claimed by
/// producers and not yet committed, one reservation after another.
pub struct Channel<const N: usize> {
    read: usize,
    write_commit: usize,
    write_reserve: usize,
    buffer: Vec<u8>,
    claims: Ghost<Seq<nat>>,
}

/// The ring used between the collector and the consumer.
pub type DefaultChannel = Channel<4096>;

impl<const N: usize> Channel<N> {
    pub closed spec fn wf(&self) -> bool {
        &&& 0 < N <= usize::MAX / 2
        &&& self.buffer@.len() == N
        &&& self.read < N
        &&& self.write_commit < N
        &&& self.write_reserve < N
        &&& self.committed() + total(self.claims@) <= N - 1
        &&& self.write_reserve == wrap(self.write_commit + total(self.claims@), N as int)
        &&& forall|k: int| 0 <= k < self.claims@.len() ==> #[trigger] self.claims@[k] > 0
    }

    /// Number of committed bytes not yet read.
    pub closed spec fn committed(&self) -> int {
        dist(self.read as int, self.write_commit as int, N as int)
    }

    /// The committed bytes not yet read, oldest first.
    pub closed spec fn view(&self) -> Seq<u8> {
        ring_bytes(self.buffer@, self.read as int, self.committed())
    }

    /// Lengths of the reservations not yet committed, oldest first.
    pub closed spec fn claims(&self) -> Seq<nat> {
        self.claims@
    }

    /// Bytes from the read cursor to the reserve cursor.
    pub closed spec fn reserved_span(&self) -> int {
        dist(self.read as int, self.write_reserve as int, N as int)
    }

    /// Position of the `k`-th open reservation.
    pub closed spec fn claim_start(&self, k: int) -> int {
        wrap(self.write_commit + total(self.claims@.take(k)), N as int)
    }

    /// `r` is an open reservation of this ring.
    pub open spec fn holds(&self, r: Reservation) -> bool {
        exists|k: int|
            0 <= k < self.claims().len() && r.start() == self.claim_start(k) && r.len()
                == #[trigger] self.claims()[k]
    }

    /// `r` is the oldest open reservation: the next to commit.
    pub open spec fn is_oldest(&self, r: Reservation) -> bool {
        self.claims().len() > 0 && r.start() == self.claim_start(0) && r.len() == self.claims()[0]
    }

    /// The bytes that the space of `r` holds.
    pub closed spec fn region(&self, r: Reservation) -> Seq<u8> {
        ring_bytes(self.buffer@, r.start(), r.len() as int)
    }

    proof fn lemma_claim(&self, k: int)
        requires
            self.wf(),
            0 <= k < self.claims@.len(),
        ensures
            self.committed() + total(self.claims@.take(k)) + self.claims@[k] <= N - 1,
            total(self.claims@.take(k)) + self.claims@[k] <= total(self.claims@),
            0 <= self.claim_start(k) < N,
            forall|i: int|
                0 <= i < self.claims@[k] ==> #[trigger] wrap(self.claim_start(k) + i, N as int) == wrap(
                    self.read + self.committed() + total(self.claims@.take(k)) + i,
                    N as int,
                ),
    {
        lemma_prefix(self.claims@, k, self.claims@.len() as int);
        assert(self.claims@.take(self.claims@.len() as int) =~= self.claims@);
    }

    /// The ring always leaves one byte free: committed and claimed bytes together
    /// never fill it.
    pub proof fn law_slack(&self)
        requires
            self.wf(),
        ensures
            self.reserved_span() == self@.len() + total(self.claims()),
            self.reserved_span() <= N - 1,
    {
    }

    /// Commits go in reservation order: an open reservation starts at the commit
    /// cursor exactly when it is the oldest.
    pub proof fn law_commit_order(&self, r: Reservation)
        requires
            self.wf(),
            self.holds(r),
    ensures
            r.start() == self.claim_start(0) <==> self.is_oldest(r),
    {
        let k = choose|k: int|
            0 <= k < self.claims().len() && r.start() == self.claim_start(k) && r.len()
                == #[trigger] self.claims()[k];
        self.lemma_claim(k);
        assert(self.claims@.take(0) =~= Seq::<nat>::empty());
        if k > 0 {
            lemma_prefix(self.claims@, 0, k);
        }
    }

    /// An empty ring. `N` must be a power of two.
    pub fn new() -> (r: Channel<N>)
        requires
            0 < N <= usize::MAX / 2,
            N & ((N - 1) as usize) == 0,
        ensures
            r.wf(),
            r@.len() == 0,
            r.claims().len() == 0,
    {
        Channel {
            read: 0,
            write_commit: 0,
            write_reserve: 0,
            buffer: vec![0u8; N],
            claims: Ghost(Seq::empty()),
        }
    }

    /// Free space, in bytes: neither committed nor claimed.
    pub fn available(&self) -> (r: usize)
        requires
            self.wf(),
        ensures
            r == N - 1 - self@.len() - total(self.claims()),
    {
        if self.write_reserve < self.read {
            self.read - self.write_reserve - 1
        } else {
            N + self.read - self.write_reserve - 1
        }
    }

    /// Claims `len` bytes of free space for one producer; fails, changing nothing and
    /// returning the free space, when they are not there.
    pub fn reserve(&mut self, len: usize) -> (r: Result<Reservation, usize>)
        requires
            old(self).wf(),
        ensures
            final(self).wf(),
            final(self).reserved_span() <= N - 1,
            final(self)@ == old(self)@,
            r is Ok <==> len <= N - 1 - old(self)@.len() - total(old(self).claims()),
            r is Err ==> r->Err_0 == N - 1 - old(self)@.len() - total(old(self).claims())
                && final(self).claims() == old(self).claims(),
            r is Ok ==> r->Ok_0.len() == len,
            r is Ok && len > 0 ==> final(self).claims() == old(self).claims().push(len as nat)
                && final(self).holds(r->Ok_0) && !old(self).holds(r->Ok_0),
            r is Ok && len == 0 ==> final(self).claims() == old(self).claims(),
            forall|q: Reservation| #[trigger] old(self).holds(q) ==> final(self).holds(q)
                && final(self).region(q) == old(self).region(q),
    {
        let available = self.available();
        if available < len {
            return Err(available);
        }
        let start = self.write_reserve;
        if len == 0 {
            return Ok(Reservation { start, len });
        }
        let ghost before = self.claims@;
        self.write_reserve = if start + len >= N {
            start + len - N
        } else {
            start + len
        };
        self.claims = Ghost(self.claims@.push(len as nat));
        let r = Reservation { start, len };
        proof {
            lemma_total_push(before, len as nat);
            let n = before.len() as int;
            assert(self.claims@.take(n) =~= before);
            assert(self.claim_start(n) == start);
            assert(self.claims()[n] == len);
            assert forall|q: Reservation| #[trigger] old(self).holds(q) implies self.holds(q) by {
                let k = choose|k: int|
                    0 <= k < old(self).claims().len() && q.start() == old(self).claim_start(k) && q.len()
                        == #[trigger] old(self).claims()[k];
                assert(self.claims@.take(k) =~= before.take(k));
                assert(self.claims()[k] == before[k]);
            }
            if old(self).holds(r) {
                let k = choose|k: int|
                    0 <= k < old(self).claims().len() && r.start() == old(self).claim_start(k) && r.len()
                        == #[trigger] old(self).claims()[k];
                old(self).lemma_claim(k);
            }
        }
        Ok(r)
    }

    /// Copies `data` into the space of the open reservation `r`.
    pub fn fill(&mut self, r: &Reservation, data: &[u8])
        requires
            old(self).wf(),
            old(self).holds(*r),
            data@.len() == r.len(),
        ensures
            final(self).wf(),
            final(self)@ == old(self)@,
            final(self).claims() == old(self).claims(),
            final(self).region(*r) == data@,
            forall|q: Reservation| #[trigger] old(self).holds(q) ==> final(self).holds(q),
            forall|q: Reservation| #[trigger] old(self).holds(q) && q.start() != r.start() ==> final(self).region(q) == old(self).region(q),
    {
        let ghost k = choose|k: int|
            0 <= k < self.claims().len() && r.start() == self.claim_start(k) && r.len()
                == #[trigger] self.claims()[k];
        let ghost base = self.read + self.committed() + total(self.claims@.take(k));
        proof {
            self.lemma_claim(k);
        }
        let ghost before = self.buffer@;
        let start = r.start;
        let len = r.len;
        let mut i: usize = 0;
        while i < len
            invariant
                self.wf(),
                self.claims@ == old(self).claims@,
                self.read == old(self).read,
                self.write_commit == old(self).write_commit,
                self.buffer@.len() == N,
                start == r.start(),
                start < N,
                len == r.len(),
                len == data@.len(),
                i <= len,
                base == self.read + self.committed() + total(self.claims@.take(k)),
                self.committed() + total(self.claims@.take(k)) + len <= N - 1,
                forall|j: int| 0 <= j < len ==> #[trigger] wrap(start + j, N as int) == wrap(base + j, N as int),
                forall|j: int| 0 <= j < i ==> #[trigger] self.buffer@[wrap(start + j, N as int)] == data@[j],
                forall|x: int|
                    0 <= x < N && !(base - self.read <= x < base - self.read + i) ==> #[trigger] self.buffer@[wrap(
                        self.read + x,
                        N as int,
                    )] == before[wrap(self.read + x, N as int)],
            decreases len - i,
        {
            let pos = if start + i >= N {
                start + i - N
            } else {
                start + i
            };
            let ghost off = base - self.read + i;
            proof {
                assert(wrap(start + i, N as int) == wrap(base + i, N as int));
                assert(pos == wrap(self.read + off, N as int));
                assert forall|x: int| 0 <= x < N && x != off implies #[trigger] wrap(self.read + x, N as int) != pos by {}
            }
            self.buffer[pos] = data[i];
            i = i + 1;
        }
        proof {
            assert forall|q: Reservation| #[trigger] old(self).holds(q) implies self.holds(q) by {
                let k2 = choose|k2: int|
                    0 <= k2 < old(self).claims().len() && q.start() == old(self).claim_start(k2) && q.len()
                        == #[trigger] old(self).claims()[k2];
                assert(self.claim_start(k2) == old(self).claim_start(k2));
                assert(self.claims()[k2] == old(self).claims()[k2]);
            }
            assert(self.region(*r) =~= data@);
            assert(self@ =~= old(self)@) by {
                assert forall|j: int| 0 <= j < self.committed() implies #[trigger] self@[j] == old(self)@[j] by {
                    assert(self.buffer@[wrap(self.read + j, N as int)] == before[wrap(self.read + j, N as int)]);
                }
            }
            assert forall|q: Reservation| #[trigger] old(self).holds(q) && q.start() != r.start() implies self.region(q)
                == old(self).region(q) by {
                let k2 = choose|k2: int|
                    0 <= k2 < old(self).claims().len() && q.start() == old(self).claim_start(k2) && q.len()
                        == #[trigger] old(self).claims()[k2];
                old(self).lemma_claim(k2);
                assert(k2 != k);
                if k2 < k {
                    lemma_prefix(self.claims@, k2, k);
                } else {
                    lemma_prefix(self.claims@, k, k2);
                }
                let base2 = self.read + self.committed() + total(self.claims@.take(k2));
                assert forall|j: int| 0 <= j < q.len() implies #[trigger] self.region(q)[j] == old(self).region(q)[j] by {
                    assert(wrap(q.start() + j, N as int) == wrap(base2 + j, N as int));
                    let x = base2 - self.read + j;
                    assert(self.buffer@[wrap(self.read + x, N as int)] == before[wrap(self.read + x, N as int)]);
                }
                assert(self.region(q) =~= old(self).region(q));
            }
        }
    }

    /// Publishes the space of `r` to the consumer when `r` is the oldest open
    /// reservation; otherwise changes nothing and returns false, and the producer
    /// tries again once the older ones are committed.
    pub fn try_commit(&mut self, r: &Reservation) -> (ok: bool)
        requires
            old(self).wf(),
            old(self).holds(*r) || r.len() == 0,
        ensures
            final(self).wf(),
            r.len() == 0 ==> ok && final(self)@ == old(self)@ && final(self).claims() == old(self).claims(),
            r.len() > 0 ==> ok == old(self).is_oldest(*r),
            ok && r.len() > 0 ==> final(self)@ == old(self)@ + old(self).region(*r)
                && final(self).claims() == old(self).claims().drop_first(),
            !ok ==> final(self)@ == old(self)@ && final(self).claims() == old(self).claims(),
            forall|q: Reservation| #[trigger] old(self).holds(q) && (!ok || q.start() != r.start())
                ==> final(self).holds(q) && final(self).region(q) == old(self).region(q),
    {
        if r.len == 0 {
            return true;
        }
        proof {
            self.law_commit_order(*r);
            assert(self.claims@.take(0) =~= Seq::<nat>::empty());
        }
        if self.write_commit != r.start {
            return false;
        }
        let ghost claims = self.claims@;
        let ghost c0 = self.committed();
        proof {
            self.lemma_claim(0);
            lemma_total_drop_first(claims);
        }
        let len = r.len;
        let commit = self.write_commit;
        self.write_commit = if commit + len >= N {
            commit + len - N
        } else {
            commit + len
        };
        self.claims = Ghost(claims.drop_first());
        proof {
            assert(self.committed() == c0 + len);
            assert(self@ =~= old(self)@ + old(self).region(*r)) by {
                assert forall|j: int| c0 <= j < c0 + len implies #[trigger] self@[j] == (old(self)@ + old(self).region(*r))[j] by {
                    assert(wrap(r.start() + (j - c0), N as int) == wrap(self.read + j, N as int));
                }
            }
            assert forall|q: Reservation| #[trigger] old(self).holds(q) && q.start() != r.start() implies self.holds(q)
                && self.region(q) == old(self).region(q) by {
                let k = choose|k: int|
                    0 <= k < old(self).claims().len() && q.start() == old(self).claim_start(k) && q.len()
                        == #[trigger] old(self).claims()[k];
                assert(claims.take(0) =~= Seq::<nat>::empty());
                assert(k > 0);
                old(self).lemma_claim(k);
                lemma_prefix(claims, 0, k);
                let tail = claims.take(k).drop_first();
                assert(tail =~= self.claims@.take(k - 1));
                lemma_total_drop_first(claims.take(k));
                assert(self.claims()[k - 1] == claims[k]);
                assert(self.claim_start(k - 1) == old(self).claim_start(k));
            }
        }
        true
    }

    /// Appends `data` whole if it fits in the free space; otherwise changes nothing
    /// and returns the free space. With no reservation open, this is a reservation,
    /// its filling and its commit in one step.
    pub fn write(&mut self, data: &[u8]) -> (r: Result<(), usize>)
        requires
            old(self).wf(),
            old(self).claims().len() == 0,
        ensures
            final(self).wf(),
            final(self).claims().len() == 0,
            final(self).reserved_span() <= N - 1,
            r is Ok <==> after_write(old(self)@, data@, N as nat) is Some,
            r is Ok ==> final(self)@ == after_write(old(self)@, data@, N as nat)->0,
            r is Err ==> r->Err_0 == N - 1 - old(self)@.len() && final(self)@ == old(self)@,
    {
        proof {
            assert(total(self.claims@) == 0);
        }
        let reservation = match self.reserve(data.len()) {
            Ok(r) => r,
            Err(available) => return Err(available),
        };
        if data.len() == 0 {
            assert(old(self)@ + data@ =~= old(self)@);
            return Ok(());
        }
        self.fill(&reservation, data);
        proof {
            assert(self.claims@.take(0) =~= Seq::<nat>::empty());
        }
        proof {
            assert(self.holds(reservation));
            assert(self.is_oldest(reservation));
        }
        let committed = self.try_commit(&reservation);
        assert(committed);
        Ok(())
    }

    /// Moves the oldest committed bytes into the front of `buffer`, as many as fit
    /// and as are there; returns how many.
    pub fn read(&mut self, buffer: &mut [u8]) -> (r: usize)
        requires
            old(self).wf(),
        ensures
            final(self).wf(),
            r == if old(buffer)@.len() < old(self)@.len() { old(buffer)@.len() } else { old(self)@.len() },
            final(buffer)@.len() == old(buffer)@.len(),
            final(buffer)@.take(r as int) == old(self)@.take(r as int),
            final(buffer)@.skip(r as int) == old(buffer)@.skip(r as int),
            final(self)@ == old(self)@.skip(r as int),
            final(self).claims() == old(self).claims(),
            forall|q: Reservation| #[trigger] old(self).holds(q) ==> final(self).holds(q)
                && final(self).region(q) == old(self).region(q),
    {
        let ghost before = self@;
        let ghost pending = self.committed();
        let pending_len: usize = if self.write_commit >= self.read {
            self.write_commit - self.read
        } else {
            self.write_commit + N - self.read
        };
        let len: usize = if buffer.len() < pending_len {
            buffer.len()
        } else {
            pending_len
        };
        let start = self.read;
        let mut i: usize = 0;
        while i < len
            invariant
                self.wf(),
                self.buffer@.len() == N,
                start == self.read,
                self.read < N,
                len <= pending_len,
                pending_len == pending,
                pending == before.len(),
                pending <= N - 1,
                len <= buffer@.len(),
                i <= len,
                before == ring_bytes(self.buffer@, self.read as int, pending),
                buffer@.len() == old(buffer)@.len(),
                forall|j: int| 0 <= j < i ==> buffer@[j] == before[j],
                forall|j: int| len <= j < buffer@.len() ==> buffer@[j] == old(buffer)@[j],
            decreases len - i,
        {
            let pos = if start + i >= N {
                start + i - N
            } else {
                start + i
            };
            buffer[i] = self.buffer[pos];
            i = i + 1;
        }
        self.read = if start + len >= N {
            start + len - N
        } else {
            start + len
        };
        assert(buffer@.take(len as int) =~= before.take(len as int));
        assert(buffer@.skip(len as int) =~= old(buffer)@.skip(len as int));
        assert(self@ =~= before.skip(len as int));
        len
    }
}

/// Writes append whole, in call order: after the writes of `writes`, each of which
/// fitted, the ring holds what it held and then the bytes of each write in turn.
pub proof fn law_writes_in_order(contents: Seq<u8>, writes: Seq<Seq<u8>>, n: nat)
    requires
        after_writes(contents, writes, n) is Some,
    ensures
        after_writes(contents, writes, n)->0 == contents + concat(writes),
    decreases writes.len(),
{
    if writes.len() == 0 {
        assert(contents + Seq::<u8>::empty() =~= contents);
    } else {
        law_writes_in_order(contents, writes.drop_last(), n);
        assert(contents + concat(writes.drop_last()) + writes.last() =~= contents + concat(writes));
    }
}

} // verus!
