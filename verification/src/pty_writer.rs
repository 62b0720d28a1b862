//! The queues of bytes waiting to be written to the terminals' stdin.
//!
//! Writes go through a thread of their own, as some programs deadlock when
//! their stdin is written while their stdout is read. A write that the
//! terminal does not take at once waits in its terminal's queue and is
//! retried; a terminal whose queue would grow past `MAX_PENDING_BYTES` has
//! its queue dropped. Which instruction comes next and the writes themselves
//! are the caller's: this module decides what is queued, what is written
//! next and what a write's outcome does to the queue.

use vstd::prelude::*;

verus! {

/// The most bytes a terminal may have waiting before its queue is dropped.
pub const MAX_PENDING_BYTES: usize = 10485760;

/// An instruction for the pty writer thread. `C` is the completion token a
/// write carries; it is dropped once the write is done or abandoned.
pub enum PtyWriteInstruction<C> {
    Write(Vec<u8>, u32, Option<C>),
    ResizePty(u32, u16, u16, Option<u16>, Option<u16>),
    StartCachingResizes,
    ApplyCachedResizes,
    Exit,
}

/// The kind of an instruction, for error context.
#[derive(Debug, Clone, Copy, PartialEq, Eq, Structural)]
pub enum PtyWriteContext {
    Write,
    ResizePty,
    StartCachingResizes,
    ApplyCachedResizes,
    Exit,
}

impl PtyWriteContext {
    pub fn from_instruction<C>(instruction: &PtyWriteInstruction<C>) -> (c: PtyWriteContext)
        ensures
            c == match instruction {
                PtyWriteInstruction::Write(..) => PtyWriteContext::Write,
                PtyWriteInstruction::ResizePty(..) => PtyWriteContext::ResizePty,
                PtyWriteInstruction::StartCachingResizes => PtyWriteContext::StartCachingResizes,
                PtyWriteInstruction::ApplyCachedResizes => PtyWriteContext::ApplyCachedResizes,
                PtyWriteInstruction::Exit => PtyWriteContext::Exit,
            },
    {
        match instruction {
            PtyWriteInstruction::Write(..) => PtyWriteContext::Write,
            PtyWriteInstruction::ResizePty(..) => PtyWriteContext::ResizePty,
            PtyWriteInstruction::StartCachingResizes => PtyWriteContext::StartCachingResizes,
            PtyWriteInstruction::ApplyCachedResizes => PtyWriteContext::ApplyCachedResizes,
            PtyWriteInstruction::Exit => PtyWriteContext::Exit,
        }
    }
}

/// A chunk of bytes waiting to be written; `offset` bytes of it are written.
pub struct PendingWrite<C> {
    pub bytes: Vec<u8>,
    pub offset: usize,
    pub completion: Option<C>,
}

/// The bytes of a chunk that are still to be written.
pub open spec fn remaining<C>(w: PendingWrite<C>) -> Seq<u8> {
    if w.offset <= w.bytes@.len() {
        w.bytes@.skip(w.offset as int)
    } else {
        Seq::empty()
    }
}

/// The bytes a queue still has to write, in order.
pub open spec fn stream<C>(q: Seq<PendingWrite<C>>) -> Seq<u8>
    decreases q.len(),
{
    if q.len() == 0 {
        Seq::empty()
    } else {
        remaining(q[0]) + stream(q.drop_first())
    }
}

/// How many bytes a queue still has to write.
pub open spec fn queued<C>(q: Seq<PendingWrite<C>>) -> int {
    stream(q).len() as int
}

/// The outcome of writing to a terminal.
#[derive(Debug, Clone, Copy, PartialEq, Eq, Structural)]
pub enum WriteOutcome {
    /// The terminal took this many bytes (0: it takes none for now).
    Written(usize),
    /// The terminal failed (it is gone or broken).
    Failed,
}

/// A queue after the outcome of writing its front chunk: the bytes the
/// terminal took are marked written (the offset saturates), a chunk written
/// to its end leaves the queue, and a failed terminal loses its queue.
pub open spec fn after_write<C>(q: Seq<PendingWrite<C>>, outcome: WriteOutcome) -> Seq<PendingWrite<C>> {
    match outcome {
        WriteOutcome::Written(n) => if n == 0 {
            q
        } else {
            let front = q[0];
            let off = if front.offset + n > usize::MAX {
                usize::MAX as int
            } else {
                front.offset + n
            };
            if off >= front.bytes@.len() {
                q.drop_first()
            } else {
                q.update(0, PendingWrite { offset: off as usize, ..front })
            }
        },
        WriteOutcome::Failed => Seq::empty(),
    }
}

/// The write queues of all terminals.
pub struct PendingWrites<C> {
    pub queues: Vec<(u32, Vec<PendingWrite<C>>)>,
    /// For each terminal, the bytes it took since its queue was last
    /// dropped, in the order it took them.
    pub written_log: Ghost<Map<u32, Seq<u8>>>,
    /// For each terminal, the bytes queued for it since its queue was last
    /// dropped, in the order they were queued.
    pub queued_log: Ghost<Map<u32, Seq<u8>>>,
}

/// A terminal's entry in a log (empty when it has none).
pub open spec fn log_of(m: Map<u32, Seq<u8>>, t: u32) -> Seq<u8> {
    if m.dom().contains(t) {
        m[t]
    } else {
        Seq::empty()
    }
}

pub open spec fn queue_view<C>(qs: Seq<(u32, Vec<PendingWrite<C>>)>, tid: u32) -> Seq<PendingWrite<C>> {
    if exists|i: int| 0 <= i < qs.len() && qs[i].0 == tid {
        qs[choose|i: int| 0 <= i < qs.len() && qs[i].0 == tid].1@
    } else {
        Seq::empty()
    }
}

/// How many chunks at the front of a queue are fully written.
pub open spec fn leading_done<C>(q: Seq<PendingWrite<C>>) -> int
    decreases q.len(),
{
    if q.len() > 0 && remaining(q[0]).len() == 0 {
        1 + leading_done(q.drop_first())
    } else {
        0
    }
}

proof fn lemma_stream_push<C>(q: Seq<PendingWrite<C>>, w: PendingWrite<C>)
    ensures
        stream(q.push(w)) == stream(q) + remaining(w),
    decreases q.len(),
{
    if q.len() == 0 {
        assert(q.push(w).drop_first() =~= Seq::<PendingWrite<C>>::empty());
        assert(stream(q.push(w)) =~= remaining(w) + stream(Seq::<PendingWrite<C>>::empty()));
    } else {
        lemma_stream_push(q.drop_first(), w);
        assert(q.push(w).drop_first() =~= q.drop_first().push(w));
        assert(stream(q.push(w)) =~= stream(q) + remaining(w));
    }
}

proof fn lemma_stream_take<C>(q: Seq<PendingWrite<C>>, k: int)
    requires
        0 <= k < q.len(),
    ensures
        stream(q.take(k + 1)) == stream(q.take(k)) + remaining(q[k]),
{
    assert(q.take(k + 1) =~= q.take(k).push(q[k]));
    lemma_stream_push(q.take(k), q[k]);
}

proof fn lemma_stream_prefix_len<C>(q: Seq<PendingWrite<C>>, k: int)
    requires
        0 <= k <= q.len(),
    ensures
        stream(q.take(k)).len() <= stream(q).len(),
    decreases q.len() - k,
{
    if k < q.len() {
        lemma_stream_take(q, k);
        lemma_stream_prefix_len(q, k + 1);
    } else {
        assert(q.take(k) =~= q);
    }
}

proof fn lemma_stream_skip_done<C>(q: Seq<PendingWrite<C>>, k: int)
    requires
        0 <= k <= leading_done(q),
    ensures
        stream(q.skip(k)) == stream(q),
        k <= q.len(),
    decreases k,
{
    if k > 0 {
        lemma_stream_skip_done(q.drop_first(), k - 1);
        assert(q.skip(k) =~= q.drop_first().skip(k - 1));
        assert(remaining(q[0]) =~= Seq::<u8>::empty());
        assert(stream(q) =~= stream(q.drop_first()));
    } else {
        assert(q.skip(0) =~= q);
    }
}

proof fn lemma_leading_done_bound<C>(q: Seq<PendingWrite<C>>)
    ensures
        0 <= leading_done(q) <= q.len(),
        leading_done(q) < q.len() ==> remaining(q[leading_done(q)]).len() > 0,
        forall|j: int| 0 <= j < leading_done(q) ==> remaining(#[trigger] q[j]).len() == 0,
    decreases q.len(),
{
    if q.len() > 0 && remaining(q[0]).len() == 0 {
        lemma_leading_done_bound(q.drop_first());
        assert forall|j: int| 0 <= j < leading_done(q) implies remaining(#[trigger] q[j]).len() == 0 by {
            if j > 0 {
                assert(q[j] == q.drop_first()[j - 1]);
            }
        }
        if leading_done(q) < q.len() {
            assert(q[leading_done(q)] == q.drop_first()[leading_done(q.drop_first())]);
        }
    }
}

proof fn lemma_queue_view_update<C>(qs: Seq<(u32, Vec<PendingWrite<C>>)>, i: int, nq: Vec<PendingWrite<C>>)
    requires
        0 <= i < qs.len(),
        forall|a: int, b: int| 0 <= a < b < qs.len() ==> qs[a].0 != qs[b].0,
    ensures
        forall|t: u32| #[trigger] queue_view(qs.update(i, (qs[i].0, nq)), t) == if t == qs[i].0 {
            nq@
        } else {
            queue_view(qs, t)
        },
{
    let qs2 = qs.update(i, (qs[i].0, nq));
    assert forall|t: u32| #[trigger] queue_view(qs2, t) == if t == qs[i].0 {
        nq@
    } else {
        queue_view(qs, t)
    } by {
        if t == qs[i].0 {
            assert(qs2[i].0 == t);
            let c = choose|c: int| 0 <= c < qs2.len() && qs2[c].0 == t;
            assert(c == i) by {
                if c < i {
                    assert(qs[c].0 != qs[i].0);
                } else if c > i {
                    assert(qs[i].0 != qs[c].0);
                }
            }
        } else {
            if exists|c: int| 0 <= c < qs.len() && qs[c].0 == t {
                let c = choose|c: int| 0 <= c < qs.len() && qs[c].0 == t;
                assert(qs2[c].0 == t);
                let c2 = choose|c2: int| 0 <= c2 < qs2.len() && qs2[c2].0 == t;
                assert(c2 == c) by {
                    if c2 < c {
                        assert(qs[c2].0 != qs[c].0);
                    } else if c2 > c {
                        assert(qs[c].0 != qs[c2].0);
                    }
                }
            } else {
                assert(!exists|c: int| 0 <= c < qs2.len() && qs2[c].0 == t);
            }
        }
    }
}

proof fn lemma_queue_view_push<C>(qs: Seq<(u32, Vec<PendingWrite<C>>)>, tid: u32, nq: Vec<PendingWrite<C>>)
    requires
        forall|a: int, b: int| 0 <= a < b < qs.len() ==> qs[a].0 != qs[b].0,
        forall|a: int| 0 <= a < qs.len() ==> qs[a].0 != tid,
    ensures
        forall|t: u32| #[trigger] queue_view(qs.push((tid, nq)), t) == if t == tid {
            nq@
        } else {
            queue_view(qs, t)
        },
{
    let qs2 = qs.push((tid, nq));
    assert forall|t: u32| #[trigger] queue_view(qs2, t) == if t == tid {
        nq@
    } else {
        queue_view(qs, t)
    } by {
        if t == tid {
            assert(qs2[qs.len() as int].0 == t);
            let c = choose|c: int| 0 <= c < qs2.len() && qs2[c].0 == t;
            assert(c == qs.len());
        } else {
            if exists|c: int| 0 <= c < qs.len() && qs[c].0 == t {
                let c = choose|c: int| 0 <= c < qs.len() && qs[c].0 == t;
                assert(qs2[c].0 == t);
                let c2 = choose|c2: int| 0 <= c2 < qs2.len() && qs2[c2].0 == t;
                assert(c2 == c) by {
                    if c2 < c {
                        assert(qs[c2].0 != qs[c].0);
                    } else if c2 > c && c2 < qs.len() {
                        assert(qs[c].0 != qs[c2].0);
                    }
                }
            } else {
                assert(!exists|c: int| 0 <= c < qs2.len() && qs2[c].0 == t);
            }
        }
    }
}

impl<C> PendingWrites<C> {
    /// The queue of a terminal (empty when it has none).
    pub open spec fn queue(&self, tid: u32) -> Seq<PendingWrite<C>> {
        queue_view(self.queues@, tid)
    }

    /// The bytes terminal `t` took since its queue was last dropped.
    pub open spec fn written_since_discard(&self, t: u32) -> Seq<u8> {
        log_of(self.written_log@, t)
    }

    /// The bytes queued for terminal `t` since its queue was last dropped.
    pub open spec fn queued_since_discard(&self, t: u32) -> Seq<u8> {
        log_of(self.queued_log@, t)
    }

    /// For every terminal, the bytes it took followed by what its queue
    /// still has to write are the bytes queued for it.
    pub open spec fn logs_agree(&self) -> bool {
        forall|t: u32| #[trigger] self.written_since_discard(t) + stream(self.queue(t)) == self.queued_since_discard(t)
    }

    /// Each terminal has one queue, no queue holds more than the limit, and
    /// the logs agree with the queues.
    pub open spec fn wf(&self) -> bool {
        &&& forall|i: int, j: int|
            0 <= i < j < self.queues@.len() ==> self.queues@[i].0 != self.queues@[j].0
        &&& forall|i: int| 0 <= i < self.queues@.len() ==> queued(#[trigger] self.queues@[i].1@) <= MAX_PENDING_BYTES
        &&& self.logs_agree()
    }

    /// Whether some terminal has bytes (or chunks) waiting.
    pub open spec fn spec_has_pending(&self) -> bool {
        exists|i: int| 0 <= i < self.queues@.len() && (#[trigger] self.queues@[i]).1@.len() > 0
    }

    pub fn new() -> (p: Self)
        ensures
            p.wf(),
            forall|t: u32| p.queue(t).len() == 0,
            forall|t: u32| p.written_since_discard(t).len() == 0 && p.queued_since_discard(t).len() == 0,
            p.queues@.len() == 0,
    {
        let p = PendingWrites { queues: Vec::new(), written_log: Ghost(Map::empty()), queued_log: Ghost(Map::empty()) };
        proof {
            assert forall|t: u32| #[trigger] p.written_since_discard(t) + stream(p.queue(t)) == p.queued_since_discard(t) by {
                assert(p.queue(t) =~= Seq::<PendingWrite<C>>::empty());
                assert(stream(Seq::<PendingWrite<C>>::empty()) =~= Seq::<u8>::empty());
                assert(p.written_since_discard(t) + stream(p.queue(t)) =~= Seq::<u8>::empty());
            }
        }
        p
    }

    fn find(&self, tid: u32) -> (r: Option<usize>)
        requires
            self.wf(),
        ensures
            match r {
                Some(i) => i < self.queues@.len() && self.queues@[i as int].0 == tid && self.queue(tid)
                    == self.queues@[i as int].1@,
                None => forall|i: int| 0 <= i < self.queues@.len() ==> self.queues@[i].0 != tid,
            },
            r is None ==> self.queue(tid) == Seq::<PendingWrite<C>>::empty(),
    {
        let mut i: usize = 0;
        while i < self.queues.len()
            invariant
                0 <= i <= self.queues@.len(),
                self.wf(),
                forall|k: int| 0 <= k < i ==> self.queues@[k].0 != tid,
            decreases self.queues@.len() - i,
        {
            if self.queues[i].0 == tid {
                proof {
                    let c = choose|c: int| 0 <= c < self.queues@.len() && self.queues@[c].0 == tid;
                    assert(c == i) by {
                        if c < i {
                            assert(self.queues@[c].0 != self.queues@[i as int].0);
                        } else if c > i {
                            assert(self.queues@[i as int].0 != self.queues@[c].0);
                        }
                    }
                }
                return Some(i);
            }
            i = i + 1;
        }
        None
    }

    /// Whether some terminal has chunks waiting.
    pub fn has_pending(&self) -> (b: bool)
        ensures
            b == self.spec_has_pending(),
    {
        let mut i: usize = 0;
        while i < self.queues.len()
            invariant
                0 <= i <= self.queues@.len(),
                forall|k: int| 0 <= k < i ==> self.queues@[k].1@.len() == 0,
            decreases self.queues@.len() - i,
        {
            if self.queues[i].1.len() > 0 {
                return true;
            }
            i = i + 1;
        }
        false
    }

    /// The terminals that have a queue, in the order they got it.
    pub fn terminal_ids(&self) -> (ids: Vec<u32>)
        ensures
            ids@ == self.queues@.map_values(|q: (u32, Vec<PendingWrite<C>>)| q.0),
    {
        let mut ids: Vec<u32> = Vec::new();
        let mut i: usize = 0;
        while i < self.queues.len()
            invariant
                0 <= i <= self.queues@.len(),
                ids@ == self.queues@.take(i as int).map_values(|q: (u32, Vec<PendingWrite<C>>)| q.0),
            decreases self.queues@.len() - i,
        {
            ids.push(self.queues[i].0);
            proof {
                assert(self.queues@.take(i + 1) =~= self.queues@.take(i as int).push(self.queues@[i as int]));
            }
            i = i + 1;
        }
        proof {
            assert(self.queues@.take(i as int) =~= self.queues@);
        }
        ids
    }

    /// How many bytes a queue still has to write.
    fn queued_bytes(q: &Vec<PendingWrite<C>>) -> (n: usize)
        requires
            queued(q@) <= MAX_PENDING_BYTES,
        ensures
            n == queued(q@),
    {
        let mut n: usize = 0;
        let mut i: usize = 0;
        while i < q.len()
            invariant
                0 <= i <= q@.len(),
                queued(q@) <= MAX_PENDING_BYTES,
                n == stream(q@.take(i as int)).len(),
            decreases q@.len() - i,
        {
            proof {
                lemma_stream_take(q@, i as int);
                lemma_stream_prefix_len(q@, i + 1);
            }
            n = n + q[i].bytes.len().saturating_sub(q[i].offset);
            i = i + 1;
        }
        proof {
            assert(q@.take(i as int) =~= q@);
        }
        n
    }

    /// Puts a write at the end of its terminal's queue, or drops the queue
    /// (and the write) when it would hold more than `MAX_PENDING_BYTES`.
    /// Returns whether the queue was dropped.
    pub fn queue_write(&mut self, terminal_id: u32, bytes: Vec<u8>, completion: Option<C>) -> (dropped: bool)
        requires
            old(self).wf(),
            bytes@.len() <= isize::MAX,
        ensures
            final(self).wf(),
            dropped == (queued(old(self).queue(terminal_id)) + bytes@.len() > MAX_PENDING_BYTES),
            dropped ==> final(self).queue(terminal_id) == Seq::<PendingWrite<C>>::empty(),
            !dropped ==> final(self).queue(terminal_id) == old(self).queue(terminal_id).push(
                PendingWrite { bytes: bytes, offset: 0, completion: completion },
            ),
            !dropped ==> stream(final(self).queue(terminal_id)) == stream(old(self).queue(terminal_id)) + bytes@,
            forall|t: u32| t != terminal_id ==> final(self).queue(t) == old(self).queue(t),
            dropped ==> final(self).written_since_discard(terminal_id).len() == 0
                && final(self).queued_since_discard(terminal_id).len() == 0,
            !dropped ==> final(self).queued_since_discard(terminal_id) == old(self).queued_since_discard(terminal_id) + bytes@
                && final(self).written_since_discard(terminal_id) == old(self).written_since_discard(terminal_id),
            forall|t: u32| t != terminal_id ==> final(self).written_since_discard(t) == old(self).written_since_discard(t)
                && final(self).queued_since_discard(t) == old(self).queued_since_discard(t),
    {
        let ghost b = bytes@;
        let ghost w0 = old(self).written_since_discard(terminal_id);
        let ghost q0 = old(self).queued_since_discard(terminal_id);
        let i = match self.find(terminal_id) {
            Some(i) => i,
            None => {
                let ghost qs = self.queues@;
                let fresh: Vec<PendingWrite<C>> = Vec::new();
                let ghost fresh_view = fresh;
                self.queues.push((terminal_id, fresh));
                proof {
                    lemma_queue_view_push(qs, terminal_id, fresh_view);
                    assert(stream(Seq::<PendingWrite<C>>::empty()).len() == 0);
                }
                self.queues.len() - 1
            },
        };
        let ghost mid = self.queues@;
        assert(self.queue(terminal_id) == old(self).queue(terminal_id));
        let (tid, mut queue) = self.queues.remove(i);
        let queued_now = Self::queued_bytes(&queue);
        let len = bytes.len();
        let w = PendingWrite { bytes, offset: 0, completion };
        let dropped;
        if queued_now + len > MAX_PENDING_BYTES {
            queue = Vec::new();
            dropped = true;
        } else {
            let ghost before = queue@;
            queue.push(w);
            proof {
                lemma_stream_push(before, w);
                assert(remaining(w) =~= w.bytes@);
            }
            dropped = false;
        }
        self.queues.insert(i, (tid, queue));
        proof {
            assert(self.queues@ =~= mid.update(i as int, (tid, queue)));
            lemma_queue_view_update(mid, i as int, queue);
            assert(stream(Seq::<PendingWrite<C>>::empty()).len() == 0);
            assert forall|a: int| 0 <= a < self.queues@.len() implies queued(#[trigger] self.queues@[a].1@) <= MAX_PENDING_BYTES by {
                if a != i {
                    assert(self.queues@[a] == mid[a]);
                }
            }
        }
        if dropped {
            self.written_log = Ghost(self.written_log@.insert(terminal_id, Seq::empty()));
            self.queued_log = Ghost(self.queued_log@.insert(terminal_id, Seq::empty()));
        } else {
            self.queued_log = Ghost(self.queued_log@.insert(terminal_id, q0 + b));
        }
        proof {
            assert forall|t: u32| #[trigger] self.written_since_discard(t) + stream(self.queue(t)) == self.queued_since_discard(t) by {
                if t == terminal_id {
                    if dropped {
                        assert(stream(Seq::<PendingWrite<C>>::empty()) =~= Seq::<u8>::empty());
                        assert(self.written_since_discard(t) + stream(self.queue(t)) =~= Seq::<u8>::empty());
                    } else {
                        assert(w0 + stream(old(self).queue(t)) == q0);
                        assert(self.written_since_discard(t) + stream(self.queue(t)) =~= (w0 + stream(old(self).queue(t))) + b);
                    }
                } else {
                    assert(old(self).written_since_discard(t) + stream(old(self).queue(t)) == old(self).queued_since_discard(t));
                }
            }
        }
        dropped
    }

    /// Drops the fully written chunks at the front of a terminal's queue and
    /// returns the bytes of the next chunk that are still to be written.
    pub fn next_chunk(&mut self, terminal_id: u32) -> (chunk: Option<Vec<u8>>)
        requires
            old(self).wf(),
        ensures
            final(self).wf(),
            final(self).queue(terminal_id) == old(self).queue(terminal_id).skip(leading_done(old(self).queue(terminal_id))),
            stream(final(self).queue(terminal_id)) == stream(old(self).queue(terminal_id)),
            match chunk {
                Some(c) => final(self).queue(terminal_id).len() > 0 && c@ == remaining(final(self).queue(terminal_id)[0])
                    && c@.len() > 0,
                None => final(self).queue(terminal_id).len() == 0,
            },
            forall|t: u32| t != terminal_id ==> final(self).queue(t) == old(self).queue(t),
    {
        let i = match self.find(terminal_id) {
            Some(i) => i,
            None => {
                proof {
                    assert(old(self).queue(terminal_id).skip(0) =~= Seq::<PendingWrite<C>>::empty());
                }
                return None;
            },
        };
        let ghost mid = self.queues@;
        let (tid, mut queue) = self.queues.remove(i);
        let ghost q0 = queue@;
        proof {
            lemma_leading_done_bound(q0);
        }
        let n0 = queue.len();
        let mut k: usize = 0;
        while queue.len() > 0 && queue[0].offset >= queue[0].bytes.len()
            invariant
                0 <= k <= leading_done(q0),
                q0.len() == n0,
                queue@ == q0.skip(k as int),
                0 <= leading_done(q0) <= q0.len(),
                leading_done(q0) < q0.len() ==> remaining(q0[leading_done(q0)]).len() > 0,
                forall|j: int| 0 <= j < leading_done(q0) ==> remaining(#[trigger] q0[j]).len() == 0,
            decreases queue@.len(),
        {
            proof {
                assert(queue@[0] == q0[k as int]);
                if k as int == leading_done(q0) {
                    assert(remaining(q0[k as int]).len() == 0);
                }
            }
            queue.remove(0);
            k = k + 1;
            proof {
                assert(queue@ =~= q0.skip(k as int));
            }
        }
        proof {
            if (k as int) < leading_done(q0) {
                assert(remaining(q0[k as int]).len() == 0);
                assert(queue@[0] == q0[k as int]);
            }
            lemma_stream_skip_done(q0, k as int);
        }
        let chunk = if queue.len() > 0 {
            let front = &queue[0];
            let mut c: Vec<u8> = Vec::new();
            let mut j = front.offset;
            while j < front.bytes.len()
                invariant
                    front.offset <= j <= front.bytes@.len(),
                    c@ == front.bytes@.subrange(front.offset as int, j as int),
                decreases front.bytes@.len() - j,
            {
                c.push(front.bytes[j]);
                proof {
                    assert(c@ =~= front.bytes@.subrange(front.offset as int, j + 1));
                }
                j = j + 1;
            }
            proof {
                assert(c@ =~= remaining(*front));
                assert(queue@[0] == q0[k as int]);
            }
            Some(c)
        } else {
            None
        };
        self.queues.insert(i, (tid, queue));
        proof {
            assert(self.queues@ =~= mid.update(i as int, (tid, queue)));
            lemma_queue_view_update(mid, i as int, queue);
            assert forall|a: int| 0 <= a < self.queues@.len() implies queued(#[trigger] self.queues@[a].1@) <= MAX_PENDING_BYTES by {
                if a != i {
                    assert(self.queues@[a] == mid[a]);
                }
            }
        }
        proof {
            assert forall|t: u32| #[trigger] self.written_since_discard(t) + stream(self.queue(t)) == self.queued_since_discard(t) by {
                assert(old(self).written_since_discard(t) + stream(old(self).queue(t)) == old(self).queued_since_discard(t));
            }
        }
        chunk
    }

    /// Applies the outcome of writing the front chunk of a terminal's queue.
    /// Returns whether to go on writing to this terminal.
    pub fn record_write(&mut self, terminal_id: u32, outcome: WriteOutcome) -> (go_on: bool)
        requires
            old(self).wf(),
            old(self).queue(terminal_id).len() > 0,
        ensures
            final(self).wf(),
            final(self).queue(terminal_id) == after_write(old(self).queue(terminal_id), outcome),
            go_on == (outcome matches WriteOutcome::Written(n) && n > 0),
            forall|t: u32| t != terminal_id ==> final(self).queue(t) == old(self).queue(t),
            outcome is Failed ==> final(self).written_since_discard(terminal_id).len() == 0
                && final(self).queued_since_discard(terminal_id).len() == 0,
            !(outcome is Failed) ==> final(self).written_since_discard(terminal_id) == old(self).written_since_discard(
                terminal_id,
            ) + taken(old(self).queue(terminal_id), outcome) && final(self).queued_since_discard(terminal_id)
                == old(self).queued_since_discard(terminal_id),
            forall|t: u32| t != terminal_id ==> final(self).written_since_discard(t) == old(self).written_since_discard(t)
                && final(self).queued_since_discard(t) == old(self).queued_since_discard(t),
    {
        let ghost w0 = old(self).written_since_discard(terminal_id);
        let ghost oq = old(self).queue(terminal_id);
        let i = match self.find(terminal_id) {
            Some(i) => i,
            None => {
                return false;
            },
        };
        let ghost mid = self.queues@;
        let (tid, mut queue) = self.queues.remove(i);
        let ghost q0 = queue@;
        let go_on;
        match outcome {
            WriteOutcome::Written(n) => {
                if n == 0 {
                    // the terminal takes nothing for now
                    go_on = false;
                } else {
                    let mut front = queue.remove(0);
                    front.offset = front.offset.saturating_add(n);
                    if front.offset < front.bytes.len() {
                        queue.insert(0, front);
                        proof {
                            assert(queue@ =~= q0.update(0, front));
                        }
                    } else {
                        proof {
                            assert(queue@ =~= q0.drop_first());
                        }
                    }
                    go_on = true;
                }
            },
            WriteOutcome::Failed => {
                // the terminal is broken: its queue goes
                queue = Vec::new();
                go_on = false;
            },
        }
        proof {
            assert(stream(q0) =~= remaining(q0[0]) + stream(q0.drop_first()));
            if queue@ == q0.drop_first() {
                assert(queued(queue@) <= queued(q0));
            } else if queue@.len() > 0 && queue@ =~= q0.update(0, queue@[0]) {
                assert(queue@.drop_first() =~= q0.drop_first());
                assert(stream(queue@) =~= remaining(queue@[0]) + stream(q0.drop_first()));
                assert(remaining(queue@[0]).len() <= remaining(q0[0]).len());
            }
            assert(stream(Seq::<PendingWrite<C>>::empty()).len() == 0);
            assert(queued(queue@) <= MAX_PENDING_BYTES);
        }
        self.queues.insert(i, (tid, queue));
        proof {
            assert(self.queues@ =~= mid.update(i as int, (tid, queue)));
            lemma_queue_view_update(mid, i as int, queue);
            assert forall|a: int| 0 <= a < self.queues@.len() implies queued(#[trigger] self.queues@[a].1@) <= MAX_PENDING_BYTES by {
                if a != i {
                    assert(self.queues@[a] == mid[a]);
                }
            }
        }
        match outcome {
            WriteOutcome::Failed => {
                self.written_log = Ghost(self.written_log@.insert(terminal_id, Seq::empty()));
                self.queued_log = Ghost(self.queued_log@.insert(terminal_id, Seq::empty()));
            },
            WriteOutcome::Written(_) => {
                self.written_log = Ghost(self.written_log@.insert(terminal_id, w0 + taken(oq, outcome)));
            },
        }
        proof {
            assert forall|t: u32| #[trigger] self.written_since_discard(t) + stream(self.queue(t)) == self.queued_since_discard(t) by {
                assert(old(self).written_since_discard(t) + stream(old(self).queue(t)) == old(self).queued_since_discard(t));
                if t == terminal_id {
                    match outcome {
                        WriteOutcome::Failed => {
                            assert(stream(Seq::<PendingWrite<C>>::empty()) =~= Seq::<u8>::empty());
                            assert(self.written_since_discard(t) + stream(self.queue(t)) =~= Seq::<u8>::empty());
                        },
                        WriteOutcome::Written(n) => {
                            if n > 0 {
                                lemma_write_takes(oq, n);
                                assert(self.written_since_discard(t) + stream(self.queue(t)) =~= w0 + (taken(oq, outcome)
                                    + stream(after_write(oq, outcome))));
                            } else {
                                assert(taken(oq, outcome) =~= Seq::<u8>::empty());
                                assert(self.written_since_discard(t) + stream(self.queue(t)) =~= w0 + stream(oq));
                            }
                        },
                    }
                }
            }
        }
        go_on
    }

    /// Forgets the terminals whose queues are empty.
    pub fn retain_nonempty(&mut self)
        requires
            old(self).wf(),
        ensures
            final(self).wf(),
            forall|t: u32| final(self).queue(t) == old(self).queue(t),
            forall|i: int| 0 <= i < final(self).queues@.len() ==> (#[trigger] final(self).queues@[i]).1@.len() > 0,
    {
        let ghost q0 = self.queues@;
        let mut rest: Vec<(u32, Vec<PendingWrite<C>>)> = Vec::new();
        std::mem::swap(&mut rest, &mut self.queues);
        let mut out: Vec<(u32, Vec<PendingWrite<C>>)> = Vec::new();
        while rest.len() > 0
            invariant
                forall|a: int, b: int| 0 <= a < b < q0.len() ==> q0[a].0 != q0[b].0,
                forall|a: int| 0 <= a < q0.len() ==> queued(#[trigger] q0[a].1@) <= MAX_PENDING_BYTES,
                rest@.len() <= q0.len(),
                rest@ == q0.skip(q0.len() - rest@.len()),
                forall|a: int| 0 <= a < out@.len() ==> exists|b: int| 0 <= b < q0.len() - rest@.len() && (#[trigger] out@[a]) == q0[b],
                forall|a: int, b: int| 0 <= a < b < out@.len() ==> out@[a].0 != out@[b].0,
                forall|a: int| 0 <= a < out@.len() ==> (#[trigger] out@[a]).1@.len() > 0,
                forall|b: int| 0 <= b < q0.len() - rest@.len() && q0[b].1@.len() > 0 ==> exists|a: int| 0 <= a < out@.len() && #[trigger] out@[a] == q0[b],
            decreases rest@.len(),
        {
            let ghost done = q0.len() - rest@.len();
            let e = rest.remove(0);
            proof {
                assert(e == q0[done]);
                assert(rest@ =~= q0.skip(done + 1));
            }
            if e.1.len() > 0 {
                let ghost o = out@;
                out.push(e);
                proof {
                    assert forall|a: int| 0 <= a < out@.len() implies exists|b: int| 0 <= b < done + 1 && (#[trigger] out@[a]) == q0[b] by {
                        if a < o.len() {
                            assert(out@[a] == o[a]);
                        } else {
                            assert(out@[a] == q0[done]);
                        }
                    }
                    assert forall|a: int, b: int| 0 <= a < b < out@.len() implies out@[a].0 != out@[b].0 by {
                        if b == o.len() {
                            assert(out@[a] == o[a]);
                            let c = choose|c: int| 0 <= c < done && o[a] == q0[c];
                            assert(q0[c].0 != q0[done].0);
                        }
                    }
                    assert forall|b: int| 0 <= b < done + 1 && q0[b].1@.len() > 0 implies exists|a: int| 0 <= a < out@.len() && #[trigger] out@[a] == q0[b] by {
                        if b == done {
                            assert(out@[o.len() as int] == q0[b]);
                        } else {
                            let a = choose|a: int| 0 <= a < o.len() && #[trigger] o[a] == q0[b];
                            assert(out@[a] == q0[b]);
                        }
                    }
                }
            }
        }
        self.queues = out;
        proof {
            let qs = self.queues@;
            assert forall|t: u32| #[trigger] queue_view(qs, t) == queue_view(q0, t) by {
                if exists|c: int| 0 <= c < q0.len() && q0[c].0 == t {
                    let c = choose|c: int| 0 <= c < q0.len() && q0[c].0 == t;
                    if q0[c].1@.len() > 0 {
                        let a = choose|a: int| 0 <= a < qs.len() && #[trigger] qs[a] == q0[c];
                        let a2 = choose|a2: int| 0 <= a2 < qs.len() && qs[a2].0 == t;
                        assert(a2 == a) by {
                            if a2 < a {
                                assert(qs[a2].0 != qs[a].0);
                            } else if a2 > a {
                                assert(qs[a].0 != qs[a2].0);
                            }
                        }
                    } else {
                        if exists|a: int| 0 <= a < qs.len() && qs[a].0 == t {
                            let a = choose|a: int| 0 <= a < qs.len() && qs[a].0 == t;
                            let b = choose|b: int| 0 <= b < q0.len() && qs[a] == q0[b];
                            assert(b == c) by {
                                if b < c {
                                    assert(q0[b].0 != q0[c].0);
                                } else if b > c {
                                    assert(q0[c].0 != q0[b].0);
                                }
                            }
                        }
                    }
                } else {
                    if exists|a: int| 0 <= a < qs.len() && qs[a].0 == t {
                        let a = choose|a: int| 0 <= a < qs.len() && qs[a].0 == t;
                        let b = choose|b: int| 0 <= b < q0.len() && qs[a] == q0[b];
                        assert(q0[b].0 == t);
                    }
                }
            }
            assert forall|a: int| 0 <= a < qs.len() implies queued(#[trigger] qs[a].1@) <= MAX_PENDING_BYTES by {
                let b = choose|b: int| 0 <= b < q0.len() && qs[a] == q0[b];
            }
        }
        proof {
            assert forall|t: u32| #[trigger] self.written_since_discard(t) + stream(self.queue(t)) == self.queued_since_discard(t) by {
                assert(old(self).written_since_discard(t) + stream(old(self).queue(t)) == old(self).queued_since_discard(t));
            }
        }
    }
}

/// The bytes a terminal takes when its front chunk is written with this
/// outcome: the first bytes of the chunk's rest, as many as it took (no
/// more than the rest holds).
pub open spec fn taken<C>(q: Seq<PendingWrite<C>>, outcome: WriteOutcome) -> Seq<u8> {
    match outcome {
        WriteOutcome::Written(n) => if n > 0 && q.len() > 0 {
            let r = remaining(q[0]);
            if n <= r.len() {
                r.take(n as int)
            } else {
                r
            }
        } else {
            Seq::empty()
        },
        WriteOutcome::Failed => Seq::empty(),
    }
}

proof fn lemma_write_takes<C>(q: Seq<PendingWrite<C>>, n: usize)
    requires
        q.len() > 0,
        n > 0,
    ensures
        taken(q, WriteOutcome::Written(n)) + stream(after_write(q, WriteOutcome::Written(n))) == stream(q),
{
    let front = q[0];
    let r = remaining(front);
    assert(stream(q) =~= r + stream(q.drop_first()));
    if n <= r.len() {
        lemma_write_consumes_stream(q, n);
        assert(r.take(n as int) + stream(q).skip(n as int) =~= stream(q));
    } else {
        assert(taken(q, WriteOutcome::Written(n)) == r);
        assert(front.bytes.len() == front.bytes@.len());
        assert(front.offset + n >= front.bytes@.len());
        assert(after_write(q, WriteOutcome::Written(n)) == q.drop_first());
    }
}

/// Over any sequence of calls, what a terminal took is a start of what was
/// queued for it since its queue was last dropped: the bytes reach it in
/// the order they were queued, none twice and none skipped, and what it
/// took followed by what its queue still holds is all of it.
pub proof fn lemma_written_is_a_start_of_queued<C>(p: PendingWrites<C>, t: u32)
    requires
        p.wf(),
    ensures
        p.written_since_discard(t) + stream(p.queue(t)) == p.queued_since_discard(t),
        p.written_since_discard(t).len() <= p.queued_since_discard(t).len(),
        p.queued_since_discard(t).take(p.written_since_discard(t).len() as int) == p.written_since_discard(t),
{
    let w = p.written_since_discard(t);
    assert(w + stream(p.queue(t)) == p.queued_since_discard(t));
    assert(p.queued_since_discard(t).take(w.len() as int) =~= w);
}


/// Writing to a terminal takes exactly the bytes it accepted off the front
/// of what its queue still has to write: when the terminal takes `n` bytes
/// of the front chunk, the queue's remaining stream loses its first `n`
/// bytes and keeps the rest in order.
pub proof fn lemma_write_consumes_stream<C>(q: Seq<PendingWrite<C>>, n: usize)
    requires
        q.len() > 0,
        0 < n <= remaining(q[0]).len(),
    ensures
        stream(after_write(q, WriteOutcome::Written(n))) == stream(q).skip(n as int),
{
    let front = q[0];
    assert(front.offset < front.bytes@.len());
    assert(front.bytes.len() == front.bytes@.len());
    assert(stream(q) =~= remaining(front) + stream(q.drop_first()));
    let off = front.offset + n;
    if off >= front.bytes@.len() {
        assert(stream(q).skip(n as int) =~= stream(q.drop_first()));
    } else {
        let q2 = q.update(0, PendingWrite { offset: off as usize, ..front });
        assert(q2.drop_first() =~= q.drop_first());
        assert(remaining(q2[0]) =~= remaining(front).skip(n as int));
        assert(stream(q2) =~= remaining(q2[0]) + stream(q2.drop_first()));
        assert(stream(q).skip(n as int) =~= remaining(front).skip(n as int) + stream(q.drop_first()));
    }
}

/// A chunk handed out for writing is the start of what the terminal's queue
/// still has to write.
pub proof fn lemma_chunk_is_stream_prefix<C>(q: Seq<PendingWrite<C>>, chunk: Seq<u8>)
    requires
        q.len() > 0,
        chunk == remaining(q[0]),
    ensures
        chunk.len() <= stream(q).len(),
        stream(q).take(chunk.len() as int) == chunk,
{
    assert(stream(q) =~= remaining(q[0]) + stream(q.drop_first()));
    assert(stream(q).take(chunk.len() as int) =~= chunk);
}



} // verus!
