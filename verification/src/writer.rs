//! The ordered write-offload queue: producers enqueue persistence
//! operations and return at once; a single worker drains them strictly in
//! submission order and hands each to the persistence collaborator, off the
//! message-handling path.

use vstd::prelude::*;

verus! {

/// One deferred persistence request, consumed exactly once by the worker.
#[derive(Debug)]
pub enum WriteOp {
    /// A voice transcription to store, with its origin and duration.
    Transcription {
        guild_id: u64,
        channel_id: u64,
        user_id: u64,
        content: String,
        username: String,
        duration_ms: u64,
    },
    /// An opaque serialized record for the named table.
    Generic { table: String, data: String },
    /// The sentinel that tells the worker to stop.
    Shutdown,
}

/// Why an enqueue was refused.
#[derive(Debug, PartialEq, Eq, Structural)]
pub enum QueueError {
    /// The worker has stopped taking operations; the write was not queued.
    WorkerStopped,
}

/// The persistence collaborator the worker hands operations to: a database
/// client in production, a recorder in tests. The queue promises to invoke
/// it once per operation, in submission order, and assumes nothing about
/// the outcome: a failed write is the collaborator's to report.
pub trait Persistence {
    /// Persist one transcription; reports success.
    fn persist_transcription(
        &mut self,
        guild_id: u64,
        channel_id: u64,
        user_id: u64,
        content: &str,
        username: &str,
        duration_ms: u64,
    ) -> bool;

    /// Apply one generic serialized write to the named table; reports
    /// success.
    fn persist_generic(&mut self, table: &str, data: &str) -> bool;
}

/// An operation that counts towards the pending total: everything but the
/// sentinel.
pub open spec fn is_real(op: WriteOp) -> bool {
    !(op is Shutdown)
}

/// How many queued operations count towards the pending total.
pub open spec fn count_real(q: Seq<WriteOp>) -> int
    decreases q.len(),
{
    if q.len() == 0 {
        0
    } else {
        count_real(q.drop_last()) + if is_real(q.last()) {
            1int
        } else {
            0int
        }
    }
}

/// The operations a drain hands to the collaborator: the queue up to, and
/// not including, the first sentinel.
pub open spec fn delivered(q: Seq<WriteOp>) -> Seq<WriteOp>
    decreases q.len(),
{
    if q.len() == 0 {
        Seq::empty()
    } else if q[0] is Shutdown {
        Seq::empty()
    } else {
        seq![q[0]] + delivered(q.drop_first())
    }
}

/// What a drain leaves queued: nothing, unless a sentinel stopped it early,
/// in which case everything after that sentinel stays.
pub open spec fn leftover(q: Seq<WriteOp>) -> Seq<WriteOp>
    decreases q.len(),
{
    if q.len() == 0 {
        q
    } else if q[0] is Shutdown {
        q.drop_first()
    } else {
        leftover(q.drop_first())
    }
}

/// Whether a drain of the queue runs into the sentinel.
pub open spec fn hit_shutdown(q: Seq<WriteOp>) -> bool
    decreases q.len(),
{
    if q.len() == 0 {
        false
    } else if q[0] is Shutdown {
        true
    } else {
        hit_shutdown(q.drop_first())
    }
}

/// The pending count never exceeds the queue's length and never goes
/// negative.
pub proof fn lemma_count_real_bounds(q: Seq<WriteOp>)
    ensures
        0 <= count_real(q) <= q.len(),
    decreases q.len(),
{
    if q.len() > 0 {
        lemma_count_real_bounds(q.drop_last());
    }
}

/// Appending one operation raises the pending total exactly when the
/// operation is no sentinel.
pub proof fn lemma_count_real_push(q: Seq<WriteOp>, op: WriteOp)
    ensures
        count_real(q.push(op)) == count_real(q) + if is_real(op) {
            1int
        } else {
            0int
        },
{
    assert(q.push(op).drop_last() =~= q);
    assert(q.push(op).last() == op);
}

/// The pending total splits at the front of the queue.
pub proof fn lemma_count_real_first(q: Seq<WriteOp>)
    requires
        q.len() > 0,
    ensures
        count_real(q) == count_real(q.drop_first()) + if is_real(q[0]) {
            1int
        } else {
            0int
        },
    decreases q.len(),
{
    if q.len() == 1 {
        assert(q.drop_first() =~= Seq::<WriteOp>::empty());
        assert(q.drop_last() =~= Seq::<WriteOp>::empty());
        assert(q.last() == q[0]);
    } else {
        let shorter = q.drop_last();
        lemma_count_real_first(shorter);
        assert(q.drop_first().drop_last() =~= shorter.drop_first());
        assert(q.drop_first().last() == q.last());
    }
}

/// For a run of enqueues with no sentinel among them, a drain hands over
/// every queued operation exactly once, in submission order, and counts
/// each of them as pending until then: the flush barrier observes zero
/// exactly when all of them are done.
pub proof fn lemma_fifo_delivery(q: Seq<WriteOp>)
    requires
        forall|i: int| 0 <= i < q.len() ==> is_real(#[trigger] q[i]),
    ensures
        delivered(q) == q,
        !hit_shutdown(q),
        count_real(q) == q.len(),
    decreases q.len(),
{
    if q.len() > 0 {
        assert(forall|i: int|
            0 <= i < q.drop_first().len() ==> is_real(#[trigger] q.drop_first()[i]));
        lemma_fifo_delivery(q.drop_first());
        assert(seq![q[0]] + q.drop_first() =~= q);
        assert(forall|i: int| 0 <= i < q.drop_last().len() ==> is_real(#[trigger] q.drop_last()[i]));
        lemma_fifo_delivery(q.drop_last());
    }
}

/// Asynchronous, ordered write-offload queue: enqueues are immediate, a
/// single consumer performs the deferred work in FIFO order, and a shared
/// pending count lets callers observe the backlog.
pub struct DatabaseWriter {
    queue: Vec<WriteOp>,
    pending_count: usize,
    accepting: bool,
}

impl DatabaseWriter {
    /// The operations enqueued and not yet taken by the worker, oldest
    /// first.
    pub closed spec fn queued(self) -> Seq<WriteOp> {
        self.queue@
    }

    /// The in-flight counter: operations enqueued and not yet finished.
    pub closed spec fn pending(self) -> int {
        self.pending_count as int
    }

    /// Whether new operations are still taken: false once the queue has
    /// been closed or the worker has seen the sentinel.
    pub closed spec fn accepting(self) -> bool {
        self.accepting
    }

    /// The queue's invariant: the pending counter counts exactly the queued
    /// operations that are no sentinel.
    pub open spec fn wf(self) -> bool {
        self.pending() == count_real(self.queued())
    }

    /// A fresh queue: empty, nothing pending, accepting.
    pub fn new() -> (w: DatabaseWriter)
        ensures
            w.wf(),
            w.queued().len() == 0,
            w.pending() == 0,
            w.accepting(),
    {
        DatabaseWriter { queue: Vec::new(), pending_count: 0, accepting: true }
    }

    /// Whether the queue still takes new operations.
    pub fn is_accepting(&self) -> (b: bool)
        ensures
            b == self.accepting(),
    {
        self.accepting
    }

    /// A point-in-time read of the pending count.
    pub fn pending_writes(&self) -> (n: usize)
        ensures
            n == self.pending(),
    {
        self.pending_count
    }

    /// Enqueue one operation: immediate, failing exactly when the queue no
    /// longer accepts input — a hard error, never a silent drop.
    fn enqueue_op(&mut self, op: WriteOp) -> (r: Result<(), QueueError>)
        requires
            old(self).wf(),
            is_real(op),
        ensures
            final(self).wf(),
            r is Ok <==> old(self).accepting(),
            old(self).accepting() ==> final(self).queued() == old(self).queued().push(op)
                && final(self).pending() == old(self).pending() + 1,
            !old(self).accepting() ==> final(self).queued() == old(self).queued() && final(self).pending() == old(self).pending(),
            final(self).accepting() == old(self).accepting(),
    {
        if !self.accepting {
            return Err(QueueError::WorkerStopped);
        }
        proof {
            lemma_count_real_bounds(self.queue@);
            lemma_count_real_push(self.queue@, op);
        }
        self.queue.push(op);
        let n = self.queue.len();
        proof {
            assert(self.pending_count < n);
        }
        self.pending_count = self.pending_count + 1;
        Ok(())
    }

    /// Queue a transcription to be saved. Immediate; fails exactly when the
    /// worker no longer accepts input.
    pub fn queue_transcription(
        &mut self,
        guild_id: u64,
        channel_id: u64,
        user_id: u64,
        content: String,
        username: String,
        duration_ms: u64,
    ) -> (r: Result<(), QueueError>)
        requires
            old(self).wf(),
        ensures
            final(self).wf(),
            r is Ok <==> old(self).accepting(),
            old(self).accepting() ==> final(self).queued() == old(self).queued().push(
                (WriteOp::Transcription {
                    guild_id,
                    channel_id,
                    user_id,
                    content,
                    username,
                    duration_ms,
                }),
            ) && final(self).pending() == old(self).pending() + 1,
            !old(self).accepting() ==> final(self).queued() == old(self).queued() && final(self).pending() == old(self).pending(),
            final(self).accepting() == old(self).accepting(),
    {
        self.enqueue_op(
            WriteOp::Transcription {
                guild_id,
                channel_id,
                user_id,
                content,
                username,
                duration_ms,
            },
        )
    }

    /// Queue a generic serialized write for the named table. Immediate;
    /// fails exactly when the worker no longer accepts input.
    pub fn queue_write(&mut self, table: String, data: String) -> (r: Result<(), QueueError>)
        requires
            old(self).wf(),
        ensures
            final(self).wf(),
            r is Ok <==> old(self).accepting(),
            old(self).accepting() ==> final(self).queued() == old(self).queued().push(
                (WriteOp::Generic { table, data }),
            ) && final(self).pending() == old(self).pending() + 1,
            !old(self).accepting() ==> final(self).queued() == old(self).queued() && final(self).pending() == old(self).pending(),
            final(self).accepting() == old(self).accepting(),
    {
        self.enqueue_op(WriteOp::Generic { table, data })
    }

    /// Stop taking input and queue the sentinel, so a worker draining the
    /// queue terminates instead of waiting forever. Already-queued
    /// operations stay to be drained; the sentinel counts nothing pending.
    pub fn close(&mut self)
        requires
            old(self).wf(),
        ensures
            final(self).wf(),
            final(self).queued() == old(self).queued().push(WriteOp::Shutdown),
            final(self).pending() == old(self).pending(),
            !final(self).accepting(),
    {
        proof {
            lemma_count_real_push(self.queue@, WriteOp::Shutdown);
        }
        self.queue.push(WriteOp::Shutdown);
        self.accepting = false;
    }

    /// Drain the queue: take each operation in submission order, hand it to
    /// the collaborator, and count it off; stop at the sentinel, leaving
    /// anything after it. A collaborator failure is the collaborator's to
    /// report — the drain continues. Returns the operations handed over, in
    /// order.
    pub fn process_writes<P: Persistence>(&mut self, p: &mut P) -> (done: Vec<WriteOp>)
        requires
            old(self).wf(),
        ensures
            final(self).wf(),
            done@ == delivered(old(self).queued()),
            final(self).queued() == leftover(old(self).queued()),
            final(self).pending() + done@.len() == old(self).pending(),
            final(self).accepting() == (old(self).accepting() && !hit_shutdown(
                old(self).queued(),
            )),
            !hit_shutdown(old(self).queued()) ==> final(self).queued().len() == 0,
    {
        let mut done: Vec<WriteOp> = Vec::new();
        while self.queue.len() > 0
            invariant
                self.wf(),
                done@ + delivered(self.queued()) == delivered(old(self).queued()),
                leftover(self.queued()) == leftover(old(self).queued()),
                hit_shutdown(self.queued()) == hit_shutdown(old(self).queued()),
                self.pending() + done@.len() == old(self).pending(),
                self.accepting() == old(self).accepting(),
            ensures
                self.wf(),
                done@ == delivered(old(self).queued()),
                self.queued() == leftover(old(self).queued()),
                self.pending() + done@.len() == old(self).pending(),
                self.accepting() == (old(self).accepting() && !hit_shutdown(old(self).queued())),
                !hit_shutdown(old(self).queued()) ==> self.queued().len() == 0,
            decreases self.queue.len(),
        {
            let ghost cur = self.queue@;
            proof {
                lemma_count_real_first(cur);
                assert(cur.remove(0) =~= cur.drop_first());
            }
            let op = self.queue.remove(0);
            match &op {
                WriteOp::Shutdown => {
                    self.accepting = false;
                    proof {
                        assert(delivered(cur) =~= Seq::<WriteOp>::empty());
                        assert(done@ + delivered(cur) =~= done@);
                    }
                    return done;
                },
                WriteOp::Transcription {
                    guild_id,
                    channel_id,
                    user_id,
                    content,
                    username,
                    duration_ms,
                } => {
                    let _ok = p.persist_transcription(
                        *guild_id,
                        *channel_id,
                        *user_id,
                        content.as_str(),
                        username.as_str(),
                        *duration_ms,
                    );
                },
                WriteOp::Generic { table, data } => {
                    let _ok = p.persist_generic(table.as_str(), data.as_str());
                },
            }
            proof {
                lemma_count_real_bounds(cur.drop_first());
            }
            self.pending_count = self.pending_count - 1;
            proof {
                assert(delivered(cur) == seq![op] + delivered(cur.drop_first()));
                assert(done@.push(op) + delivered(cur.drop_first()) =~= done@ + delivered(cur));
            }
            done.push(op);
        }
        proof {
            assert(done@ + delivered(self.queued()) =~= done@);
        }
        done
    }
}

} // verus!
