//! A pool of buffers for I/O without an allocation per packet: a shared bounded queue,
//! and a small pool in front of it for each thread.

use crate::metrics::Ratio;
use crate::wire::zeros;
use crossbeam_queue::ArrayQueue;
use vstd::prelude::*;

verus! {

/// How many buffers a thread's pool takes from the shared queue at once.
pub const BATCH_SIZE: usize = 32;

/// How many buffers a thread's pool holds at most.
pub const MAX_LOCAL_BUFFERS: usize = 64;

/// `crossbeam_queue::ArrayQueue`, opaque here: a queue is read and changed through the
/// functions that name its contents.
#[verifier::external_type_specification]
#[verifier::external_body]
#[verifier::reject_recursive_types(T)]
pub struct ExArrayQueue<T>(ArrayQueue<T>);

/// The buffers in a queue, the oldest first.
pub uninterp spec fn queued(q: ArrayQueue<Vec<u8>>) -> Seq<Seq<u8>>;

/// How many buffers a queue holds at most.
pub uninterp spec fn queue_limit(q: ArrayQueue<Vec<u8>>) -> nat;

/// No buffers.
pub open spec fn no_buffers() -> Seq<Seq<u8>> {
    Seq::empty()
}

/// Calls `ArrayQueue::new`, which refuses a capacity of zero and one that cannot be
/// allocated: the queue is empty, and its limit is the capacity.
#[verifier::external_body]
fn queue_new(cap: usize) -> (q: ArrayQueue<Vec<u8>>)
    requires
        0 < cap,
        cap * 32 <= isize::MAX,
    ensures
        queued(q) == no_buffers(),
        queue_limit(q) == cap,
{
    ArrayQueue::new(cap)
}

/// Calls `ArrayQueue::push`: the buffer is the last one afterwards, unless the queue is full.
#[verifier::external_body]
fn queue_push(q: &mut ArrayQueue<Vec<u8>>, buffer: Vec<u8>)
    ensures
        queued(*final(q)) == (if queued(*old(q)).len() < queue_limit(*old(q)) {
            queued(*old(q)).push(buffer@)
        } else {
            queued(*old(q))
        }),
        queue_limit(*final(q)) == queue_limit(*old(q)),
{
    let _ = q.push(buffer);
}

/// Calls `ArrayQueue::pop`: the first buffer comes out, and nothing only where there is none.
#[verifier::external_body]
fn queue_pop(q: &mut ArrayQueue<Vec<u8>>) -> (r: Option<Vec<u8>>)
    ensures
        match r {
            Some(buffer) => queued(*old(q)).len() > 0 && buffer@ == queued(*old(q))[0] && queued(
                *final(q),
            ) == queued(*old(q)).skip(1),
            None => queued(*old(q)).len() == 0 && queued(*final(q)) == queued(*old(q)),
        },
        queue_limit(*final(q)) == queue_limit(*old(q)),
{
    q.pop()
}

/// Calls `ArrayQueue::len`: the number of buffers.
#[verifier::external_body]
fn queue_len(q: &ArrayQueue<Vec<u8>>) -> (n: usize)
    ensures
        n == queued(*q).len(),
{
    q.len()
}

/// The pool of one thread. All its buffers are cleared.
pub struct LocalPool {
    buffers: Vec<Vec<u8>>,
}

impl LocalPool {
    /// How many buffers are in the pool.
    pub closed spec fn count(&self) -> nat {
        self.buffers@.len()
    }

    /// Whether the pool keeps its limit and holds cleared buffers only.
    pub closed spec fn wf(&self) -> bool {
        &&& self.buffers@.len() <= MAX_LOCAL_BUFFERS
        &&& forall|i: int| 0 <= i < self.buffers@.len() ==> (#[trigger] self.buffers@[i])@.len() == 0
    }

    /// An empty pool.
    pub fn new() -> (p: Self)
        ensures
            p.wf(),
            p.count() == 0,
    {
        LocalPool { buffers: Vec::new() }
    }

    /// How many buffers are in the pool.
    pub fn len(&self) -> (n: usize)
        ensures
            n == self.count(),
    {
        self.buffers.len()
    }
}

/// A buffer taken from a pool.
pub struct PooledBuffer {
    buffer: Vec<u8>,
}

impl View for PooledBuffer {
    type V = Seq<u8>;

    closed spec fn view(&self) -> Seq<u8> {
        self.buffer@
    }
}

impl PooledBuffer {
    /// The buffer, to change.
    pub fn as_mut(&mut self) -> (b: &mut Vec<u8>)
        ensures
            (*b)@ == old(self)@,
            final(self)@ == (*final(b))@,
    {
        &mut self.buffer
    }

    /// The bytes.
    pub fn as_ref(&self) -> (b: &[u8])
        ensures
            b@ == self@,
    {
        self.buffer.as_slice()
    }

    /// How many bytes there are.
    pub fn len(&self) -> (n: usize)
        ensures
            n == self@.len(),
    {
        self.buffer.len()
    }

    /// Whether there are no bytes.
    pub fn is_empty(&self) -> (b: bool)
        ensures
            b == (self@.len() == 0),
    {
        self.buffer.len() == 0
    }
}

/// Pool statistics.
#[derive(Debug, Clone, Copy, PartialEq, Eq, Structural)]
pub struct PoolStats {
    /// Buffers that were allocated.
    pub allocations: usize,
    /// Buffers that were handed out again.
    pub hits: usize,
    /// Buffers in the shared queue.
    pub pool_size: usize,
}

impl PoolStats {
    /// Which part of the requests needed no allocation; zero where there were none.
    pub fn hit_rate(&self) -> (r: Ratio)
        requires
            self.allocations + self.hits <= usize::MAX,
        ensures
            self.allocations + self.hits == 0 ==> r == (Ratio { numerator: 0, denominator: 1 }),
            self.allocations + self.hits > 0 ==> r.numerator == self.hits && r.denominator
                == self.allocations + self.hits,
    {
        let total: usize = self.allocations + self.hits;
        if total == 0 {
            Ratio { numerator: 0, denominator: 1 }
        } else {
            Ratio { numerator: self.hits as u64, denominator: total as u64 }
        }
    }
}

/// The state of the shared part of a pool. The counters wrap at their limit.
#[verifier::ext_equal]
pub struct PoolState {
    /// The buffers in the shared queue.
    pub queue: Seq<Seq<u8>>,
    /// How many the queue holds at most.
    pub limit: nat,
    /// How large a fresh buffer is made.
    pub buffer_size: usize,
    pub allocations: usize,
    pub hits: usize,
}

/// The smaller of two numbers.
pub open spec fn smaller(a: nat, b: nat) -> nat {
    if a <= b {
        a
    } else {
        b
    }
}

/// `n` copies of a byte string.
pub open spec fn copies(bytes: Seq<u8>, n: nat) -> Seq<Seq<u8>> {
    Seq::new(n, |i: int| bytes)
}

impl PoolState {
    /// How many buffers an empty thread pool takes from the queue.
    pub open spec fn batch(self) -> nat {
        smaller(BATCH_SIZE as nat, self.queue.len())
    }

    /// The state after a buffer was handed out to a thread with `local` buffers.
    pub open spec fn acquired(self, local: nat) -> PoolState {
        if local > 0 {
            PoolState { hits: self.hits.wrapping_add(1), ..self }
        } else if self.queue.len() > 0 {
            PoolState {
                queue: self.queue.skip(self.batch() as int),
                hits: self.hits.wrapping_add(1),
                ..self
            }
        } else {
            PoolState { allocations: self.allocations.wrapping_add(1), ..self }
        }
    }

    /// How many buffers the thread has afterwards.
    pub open spec fn local_after_acquire(self, local: nat) -> nat {
        if local > 0 {
            (local - 1) as nat
        } else if self.queue.len() > 0 {
            (self.batch() - 1) as nat
        } else {
            0
        }
    }

    /// The state after a thread with `local` buffers took one back. A full thread pool
    /// first gives half of its buffers to the queue, as far as there is room.
    pub open spec fn returned(self, local: nat) -> PoolState {
        if local < MAX_LOCAL_BUFFERS {
            self
        } else {
            PoolState {
                queue: self.queue + copies(
                    Seq::empty(),
                    smaller(
                        (MAX_LOCAL_BUFFERS / 2) as nat,
                        if self.queue.len() <= self.limit {
                            (self.limit - self.queue.len()) as nat
                        } else {
                            0
                        },
                    ),
                ),
                ..self
            }
        }
    }

    /// How many buffers the thread has afterwards.
    pub open spec fn local_after_return(self, local: nat) -> nat {
        if local < MAX_LOCAL_BUFFERS {
            local + 1
        } else {
            (local - MAX_LOCAL_BUFFERS / 2 + 1) as nat
        }
    }
}

/// The shared part of a pool.
pub struct BufferPool {
    buffers: ArrayQueue<Vec<u8>>,
    buffer_size: usize,
    allocations: usize,
    hits: usize,
}

impl View for BufferPool {
    type V = PoolState;

    closed spec fn view(&self) -> PoolState {
        PoolState {
            queue: queued(self.buffers),
            limit: queue_limit(self.buffers),
            buffer_size: self.buffer_size,
            allocations: self.allocations,
            hits: self.hits,
        }
    }
}

impl BufferPool {
    /// A pool of at most `max_buffers` buffers, with `initial_count` of them, or as many
    /// as fit, made at once.
    pub fn new(buffer_size: usize, initial_count: usize, max_buffers: usize) -> (p: Self)
        requires
            0 < max_buffers,
            max_buffers * 32 <= isize::MAX,
        ensures
            p@ == (PoolState {
                queue: copies(
                    Seq::new(buffer_size as nat, |i: int| 0u8),
                    smaller(initial_count as nat, max_buffers as nat),
                ),
                limit: max_buffers as nat,
                buffer_size,
                allocations: smaller(initial_count as nat, max_buffers as nat) as usize,
                hits: 0,
            }),
    {
        let mut buffers = queue_new(max_buffers);
        let count: usize = if initial_count <= max_buffers {
            initial_count
        } else {
            max_buffers
        };
        let mut i: usize = 0;
        while i < count
            invariant
                i <= count <= max_buffers,
                queue_limit(buffers) == max_buffers,
                queued(buffers) == copies(Seq::new(buffer_size as nat, |i: int| 0u8), i as nat),
            decreases count - i,
        {
            queue_push(&mut buffers, zeros(buffer_size));
            i += 1;
            assert(queued(buffers) =~= copies(
                Seq::new(buffer_size as nat, |i: int| 0u8),
                i as nat,
            ));
        }
        BufferPool { buffers, buffer_size, allocations: count, hits: 0 }
    }

    /// Hand out an empty buffer: from the thread's pool, from the queue, or a new one.
    pub fn acquire(&mut self, local: &mut LocalPool) -> (b: PooledBuffer)
        requires
            old(local).wf(),
        ensures
            b@ == Seq::<u8>::empty(),
            final(local).wf(),
            final(local).count() == old(self)@.local_after_acquire(old(local).count()),
            final(self)@ == old(self)@.acquired(old(local).count()),
    {
        if local.buffers.len() == 0 {
            self.refill(local);
        }
        match local.buffers.pop() {
            Some(buffer) => {
                self.hits = self.hits.wrapping_add(1);
                assert(buffer@ =~= Seq::<u8>::empty());
                PooledBuffer { buffer }
            },
            None => {
                self.allocations = self.allocations.wrapping_add(1);
                PooledBuffer { buffer: Vec::with_capacity(self.buffer_size) }
            },
        }
    }

    fn refill(&mut self, local: &mut LocalPool)
        requires
            old(local).count() == 0,
        ensures
            final(local).wf(),
            final(local).count() == old(self)@.batch(),
            final(self)@ == (PoolState {
                queue: old(self)@.queue.skip(old(self)@.batch() as int),
                ..old(self)@
            }),
    {
        let ghost all = queued(self.buffers);
        assert(all.skip(0) =~= all);
        let mut i: usize = 0;
        while i < BATCH_SIZE
            invariant
                i <= BATCH_SIZE,
                i <= all.len(),
                all == old(self)@.queue,
                local.buffers@.len() == i,
                forall|k: int| 0 <= k < i ==> (#[trigger] local.buffers@[k])@.len() == 0,
                queued(self.buffers) == all.skip(i as int),
                queue_limit(self.buffers) == old(self)@.limit,
                self.buffer_size == old(self)@.buffer_size,
                self.allocations == old(self)@.allocations,
                self.hits == old(self)@.hits,
            decreases BATCH_SIZE - i,
        {
            match queue_pop(&mut self.buffers) {
                Some(buffer) => {
                    let mut buffer = buffer;
                    buffer.clear();
                    local.buffers.push(buffer);
                    assert(all.skip(i as int).skip(1) =~= all.skip(i + 1));
                },
                None => {
                    assert(i == all.len());
                    return ;
                },
            }
            i += 1;
        }
    }

    /// Take a buffer back into the thread's pool.
    pub fn return_buffer(&mut self, local: &mut LocalPool, b: PooledBuffer)
        requires
            old(local).wf(),
        ensures
            final(local).wf(),
            final(local).count() == old(self)@.local_after_return(old(local).count()),
            final(self)@ == old(self)@.returned(old(local).count()),
    {
        let mut buffer = b.buffer;
        buffer.clear();
        if local.buffers.len() < MAX_LOCAL_BUFFERS {
            local.buffers.push(buffer);
            return ;
        }
        let ghost before = queued(self.buffers);
        let ghost room = if before.len() <= queue_limit(self.buffers) {
            (queue_limit(self.buffers) - before.len()) as nat
        } else {
            0
        };
        assert(copies(Seq::empty(), smaller(0, room)) =~= Seq::<Seq<u8>>::empty());
        assert(before + Seq::<Seq<u8>>::empty() =~= before);
        let half: usize = MAX_LOCAL_BUFFERS / 2;
        let mut i: usize = 0;
        while i < half
            invariant
                i <= half,
                half == 32,
                local.buffers@.len() == 64 - i,
                forall|k: int|
                    0 <= k < local.buffers@.len() ==> (#[trigger] local.buffers@[k])@.len() == 0,
                before == old(self)@.queue,
                before.len() <= old(self)@.limit ==> before.len() + room == old(self)@.limit,
                before.len() > old(self)@.limit ==> room == 0,
                queued(self.buffers) == before + copies(Seq::empty(), smaller(i as nat, room)),
                queue_limit(self.buffers) == old(self)@.limit,
                self.buffer_size == old(self)@.buffer_size,
                self.allocations == old(self)@.allocations,
                self.hits == old(self)@.hits,
            decreases half - i,
        {
            if let Some(spare) = local.buffers.pop() {
                assert(spare@ =~= Seq::<u8>::empty());
                queue_push(&mut self.buffers, spare);
            }
            i += 1;
            assert(queued(self.buffers) =~= before + copies(
                Seq::empty(),
                smaller(i as nat, room),
            ));
        }
        local.buffers.push(buffer);
    }

    /// The statistics.
    pub fn stats(&self) -> (s: PoolStats)
        ensures
            s.allocations == self@.allocations,
            s.hits == self@.hits,
            s.pool_size == self@.queue.len(),
    {
        PoolStats {
            allocations: self.allocations,
            hits: self.hits,
            pool_size: queue_len(&self.buffers),
        }
    }
}

/// A buffer that was taken back is handed out again without an allocation.
pub proof fn law_returned_buffer_is_reused(s: PoolState, local: nat)
    ensures
        s.local_after_return(local) > 0,
        s.returned(local).acquired(s.local_after_return(local)).allocations == s.allocations,
{
}

/// The queue keeps its limit, and so does the pool of a thread.
pub proof fn law_pools_are_bounded(s: PoolState, local: nat)
    requires
        s.queue.len() <= s.limit,
        local <= MAX_LOCAL_BUFFERS,
    ensures
        s.acquired(local).queue.len() <= s.limit,
        s.returned(local).queue.len() <= s.limit,
        s.local_after_acquire(local) <= MAX_LOCAL_BUFFERS,
        s.local_after_return(local) <= MAX_LOCAL_BUFFERS,
{
}

/// No buffer gets lost as long as the queue has room: handing one out takes at most one
/// from the pools, and taking one back adds one.
pub proof fn law_buffers_are_kept(s: PoolState, local: nat)
    requires
        s.queue.len() + MAX_LOCAL_BUFFERS <= s.limit,
        local <= MAX_LOCAL_BUFFERS,
    ensures
        s.returned(local).queue.len() + s.local_after_return(local) == s.queue.len() + local + 1,
        s.queue.len() + local > 0 ==> s.acquired(local).queue.len() + s.local_after_acquire(local)
            + 1 == s.queue.len() + local,
{
}

/// How buffers move, in numbers. A thread that has buffers is served from them; one that has none takes up to
/// 32 from the queue and keeps all but the one it hands out; only where the queue is empty too is a buffer made.
/// A thread that has 64 gives 32 of them to the queue before it takes one back.
pub proof fn law_buffers_move_in_batches(s: PoolState, local: nat)
    requires
        s.hits < usize::MAX,
        s.allocations < usize::MAX,
        local <= 64,
        s.queue.len() <= s.limit,
    ensures
        local > 0 ==> s.local_after_acquire(local) == local - 1 && s.acquired(local).queue == s.queue
            && s.acquired(local).hits == s.hits + 1 && s.acquired(local).allocations == s.allocations,
        local == 0 && s.queue.len() >= 32 ==> s.local_after_acquire(local) == 31 && s.acquired(
            local,
        ).queue == s.queue.skip(32) && s.acquired(local).hits == s.hits + 1 && s.acquired(
            local,
        ).allocations == s.allocations,
        local == 0 && 0 < s.queue.len() < 32 ==> s.local_after_acquire(local) == s.queue.len() - 1
            && s.acquired(local).queue.len() == 0 && s.acquired(local).hits == s.hits + 1,
        local == 0 && s.queue.len() == 0 ==> s.local_after_acquire(local) == 0 && s.acquired(
            local,
        ).allocations == s.allocations + 1 && s.acquired(local).hits == s.hits,
        local < 64 ==> s.local_after_return(local) == local + 1 && s.returned(local) == s,
        local == 64 ==> s.local_after_return(local) == 33 && s.returned(local).queue.len() == (
        if s.queue.len() + 32 <= s.limit {
            s.queue.len() + 32
        } else {
            s.limit
        }),
        s.acquired(local).buffer_size == s.buffer_size,
        s.acquired(local).limit == s.limit,
{
}

} // verus!
