//! A fixed set of workers that share a bounded queue of tasks.
use vstd::prelude::*;

verus! {

#[verifier::external_type_specification]
#[verifier::external_body]
#[verifier::reject_recursive_types(T)]
pub struct ExArrayQueue<T>(crossbeam_queue::ArrayQueue<T>);

/// The tasks that a queue holds, oldest first.
pub uninterp spec fn queued_tasks(q: crossbeam_queue::ArrayQueue<Task>) -> Seq<Task>;

/// The capacity that a queue was made with.
pub uninterp spec fn queue_capacity(q: crossbeam_queue::ArrayQueue<Task>) -> nat;

/// `ArrayQueue::new(cap)`: an empty queue that holds up to `cap` tasks (it
/// panics on 0, which `requires` leaves out).
#[verifier::external_body]
fn new_task_queue(cap: usize) -> (q: crossbeam_queue::ArrayQueue<Task>)
    requires
        0 < cap <= 0x1_0000,
    ensures
        queued_tasks(q) == Seq::<Task>::empty(),
        queue_capacity(q) == cap,
{
    crossbeam_queue::ArrayQueue::new(cap)
}

/// `ArrayQueue::push`: appends the task when the queue holds fewer than its
/// capacity, and hands it back otherwise. The queue is held by one owner, so
/// nothing else changes it between the calls.
#[verifier::external_body]
fn push_task(q: &mut crossbeam_queue::ArrayQueue<Task>, t: Task) -> (r: Result<(), Task>)
    ensures
        queue_capacity(*final(q)) == queue_capacity(*old(q)),
        queued_tasks(*old(q)).len() < queue_capacity(*old(q)) ==> r is Ok && queued_tasks(*final(q)) == queued_tasks(*old(q)).push(t),
        queued_tasks(*old(q)).len() >= queue_capacity(*old(q)) ==> r is Err && queued_tasks(*final(q)) == queued_tasks(*old(q)),
{
    q.push(t)
}

/// `ArrayQueue::len`: the number of tasks held.
#[verifier::external_body]
fn queue_len(q: &crossbeam_queue::ArrayQueue<Task>) -> (n: usize)
    ensures
        n == queued_tasks(*q).len(),
{
    q.len()
}

/// `ArrayQueue::capacity`.
#[verifier::external_body]
fn queue_cap(q: &crossbeam_queue::ArrayQueue<Task>) -> (n: usize)
    ensures
        n == queue_capacity(*q),
{
    q.capacity()
}

/// A unit of work handed to the pool. The future it was made from is not
/// kept.
#[derive(Debug)]
pub struct Task;

impl Task {
    pub fn new<F>(_future: F) -> (t: Task)
        ensures
            t == Task,
    {
        Task
    }
}

/// A worker of the pool.
pub struct Worker;

impl Worker {
    fn new(_id: usize) -> Worker {
        Worker
    }
}

/// The number of tasks that the queue of a pool holds at most.
pub const TASK_QUEUE_CAPACITY: usize = 10_000;

pub struct ThreadPool {
    workers: Vec<Worker>,
    task_queue: crossbeam_queue::ArrayQueue<Task>,
}

impl ThreadPool {
    /// The number of workers.
    pub closed spec fn worker_count(&self) -> nat {
        self.workers@.len()
    }

    /// The tasks waiting, oldest first.
    pub closed spec fn pending(&self) -> Seq<Task> {
        queued_tasks(self.task_queue)
    }

    pub closed spec fn capacity(&self) -> nat {
        queue_capacity(self.task_queue)
    }

    /// A pool of `size` workers with an empty queue of room 10000.
    pub fn new(size: usize) -> (p: ThreadPool)
        ensures
            p.worker_count() == size,
            p.pending() == Seq::<Task>::empty(),
            p.capacity() == TASK_QUEUE_CAPACITY,
    {
        let task_queue = new_task_queue(TASK_QUEUE_CAPACITY);
        let mut workers: Vec<Worker> = Vec::new();
        let mut id: usize = 0;
        while id < size
            invariant
                id <= size,
                workers@.len() == id,
            decreases size - id,
        {
            workers.push(Worker::new(id));
            id = id + 1;
        }
        ThreadPool { workers, task_queue }
    }

    /// Whether one more task fits in the queue.
    pub fn has_room(&self) -> (b: bool)
        ensures
            b == (self.pending().len() < self.capacity()),
    {
        queue_len(&self.task_queue) < queue_cap(&self.task_queue)
    }

    /// Queues a task for `future`; a full queue is a panic ("queue full"),
    /// which `requires` leaves out.
    pub fn spawn<F>(&mut self, future: F)
        requires
            old(self).pending().len() < old(self).capacity(),
        ensures
            final(self).pending() == old(self).pending().push(Task),
            final(self).capacity() == old(self).capacity(),
            final(self).worker_count() == old(self).worker_count(),
    {
        let task = Task::new(future);
        let r = push_task(&mut self.task_queue, task);
    }
}

/// A pool takes 10000 tasks: from a pool as `new` makes it (empty queue of
/// room `TASK_QUEUE_CAPACITY`), after `k` spawns `k` tasks wait, and there
/// is room for another exactly while `k` is below 10000 (`spawn` refuses a
/// full queue through its `requires`, where the pool panics with "queue
/// full"). `pools` are the pool before and after each spawn.
pub proof fn lemma_queue_takes_capacity(pools: Seq<ThreadPool>)
    requires
        pools.len() >= 1,
        pools[0].pending() == Seq::<Task>::empty(),
        pools[0].capacity() == TASK_QUEUE_CAPACITY,
        forall|i: int| 0 <= i < pools.len() - 1 ==> {
            &&& (#[trigger] pools[i + 1]).pending() == pools[i].pending().push(Task)
            &&& pools[i + 1].capacity() == pools[i].capacity()
        },
    ensures
        forall|k: int| 0 <= k < pools.len() ==> {
            &&& (#[trigger] pools[k]).pending().len() == k
            &&& (pools[k].pending().len() < pools[k].capacity()) == (k < TASK_QUEUE_CAPACITY)
        },
    decreases pools.len(),
{
    if pools.len() > 1 {
        let p2 = pools.drop_last();
        assert forall|i: int| 0 <= i < p2.len() - 1 implies {
            &&& (#[trigger] p2[i + 1]).pending() == p2[i].pending().push(Task)
            &&& p2[i + 1].capacity() == p2[i].capacity()
        } by {
            assert(pools[i + 1] == p2[i + 1]);
        }
        lemma_queue_takes_capacity(p2);
        let n = pools.len() - 1;
        let m = n - 1;
        assert(p2[m] == pools[m]);
        assert(pools[m + 1].pending() == pools[m].pending().push(Task));
        assert forall|k: int| 0 <= k < pools.len() implies {
            &&& (#[trigger] pools[k]).pending().len() == k
            &&& (pools[k].pending().len() < pools[k].capacity()) == (k < TASK_QUEUE_CAPACITY)
        } by {
            if k < n {
                assert(p2[k] == pools[k]);
            }
            lemma_capacity_kept(pools, k);
        }
    }
}

/// The room of the queue stays what it was made with.
proof fn lemma_capacity_kept(pools: Seq<ThreadPool>, k: int)
    requires
        0 <= k < pools.len(),
        forall|i: int| 0 <= i < pools.len() - 1 ==> {
            &&& (#[trigger] pools[i + 1]).pending() == pools[i].pending().push(Task)
            &&& pools[i + 1].capacity() == pools[i].capacity()
        },
    ensures
        pools[k].capacity() == pools[0].capacity(),
    decreases k,
{
    if k > 0 {
        let j = k - 1;
        lemma_capacity_kept(pools, j);
        assert(pools[j + 1].capacity() == pools[j].capacity());
    }
}

} // verus!
