//! The schedule of a pool of workers: which connection waits, which worker
//! serves which, and how many have been served.
//!
//! The threads are the caller's. The schedule holds the decisions: a
//! connection that is accepted gets a ticket and waits in a queue; a worker
//! that is free takes the ticket that has waited longest; a worker that is
//! done gives its ticket back. The caller keeps the streams by ticket.

use std::collections::VecDeque;
use vstd::prelude::*;

verus! {

/// What a free worker is to do.
#[derive(Clone, Copy, Debug, PartialEq, Eq, Structural)]
pub enum Assignment {
    /// Serve the connection with this ticket.
    Run(u64),
    /// Nothing waits: sleep until something is submitted.
    Wait,
    /// Nothing waits and nothing more will come: end.
    Exit,
}

/// The schedule of a pool of a fixed number of workers.
#[derive(Debug)]
pub struct Scheduler {
    queue: VecDeque<u64>,
    running: Vec<Option<u64>>,
    accepted: u64,
    completed: u64,
    closing: bool,
}

/// The mathematical value of a `Scheduler`.
pub struct SchedulerView {
    /// The tickets that wait, the one that has waited longest first.
    pub queue: Seq<u64>,
    /// For each worker the ticket that it serves, if any.
    pub running: Seq<Option<u64>>,
    /// How many tickets have been given out.
    pub accepted: nat,
    /// How many tickets have been given back.
    pub completed: nat,
    /// No more tickets are given out.
    pub closing: bool,
}

/// How many workers serve a ticket.
pub open spec fn count_busy(running: Seq<Option<u64>>) -> nat
    decreases running.len(),
{
    if running.len() == 0 {
        0
    } else if running.last() is Some {
        count_busy(running.drop_last()) + 1
    } else {
        count_busy(running.drop_last())
    }
}

impl SchedulerView {
    /// The schedule keeps what it has taken on.
    ///
    /// There is at least one worker. Every ticket given out has been given
    /// back, waits, or is being served, and is in one place only: the queue
    /// holds tickets in the order in which they were given out, those being
    /// served were given out before any that waits, and no two workers serve
    /// the same.
    pub open spec fn well_formed(self) -> bool {
        &&& self.running.len() > 0
        &&& self.accepted == self.completed + self.queue.len() + count_busy(self.running)
        &&& forall|i: int| 0 <= i < self.queue.len() ==> #[trigger] self.queue[i] < self.accepted
        &&& forall|i: int, j: int|
            0 <= i < j < self.queue.len() ==> #[trigger] self.queue[i] < #[trigger] self.queue[j]
        &&& forall|w: int|
            0 <= w < self.running.len() && (#[trigger] self.running[w]) is Some
                ==> self.running[w]->0 < self.accepted
        &&& forall|w: int, i: int|
            0 <= w < self.running.len() && (#[trigger] self.running[w]) is Some && 0 <= i
                < self.queue.len() ==> self.running[w]->0 < #[trigger] self.queue[i]
        &&& forall|v: int, w: int|
            0 <= v < w < self.running.len() && (#[trigger] self.running[v]) is Some && (
            #[trigger] self.running[w]) is Some ==> self.running[v]->0 != self.running[w]->0
    }

    /// Nothing waits and no worker serves anything.
    pub open spec fn is_idle(self) -> bool {
        self.queue.len() == 0 && count_busy(self.running) == 0
    }
}

/// The schedule after a connection has been accepted.
pub open spec fn submitted(s: SchedulerView) -> SchedulerView {
    SchedulerView { queue: s.queue.push(s.accepted as u64), accepted: s.accepted + 1, ..s }
}

/// The schedule after the free worker `w` has taken the ticket that has
/// waited longest.
pub open spec fn taken(s: SchedulerView, w: int) -> SchedulerView {
    SchedulerView { queue: s.queue.skip(1), running: s.running.update(w, Some(s.queue[0])), ..s }
}

/// The schedule after the worker `w` has given its ticket back.
pub open spec fn finished(s: SchedulerView, w: int) -> SchedulerView {
    SchedulerView { running: s.running.update(w, None), completed: s.completed + 1, ..s }
}

/// The worker `w` is free and a ticket waits for it.
pub open spec fn can_take(s: SchedulerView, w: int) -> bool {
    0 <= w < s.running.len() && s.running[w] is None && s.queue.len() > 0
}

/// The worker `w` serves a ticket, which it can give back.
pub open spec fn can_finish(s: SchedulerView, w: int) -> bool {
    0 <= w < s.running.len() && s.running[w] is Some
}

/// The worker `w` has something to do next.
pub open spec fn can_step(s: SchedulerView, w: int) -> bool {
    can_take(s, w) || can_finish(s, w)
}

/// The work that is left: each ticket that waits is still to be taken and
/// to be given back, each that is being served is still to be given back.
pub open spec fn work_left(s: SchedulerView) -> nat {
    2 * s.queue.len() + count_busy(s.running)
}

/// Giving one worker something else to do changes the number of busy
/// workers by what that worker did and does.
pub proof fn lemma_count_busy_update(running: Seq<Option<u64>>, w: int, task: Option<u64>)
    requires
        0 <= w < running.len(),
    ensures
        count_busy(running.update(w, task)) + (if running[w] is Some {
            1nat
        } else {
            0nat
        }) == count_busy(running) + (if task is Some {
            1nat
        } else {
            0nat
        }),
    decreases running.len(),
{
    let after = running.update(w, task);
    if w == running.len() - 1 {
        assert(after.drop_last() =~= running.drop_last());
    } else {
        assert(after.drop_last() =~= running.drop_last().update(w, task));
        lemma_count_busy_update(running.drop_last(), w, task);
    }
}

/// Where no worker serves anything, none is counted as busy.
pub proof fn lemma_count_busy_none(running: Seq<Option<u64>>)
    requires
        forall|w: int| 0 <= w < running.len() ==> (#[trigger] running[w]) is None,
    ensures
        count_busy(running) == 0,
    decreases running.len(),
{
    if running.len() > 0 {
        lemma_count_busy_none(running.drop_last());
    }
}

/// A busy worker is counted.
pub proof fn lemma_count_busy_some(running: Seq<Option<u64>>, w: int)
    requires
        0 <= w < running.len(),
        running[w] is Some,
    ensures
        count_busy(running) > 0,
    decreases running.len(),
{
    if w < running.len() - 1 {
        lemma_count_busy_some(running.drop_last(), w);
    }
}

/// Accepting a connection keeps the schedule well formed.
pub proof fn lemma_submitted_well_formed(s: SchedulerView)
    requires
        s.well_formed(),
        s.accepted < u64::MAX,
    ensures
        submitted(s).well_formed(),
{
}

/// A take keeps the schedule well formed.
pub proof fn lemma_taken_well_formed(s: SchedulerView, w: int)
    requires
        s.well_formed(),
        can_take(s, w),
    ensures
        taken(s, w).well_formed(),
{
    let after = taken(s, w);
    lemma_count_busy_update(s.running, w, Some(s.queue[0]));
    assert forall|i: int| 0 <= i < after.queue.len() implies after.queue[i] == s.queue[i + 1] by {}
    assert forall|v: int| 0 <= v < after.running.len() && v != w implies after.running[v]
        == s.running[v] by {}
}

/// A return keeps the schedule well formed.
pub proof fn lemma_finished_well_formed(s: SchedulerView, w: int)
    requires
        s.well_formed(),
        can_finish(s, w),
    ensures
        finished(s, w).well_formed(),
{
    let after = finished(s, w);
    lemma_count_busy_update(s.running, w, None);
    assert forall|v: int| 0 <= v < after.running.len() && v != w implies after.running[v]
        == s.running[v] by {}
}

/// Where some worker is counted as busy, one serves a ticket.
pub proof fn lemma_busy_worker_exists(running: Seq<Option<u64>>) -> (w: int)
    requires
        count_busy(running) > 0,
    ensures
        0 <= w < running.len(),
        running[w] is Some,
    decreases running.len(),
{
    if running.last() is Some {
        running.len() - 1
    } else {
        lemma_busy_worker_exists(running.drop_last())
    }
}

/// Every take and every return leaves less work: a pool whose workers keep
/// taking and giving back runs out of work after as many steps as
/// `work_left` says.
pub proof fn lemma_work_left_shrinks(s: SchedulerView, w: int)
    requires
        s.well_formed(),
    ensures
        can_take(s, w) ==> work_left(taken(s, w)) == work_left(s) - 1,
        can_finish(s, w) ==> work_left(finished(s, w)) == work_left(s) - 1,
{
    if can_take(s, w) {
        lemma_count_busy_update(s.running, w, Some(s.queue[0]));
    }
    if can_finish(s, w) {
        lemma_count_busy_update(s.running, w, None);
    }
}

/// A pool with work left is never stuck: some worker can give its ticket
/// back or can take one.
pub proof fn lemma_never_stuck(s: SchedulerView)
    requires
        s.well_formed(),
        !s.is_idle(),
    ensures
        exists|w: int| can_step(s, w),
{
    if count_busy(s.running) > 0 {
        let w = lemma_busy_worker_exists(s.running);
        assert(can_step(s, w));
    } else {
        assert(can_step(s, 0));
    }
}

/// No work is left exactly when the pool is idle.
pub proof fn lemma_no_work_left_is_idle(s: SchedulerView)
    ensures
        work_left(s) == 0 <==> s.is_idle(),
{
}

/// When the pool is idle, every connection that was accepted has been
/// served: none was dropped on the way.
pub proof fn lemma_idle_means_all_served(s: SchedulerView)
    requires
        s.well_formed(),
        s.is_idle(),
    ensures
        s.completed == s.accepted,
{
}

impl View for Scheduler {
    type V = SchedulerView;

    closed spec fn view(&self) -> SchedulerView {
        SchedulerView {
            queue: self.queue@,
            running: self.running@,
            accepted: self.accepted as nat,
            completed: self.completed as nat,
            closing: self.closing,
        }
    }
}

impl Scheduler {
    /// The schedule of a pool of `size` workers, all free, with nothing to
    /// do yet.
    pub fn new(size: usize) -> (s: Scheduler)
        requires
            size > 0,
        ensures
            s@.well_formed(),
            s@.queue.len() == 0,
            s@.running.len() == size,
            forall|w: int| 0 <= w < size ==> (#[trigger] s@.running[w]) is None,
            s@.accepted == 0,
            s@.completed == 0,
            !s@.closing,
    {
        let mut running: Vec<Option<u64>> = Vec::new();
        while running.len() < size
            invariant
                running.len() <= size,
                forall|w: int| 0 <= w < running.len() ==> (#[trigger] running@[w]) is None,
            decreases size - running.len(),
        {
            running.push(None);
        }
        proof {
            lemma_count_busy_none(running@);
        }
        Scheduler { queue: VecDeque::new(), running, accepted: 0, completed: 0, closing: false }
    }

    /// The number of workers.
    pub fn size(&self) -> (n: usize)
        ensures
            n == self@.running.len(),
    {
        self.running.len()
    }

    /// How many tickets wait.
    pub fn queued(&self) -> (n: usize)
        ensures
            n == self@.queue.len(),
    {
        self.queue.len()
    }

    /// How many tickets have been given out.
    pub fn accepted(&self) -> (n: u64)
        ensures
            n == self@.accepted,
    {
        self.accepted
    }

    /// How many tickets have been given back.
    pub fn completed(&self) -> (n: u64)
        ensures
            n == self@.completed,
    {
        self.completed
    }

    /// Whether tickets are no longer given out.
    pub fn is_closing(&self) -> (b: bool)
        ensures
            b == self@.closing,
    {
        self.closing
    }

    /// The ticket that the worker serves, if it serves one. A number that
    /// names no worker serves nothing.
    pub fn serving(&self, worker: usize) -> (task: Option<u64>)
        ensures
            task == if worker < self@.running.len() {
                self@.running[worker as int]
            } else {
                None
            },
    {
        if worker < self.running.len() {
            self.running[worker]
        } else {
            None
        }
    }

    /// Accepts a connection: gives out the next ticket and lets it wait
    /// behind all that wait already. After `shut_down`, and once every
    /// ticket number has been used, nothing is accepted and nothing changes.
    pub fn submit(&mut self) -> (ticket: Option<u64>)
        requires
            old(self)@.well_formed(),
        ensures
            final(self)@.well_formed(),
            ticket is Some <==> !old(self)@.closing && old(self)@.accepted < u64::MAX,
            match ticket {
                Some(t) => t == old(self)@.accepted && final(self)@ == submitted(old(self)@),
                None => final(self)@ == old(self)@,
            },
    {
        if self.closing || self.accepted == u64::MAX {
            return None;
        }
        proof {
            lemma_submitted_well_formed(self@);
        }
        let ticket = self.accepted;
        self.queue.push_back(ticket);
        self.accepted = ticket + 1;
        Some(ticket)
    }

    /// Says what the free worker is to do: serve the ticket that has waited
    /// longest, wait where none waits, or end where none waits and none will
    /// come.
    pub fn take(&mut self, worker: usize) -> (a: Assignment)
        requires
            old(self)@.well_formed(),
            worker < old(self)@.running.len(),
            old(self)@.running[worker as int] is None,
        ensures
            final(self)@.well_formed(),
            a == if old(self)@.queue.len() > 0 {
                Assignment::Run(old(self)@.queue[0])
            } else if old(self)@.closing {
                Assignment::Exit
            } else {
                Assignment::Wait
            },
            final(self)@ == if old(self)@.queue.len() > 0 {
                taken(old(self)@, worker as int)
            } else {
                old(self)@
            },
    {
        match self.queue.pop_front() {
            Some(ticket) => {
                proof {
                    lemma_taken_well_formed(old(self)@, worker as int);
                    assert(self.queue@ =~= old(self)@.queue.skip(1));
                }
                self.running[worker] = Some(ticket);
                Assignment::Run(ticket)
            },
            None => {
                assert(self.queue@ =~= old(self)@.queue);
                if self.closing {
                    Assignment::Exit
                } else {
                    Assignment::Wait
                }
            },
        }
    }

    /// Takes back the ticket of a worker that is done: the worker is free
    /// again, and one more connection has been served.
    pub fn finish(&mut self, worker: usize)
        requires
            old(self)@.well_formed(),
            worker < old(self)@.running.len(),
            old(self)@.running[worker as int] is Some,
        ensures
            final(self)@.well_formed(),
            final(self)@ == finished(old(self)@, worker as int),
    {
        proof {
            lemma_finished_well_formed(self@, worker as int);
        }
        self.running[worker] = None;
        self.completed = self.completed + 1;
    }

    /// Begins the shutdown: no ticket is given out any more. What waits is
    /// still served, and a worker ends only when nothing waits.
    pub fn shut_down(&mut self)
        requires
            old(self)@.well_formed(),
        ensures
            final(self)@.well_formed(),
            final(self)@ == (SchedulerView { closing: true, ..old(self)@ }),
    {
        self.closing = true;
    }

    /// Whether nothing waits and no worker serves anything.
    pub fn is_idle(&self) -> (b: bool)
        requires
            self@.well_formed(),
        ensures
            b == self@.is_idle(),
    {
        if self.queue.len() > 0 {
            return false;
        }
        let mut w: usize = 0;
        while w < self.running.len()
            invariant
                w <= self.running.len(),
                forall|v: int| 0 <= v < w ==> (#[trigger] self.running@[v]) is None,
            decreases self.running.len() - w,
        {
            if self.running[w].is_some() {
                proof {
                    lemma_count_busy_some(self.running@, w as int);
                }
                return false;
            }
            w += 1;
        }
        proof {
            lemma_count_busy_none(self.running@);
        }
        true
    }
}

} // verus!
