//! Green threads and the round-robin scheduler that switches between them.
//!
//! A thread is known to the scheduler by its id and by the identity (an
//! address-like key) of the `java.lang.Thread` object it runs; the interpreter
//! keeps each thread's frames beside it, keyed by the same id.

use vstd::prelude::*;
use crate::text::{nat_text, push_char, push_nat_text};

verus! {

pub type ThreadId = u64;

/// The execution state of a green thread.
#[derive(Debug, Clone, Copy, PartialEq, Eq, Structural)]
pub enum ThreadState {
    /// Ready to run (or currently running).
    Runnable,
    /// Blocked waiting to acquire the monitor of the given object.
    WaitingOnMonitor(usize),
    /// Waiting in `Object.wait()` on the given object.
    WaitingOnCondition(usize),
    /// Waiting for another thread to terminate (`Thread.join`).
    Joining(ThreadId),
    /// Sleeping (`Thread.sleep`).
    Sleeping,
    /// `Thread.yield()` asked for a voluntary context switch.
    Yielded,
    /// `run()` returned or threw.
    Terminated,
}

/// Scheduling state of one green thread.
#[derive(Debug, Clone, Copy, PartialEq, Eq, Structural)]
pub struct ThreadContext {
    pub id: ThreadId,
    pub state: ThreadState,
    /// Identity of the `java.lang.Thread` object this thread runs, if any.
    pub thread_object: Option<usize>,
    /// Number of instructions executed in the current time slice.
    pub instruction_count: usize,
    /// Reentrant monitor count saved by `Object.wait()`, restored after notify.
    pub saved_monitor_count: usize,
}

/// A fresh runnable thread with the given id.
pub open spec fn fresh_thread(id: ThreadId, thread_object: Option<usize>) -> ThreadContext {
    ThreadContext {
        id,
        state: ThreadState::Runnable,
        thread_object,
        instruction_count: 0,
        saved_monitor_count: 0,
    }
}

impl ThreadContext {
    fn new(id: ThreadId) -> (t: ThreadContext)
        ensures
            t == fresh_thread(id, None),
    {
        ThreadContext {
            id,
            state: ThreadState::Runnable,
            thread_object: None,
            instruction_count: 0,
            saved_monitor_count: 0,
        }
    }
}

/// Threads are kept in creation order: ids strictly increase, the main
/// thread (id 0) comes first, and every id is below the next one to hand out.
pub open spec fn ids_ordered(ts: Seq<ThreadContext>, next_id: u64) -> bool {
    &&& ts.len() > 0
    &&& ts[0].id == 0
    &&& forall|i: int, j: int| 0 <= i < j < ts.len() ==> #[trigger] ts[i].id < #[trigger] ts[j].id
    &&& forall|i: int| 0 <= i < ts.len() ==> #[trigger] ts[i].id < next_id
}

/// Whether some thread has the given id.
pub open spec fn has_thread(ts: Seq<ThreadContext>, id: ThreadId) -> bool {
    exists|i: int| 0 <= i < ts.len() && #[trigger] ts[i].id == id
}

/// The position of the thread with the given id.
pub open spec fn thread_index(ts: Seq<ThreadContext>, id: ThreadId) -> int {
    choose|i: int| 0 <= i < ts.len() && #[trigger] ts[i].id == id
}

/// Whether the thread with the given id has terminated.
pub open spec fn terminated_id(ts: Seq<ThreadContext>, id: ThreadId) -> bool {
    exists|j: int| 0 <= j < ts.len() && #[trigger] ts[j].id == id && ts[j].state == ThreadState::Terminated
}

/// The thread `t` after the joiners whose target has terminated are woken.
pub open spec fn woken(ts: Seq<ThreadContext>, t: ThreadContext) -> ThreadContext {
    match t.state {
        ThreadState::Joining(target) => if terminated_id(ts, target) {
            ThreadContext { state: ThreadState::Runnable, ..t }
        } else {
            t
        },
        _ => t,
    }
}

/// Every thread after one pass of waking joiners.
pub open spec fn wake_all(ts: Seq<ThreadContext>) -> Seq<ThreadContext> {
    Seq::new(ts.len(), |i: int| woken(ts, ts[i]))
}

/// The position reached `k` steps after `cur` in a ring of `n` positions
/// (`0 < k <= n`, `cur < n`).
pub open spec fn ring_step(cur: int, k: int, n: int) -> int {
    if cur + k < n {
        cur + k
    } else {
        cur + k - n
    }
}

pub open spec fn runnable_at(ts: Seq<ThreadContext>, i: int) -> bool {
    ts[i].state == ThreadState::Runnable
}

/// The position of the first runnable thread at least `k` steps after `cur`
/// going round the ring (up to `cur` itself, reached last).
pub open spec fn first_runnable_from(ts: Seq<ThreadContext>, cur: int, k: int) -> Option<int>
    decreases ts.len() + 1 - k,
{
    if k < 1 || k > ts.len() {
        None
    } else if runnable_at(ts, ring_step(cur, k, ts.len() as int)) {
        Some(ring_step(cur, k, ts.len() as int))
    } else {
        first_runnable_from(ts, cur, k + 1)
    }
}

/// The runnable thread that round-robin scheduling picks after `cur`.
pub open spec fn next_runnable(ts: Seq<ThreadContext>, cur: int) -> Option<int> {
    first_runnable_from(ts, cur, 1)
}

/// Number of runnable threads.
pub open spec fn count_runnable(ts: Seq<ThreadContext>) -> nat
    decreases ts.len(),
{
    if ts.len() == 0 {
        0
    } else {
        count_runnable(ts.drop_last()) + if ts.last().state == ThreadState::Runnable {
            1nat
        } else {
            0nat
        }
    }
}

/// `Debug` rendering of a thread state.
pub open spec fn state_text(s: ThreadState) -> Seq<char> {
    match s {
        ThreadState::Runnable => "Runnable"@,
        ThreadState::WaitingOnMonitor(o) => "WaitingOnMonitor("@ + nat_text(o as nat) + ")"@,
        ThreadState::WaitingOnCondition(o) => "WaitingOnCondition("@ + nat_text(o as nat) + ")"@,
        ThreadState::Joining(t) => "Joining("@ + nat_text(t as nat) + ")"@,
        ThreadState::Sleeping => "Sleeping"@,
        ThreadState::Yielded => "Yielded"@,
        ThreadState::Terminated => "Terminated"@,
    }
}

/// `thread <id>=<state>` for one thread.
pub open spec fn thread_entry_text(t: ThreadContext) -> Seq<char> {
    "thread "@ + nat_text(t.id as nat) + "="@ + state_text(t.state)
}

/// The entries of the threads that have not terminated, joined by `, `.
pub open spec fn summary_text(ts: Seq<ThreadContext>) -> Seq<char>
    decreases ts.len(),
{
    if ts.len() == 0 {
        Seq::empty()
    } else {
        let prev = summary_text(ts.drop_last());
        let t = ts.last();
        if t.state == ThreadState::Terminated {
            prev
        } else if prev.len() == 0 {
            thread_entry_text(t)
        } else {
            prev + ", "@ + thread_entry_text(t)
        }
    }
}

/// Round-robin scheduler managing all green threads.
pub struct Scheduler {
    threads: Vec<ThreadContext>,
    current_thread_idx: usize,
    next_thread_id: ThreadId,
}

impl Scheduler {
    /// The threads, in creation order.
    pub closed spec fn threads(&self) -> Seq<ThreadContext> {
        self.threads@
    }

    /// Position of the running thread in `threads()`.
    pub closed spec fn current_index(&self) -> int {
        self.current_thread_idx as int
    }

    /// The id the next spawned thread gets.
    pub closed spec fn next_id(&self) -> u64 {
        self.next_thread_id
    }

    pub open spec fn wf(&self) -> bool {
        &&& ids_ordered(self.threads(), self.next_id())
        &&& 0 <= self.current_index() < self.threads().len()
    }

    /// The running thread.
    pub open spec fn current(&self) -> ThreadContext {
        self.threads()[self.current_index()]
    }

    /// A scheduler with only the main thread (id 0), which is running.
    pub fn new() -> (s: Scheduler)
        ensures
            s.wf(),
            s.threads() == seq![fresh_thread(0, None)],
            s.current_index() == 0,
            s.next_id() == 1,
    {
        let main_thread = ThreadContext::new(0);
        Scheduler { threads: vec![main_thread], current_thread_idx: 0, next_thread_id: 1 }
    }

    /// The running thread, for update.
    pub fn current_thread_mut(&mut self) -> (t: &mut ThreadContext)
        requires
            old(self).wf(),
        ensures
            *t == old(self).current(),
            final(self).threads() == old(self).threads().update(old(self).current_index(), *final(t)),
            final(self).current_index() == old(self).current_index(),
            final(self).next_id() == old(self).next_id(),
    {
        let idx = self.current_thread_idx;
        &mut self.threads[idx]
    }

    /// The running thread.
    pub fn current_thread(&self) -> (t: &ThreadContext)
        requires
            self.wf(),
        ensures
            *t == self.current(),
    {
        &self.threads[self.current_thread_idx]
    }

    /// The thread at position `i`.
    pub fn thread_at(&self, i: usize) -> (t: &ThreadContext)
        requires
            i < self.threads().len(),
        ensures
            *t == self.threads()[i as int],
    {
        &self.threads[i]
    }

    /// Creates a runnable thread for the given `java.lang.Thread` object and
    /// returns its id.
    pub fn spawn(&mut self, thread_object: Option<usize>) -> (id: ThreadId)
        requires
            old(self).wf(),
            old(self).next_id() < u64::MAX,
        ensures
            id == old(self).next_id(),
            final(self).wf(),
            final(self).threads() == old(self).threads().push(fresh_thread(id, thread_object)),
            final(self).current_index() == old(self).current_index(),
            final(self).next_id() == id + 1,
    {
        let id = self.next_thread_id;
        self.next_thread_id = self.next_thread_id + 1;
        let mut ctx = ThreadContext::new(id);
        ctx.thread_object = thread_object;
        self.threads.push(ctx);
        id
    }

    fn position(&self, id: ThreadId) -> (r: Option<usize>)
        requires
            self.wf(),
        ensures
            match r {
                Some(i) => i < self.threads().len() && self.threads()[i as int].id == id
                    && i == thread_index(self.threads(), id) && has_thread(self.threads(), id),
                None => !has_thread(self.threads(), id),
            },
    {
        let mut i: usize = 0;
        while i < self.threads.len()
            invariant
                self.wf(),
                i <= self.threads@.len(),
                forall|j: int| 0 <= j < i ==> #[trigger] self.threads@[j].id != id,
            decreases self.threads@.len() - i,
        {
            if self.threads[i].id == id {
                let ghost k = thread_index(self.threads(), id);
                assert(has_thread(self.threads(), id));
                assert(k == i as int) by {
                    if k < i as int {
                    } else if k > i as int {
                        assert(self.threads@[i as int].id < self.threads@[k].id);
                    }
                }
                return Some(i);
            }
            i = i + 1;
        }
        None
    }

    /// The thread with the given id, for update.
    pub fn thread_mut(&mut self, id: ThreadId) -> (r: Option<&mut ThreadContext>)
        requires
            old(self).wf(),
        ensures
            r is Some <==> has_thread(old(self).threads(), id),
            r is None ==> final(self).threads() == old(self).threads(),
            match r {
                Some(t) => {
                    &&& *t == old(self).threads()[thread_index(old(self).threads(), id)]
                    &&& final(self).threads() == old(self).threads().update(
                        thread_index(old(self).threads(), id),
                        *final(t),
                    )
                },
                None => true,
            },
            final(self).current_index() == old(self).current_index(),
            final(self).next_id() == old(self).next_id(),
    {
        match self.position(id) {
            Some(i) => Some(&mut self.threads[i]),
            None => None,
        }
    }

    /// The thread with the given id.
    pub fn thread(&self, id: ThreadId) -> (r: Option<&ThreadContext>)
        requires
            self.wf(),
        ensures
            r is Some <==> has_thread(self.threads(), id),
            r matches Some(t) ==> *t == self.threads()[thread_index(self.threads(), id)] && t.id == id,
    {
        match self.position(id) {
            Some(i) => Some(&self.threads[i]),
            None => None,
        }
    }

    /// Whether every thread has terminated.
    pub fn all_terminated(&self) -> (r: bool)
        ensures
            r <==> forall|i: int|
                0 <= i < self.threads().len() ==> #[trigger] self.threads()[i].state
                    == ThreadState::Terminated,
    {
        let mut i: usize = 0;
        while i < self.threads.len()
            invariant
                i <= self.threads@.len(),
                forall|j: int| 0 <= j < i ==> #[trigger] self.threads@[j].state == ThreadState::Terminated,
            decreases self.threads@.len() - i,
        {
            if self.threads[i].state != ThreadState::Terminated {
                return false;
            }
            i = i + 1;
        }
        true
    }

    /// Whether every thread other than the main thread (id 0) has terminated.
    pub fn only_main_alive(&self) -> (r: bool)
        ensures
            r <==> forall|i: int|
                0 <= i < self.threads().len() ==> #[trigger] self.threads()[i].id == 0
                    || self.threads()[i].state == ThreadState::Terminated,
    {
        let mut i: usize = 0;
        while i < self.threads.len()
            invariant
                i <= self.threads@.len(),
                forall|j: int|
                    0 <= j < i ==> #[trigger] self.threads@[j].id == 0 || self.threads@[j].state
                        == ThreadState::Terminated,
            decreases self.threads@.len() - i,
        {
            let t = &self.threads[i];
            if t.id != 0 && t.state != ThreadState::Terminated {
                return false;
            }
            i = i + 1;
        }
        true
    }

    /// Switches to the next runnable thread in round-robin order, starting
    /// after the running one (and coming round to it last). Returns whether
    /// one was found; if none was, nothing changes.
    pub fn advance(&mut self) -> (found: bool)
        requires
            old(self).wf(),
        ensures
            final(self).wf(),
            final(self).threads() == old(self).threads(),
            final(self).next_id() == old(self).next_id(),
            found <==> exists|i: int| 0 <= i < old(self).threads().len() && runnable_at(old(self).threads(), i),
            found ==> exists|k: int|
                1 <= k <= old(self).threads().len() && final(self).current_index() == ring_step(
                    old(self).current_index(),
                    k,
                    old(self).threads().len() as int,
                ) && runnable_at(old(self).threads(), final(self).current_index()) && forall|j: int|
                    1 <= j < k ==> !runnable_at(
                        old(self).threads(),
                        #[trigger] ring_step(old(self).current_index(), j, old(self).threads().len() as int),
                    ),
            !found ==> final(self).current_index() == old(self).current_index(),
            found ==> next_runnable(old(self).threads(), old(self).current_index()) == Some(
                final(self).current_index(),
            ),
            !found ==> next_runnable(old(self).threads(), old(self).current_index()) is None,
    {
        let n = self.threads.len();
        let cur = self.current_thread_idx;
        let mut done: usize = 0;
        while done < n
            invariant
                n == self.threads@.len(),
                cur == self.current_thread_idx,
                self.wf(),
                *self == *old(self),
                done <= n,
                forall|j: int|
                    1 <= j <= done ==> !runnable_at(self.threads@, #[trigger] ring_step(cur as int, j, n as int)),
                next_runnable(self.threads@, cur as int) == first_runnable_from(
                    self.threads@,
                    cur as int,
                    done + 1,
                ),
            decreases n - done,
        {
            let i = done + 1;
            let idx = if i < n - cur {
                cur + i
            } else {
                i - (n - cur)
            };
            assert(idx == ring_step(cur as int, i as int, n as int));
            if self.threads[idx].state == ThreadState::Runnable {
                assert(runnable_at(old(self).threads(), idx as int));
                self.current_thread_idx = idx;
                return true;
            }
            done = i;
        }
        proof {
            assert forall|x: int| 0 <= x < n implies !runnable_at(self.threads@, x) by {
                let k = if x > cur { x - cur } else { x - cur + n };
                assert(ring_step(cur as int, k, n as int) == x);
            }
        }
        false
    }

    /// Wakes every thread joining a thread that has terminated.
    pub fn wake_joiners(&mut self)
        requires
            old(self).wf(),
        ensures
            final(self).wf(),
            final(self).threads() == wake_all(old(self).threads()),
            final(self).current_index() == old(self).current_index(),
            final(self).next_id() == old(self).next_id(),
    {
        let ghost ts0 = self.threads@;
        let mut terminated: Vec<ThreadId> = Vec::new();
        let mut i: usize = 0;
        while i < self.threads.len()
            invariant
                self.threads@ == ts0,
                i <= ts0.len(),
                forall|id: ThreadId|
                    terminated@.contains(id) <==> exists|j: int|
                        0 <= j < i && #[trigger] ts0[j].id == id && ts0[j].state == ThreadState::Terminated,
            decreases ts0.len() - i,
        {
            if self.threads[i].state == ThreadState::Terminated {
                let ghost before = terminated@;
                terminated.push(self.threads[i].id);
                proof {
                    assert forall|id: ThreadId|
                        terminated@.contains(id) <==> exists|j: int|
                            0 <= j < i + 1 && #[trigger] ts0[j].id == id && ts0[j].state
                                == ThreadState::Terminated by {
                        if terminated@.contains(id) && id != ts0[i as int].id {
                            let k = choose|k: int| 0 <= k < terminated@.len() && terminated@[k] == id;
                            assert(before[k] == id);
                            assert(before.contains(id));
                        }
                        if exists|j: int|
                            0 <= j < i + 1 && #[trigger] ts0[j].id == id && ts0[j].state
                                == ThreadState::Terminated {
                            if id == ts0[i as int].id {
                                assert(terminated@[before.len() as int] == id);
                            } else {
                                assert(before.contains(id));
                                let k = choose|k: int| 0 <= k < before.len() && before[k] == id;
                                assert(terminated@[k] == id);
                            }
                        }
                    }
                }
            } else {
                assert forall|id: ThreadId|
                    #[trigger] terminated@.contains(id) <==> exists|j: int|
                        0 <= j < i + 1 && #[trigger] ts0[j].id == id && ts0[j].state
                            == ThreadState::Terminated by {
                    if exists|j: int|
                        0 <= j < i + 1 && #[trigger] ts0[j].id == id && ts0[j].state
                            == ThreadState::Terminated {
                        let j = choose|j: int|
                            0 <= j < i + 1 && #[trigger] ts0[j].id == id && ts0[j].state
                                == ThreadState::Terminated;
                        assert(j != i);
                    }
                }
            }
            i = i + 1;
        }
        let mut k: usize = 0;
        while k < self.threads.len()
            invariant
                self.threads@.len() == ts0.len(),
                k <= ts0.len(),
                self.current_thread_idx == old(self).current_thread_idx,
                self.next_thread_id == old(self).next_thread_id,
                forall|id: ThreadId| terminated@.contains(id) <==> terminated_id(ts0, id),
                forall|j: int| 0 <= j < k ==> #[trigger] self.threads@[j] == woken(ts0, ts0[j]),
                forall|j: int| k <= j < ts0.len() ==> #[trigger] self.threads@[j] == ts0[j],
            decreases ts0.len() - k,
        {
            match self.threads[k].state {
                ThreadState::Joining(target_id) => {
                    if contains_id(&terminated, target_id) {
                        self.threads[k].state = ThreadState::Runnable;
                    }
                },
                _ => {},
            }
            k = k + 1;
        }
        assert(self.threads@ == wake_all(ts0));
    }

    /// Number of runnable threads.
    pub fn runnable_count(&self) -> (n: usize)
        ensures
            n == count_runnable(self.threads()),
    {
        let mut n: usize = 0;
        let mut i: usize = 0;
        while i < self.threads.len()
            invariant
                i <= self.threads@.len(),
                n == count_runnable(self.threads@.take(i as int)),
                n <= i,
            decreases self.threads@.len() - i,
        {
            assert(self.threads@.take(i as int + 1).drop_last() == self.threads@.take(i as int));
            if self.threads[i].state == ThreadState::Runnable {
                n = n + 1;
            }
            i = i + 1;
        }
        assert(self.threads@.take(i as int) == self.threads@);
        n
    }

    /// Total number of threads, terminated ones included.
    pub fn thread_count(&self) -> (n: usize)
        ensures
            n == self.threads().len(),
    {
        self.threads.len()
    }

    /// Makes the main thread the running one again.
    pub fn reset_to_main(&mut self)
        requires
            old(self).wf(),
        ensures
            final(self).wf(),
            final(self).current_index() == 0,
            final(self).current().id == 0,
            final(self).threads() == old(self).threads(),
            final(self).next_id() == old(self).next_id(),
    {
        self.current_thread_idx = 0;
    }

    /// The id of the first thread that runs the given `java.lang.Thread`
    /// object.
    pub fn find_thread_id_by_object(&self, thread_obj: usize) -> (r: Option<ThreadId>)
        ensures
            match r {
                Some(id) => exists|i: int|
                    0 <= i < self.threads().len() && #[trigger] self.threads()[i].thread_object
                        == Some(thread_obj) && self.threads()[i].id == id && forall|j: int|
                        0 <= j < i ==> #[trigger] self.threads()[j].thread_object != Some(thread_obj),
                None => forall|i: int|
                    0 <= i < self.threads().len() ==> #[trigger] self.threads()[i].thread_object
                        != Some(thread_obj),
            },
    {
        let mut i: usize = 0;
        while i < self.threads.len()
            invariant
                i <= self.threads@.len(),
                forall|j: int| 0 <= j < i ==> #[trigger] self.threads@[j].thread_object != Some(thread_obj),
            decreases self.threads@.len() - i,
        {
            if let Some(obj) = self.threads[i].thread_object {
                if obj == thread_obj {
                    return Some(self.threads[i].id);
                }
            }
            i = i + 1;
        }
        None
    }

    /// `thread <id>=<state>` for every thread that has not terminated,
    /// joined by `, ` (used in diagnostics).
    pub fn alive_thread_summary(&self) -> (s: String)
        ensures
            s@ == summary_text(self.threads()),
    {
        let mut s = String::new();
        let mut any = false;
        let mut i: usize = 0;
        while i < self.threads.len()
            invariant
                i <= self.threads@.len(),
                s@ == summary_text(self.threads@.take(i as int)),
                any <==> s@.len() > 0,
            decreases self.threads@.len() - i,
        {
            let ghost prefix = self.threads@.take(i as int + 1);
            assert(prefix.drop_last() == self.threads@.take(i as int));
            let t = self.threads[i];
            if t.state != ThreadState::Terminated {
                if any {
                    s.append(", ");
                }
                push_thread_entry(&mut s, &t);
                any = true;
            }
            i = i + 1;
        }
        assert(self.threads@.take(i as int) == self.threads@);
        s
    }
}

fn contains_id(ids: &Vec<ThreadId>, id: ThreadId) -> (r: bool)
    ensures
        r <==> ids@.contains(id),
{
    let mut i: usize = 0;
    while i < ids.len()
        invariant
            i <= ids@.len(),
            forall|j: int| 0 <= j < i ==> ids@[j] != id,
        decreases ids@.len() - i,
    {
        if ids[i] == id {
            return true;
        }
        i = i + 1;
    }
    false
}

fn push_state_text(s: &mut String, state: ThreadState)
    ensures
        final(s)@ == old(s)@ + state_text(state),
{
    match state {
        ThreadState::Runnable => s.append("Runnable"),
        ThreadState::WaitingOnMonitor(o) => {
            s.append("WaitingOnMonitor(");
            push_nat_text(s, o as u64);
            push_char(s, ')');
        },
        ThreadState::WaitingOnCondition(o) => {
            s.append("WaitingOnCondition(");
            push_nat_text(s, o as u64);
            push_char(s, ')');
        },
        ThreadState::Joining(t) => {
            s.append("Joining(");
            push_nat_text(s, t);
            push_char(s, ')');
        },
        ThreadState::Sleeping => s.append("Sleeping"),
        ThreadState::Yielded => s.append("Yielded"),
        ThreadState::Terminated => s.append("Terminated"),
    }
    proof {
        reveal_strlit("Runnable");
        reveal_strlit("WaitingOnMonitor(");
        reveal_strlit("WaitingOnCondition(");
        reveal_strlit("Joining(");
        reveal_strlit(")");
        reveal_strlit("Sleeping");
        reveal_strlit("Yielded");
        reveal_strlit("Terminated");
    }
}

fn push_thread_entry(s: &mut String, t: &ThreadContext)
    ensures
        final(s)@ == old(s)@ + thread_entry_text(*t),
{
    s.append("thread ");
    push_nat_text(s, t.id);
    push_char(s, '=');
    proof {
        reveal_strlit("=");
    }
    push_state_text(s, t.state);
}

/// Whether thread `i` is the first one that runs the `java.lang.Thread`
/// object `obj`.
pub open spec fn first_with_object(ts: Seq<ThreadContext>, obj: usize, i: int) -> bool {
    0 <= i < ts.len() && ts[i].thread_object == Some(obj) && forall|j: int|
        0 <= j < i ==> #[trigger] ts[j].thread_object != Some(obj)
}

/// Whether some thread runs the `java.lang.Thread` object `obj`.
pub open spec fn started_object(ts: Seq<ThreadContext>, obj: usize) -> bool {
    exists|i: int| 0 <= i < ts.len() && #[trigger] ts[i].thread_object == Some(obj)
}

/// Thread ids are unique.
proof fn lemma_unique_ids(ts: Seq<ThreadContext>, next: u64, i: int, k: int)
    requires
        ids_ordered(ts, next),
        0 <= i < ts.len(),
        0 <= k < ts.len(),
        ts[i].id == ts[k].id,
    ensures
        i == k,
{
    if i < k {
        assert(ts[i].id < ts[k].id);
    } else if k < i {
        assert(ts[k].id < ts[i].id);
    }
}

impl Scheduler {
    /// Start a green thread for a `java.lang.Thread` object: a second start
    /// of the same object is refused with `IllegalThreadStateException`.
    /// The caller pushes the frame of `run()` onto the new thread.
    pub fn thread_start(&mut self, thread_object: usize) -> (r: Result<ThreadId, String>)
        requires
            old(self).wf(),
            old(self).next_id() < u64::MAX,
        ensures
            final(self).wf(),
            started_object(old(self).threads(), thread_object) ==> (r matches Err(e) && e@
                == "java/lang/IllegalThreadStateException: thread already started"@ && *final(self) == *old(
                self,
            )),
            !started_object(old(self).threads(), thread_object) ==> r == Ok::<ThreadId, String>(
                old(self).next_id(),
            ) && final(self).threads() == old(self).threads().push(
                fresh_thread(old(self).next_id(), Some(thread_object)),
            ) && final(self).current_index() == old(self).current_index() && final(self).next_id()
                == old(self).next_id() + 1,
    {
        if self.find_thread_id_by_object(thread_object).is_some() {
            return Err("java/lang/IllegalThreadStateException: thread already started".to_string());
        }
        Ok(self.spawn(Some(thread_object)))
    }

    /// Whether the thread that runs the `java.lang.Thread` object has been
    /// started and has not terminated.
    pub fn thread_is_alive(&self, thread_obj: usize) -> (r: bool)
        requires
            self.wf(),
        ensures
            r == exists|i: int|
                first_with_object(self.threads(), thread_obj, i) && self.threads()[i].state
                    != ThreadState::Terminated,
    {
        let ghost ts = self.threads();
        match self.find_thread_id_by_object(thread_obj) {
            Some(id) => {
                let ghost i = choose|i: int|
                    0 <= i < ts.len() && #[trigger] ts[i].thread_object == Some(thread_obj) && ts[i].id
                        == id && forall|j: int| 0 <= j < i ==> #[trigger] ts[j].thread_object != Some(thread_obj);
                assert(has_thread(ts, id));
                match self.thread(id) {
                    Some(t) => {
                        proof {
                            lemma_unique_ids(ts, self.next_id(), i, thread_index(ts, id));
                            assert forall|k: int| first_with_object(ts, thread_obj, k) implies k == i by {
                                if k < i {
                                    assert(ts[k].thread_object != Some(thread_obj));
                                }
                                if i < k {
                                    assert(ts[i].thread_object != Some(thread_obj));
                                }
                            }
                            assert(first_with_object(ts, thread_obj, i));
                        }
                        t.state != ThreadState::Terminated
                    },
                    None => false,
                }
            },
            None => {
                assert forall|i: int| !first_with_object(ts, thread_obj, i) by {
                    if 0 <= i < ts.len() {
                        assert(ts[i].thread_object != Some(thread_obj));
                    }
                }
                false
            },
        }
    }

    /// `Thread.join`: the running thread waits for the thread with id
    /// `target_id`, unless that one has terminated already.
    pub fn thread_join(&mut self, target_id: ThreadId)
        requires
            old(self).wf(),
        ensures
            final(self).wf(),
            final(self).current_index() == old(self).current_index(),
            final(self).next_id() == old(self).next_id(),
            terminated_id(old(self).threads(), target_id) ==> final(self).threads() == old(self).threads(),
            !terminated_id(old(self).threads(), target_id) ==> final(self).threads() == old(self).threads().update(
                old(self).current_index(),
                ThreadContext { state: ThreadState::Joining(target_id), ..old(self).current() },
            ),
    {
        let ghost ts = self.threads();
        if let Some(target) = self.thread(target_id) {
            if target.state == ThreadState::Terminated {
                return;
            }
            proof {
                assert forall|j: int|
                    0 <= j < ts.len() && #[trigger] ts[j].id == target_id implies ts[j].state
                    != ThreadState::Terminated by {
                    lemma_unique_ids(ts, self.next_id(), j, thread_index(ts, target_id));
                }
            }
        }
        let current = self.current_thread_mut();
        current.state = ThreadState::Joining(target_id);
        proof {
            assert(ids_ordered(self.threads(), self.next_id())) by {
                assert forall|i: int| 0 <= i < self.threads().len() implies #[trigger] self.threads()[i].id
                    == ts[i].id by {}
            }
        }
    }
}

/// A spawned thread gets an id that no existing thread has, is found by that
/// id afterwards, and keeps the threads in creation order.
pub proof fn law_spawn_fresh_id(ts: Seq<ThreadContext>, next: u64, obj: Option<usize>)
    requires
        ids_ordered(ts, next),
        next < u64::MAX,
    ensures
        !has_thread(ts, next),
        has_thread(ts.push(fresh_thread(next, obj)), next),
        thread_index(ts.push(fresh_thread(next, obj)), next) == ts.len(),
        ids_ordered(ts.push(fresh_thread(next, obj)), (next + 1) as u64),
{
    let ts2 = ts.push(fresh_thread(next, obj));
    assert(ts2[ts.len() as int].id == next);
    assert(has_thread(ts2, next));
    let k = thread_index(ts2, next);
    if k < ts.len() {
        assert(ts2[k] == ts[k]);
    }
}

/// Waking joiners twice in a row wakes no one the first pass did not: the
/// joiners left waiting are those whose target has not terminated.
pub proof fn law_wake_joiners_idempotent(ts: Seq<ThreadContext>)
    ensures
        wake_all(wake_all(ts)) == wake_all(ts),
{
    let w = wake_all(ts);
    assert forall|id: ThreadId| terminated_id(w, id) == terminated_id(ts, id) by {
        if terminated_id(w, id) {
            let j = choose|j: int| 0 <= j < w.len() && #[trigger] w[j].id == id && w[j].state == ThreadState::Terminated;
            assert(ts[j].id == id);
        }
        if terminated_id(ts, id) {
            let j = choose|j: int| 0 <= j < ts.len() && #[trigger] ts[j].id == id && ts[j].state == ThreadState::Terminated;
            assert(w[j].id == id);
        }
    }
    assert(wake_all(w) =~= w);
}

} // verus!
