//! Reentrant object monitors (`monitorenter` / `monitorexit`, `Object.wait`,
//! `notify`, `notifyAll`) over the green threads of the scheduler.
//!
//! Monitors are keyed by object identity. A monitor that is fully released
//! with nobody waiting on it is dropped from the table.

use vstd::prelude::*;
use std::collections::HashMap;
use std::collections::VecDeque;
use crate::threads::{has_thread, thread_index, Scheduler, ThreadContext, ThreadId, ThreadState};
use crate::bytecode::{Frame, FrameV, Step, Value, pop_value, popped, top, with_stack};

verus! {

broadcast use vstd::std_specs::hash::group_hash_axioms;

/// A reentrant object monitor.
pub struct Monitor {
    /// The thread that owns this monitor, or `None` if unlocked.
    pub owner: Option<ThreadId>,
    /// Reentrant lock count (0 when unlocked).
    pub count: usize,
    /// Threads blocked in `monitorenter`, in arrival order.
    pub entry_queue: VecDeque<ThreadId>,
    /// Threads blocked in `Object.wait()`, in arrival order.
    pub wait_queue: VecDeque<ThreadId>,
}

/// The contents of a monitor.
pub struct MonitorV {
    pub owner: Option<ThreadId>,
    pub count: usize,
    pub entry_queue: Seq<ThreadId>,
    pub wait_queue: Seq<ThreadId>,
}

impl View for Monitor {
    type V = MonitorV;

    open spec fn view(&self) -> MonitorV {
        MonitorV {
            owner: self.owner,
            count: self.count,
            entry_queue: self.entry_queue@,
            wait_queue: self.wait_queue@,
        }
    }
}

/// An unlocked monitor that nobody waits on.
pub open spec fn fresh_monitor() -> MonitorV {
    MonitorV { owner: None, count: 0, entry_queue: Seq::empty(), wait_queue: Seq::empty() }
}

/// A monitor is owned exactly when its count is positive.
pub open spec fn monitor_wf(m: MonitorV) -> bool {
    m.owner is Some <==> m.count > 0
}

/// The monitor of `obj`, or a fresh one when it has none yet.
pub open spec fn monitor_of(t: Map<usize, MonitorV>, obj: usize) -> MonitorV {
    if t.contains_key(obj) {
        t[obj]
    } else {
        fresh_monitor()
    }
}

/// Whether `monitorenter` by `tid` must wait for another owner.
pub open spec fn enter_blocks(m: MonitorV, tid: ThreadId) -> bool {
    m.owner is Some && m.owner != Some(tid)
}

/// The monitor after `monitorenter` by `tid`.
pub open spec fn entered(m: MonitorV, tid: ThreadId) -> MonitorV {
    match m.owner {
        None => MonitorV { owner: Some(tid), count: 1, ..m },
        Some(o) => if o == tid {
            MonitorV { count: (m.count + 1) as usize, ..m }
        } else {
            MonitorV { entry_queue: m.entry_queue.push(tid), ..m }
        },
    }
}

/// The table after `monitorenter` on `obj` by `tid`.
pub open spec fn enter_table(t: Map<usize, MonitorV>, obj: usize, tid: ThreadId) -> Map<usize, MonitorV> {
    t.insert(obj, entered(monitor_of(t, obj), tid))
}

/// The running thread `cur` with a new state.
pub open spec fn with_state(ts: Seq<ThreadContext>, i: int, s: ThreadState) -> Seq<ThreadContext> {
    ts.update(i, ThreadContext { state: s, ..ts[i] })
}

/// The reentrant count a woken thread gets back: its saved count when it
/// was in `Object.wait()` (on `on_obj`, or on any object when `on_obj` is
/// `None`) and saved one.
pub open spec fn restored_count(ts: Seq<ThreadContext>, w: ThreadId, on_obj: Option<usize>) -> Option<usize> {
    if has_thread(ts, w) {
        let t = ts[thread_index(ts, w)];
        match t.state {
            ThreadState::WaitingOnCondition(o) => if t.saved_monitor_count > 0 && (on_obj is None
                || on_obj == Some(o)) {
                Some(t.saved_monitor_count)
            } else {
                None
            },
            _ => None,
        }
    } else {
        None
    }
}

/// Threads after `w` is handed a monitor: it becomes runnable, and its saved
/// count is cleared when `clear` says so.
pub open spec fn wake_thread(ts: Seq<ThreadContext>, w: ThreadId, clear: bool) -> Seq<ThreadContext> {
    if has_thread(ts, w) {
        let i = thread_index(ts, w);
        let t = ts[i];
        ts.update(
            i,
            ThreadContext {
                state: ThreadState::Runnable,
                saved_monitor_count: if clear {
                    0
                } else {
                    t.saved_monitor_count
                },
                ..t
            },
        )
    } else {
        ts
    }
}

/// Table after a successful `monitorexit` on `obj`.
pub open spec fn exit_table(t: Map<usize, MonitorV>, ts: Seq<ThreadContext>, obj: usize) -> Map<usize, MonitorV> {
    let m = t[obj];
    let c = (m.count - 1) as usize;
    if c > 0 {
        t.insert(obj, MonitorV { count: c, ..m })
    } else if m.entry_queue.len() == 0 && m.wait_queue.len() == 0 {
        t.remove(obj)
    } else if m.entry_queue.len() > 0 {
        let w = m.entry_queue[0];
        let n = match restored_count(ts, w, None) {
            Some(k) => k,
            None => 1,
        };
        t.insert(obj, MonitorV { owner: Some(w), count: n, entry_queue: m.entry_queue.drop_first(), ..m })
    } else {
        t.insert(obj, MonitorV { owner: None, count: 0, ..m })
    }
}

/// Threads after a successful `monitorexit` on `obj`.
pub open spec fn exit_threads(t: Map<usize, MonitorV>, ts: Seq<ThreadContext>, obj: usize) -> Seq<ThreadContext> {
    let m = t[obj];
    if m.count == 1 && m.entry_queue.len() > 0 {
        let w = m.entry_queue[0];
        wake_thread(ts, w, restored_count(ts, w, None) is Some)
    } else {
        ts
    }
}

/// Table after `Object.wait()` on `obj` by its owner `tid`: the monitor is
/// fully released, `tid` joins the wait queue, and the first thread of the
/// entry queue (if it still exists) is handed the monitor.
pub open spec fn wait_table(t: Map<usize, MonitorV>, ts: Seq<ThreadContext>, obj: usize, tid: ThreadId) -> Map<usize, MonitorV> {
    let m = t[obj];
    let released = MonitorV { owner: None, count: 0, wait_queue: m.wait_queue.push(tid), ..m };
    if m.entry_queue.len() > 0 {
        let w = m.entry_queue[0];
        let rest = m.entry_queue.drop_first();
        if has_thread(ts, w) {
            let n = match restored_count(ts, w, Some(obj)) {
                Some(k) => k,
                None => 1,
            };
            t.insert(obj, MonitorV { owner: Some(w), count: n, entry_queue: rest, ..released })
        } else {
            t.insert(obj, MonitorV { entry_queue: rest, ..released })
        }
    } else {
        t.insert(obj, released)
    }
}

/// Threads after `Object.wait()` on `obj` by the thread at position `cur`:
/// the thread handed the monitor becomes runnable, and the caller saves its
/// reentrant count and waits on `obj`.
pub open spec fn wait_threads(t: Map<usize, MonitorV>, ts: Seq<ThreadContext>, obj: usize, cur: int) -> Seq<ThreadContext> {
    let m = t[obj];
    let ts1 = if m.entry_queue.len() > 0 {
        let w = m.entry_queue[0];
        wake_thread(ts, w, restored_count(ts, w, Some(obj)) is Some)
    } else {
        ts
    };
    ts1.update(
        cur,
        ThreadContext {
            state: ThreadState::WaitingOnCondition(obj),
            saved_monitor_count: m.count,
            ..ts1[cur]
        },
    )
}

/// Table after the host wakes the waiters of `obj`: every waiter moves to
/// the entry queue, and an unowned monitor is handed to the first of them.
pub open spec fn host_notify_table(t: Map<usize, MonitorV>, ts: Seq<ThreadContext>, obj: usize) -> Map<usize, MonitorV> {
    if !t.contains_key(obj) {
        t
    } else {
        let m = all_notified(t[obj]);
        if m.owner is None && m.entry_queue.len() > 0 {
            let w = m.entry_queue[0];
            let n = match restored_count(ts, w, Some(obj)) {
                Some(k) => k,
                None => 1,
            };
            t.insert(obj, MonitorV { owner: Some(w), count: n, entry_queue: m.entry_queue.drop_first(), ..m })
        } else {
            t.insert(obj, m)
        }
    }
}

/// Threads after the host wakes the waiters of `obj`.
pub open spec fn host_notify_threads(t: Map<usize, MonitorV>, ts: Seq<ThreadContext>, obj: usize) -> Seq<ThreadContext> {
    if t.contains_key(obj) && t[obj].owner is None && all_notified(t[obj]).entry_queue.len() > 0 {
        wake_thread(ts, all_notified(t[obj]).entry_queue[0], true)
    } else {
        ts
    }
}

/// The table after `Object.notify()` on `obj`.
pub open spec fn notify_table(t: Map<usize, MonitorV>, obj: usize) -> Map<usize, MonitorV> {
    let m = t[obj];
    if m.wait_queue.len() > 0 {
        t.insert(
            obj,
            MonitorV {
                entry_queue: m.entry_queue.push(m.wait_queue[0]),
                wait_queue: m.wait_queue.drop_first(),
                ..m
            },
        )
    } else {
        t
    }
}

/// The monitor with every waiter moved to the end of the entry queue.
pub open spec fn all_notified(m: MonitorV) -> MonitorV {
    MonitorV { entry_queue: m.entry_queue + m.wait_queue, wait_queue: Seq::empty(), ..m }
}

pub open spec fn illegal_monitor_state(detail: Seq<char>) -> Seq<char> {
    "java/lang/IllegalMonitorStateException: "@ + detail
}

/// The monitors of all objects that have one.
pub struct MonitorTable {
    monitors: HashMap<usize, Monitor>,
}

impl MonitorTable {
    pub closed spec fn view(&self) -> Map<usize, MonitorV> {
        self.monitors@.map_values(|m: Monitor| m@)
    }

    pub open spec fn wf(&self) -> bool {
        forall|k: usize| #[trigger] self.view().contains_key(k) ==> monitor_wf(self.view()[k])
    }

    /// A table with no monitors.
    pub fn new() -> (t: MonitorTable)
        ensures
            t.wf(),
            t.view() == Map::<usize, MonitorV>::empty(),
    {
        let t = MonitorTable { monitors: HashMap::new() };
        assert(t.view() =~= Map::<usize, MonitorV>::empty());
        t
    }

    /// Drops every monitor.
    pub fn clear(&mut self)
        ensures
            final(self).wf(),
            final(self).view() == Map::<usize, MonitorV>::empty(),
    {
        self.monitors.clear();
        assert(self.view() =~= Map::<usize, MonitorV>::empty());
    }

    /// The monitor of `obj`, if it has one.
    pub fn monitor(&self, obj: usize) -> (r: Option<&Monitor>)
        ensures
            r is Some <==> self.view().contains_key(obj),
            r matches Some(m) ==> m@ == self.view()[obj],
    {
        self.monitors.get(&obj)
    }

    fn take(&mut self, obj: usize) -> (r: Option<Monitor>)
        ensures
            r is Some <==> old(self).view().contains_key(obj),
            r matches Some(m) ==> m@ == old(self).view()[obj],
            final(self).view() == old(self).view().remove(obj),
    {
        let r = self.monitors.remove(&obj);
        assert(self.view() =~= old(self).view().remove(obj));
        r
    }

    fn put(&mut self, obj: usize, m: Monitor)
        ensures
            final(self).view() == old(self).view().insert(obj, m@),
    {
        self.monitors.insert(obj, m);
        assert(self.view() =~= old(self).view().insert(obj, m@));
    }

    /// `monitorenter` on `obj` by the running thread: a free monitor is
    /// taken, one the thread owns is entered once more, and otherwise the
    /// thread queues up and blocks until it is handed the monitor.
    pub fn monitor_enter(&mut self, sched: &mut Scheduler, obj: usize)
        requires
            old(self).wf(),
            old(sched).wf(),
            monitor_of(old(self).view(), obj).owner == Some(old(sched).current().id) ==> monitor_of(
                old(self).view(),
                obj,
            ).count < usize::MAX,
        ensures
            final(self).wf(),
            final(sched).wf(),
            final(self).view() == enter_table(old(self).view(), obj, old(sched).current().id),
            final(sched).threads() == if enter_blocks(monitor_of(old(self).view(), obj), old(sched).current().id) {
                with_state(old(sched).threads(), old(sched).current_index(), ThreadState::WaitingOnMonitor(obj))
            } else {
                old(sched).threads()
            },
            final(sched).current_index() == old(sched).current_index(),
            final(sched).next_id() == old(sched).next_id(),
    {
        let thread_id = sched.current_thread().id;
        let mut m = match self.take(obj) {
            Some(m) => m,
            None => Monitor {
                owner: None,
                count: 0,
                entry_queue: VecDeque::new(),
                wait_queue: VecDeque::new(),
            },
        };
        let ghost m0 = m@;
        assert(m0 == monitor_of(old(self).view(), obj));
        match m.owner {
            None => {
                m.owner = Some(thread_id);
                m.count = 1;
            },
            Some(owner) => {
                if owner == thread_id {
                    m.count = m.count + 1;
                } else {
                    m.entry_queue.push_back(thread_id);
                    sched.current_thread_mut().state = ThreadState::WaitingOnMonitor(obj);
                }
            },
        }
        assert(m@ == entered(m0, thread_id));
        self.put(obj, m);
        assert(self.view() =~= enter_table(old(self).view(), obj, thread_id));
    }

    /// `monitorexit` on `obj` by the running thread. The count drops by one;
    /// when it reaches zero the monitor is handed to the first thread in the
    /// entry queue (which becomes runnable, getting back the count it saved
    /// in `Object.wait()`), or released, and dropped when nobody waits on it.
    pub fn monitor_exit(&mut self, sched: &mut Scheduler, obj: usize) -> (r: Result<(), String>)
        requires
            old(self).wf(),
            old(sched).wf(),
        ensures
            final(self).wf(),
            final(sched).wf(),
            final(sched).current_index() == old(sched).current_index(),
            final(sched).next_id() == old(sched).next_id(),
            !old(self).view().contains_key(obj) ==> (r matches Err(e) && e@ == illegal_monitor_state(
                "monitor not entered"@,
            )),
            old(self).view().contains_key(obj) && old(self).view()[obj].owner != Some(
                old(sched).current().id,
            ) ==> (r matches Err(e) && e@ == illegal_monitor_state("current thread is not owner"@)),
            r is Err ==> final(self).view() == old(self).view() && final(sched).threads() == old(
                sched,
            ).threads(),
            r is Ok <==> old(self).view().contains_key(obj) && old(self).view()[obj].owner == Some(
                old(sched).current().id,
            ),
            r is Ok ==> final(self).view() == exit_table(old(self).view(), old(sched).threads(), obj)
                && final(sched).threads() == exit_threads(old(self).view(), old(sched).threads(), obj),
    {
        proof {
            reveal_strlit("monitor not entered");
            reveal_strlit("current thread is not owner");
            reveal_strlit("java/lang/IllegalMonitorStateException: monitor not entered");
            reveal_strlit("java/lang/IllegalMonitorStateException: current thread is not owner");
            reveal_strlit("java/lang/IllegalMonitorStateException: ");
        }
        let thread_id = sched.current_thread().id;
        let mut m = match self.take(obj) {
            Some(m) => m,
            None => {
                return Err("java/lang/IllegalMonitorStateException: monitor not entered".to_owned());
            },
        };
        let ghost m0 = m@;
        let owned = match m.owner {
            Some(o) => o == thread_id,
            None => false,
        };
        if !owned {
            self.put(obj, m);
            assert(self.view() =~= old(self).view());
            return Err("java/lang/IllegalMonitorStateException: current thread is not owner".to_owned());
        }
        m.count = m.count - 1;
        if m.count > 0 {
            self.put(obj, m);
            return Ok(());
        }
        if m.entry_queue.len() == 0 && m.wait_queue.len() == 0 {
            assert(self.view() =~= old(self).view().remove(obj));
            return Ok(());
        }
        match m.entry_queue.pop_front() {
            Some(waiting_id) => {
                let ghost ts0 = sched.threads();
                m.owner = Some(waiting_id);
                let restore = match sched.thread(waiting_id) {
                    Some(t) => match t.state {
                        ThreadState::WaitingOnCondition(_) => if t.saved_monitor_count > 0 {
                            Some(t.saved_monitor_count)
                        } else {
                            None
                        },
                        _ => None,
                    },
                    None => None,
                };
                assert(restore == restored_count(ts0, waiting_id, None));
                m.count = match restore {
                    Some(k) => k,
                    None => 1,
                };
                self.put(obj, m);
                let clear = restore.is_some();
                match sched.thread_mut(waiting_id) {
                    Some(t) => {
                        if clear {
                            t.saved_monitor_count = 0;
                        }
                        t.state = ThreadState::Runnable;
                    },
                    None => {},
                }
                assert(sched.threads() =~= wake_thread(ts0, waiting_id, clear));
            },
            None => {
                m.owner = None;
                self.put(obj, m);
            },
        }
        assert(self.view() =~= exit_table(old(self).view(), old(sched).threads(), obj));
        Ok(())
    }

    /// Checks that the running thread owns the monitor of `obj`, as
    /// `Object.wait`, `notify` and `notifyAll` require.
    fn check_owner(&self, sched: &Scheduler, obj: usize) -> (r: Result<(), String>)
        requires
            sched.wf(),
        ensures
            !self.view().contains_key(obj) ==> (r matches Err(e) && e@ == illegal_monitor_state(
                "object not locked"@,
            )),
            self.view().contains_key(obj) && self.view()[obj].owner != Some(sched.current().id) ==> (
            r matches Err(e) && e@ == illegal_monitor_state("current thread is not owner"@)),
            r is Ok <==> self.view().contains_key(obj) && self.view()[obj].owner == Some(
                sched.current().id,
            ),
    {
        proof {
            reveal_strlit("object not locked");
            reveal_strlit("current thread is not owner");
            reveal_strlit("java/lang/IllegalMonitorStateException: object not locked");
            reveal_strlit("java/lang/IllegalMonitorStateException: current thread is not owner");
            reveal_strlit("java/lang/IllegalMonitorStateException: ");
        }
        let thread_id = sched.current_thread().id;
        match self.monitors.get(&obj) {
            None => Err("java/lang/IllegalMonitorStateException: object not locked".to_owned()),
            Some(m) => {
                let owned = match m.owner {
                    Some(o) => o == thread_id,
                    None => false,
                };
                if owned {
                    Ok(())
                } else {
                    Err("java/lang/IllegalMonitorStateException: current thread is not owner".to_owned())
                }
            },
        }
    }

    /// `Object.wait()` on `obj` by the running thread, which must own its
    /// monitor: the reentrant count is saved in the thread, the monitor is
    /// fully released and handed to the first thread blocked on entry (which
    /// gets back the count it saved, if it was itself woken from a wait on
    /// `obj`), and the thread blocks on the wait queue.
    pub fn monitor_wait(&mut self, sched: &mut Scheduler, obj: usize) -> (r: Result<(), String>)
        requires
            old(self).wf(),
            old(sched).wf(),
        ensures
            final(self).wf(),
            final(sched).wf(),
            final(sched).current_index() == old(sched).current_index(),
            final(sched).next_id() == old(sched).next_id(),
            !old(self).view().contains_key(obj) ==> (r matches Err(e) && e@ == illegal_monitor_state(
                "object not locked"@,
            )),
            old(self).view().contains_key(obj) && old(self).view()[obj].owner != Some(
                old(sched).current().id,
            ) ==> (r matches Err(e) && e@ == illegal_monitor_state("current thread is not owner"@)),
            r is Ok <==> old(self).view().contains_key(obj) && old(self).view()[obj].owner == Some(
                old(sched).current().id,
            ),
            r is Err ==> final(self).view() == old(self).view() && final(sched).threads() == old(
                sched,
            ).threads(),
            r is Ok ==> final(self).view() == wait_table(
                old(self).view(),
                old(sched).threads(),
                obj,
                old(sched).current().id,
            ) && final(sched).threads() == wait_threads(
                old(self).view(),
                old(sched).threads(),
                obj,
                old(sched).current_index(),
            ),
    {
        match self.check_owner(sched, obj) {
            Err(e) => {
                return Err(e);
            },
            Ok(()) => {},
        }
        let thread_id = sched.current_thread().id;
        let ghost ts0 = sched.threads();
        let mut m = match self.take(obj) {
            Some(m) => m,
            None => {
                return Ok(());
            },
        };
        let ghost m0 = m@;
        let saved = m.count;
        m.count = 0;
        m.owner = None;
        m.wait_queue.push_back(thread_id);
        match m.entry_queue.pop_front() {
            Some(waiting_id) => {
                match sched.thread_mut(waiting_id) {
                    Some(t) => {
                        let restore = match t.state {
                            ThreadState::WaitingOnCondition(wait_obj_id) => if wait_obj_id == obj
                                && t.saved_monitor_count > 0 {
                                Some(t.saved_monitor_count)
                            } else {
                                None
                            },
                            _ => None,
                        };
                        match restore {
                            Some(k) => {
                                m.count = k;
                                t.saved_monitor_count = 0;
                            },
                            None => {
                                m.count = 1;
                            },
                        }
                        m.owner = Some(waiting_id);
                        t.state = ThreadState::Runnable;
                        assert(restore == restored_count(ts0, waiting_id, Some(obj)));
                    },
                    None => {},
                }
                assert(sched.threads() =~= wake_thread(
                    ts0,
                    waiting_id,
                    restored_count(ts0, waiting_id, Some(obj)) is Some,
                ));
            },
            None => {},
        }
        let ghost ts1 = sched.threads();
        let current = sched.current_thread_mut();
        current.saved_monitor_count = saved;
        current.state = ThreadState::WaitingOnCondition(obj);
        assert(sched.threads() =~= wait_threads(old(self).view(), ts0, obj, old(sched).current_index()));
        self.put(obj, m);
        assert(self.view() =~= wait_table(old(self).view(), ts0, obj, thread_id));
        Ok(())
    }

    /// `Object.notify()` on `obj` by its owner: the first waiter moves to the
    /// end of the entry queue.
    pub fn monitor_notify(&mut self, sched: &Scheduler, obj: usize) -> (r: Result<(), String>)
        requires
            old(self).wf(),
            sched.wf(),
        ensures
            final(self).wf(),
            !old(self).view().contains_key(obj) ==> (r matches Err(e) && e@ == illegal_monitor_state(
                "object not locked"@,
            )),
            old(self).view().contains_key(obj) && old(self).view()[obj].owner != Some(sched.current().id)
                ==> (r matches Err(e) && e@ == illegal_monitor_state("current thread is not owner"@)),
            r is Ok <==> old(self).view().contains_key(obj) && old(self).view()[obj].owner == Some(
                sched.current().id,
            ),
            r is Err ==> final(self).view() == old(self).view(),
            r is Ok ==> final(self).view() == notify_table(old(self).view(), obj),
    {
        match self.check_owner(sched, obj) {
            Err(e) => {
                return Err(e);
            },
            Ok(()) => {},
        }
        let mut m = match self.take(obj) {
            Some(m) => m,
            None => {
                return Ok(());
            },
        };
        match m.wait_queue.pop_front() {
            Some(waiter_id) => {
                m.entry_queue.push_back(waiter_id);
            },
            None => {},
        }
        self.put(obj, m);
        assert(self.view() =~= notify_table(old(self).view(), obj));
        Ok(())
    }

    /// Moves every waiter of the monitor to the end of its entry queue.
    fn notify_every_waiter(m: &mut Monitor)
        ensures
            final(m)@ == all_notified(old(m)@),
    {
        let ghost entry0 = m.entry_queue@;
        let ghost wait0 = m.wait_queue@;
        while m.wait_queue.len() > 0
            invariant
                entry0 + wait0 == m.entry_queue@ + m.wait_queue@,
                m.owner == old(m).owner,
                m.count == old(m).count,
                old(m)@.entry_queue == entry0,
                old(m)@.wait_queue == wait0,
            decreases m.wait_queue@.len(),
        {
            let ghost e = m.entry_queue@;
            let ghost w = m.wait_queue@;
            match m.wait_queue.pop_front() {
                Some(waiter_id) => {
                    m.entry_queue.push_back(waiter_id);
                    assert(e + w =~= m.entry_queue@ + m.wait_queue@);
                },
                None => {},
            }
        }
        assert(m.wait_queue@ =~= Seq::<ThreadId>::empty());
        assert(m.entry_queue@ =~= entry0 + wait0);
    }

    /// `Object.notifyAll()` on `obj` by its owner: every waiter moves to the
    /// end of the entry queue, in order.
    pub fn monitor_notify_all(&mut self, sched: &Scheduler, obj: usize) -> (r: Result<(), String>)
        requires
            old(self).wf(),
            sched.wf(),
        ensures
            final(self).wf(),
            !old(self).view().contains_key(obj) ==> (r matches Err(e) && e@ == illegal_monitor_state(
                "object not locked"@,
            )),
            old(self).view().contains_key(obj) && old(self).view()[obj].owner != Some(sched.current().id)
                ==> (r matches Err(e) && e@ == illegal_monitor_state("current thread is not owner"@)),
            r is Ok <==> old(self).view().contains_key(obj) && old(self).view()[obj].owner == Some(
                sched.current().id,
            ),
            r is Err ==> final(self).view() == old(self).view(),
            r is Ok ==> final(self).view() == old(self).view().insert(obj, all_notified(old(self).view()[obj])),
    {
        match self.check_owner(sched, obj) {
            Err(e) => {
                return Err(e);
            },
            Ok(()) => {},
        }
        let mut m = match self.take(obj) {
            Some(m) => m,
            None => {
                return Ok(());
            },
        };
        Self::notify_every_waiter(&mut m);
        self.put(obj, m);
        Ok(())
    }

    /// Wakes the waiters of `obj` on behalf of the host (after stdin input),
    /// without the ownership check of `notifyAll`: every waiter moves to the
    /// entry queue, and an unowned monitor is handed to the first thread in
    /// it, which becomes runnable with its saved count restored.
    pub fn host_notify_all(&mut self, sched: &mut Scheduler, obj: usize)
        requires
            old(self).wf(),
            old(sched).wf(),
        ensures
            final(self).wf(),
            final(sched).wf(),
            final(sched).current_index() == old(sched).current_index(),
            final(sched).next_id() == old(sched).next_id(),
            final(self).view() == host_notify_table(old(self).view(), old(sched).threads(), obj),
            final(sched).threads() == host_notify_threads(old(self).view(), old(sched).threads(), obj),
    {
        let ghost ts0 = sched.threads();
        let mut m = match self.take(obj) {
            Some(m) => m,
            None => {
                assert(self.view() =~= old(self).view());
                return;
            },
        };
        Self::notify_every_waiter(&mut m);
        if m.owner.is_none() {
            match m.entry_queue.pop_front() {
                Some(waiting_id) => {
                    m.owner = Some(waiting_id);
                    let restore = match sched.thread(waiting_id) {
                        Some(t) => match t.state {
                            ThreadState::WaitingOnCondition(wait_obj_id) => if wait_obj_id == obj
                                && t.saved_monitor_count > 0 {
                                Some(t.saved_monitor_count)
                            } else {
                                None
                            },
                            _ => None,
                        },
                        None => None,
                    };
                    assert(restore == restored_count(ts0, waiting_id, Some(obj)));
                    m.count = match restore {
                        Some(k) => k,
                        None => 1,
                    };
                    match sched.thread_mut(waiting_id) {
                        Some(t) => {
                            t.saved_monitor_count = 0;
                            t.state = ThreadState::Runnable;
                        },
                        None => {},
                    }
                    assert(sched.threads() =~= wake_thread(ts0, waiting_id, true));
                },
                None => {},
            }
        }
        self.put(obj, m);
        assert(self.view() =~= host_notify_table(old(self).view(), ts0, obj));
    }
}



/// Entering a monitor one already owns and leaving it again leaves the
/// monitors and the threads as they were.
pub proof fn law_reentrant_enter_exit(
    t: Map<usize, MonitorV>,
    ts: Seq<ThreadContext>,
    obj: usize,
    tid: ThreadId,
)
    requires
        t.contains_key(obj),
        t[obj].owner == Some(tid),
        monitor_wf(t[obj]),
        t[obj].count < usize::MAX,
    ensures
        exit_table(enter_table(t, obj, tid), ts, obj) == t,
        exit_threads(enter_table(t, obj, tid), ts, obj) == ts,
{
    let m = t[obj];
    let t1 = enter_table(t, obj, tid);
    assert(t1[obj] == MonitorV { count: (m.count + 1) as usize, ..m });
    assert(exit_table(t1, ts, obj) =~= t.insert(obj, m));
    assert(t.insert(obj, m) =~= t);
}

/// Locking an object that has no monitor and unlocking it again leaves no
/// monitor behind, and wakes nobody.
pub proof fn law_lock_unlock_leaves_no_monitor(
    t: Map<usize, MonitorV>,
    ts: Seq<ThreadContext>,
    obj: usize,
    tid: ThreadId,
)
    requires
        !t.contains_key(obj),
    ensures
        exit_table(enter_table(t, obj, tid), ts, obj) == t,
        exit_threads(enter_table(t, obj, tid), ts, obj) == ts,
{
    let t1 = enter_table(t, obj, tid);
    assert(t1[obj] == MonitorV { owner: Some(tid), count: 1, ..fresh_monitor() });
    assert(exit_table(t1, ts, obj) =~= t);
}

proof fn lemma_index_of_id(ts: Seq<ThreadContext>, next: u64, i: int)
    requires
        crate::threads::ids_ordered(ts, next),
        0 <= i < ts.len(),
    ensures
        has_thread(ts, ts[i].id),
        thread_index(ts, ts[i].id) == i,
{
    assert(has_thread(ts, ts[i].id));
    let k = thread_index(ts, ts[i].id);
    if k < i {
        assert(ts[k].id < ts[i].id);
    } else if k > i {
        assert(ts[i].id < ts[k].id);
    }
}

/// `Object.wait()` hands the reentrant count back: when the owner `a` of a
/// monitor (entered `c` times, nobody queued) waits on it, and another
/// thread `b` then enters it, calls `notify()` and exits it, `a` owns the
/// monitor again with the same count, is runnable, and its saved count is
/// cleared; no other thread changed.
pub proof fn law_wait_notify_restores_count(
    t: Map<usize, MonitorV>,
    ts: Seq<ThreadContext>,
    next: u64,
    obj: usize,
    ia: int,
    ib: int,
)
    requires
        crate::threads::ids_ordered(ts, next),
        0 <= ia < ts.len(),
        0 <= ib < ts.len(),
        ia != ib,
        t.contains_key(obj),
        t[obj] == (MonitorV {
            owner: Some(ts[ia].id),
            count: t[obj].count,
            entry_queue: Seq::empty(),
            wait_queue: Seq::empty(),
        }),
        t[obj].count > 0,
    ensures
        ({
            let a = ts[ia].id;
            let b = ts[ib].id;
            let t1 = wait_table(t, ts, obj, a);
            let ts1 = wait_threads(t, ts, obj, ia);
            let t2 = enter_table(t1, obj, b);
            let t3 = notify_table(t2, obj);
            &&& !enter_blocks(monitor_of(t1, obj), b)
            &&& exit_table(t3, ts1, obj) == t
            &&& exit_threads(t3, ts1, obj) == ts.update(
                ia,
                ThreadContext { state: ThreadState::Runnable, saved_monitor_count: 0, ..ts[ia] },
            )
        }),
{
    let a = ts[ia].id;
    let b = ts[ib].id;
    let m = t[obj];
    let c = m.count;
    let t1 = wait_table(t, ts, obj, a);
    let ts1 = wait_threads(t, ts, obj, ia);
    assert(t1[obj] == MonitorV { owner: None, count: 0, entry_queue: Seq::empty(), wait_queue: seq![a] }) by {
        assert(Seq::<ThreadId>::empty().push(a) =~= seq![a]);
    }
    assert(ts1 == ts.update(
        ia,
        ThreadContext { state: ThreadState::WaitingOnCondition(obj), saved_monitor_count: c, ..ts[ia] },
    ));
    assert(crate::threads::ids_ordered(ts1, next)) by {
        assert forall|i: int| 0 <= i < ts1.len() implies #[trigger] ts1[i].id == ts[i].id by {}
    }
    lemma_index_of_id(ts1, next, ia);
    let t2 = enter_table(t1, obj, b);
    assert(t2[obj] == MonitorV { owner: Some(b), count: 1, entry_queue: Seq::empty(), wait_queue: seq![a] });
    let t3 = notify_table(t2, obj);
    assert(t3[obj] == MonitorV { owner: Some(b), count: 1, entry_queue: seq![a], wait_queue: Seq::empty() }) by {
        assert(Seq::<ThreadId>::empty().push(a) =~= seq![a]);
        assert(seq![a].drop_first() =~= Seq::<ThreadId>::empty());
    }
    assert(restored_count(ts1, a, None) == Some(c));
    assert(seq![a].drop_first() =~= Seq::<ThreadId>::empty());
    assert(exit_table(t3, ts1, obj) =~= t);
    assert(exit_threads(t3, ts1, obj) =~= ts.update(
        ia,
        ThreadContext { state: ThreadState::Runnable, saved_monitor_count: 0, ..ts[ia] },
    ));
}

// ---------------------------------------------------------------------------
// The monitor instructions
// ---------------------------------------------------------------------------

/// The name of a monitor instruction in its error texts.
pub open spec fn monitor_insn(op: u8) -> Seq<char> {
    if op == 0xc2 {
        "monitorenter"@
    } else {
        "monitorexit"@
    }
}

/// The object a monitor instruction works on: a reference on top of the
/// stack.
pub open spec fn monitor_operand(f: FrameV) -> Option<u64> {
    if f.stack.len() > 0 {
        match top(f, 0) {
            Value::Ref(Some(k)) => Some(k),
            _ => None,
        }
    } else {
        None
    }
}

/// The frame after a monitor instruction: its operand popped, if any.
pub open spec fn monitor_frame(f: FrameV) -> FrameV {
    if f.stack.len() == 0 {
        f
    } else {
        with_stack(f, popped(f, 1))
    }
}

fn insn_name(op: u8) -> (r: &'static str)
    ensures
        r@ == monitor_insn(op),
{
    if op == 0xc2 {
        "monitorenter"
    } else {
        "monitorexit"
    }
}

fn text_of(parts: (&str, &str, &str)) -> (r: String)
    ensures
        r@ == parts.0@ + parts.1@ + parts.2@,
{
    let mut r = String::new();
    r.append(parts.0);
    r.append(parts.1);
    r.append(parts.2);
    r
}

/// `monitorenter` (0xc2) or `monitorexit` (0xc3) on the object on top of
/// the stack, by the running thread: an empty stack, `null` or a value that
/// is no reference is an error that leaves monitors and threads alone; an
/// object's monitor is entered or exited as `monitor_enter` and
/// `monitor_exit` say.
pub fn execute_monitor_opcode(frame: &mut Frame, table: &mut MonitorTable, sched: &mut Scheduler, op: u8) -> (r: Result<
    Step,
    String,
>)
    requires
        op == 0xc2 || op == 0xc3,
        old(table).wf(),
        old(sched).wf(),
        monitor_operand(old(frame)@) matches Some(k) ==> {
            &&& k <= usize::MAX
            &&& (op == 0xc2 && monitor_of(old(table).view(), k as usize).owner == Some(old(sched).current().id)
                ==> monitor_of(old(table).view(), k as usize).count < usize::MAX)
        },
    ensures
        final(table).wf(),
        final(sched).wf(),
        final(sched).current_index() == old(sched).current_index(),
        final(sched).next_id() == old(sched).next_id(),
        final(frame)@ == monitor_frame(old(frame)@),
        monitor_operand(old(frame)@) is None ==> {
            &&& final(table).view() == old(table).view()
            &&& final(sched).threads() == old(sched).threads()
            &&& r matches Err(e) && e@ == if old(frame)@.stack.len() == 0 {
                "Operand stack underflow in "@ + monitor_insn(op)
            } else if top(old(frame)@, 0) == Value::Ref(None) {
                "java/lang/NullPointerException: "@ + monitor_insn(op) + " on null"@
            } else {
                "Internal VM error: "@ + monitor_insn(op) + " on non-reference value"@
            }
        },
        monitor_operand(old(frame)@) matches Some(k) ==> {
            let obj = k as usize;
            let t = old(table).view();
            let cur = old(sched).current().id;
            if op == 0xc2 {
                &&& r == Ok::<Step, String>(Step::Continue)
                &&& final(table).view() == enter_table(t, obj, cur)
                &&& final(sched).threads() == if enter_blocks(monitor_of(t, obj), cur) {
                    with_state(old(sched).threads(), old(sched).current_index(), ThreadState::WaitingOnMonitor(obj))
                } else {
                    old(sched).threads()
                }
            } else {
                &&& (r is Ok <==> t.contains_key(obj) && t[obj].owner == Some(cur))
                &&& r is Ok ==> r == Ok::<Step, String>(Step::Continue) && final(table).view() == exit_table(
                    t,
                    old(sched).threads(),
                    obj,
                ) && final(sched).threads() == exit_threads(t, old(sched).threads(), obj)
                &&& r is Err ==> final(table).view() == t && final(sched).threads() == old(sched).threads()
                &&& !t.contains_key(obj) ==> (r matches Err(e) && e@ == illegal_monitor_state(
                    "monitor not entered"@,
                ))
                &&& t.contains_key(obj) && t[obj].owner != Some(cur) ==> (r matches Err(e) && e@
                    == illegal_monitor_state("current thread is not owner"@))
            }
        },
{
    let ghost f = frame@;
    let name = insn_name(op);
    if frame.stack.len() == 0 {
        let mut e = String::new();
        e.append("Operand stack underflow in ");
        e.append(name);
        return Err(e);
    }
    let v = pop_value(&mut frame.stack);
    assert(frame@.stack =~= popped(f, 1));
    match v {
        Value::Ref(Some(k)) => {
            let obj = k as usize;
            if op == 0xc2 {
                table.monitor_enter(sched, obj);
                Ok(Step::Continue)
            } else {
                match table.monitor_exit(sched, obj) {
                    Ok(()) => Ok(Step::Continue),
                    Err(e) => Err(e),
                }
            }
        },
        Value::Ref(None) => Err(text_of(("java/lang/NullPointerException: ", name, " on null"))),
        _ => Err(text_of(("Internal VM error: ", name, " on non-reference value"))),
    }
}

} // verus!
