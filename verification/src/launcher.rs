//! A JVM run as a process: the scheduling decisions of `pump`, stdin and
//! stdout plumbing, and how the process ends.
//!
//! The interpreter itself runs outside this module. `pump` and
//! `resume_pump` decide, round by round, whether the running thread gets a
//! time slice (`PumpStep::RunSlice`); the caller runs it and reports how it
//! ended through `resume_pump`, until a `PumpStep::Done` comes back.

use vstd::prelude::*;
use crate::monitors::{host_notify_table, host_notify_threads, with_state, MonitorTable};
use crate::process::{
    parse_system_exit, system_exit_code, HostLine, ProcessExit, ProcessState, StdioMode, StdioPipes,
};
use crate::text::chars_of;
use crate::threads::{
    count_runnable, next_runnable, runnable_at, summary_text, wake_all, Scheduler, ThreadContext,
    ThreadState,
};

verus! {

/// How the running thread's time slice ended.
pub enum SliceOutcome {
    /// Its `run()` (or `main`) returned.
    Returned,
    /// It stopped at the end of the slice, or to wait, yield or sleep.
    Paused,
    /// It threw; the text describes the uncaught exception.
    Threw(String),
}

/// What the caller of `pump` / `resume_pump` does next.
#[derive(Debug, Clone, Copy, PartialEq, Eq, Structural)]
pub enum PumpStep {
    /// Run the running thread for one time slice, then call `resume_pump`.
    RunSlice,
    /// This pump is over.
    Done(ProcessState),
}

/// How a run of rounds ends, with the exit code and uncaught-exception text
/// of an exit.
pub enum PumpEnd {
    RunSlice,
    Running,
    WaitingForInput,
    Exit(i32, Option<Seq<char>>),
}

/// What the end of a round leads to.
pub enum RoundEnd {
    Continue,
    WaitingForInput,
    Exit(i32, Option<Seq<char>>),
}

pub open spec fn all_terminated(ts: Seq<ThreadContext>) -> bool {
    forall|i: int| 0 <= i < ts.len() ==> #[trigger] ts[i].state == ThreadState::Terminated
}

/// Whether some thread waits in `Object.wait()` on the `System.in` object.
pub open spec fn waiting_on_stdin(ts: Seq<ThreadContext>, stdin: Option<usize>) -> bool {
    match stdin {
        Some(o) => exists|i: int|
            0 <= i < ts.len() && (#[trigger] ts[i]).state == ThreadState::WaitingOnCondition(o),
        None => false,
    }
}

pub open spec fn deadlock_text(ts: Seq<ThreadContext>) -> Seq<char> {
    "Deadlock: no runnable threads ("@ + summary_text(ts) + ")"@
}

/// The end of a round: joiners of terminated threads wake; the process
/// exits normally once every thread has terminated; otherwise the next
/// runnable thread in round-robin order is picked, and when there is none
/// the process waits for stdin input or exits with a deadlock.
pub open spec fn settle(ts: Seq<ThreadContext>, cur: int, stdin: Option<usize>) -> (Seq<ThreadContext>, int, RoundEnd) {
    let ts1 = wake_all(ts);
    if all_terminated(ts1) {
        (ts1, 0, RoundEnd::Exit(0, None))
    } else {
        match next_runnable(ts1, cur) {
            Some(c) => (ts1, c, RoundEnd::Continue),
            None => if waiting_on_stdin(ts1, stdin) {
                (ts1, cur, RoundEnd::WaitingForInput)
            } else {
                (ts1, 0, RoundEnd::Exit(1, Some(deadlock_text(ts1))))
            },
        }
    }
}

/// A yielded or sleeping thread is runnable again at its next turn.
pub open spec fn wake_paused(ts: Seq<ThreadContext>, cur: int) -> Seq<ThreadContext> {
    if ts[cur].state == ThreadState::Yielded || ts[cur].state == ThreadState::Sleeping {
        with_state(ts, cur, ThreadState::Runnable)
    } else {
        ts
    }
}

/// Rounds from round `done` on, up to `max`: a runnable thread stops them
/// to get a time slice; any other thread's turn just ends the round.
pub open spec fn pump_rounds(
    ts: Seq<ThreadContext>,
    cur: int,
    done: nat,
    max: nat,
    stdin: Option<usize>,
) -> (Seq<ThreadContext>, int, nat, PumpEnd)
    decreases max - done,
{
    if done >= max {
        (ts, cur, done, PumpEnd::Running)
    } else if ts[cur].state == ThreadState::Runnable {
        (ts, cur, done + 1, PumpEnd::RunSlice)
    } else {
        let (ts2, cur2, e) = settle(wake_paused(ts, cur), cur, stdin);
        match e {
            RoundEnd::Continue => pump_rounds(ts2, cur2, done + 1, max, stdin),
            RoundEnd::WaitingForInput => (ts2, cur2, done + 1, PumpEnd::WaitingForInput),
            RoundEnd::Exit(c, m) => (ts2, cur2, done + 1, PumpEnd::Exit(c, m)),
        }
    }
}

/// The exit of a main thread that threw `err`: the code of a
/// `System.exit(<code>)`, else 1 with the error as the uncaught exception.
pub open spec fn thrown_exit(err: Seq<char>) -> PumpEnd {
    match system_exit_code(err) {
        Some(code) => PumpEnd::Exit(code, None),
        None => PumpEnd::Exit(1, Some(err)),
    }
}

/// The end of a round that settles with threads `ts1`, and the rounds after.
pub open spec fn continue_rounds(
    ts1: Seq<ThreadContext>,
    cur: int,
    done: nat,
    max: nat,
    stdin: Option<usize>,
) -> (Seq<ThreadContext>, int, nat, PumpEnd) {
    let (ts2, cur2, e) = settle(ts1, cur, stdin);
    match e {
        RoundEnd::Continue => pump_rounds(ts2, cur2, done, max, stdin),
        RoundEnd::WaitingForInput => (ts2, cur2, done, PumpEnd::WaitingForInput),
        RoundEnd::Exit(c, m) => (ts2, cur2, done, PumpEnd::Exit(c, m)),
    }
}

/// The rest of a round whose running thread had a time slice that ended
/// with `outcome`, and the rounds after it: a thread that returned or threw
/// has terminated, and the main thread throwing ends the process.
pub open spec fn resume_rounds(
    ts: Seq<ThreadContext>,
    cur: int,
    done: nat,
    max: nat,
    stdin: Option<usize>,
    outcome: SliceOutcome,
) -> (Seq<ThreadContext>, int, nat, PumpEnd) {
    match outcome {
        SliceOutcome::Returned => continue_rounds(
            with_state(ts, cur, ThreadState::Terminated),
            cur,
            done,
            max,
            stdin,
        ),
        SliceOutcome::Paused => continue_rounds(wake_paused(ts, cur), cur, done, max, stdin),
        SliceOutcome::Threw(err) => if ts[cur].id == 0 {
            (with_state(ts, cur, ThreadState::Terminated), 0, done, thrown_exit(err@))
        } else {
            continue_rounds(with_state(ts, cur, ThreadState::Terminated), cur, done, max, stdin)
        },
    }
}

/// The complete lines of `s` (each ended by `\n`, which is dropped) and
/// what follows the last of them.
pub open spec fn split_lines(s: Seq<char>) -> (Seq<Seq<char>>, Seq<char>)
    decreases s.len(),
{
    match crate::text::find_from(s, seq!['\n'], 0) {
        None => (Seq::empty(), s),
        Some(p) => if p < s.len() {
            let rest = split_lines(s.subrange(p as int + 1, s.len() as int));
            (seq![s.subrange(0, p as int)] + rest.0, rest.1)
        } else {
            (Seq::empty(), s)
        },
    }
}

pub open spec fn as_host_lines(is_err: bool, lines: Seq<Seq<char>>) -> Seq<(bool, Seq<char>)> {
    lines.map_values(|l: Seq<char>| (is_err, l))
}

/// The exit code and uncaught-exception text of an exit.
pub open spec fn exit_view(e: ProcessExit) -> (i32, Option<Seq<char>>) {
    (
        e.exit_code,
        match e.uncaught_exception {
            Some(s) => Some(s@),
            None => None,
        },
    )
}

/// The text of the lines a flush prints: a partial line of each inherited
/// stream, stdout first.
pub open spec fn flushed_lines(stdio: StdioPipes) -> Seq<(bool, Seq<char>)> {
    let out = if stdio.stdout_mode == StdioMode::Inherit && stdio.stdout_buffer@.len() > 0 {
        seq![(false, stdio.stdout_buffer@)]
    } else {
        Seq::empty()
    };
    let err = if stdio.stderr_mode == StdioMode::Inherit && stdio.stderr_buffer@.len() > 0 {
        seq![(true, stdio.stderr_buffer@)]
    } else {
        Seq::empty()
    };
    out + err
}

/// `q` is `p` after a flush: the partial line of each inherited output
/// stream is gone, and nothing else changed.
pub open spec fn after_flush(p: StdioPipes, q: StdioPipes) -> bool {
    &&& q.stdout_buffer@ == if p.stdout_mode == StdioMode::Inherit {
        Seq::<char>::empty()
    } else {
        p.stdout_buffer@
    }
    &&& q.stderr_buffer@ == if p.stderr_mode == StdioMode::Inherit {
        Seq::<char>::empty()
    } else {
        p.stderr_buffer@
    }
    &&& q.stdin_mode == p.stdin_mode
    &&& q.stdout_mode == p.stdout_mode
    &&& q.stderr_mode == p.stderr_mode
    &&& q.stdout_chunks == p.stdout_chunks
    &&& q.stderr_chunks == p.stderr_chunks
    &&& q.stdin_bytes == p.stdin_bytes
    &&& q.stdin_closed == p.stdin_closed
}

pub open spec fn host_line_view(l: HostLine) -> (bool, Seq<char>) {
    (l.is_err, l.text@)
}

/// `new` is `old` after a run of rounds that computed `r` and answered
/// `step`; an exit ends the process (flushing the printstreams).
pub open spec fn applied(
    old: JvmProcess,
    new: JvmProcess,
    r: (Seq<ThreadContext>, int, nat, PumpEnd),
    step: PumpStep,
) -> bool {
    &&& new.sched().threads() == r.0
    &&& new.sched().current_index() == r.1
    &&& new.rounds_done() == r.2
    &&& new.sched().next_id() == old.sched().next_id()
    &&& new.mons() == old.mons()
    &&& new.stdin_object() == old.stdin_object()
    &&& match r.3 {
        PumpEnd::Exit(code, msg) => {
            &&& step == PumpStep::Done(ProcessState::Exited)
            &&& new.exit_status() matches Some(e) && exit_view(e) == (code, msg)
            &&& new.host_output() == old.host_output() + flushed_lines(old.pipes())
            &&& after_flush(old.pipes(), new.pipes())
        },
        _ => {
            &&& step == match r.3 {
                PumpEnd::RunSlice => PumpStep::RunSlice,
                PumpEnd::WaitingForInput => PumpStep::Done(ProcessState::WaitingForInput),
                _ => PumpStep::Done(ProcessState::Running),
            }
            &&& new.exit_status() == old.exit_status()
            &&& new.host_output() == old.host_output()
            &&& new.pipes() == old.pipes()
        },
    }
}

/// The result of a round's end alone: `RunSlice` stands for going on.
pub open spec fn settled(ts: Seq<ThreadContext>, cur: int, done: nat, stdin: Option<usize>) -> (
    Seq<ThreadContext>,
    int,
    nat,
    PumpEnd,
) {
    let (ts2, cur2, e) = settle(ts, cur, stdin);
    (
        ts2,
        cur2,
        done,
        match e {
            RoundEnd::Continue => PumpEnd::RunSlice,
            RoundEnd::WaitingForInput => PumpEnd::WaitingForInput,
            RoundEnd::Exit(c, m) => PumpEnd::Exit(c, m),
        },
    )
}

pub open spec fn step_or_slice(r: Option<PumpStep>) -> PumpStep {
    match r {
        Some(step) => step,
        None => PumpStep::RunSlice,
    }
}

/// The lines, each followed by `\n`.
pub open spec fn joined_lines(lines: Seq<Seq<char>>) -> Seq<char>
    decreases lines.len(),
{
    if lines.len() == 0 {
        Seq::empty()
    } else {
        lines[0] + seq!['\n'] + joined_lines(lines.drop_first())
    }
}

proof fn lemma_first_newline(s: Seq<char>, i: nat)
    ensures
        crate::text::find_from(s, seq!['\n'], i) matches Some(p) ==> forall|q: int|
            i <= q < p ==> s[q] != '\n',
        crate::text::find_from(s, seq!['\n'], i) is None ==> forall|q: int| i <= q < s.len() ==> s[q] != '\n',
    decreases s.len() + 1 - i,
{
    let pat = seq!['\n'];
    if i + 1 <= s.len() {
        if crate::text::matches_at(s, pat, i as int) {
        } else {
            assert(s.subrange(i as int, i + 1int) =~= seq![s[i as int]]);
            lemma_first_newline(s, i + 1);
        }
    }
}

/// Printing loses and adds nothing: the complete lines, each put back with
/// its `\n`, followed by the partial line, are the text, and no line holds
/// a `\n`.
pub proof fn law_printed_lines_reassemble(s: Seq<char>)
    ensures
        joined_lines(split_lines(s).0) + split_lines(s).1 == s,
        forall|i: int| 0 <= i < split_lines(s).0.len() ==> !(#[trigger] split_lines(s).0[i]).contains('\n'),
        !split_lines(s).1.contains('\n'),
    decreases s.len(),
{
    let pat = seq!['\n'];
    crate::text::lemma_find_from_bound(s, pat, 0);
    lemma_first_newline(s, 0);
    match crate::text::find_from(s, pat, 0) {
        None => {
            assert(joined_lines(Seq::<Seq<char>>::empty()) =~= Seq::<char>::empty());
            assert(Seq::<char>::empty() + s =~= s);
        },
        Some(p) => {
            let rest = s.subrange(p as int + 1, s.len() as int);
            law_printed_lines_reassemble(rest);
            let (ls, r) = split_lines(rest);
            let line = s.subrange(0, p as int);
            assert(split_lines(s).0 =~= seq![line] + ls);
            assert((seq![line] + ls).drop_first() =~= ls);
            assert(s.subrange(p as int, p as int + 1) =~= seq!['\n']);
            assert(joined_lines(ls) + r == rest);
            assert(line + seq!['\n'] + rest =~= s);
            assert(line + seq!['\n'] + joined_lines(ls) + r =~= line + seq!['\n'] + (joined_lines(ls) + r));
            assert(joined_lines(seq![line] + ls) == line + seq!['\n'] + joined_lines(ls));
            assert forall|i: int| 0 <= i < split_lines(s).0.len() implies !(#[trigger] split_lines(s).0[i]).contains('\n') by {
                if i == 0 {
                    if line.contains('\n') {
                        let q = choose|q: int| 0 <= q < line.len() && line[q] == '\n';
                        assert(s[q] == '\n');
                    }
                } else {
                    assert(split_lines(s).0[i] == ls[i - 1]);
                }
            }
        },
    }
}

proof fn lemma_count_runnable_zero(ts: Seq<ThreadContext>)
    requires
        forall|i: int| 0 <= i < ts.len() ==> !runnable_at(ts, i),
    ensures
        count_runnable(ts) == 0,
    decreases ts.len(),
{
    if ts.len() > 0 {
        assert(!runnable_at(ts, ts.len() - 1));
        assert forall|i: int| 0 <= i < ts.drop_last().len() implies !runnable_at(ts.drop_last(), i) by {
            assert(ts.drop_last()[i] == ts[i]);
            assert(!runnable_at(ts, i));
        }
        lemma_count_runnable_zero(ts.drop_last());
    }
}

/// The scheduling, monitor and stdio state of a JVM process, and how it
/// ended.
pub struct JvmProcess {
    scheduler: Scheduler,
    monitors: MonitorTable,
    stdio: StdioPipes,
    /// Identity of the `System.in` object, once there is one.
    system_stdin: Option<usize>,
    exit: Option<ProcessExit>,
    host_lines: Vec<HostLine>,
    rounds: usize,
    max_rounds: usize,
}

impl JvmProcess {
    pub closed spec fn sched(&self) -> Scheduler {
        self.scheduler
    }

    pub closed spec fn mons(&self) -> MonitorTable {
        self.monitors
    }

    pub closed spec fn pipes(&self) -> StdioPipes {
        self.stdio
    }

    /// Identity of the `System.in` object, once there is one.
    pub closed spec fn stdin_object(&self) -> Option<usize> {
        self.system_stdin
    }

    pub open spec fn wf(&self) -> bool {
        self.sched().wf() && self.mons().wf()
    }

    /// How the process ended, if it has.
    pub closed spec fn exit_status(&self) -> Option<ProcessExit> {
        self.exit
    }

    /// Lines waiting to be printed on the host console.
    pub closed spec fn host_output(&self) -> Seq<(bool, Seq<char>)> {
        self.host_lines@.map_values(|l: HostLine| host_line_view(l))
    }

    /// Rounds this pump has used so far.
    pub closed spec fn rounds_done(&self) -> nat {
        self.rounds as nat
    }

    /// Rounds this pump may use.
    pub closed spec fn rounds_max(&self) -> nat {
        self.max_rounds as nat
    }

    /// A process with only its main thread, piped stdin and inherited
    /// stdout and stderr.
    pub fn new() -> (p: JvmProcess)
        ensures
            p.wf(),
            p.exit_status() is None,
            p.host_output() == Seq::<(bool, Seq<char>)>::empty(),
            p.sched().threads().len() == 1,
            p.sched().current().id == 0,
            p.sched().current().state == ThreadState::Runnable,
            p.sched().threads() == seq![crate::threads::fresh_thread(0, None)],
            p.sched().current_index() == 0,
            p.sched().next_id() == 1,
            p.mons().view() == Map::<usize, crate::monitors::MonitorV>::empty(),
            p.stdin_object() is None,
            p.pipes().stdin_mode == StdioMode::Pipe,
            p.pipes().stdout_mode == StdioMode::Inherit,
            p.pipes().stderr_mode == StdioMode::Inherit,
            p.pipes().stdout_buffer@ == Seq::<char>::empty(),
            p.pipes().stderr_buffer@ == Seq::<char>::empty(),
            p.pipes().stdout_chunks@ == Seq::<Vec<u8>>::empty(),
            p.pipes().stderr_chunks@ == Seq::<Vec<u8>>::empty(),
            p.pipes().stdin_bytes@ == Seq::<u8>::empty(),
            !p.pipes().stdin_closed,
            p.rounds_done() == 0,
            p.rounds_max() == 0,
    {
        let p = JvmProcess {
            scheduler: Scheduler::new(),
            monitors: MonitorTable::new(),
            stdio: StdioPipes::new(),
            system_stdin: None,
            exit: None,
            host_lines: Vec::new(),
            rounds: 0,
            max_rounds: 0,
        };
        assert(p.host_output() =~= Seq::<(bool, Seq<char>)>::empty());
        p
    }

    /// How the process ended, if it has.
    pub fn exit(&self) -> (r: Option<&ProcessExit>)
        ensures
            r is Some <==> self.exit_status() is Some,
            r matches Some(e) ==> self.exit_status() == Some(*e),
    {
        match &self.exit {
            Some(e) => Some(e),
            None => None,
        }
    }

    /// Whether the process has ended.
    pub fn is_exited(&self) -> (r: bool)
        ensures
            r == self.exit_status() is Some,
    {
        self.exit.is_some()
    }

    /// The lines to print on the host console, which are then forgotten.
    pub fn take_host_lines(&mut self) -> (lines: Vec<HostLine>)
        ensures
            lines@.map_values(|l: HostLine| host_line_view(l)) == old(self).host_output(),
            final(self).host_output() == Seq::<(bool, Seq<char>)>::empty(),
            final(self).exit_status() == old(self).exit_status(),
            final(self).sched() == old(self).sched(),
            final(self).mons() == old(self).mons(),
            final(self).pipes() == old(self).pipes(),
            final(self).stdin_object() == old(self).stdin_object(),
    {
        let mut lines = Vec::new();
        std::mem::swap(&mut lines, &mut self.host_lines);
        assert(self.host_output() =~= Seq::<(bool, Seq<char>)>::empty());
        lines
    }

    /// Prints (queues for the host) the partial line of each inherited
    /// output stream, and forgets it.
    pub fn flush_printstreams(&mut self)
        ensures
            final(self).host_output() == old(self).host_output() + flushed_lines(old(self).pipes()),
            after_flush(old(self).pipes(), final(self).pipes()),
            final(self).sched() == old(self).sched(),
            final(self).mons() == old(self).mons(),
            final(self).stdin_object() == old(self).stdin_object(),
            final(self).exit_status() == old(self).exit_status(),
            final(self).rounds_done() == old(self).rounds_done(),
            final(self).rounds_max() == old(self).rounds_max(),
    {
        let ghost lines0 = self.host_output();
        if self.stdio.stdout_mode == StdioMode::Inherit {
            let mut text = String::new();
            std::mem::swap(&mut text, &mut self.stdio.stdout_buffer);
            if !text.as_str().is_empty() {
                self.host_lines.push(HostLine { is_err: false, text });
            }
        }
        let ghost lines1 = self.host_output();
        if self.stdio.stderr_mode == StdioMode::Inherit {
            let mut text = String::new();
            std::mem::swap(&mut text, &mut self.stdio.stderr_buffer);
            if !text.as_str().is_empty() {
                self.host_lines.push(HostLine { is_err: true, text });
            }
        }
        assert(self.host_output() =~= lines0 + flushed_lines(old(self).stdio));
    }

    /// Ends the process: printstreams are flushed, the main thread becomes
    /// the running one, and the exit is recorded.
    fn finish(&mut self, exit: ProcessExit)
        requires
            old(self).wf(),
        ensures
            final(self).wf(),
            final(self).exit_status() == Some(exit),
            final(self).host_output() == old(self).host_output() + flushed_lines(old(self).pipes()),
            final(self).sched().threads() == old(self).sched().threads(),
            final(self).sched().current_index() == 0,
            final(self).sched().next_id() == old(self).sched().next_id(),
            final(self).mons() == old(self).mons(),
            final(self).stdin_object() == old(self).stdin_object(),
            after_flush(old(self).pipes(), final(self).pipes()),
            final(self).rounds_done() == old(self).rounds_done(),
            final(self).rounds_max() == old(self).rounds_max(),
    {
        self.flush_printstreams();
        self.scheduler.reset_to_main();
        self.exit = Some(exit);
    }

    /// The scheduler.
    pub fn scheduler(&self) -> (r: &Scheduler)
        ensures
            *r == self.sched(),
    {
        &self.scheduler
    }

    /// The scheduler, for update (the interpreter switches thread states
    /// while it runs a time slice).
    pub fn scheduler_mut(&mut self) -> (r: &mut Scheduler)
        ensures
            *r == old(self).sched(),
            final(self).sched() == *final(r),
            final(self).mons() == old(self).mons(),
            final(self).pipes() == old(self).pipes(),
            final(self).stdin_object() == old(self).stdin_object(),
            final(self).exit_status() == old(self).exit_status(),
            final(self).host_output() == old(self).host_output(),
            final(self).rounds_done() == old(self).rounds_done(),
            final(self).rounds_max() == old(self).rounds_max(),
    {
        &mut self.scheduler
    }

    /// The monitors and the scheduler, for update.
    pub fn monitors_mut(&mut self) -> (r: (&mut MonitorTable, &mut Scheduler))
        ensures
            *r.0 == old(self).mons(),
            *r.1 == old(self).sched(),
            final(self).mons() == *final(r.0),
            final(self).sched() == *final(r.1),
            final(self).pipes() == old(self).pipes(),
            final(self).stdin_object() == old(self).stdin_object(),
            final(self).exit_status() == old(self).exit_status(),
            final(self).host_output() == old(self).host_output(),
            final(self).rounds_done() == old(self).rounds_done(),
            final(self).rounds_max() == old(self).rounds_max(),
    {
        (&mut self.monitors, &mut self.scheduler)
    }

    /// The standard streams.
    pub fn stdio(&self) -> (r: &StdioPipes)
        ensures
            *r == self.pipes(),
    {
        &self.stdio
    }

    /// The standard streams, for update.
    pub fn stdio_mut(&mut self) -> (r: &mut StdioPipes)
        ensures
            *r == old(self).pipes(),
            final(self).pipes() == *final(r),
            final(self).sched() == old(self).sched(),
            final(self).mons() == old(self).mons(),
            final(self).stdin_object() == old(self).stdin_object(),
            final(self).exit_status() == old(self).exit_status(),
            final(self).host_output() == old(self).host_output(),
            final(self).rounds_done() == old(self).rounds_done(),
            final(self).rounds_max() == old(self).rounds_max(),
    {
        &mut self.stdio
    }

    /// Records the identity of the `System.in` object.
    pub fn set_system_stdin(&mut self, obj: usize)
        ensures
            final(self).stdin_object() == Some(obj),
            final(self).sched() == old(self).sched(),
            final(self).mons() == old(self).mons(),
            final(self).pipes() == old(self).pipes(),
            final(self).exit_status() == old(self).exit_status(),
            final(self).host_output() == old(self).host_output(),
            final(self).rounds_done() == old(self).rounds_done(),
            final(self).rounds_max() == old(self).rounds_max(),
    {
        self.system_stdin = Some(obj);
    }

    /// The end of a round: wakes joiners, then ends the process when every
    /// thread has terminated, or switches to the next runnable thread, or
    /// (with none) waits for stdin or ends the process with a deadlock.
    fn end_round(&mut self) -> (r: Option<PumpStep>)
        requires
            old(self).wf(),
            old(self).exit_status() is None,
        ensures
            final(self).wf(),
            final(self).rounds_max() == old(self).rounds_max(),
            applied(
                *old(self),
                *final(self),
                settled(
                    old(self).sched().threads(),
                    old(self).sched().current_index(),
                    old(self).rounds_done(),
                    old(self).stdin_object(),
                ),
                step_or_slice(r),
            ),
            r is None <==> settle(
                old(self).sched().threads(),
                old(self).sched().current_index(),
                old(self).stdin_object(),
            ).2 is Continue,
    {
        let ghost ts0 = self.scheduler.threads();
        let ghost cur0 = self.scheduler.current_index();
        self.scheduler.wake_joiners();
        if self.scheduler.all_terminated() {
            self.finish(ProcessExit { exit_code: 0, uncaught_exception: None });
            return Some(PumpStep::Done(ProcessState::Exited));
        }
        if !self.scheduler.advance() {
            proof {
                lemma_count_runnable_zero(self.scheduler.threads());
            }
            if self.scheduler.runnable_count() == 0 {
                if self.is_waiting_on_stdin() {
                    return Some(PumpStep::Done(ProcessState::WaitingForInput));
                }
                let mut msg = String::new();
                msg.append("Deadlock: no runnable threads (");
                let summary = self.scheduler.alive_thread_summary();
                msg.append(summary.as_str());
                msg.append(")");
                proof {
                    reveal_strlit("Deadlock: no runnable threads (");
                    reveal_strlit(")");
                }
                assert(msg@ =~= deadlock_text(wake_all(ts0)));
                self.finish(ProcessExit { exit_code: 1, uncaught_exception: Some(msg) });
                return Some(PumpStep::Done(ProcessState::Exited));
            }
        }
        None
    }

    /// Rounds from the current one on, until a runnable thread needs a
    /// time slice, the process waits or ends, or the rounds run out.
    fn run_rounds(&mut self) -> (step: PumpStep)
        requires
            old(self).wf(),
            old(self).exit_status() is None,
        ensures
            final(self).wf(),
            final(self).rounds_max() == old(self).rounds_max(),
            applied(
                *old(self),
                *final(self),
                pump_rounds(
                    old(self).sched().threads(),
                    old(self).sched().current_index(),
                    old(self).rounds_done(),
                    old(self).rounds_max(),
                    old(self).stdin_object(),
                ),
                step,
            ),
    {
        loop
            invariant
                self.wf(),
                self.exit_status() is None,
                old(self).exit_status() is None,
                self.rounds_max() == old(self).rounds_max(),
                self.sched().next_id() == old(self).sched().next_id(),
                self.mons() == old(self).mons(),
                self.stdin_object() == old(self).stdin_object(),
                self.host_output() == old(self).host_output(),
                self.pipes() == old(self).pipes(),
                pump_rounds(
                    self.sched().threads(),
                    self.sched().current_index(),
                    self.rounds_done(),
                    self.rounds_max(),
                    self.stdin_object(),
                ) == pump_rounds(
                    old(self).sched().threads(),
                    old(self).sched().current_index(),
                    old(self).rounds_done(),
                    old(self).rounds_max(),
                    old(self).stdin_object(),
                ),
            decreases self.max_rounds - self.rounds,
        {
            let ghost ts = self.sched().threads();
            let ghost cur = self.sched().current_index();
            let ghost done = self.rounds_done();
            let ghost max = self.rounds_max();
            let ghost stdin = self.stdin_object();
            if self.rounds >= self.max_rounds {
                return PumpStep::Done(ProcessState::Running);
            }
            self.rounds = self.rounds + 1;
            let state = self.scheduler.current_thread().state;
            match state {
                ThreadState::Runnable => {
                    return PumpStep::RunSlice;
                },
                ThreadState::Yielded | ThreadState::Sleeping => {
                    self.scheduler.current_thread_mut().state = ThreadState::Runnable;
                },
                _ => {},
            }
            assert(self.sched().threads() == wake_paused(ts, cur));
            let ghost mid = *self;
            let r = self.end_round();
            proof {
                let (ts2, cur2, e) = settle(wake_paused(ts, cur), cur, stdin);
                assert(settled(wake_paused(ts, cur), cur, (done + 1) as nat, stdin) == (
                    ts2,
                    cur2,
                    (done + 1) as nat,
                    match e {
                        RoundEnd::Continue => PumpEnd::RunSlice,
                        RoundEnd::WaitingForInput => PumpEnd::WaitingForInput,
                        RoundEnd::Exit(c, m) => PumpEnd::Exit(c, m),
                    },
                ));
            }
            match r {
                Some(step) => {
                    return step;
                },
                None => {},
            }
        }
    }

    /// Starts pumping the process for at most `max_rounds` rounds. Each
    /// round gives the running thread, if runnable, a time slice: the answer
    /// is then `RunSlice`, and the caller runs the slice and reports how it
    /// ended to `resume_pump`. A yielded or sleeping thread is runnable again
    /// at its turn. After each round, joiners of terminated threads wake,
    /// and the next runnable thread in round-robin order is picked. The
    /// process exits (code 0) once every thread has terminated, waits when
    /// no thread can run but one reads stdin, and exits (code 1) on a
    /// deadlock.
    pub fn pump(&mut self, max_rounds: usize) -> (step: PumpStep)
        requires
            old(self).wf(),
        ensures
            final(self).wf(),
            old(self).exit_status() is Some ==> step == PumpStep::Done(ProcessState::Exited)
                && *final(self) == *old(self),
            old(self).exit_status() is None && max_rounds == 0 ==> step == PumpStep::Done(
                ProcessState::Running,
            ) && *final(self) == *old(self),
            old(self).exit_status() is None && max_rounds > 0 ==> final(self).rounds_max()
                == max_rounds && applied(
                *old(self),
                *final(self),
                pump_rounds(
                    old(self).sched().threads(),
                    old(self).sched().current_index(),
                    0,
                    max_rounds as nat,
                    old(self).stdin_object(),
                ),
                step,
            ),
    {
        if self.exit.is_some() {
            return PumpStep::Done(ProcessState::Exited);
        }
        if max_rounds == 0 {
            return PumpStep::Done(ProcessState::Running);
        }
        self.rounds = 0;
        self.max_rounds = max_rounds;
        self.run_rounds()
    }

    /// Goes on with the pump after the running thread had its time slice,
    /// which ended with `outcome`: a thread that returned or threw has
    /// terminated, and when the main thread threw the process exits, with
    /// the code of a `System.exit(<code>)` in the error or else code 1 and
    /// the error as the uncaught exception.
    pub fn resume_pump(&mut self, outcome: SliceOutcome) -> (step: PumpStep)
        requires
            old(self).wf(),
            old(self).exit_status() is None,
        ensures
            final(self).wf(),
            final(self).rounds_max() == old(self).rounds_max(),
            applied(
                *old(self),
                *final(self),
                resume_rounds(
                    old(self).sched().threads(),
                    old(self).sched().current_index(),
                    old(self).rounds_done(),
                    old(self).rounds_max(),
                    old(self).stdin_object(),
                    outcome,
                ),
                step,
            ),
    {
        let ghost ts0 = self.sched().threads();
        let ghost cur0 = self.sched().current_index();
        let ghost done0 = self.rounds_done();
        let ghost stdin0 = self.stdin_object();
        let ghost outcome0 = outcome;
        let current_id = self.scheduler.current_thread().id;
        match outcome {
            SliceOutcome::Returned => {
                self.scheduler.current_thread_mut().state = ThreadState::Terminated;
            },
            SliceOutcome::Paused => {
                let t = self.scheduler.current_thread_mut();
                if t.state == ThreadState::Yielded || t.state == ThreadState::Sleeping {
                    t.state = ThreadState::Runnable;
                }
            },
            SliceOutcome::Threw(err) => {
                self.scheduler.current_thread_mut().state = ThreadState::Terminated;
                if current_id == 0 {
                    let exit = match parse_system_exit(err.as_str()) {
                        Some(code) => ProcessExit { exit_code: code, uncaught_exception: None },
                        None => ProcessExit { exit_code: 1, uncaught_exception: Some(err) },
                    };
                    self.finish(exit);
                    return PumpStep::Done(ProcessState::Exited);
                }
            },
        }
        let ghost ts1 = self.sched().threads();
        assert(ts1 == match outcome0 {
            SliceOutcome::Paused => wake_paused(ts0, cur0),
            _ => with_state(ts0, cur0, ThreadState::Terminated),
        });
        assert(resume_rounds(ts0, cur0, done0, self.rounds_max(), stdin0, outcome0) == continue_rounds(
            ts1,
            cur0,
            done0,
            self.rounds_max(),
            stdin0,
        ));
        let r = self.end_round();
        match r {
            Some(step) => step,
            None => self.run_rounds(),
        }
    }

    /// Readies the process for a launch: the stdio modes are set (dropping
    /// everything buffered), the scheduler has only the main thread again,
    /// and no object has a monitor.
    pub fn prepare_launch(&mut self, stdin: StdioMode, stdout: StdioMode, stderr: StdioMode)
        ensures
            final(self).wf(),
            final(self).pipes().stdin_mode == stdin,
            final(self).pipes().stdout_mode == stdout,
            final(self).pipes().stderr_mode == stderr,
            final(self).pipes().stdin_closed == (stdin == StdioMode::Ignore),
            final(self).pipes().stdin_bytes@ == Seq::<u8>::empty(),
            final(self).pipes().stdout_buffer@ == Seq::<char>::empty(),
            final(self).pipes().stderr_buffer@ == Seq::<char>::empty(),
            final(self).pipes().stdout_chunks@ == Seq::<Vec<u8>>::empty(),
            final(self).pipes().stderr_chunks@ == Seq::<Vec<u8>>::empty(),
            final(self).sched().threads().len() == 1,
            final(self).sched().current().id == 0,
            final(self).sched().current().state == ThreadState::Runnable,
            final(self).mons().view() == Map::<usize, crate::monitors::MonitorV>::empty(),
            final(self).exit_status() == old(self).exit_status(),
    {
        self.stdio.set_stdio_modes(stdin, stdout, stderr);
        self.scheduler = Scheduler::new();
        self.monitors.clear();
    }

    /// Records how a `main` that ran natively (with no bytecode frame) ended:
    /// code 1 with the pending exception, if one is left, else code 0; the
    /// printstreams are flushed.
    pub fn finish_native_main(&mut self, pending_exception: Option<String>)
        ensures
            final(self).exit_status() matches Some(e) && exit_view(e) == match pending_exception {
                Some(err) => (1i32, Some(err@)),
                None => (0i32, None),
            },
            final(self).host_output() == old(self).host_output() + flushed_lines(old(self).pipes()),
            after_flush(old(self).pipes(), final(self).pipes()),
            final(self).sched() == old(self).sched(),
            final(self).mons() == old(self).mons(),
    {
        let exit = match pending_exception {
            Some(err) => ProcessExit { exit_code: 1, uncaught_exception: Some(err) },
            None => ProcessExit { exit_code: 0, uncaught_exception: None },
        };
        self.exit = Some(exit);
        self.flush_printstreams();
    }

    /// Prints text through `System.out` (or `System.err` when `is_err`):
    /// it is added to the stream's partial line, each complete line goes to
    /// the host console, and with `newline` the rest of the line goes too.
    pub fn write_printstream(&mut self, is_err: bool, text: &str, newline: bool)
        ensures
            ({
                let buf = if is_err {
                    old(self).pipes().stderr_buffer@
                } else {
                    old(self).pipes().stdout_buffer@
                };
                let (lines, rest) = split_lines(buf + text@);
                let printed = as_host_lines(is_err, lines) + if newline {
                    seq![(is_err, rest)]
                } else {
                    Seq::empty()
                };
                let kept = if newline {
                    Seq::<char>::empty()
                } else {
                    rest
                };
                &&& final(self).host_output() == old(self).host_output() + printed
                &&& is_err ==> final(self).pipes().stderr_buffer@ == kept && final(self).pipes().stdout_buffer
                    == old(self).pipes().stdout_buffer
                &&& !is_err ==> final(self).pipes().stdout_buffer@ == kept && final(self).pipes().stderr_buffer
                    == old(self).pipes().stderr_buffer
            }),
            final(self).sched() == old(self).sched(),
            final(self).mons() == old(self).mons(),
            final(self).stdin_object() == old(self).stdin_object(),
            final(self).exit_status() == old(self).exit_status(),
            final(self).pipes().stdin_bytes == old(self).pipes().stdin_bytes,
            final(self).pipes().stdin_closed == old(self).pipes().stdin_closed,
            final(self).pipes().stdout_chunks == old(self).pipes().stdout_chunks,
            final(self).pipes().stderr_chunks == old(self).pipes().stderr_chunks,
            final(self).rounds_done() == old(self).rounds_done(),
            final(self).rounds_max() == old(self).rounds_max(),
    {
        let mut all: Vec<char> = if is_err {
            chars_of(self.stdio.stderr_buffer.as_str())
        } else {
            chars_of(self.stdio.stdout_buffer.as_str())
        };
        let ghost buf = all@;
        let added = chars_of(text);
        let mut j: usize = 0;
        while j < added.len()
            invariant
                j <= added@.len(),
                all@ == buf + added@.take(j as int),
            decreases added@.len() - j,
        {
            all.push(added[j]);
            assert(added@.take(j as int + 1) =~= added@.take(j as int).push(added@[j as int]));
            j = j + 1;
        }
        assert(added@.take(j as int) =~= text@);
        let ghost whole = all@;
        let newline_char = chars_of("\n");
        proof {
            reveal_strlit("\n");
            assert(newline_char@ =~= seq!['\n']);
        }
        let ghost host0 = self.host_output();
        let mut start: usize = 0;
        let ghost mut emitted: Seq<Seq<char>> = Seq::empty();
        assert(whole.subrange(0, whole.len() as int) =~= whole);
        assert(Seq::<Seq<char>>::empty() + split_lines(whole).0 =~= split_lines(whole).0);
        assert(as_host_lines(is_err, emitted) =~= Seq::<(bool, Seq<char>)>::empty());
        assert(host0 + Seq::<(bool, Seq<char>)>::empty() =~= host0);
        loop
            invariant
                all@ == whole,
                start <= whole.len(),
                newline_char@ == seq!['\n'],
                split_lines(whole) == (emitted + split_lines(whole.subrange(start as int, whole.len() as int)).0,
                    split_lines(whole.subrange(start as int, whole.len() as int)).1),
                self.host_output() == host0 + as_host_lines(is_err, emitted),
                self.stdio == old(self).stdio,
                self.scheduler == old(self).scheduler,
                self.monitors == old(self).monitors,
                self.system_stdin == old(self).system_stdin,
                self.exit == old(self).exit,
                self.rounds == old(self).rounds,
                self.max_rounds == old(self).max_rounds,
            ensures
                all@ == whole,
                start <= whole.len(),
                split_lines(whole.subrange(start as int, whole.len() as int)) == (
                    Seq::<Seq<char>>::empty(),
                    whole.subrange(start as int, whole.len() as int),
                ),
                split_lines(whole) == (emitted + split_lines(whole.subrange(start as int, whole.len() as int)).0,
                    split_lines(whole.subrange(start as int, whole.len() as int)).1),
                self.host_output() == host0 + as_host_lines(is_err, emitted),
                self.stdio == old(self).stdio,
                self.scheduler == old(self).scheduler,
                self.monitors == old(self).monitors,
                self.system_stdin == old(self).system_stdin,
                self.exit == old(self).exit,
                self.rounds == old(self).rounds,
                self.max_rounds == old(self).max_rounds,
            decreases whole.len() - start,
        {
            let ghost tail = whole.subrange(start as int, whole.len() as int);
            proof {
                crate::text::lemma_find_from_bound(all@, newline_char@, start as nat);
                lemma_find_shift(whole, start as int);
            }
            match crate::text::find_chars(&all, &newline_char, start) {
                Some(pos) => {
                    let n = all.len();
                    assert(pos < n);
                    let line = string_of_range(&all, start, pos);
                    let ghost before = self.host_output();
                    self.host_lines.push(HostLine { is_err, text: line });
                    proof {
                        assert(self.host_output() =~= before.push((is_err, whole.subrange(start as int, pos as int))));
                        let seg = whole.subrange(start as int, pos as int);
                        assert(tail.subrange(0, pos - start) =~= seg);
                        assert(tail.subrange(pos - start + 1, tail.len() as int) =~= whole.subrange(
                            pos as int + 1,
                            whole.len() as int,
                        ));
                        assert(as_host_lines(is_err, emitted.push(seg)) =~= as_host_lines(is_err, emitted).push(
                            (is_err, seg),
                        ));
                        assert(self.host_output() =~= host0 + as_host_lines(is_err, emitted.push(seg)));
                        assert(emitted + (seq![seg] + split_lines(whole.subrange(pos as int + 1, whole.len() as int)).0)
                            =~= emitted.push(seg) + split_lines(whole.subrange(pos as int + 1, whole.len() as int)).0);
                        emitted = emitted.push(seg);
                    }
                    start = pos + 1;
                },
                None => {
                    assert(split_lines(tail) == (Seq::<Seq<char>>::empty(), tail));
                    break;
                },
            }
        }
        let ghost rest = whole.subrange(start as int, whole.len() as int);
        assert(emitted + Seq::<Seq<char>>::empty() =~= emitted);
        let rest_text = string_of_range(&all, start, all.len());
        let ghost h1 = self.host_output();
        if newline {
            self.host_lines.push(HostLine { is_err, text: rest_text });
            assert(self.host_output() =~= h1.push((is_err, rest)));
            if is_err {
                self.stdio.stderr_buffer = String::new();
            } else {
                self.stdio.stdout_buffer = String::new();
            }
        } else if is_err {
            self.stdio.stderr_buffer = rest_text;
        } else {
            self.stdio.stdout_buffer = rest_text;
        }
        assert(self.host_output() =~= host0 + (as_host_lines(is_err, emitted) + if newline {
            seq![(is_err, rest)]
        } else {
            Seq::empty()
        }));
    }

    /// Kills a running process (exit code 137).
    pub fn kill(&mut self)
        requires
            old(self).wf(),
        ensures
            final(self).wf(),
            old(self).exit_status() is None ==> (final(self).exit_status() matches Some(e) && exit_view(e)
                == (137i32, Some("Process killed"@))),
            old(self).exit_status() is Some ==> final(self).exit_status() == old(self).exit_status(),
    {
        if self.exit.is_none() {
            self.finish(ProcessExit { exit_code: 137, uncaught_exception: Some("Process killed".to_owned()) });
        }
    }

    /// Whether some thread waits on the `System.in` object.
    pub fn is_waiting_on_stdin(&self) -> (r: bool)
        ensures
            r == waiting_on_stdin(self.sched().threads(), self.stdin_object()),
    {
        match self.system_stdin {
            None => false,
            Some(stdin_id) => {
                let n = self.scheduler.thread_count();
                let mut i: usize = 0;
                while i < n
                    invariant
                        n == self.scheduler.threads().len(),
                        self.system_stdin == Some(stdin_id),
                        i <= n,
                        forall|j: int|
                            0 <= j < i ==> #[trigger] self.scheduler.threads()[j].state
                                != ThreadState::WaitingOnCondition(stdin_id),
                    decreases n - i,
                {
                    if self.scheduler.thread_at(i).state == ThreadState::WaitingOnCondition(stdin_id) {
                        assert(self.sched().threads()[i as int].state == ThreadState::WaitingOnCondition(
                            stdin_id,
                        ));

                        return true;
                    }
                    i = i + 1;
                }
                false
            },
        }
    }

    /// Appends bytes to stdin (unless the process has ended, or stdin is
    /// ignored or closed) and wakes the threads waiting on `System.in`.
    pub fn write_stdin(&mut self, bytes: &[u8])
        requires
            old(self).wf(),
        ensures
            final(self).wf(),
            final(self).exit_status() == old(self).exit_status(),
            old(self).exit_status() is None && old(self).pipes().stdin_mode != StdioMode::Ignore
                && !old(self).pipes().stdin_closed ==> {
                &&& final(self).pipes().stdin_bytes@ == old(self).pipes().stdin_bytes@ + bytes@
                &&& final(self).mons().view() == match old(self).stdin_object() {
                    Some(o) => host_notify_table(old(self).mons().view(), old(self).sched().threads(), o),
                    None => old(self).mons().view(),
                }
                &&& final(self).sched().threads() == match old(self).stdin_object() {
                    Some(o) => host_notify_threads(
                        old(self).mons().view(),
                        old(self).sched().threads(),
                        o,
                    ),
                    None => old(self).sched().threads(),
                }
            },
            !(old(self).exit_status() is None && old(self).pipes().stdin_mode != StdioMode::Ignore
                && !old(self).pipes().stdin_closed) ==> {
                &&& final(self).pipes().stdin_bytes@ == old(self).pipes().stdin_bytes@
                &&& final(self).mons().view() == old(self).mons().view()
                &&& final(self).sched().threads() == old(self).sched().threads()
            },
            final(self).pipes().stdin_closed == old(self).pipes().stdin_closed,
    {
        if self.exit.is_some() {
            return;
        }
        if self.stdio.write_stdin(bytes) {
            match self.system_stdin {
                Some(stdin) => self.monitors.host_notify_all(&mut self.scheduler, stdin),
                None => {},
            }
        }
    }

    /// Closes stdin (unless the process has ended) and wakes the threads
    /// waiting on `System.in`, which then read end of file.
    pub fn close_stdin(&mut self)
        requires
            old(self).wf(),
        ensures
            final(self).wf(),
            final(self).exit_status() == old(self).exit_status(),
            old(self).exit_status() is None ==> {
                &&& final(self).pipes().stdin_closed
                &&& final(self).mons().view() == match old(self).stdin_object() {
                    Some(o) => host_notify_table(old(self).mons().view(), old(self).sched().threads(), o),
                    None => old(self).mons().view(),
                }
                &&& final(self).sched().threads() == match old(self).stdin_object() {
                    Some(o) => host_notify_threads(
                        old(self).mons().view(),
                        old(self).sched().threads(),
                        o,
                    ),
                    None => old(self).sched().threads(),
                }
            },
            old(self).exit_status() is Some ==> final(self).pipes().stdin_closed == old(self).pipes().stdin_closed
                && final(self).mons().view() == old(self).mons().view() && final(self).sched().threads()
                == old(self).sched().threads(),
    {
        if self.exit.is_some() {
            return;
        }
        self.stdio.stdin_closed = true;
        match self.system_stdin {
            Some(stdin) => self.monitors.host_notify_all(&mut self.scheduler, stdin),
            None => {},
        }
    }

    /// Everything piped to stdout so far.
    pub fn take_stdout(&mut self) -> (out: Vec<u8>)
        ensures
            out@ == crate::process::concat_chunks(old(self).pipes().stdout_chunks@),
            final(self).pipes().stdout_chunks@ == Seq::<Vec<u8>>::empty(),
            final(self).pipes().stderr_chunks == old(self).pipes().stderr_chunks,
            final(self).pipes().stdin_bytes == old(self).pipes().stdin_bytes,
            final(self).pipes().stdin_closed == old(self).pipes().stdin_closed,
            final(self).sched() == old(self).sched(),
            final(self).mons() == old(self).mons(),
            final(self).stdin_object() == old(self).stdin_object(),
            final(self).exit_status() == old(self).exit_status(),
            final(self).host_output() == old(self).host_output(),
    {
        self.stdio.take_stdout()
    }

    /// Everything piped to stderr so far.
    pub fn take_stderr(&mut self) -> (out: Vec<u8>)
        ensures
            out@ == crate::process::concat_chunks(old(self).pipes().stderr_chunks@),
            final(self).pipes().stderr_chunks@ == Seq::<Vec<u8>>::empty(),
            final(self).pipes().stdout_chunks == old(self).pipes().stdout_chunks,
            final(self).pipes().stdin_bytes == old(self).pipes().stdin_bytes,
            final(self).pipes().stdin_closed == old(self).pipes().stdin_closed,
            final(self).sched() == old(self).sched(),
            final(self).mons() == old(self).mons(),
            final(self).stdin_object() == old(self).stdin_object(),
            final(self).exit_status() == old(self).exit_status(),
            final(self).host_output() == old(self).host_output(),
    {
        self.stdio.take_stderr()
    }
}

/// The error of a launch whose classpath could not be loaded.
pub fn classpath_load_error(e: &str) -> (msg: String)
    ensures
        msg@ == "launchClasspathMain failed during classpath load: "@ + e@,
{
    let mut msg = String::new();
    msg.append("launchClasspathMain failed during classpath load: ");
    msg.append(e);
    msg
}

/// The error of a launch whose main class has no `main(String[])`.
pub fn main_not_found_error(main_class: &str) -> (msg: String)
    ensures
        msg@ == "Method not found: "@ + main_class@ + ".main([Ljava/lang/String;)V"@,
{
    let mut msg = String::new();
    msg.append("Method not found: ");
    msg.append(main_class);
    msg.append(".main([Ljava/lang/String;)V");
    msg
}

proof fn lemma_none_runnable(ts: Seq<ThreadContext>, cur: int, k: int)
    requires
        0 <= cur < ts.len(),
        1 <= k,
        crate::threads::first_runnable_from(ts, cur, k) is None,
    ensures
        forall|j: int| k <= j <= ts.len() ==> !runnable_at(ts, #[trigger] crate::threads::ring_step(cur, j, ts.len() as int)),
    decreases ts.len() + 1 - k,
{
    if k <= ts.len() {
        lemma_none_runnable(ts, cur, k + 1);
    }
}

/// The process ends with exit code 0 at the end of a round exactly when
/// every thread has terminated once the joiners are woken.
pub proof fn law_exit_zero_iff_all_terminated(ts: Seq<ThreadContext>, cur: int, stdin: Option<usize>)
    requires
        0 <= cur < ts.len(),
    ensures
        (settle(ts, cur, stdin).2 matches RoundEnd::Exit(code, _) && code == 0) <==> all_terminated(
            wake_all(ts),
        ),
{
}

/// A round ends the process with a deadlock only when, after the joiners
/// are woken, some thread is alive but none can run and none reads stdin.
pub proof fn law_deadlock_only_when_stuck(ts: Seq<ThreadContext>, cur: int, stdin: Option<usize>)
    requires
        0 <= cur < ts.len(),
    ensures
        (settle(ts, cur, stdin).2 matches RoundEnd::Exit(code, _) && code == 1) ==> {
            &&& !all_terminated(wake_all(ts))
            &&& forall|i: int| 0 <= i < ts.len() ==> !runnable_at(wake_all(ts), i)
            &&& !waiting_on_stdin(wake_all(ts), stdin)
        },
{
    let w = wake_all(ts);
    if settle(ts, cur, stdin).2 matches RoundEnd::Exit(code, _) && code == 1 {
        lemma_none_runnable(w, cur, 1);
        assert forall|i: int| 0 <= i < ts.len() implies !runnable_at(w, i) by {
            let n = ts.len() as int;
            let k = if i > cur { i - cur } else { i - cur + n };
            assert(crate::threads::ring_step(cur, k, n) == i);
        }
    }
}

fn string_of_range(s: &Vec<char>, lo: usize, hi: usize) -> (r: String)
    requires
        lo <= hi <= s@.len(),
    ensures
        r@ == s@.subrange(lo as int, hi as int),
{
    let mut r = String::new();
    let mut i = lo;
    while i < hi
        invariant
            lo <= i <= hi <= s@.len(),
            r@ == s@.subrange(lo as int, i as int),
        decreases hi - i,
    {
        crate::text::push_char(&mut r, s[i]);
        assert(s@.subrange(lo as int, i as int + 1) =~= s@.subrange(lo as int, i as int).push(s@[i as int]));
        i = i + 1;
    }
    r
}

/// Searching from `start` in `s` is searching the tail of `s` from 0,
/// shifted by `start`.
proof fn lemma_find_shift(s: Seq<char>, start: int)
    requires
        0 <= start <= s.len(),
    ensures
        match crate::text::find_from(s, seq!['\n'], start as nat) {
            Some(p) => crate::text::find_from(s.subrange(start, s.len() as int), seq!['\n'], 0) == Some(
                (p - start) as nat,
            ),
            None => crate::text::find_from(s.subrange(start, s.len() as int), seq!['\n'], 0) is None,
        },
{
    lemma_find_shift_from(s, start, 0);
}

proof fn lemma_find_shift_from(s: Seq<char>, start: int, k: int)
    requires
        0 <= start <= s.len(),
        0 <= k <= s.len() - start,
    ensures
        match crate::text::find_from(s, seq!['\n'], (start + k) as nat) {
            Some(p) => crate::text::find_from(s.subrange(start, s.len() as int), seq!['\n'], k as nat) == Some(
                (p - start) as nat,
            ),
            None => crate::text::find_from(s.subrange(start, s.len() as int), seq!['\n'], k as nat) is None,
        },
    decreases s.len() - start - k,
{
    let t = s.subrange(start, s.len() as int);
    let pat = seq!['\n'];
    if start + k + 1 <= s.len() {
        assert(s.subrange(start + k, start + k + 1) =~= t.subrange(k, k + 1));
        if !crate::text::matches_at(s, pat, start + k) {
            lemma_find_shift_from(s, start, k + 1);
        }
    }
}

} // verus!
