use jvm_core::bytecode::{Frame, Step, Value};
use jvm_core::monitors::{execute_monitor_opcode, MonitorTable};
use jvm_core::threads::{Scheduler, ThreadState};

#[test]
fn new_scheduler_runs_the_main_thread() {
    let s = Scheduler::new();
    assert_eq!(s.thread_count(), 1);
    assert_eq!(s.current_thread().id, 0);
    assert_eq!(s.current_thread().state, ThreadState::Runnable);
    assert_eq!(s.runnable_count(), 1);
    assert!(!s.all_terminated());
    assert!(s.only_main_alive());
}

#[test]
fn spawn_hands_out_increasing_ids() {
    let mut s = Scheduler::new();
    assert_eq!(s.spawn(Some(100)), 1);
    assert_eq!(s.spawn(None), 2);
    assert_eq!(s.thread_count(), 3);
    assert_eq!(s.find_thread_id_by_object(100), Some(1));
    assert_eq!(s.find_thread_id_by_object(200), None);
    assert!(s.thread(2).is_some());
    assert!(s.thread(7).is_none());
    assert!(!s.only_main_alive());
}

#[test]
fn advance_is_round_robin() {
    let mut s = Scheduler::new();
    s.spawn(None);
    s.spawn(None);
    assert!(s.advance());
    assert_eq!(s.current_thread().id, 1);
    s.thread_mut(2).unwrap().state = ThreadState::Sleeping;
    assert!(s.advance());
    assert_eq!(s.current_thread().id, 0);
    assert!(s.advance());
    assert_eq!(s.current_thread().id, 1);
}

#[test]
fn advance_finds_nothing_when_no_thread_can_run() {
    let mut s = Scheduler::new();
    s.spawn(None);
    s.current_thread_mut().state = ThreadState::Joining(1);
    s.thread_mut(1).unwrap().state = ThreadState::WaitingOnMonitor(5);
    assert!(!s.advance());
    assert_eq!(s.current_thread().id, 0);
    assert_eq!(s.runnable_count(), 0);
}

#[test]
fn advance_comes_back_to_the_running_thread_last() {
    let mut s = Scheduler::new();
    s.spawn(None);
    s.thread_mut(1).unwrap().state = ThreadState::Terminated;
    assert!(s.advance());
    assert_eq!(s.current_thread().id, 0);
}

#[test]
fn joiners_wake_when_their_target_terminates() {
    let mut s = Scheduler::new();
    s.spawn(None);
    s.spawn(None);
    s.current_thread_mut().state = ThreadState::Joining(1);
    s.thread_mut(2).unwrap().state = ThreadState::Joining(0);
    s.wake_joiners();
    assert_eq!(s.current_thread().state, ThreadState::Joining(1));
    s.thread_mut(1).unwrap().state = ThreadState::Terminated;
    s.wake_joiners();
    assert_eq!(s.current_thread().state, ThreadState::Runnable);
    assert_eq!(s.thread(2).unwrap().state, ThreadState::Joining(0));
}

#[test]
fn alive_thread_summary_lists_live_threads() {
    let mut s = Scheduler::new();
    s.spawn(None);
    s.spawn(None);
    s.current_thread_mut().state = ThreadState::Joining(1);
    s.thread_mut(1).unwrap().state = ThreadState::WaitingOnCondition(42);
    s.thread_mut(2).unwrap().state = ThreadState::Terminated;
    assert_eq!(
        s.alive_thread_summary(),
        "thread 0=Joining(1), thread 1=WaitingOnCondition(42)"
    );
    s.reset_to_main();
    assert_eq!(s.current_thread().id, 0);
}

#[test]
fn all_terminated_once_every_thread_ends() {
    let mut s = Scheduler::new();
    s.spawn(None);
    s.current_thread_mut().state = ThreadState::Terminated;
    assert!(!s.all_terminated());
    assert!(!s.only_main_alive());
    s.thread_mut(1).unwrap().state = ThreadState::Terminated;
    assert!(s.all_terminated());
}

#[test]
fn reentrant_monitor_counts_entries() {
    let mut s = Scheduler::new();
    let mut m = MonitorTable::new();
    m.monitor_enter(&mut s, 7);
    m.monitor_enter(&mut s, 7);
    assert_eq!(m.monitor(7).unwrap().count, 2);
    assert_eq!(m.monitor(7).unwrap().owner, Some(0));
    assert!(m.monitor_exit(&mut s, 7).is_ok());
    assert_eq!(m.monitor(7).unwrap().count, 1);
    assert!(m.monitor_exit(&mut s, 7).is_ok());
    assert!(m.monitor(7).is_none());
}

#[test]
fn exit_without_entering_is_refused() {
    let mut s = Scheduler::new();
    let mut m = MonitorTable::new();
    assert_eq!(
        m.monitor_exit(&mut s, 3),
        Err("java/lang/IllegalMonitorStateException: monitor not entered".to_owned())
    );
    m.monitor_enter(&mut s, 3);
    s.spawn(None);
    assert!(s.advance());
    assert_eq!(
        m.monitor_exit(&mut s, 3),
        Err("java/lang/IllegalMonitorStateException: current thread is not owner".to_owned())
    );
    assert_eq!(
        m.monitor_wait(&mut s, 9),
        Err("java/lang/IllegalMonitorStateException: object not locked".to_owned())
    );
    assert_eq!(
        m.monitor_notify(&s, 3),
        Err("java/lang/IllegalMonitorStateException: current thread is not owner".to_owned())
    );
}

#[test]
fn contended_monitor_blocks_and_is_handed_over() {
    let mut s = Scheduler::new();
    let mut m = MonitorTable::new();
    s.spawn(None);
    m.monitor_enter(&mut s, 1);
    assert!(s.advance());
    m.monitor_enter(&mut s, 1);
    assert_eq!(s.current_thread().state, ThreadState::WaitingOnMonitor(1));
    assert!(s.advance());
    assert_eq!(s.current_thread().id, 0);
    assert!(m.monitor_exit(&mut s, 1).is_ok());
    assert_eq!(m.monitor(1).unwrap().owner, Some(1));
    assert_eq!(m.monitor(1).unwrap().count, 1);
    assert_eq!(s.thread(1).unwrap().state, ThreadState::Runnable);
}

#[test]
fn wait_notify_gives_the_count_back() {
    let mut s = Scheduler::new();
    let mut m = MonitorTable::new();
    s.spawn(None);
    m.monitor_enter(&mut s, 4);
    m.monitor_enter(&mut s, 4);
    assert!(m.monitor_wait(&mut s, 4).is_ok());
    assert_eq!(s.current_thread().state, ThreadState::WaitingOnCondition(4));
    assert_eq!(s.current_thread().saved_monitor_count, 2);
    assert_eq!(m.monitor(4).unwrap().owner, None);
    assert!(s.advance());
    assert_eq!(s.current_thread().id, 1);
    m.monitor_enter(&mut s, 4);
    assert!(m.monitor_notify(&s, 4).is_ok());
    assert!(m.monitor_exit(&mut s, 4).is_ok());
    let mon = m.monitor(4).unwrap();
    assert_eq!(mon.owner, Some(0));
    assert_eq!(mon.count, 2);
    let main = s.thread(0).unwrap();
    assert_eq!(main.state, ThreadState::Runnable);
    assert_eq!(main.saved_monitor_count, 0);
}

#[test]
fn notify_all_moves_every_waiter() {
    let mut s = Scheduler::new();
    let mut m = MonitorTable::new();
    s.spawn(None);
    s.spawn(None);
    m.monitor_enter(&mut s, 8);
    assert!(m.monitor_wait(&mut s, 8).is_ok());
    assert!(s.advance());
    m.monitor_enter(&mut s, 8);
    assert!(m.monitor_wait(&mut s, 8).is_ok());
    assert!(s.advance());
    assert_eq!(s.current_thread().id, 2);
    m.monitor_enter(&mut s, 8);
    assert!(m.monitor_notify_all(&s, 8).is_ok());
    let mon = m.monitor(8).unwrap();
    assert_eq!(mon.entry_queue.iter().copied().collect::<Vec<_>>(), vec![0, 1]);
    assert!(mon.wait_queue.is_empty());
}

#[test]
fn host_notify_wakes_a_stdin_reader() {
    let mut s = Scheduler::new();
    let mut m = MonitorTable::new();
    m.monitor_enter(&mut s, 11);
    assert!(m.monitor_wait(&mut s, 11).is_ok());
    m.host_notify_all(&mut s, 11);
    let mon = m.monitor(11).unwrap();
    assert_eq!(mon.owner, Some(0));
    assert_eq!(mon.count, 1);
    assert_eq!(s.current_thread().state, ThreadState::Runnable);
    assert_eq!(s.current_thread().saved_monitor_count, 0);
    m.host_notify_all(&mut s, 99);
    assert!(m.monitor(99).is_none());
}

#[test]
fn starting_a_thread_object_twice_is_refused() {
    let mut s = Scheduler::new();
    let id = s.thread_start(0x1000).expect("first start");
    assert_eq!(id, 1);
    assert_eq!(s.thread_count(), 2);
    assert_eq!(
        s.thread_start(0x1000).err().unwrap(),
        "java/lang/IllegalThreadStateException: thread already started"
    );
    assert_eq!(s.thread_count(), 2);
    assert_eq!(s.thread_start(0x2000), Ok(2));
}

#[test]
fn thread_is_alive_until_it_terminates() {
    let mut s = Scheduler::new();
    assert!(!s.thread_is_alive(0x1000));
    let id = s.thread_start(0x1000).expect("start");
    assert!(s.thread_is_alive(0x1000));
    s.thread_mut(id).unwrap().state = ThreadState::Terminated;
    assert!(!s.thread_is_alive(0x1000));
}

#[test]
fn join_waits_only_for_a_live_thread() {
    let mut s = Scheduler::new();
    let id = s.thread_start(0x1000).expect("start");
    s.thread_join(id);
    assert_eq!(s.current_thread().state, ThreadState::Joining(id));

    let mut s = Scheduler::new();
    let id = s.thread_start(0x1000).expect("start");
    s.thread_mut(id).unwrap().state = ThreadState::Terminated;
    s.thread_join(id);
    assert_eq!(s.current_thread().state, ThreadState::Runnable);
}

#[test]
fn monitor_instructions_on_the_stack_operand() {
    let mut s = Scheduler::new();
    let mut t = MonitorTable::new();
    let mut frame = Frame { locals: vec![], stack: vec![Value::Ref(Some(7)), Value::Ref(Some(7))], pc: 1 };
    assert_eq!(execute_monitor_opcode(&mut frame, &mut t, &mut s, 0xc2), Ok(Step::Continue));
    assert_eq!(execute_monitor_opcode(&mut frame, &mut t, &mut s, 0xc3), Ok(Step::Continue));
    assert!(frame.stack.is_empty());
    assert!(t.monitor(7).is_none());
    assert_eq!(
        execute_monitor_opcode(&mut frame, &mut t, &mut s, 0xc2),
        Err("Operand stack underflow in monitorenter".to_string())
    );
    frame.stack = vec![Value::Ref(None)];
    assert_eq!(
        execute_monitor_opcode(&mut frame, &mut t, &mut s, 0xc3),
        Err("java/lang/NullPointerException: monitorexit on null".to_string())
    );
    frame.stack = vec![Value::Int(3)];
    assert_eq!(
        execute_monitor_opcode(&mut frame, &mut t, &mut s, 0xc2),
        Err("Internal VM error: monitorenter on non-reference value".to_string())
    );
    frame.stack = vec![Value::Ref(Some(9))];
    assert_eq!(
        execute_monitor_opcode(&mut frame, &mut t, &mut s, 0xc3),
        Err("java/lang/IllegalMonitorStateException: monitor not entered".to_string())
    );
}
