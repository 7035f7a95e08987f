use jvm_core::launcher::{classpath_load_error, main_not_found_error, JvmProcess, PumpStep, SliceOutcome};
use jvm_core::process::{parse_system_exit, ProcessExit, ProcessState, StdioMode, StdioPipes};
use jvm_core::threads::ThreadState;

#[test]
fn system_exit_code_is_parsed() {
    assert_eq!(parse_system_exit("java/lang/RuntimeException: System.exit(3)"), Some(3));
    assert_eq!(parse_system_exit("System.exit(-17) called"), Some(-17));
    assert_eq!(parse_system_exit("System.exit(+5)"), Some(5));
    assert_eq!(parse_system_exit("System.exit(2147483647)"), Some(2147483647));
    assert_eq!(parse_system_exit("System.exit(-2147483648)"), Some(-2147483648));
    assert_eq!(parse_system_exit("System.exit(2147483648)"), None);
    assert_eq!(parse_system_exit("System.exit()"), None);
    assert_eq!(parse_system_exit("System.exit(-)"), None);
    assert_eq!(parse_system_exit("System.exit( 1)"), None);
    assert_eq!(parse_system_exit("System.exit(1"), None);
    assert_eq!(parse_system_exit("exit(1)"), None);
    assert_eq!(parse_system_exit("é System.exit(0042) é"), Some(42));
}

#[test]
fn stdio_modes_are_parsed() {
    assert_eq!(StdioMode::from_spec("pipe"), Ok(StdioMode::Pipe));
    assert_eq!(StdioMode::from_spec("ignore"), Ok(StdioMode::Ignore));
    assert_eq!(StdioMode::from_spec("inherit"), Ok(StdioMode::Inherit));
    assert_eq!(
        StdioMode::from_spec("tty"),
        Err("Unsupported stdio mode: tty".to_owned())
    );
}

#[test]
fn stdin_pipe_delivers_bytes_then_end_of_file() {
    let mut p = StdioPipes::new();
    assert_eq!(p.stdin_read_byte(), -2);
    assert!(p.write_stdin(&[7, 200]));
    assert_eq!(p.stdin_available(), 2);
    assert_eq!(p.stdin_read_byte(), 7);
    assert_eq!(p.stdin_read_byte(), 200);
    p.stdin_closed = true;
    assert_eq!(p.stdin_read_byte(), -1);
    assert!(!p.write_stdin(&[1]));
    p.set_stdio_modes(StdioMode::Ignore, StdioMode::Pipe, StdioMode::Pipe);
    assert!(p.stdin_closed);
    assert!(!p.write_stdin(&[1]));
}

#[test]
fn piped_output_is_taken_in_order() {
    let mut p = StdioPipes::new();
    p.stdout_chunks.push_back(vec![1, 2]);
    p.stdout_chunks.push_back(vec![3]);
    p.stderr_chunks.push_back(vec![9]);
    assert_eq!(p.take_stdout(), vec![1, 2, 3]);
    assert_eq!(p.take_stdout(), Vec::<u8>::new());
    assert_eq!(p.take_stderr(), vec![9]);
}

#[test]
fn pump_gives_the_main_thread_a_slice() {
    let mut p = JvmProcess::new();
    assert_eq!(p.pump(0), PumpStep::Done(ProcessState::Running));
    assert_eq!(p.pump(5), PumpStep::RunSlice);
    assert_eq!(p.resume_pump(SliceOutcome::Paused), PumpStep::RunSlice);
    assert_eq!(p.resume_pump(SliceOutcome::Returned), PumpStep::Done(ProcessState::Exited));
    let exit = p.exit().expect("exited");
    assert_eq!(exit.exit_code, 0);
    assert_eq!(exit.uncaught_exception, None);
    assert!(p.is_exited());
    assert_eq!(p.pump(5), PumpStep::Done(ProcessState::Exited));
}

#[test]
fn pump_stops_after_its_rounds() {
    let mut p = JvmProcess::new();
    assert_eq!(p.pump(2), PumpStep::RunSlice);
    assert_eq!(p.resume_pump(SliceOutcome::Paused), PumpStep::RunSlice);
    assert_eq!(p.resume_pump(SliceOutcome::Paused), PumpStep::Done(ProcessState::Running));
    assert!(!p.is_exited());
}

#[test]
fn main_thread_system_exit_ends_the_process() {
    let mut p = JvmProcess::new();
    assert_eq!(p.pump(3), PumpStep::RunSlice);
    let step = p.resume_pump(SliceOutcome::Threw("java/lang/Error: System.exit(4)".to_owned()));
    assert_eq!(step, PumpStep::Done(ProcessState::Exited));
    assert_eq!(p.exit(), Some(&ProcessExit { exit_code: 4, uncaught_exception: None }));
}

#[test]
fn main_thread_exception_ends_the_process_with_code_1() {
    let mut p = JvmProcess::new();
    assert_eq!(p.pump(3), PumpStep::RunSlice);
    let step = p.resume_pump(SliceOutcome::Threw("java/lang/IllegalStateException: boom".to_owned()));
    assert_eq!(step, PumpStep::Done(ProcessState::Exited));
    assert_eq!(
        p.exit(),
        Some(&ProcessExit {
            exit_code: 1,
            uncaught_exception: Some("java/lang/IllegalStateException: boom".to_owned())
        })
    );
}

#[test]
fn deadlock_ends_the_process() {
    let mut p = JvmProcess::new();
    p.scheduler_mut().spawn(None);
    assert_eq!(p.pump(10), PumpStep::RunSlice);
    p.scheduler_mut().current_thread_mut().state = ThreadState::Joining(1);
    p.scheduler_mut().thread_mut(1).unwrap().state = ThreadState::WaitingOnMonitor(3);
    assert_eq!(p.resume_pump(SliceOutcome::Paused), PumpStep::Done(ProcessState::Exited));
    assert_eq!(
        p.exit(),
        Some(&ProcessExit {
            exit_code: 1,
            uncaught_exception: Some(
                "Deadlock: no runnable threads (thread 0=Joining(1), thread 1=WaitingOnMonitor(3))"
                    .to_owned()
            )
        })
    );
    assert_eq!(p.scheduler().current_thread().id, 0);
}

#[test]
fn stdin_reader_makes_the_process_wait_for_input() {
    let mut p = JvmProcess::new();
    p.set_system_stdin(77);
    assert_eq!(p.pump(10), PumpStep::RunSlice);
    {
        let (m, s) = p.monitors_mut();
        m.monitor_enter(s, 77);
        assert!(m.monitor_wait(s, 77).is_ok());
    }
    assert_eq!(p.resume_pump(SliceOutcome::Paused), PumpStep::Done(ProcessState::WaitingForInput));
    assert!(p.is_waiting_on_stdin());
    p.write_stdin(b"x");
    assert_eq!(p.scheduler().current_thread().state, ThreadState::Runnable);
    assert_eq!(p.stdio_mut().stdin_read_byte(), 120);
    assert_eq!(p.pump(10), PumpStep::RunSlice);
}

#[test]
fn second_thread_runs_after_main_returns() {
    let mut p = JvmProcess::new();
    p.scheduler_mut().spawn(Some(5));
    assert_eq!(p.pump(10), PumpStep::RunSlice);
    assert_eq!(p.resume_pump(SliceOutcome::Returned), PumpStep::RunSlice);
    assert_eq!(p.scheduler().current_thread().id, 1);
    let step = p.resume_pump(SliceOutcome::Threw("java/lang/RuntimeException: in thread".to_owned()));
    assert_eq!(step, PumpStep::Done(ProcessState::Exited));
    assert_eq!(p.exit(), Some(&ProcessExit { exit_code: 0, uncaught_exception: None }));
}

#[test]
fn yielded_thread_gets_its_turn_again() {
    let mut p = JvmProcess::new();
    p.scheduler_mut().spawn(None);
    assert_eq!(p.pump(10), PumpStep::RunSlice);
    p.scheduler_mut().current_thread_mut().state = ThreadState::Yielded;
    assert_eq!(p.resume_pump(SliceOutcome::Paused), PumpStep::RunSlice);
    assert_eq!(p.scheduler().current_thread().id, 1);
    assert_eq!(p.scheduler().thread(0).unwrap().state, ThreadState::Runnable);
}

#[test]
fn kill_ends_a_running_process_once() {
    let mut p = JvmProcess::new();
    p.kill();
    assert_eq!(
        p.exit(),
        Some(&ProcessExit { exit_code: 137, uncaught_exception: Some("Process killed".to_owned()) })
    );
    p.kill();
    assert_eq!(p.exit().unwrap().exit_code, 137);
    p.write_stdin(b"ignored");
    assert_eq!(p.stdio().stdin_bytes.len(), 0);
}

#[test]
fn flush_prints_partial_lines_of_inherited_streams() {
    let mut p = JvmProcess::new();
    p.stdio_mut().stdout_buffer.push_str("partial");
    p.stdio_mut().stderr_buffer.push_str("oops");
    p.kill();
    let lines = p.take_host_lines();
    assert_eq!(lines.len(), 2);
    assert!(!lines[0].is_err);
    assert_eq!(lines[0].text, "partial");
    assert!(lines[1].is_err);
    assert_eq!(lines[1].text, "oops");
    assert!(p.take_host_lines().is_empty());
}

#[test]
fn launch_resets_threads_and_stdio() {
    let mut p = JvmProcess::new();
    p.scheduler_mut().spawn(None);
    p.prepare_launch(StdioMode::Pipe, StdioMode::Pipe, StdioMode::Ignore);
    assert_eq!(p.scheduler().thread_count(), 1);
    assert_eq!(p.stdio().stderr_mode, StdioMode::Ignore);
    p.finish_native_main(Some("java/lang/Error: bad".to_owned()));
    assert_eq!(
        p.exit(),
        Some(&ProcessExit { exit_code: 1, uncaught_exception: Some("java/lang/Error: bad".to_owned()) })
    );
}

#[test]
fn launch_error_messages() {
    assert_eq!(
        classpath_load_error("Invalid JAR/ZIP: bad"),
        "launchClasspathMain failed during classpath load: Invalid JAR/ZIP: bad"
    );
    assert_eq!(main_not_found_error("app/Main"), "Method not found: app/Main.main([Ljava/lang/String;)V");
}

#[test]
fn printstream_prints_complete_lines() {
    let mut p = JvmProcess::new();
    p.write_printstream(false, "ab\ncd", false);
    p.write_printstream(false, "e\n\nf", false);
    p.write_printstream(true, "err", true);
    let lines = p.take_host_lines();
    let texts: Vec<(bool, String)> = lines.into_iter().map(|l| (l.is_err, l.text)).collect();
    assert_eq!(
        texts,
        vec![
            (false, "ab".to_owned()),
            (false, "cde".to_owned()),
            (false, "".to_owned()),
            (true, "err".to_owned()),
        ]
    );
    assert_eq!(p.stdio().stdout_buffer, "f");
    assert_eq!(p.stdio().stderr_buffer, "");
    p.write_printstream(false, "", true);
    let last = p.take_host_lines();
    assert_eq!(last.len(), 1);
    assert_eq!(last[0].text, "f");
}
