use bentos_execd::exec::WaitOutcome;
use bentos_execd::failure::{ErrorKind, Failure};
use bentos_execd::proto::{
    ExecError, ExecRequest, ExecStarted, ExitStatus, Message, Signal, WindowResize,
};
use bentos_execd::session::{
    handle_connection, session_non_tty, session_tty, Action, Event, Handler, Mode, Phase, Ready,
    Session, Stage, READ_SIZE,
};
use bentos_execd::wire::{
    read_frame, EXEC_ERROR, EXEC_REQUEST, EXEC_STARTED, EXIT_STATUS, MAX_PAYLOAD, SIGNAL,
    STDERR_DATA, STDIN_DATA, STDIN_EOF, STDOUT_DATA, WINDOW_RESIZE,
};

const IDLE: Ready = Ready { readable: false, hung_up: false };
const DATA: Ready = Ready { readable: true, hung_up: false };
const DATA_THEN_END: Ready = Ready { readable: true, hung_up: true };
const END: Ready = Ready { readable: false, hung_up: true };

fn make_req(cmd: &[&str], tty: bool) -> ExecRequest {
    ExecRequest {
        cmd: cmd.iter().map(|s| s.to_string()).collect(),
        env: Default::default(),
        cwd: String::new(),
        tty,
        rows: 24,
        cols: 80,
    }
}

fn polled(host: bool, stdout: Ready, stderr: bool) -> Event {
    Event::Polled { host, stdout, stderr }
}

fn frame(type_byte: u8, payload: &[u8]) -> Event {
    Event::Frame { type_byte, payload: payload.to_vec() }
}

fn output(data: &[u8]) -> Event {
    Event::Output(data.to_vec())
}

fn failed(kind: ErrorKind, text: &str) -> Event {
    Event::Failed(Failure::new(kind, text))
}

/// A handler that checks that each event answers the last action.
struct Host {
    handler: Handler,
    action: Action,
}

impl Host {
    fn accept(engine: bool) -> Host {
        let (handler, action) = handle_connection(engine);
        assert!(matches!(action, Action::ReadFrame));
        Host { handler, action }
    }

    /// A connection whose process runs.
    fn running(tty: bool) -> Host {
        let mut host = Host::accept(true);
        host.next(frame(EXEC_REQUEST, &make_req(&["cat"], tty).encode_to_vec()));
        host.next(Event::Launched(77));
        host.next(Event::Done);
        assert!(matches!(host.action, Action::Poll));
        host
    }

    fn next(&mut self, ev: Event) -> &Action {
        assert!(self.handler.expects(&ev));
        let (handler, action) = self.handler.step(ev);
        self.handler = handler;
        self.action = action;
        &self.action
    }

    fn sent(&self) -> (u8, Vec<u8>) {
        match &self.action {
            Action::Send(bytes) => {
                let mut rest = bytes.as_slice();
                let frame = read_frame(&mut rest).unwrap();
                assert!(rest.is_empty());
                frame
            }
            _ => panic!("nothing is sent"),
        }
    }

    fn error(&self) -> String {
        let (t, payload) = self.sent();
        assert_eq!(t, EXEC_ERROR);
        ExecError::decode(&payload).unwrap().error
    }

    fn closed_well(&self) -> bool {
        self.handler.stage == Stage::Closed && matches!(self.action, Action::Close(Ok(())))
    }

    fn closed_with(&self) -> &Failure {
        match &self.action {
            Action::Close(Err(e)) => e,
            _ => panic!("not closed by a failure"),
        }
    }
}

#[test]
fn non_tty_session_echo() {
    let mut host = Host::accept(true);
    let req = make_req(&["echo", "hello"], false);
    match host.next(frame(EXEC_REQUEST, &req.encode_to_vec())) {
        Action::Launch { req: asked, mode } => {
            assert_eq!(*asked, req);
            assert_eq!(*mode, Mode::Pipes);
        }
        _ => panic!("not launched"),
    }
    host.next(Event::Launched(1234));
    let (t, payload) = host.sent();
    assert_eq!(t, EXEC_STARTED);
    assert!(ExecStarted::decode(&payload).unwrap().pid > 0);
    assert_eq!(ExecStarted::decode(&payload).unwrap().pid, 1234);
    assert!(matches!(host.next(Event::Done), Action::Poll));

    assert!(matches!(host.next(polled(false, DATA_THEN_END, false)), Action::ReadStdout));
    host.next(output(b"hello\n"));
    let (t, payload) = host.sent();
    assert_eq!(t, STDOUT_DATA);
    assert_eq!(payload, b"hello\n");
    assert!(matches!(host.next(Event::Done), Action::Poll));

    assert!(matches!(host.next(polled(false, END, false)), Action::Wait));
    assert!(matches!(host.next(Event::Ended(WaitOutcome::Exited(0))), Action::Poll));
    host.next(polled(false, END, false));
    let (t, payload) = host.sent();
    assert_eq!(t, EXIT_STATUS);
    assert_eq!(ExitStatus::decode(&payload).unwrap().code, 0);
    host.next(Event::Done);
    assert!(host.closed_well());
}

#[test]
fn non_tty_session_stdout_stderr() {
    let mut host = Host::running(false);
    // The output ends while errors are still unread.
    host.next(polled(false, DATA, false));
    host.next(output(b"out\n"));
    assert_eq!(host.sent(), (STDOUT_DATA, b"out\n".to_vec()));
    assert!(matches!(host.next(Event::Done), Action::Poll));
    assert!(matches!(host.next(polled(false, END, true)), Action::Wait));
    assert!(matches!(host.next(Event::Ended(WaitOutcome::Exited(0))), Action::Poll));
    assert!(matches!(host.next(polled(false, END, true)), Action::ReadStderr));
    host.next(output(b"err\n"));
    assert_eq!(host.sent(), (STDERR_DATA, b"err\n".to_vec()));
    assert!(matches!(host.next(Event::Done), Action::Poll));
    host.next(polled(false, END, false));
    let (t, payload) = host.sent();
    assert_eq!(t, EXIT_STATUS);
    assert_eq!(ExitStatus::decode(&payload).unwrap().code, 0);
}

#[test]
fn errors_left_behind_come_before_the_exit_status() {
    let mut host = Host::running(false);
    assert!(matches!(host.next(polled(false, END, false)), Action::Wait));
    assert!(matches!(host.next(Event::Ended(WaitOutcome::Exited(3))), Action::Poll));
    for part in [b"late ".to_vec(), b"errors\n".to_vec()] {
        assert!(matches!(host.next(polled(true, END, true)), Action::ReadStderr));
        host.next(output(&part));
        assert_eq!(host.sent(), (STDERR_DATA, part));
        assert!(matches!(host.next(Event::Done), Action::Poll));
    }
    assert!(matches!(host.next(polled(true, END, true)), Action::ReadStderr));
    assert!(matches!(host.next(output(&[])), Action::Poll));
    host.next(polled(true, END, false));
    let (t, payload) = host.sent();
    assert_eq!(t, EXIT_STATUS);
    assert_eq!(ExitStatus::decode(&payload).unwrap().code, 3);
    host.next(Event::Done);
    assert!(host.closed_well());

    // A host that does not get the errors gets no exit status either.
    let mut host = Host::running(false);
    host.next(polled(false, END, false));
    host.next(Event::Ended(WaitOutcome::Exited(0)));
    host.next(polled(false, END, true));
    host.next(output(b"late"));
    host.next(failed(ErrorKind::Other, "EPIPE"));
    assert!(host.closed_well());
}

#[test]
fn exit_status_comes_though_errors_cannot_be_read() {
    for polls in [false, true] {
        let mut host = Host::running(false);
        host.next(polled(false, END, true));
        host.next(Event::Ended(WaitOutcome::Signaled(9)));
        if polls {
            assert!(matches!(host.next(polled(false, END, true)), Action::ReadStderr));
        }
        host.next(failed(ErrorKind::Other, "EINTR"));
        let (t, payload) = host.sent();
        assert_eq!(t, EXIT_STATUS);
        assert_eq!(ExitStatus::decode(&payload).unwrap(), ExitStatus { code: -1, signal: 9 });
        host.next(Event::Done);
        assert!(host.closed_well());
    }
}

#[test]
fn handle_invalid_first_frame() {
    let mut host = Host::accept(true);
    host.next(frame(STDIN_DATA, b"bad"));
    assert!(host.error().contains("expected EXEC_REQUEST"));
    assert_eq!(host.error(), "expected EXEC_REQUEST (0x01), got 0x02");
    host.next(Event::Done);
    assert!(host.closed_well());
}

#[test]
fn tty_session_echo() {
    let mut host = Host::accept(true);
    host.next(frame(EXEC_REQUEST, &make_req(&["/bin/sh"], true).encode_to_vec()));
    host.next(Event::Launched(9));
    host.next(Event::Done);
    host.next(polled(true, IDLE, false));
    match host.next(frame(STDIN_DATA, b"echo hello\n")) {
        Action::WriteStdin(data) => assert_eq!(data, b"echo hello\n"),
        _ => panic!("not written"),
    }
    host.next(Event::Done);
    host.next(polled(false, DATA, false));
    host.next(output(b"echo hello\r\nhello\r\n"));
    assert_eq!(host.sent(), (STDOUT_DATA, b"echo hello\r\nhello\r\n".to_vec()));
    host.next(Event::Done);
    host.next(polled(false, END, false));
    host.next(Event::Ended(WaitOutcome::Exited(0)));
    assert_eq!(host.sent().0, EXIT_STATUS);
    host.next(Event::Done);
    assert!(host.closed_well());
}

#[test]
fn dispatch_tty_true() {
    let mut host = Host::accept(true);
    host.next(frame(EXEC_REQUEST, &make_req(&["true"], true).encode_to_vec()));
    assert_eq!(host.handler.stage, Stage::Launching(Mode::Terminal));
    host.next(Event::Launched(5));
    assert_eq!(host.sent().0, EXEC_STARTED);
    host.next(Event::Done);
    host.next(polled(false, END, false));
    host.next(Event::Ended(WaitOutcome::Exited(0)));
    assert_eq!(host.sent().0, EXIT_STATUS);
}

#[test]
fn dispatch_tty_false() {
    let mut host = Host::accept(true);
    host.next(frame(EXEC_REQUEST, &make_req(&["true"], false).encode_to_vec()));
    assert_eq!(host.handler.stage, Stage::Launching(Mode::Pipes));
    host.next(Event::Launched(5));
    assert!(ExecStarted::decode(&host.sent().1).unwrap().pid > 0);
    host.next(Event::Done);
    host.next(polled(false, END, false));
    host.next(Event::Ended(WaitOutcome::Exited(0)));
    host.next(polled(false, END, false));
    let (t, payload) = host.sent();
    assert_eq!(t, EXIT_STATUS);
    assert_eq!(ExitStatus::decode(&payload).unwrap().code, 0);
}

#[test]
fn tcp_listener_handle_connection_cross_platform() {
    let mut req = make_req(&["echo", "cross-platform"], false);
    req.rows = 0;
    req.cols = 0;
    let req = req.encode_to_vec();
    let mut host = Host::accept(true);
    assert!(matches!(host.next(frame(EXEC_REQUEST, &req)), Action::Launch { .. }));
    let mut host = Host::accept(false);
    host.next(frame(EXEC_REQUEST, &req));
    assert!(host.error().contains("requires Linux"));
    assert_eq!(host.error(), "exec engine requires Linux");
    host.next(Event::Done);
    assert!(host.closed_well());
}

#[test]
fn tcp_listener_invalid_request_cross_platform() {
    for engine in [true, false] {
        let mut host = Host::accept(engine);
        host.next(frame(STDIN_DATA, b"bad"));
        assert!(host.error().contains("expected EXEC_REQUEST"));
    }
}

#[test]
fn unreadable_request_gets_no_answer() {
    let mut host = Host::accept(true);
    host.next(frame(EXEC_REQUEST, &[0x08]));
    assert_eq!(host.closed_with().kind, ErrorKind::InvalidData);
    let mut host = Host::accept(true);
    host.next(failed(ErrorKind::UnexpectedEof, "connection closed"));
    assert_eq!(host.closed_with().text, "connection closed");
    let mut host = Host::accept(true);
    host.next(frame(EXIT_STATUS, &[]));
    host.next(failed(ErrorKind::Other, "broken pipe"));
    assert_eq!(host.closed_with().text, "broken pipe");
}

#[test]
fn failed_launch_is_reported_by_mode() {
    let mut host = Host::accept(true);
    host.next(frame(EXEC_REQUEST, &make_req(&[], false).encode_to_vec()));
    host.next(failed(ErrorKind::InvalidInput, "empty command"));
    assert_eq!(host.error(), "exec failed: empty command");
    host.next(failed(ErrorKind::Other, "broken pipe"));
    assert_eq!(host.closed_with().text, "broken pipe");

    let mut host = Host::accept(true);
    host.next(frame(EXEC_REQUEST, &make_req(&[], true).encode_to_vec()));
    host.next(failed(ErrorKind::InvalidInput, "empty command"));
    assert_eq!(host.error(), "tty exec failed: empty command");
    host.next(failed(ErrorKind::Other, "broken pipe"));
    assert!(host.closed_well());
}

#[test]
fn failed_announcement_is_the_connections_failure_on_pipes_only() {
    let mut host = Host::accept(true);
    host.next(frame(EXEC_REQUEST, &make_req(&["ls"], false).encode_to_vec()));
    host.next(Event::Launched(1));
    host.next(failed(ErrorKind::Other, "gone"));
    assert_eq!(host.closed_with().text, "gone");

    let mut host = Host::accept(true);
    host.next(frame(EXEC_REQUEST, &make_req(&["ls"], true).encode_to_vec()));
    host.next(Event::Launched(1));
    host.next(failed(ErrorKind::Other, "gone"));
    assert!(host.closed_well());
}

#[test]
fn report_that_does_not_fit_is_not_sent() {
    let long = "x".repeat(MAX_PAYLOAD as usize);
    let mut host = Host::accept(true);
    host.next(frame(EXEC_REQUEST, &make_req(&["ls"], false).encode_to_vec()));
    host.next(failed(ErrorKind::Other, &long));
    assert_eq!(host.closed_with().kind, ErrorKind::InvalidInput);
    assert_eq!(host.closed_with().text, "payload too large: 1048593 > 1048576");

    let mut host = Host::accept(true);
    host.next(frame(EXEC_REQUEST, &make_req(&["ls"], true).encode_to_vec()));
    host.next(failed(ErrorKind::Other, &long));
    assert!(host.closed_well());
}

#[test]
fn input_is_forwarded_until_it_ends() {
    let mut host = Host::running(false);
    for data in [b"a".to_vec(), b"bc".to_vec(), Vec::new()] {
        host.next(polled(true, IDLE, false));
        match host.next(frame(STDIN_DATA, &data)) {
            Action::WriteStdin(written) => assert_eq!(*written, data),
            _ => panic!("not written"),
        }
        assert!(matches!(host.next(Event::Done), Action::Poll));
    }
    host.next(polled(true, IDLE, false));
    assert!(matches!(host.next(frame(STDIN_EOF, &[])), Action::CloseStdin));
    host.next(Event::Done);
    for t in [STDIN_DATA, STDIN_EOF] {
        host.next(polled(true, IDLE, false));
        match host.next(frame(t, b"late")) {
            Action::Warn(warned) => assert_eq!(*warned, t),
            _ => panic!("not warned of"),
        }
        host.next(Event::Done);
    }
}

#[test]
fn terminal_input_does_not_end() {
    let mut host = Host::running(true);
    host.next(polled(true, IDLE, false));
    assert!(matches!(host.next(frame(STDIN_EOF, &[])), Action::Warn(STDIN_EOF)));
    host.next(Event::Done);
    host.next(polled(true, IDLE, false));
    assert!(matches!(host.next(frame(STDIN_DATA, b"x")), Action::WriteStdin(_)));
}

#[test]
fn resizing_is_for_terminals() {
    let size = WindowResize { rows: 48, cols: 65_536 + 120 }.encode_to_vec();
    let mut host = Host::running(true);
    host.next(polled(true, IDLE, false));
    assert!(matches!(
        host.next(frame(WINDOW_RESIZE, &size)),
        Action::Resize { rows: 48, cols: 120 }
    ));
    host.next(Event::Done);
    let mut host = Host::running(false);
    host.next(polled(true, IDLE, false));
    assert!(matches!(host.next(frame(WINDOW_RESIZE, &size)), Action::Warn(WINDOW_RESIZE)));
}

#[test]
fn what_the_host_asks_for_is_done_in_order() {
    let mut host = Host::running(true);
    let size = WindowResize { rows: 1, cols: 2 }.encode_to_vec();
    let signal = Signal { signal: 2 }.encode_to_vec();
    let mut done = Vec::new();
    let frames = [(STDIN_DATA, b"a".to_vec()), (WINDOW_RESIZE, size), (0x40, vec![]), (SIGNAL, signal)];
    for (t, payload) in frames {
        host.next(polled(true, IDLE, false));
        done.push(match host.next(frame(t, &payload)) {
            Action::WriteStdin(data) => format!("write {}", data.len()),
            Action::Resize { rows, cols } => format!("resize {} {}", rows, cols),
            Action::Kill(n) => format!("kill {}", n),
            Action::Warn(t) => format!("warn {}", t),
            _ => panic!("not served"),
        });
        host.next(Event::Done);
    }
    assert_eq!(done, ["write 1", "resize 1 2", "warn 64", "kill 2"]);
    host.next(polled(true, IDLE, false));
    let gone = failed(ErrorKind::UnexpectedEof, "connection closed");
    assert!(matches!(host.next(gone), Action::Kill(1)));
}

#[test]
fn signals_are_forwarded() {
    for tty in [false, true] {
        let mut host = Host::running(tty);
        host.next(polled(true, IDLE, false));
        let payload = Signal { signal: 15 }.encode_to_vec();
        assert!(matches!(host.next(frame(SIGNAL, &payload)), Action::Kill(15)));
    }
}

#[test]
fn bad_signals_end_the_session() {
    let bad = Signal { signal: 64 }.encode_to_vec();
    let (session, _) = session_non_tty();
    let (session, _) = session.step(polled(true, IDLE, false));
    let (session, action) = session.step(frame(SIGNAL, &bad));
    assert_eq!(session.phase, Phase::Finished);
    match action {
        Action::Finish(Err(e)) => {
            assert_eq!(e.kind, ErrorKind::InvalidInput);
            assert_eq!(e.text, "invalid signal number: 64");
        }
        _ => panic!("not finished"),
    }
    let mut host = Host::running(true);
    host.next(polled(true, IDLE, false));
    host.next(frame(SIGNAL, &bad));
    assert!(host.closed_well());
    let mut host = Host::running(false);
    host.next(polled(true, IDLE, false));
    host.next(frame(SIGNAL, &[0x08]));
    assert!(host.closed_well());
}

#[test]
fn unreadable_frames_end_the_session() {
    for (t, payload, field) in [
        (WINDOW_RESIZE, [0x0a, 0x00], "WindowResize.rows"),
        (SIGNAL, [0x08, 0x80], "Signal.signal"),
    ] {
        let (session, _) = session_tty();
        let (session, _) = session.step(polled(true, IDLE, false));
        match session.step(frame(t, &payload)).1 {
            Action::Finish(Err(e)) => {
                assert_eq!(e.kind, ErrorKind::InvalidData);
                assert!(e.text.starts_with("failed to decode Protobuf message: "));
                assert!(e.text.contains(field));
            }
            _ => panic!("not finished"),
        }
    }
}

#[test]
fn host_comes_before_output_and_output_before_errors() {
    let mut host = Host::running(false);
    assert!(matches!(host.next(polled(true, DATA, true)), Action::ReadFrame));
    assert!(matches!(host.next(frame(0x7f, &[])), Action::Warn(0x7f)));
    assert!(matches!(host.next(Event::Done), Action::ReadStdout));
    host.next(output(b"1"));
    assert_eq!(host.sent(), (STDOUT_DATA, b"1".to_vec()));
    assert!(matches!(host.next(Event::Done), Action::ReadStderr));
    host.next(output(b"2"));
    assert_eq!(host.sent(), (STDERR_DATA, b"2".to_vec()));
    assert!(matches!(host.next(Event::Done), Action::Poll));
    host.next(polled(false, DATA, true));
    assert!(matches!(host.next(output(&[])), Action::ReadStderr));
    assert!(matches!(host.next(output(&[])), Action::Poll));
    assert!(matches!(host.next(polled(false, IDLE, false)), Action::Poll));
}

#[test]
fn terminal_has_no_separate_errors() {
    let mut host = Host::running(true);
    assert!(matches!(host.next(polled(false, IDLE, true)), Action::Poll));
    host.next(polled(false, DATA, true));
    assert!(matches!(host.next(failed(ErrorKind::Other, "EIO")), Action::Poll));
    assert!(matches!(host.next(polled(false, END, true)), Action::Wait));
}

#[test]
fn failures_on_pipes_end_the_session() {
    let mut host = Host::running(false);
    host.next(polled(false, DATA, false));
    host.next(failed(ErrorKind::Other, "EIO"));
    assert!(host.closed_well());
    let (session, _) = session_non_tty();
    let (session, _) = session.step(polled(false, IDLE, true));
    let (_, action) = session.step(failed(ErrorKind::Other, "EIO"));
    assert!(matches!(action, Action::Finish(Err(_))));
}

#[test]
fn host_that_is_gone_costs_the_process_its_life() {
    for tty in [false, true] {
        let mut host = Host::running(tty);
        host.next(polled(true, DATA, true));
        let gone = failed(ErrorKind::UnexpectedEof, "connection closed");
        assert!(matches!(host.next(gone), Action::Kill(1)));
        assert!(matches!(host.next(failed(ErrorKind::Other, "ESRCH")), Action::Wait));
        host.next(Event::Ended(WaitOutcome::Signaled(1)));
        assert!(host.closed_well());
    }
    let (session, _) = session_tty();
    let (session, _) = session.step(polled(true, IDLE, false));
    let (session, _) = session.step(failed(ErrorKind::UnexpectedEof, "connection closed"));
    let (session, _) = session.step(Event::Done);
    let (_, action) = session.step(Event::Ended(WaitOutcome::Signaled(1)));
    match action {
        Action::Finish(Ok(status)) => assert_eq!(status, ExitStatus { code: -1, signal: 1 }),
        _ => panic!("not finished"),
    }
}

#[test]
fn other_failures_to_read_end_the_session() {
    let mut host = Host::running(true);
    host.next(polled(true, IDLE, false));
    host.next(failed(ErrorKind::InvalidData, "frame too large: 9999999 > 1048576"));
    assert!(host.closed_well());
    let (session, _) = session_tty();
    let (session, _) = session.step(polled(true, IDLE, false));
    let (_, action) = session.step(failed(ErrorKind::InvalidData, "frame too large"));
    match action {
        Action::Finish(Err(e)) => assert_eq!(e.text, "frame too large"),
        _ => panic!("not finished"),
    }
}

#[test]
fn output_is_read_in_bounds() {
    let mut host = Host::running(false);
    host.next(polled(false, DATA, false));
    assert!(!host.handler.expects(&Event::Output(vec![7; READ_SIZE + 1])));
    host.next(Event::Output(vec![7; READ_SIZE]));
    assert_eq!(READ_SIZE, 32768);
    assert_eq!(host.sent(), (STDOUT_DATA, vec![7; 32768]));
}

#[test]
fn odd_end_of_a_process_is_a_failure() {
    let mut host = Host::running(true);
    host.next(polled(false, END, false));
    host.next(Event::Ended(WaitOutcome::Unexpected("Continued(Pid(5))".into())));
    assert!(host.closed_well());
    let (session, _) = session_tty();
    let (session, _) = session.step(polled(false, END, false));
    let outcome = WaitOutcome::Failed("ECHILD: No child processes".into());
    match session.step(Event::Ended(outcome)).1 {
        Action::Finish(Err(e)) => {
            assert_eq!(e.kind, ErrorKind::Other);
            assert_eq!(e.text, "ECHILD: No child processes");
        }
        _ => panic!("not finished"),
    }
}

#[test]
fn events_out_of_place_are_told() {
    let (handler, _) = handle_connection(true);
    assert!(!handler.expects(&Event::Done));
    assert!(handler.expects(&frame(0, &[])));
    let host = Host::running(false);
    assert!(!host.handler.expects(&output(b"x")));
    assert!(host.handler.expects(&polled(false, IDLE, false)));
    let over = Session { mode: Mode::Pipes, stdin_open: true, phase: Phase::Finished };
    assert!(!over.expects(&Event::Done));
    assert!(!over.expects(&failed(ErrorKind::Other, "late")));
    assert!(over.try_step(Event::Done).is_none());
    assert!(handler.try_step(Event::Done).is_none());
    let (handler, action) = handler.try_step(frame(STDIN_DATA, &[])).unwrap();
    assert_eq!(handler.stage, Stage::Refusing);
    assert!(matches!(action, Action::Send(_)));
    let (session, _) = session_tty();
    let (session, _) = session.try_step(polled(false, END, false)).unwrap();
    assert_eq!(session.phase, Phase::Waiting);
}
