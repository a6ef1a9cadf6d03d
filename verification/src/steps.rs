//! What each step on a connection does: what an event makes the agent do next.

use crate::exec::WaitOutcomeView;
use crate::failure::{ErrorKind, FailureView};
use crate::proto;
use crate::proto::{
    ExecError, ExecErrorView, ExecRequest, ExecRequestView, ExecStarted, ExitStatus, Schema, Signal,
    WindowResize,
};
use crate::session;
use crate::session::{
    Action, ActionView, Event, EventView, Handler, Mode, Phase, Ready, Session, Stage,
};
use crate::text;
use crate::wire;
use crate::wire::{
    EXEC_ERROR, EXEC_REQUEST, EXEC_STARTED, MAX_PAYLOAD, SIGNAL, STDIN_DATA, STDIN_EOF,
    WINDOW_RESIZE,
};
use vstd::prelude::*;

verus! {

// ---- Events and actions ----

/// What came of an action is taken as it is.
pub proof fn lemma_event_view(ev: Event)
    ensures
        ev matches Event::Polled { host, stdout, stderr } ==> ev@ == (EventView::Polled {
            host,
            stdout,
            stderr,
        }),
        ev matches Event::Frame { type_byte, payload } ==> ev@ == (EventView::Frame {
            type_byte,
            payload: payload@,
        }),
        ev matches Event::Output(data) ==> ev@ == EventView::Output(data@),
        ev is Done ==> ev@ is Done,
        ev matches Event::Launched(pid) ==> ev@ == EventView::Launched(pid),
        ev matches Event::Ended(outcome) ==> ev@ == EventView::Ended(outcome@),
        ev matches Event::Failed(e) ==> ev@ == EventView::Failed(e@),
{
}

/// What to do is given as it is.
pub proof fn lemma_action_view(a: Action)
    ensures
        a is ReadFrame <==> a@ is ReadFrame,
        a is Poll <==> a@ is Poll,
        a is CloseStdin <==> a@ is CloseStdin,
        a is ReadStdout <==> a@ is ReadStdout,
        a is ReadStderr <==> a@ is ReadStderr,
        a is Wait <==> a@ is Wait,
        a matches Action::Launch { req, mode } ==> a@ == (ActionView::Launch { req: req@, mode }),
        a matches Action::WriteStdin(data) ==> a@ == ActionView::WriteStdin(data@),
        a matches Action::Kill(signal) ==> a@ == ActionView::Kill(signal),
        a matches Action::Resize { rows, cols } ==> a@ == (ActionView::Resize { rows, cols }),
        a matches Action::Warn(type_byte) ==> a@ == ActionView::Warn(type_byte),
        a matches Action::Send(bytes) ==> a@ == ActionView::Send(bytes@),
        a matches Action::Finish(Ok(status)) ==> a@ == ActionView::Finish(Ok(status)),
        a matches Action::Finish(Err(e)) ==> a@ == ActionView::Finish(Err(e@)),
        a matches Action::Close(Ok(())) ==> a@ == ActionView::Close(Ok(())),
        a matches Action::Close(Err(e)) ==> a@ == ActionView::Close(Err(e@)),
{
}

// ---- Session ----

/// Each action can bring what it is for, whatever that holds, and can fail, but for waiting.
pub proof fn lemma_session_takes(
    out: Ready,
    err: bool,
    ended: Option<ExitStatus>,
    status: ExitStatus,
    host: bool,
    type_byte: u8,
    payload: Seq<u8>,
    data: Seq<u8>,
    outcome: WaitOutcomeView,
    e: FailureView,
)
    requires
        data.len() <= 32768,
    ensures
        session::session_expects(
            Phase::Polling,
            EventView::Polled { host, stdout: out, stderr: err },
        ),
        session::session_expects(
            Phase::Draining(status),
            EventView::Polled { host, stdout: out, stderr: err },
        ),
        session::session_expects(
            Phase::ReadingHost { out, err },
            EventView::Frame { type_byte, payload },
        ),
        session::session_expects(Phase::ReadingStdout { out, err }, EventView::Output(data)),
        session::session_expects(Phase::ReadingStderr(ended), EventView::Output(data)),
        session::session_expects(Phase::Serving { out, err }, EventView::Done),
        session::session_expects(Phase::SendingStdout { out, err }, EventView::Done),
        session::session_expects(Phase::SendingStderr(ended), EventView::Done),
        session::session_expects(Phase::HangingUp, EventView::Done),
        session::session_expects(Phase::Reporting(status), EventView::Done),
        session::session_expects(Phase::Waiting, EventView::Ended(outcome)),
        session::session_expects(Phase::WaitingAlone, EventView::Ended(outcome)),
        forall|phase: Phase|
            !(phase is Waiting) && !(phase is WaitingAlone) && !(phase is Finished)
                ==> #[trigger] session::session_expects(phase, EventView::Failed(e)),
{
}

/// An action brings nothing but what it is for, or a failure; a session that is over takes nothing.
pub proof fn lemma_session_takes_no_other(phase: Phase, ev: EventView)
    requires
        session::session_expects(phase, ev),
    ensures
        !(phase is Finished),
        ev is Polled ==> phase is Polling || phase is Draining,
        ev is Frame ==> phase is ReadingHost,
        ev matches EventView::Output(data) ==> data.len() <= 32768 && (phase is ReadingStdout
            || phase is ReadingStderr),
        ev is Done ==> phase is Serving || phase is HangingUp || phase is SendingStdout
            || phase is SendingStderr || phase is Reporting,
        ev is Ended ==> phase is Waiting || phase is WaitingAlone,
        ev is Failed ==> !(phase is Waiting) && !(phase is WaitingAlone),
        !(ev is Launched),
{
}

/// A session keeps how its process is attached, and closes the input of the process at most.
pub proof fn lemma_session_keeps(s: Session, ev: EventView)
    ensures
        session::session_next(s, ev).0.mode == s.mode,
        session::session_next(s, ev).1 is CloseStdin ==> s.stdin_open
            && !session::session_next(s, ev).0.stdin_open,
        !(session::session_next(s, ev).1 is CloseStdin) ==> session::session_next(s, ev).0.stdin_open
            == s.stdin_open,
{
}

/// A session starts by polling, with the input of the process open.
pub proof fn lemma_session_starts(mode: Mode)
    ensures
        session::session_start(mode).mode == mode,
        session::session_start(mode).stdin_open,
        session::session_start(mode).phase is Polling,
{
}

/// After a poll, what the host sent comes first, then the output of the process, then its end if
/// its output has ended, then its errors on pipes. Only where there is none of these does the
/// session poll again.
pub proof fn lemma_polled(s: Session, host: bool, stdout: Ready, stderr: bool)
    requires
        s.phase is Polling,
    ensures
        ({
            let (s2, a) = session::session_next(s, EventView::Polled { host, stdout, stderr });
            let ended = stdout.hung_up && !stdout.readable;
            &&& a is ReadFrame <==> host
            &&& a is ReadStdout <==> !host && stdout.readable
            &&& a is Wait <==> !host && ended
            &&& a is ReadStderr <==> !host && !stdout.readable && !ended && s.mode == Mode::Pipes
                && stderr
            &&& a is Poll <==> !host && !stdout.readable && !ended && !(s.mode == Mode::Pipes
                && stderr)
            &&& a is ReadFrame ==> s2.phase == (Phase::ReadingHost { out: stdout, err: stderr })
            &&& a is ReadStdout ==> s2.phase == (Phase::ReadingStdout { out: stdout, err: stderr })
            &&& a is Wait ==> s2.phase is Waiting
            &&& a is ReadStderr ==> s2.phase == Phase::ReadingStderr(None)
            &&& a is Poll ==> s2.phase is Polling
        }),
{
}

/// When what the host asked for has been done, the session goes on as if the host had sent nothing.
pub proof fn lemma_served_then_as_before(s: Session, out: Ready, err: bool)
    requires
        s.phase == (Phase::Serving { out, err }),
    ensures
        session::session_next(s, EventView::Done) == session::session_next(
            Session { phase: Phase::Polling, ..s },
            EventView::Polled { host: false, stdout: out, stderr: err },
        ),
{
}

/// When output has been sent, or there was none, or a terminal could not be read, the session goes
/// on to the errors of a process on pipes, if there are any, else to the next poll.
pub proof fn lemma_stdout_done(s: Session, out: Ready, err: bool, e: FailureView)
    requires
        out.readable,
    ensures
        ({
            let reading = Session { phase: Phase::ReadingStdout { out, err }, ..s };
            let sending = Session { phase: Phase::SendingStdout { out, err }, ..s };
            let next = session::session_next(sending, EventView::Done);
            &&& next.1 is ReadStderr <==> s.mode == Mode::Pipes && err
            &&& next.1 is Poll <==> !(s.mode == Mode::Pipes && err)
            &&& next.1 is ReadStderr ==> next.0.phase == Phase::ReadingStderr(None)
            &&& next.1 is Poll ==> next.0.phase is Polling
            &&& session::session_next(reading, EventView::Output(Seq::empty())) == next
            &&& s.mode == Mode::Terminal ==> session::session_next(reading, EventView::Failed(e))
                == next
            &&& s.mode == Mode::Pipes ==> session::session_next(reading, EventView::Failed(e)).1
                == ActionView::Finish(Err(e))
        }),
{
}

/// What is read of the output of the process, and of its errors, is sent as it is, each in frames
/// of its own type, and nothing else is done with it.
pub proof fn lemma_output_sent(s: Session, data: Seq<u8>)
    requires
        data.len() > 0,
    ensures
        s.phase matches Phase::ReadingStdout { out, err } ==> session::session_next(
            s,
            EventView::Output(data),
        ) == (
            Session { phase: Phase::SendingStdout { out, err }, ..s },
            ActionView::Send(wire::frame(0x11, data)),
        ),
        s.phase matches Phase::ReadingStderr(ended) ==> session::session_next(
            s,
            EventView::Output(data),
        ) == (
            Session { phase: Phase::SendingStderr(ended), ..s },
            ActionView::Send(wire::frame(0x12, data)),
        ),
{
}

/// When errors have been sent, or there were none, the session polls again, and remembers how the
/// process ended where it has. Errors that cannot be read end the session, but for those that an
/// ended process left behind: then its exit status is sent.
pub proof fn lemma_stderr_done(s: Session, ended: Option<ExitStatus>, e: FailureView)
    ensures
        ({
            let reading = Session { phase: Phase::ReadingStderr(ended), ..s };
            let sending = Session { phase: Phase::SendingStderr(ended), ..s };
            let next = session::session_next(sending, EventView::Done);
            &&& next.1 is Poll
            &&& ended is None ==> next.0.phase is Polling
            &&& ended matches Some(status) ==> next.0.phase == Phase::Draining(status)
            &&& session::session_next(reading, EventView::Output(Seq::empty())) == next
            &&& ended is None ==> session::session_next(reading, EventView::Failed(e)).1
                == ActionView::Finish(Err(e))
            &&& ended matches Some(status) ==> session::session_next(
                reading,
                EventView::Failed(e),
            ).1 == ActionView::Send(wire::frame(0x13, ExitStatus::encoding(status)))
        }),
{
}

/// When waiting, after the output ended, brings how the process ended, a terminal's session sends
/// it at once; on pipes the session polls for what the process left behind.
pub proof fn lemma_waited(s: Session, code: i32, signal: i32)
    requires
        s.phase is Waiting,
    ensures
        ({
            let exited = session::session_next(s, EventView::Ended(WaitOutcomeView::Exited(code)));
            let killed = session::session_next(
                s,
                EventView::Ended(WaitOutcomeView::Signaled(signal)),
            );
            let a = ExitStatus { code, signal: 0 };
            let b = ExitStatus { code: -1i32, signal };
            &&& s.mode == Mode::Terminal ==> exited == (
                Session { phase: Phase::Reporting(a), ..s },
                ActionView::Send(wire::frame(0x13, ExitStatus::encoding(a))),
            )
            &&& s.mode == Mode::Terminal ==> killed == (
                Session { phase: Phase::Reporting(b), ..s },
                ActionView::Send(wire::frame(0x13, ExitStatus::encoding(b))),
            )
            &&& s.mode == Mode::Pipes ==> exited == (
                Session { phase: Phase::Draining(a), ..s },
                ActionView::Poll,
            )
            &&& s.mode == Mode::Pipes ==> killed == (
                Session { phase: Phase::Draining(b), ..s },
                ActionView::Poll,
            )
        }),
{
}

/// Waiting that brings no exit ends the session, with the words about it.
pub proof fn lemma_wait_failed(s: Session, what: Seq<char>)
    requires
        s.phase is Waiting || s.phase is WaitingAlone,
    ensures
        session::session_next(s, EventView::Ended(WaitOutcomeView::Failed(what))).1
            == ActionView::Finish(Err(FailureView { kind: ErrorKind::Other, text: what })),
        session::session_next(s, EventView::Ended(WaitOutcomeView::Unexpected(what))).1
            == ActionView::Finish(
            Err(FailureView { kind: ErrorKind::Other, text: "unexpected wait status: "@ + what }),
        ),
{
}

/// What an ended process left behind of its errors is read as long as polling finds some. When it
/// finds none, or fails, the exit status is sent.
pub proof fn lemma_drained(
    s: Session,
    status: ExitStatus,
    host: bool,
    stdout: Ready,
    stderr: bool,
    e: FailureView,
)
    requires
        s.phase == Phase::Draining(status),
    ensures
        ({
            let (s2, a) = session::session_next(s, EventView::Polled { host, stdout, stderr });
            let report = (
                Session { phase: Phase::Reporting(status), ..s },
                ActionView::Send(wire::frame(0x13, ExitStatus::encoding(status))),
            );
            &&& stderr ==> a is ReadStderr && s2.phase == Phase::ReadingStderr(Some(status))
            &&& !stderr ==> (s2, a) == report
            &&& session::session_next(s, EventView::Failed(e)) == report
        }),
{
}

/// When the exit status has been sent, the session is over, and well.
pub proof fn lemma_exit_sent(s: Session, status: ExitStatus, e: FailureView)
    requires
        s.phase == Phase::Reporting(status),
    ensures
        session::session_next(s, EventView::Done).1 == ActionView::Finish(Ok(status)),
        session::session_next(s, EventView::Failed(e)).1 == ActionView::Finish(Err(e)),
{
}

/// What cannot be polled, done or sent ends the session with that failure.
pub proof fn lemma_failures_end(s: Session, e: FailureView)
    requires
        s.phase is Polling || s.phase is Serving || s.phase is SendingStdout
            || s.phase is SendingStderr || s.phase is Reporting,
    ensures
        session::session_next(s, EventView::Failed(e)).1 == ActionView::Finish(Err(e)),
        session::session_next(s, EventView::Failed(e)).0.phase is Finished,
{
}

/// A host that is gone makes the session send the process signal 1 and wait for it, whatever comes
/// of the signal. Another failure to read from the host ends the session.
pub proof fn lemma_host_lost(s: Session, e: FailureView, told: EventView)
    ensures
        s.phase is ReadingHost && e.kind == ErrorKind::UnexpectedEof ==> session::session_next(
            s,
            EventView::Failed(e),
        ) == (Session { phase: Phase::HangingUp, ..s }, ActionView::Kill(1)),
        s.phase is ReadingHost && e.kind != ErrorKind::UnexpectedEof ==> session::session_next(
            s,
            EventView::Failed(e),
        ).1 == ActionView::Finish(Err(e)),
        s.phase is HangingUp ==> session::session_next(s, told) == (
            Session { phase: Phase::WaitingAlone, ..s },
            ActionView::Wait,
        ),
{
}

/// A session without a host ends as its process did.
pub proof fn lemma_ended_alone(s: Session, code: i32, signal: i32)
    requires
        s.phase is WaitingAlone,
    ensures
        session::session_next(s, EventView::Ended(WaitOutcomeView::Exited(code))).1
            == ActionView::Finish(Ok(ExitStatus { code, signal: 0 })),
        session::session_next(s, EventView::Ended(WaitOutcomeView::Signaled(signal))).1
            == ActionView::Finish(Ok(ExitStatus { code: -1i32, signal })),
{
}

/// Input is passed on as it is while the input of the process is open, which it always is on a
/// terminal; after that the host is warned of.
pub proof fn lemma_input_frame(s: Session, out: Ready, err: bool, payload: Seq<u8>)
    requires
        s.phase == (Phase::ReadingHost { out, err }),
    ensures
        ({
            let serving = Session { phase: Phase::Serving { out, err }, ..s };
            let data = session::session_next(
                s,
                EventView::Frame { type_byte: STDIN_DATA, payload },
            );
            let eof = session::session_next(s, EventView::Frame { type_byte: STDIN_EOF, payload });
            &&& s.mode == Mode::Terminal || s.stdin_open ==> data == (
                serving,
                ActionView::WriteStdin(payload),
            )
            &&& s.mode == Mode::Pipes && !s.stdin_open ==> data == (
                serving,
                ActionView::Warn(STDIN_DATA),
            )
            &&& s.mode == Mode::Pipes && s.stdin_open ==> eof == (
                Session { stdin_open: false, ..serving },
                ActionView::CloseStdin,
            )
            &&& s.mode == Mode::Terminal || !s.stdin_open ==> eof == (
                serving,
                ActionView::Warn(STDIN_EOF),
            )
        }),
{
}

/// A signal that a host asks for is sent as it is if it is one; else the session ends.
pub proof fn lemma_signal_frame(s: Session, out: Ready, err: bool, signal: i32)
    requires
        s.phase == (Phase::ReadingHost { out, err }),
    ensures
        ({
            let payload = Signal::encoding(Signal { signal });
            let (s2, a) = session::session_next(
                s,
                EventView::Frame { type_byte: SIGNAL, payload },
            );
            &&& 1 <= signal <= 31 ==> (s2, a) == (
                Session { phase: Phase::Serving { out, err }, ..s },
                ActionView::Kill(signal),
            )
            &&& !(1 <= signal <= 31) ==> a is Finish && a->Finish_0 is Err && a->Finish_0->Err_0.kind
                == ErrorKind::InvalidInput && a->Finish_0->Err_0.text
                == "invalid signal number: "@ + text::signed_decimal(signal as int)
        }),
{
    session::lemma_signal_fits(signal);
    <Signal as proto::Message>::lemma_round_trip(Signal { signal });
}

/// A size that a host asks for is given to a terminal, as far as sixteen bits hold it; pipes have
/// none.
pub proof fn lemma_resize_frame(s: Session, out: Ready, err: bool, rows: u32, cols: u32)
    requires
        s.phase == (Phase::ReadingHost { out, err }),
    ensures
        ({
            let payload = WindowResize::encoding(WindowResize { rows, cols });
            let serving = Session { phase: Phase::Serving { out, err }, ..s };
            let next = session::session_next(
                s,
                EventView::Frame { type_byte: WINDOW_RESIZE, payload },
            );
            &&& s.mode == Mode::Terminal ==> next == (
                serving,
                ActionView::Resize { rows: (rows % 65536) as u16, cols: (cols % 65536) as u16 },
            )
            &&& s.mode == Mode::Pipes ==> next == (serving, ActionView::Warn(WINDOW_RESIZE))
        }),
{
    session::lemma_resize_fits(rows, cols);
    <WindowResize as proto::Message>::lemma_round_trip(WindowResize { rows, cols });
}

/// A signal or a size that cannot be read ends the session with the reason.
pub proof fn lemma_unreadable_frame(s: Session, payload: Seq<u8>)
    requires
        s.phase is ReadingHost,
    ensures
        proto::decoding::<Signal>(payload) is None ==> session::session_next(
            s,
            EventView::Frame { type_byte: SIGNAL, payload },
        ).1 == ActionView::Finish(Err(proto::undecodable::<Signal>(payload))),
        s.mode == Mode::Terminal && proto::decoding::<WindowResize>(payload) is None
            ==> session::session_next(s, EventView::Frame { type_byte: WINDOW_RESIZE, payload }).1
            == ActionView::Finish(Err(proto::undecodable::<WindowResize>(payload))),
{
}

/// A frame of any other type is warned of, and changes nothing.
pub proof fn lemma_other_frame(
    s: Session,
    out: Ready,
    err: bool,
    type_byte: u8,
    payload: Seq<u8>,
)
    requires
        s.phase == (Phase::ReadingHost { out, err }),
        type_byte != STDIN_DATA,
        type_byte != STDIN_EOF,
        type_byte != WINDOW_RESIZE,
        type_byte != SIGNAL,
    ensures
        session::session_next(s, EventView::Frame { type_byte, payload }) == (
            Session { phase: Phase::Serving { out, err }, ..s },
            ActionView::Warn(type_byte),
        ),
{
}

// ---- Connection ----

/// Each action on a connection can bring what it is for, whatever that holds, and can fail.
pub proof fn lemma_handler_takes(
    type_byte: u8,
    payload: Seq<u8>,
    mode: Mode,
    pid: u32,
    s: Session,
    ev: EventView,
    e: FailureView,
)
    ensures
        session::handler_expects(Stage::ReadingRequest, EventView::Frame { type_byte, payload }),
        session::handler_expects(Stage::ReadingRequest, EventView::Failed(e)),
        session::handler_expects(Stage::Refusing, EventView::Done),
        session::handler_expects(Stage::Refusing, EventView::Failed(e)),
        session::handler_expects(Stage::Launching(mode), EventView::Launched(pid)),
        session::handler_expects(Stage::Launching(mode), EventView::Failed(e)),
        session::handler_expects(Stage::Announcing(mode), EventView::Done),
        session::handler_expects(Stage::Announcing(mode), EventView::Failed(e)),
        session::handler_expects(Stage::Reporting(mode), EventView::Done),
        session::handler_expects(Stage::Reporting(mode), EventView::Failed(e)),
        session::handler_expects(Stage::Running(s), ev) == session::session_expects(s.phase, ev),
{
}

/// An action on a connection brings nothing but what it is for, or a failure; a connection that is
/// over takes nothing.
pub proof fn lemma_handler_takes_no_other(stage: Stage, ev: EventView)
    requires
        session::handler_expects(stage, ev),
        !(stage is Running),
    ensures
        !(stage is Closed),
        ev is Frame ==> stage is ReadingRequest,
        ev is Launched ==> stage is Launching,
        ev is Done ==> stage is Refusing || stage is Announcing || stage is Reporting,
        !(ev is Polled) && !(ev is Output) && !(ev is Ended),
{
}

/// A connection starts by reading a frame, and keeps whether processes can be started.
pub proof fn lemma_handler_keeps(engine: bool, h: Handler, ev: EventView)
    ensures
        session::handler_start(engine).stage is ReadingRequest,
        session::handler_start(engine).engine == engine,
        session::handler_next(h, ev).0.engine == h.engine,
{
}

/// A request is launched as it is, on a terminal exactly where it asks for one.
pub proof fn lemma_request_launched(h: Handler, payload: Seq<u8>, req: ExecRequestView)
    requires
        h.stage is ReadingRequest,
        h.engine,
        proto::decoding::<ExecRequest>(payload) == Some(req),
    ensures
        ({
            let (h2, a) = session::handler_next(
                h,
                EventView::Frame { type_byte: EXEC_REQUEST, payload },
            );
            let mode = if req.tty {
                Mode::Terminal
            } else {
                Mode::Pipes
            };
            &&& a == (ActionView::Launch { req, mode })
            &&& h2.stage == Stage::Launching(mode)
        }),
{
}

/// The message that a process was not started, for the reason `error`.
pub open spec fn error_frame(error: Seq<char>) -> Seq<u8> {
    wire::frame(EXEC_ERROR, ExecError::encoding(ExecErrorView { error }))
}

/// What is no request, or a request where no process can be started, is answered with an error; a
/// request that cannot be read with nothing.
pub proof fn lemma_request_refused(h: Handler, type_byte: u8, payload: Seq<u8>)
    requires
        h.stage is ReadingRequest,
    ensures
        ({
            let (h2, a) = session::handler_next(h, EventView::Frame { type_byte, payload });
            &&& type_byte != EXEC_REQUEST ==> h2.stage is Refusing && a == ActionView::Send(
                error_frame("expected EXEC_REQUEST (0x01), got 0x"@ + text::hex_byte(type_byte)),
            )
            &&& type_byte == EXEC_REQUEST && proto::decoding::<ExecRequest>(payload) is Some
                && !h.engine ==> h2.stage is Refusing && a == ActionView::Send(
                error_frame("exec engine requires Linux"@),
            )
            &&& type_byte == EXEC_REQUEST && proto::decoding::<ExecRequest>(payload) is None ==> a
                == ActionView::Close(Err(proto::undecodable::<ExecRequest>(payload)))
        }),
{
}

/// A refused connection is over when the host was told, or could not be.
pub proof fn lemma_refusal_ends(h: Handler, e: FailureView)
    ensures
        h.stage is Refusing ==> session::handler_next(h, EventView::Done).1 == ActionView::Close(
            Ok(()),
        ),
        h.stage is Refusing || h.stage is ReadingRequest ==> session::handler_next(
            h,
            EventView::Failed(e),
        ).1 == ActionView::Close(Err(e)),
{
}

/// The host is told the number of a process that was started; then the session runs.
pub proof fn lemma_launched(h: Handler, mode: Mode, pid: u32)
    ensures
        h.stage == Stage::Launching(mode) ==> session::handler_next(h, EventView::Launched(pid))
            == (
            Handler { stage: Stage::Announcing(mode), ..h },
            ActionView::Send(wire::frame(EXEC_STARTED, ExecStarted::encoding(ExecStarted { pid }))),
        ),
        h.stage == Stage::Announcing(mode) ==> session::handler_next(h, EventView::Done) == (
            Handler {
                stage: Stage::Running(Session { mode, stdin_open: true, phase: Phase::Polling }),
                ..h
            },
            ActionView::Poll,
        ),
{
}

/// The host is told why a process could not be started, as far as that fits in a frame.
pub proof fn lemma_launch_failed(h: Handler, e: FailureView)
    ensures
        ({
            let (h2, a) = session::handler_next(h, EventView::Failed(e));
            let pipes = "exec failed: "@ + e.text;
            let tty = "tty exec failed: "@ + e.text;
            let size = |text: Seq<char>| ExecError::encoding(ExecErrorView { error: text }).len();
            &&& h.stage == Stage::Launching(Mode::Pipes) && size(pipes) <= MAX_PAYLOAD ==> h2.stage
                == Stage::Reporting(Mode::Pipes) && a == ActionView::Send(error_frame(pipes))
            &&& h.stage == Stage::Launching(Mode::Terminal) && size(tty) <= MAX_PAYLOAD ==> h2.stage
                == Stage::Reporting(Mode::Terminal) && a == ActionView::Send(error_frame(tty))
            &&& h.stage == Stage::Launching(Mode::Pipes) && size(pipes) > MAX_PAYLOAD ==> a
                == ActionView::Close(Err(wire::payload_too_large(size(pipes))))
            &&& h.stage == Stage::Launching(Mode::Terminal) && size(tty) > MAX_PAYLOAD ==> a
                == ActionView::Close(Ok(()))
        }),
{
}

/// A host that cannot be told of the start, or of the failure to start, makes the connection fail
/// on pipes, and not on a terminal. A host that was told of the failure has all it gets.
pub proof fn lemma_telling_failed(h: Handler, mode: Mode, e: FailureView)
    ensures
        h.stage == Stage::Announcing(mode) || h.stage == Stage::Reporting(mode)
            ==> session::handler_next(h, EventView::Failed(e)).1 == ActionView::Close(
            match mode {
                Mode::Pipes => Err(e),
                Mode::Terminal => Ok(()),
            },
        ),
        h.stage == Stage::Reporting(mode) ==> session::handler_next(h, EventView::Done).1
            == ActionView::Close(Ok(())),
{
}

/// While the process runs, the connection does what the session does; when the session is over, so
/// is the connection, and well.
pub proof fn lemma_running(h: Handler, s: Session, ev: EventView)
    requires
        h.stage == Stage::Running(s),
    ensures
        ({
            let (s2, a) = session::session_next(s, ev);
            let (h2, b) = session::handler_next(h, ev);
            &&& a is Finish ==> h2.stage is Closed && b == ActionView::Close(Ok(()))
            &&& !(a is Finish) ==> h2.stage == Stage::Running(s2) && b == a
        }),
{
}

} // verus!
