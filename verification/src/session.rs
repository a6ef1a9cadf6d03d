//! The agent's side of a connection.
//!
//! A connection carries one process. [`Handler`] decides what to do on it and [`Session`] what to
//! do while the process runs. Neither does anything itself: each step takes the event that the
//! last action brought and gives the next action.

use crate::exec;
use crate::exec::{send_signal, wait_child, WaitOutcome, WaitOutcomeView, SIGHUP};
use crate::failure::{ErrorKind, Failure, FailureView};
use crate::proto;
use crate::proto::{
    ExecError, ExecErrorView, ExecRequest, ExecRequestView, ExecStarted, ExitStatus, Message,
    Schema, Signal, WindowResize,
};
use crate::protobuf;
use crate::text;
use crate::text::push_hex_byte;
use crate::wire;
use crate::wire::{
    write_frame, write_proto, EXEC_ERROR, EXEC_REQUEST, EXEC_STARTED, EXIT_STATUS, MAX_PAYLOAD,
    SIGNAL, STDERR_DATA, STDIN_DATA, STDIN_EOF, STDOUT_DATA, WINDOW_RESIZE,
};
use vstd::prelude::*;
use vstd::utf8::*;

verus! {

/// How many bytes of the process are read at once, at most.
pub const READ_SIZE: usize = 32768;

// ---- Events and actions ----

/// How a process is attached to the agent.
#[derive(Clone, Copy, Debug, PartialEq, Eq, Structural)]
pub enum Mode {
    /// By three pipes.
    Pipes,
    /// By a terminal, which carries its output and its errors alike.
    Terminal,
}

/// What polling said of a descriptor.
#[derive(Clone, Copy, Debug, PartialEq, Eq, Structural)]
pub struct Ready {
    /// There is something to read.
    pub readable: bool,
    /// The other side is closed.
    pub hung_up: bool,
}

/// What came of an action.
#[derive(Debug)]
pub enum Event {
    /// Polling returned: whether the host sent something, how the output of the process is and
    /// whether there are errors of it to read. A terminal's output is all of this; it has no
    /// `stderr`.
    Polled { host: bool, stdout: Ready, stderr: bool },
    /// The host sent a frame.
    Frame { type_byte: u8, payload: Vec<u8> },
    /// The process wrote this, of [`READ_SIZE`] bytes at most; nothing where its output ended.
    Output(Vec<u8>),
    /// The action was carried out.
    Done,
    /// The process was started.
    Launched(u32),
    /// Waiting for the process returned.
    Ended(WaitOutcome),
    /// The action failed.
    Failed(Failure),
}

/// The contents of an [`Event`].
pub enum EventView {
    Polled { host: bool, stdout: Ready, stderr: bool },
    Frame { type_byte: u8, payload: Seq<u8> },
    Output(Seq<u8>),
    Done,
    Launched(u32),
    Ended(WaitOutcomeView),
    Failed(FailureView),
}

impl View for Event {
    type V = EventView;

    open spec fn view(&self) -> EventView {
        match *self {
            Event::Polled { host, stdout, stderr } => EventView::Polled { host, stdout, stderr },
            Event::Frame { type_byte, payload } => EventView::Frame {
                type_byte,
                payload: payload@,
            },
            Event::Output(data) => EventView::Output(data@),
            Event::Done => EventView::Done,
            Event::Launched(pid) => EventView::Launched(pid),
            Event::Ended(outcome) => EventView::Ended(outcome@),
            Event::Failed(e) => EventView::Failed(e@),
        }
    }
}

/// What to do next.
pub enum Action {
    /// Read a frame from the host.
    ReadFrame,
    /// Start a process, attached like this.
    Launch { req: ExecRequest, mode: Mode },
    /// Wait until the host or the process has something, but not for long.
    Poll,
    /// Write this to the input of the process.
    WriteStdin(Vec<u8>),
    /// Close the input of the process.
    CloseStdin,
    /// Send the process this signal.
    Kill(i32),
    /// Give the terminal this size.
    Resize { rows: u16, cols: u16 },
    /// Note that the host sent a frame of this type out of place.
    Warn(u8),
    /// Read what the process wrote.
    ReadStdout,
    /// Read what the process wrote as errors.
    ReadStderr,
    /// Send these bytes to the host.
    Send(Vec<u8>),
    /// Wait for the process to end.
    Wait,
    /// The session is over, with this outcome.
    Finish(Result<ExitStatus, Failure>),
    /// The connection is over, with this outcome.
    Close(Result<(), Failure>),
}

/// The contents of an [`Action`].
pub enum ActionView {
    ReadFrame,
    Launch { req: ExecRequestView, mode: Mode },
    Poll,
    WriteStdin(Seq<u8>),
    CloseStdin,
    Kill(i32),
    Resize { rows: u16, cols: u16 },
    Warn(u8),
    ReadStdout,
    ReadStderr,
    Send(Seq<u8>),
    Wait,
    Finish(Result<ExitStatus, FailureView>),
    Close(Result<(), FailureView>),
}

impl View for Action {
    type V = ActionView;

    open spec fn view(&self) -> ActionView {
        match *self {
            Action::ReadFrame => ActionView::ReadFrame,
            Action::Launch { req, mode } => ActionView::Launch { req: req@, mode },
            Action::Poll => ActionView::Poll,
            Action::WriteStdin(data) => ActionView::WriteStdin(data@),
            Action::CloseStdin => ActionView::CloseStdin,
            Action::Kill(signal) => ActionView::Kill(signal),
            Action::Resize { rows, cols } => ActionView::Resize { rows, cols },
            Action::Warn(type_byte) => ActionView::Warn(type_byte),
            Action::ReadStdout => ActionView::ReadStdout,
            Action::ReadStderr => ActionView::ReadStderr,
            Action::Send(bytes) => ActionView::Send(bytes@),
            Action::Wait => ActionView::Wait,
            Action::Finish(Ok(status)) => ActionView::Finish(Ok(status)),
            Action::Finish(Err(e)) => ActionView::Finish(Err(e@)),
            Action::Close(Ok(())) => ActionView::Close(Ok(())),
            Action::Close(Err(e)) => ActionView::Close(Err(e@)),
        }
    }
}

// ---- Session ----

/// Where a session is: what its last action was for.
#[derive(Clone, Copy, Debug, PartialEq, Eq, Structural)]
pub enum Phase {
    /// Polling.
    Polling,
    /// Reading a frame; polling said this of the process.
    ReadingHost { out: Ready, err: bool },
    /// Doing what the host asked for.
    Serving { out: Ready, err: bool },
    /// Telling the process that the host is gone.
    HangingUp,
    /// Waiting for the process when the host is gone.
    WaitingAlone,
    /// Reading the output of the process.
    ReadingStdout { out: Ready, err: bool },
    /// Sending what was read of it.
    SendingStdout { out: Ready, err: bool },
    /// Reading the errors of the process, which may have ended by now.
    ReadingStderr(Option<ExitStatus>),
    /// Sending what was read of them.
    SendingStderr(Option<ExitStatus>),
    /// Waiting for the process when its output ended.
    Waiting,
    /// Polling for errors that a process left behind.
    Draining(ExitStatus),
    /// Sending its exit status.
    Reporting(ExitStatus),
    /// Over.
    Finished,
}

/// The state of a session.
#[derive(Clone, Copy, Debug, PartialEq, Eq, Structural)]
pub struct Session {
    pub mode: Mode,
    /// Whether the input of the process is open.
    pub stdin_open: bool,
    pub phase: Phase,
}

/// The outcome of a decision: the state and the action.
pub type Decision = (Session, ActionView);

/// A session at its start: it polls for the first time.
pub open spec fn session_start(mode: Mode) -> Session {
    Session { mode, stdin_open: true, phase: Phase::Polling }
}

/// Whether `ev` is what reading from the process brings: as many bytes as are read at once, or
/// less.
pub open spec fn is_read(ev: EventView) -> bool {
    ev matches EventView::Output(data) && data.len() <= READ_SIZE
}

/// Whether `ev` can come of the action that `phase` is for.
pub open spec fn session_expects(phase: Phase, ev: EventView) -> bool {
    match phase {
        Phase::Polling => ev is Polled || ev is Failed,
        Phase::ReadingHost { .. } => ev is Frame || ev is Failed,
        Phase::Serving { .. } => ev is Done || ev is Failed,
        Phase::HangingUp => ev is Done || ev is Failed,
        Phase::WaitingAlone => ev is Ended,
        Phase::ReadingStdout { .. } => is_read(ev) || ev is Failed,
        Phase::SendingStdout { .. } => ev is Done || ev is Failed,
        Phase::ReadingStderr(_) => is_read(ev) || ev is Failed,
        Phase::SendingStderr(_) => ev is Done || ev is Failed,
        Phase::Waiting => ev is Ended,
        Phase::Draining(_) => ev is Polled || ev is Failed,
        Phase::Reporting(_) => ev is Done || ev is Failed,
        Phase::Finished => false,
    }
}

/// The end of a session.
pub open spec fn finish(s: Session, outcome: Result<ExitStatus, FailureView>) -> Decision {
    (Session { phase: Phase::Finished, ..s }, ActionView::Finish(outcome))
}

/// What follows when the output of the process has been seen to: the end of the process, if its
/// output has ended, else its errors, if there are any, else polling again.
pub open spec fn after_stdout(s: Session, out: Ready, err: bool) -> Decision {
    if out.hung_up && !out.readable {
        (Session { phase: Phase::Waiting, ..s }, ActionView::Wait)
    } else if s.mode == Mode::Pipes && err {
        (Session { phase: Phase::ReadingStderr(None), ..s }, ActionView::ReadStderr)
    } else {
        (Session { phase: Phase::Polling, ..s }, ActionView::Poll)
    }
}

/// What follows when the host has been seen to.
pub open spec fn after_host(s: Session, out: Ready, err: bool) -> Decision {
    if out.readable {
        (Session { phase: Phase::ReadingStdout { out, err }, ..s }, ActionView::ReadStdout)
    } else {
        after_stdout(s, out, err)
    }
}

/// What follows when errors of the process have been seen to: polling again.
pub open spec fn after_stderr(s: Session, ended: Option<ExitStatus>) -> Decision {
    match ended {
        Some(status) => (Session { phase: Phase::Draining(status), ..s }, ActionView::Poll),
        None => (Session { phase: Phase::Polling, ..s }, ActionView::Poll),
    }
}

/// The host is told how the process ended.
pub open spec fn report_exit(s: Session, status: ExitStatus) -> Decision {
    (
        Session { phase: Phase::Reporting(status), ..s },
        ActionView::Send(wire::frame(EXIT_STATUS, ExitStatus::encoding(status))),
    )
}

/// What follows when the process has ended: on pipes, what it left behind of its errors, as far as
/// that can be read, then its exit status.
pub open spec fn after_wait(s: Session, status: ExitStatus) -> Decision {
    match s.mode {
        Mode::Pipes => after_stderr(s, Some(status)),
        Mode::Terminal => report_exit(s, status),
    }
}

/// What a frame from the host asks for while the process runs.
pub open spec fn on_frame(
    s: Session,
    out: Ready,
    err: bool,
    type_byte: u8,
    payload: Seq<u8>,
) -> Decision {
    let serving = Session { phase: Phase::Serving { out, err }, ..s };
    if type_byte == STDIN_DATA && (s.mode == Mode::Terminal || s.stdin_open) {
        (serving, ActionView::WriteStdin(payload))
    } else if type_byte == STDIN_EOF && s.mode == Mode::Pipes && s.stdin_open {
        (Session { stdin_open: false, ..serving }, ActionView::CloseStdin)
    } else if type_byte == WINDOW_RESIZE && s.mode == Mode::Terminal {
        match proto::decoding::<WindowResize>(payload) {
            Some(size) => (
                serving,
                ActionView::Resize {
                    rows: (size.rows % 65536) as u16,
                    cols: (size.cols % 65536) as u16,
                },
            ),
            None => finish(s, Err(proto::undecodable::<WindowResize>(payload))),
        }
    } else if type_byte == SIGNAL {
        match proto::decoding::<Signal>(payload) {
            Some(m) => if 1 <= m.signal <= exec::MAX_SIGNAL {
                (serving, ActionView::Kill(m.signal))
            } else {
                finish(s, Err(exec::invalid_signal(m.signal)))
            },
            None => finish(s, Err(proto::undecodable::<Signal>(payload))),
        }
    } else {
        (serving, ActionView::Warn(type_byte))
    }
}

/// What is done with bytes of the process: they are sent in a frame, in the phase `sending`.
pub open spec fn forward(s: Session, sending: Phase, type_byte: u8, data: Seq<u8>) -> Decision {
    (Session { phase: sending, ..s }, ActionView::Send(wire::frame(type_byte, data)))
}

/// What follows when an action was carried out, or the failure that ends the session.
pub open spec fn if_done(s: Session, ev: EventView, next: Decision) -> Decision {
    match ev {
        EventView::Failed(e) => finish(s, Err(e)),
        _ => next,
    }
}

/// The next state and action of a session.
pub open spec fn session_next(s: Session, ev: EventView) -> Decision {
    match (s.phase, ev) {
        (Phase::Polling, EventView::Polled { host, stdout, stderr }) => if host {
            (
                Session { phase: Phase::ReadingHost { out: stdout, err: stderr }, ..s },
                ActionView::ReadFrame,
            )
        } else {
            after_host(s, stdout, stderr)
        },
        (Phase::ReadingHost { out, err }, EventView::Frame { type_byte, payload }) => on_frame(
            s,
            out,
            err,
            type_byte,
            payload,
        ),
        (Phase::ReadingHost { .. }, EventView::Failed(e)) => if e.kind
            == ErrorKind::UnexpectedEof {
            (Session { phase: Phase::HangingUp, ..s }, ActionView::Kill(SIGHUP))
        } else {
            finish(s, Err(e))
        },
        (Phase::Serving { out, err }, _) => if_done(s, ev, after_host(s, out, err)),
        (Phase::HangingUp, _) => (
            Session { phase: Phase::WaitingAlone, ..s },
            ActionView::Wait,
        ),
        (Phase::WaitingAlone, EventView::Ended(outcome)) => finish(s, exec::wait_result(outcome)),
        (Phase::ReadingStdout { out, err }, EventView::Output(data)) => if data.len() == 0 {
            after_stdout(s, out, err)
        } else {
            forward(s, Phase::SendingStdout { out, err }, STDOUT_DATA, data)
        },
        (Phase::ReadingStdout { out, err }, EventView::Failed(e)) => if s.mode == Mode::Terminal {
            after_stdout(s, out, err)
        } else {
            finish(s, Err(e))
        },
        (Phase::SendingStdout { out, err }, _) => if_done(s, ev, after_stdout(s, out, err)),
        (Phase::ReadingStderr(ended), EventView::Output(data)) => if data.len() == 0 {
            after_stderr(s, ended)
        } else {
            forward(s, Phase::SendingStderr(ended), STDERR_DATA, data)
        },
        (Phase::ReadingStderr(Some(status)), EventView::Failed(_)) => report_exit(s, status),
        (Phase::SendingStderr(ended), _) => if_done(s, ev, after_stderr(s, ended)),
        (Phase::Waiting, EventView::Ended(outcome)) => match exec::wait_result(outcome) {
            Ok(status) => after_wait(s, status),
            Err(e) => finish(s, Err(e)),
        },
        (Phase::Draining(status), EventView::Polled { stderr, .. }) => if stderr {
            (
                Session { phase: Phase::ReadingStderr(Some(status)), ..s },
                ActionView::ReadStderr,
            )
        } else {
            report_exit(s, status)
        },
        (Phase::Draining(status), EventView::Failed(_)) => report_exit(s, status),
        (Phase::Reporting(status), _) => if_done(s, ev, finish(s, Ok(status))),
        (_, EventView::Failed(e)) => finish(s, Err(e)),
        _ => (s, ActionView::Poll),
    }
}

/// Starts a session with a process on pipes: the first thing to do is to poll.
pub fn session_non_tty() -> (r: (Session, Action))
    ensures
        r.0 == session_start(Mode::Pipes),
        r.1@ == ActionView::Poll,
{
    (Session { mode: Mode::Pipes, stdin_open: true, phase: Phase::Polling }, Action::Poll)
}

/// Starts a session with a process on a terminal: the first thing to do is to poll.
pub fn session_tty() -> (r: (Session, Action))
    ensures
        r.0 == session_start(Mode::Terminal),
        r.1@ == ActionView::Poll,
{
    (Session { mode: Mode::Terminal, stdin_open: true, phase: Phase::Polling }, Action::Poll)
}

/// A frame as bytes of its own.
fn framed(type_byte: u8, payload: &[u8]) -> (r: Result<Vec<u8>, Failure>)
    ensures
        match r {
            Ok(bytes) => payload@.len() <= MAX_PAYLOAD && bytes@ == wire::frame(
                type_byte,
                payload@,
            ),
            Err(e) => payload@.len() > MAX_PAYLOAD && e@ == wire::payload_too_large(payload@.len()),
        },
{
    let mut w: Vec<u8> = Vec::new();
    match write_frame(&mut w, type_byte, payload) {
        Ok(()) => {
            assert(w@ =~= wire::frame(type_byte, payload@));
            Ok(w)
        },
        Err(e) => Err(e),
    }
}

/// A message framed as bytes of its own.
fn framed_proto<M: Message>(type_byte: u8, msg: &M) -> (r: Result<Vec<u8>, Failure>)
    ensures
        match r {
            Ok(bytes) => M::encoding(msg@).len() <= MAX_PAYLOAD && bytes@ == wire::frame(
                type_byte,
                M::encoding(msg@),
            ),
            Err(e) => M::encoding(msg@).len() > MAX_PAYLOAD && e@ == wire::payload_too_large(
                M::encoding(msg@).len(),
            ),
        },
{
    let mut w: Vec<u8> = Vec::new();
    match write_proto(&mut w, type_byte, msg) {
        Ok(()) => {
            assert(w@ =~= wire::frame(type_byte, M::encoding(msg@)));
            Ok(w)
        },
        Err(e) => Err(e),
    }
}

/// A signal fits in a frame.
pub proof fn lemma_signal_fits(signal: i32)
    ensures
        Signal::encoding(Signal { signal }).len() <= MAX_PAYLOAD,
{
    protobuf::lemma_varint_len(8);
    protobuf::lemma_varint_len(protobuf::int32_bits(signal));
}

/// A size fits in a frame.
pub proof fn lemma_resize_fits(rows: u32, cols: u32)
    ensures
        WindowResize::encoding(WindowResize { rows, cols }).len() <= MAX_PAYLOAD,
{
    protobuf::lemma_varint_len(8);
    protobuf::lemma_varint_len(16);
    protobuf::lemma_varint_len(rows as nat);
    protobuf::lemma_varint_len(cols as nat);
}

/// An exit status fits in a frame.
pub proof fn lemma_exit_status_fits(status: ExitStatus)
    ensures
        ExitStatus::encoding(status).len() <= MAX_PAYLOAD,
{
    protobuf::lemma_varint_len(8);
    protobuf::lemma_varint_len(16);
    protobuf::lemma_varint_len(protobuf::int32_bits(status.code));
    protobuf::lemma_varint_len(protobuf::int32_bits(status.signal));
}

impl Session {
    fn finish(self, outcome: Result<ExitStatus, Failure>) -> (r: (Session, Action))
        ensures
            match outcome {
                Ok(status) => (r.0, r.1@) == finish(self, Ok(status)),
                Err(e) => (r.0, r.1@) == finish(self, Err(e@)),
            },
    {
        (Session { phase: Phase::Finished, ..self }, Action::Finish(outcome))
    }

    fn after_stdout(self, out: Ready, err: bool) -> (r: (Session, Action))
        ensures
            (r.0, r.1@) == after_stdout(self, out, err),
    {
        if out.hung_up && !out.readable {
            (Session { phase: Phase::Waiting, ..self }, Action::Wait)
        } else if self.mode == Mode::Pipes && err {
            (Session { phase: Phase::ReadingStderr(None), ..self }, Action::ReadStderr)
        } else {
            (Session { phase: Phase::Polling, ..self }, Action::Poll)
        }
    }

    fn after_host(self, out: Ready, err: bool) -> (r: (Session, Action))
        ensures
            (r.0, r.1@) == after_host(self, out, err),
    {
        if out.readable {
            (Session { phase: Phase::ReadingStdout { out, err }, ..self }, Action::ReadStdout)
        } else {
            self.after_stdout(out, err)
        }
    }

    fn after_stderr(self, ended: Option<ExitStatus>) -> (r: (Session, Action))
        ensures
            (r.0, r.1@) == after_stderr(self, ended),
    {
        match ended {
            Some(status) => (Session { phase: Phase::Draining(status), ..self }, Action::Poll),
            None => (Session { phase: Phase::Polling, ..self }, Action::Poll),
        }
    }

    fn report_exit(self, status: ExitStatus) -> (r: (Session, Action))
        ensures
            (r.0, r.1@) == report_exit(self, status),
    {
        proof {
            lemma_exit_status_fits(status);
        }
        match framed_proto(EXIT_STATUS, &status) {
            Ok(bytes) => (
                Session { phase: Phase::Reporting(status), ..self },
                Action::Send(bytes),
            ),
            Err(e) => self.finish(Err(e)),
        }
    }

    fn on_frame(self, out: Ready, err: bool, type_byte: u8, payload: Vec<u8>) -> (r: (
        Session,
        Action,
    ))
        ensures
            (r.0, r.1@) == on_frame(self, out, err, type_byte, payload@),
    {
        let serving = Session { phase: Phase::Serving { out, err }, ..self };
        if type_byte == STDIN_DATA && (self.mode == Mode::Terminal || self.stdin_open) {
            (serving, Action::WriteStdin(payload))
        } else if type_byte == STDIN_EOF && self.mode == Mode::Pipes && self.stdin_open {
            (Session { stdin_open: false, ..serving }, Action::CloseStdin)
        } else if type_byte == WINDOW_RESIZE && self.mode == Mode::Terminal {
            match WindowResize::decode(payload.as_slice()) {
                Ok(size) => {
                    let rows = (size.rows % 65536) as u16;
                    let cols = (size.cols % 65536) as u16;
                    (serving, Action::Resize { rows, cols })
                },
                Err(e) => self.finish(Err(e)),
            }
        } else if type_byte == SIGNAL {
            match Signal::decode(payload.as_slice()) {
                Ok(m) => match send_signal(m.signal) {
                    Ok(signal) => (serving, Action::Kill(signal)),
                    Err(e) => self.finish(Err(e)),
                },
                Err(e) => self.finish(Err(e)),
            }
        } else {
            (serving, Action::Warn(type_byte))
        }
    }

    fn forward(self, sending: Phase, type_byte: u8, data: &[u8]) -> (r: (Session, Action))
        requires
            data@.len() <= READ_SIZE,
        ensures
            (r.0, r.1@) == forward(self, sending, type_byte, data@),
    {
        match framed(type_byte, data) {
            Ok(bytes) => (Session { phase: sending, ..self }, Action::Send(bytes)),
            Err(e) => self.finish(Err(e)),
        }
    }

    /// The next state and action, from the event that the last action brought.
    pub fn step(self, ev: Event) -> (r: (Session, Action))
        requires
            session_expects(self.phase, ev@),
        ensures
            (r.0, r.1@) == session_next(self, ev@),
    {
        match (self.phase, ev) {
            (Phase::Polling, Event::Polled { host, stdout, stderr }) => {
                if host {
                    let phase = Phase::ReadingHost { out: stdout, err: stderr };
                    (Session { phase, ..self }, Action::ReadFrame)
                } else {
                    self.after_host(stdout, stderr)
                }
            },
            (Phase::ReadingHost { out, err }, Event::Frame { type_byte, payload }) => self.on_frame(
                out,
                err,
                type_byte,
                payload,
            ),
            (Phase::ReadingHost { .. }, Event::Failed(e)) => {
                if e.kind == ErrorKind::UnexpectedEof {
                    (Session { phase: Phase::HangingUp, ..self }, Action::Kill(SIGHUP))
                } else {
                    self.finish(Err(e))
                }
            },
            (Phase::Serving { out, err }, Event::Done) => self.after_host(out, err),
            (Phase::HangingUp, _) => (
                Session { phase: Phase::WaitingAlone, ..self },
                Action::Wait,
            ),
            (Phase::WaitingAlone, Event::Ended(outcome)) => {
                let outcome = wait_child(outcome);
                self.finish(outcome)
            },
            (Phase::ReadingStdout { out, err }, Event::Output(data)) => {
                if data.len() == 0 {
                    self.after_stdout(out, err)
                } else {
                    self.forward(Phase::SendingStdout { out, err }, STDOUT_DATA, data.as_slice())
                }
            },
            (Phase::ReadingStdout { out, err }, Event::Failed(e)) => {
                if self.mode == Mode::Terminal {
                    self.after_stdout(out, err)
                } else {
                    self.finish(Err(e))
                }
            },
            (Phase::SendingStdout { out, err }, Event::Done) => self.after_stdout(out, err),
            (Phase::ReadingStderr(ended), Event::Output(data)) => {
                if data.len() == 0 {
                    self.after_stderr(ended)
                } else {
                    self.forward(Phase::SendingStderr(ended), STDERR_DATA, data.as_slice())
                }
            },
            (Phase::ReadingStderr(Some(status)), Event::Failed(_)) => self.report_exit(status),
            (Phase::SendingStderr(ended), Event::Done) => self.after_stderr(ended),
            (Phase::Waiting, Event::Ended(outcome)) => match wait_child(outcome) {
                Ok(status) => match self.mode {
                    Mode::Pipes => self.after_stderr(Some(status)),
                    Mode::Terminal => self.report_exit(status),
                },
                Err(e) => self.finish(Err(e)),
            },
            (Phase::Draining(status), Event::Polled { stderr, .. }) => {
                if stderr {
                    let phase = Phase::ReadingStderr(Some(status));
                    (Session { phase, ..self }, Action::ReadStderr)
                } else {
                    self.report_exit(status)
                }
            },
            (Phase::Draining(status), Event::Failed(_)) => self.report_exit(status),
            (Phase::Reporting(status), Event::Done) => self.finish(Ok(status)),
            (_, Event::Failed(e)) => self.finish(Err(e)),
            _ => (self, Action::Poll),
        }
    }

    /// Whether `ev` can come of the last action.
    pub fn expects(&self, ev: &Event) -> (r: bool)
        ensures
            r == session_expects(self.phase, ev@),
    {
        let failed = matches!(ev, Event::Failed(_));
        match self.phase {
            Phase::Polling | Phase::Draining(_) => failed || matches!(ev, Event::Polled { .. }),
            Phase::ReadingHost { .. } => failed || matches!(ev, Event::Frame { .. }),
            Phase::Serving { .. }
            | Phase::HangingUp
            | Phase::SendingStdout { .. }
            | Phase::SendingStderr(_)
            | Phase::Reporting(_) => failed || matches!(ev, Event::Done),
            Phase::ReadingStdout { .. } | Phase::ReadingStderr(_) => match ev {
                Event::Output(data) => data.len() <= READ_SIZE,
                _ => failed,
            },
            Phase::WaitingAlone | Phase::Waiting => matches!(ev, Event::Ended(_)),
            Phase::Finished => false,
        }
    }

    /// The next state and action, or nothing where `ev` cannot come of the last action.
    pub fn try_step(self, ev: Event) -> (r: Option<(Session, Action)>)
        ensures
            match r {
                Some((next, action)) => session_expects(self.phase, ev@) && (next, action@)
                    == session_next(self, ev@),
                None => !session_expects(self.phase, ev@),
            },
    {
        if self.expects(&ev) {
            Some(self.step(ev))
        } else {
            None
        }
    }
}

// ---- Connection ----

/// Where a connection is: what its last action was for.
#[derive(Clone, Copy, Debug, PartialEq, Eq, Structural)]
pub enum Stage {
    /// Reading the first frame.
    ReadingRequest,
    /// Telling the host that what it asked for is not done.
    Refusing,
    /// Starting the process.
    Launching(Mode),
    /// Telling the host that the process started.
    Announcing(Mode),
    /// The process runs.
    Running(Session),
    /// Telling the host that the process could not be started.
    Reporting(Mode),
    /// Over.
    Closed,
}

/// The state of a connection.
#[derive(Clone, Copy, Debug, PartialEq, Eq, Structural)]
pub struct Handler {
    /// Whether processes can be started here.
    pub engine: bool,
    pub stage: Stage,
}

/// A connection that was just accepted.
pub open spec fn handler_start(engine: bool) -> Handler {
    Handler { engine, stage: Stage::ReadingRequest }
}

/// Whether `ev` can come of the action that `stage` is for.
pub open spec fn handler_expects(stage: Stage, ev: EventView) -> bool {
    match stage {
        Stage::ReadingRequest => ev is Frame || ev is Failed,
        Stage::Refusing => ev is Done || ev is Failed,
        Stage::Launching(_) => ev is Launched || ev is Failed,
        Stage::Announcing(_) => ev is Done || ev is Failed,
        Stage::Running(s) => session_expects(s.phase, ev),
        Stage::Reporting(_) => ev is Done || ev is Failed,
        Stage::Closed => false,
    }
}

/// The end of a connection.
pub open spec fn close(h: Handler, outcome: Result<(), FailureView>) -> (Handler, ActionView) {
    (Handler { stage: Stage::Closed, ..h }, ActionView::Close(outcome))
}

/// The message that tells the host what went wrong.
pub open spec fn error_message(text: Seq<char>) -> Seq<u8> {
    ExecError::encoding(ExecErrorView { error: text })
}

/// What the host is told where the first frame is no request.
pub open spec fn not_a_request(type_byte: u8) -> Seq<char> {
    "expected EXEC_REQUEST (0x01), got 0x"@ + text::hex_byte(type_byte)
}

/// What the host is told where no process can be started.
pub open spec fn no_engine() -> Seq<char> {
    "exec engine requires Linux"@
}

/// What the host is told where a process could not be started.
pub open spec fn process_failed(mode: Mode, text: Seq<char>) -> Seq<char> {
    match mode {
        Mode::Pipes => "exec failed: "@ + text,
        Mode::Terminal => "tty exec failed: "@ + text,
    }
}

/// How the process of a request is attached.
pub open spec fn mode_of(tty: bool) -> Mode {
    if tty {
        Mode::Terminal
    } else {
        Mode::Pipes
    }
}

/// The host is told `text` and the connection is over.
pub open spec fn refuse(h: Handler, text: Seq<char>) -> (Handler, ActionView) {
    (
        Handler { stage: Stage::Refusing, ..h },
        ActionView::Send(wire::frame(EXEC_ERROR, error_message(text))),
    )
}

/// The outcome of a connection where the host cannot be told that the process failed, for the
/// reason `e`: a failure for a process on pipes, none for one on a terminal.
pub open spec fn report_failed(mode: Mode, e: FailureView) -> Result<(), FailureView> {
    match mode {
        Mode::Pipes => Err(e),
        Mode::Terminal => Ok(()),
    }
}

/// The host is told that the process failed for the reason `text`, where that fits in a frame, and
/// the connection is over.
pub open spec fn report(h: Handler, mode: Mode, text: Seq<char>) -> (Handler, ActionView) {
    let message = error_message(process_failed(mode, text));
    if message.len() > MAX_PAYLOAD {
        close(h, report_failed(mode, wire::payload_too_large(message.len())))
    } else {
        (
            Handler { stage: Stage::Reporting(mode), ..h },
            ActionView::Send(wire::frame(EXEC_ERROR, message)),
        )
    }
}

/// What the first frame asks for.
pub open spec fn on_request(
    h: Handler,
    type_byte: u8,
    payload: Seq<u8>,
) -> (Handler, ActionView) {
    if type_byte != EXEC_REQUEST {
        refuse(h, not_a_request(type_byte))
    } else {
        match proto::decoding::<ExecRequest>(payload) {
            Some(req) => if h.engine {
                (
                    Handler { stage: Stage::Launching(mode_of(req.tty)), ..h },
                    ActionView::Launch { req, mode: mode_of(req.tty) },
                )
            } else {
                refuse(h, no_engine())
            },
            None => close(h, Err(proto::undecodable::<ExecRequest>(payload))),
        }
    }
}

/// The next state and action of a connection. What a session ends with is not the connection's
/// failure, nor is it on a terminal that the host cannot be told of the start.
pub open spec fn handler_next(h: Handler, ev: EventView) -> (Handler, ActionView) {
    match (h.stage, ev) {
        (Stage::ReadingRequest, EventView::Frame { type_byte, payload }) => on_request(
            h,
            type_byte,
            payload,
        ),
        (Stage::Launching(mode), EventView::Launched(pid)) => (
            Handler { stage: Stage::Announcing(mode), ..h },
            ActionView::Send(
                wire::frame(EXEC_STARTED, ExecStarted::encoding(ExecStarted { pid })),
            ),
        ),
        (Stage::Launching(mode), EventView::Failed(e)) => report(h, mode, e.text),
        (Stage::Announcing(mode), EventView::Done) => (
            Handler { stage: Stage::Running(session_start(mode)), ..h },
            ActionView::Poll,
        ),
        (Stage::Announcing(Mode::Terminal), EventView::Failed(_)) => close(h, Ok(())),
        (Stage::Running(s), _) => {
            let (s2, action) = session_next(s, ev);
            match action {
                ActionView::Finish(_) => close(h, Ok(())),
                _ => (Handler { stage: Stage::Running(s2), ..h }, action),
            }
        },
        (Stage::Reporting(mode), EventView::Failed(e)) => close(h, report_failed(mode, e)),
        (_, EventView::Failed(e)) => close(h, Err(e)),
        _ => close(h, Ok(())),
    }
}

/// Starts to serve a connection: the first thing to do is to read a frame. `engine` says whether
/// processes can be started here.
pub fn handle_connection(engine: bool) -> (r: (Handler, Action))
    ensures
        r.0 == handler_start(engine),
        r.1@ == ActionView::ReadFrame,
{
    (Handler { engine, stage: Stage::ReadingRequest }, Action::ReadFrame)
}

/// A message of a few characters fits in a frame.
pub proof fn lemma_error_message_fits(text: Seq<char>)
    requires
        text.len() <= 100,
    ensures
        error_message(text).len() <= MAX_PAYLOAD,
{
    protobuf::lemma_varint_len(10);
    protobuf::lemma_utf8_len(text);
    protobuf::lemma_varint_len(encode_utf8(text).len());
}

/// The message that the process started fits in a frame.
pub proof fn lemma_started_fits(pid: u32)
    ensures
        ExecStarted::encoding(ExecStarted { pid }).len() <= MAX_PAYLOAD,
{
    protobuf::lemma_varint_len(8);
    protobuf::lemma_varint_len(pid as nat);
}

impl Handler {
    fn close(self, outcome: Result<(), Failure>) -> (r: (Handler, Action))
        ensures
            match outcome {
                Ok(()) => (r.0, r.1@) == close(self, Ok(())),
                Err(e) => (r.0, r.1@) == close(self, Err(e@)),
            },
    {
        (Handler { stage: Stage::Closed, ..self }, Action::Close(outcome))
    }

    fn refuse(self, error: String) -> (r: (Handler, Action))
        requires
            error@.len() <= 100,
        ensures
            (r.0, r.1@) == refuse(self, error@),
    {
        proof {
            lemma_error_message_fits(error@);
        }
        let message = ExecError { error };
        match framed_proto(EXEC_ERROR, &message) {
            Ok(bytes) => (Handler { stage: Stage::Refusing, ..self }, Action::Send(bytes)),
            Err(e) => self.close(Err(e)),
        }
    }

    fn report(self, mode: Mode, e: &Failure) -> (r: (Handler, Action))
        ensures
            (r.0, r.1@) == report(self, mode, e@.text),
    {
        let mut error = match mode {
            Mode::Pipes => "exec failed: ".to_owned(),
            Mode::Terminal => "tty exec failed: ".to_owned(),
        };
        error.append(e.message());
        let message = ExecError { error };
        match framed_proto(EXEC_ERROR, &message) {
            Ok(bytes) => (Handler { stage: Stage::Reporting(mode), ..self }, Action::Send(bytes)),
            Err(e) => match mode {
                Mode::Pipes => self.close(Err(e)),
                Mode::Terminal => self.close(Ok(())),
            },
        }
    }

    fn on_request(self, type_byte: u8, payload: Vec<u8>) -> (r: (Handler, Action))
        ensures
            (r.0, r.1@) == on_request(self, type_byte, payload@),
    {
        if type_byte != EXEC_REQUEST {
            proof {
                reveal_strlit("expected EXEC_REQUEST (0x01), got 0x");
            }
            let mut error = "expected EXEC_REQUEST (0x01), got 0x".to_owned();
            push_hex_byte(&mut error, type_byte);
            return self.refuse(error);
        }
        match ExecRequest::decode(payload.as_slice()) {
            Ok(req) => if self.engine {
                let mode = if req.tty {
                    Mode::Terminal
                } else {
                    Mode::Pipes
                };
                (Handler { stage: Stage::Launching(mode), ..self }, Action::Launch { req, mode })
            } else {
                proof {
                    reveal_strlit("exec engine requires Linux");
                }
                self.refuse("exec engine requires Linux".to_owned())
            },
            Err(e) => self.close(Err(e)),
        }
    }

    /// Whether `ev` can come of the last action.
    pub fn expects(&self, ev: &Event) -> (r: bool)
        ensures
            r == handler_expects(self.stage, ev@),
    {
        let failed = matches!(ev, Event::Failed(_));
        match self.stage {
            Stage::ReadingRequest => failed || matches!(ev, Event::Frame { .. }),
            Stage::Refusing | Stage::Announcing(_) | Stage::Reporting(_) => failed || matches!(
                ev,
                Event::Done
            ),
            Stage::Launching(_) => failed || matches!(ev, Event::Launched(_)),
            Stage::Running(s) => s.expects(ev),
            Stage::Closed => false,
        }
    }

    /// The next state and action, from the event that the last action brought.
    pub fn step(self, ev: Event) -> (r: (Handler, Action))
        requires
            handler_expects(self.stage, ev@),
        ensures
            (r.0, r.1@) == handler_next(self, ev@),
    {
        match (self.stage, ev) {
            (Stage::ReadingRequest, Event::Frame { type_byte, payload }) => self.on_request(
                type_byte,
                payload,
            ),
            (Stage::Launching(mode), Event::Launched(pid)) => {
                proof {
                    lemma_started_fits(pid);
                }
                match framed_proto(EXEC_STARTED, &ExecStarted { pid }) {
                    Ok(bytes) => (
                        Handler { stage: Stage::Announcing(mode), ..self },
                        Action::Send(bytes),
                    ),
                    Err(e) => self.close(Err(e)),
                }
            },
            (Stage::Launching(mode), Event::Failed(e)) => self.report(mode, &e),
            (Stage::Announcing(mode), Event::Done) => {
                let (session, action) = match mode {
                    Mode::Pipes => session_non_tty(),
                    Mode::Terminal => session_tty(),
                };
                (Handler { stage: Stage::Running(session), ..self }, action)
            },
            (Stage::Announcing(Mode::Terminal), Event::Failed(_)) => self.close(Ok(())),
            (Stage::Running(s), ev) => {
                let (s2, action) = s.step(ev);
                match action {
                    Action::Finish(_) => self.close(Ok(())),
                    action => (Handler { stage: Stage::Running(s2), ..self }, action),
                }
            },
            (Stage::Reporting(Mode::Terminal), Event::Failed(_)) => self.close(Ok(())),
            (_, Event::Failed(e)) => self.close(Err(e)),
            _ => self.close(Ok(())),
        }
    }

    /// The next state and action, or nothing where `ev` cannot come of the last action.
    pub fn try_step(self, ev: Event) -> (r: Option<(Handler, Action)>)
        ensures
            match r {
                Some((next, action)) => handler_expects(self.stage, ev@) && (next, action@)
                    == handler_next(self, ev@),
                None => !handler_expects(self.stage, ev@),
            },
    {
        if self.expects(&ev) {
            Some(self.step(ev))
        } else {
            None
        }
    }
}

} // verus!
