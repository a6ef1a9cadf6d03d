//! What holds of a whole connection: of the frames on it and of the bytes that pass through it.

use crate::exec;
use crate::exec::{WaitOutcomeView, SIGHUP};
use crate::failure::{ErrorKind, FailureView};
use crate::proto;
use crate::proto::{
    ExecRequest, ExecRequestView, ExecStarted, ExitStatus, Schema, Signal, WindowResize,
};
use crate::session;
use crate::session::{
    ActionView, EventView, Handler, Mode, Phase, Ready, Session, Stage, READ_SIZE,
};
use crate::wire;
use crate::wire::{
    EXEC_ERROR, EXEC_REQUEST, EXEC_STARTED, EXIT_STATUS, HEADER_SIZE, MAX_PAYLOAD, SIGNAL,
    STDERR_DATA, STDIN_DATA, STDIN_EOF, STDOUT_DATA, WINDOW_RESIZE,
};
use vstd::prelude::*;

verus! {

/// A connection and what has passed through it.
pub struct Conversation {
    pub handler: Handler,
    /// All actions so far; the last one has no event yet.
    pub actions: Seq<ActionView>,
    /// The frames that the host sent.
    pub received: Seq<(u8, Seq<u8>)>,
    /// The frames that the host got, as bytes.
    pub sent: Seq<Seq<u8>>,
    /// What was read of the output of the process.
    pub stdout: Seq<u8>,
    /// What was read of its errors.
    pub stderr: Seq<u8>,
    /// The number of the process, once it was started.
    pub started: Option<u32>,
    /// What the last poll said of its output and errors.
    pub polled: (Ready, bool),
    /// What waiting for the process brought.
    pub ended: Option<WaitOutcomeView>,
    /// What the last poll before that said.
    pub polled_before: (Ready, bool),
    /// Whether there was a poll after that.
    pub polled_after: bool,
    /// Whether polling for its errors, or reading them, failed after that.
    pub drain_failed: bool,
    /// Whether the host was found gone while the process ran.
    pub host_gone: bool,
    /// Whether output that the last poll told of is not yet read.
    pub due_stdout: bool,
    /// Whether errors that the last poll told of are not yet read.
    pub due_stderr: bool,
    /// Whether sending failed after the process ended.
    pub send_failed: bool,
    /// Whether, since the process started, an action failed, the host sent what cannot be done, or
    /// waiting brought no exit.
    pub broken: bool,
}

/// A connection that was just accepted.
pub open spec fn accepted(engine: bool) -> Conversation {
    Conversation {
        handler: session::handler_start(engine),
        actions: seq![ActionView::ReadFrame],
        received: seq![],
        sent: seq![],
        stdout: seq![],
        stderr: seq![],
        started: None,
        polled: (Ready { readable: false, hung_up: false }, false),
        ended: None,
        polled_before: (Ready { readable: false, hung_up: false }, false),
        polled_after: false,
        drain_failed: false,
        host_gone: false,
        due_stdout: false,
        due_stderr: false,
        send_failed: false,
        broken: false,
    }
}

/// Whether a frame asks for what cannot be done: a signal or, on a terminal, a size that cannot be
/// read, or a number that is no signal.
pub open spec fn is_bad_request(mode: Mode, type_byte: u8, payload: Seq<u8>) -> bool {
    ||| type_byte == SIGNAL && match proto::decoding::<Signal>(payload) {
        Some(m) => !(1 <= m.signal <= 31),
        None => true,
    }
    ||| type_byte == WINDOW_RESIZE && mode == Mode::Terminal && proto::decoding::<WindowResize>(
        payload,
    ) is None
}

/// One step of a connection.
pub open spec fn advance(c: Conversation, ev: EventView) -> Conversation {
    let (handler, action) = session::handler_next(c.handler, ev);
    Conversation {
        handler,
        actions: c.actions.push(action),
        received: match ev {
            EventView::Frame { type_byte, payload } => c.received.push((type_byte, payload)),
            _ => c.received,
        },
        sent: match (c.actions.last(), ev) {
            (ActionView::Send(bytes), EventView::Done) => c.sent.push(bytes),
            _ => c.sent,
        },
        stdout: match (c.actions.last(), ev) {
            (ActionView::ReadStdout, EventView::Output(data)) => c.stdout + data,
            _ => c.stdout,
        },
        stderr: match (c.actions.last(), ev) {
            (ActionView::ReadStderr, EventView::Output(data)) => c.stderr + data,
            _ => c.stderr,
        },
        started: match ev {
            EventView::Launched(pid) => Some(pid),
            _ => c.started,
        },
        polled: match ev {
            EventView::Polled { stdout, stderr, .. } => (stdout, stderr),
            _ => c.polled,
        },
        ended: match ev {
            EventView::Ended(outcome) => Some(outcome),
            _ => c.ended,
        },
        polled_before: match ev {
            EventView::Ended(_) => c.polled,
            _ => c.polled_before,
        },
        polled_after: match ev {
            EventView::Polled { .. } => c.ended is Some,
            EventView::Ended(_) => false,
            _ => c.polled_after,
        },
        drain_failed: c.drain_failed || c.ended is Some && ev is Failed && (c.actions.last() is Poll
            || c.actions.last() is ReadStderr),
        due_stdout: !(action is ReadStdout) && match ev {
            EventView::Polled { stdout, .. } => c.ended is None && stdout.readable,
            _ => c.due_stdout,
        },
        due_stderr: !(action is ReadStderr) && match ev {
            EventView::Polled { stdout, stderr, .. } => stderr && mode(c) == Mode::Pipes && (
            c.ended is Some || stdout.readable || !stdout.hung_up),
            _ => c.due_stderr,
        },
        send_failed: c.send_failed || c.ended is Some && c.actions.last() is Send && ev is Failed,
        broken: c.broken || c.started is Some && match ev {
            EventView::Failed(_) => true,
            EventView::Frame { type_byte, payload } => is_bad_request(mode(c), type_byte, payload),
            EventView::Ended(outcome) => !(outcome is Exited) && !(outcome is Signaled),
            _ => false,
        },
        host_gone: c.host_gone || c.handler.stage is Running && c.actions.last() is ReadFrame && (
        ev matches EventView::Failed(e) && e.kind == ErrorKind::UnexpectedEof),
    }
}

/// A connection after `inputs`.
pub open spec fn conversation(engine: bool, inputs: Seq<EventView>) -> Conversation
    decreases inputs.len(),
{
    if inputs.len() == 0 {
        accepted(engine)
    } else {
        advance(conversation(engine, inputs.drop_last()), inputs.last())
    }
}

/// Whether each of `inputs` can come of the action before it.
pub open spec fn answered(engine: bool, inputs: Seq<EventView>) -> bool
    decreases inputs.len(),
{
    inputs.len() == 0 || {
        &&& answered(engine, inputs.drop_last())
        &&& session::handler_expects(
            conversation(engine, inputs.drop_last()).handler.stage,
            inputs.last(),
        )
    }
}

/// The type of a frame.
pub open spec fn type_of(frame: Seq<u8>) -> u8 {
    frame[0]
}

/// The payload of a frame.
pub open spec fn payload_of(frame: Seq<u8>) -> Seq<u8> {
    frame.skip(HEADER_SIZE as int)
}

/// The payloads of the frames of type `t`, one behind the other.
pub open spec fn payloads(frames: Seq<Seq<u8>>, t: u8) -> Seq<u8>
    decreases frames.len(),
{
    if frames.len() == 0 {
        seq![]
    } else if type_of(frames.last()) == t {
        payloads(frames.drop_last(), t) + payload_of(frames.last())
    } else {
        payloads(frames.drop_last(), t)
    }
}

/// Whether the process wrote what frames of type `t` carry.
pub open spec fn is_output(t: u8) -> bool {
    t == STDOUT_DATA || t == STDERR_DATA
}

/// Whether frames come in the order that the protocol has: either one error; or that the process
/// started, what it wrote, and at the end how it ended.
pub open spec fn in_order(frames: Seq<Seq<u8>>) -> bool {
    ||| frames.len() == 0
    ||| frames.len() == 1 && type_of(frames[0]) == EXEC_ERROR
    ||| {
        &&& type_of(frames[0]) == EXEC_STARTED
        &&& forall|i: int| 1 <= i < frames.len() - 1 ==> is_output(type_of(#[trigger] frames[i]))
        &&& frames.len() > 1 ==> is_output(type_of(frames.last())) || type_of(frames.last())
            == EXIT_STATUS
    }
}

/// Whether frames say that the process started and what it wrote, and no more.
spec fn open_ended(frames: Seq<Seq<u8>>) -> bool {
    &&& frames.len() > 0
    &&& type_of(frames[0]) == EXEC_STARTED
    &&& forall|i: int| 1 <= i < frames.len() ==> is_output(type_of(#[trigger] frames[i]))
}

/// Whether an action sends a frame of type `t`.
pub open spec fn sends(a: ActionView, t: u8) -> bool {
    a matches ActionView::Send(bytes) && bytes.len() >= HEADER_SIZE && type_of(bytes) == t
}

/// The bytes of the process that an action sends.
pub open spec fn in_flight(a: ActionView, t: u8) -> Seq<u8> {
    match a {
        ActionView::Send(bytes) => if type_of(bytes) == t {
            payload_of(bytes)
        } else {
            seq![]
        },
        _ => seq![],
    }
}

/// Whether a session in `phase` can have asked for `a`.
spec fn session_pending(phase: Phase, a: ActionView) -> bool {
    match phase {
        Phase::Polling => a is Poll,
        Phase::ReadingHost { .. } => a is ReadFrame,
        Phase::Serving { .. } => a is WriteStdin || a is CloseStdin || a is Kill || a is Resize
            || a is Warn,
        Phase::HangingUp => a == ActionView::Kill(SIGHUP),
        Phase::WaitingAlone => a is Wait,
        Phase::ReadingStdout { .. } => a is ReadStdout,
        Phase::SendingStdout { .. } => sends(a, STDOUT_DATA),
        Phase::ReadingStderr(_) => a is ReadStderr,
        Phase::SendingStderr(_) => sends(a, STDERR_DATA),
        Phase::Waiting => a is Wait,
        Phase::Draining(_) => a is Poll,
        Phase::Reporting(status) => a == ActionView::Send(
            wire::frame(EXIT_STATUS, ExitStatus::encoding(status)),
        ),
        Phase::Finished => false,
    }
}

/// Whether a connection at `stage` can have asked for `a`.
spec fn pending(stage: Stage, a: ActionView) -> bool {
    match stage {
        Stage::ReadingRequest => a is ReadFrame,
        Stage::Refusing => sends(a, EXEC_ERROR),
        Stage::Launching(_) => a is Launch,
        Stage::Announcing(_) => sends(a, EXEC_STARTED),
        Stage::Running(s) => session_pending(s.phase, a),
        Stage::Reporting(_) => sends(a, EXEC_ERROR),
        Stage::Closed => a is Close,
    }
}

/// A frame is of its type and carries its payload.
proof fn lemma_frame_parts(t: u8, payload: Seq<u8>)
    ensures
        wire::frame(t, payload).len() == HEADER_SIZE + payload.len(),
        type_of(wire::frame(t, payload)) == t,
        payload_of(wire::frame(t, payload)) == payload,
{
    assert(payload_of(wire::frame(t, payload)) =~= payload);
}

/// A frame is sent as what it is.
proof fn lemma_sends(t: u8, payload: Seq<u8>)
    ensures
        sends(ActionView::Send(wire::frame(t, payload)), t),
{
    lemma_frame_parts(t, payload);
}

/// The phase of a session and its action go together.
proof fn lemma_session_pending(s: Session, ev: EventView)
    requires
        session::session_expects(s.phase, ev),
    ensures
        ({
            let (s2, a) = session::session_next(s, ev);
            session_pending(s2.phase, a) || a is Finish
        }),
{
    match (s.phase, ev) {
        (Phase::ReadingStdout { .. }, EventView::Output(data)) => {
            lemma_sends(STDOUT_DATA, data);
        },
        (Phase::ReadingStderr(_), EventView::Output(data)) => {
            lemma_sends(STDERR_DATA, data);
        },
        _ => {},
    }
}

/// A report goes together with its stage.
proof fn lemma_report_pending(h: Handler, mode: Mode, text: Seq<char>)
    ensures
        ({
            let (h2, a) = session::report(h, mode, text);
            pending(h2.stage, a) && h2.engine == h.engine
        }),
{
    lemma_sends(EXEC_ERROR, session::error_message(session::process_failed(mode, text)));
}

/// The stage and the action go together.
proof fn lemma_pending(h: Handler, ev: EventView)
    requires
        session::handler_expects(h.stage, ev),
    ensures
        ({
            let (h2, a) = session::handler_next(h, ev);
            pending(h2.stage, a) && h2.engine == h.engine
        }),
{
    match (h.stage, ev) {
        (Stage::ReadingRequest, EventView::Frame { type_byte, payload }) => {
            lemma_sends(EXEC_ERROR, session::error_message(session::not_a_request(type_byte)));
            lemma_sends(EXEC_ERROR, session::error_message(session::no_engine()));
        },
        (Stage::Launching(_), EventView::Launched(pid)) => {
            lemma_sends(EXEC_STARTED, ExecStarted::encoding(ExecStarted { pid }));
        },
        (Stage::Launching(m), EventView::Failed(e)) => {
            lemma_report_pending(h, m, e.text);
        },
        (Stage::Running(s), _) => {
            lemma_session_pending(s, ev);
        },
        _ => {},
    }
}

// ---- Order of frames ----

/// What has been sent at each stage.
spec fn ordered(c: Conversation) -> bool {
    match c.handler.stage {
        Stage::ReadingRequest => c.sent.len() == 0,
        Stage::Refusing => c.sent.len() == 0,
        Stage::Launching(_) => c.sent.len() == 0,
        Stage::Announcing(_) => c.sent.len() == 0,
        Stage::Running(_) => open_ended(c.sent),
        Stage::Reporting(_) => c.sent.len() == 0,
        Stage::Closed => in_order(c.sent),
    }
}

proof fn lemma_ordered(c: Conversation, ev: EventView)
    requires
        linked(c),
        ordered(c),
        session::handler_expects(c.handler.stage, ev),
    ensures
        ordered(advance(c, ev)),
{
}

// ---- Output ----

/// Whether nothing that was read is lost: it was sent or is being sent.
pub open spec fn nothing_lost(c: Conversation, t: u8, read: Seq<u8>) -> bool {
    payloads(c.sent, t) + in_flight(c.actions.last(), t) == read
}

/// Whether what the host got as `t` is the front of what was `read`, and all of it as long as the
/// connection did not fail.
spec fn faithful(c: Conversation, t: u8, read: Seq<u8>) -> bool {
    &&& payloads(c.sent, t).is_prefix_of(read)
    &&& !(c.handler.stage is Reporting) && !(c.handler.stage is Closed) ==> nothing_lost(c, t, read)
    &&& c.sent.len() > 0 && type_of(c.sent.last()) == EXIT_STATUS ==> payloads(c.sent, t) == read
}

proof fn lemma_faithful(c: Conversation, ev: EventView)
    requires
        linked(c),
        ordered(c),
        faithful(c, STDOUT_DATA, c.stdout),
        faithful(c, STDERR_DATA, c.stderr),
        session::handler_expects(c.handler.stage, ev),
    ensures
        faithful(advance(c, ev), STDOUT_DATA, advance(c, ev).stdout),
        faithful(advance(c, ev), STDERR_DATA, advance(c, ev).stderr),
{
    let c2 = advance(c, ev);
    assert forall|t: u8, payload: Seq<u8>| #![trigger wire::frame(t, payload)]
        type_of(wire::frame(t, payload)) == t && payload_of(wire::frame(t, payload)) == payload by {
        lemma_frame_parts(t, payload);
    }
    assert(c.sent.push(c2.sent.last()).drop_last() =~= c.sent);
}


// ---- Requests ----

/// The request that opened the connection.
pub open spec fn requested(c: Conversation) -> Option<ExecRequestView> {
    if c.received.len() > 0 && c.received[0].0 == EXEC_REQUEST {
        proto::decoding::<ExecRequest>(c.received[0].1)
    } else {
        None
    }
}

/// How the process of the connection is attached.
pub open spec fn mode(c: Conversation) -> Mode {
    match requested(c) {
        Some(req) => session::mode_of(req.tty),
        None => Mode::Pipes,
    }
}

/// The processes that were to be started.
pub open spec fn launches(actions: Seq<ActionView>) -> Seq<ExecRequestView>
    decreases actions.len(),
{
    if actions.len() == 0 {
        seq![]
    } else {
        match actions.last() {
            ActionView::Launch { req, .. } => launches(actions.drop_last()).push(req),
            _ => launches(actions.drop_last()),
        }
    }
}

/// What was asked for and what was started at each stage.
spec fn single(c: Conversation) -> bool {
    let started = launches(c.actions);
    let asked = requested(c) matches Some(req) && started == seq![req] && c.handler.engine;
    match c.handler.stage {
        Stage::ReadingRequest => c.received.len() == 0 && c.actions.len() == 1 && started.len() == 0,
        Stage::Refusing => c.received.len() == 1 && started.len() == 0,
        Stage::Launching(m) => asked && m == mode(c) && c.received.len() == 1,
        Stage::Announcing(m) => asked && m == mode(c) && c.received.len() == 1,
        Stage::Running(s) => asked && s.mode == mode(c) && c.received.len() >= 1,
        Stage::Reporting(m) => asked && m == mode(c) && c.received.len() == 1,
        Stage::Closed => asked || started.len() == 0 && c.received.len() <= 1,
    }
}

proof fn lemma_session_mode(s: Session, ev: EventView)
    ensures
        session::session_next(s, ev).0.mode == s.mode,
{
}

proof fn lemma_single(c: Conversation, ev: EventView)
    requires
        linked(c),
        single(c),
        session::handler_expects(c.handler.stage, ev),
    ensures
        single(advance(c, ev)),
{
    let c2 = advance(c, ev);
    let a = c2.actions.last();
    assert(c2.actions.drop_last() =~= c.actions);
    match c.handler.stage {
        Stage::Running(s) => {
            lemma_session_mode(s, ev);
        },
        _ => {},
    }
    if c.received.len() > 0 {
        assert(c2.received[0] == c.received[0]);
    }
    if a is Launch {
        assert(launches(c.actions) =~= seq![]);
        assert(launches(c2.actions) =~= seq![requested(c2)->0]);
    }
}

// ---- Input ----

/// Whether the host said that the input ends.
pub open spec fn input_ended(frames: Seq<(u8, Seq<u8>)>) -> bool {
    exists|i: int| 0 <= i < frames.len() && (#[trigger] frames[i]).0 == STDIN_EOF
}

/// The bytes that the host sent as input for the process: on pipes, what came before it said that
/// the input ends.
pub open spec fn host_input(mode: Mode, frames: Seq<(u8, Seq<u8>)>) -> Seq<u8>
    decreases frames.len(),
{
    if frames.len() == 0 {
        seq![]
    } else {
        let before = host_input(mode, frames.drop_last());
        if frames.last().0 == STDIN_DATA && (mode == Mode::Terminal || !input_ended(
            frames.drop_last(),
        )) {
            before + frames.last().1
        } else {
            before
        }
    }
}

/// The bytes that the process was to be given.
pub open spec fn written(actions: Seq<ActionView>) -> Seq<u8>
    decreases actions.len(),
{
    if actions.len() == 0 {
        seq![]
    } else {
        match actions.last() {
            ActionView::WriteStdin(data) => written(actions.drop_last()) + data,
            _ => written(actions.drop_last()),
        }
    }
}

/// The frames behind the request.
pub open spec fn requests(c: Conversation) -> Seq<(u8, Seq<u8>)> {
    if c.received.len() == 0 {
        seq![]
    } else {
        c.received.skip(1)
    }
}

/// What the frame behind `before` asks to be done with the process, if anything.
pub open spec fn asked_by(
    mode: Mode,
    before: Seq<(u8, Seq<u8>)>,
    frame: (u8, Seq<u8>),
) -> Option<ActionView> {
    let (type_byte, payload) = frame;
    if type_byte == STDIN_DATA && (mode == Mode::Terminal || !input_ended(before)) {
        Some(ActionView::WriteStdin(payload))
    } else if type_byte == STDIN_EOF && mode == Mode::Pipes && !input_ended(before) {
        Some(ActionView::CloseStdin)
    } else if type_byte == WINDOW_RESIZE && mode == Mode::Terminal {
        match proto::decoding::<WindowResize>(payload) {
            Some(size) => Some(
                ActionView::Resize {
                    rows: (size.rows % 65536) as u16,
                    cols: (size.cols % 65536) as u16,
                },
            ),
            None => None,
        }
    } else if type_byte == SIGNAL {
        match proto::decoding::<Signal>(payload) {
            Some(m) => if 1 <= m.signal <= exec::MAX_SIGNAL {
                Some(ActionView::Kill(m.signal))
            } else {
                None
            },
            None => None,
        }
    } else {
        None
    }
}

/// What frames ask to be done with the process, in order.
pub open spec fn asked_for(mode: Mode, frames: Seq<(u8, Seq<u8>)>) -> Seq<ActionView>
    decreases frames.len(),
{
    if frames.len() == 0 {
        seq![]
    } else {
        let before = asked_for(mode, frames.drop_last());
        match asked_by(mode, frames.drop_last(), frames.last()) {
            Some(a) => before.push(a),
            None => before,
        }
    }
}

/// Whether an action does something with the process that a host can ask for.
pub open spec fn is_service(a: ActionView) -> bool {
    a is WriteStdin || a is CloseStdin || a is Kill || a is Resize
}

/// What was to be done with the process, in order.
pub open spec fn services(actions: Seq<ActionView>) -> Seq<ActionView>
    decreases actions.len(),
{
    if actions.len() == 0 {
        seq![]
    } else if is_service(actions.last()) {
        services(actions.drop_last()).push(actions.last())
    } else {
        services(actions.drop_last())
    }
}

/// How often the input of the process was to be closed.
pub open spec fn closings(actions: Seq<ActionView>) -> nat
    decreases actions.len(),
{
    if actions.len() == 0 {
        0
    } else {
        closings(actions.drop_last()) + if actions.last() is CloseStdin {
            1nat
        } else {
            0nat
        }
    }
}

/// What is owed to the process: what the host asked for, and in the end that it hears of it where
/// the host is gone.
pub open spec fn owed(c: Conversation) -> Seq<ActionView> {
    let asked = asked_for(mode(c), requests(c));
    if c.host_gone {
        asked.push(ActionView::Kill(SIGHUP))
    } else {
        asked
    }
}

/// Whether what the host asked for is done with the process, and nothing else.
spec fn attentive(c: Conversation) -> bool {
    &&& services(c.actions) == owed(c)
    &&& closings(c.actions) == if mode(c) == Mode::Pipes && input_ended(requests(c)) {
        1nat
    } else {
        0nat
    }
    &&& c.host_gone ==> match c.handler.stage {
        Stage::Running(s) => s.phase is HangingUp || s.phase is WaitingAlone,
        Stage::Closed => true,
        _ => false,
    }
}

/// How the frames behind the request grow.
proof fn lemma_requests_grow(c: Conversation, ev: EventView)
    requires
        single(c),
        session::handler_expects(c.handler.stage, ev),
    ensures
        c.received.len() > 0 ==> mode(advance(c, ev)) == mode(c),
        match (c.handler.stage, ev) {
            (Stage::Running(_), EventView::Frame { type_byte, payload }) => {
                let grown = requests(advance(c, ev));
                &&& grown.len() > 0
                &&& grown.last() == (type_byte, payload)
                &&& grown.drop_last() == requests(c)
                &&& input_ended(grown) == (input_ended(requests(c)) || type_byte == STDIN_EOF)
            },
            _ => requests(advance(c, ev)) == requests(c),
        },
{
    let c2 = advance(c, ev);
    if c.received.len() > 0 {
        assert(c2.received[0] == c.received[0]);
    }
    if ev is Frame {
        if c.received.len() == 0 {
            assert(requests(c2) =~= seq![]);
        } else {
            let frame = (ev->type_byte, ev->payload);
            assert(requests(c2) =~= requests(c).push(frame));
            assert(requests(c2).drop_last() =~= requests(c));
            if input_ended(requests(c)) {
                let k = choose|k: int|
                    0 <= k < requests(c).len() && (#[trigger] requests(c)[k]).0 == STDIN_EOF;
                assert(requests(c2)[k] == requests(c)[k]);
            }
            if input_ended(requests(c2)) {
                let k = choose|k: int|
                    0 <= k < requests(c2).len() && (#[trigger] requests(c2)[k]).0 == STDIN_EOF;
                if k < requests(c).len() {
                    assert(requests(c)[k] == requests(c2)[k]);
                }
            }
            assert(requests(c2)[requests(c).len() as int] == frame);
        }
    }
}

proof fn lemma_attentive(c: Conversation, ev: EventView)
    requires
        linked(c),
        single(c),
        forwarded(c),
        attentive(c),
        session::handler_expects(c.handler.stage, ev),
    ensures
        attentive(advance(c, ev)),
{
    let c2 = advance(c, ev);
    assert(c2.actions.drop_last() =~= c.actions);
    lemma_requests_grow(c, ev);
}

/// Whether the process is given what the host sent, and its input is open until the host ends it.
spec fn forwarded(c: Conversation) -> bool {
    &&& written(c.actions) == host_input(mode(c), requests(c))
    &&& c.handler.stage matches Stage::Running(s) ==> s.mode == Mode::Pipes ==> s.stdin_open
        == !input_ended(requests(c))
}

proof fn lemma_forwarded(c: Conversation, ev: EventView)
    requires
        linked(c),
        single(c),
        forwarded(c),
        session::handler_expects(c.handler.stage, ev),
    ensures
        forwarded(advance(c, ev)),
{
    let c2 = advance(c, ev);
    assert(c2.actions.drop_last() =~= c.actions);
    lemma_requests_grow(c, ev);
}

// ---- End of the process ----

/// Whether the output of the process had ended, by a poll, when the process did.
pub open spec fn output_ended(c: Conversation) -> bool {
    c.polled_before.0.hung_up && !c.polled_before.0.readable
}

/// Whether there is nothing left of the errors of a process on pipes, by a poll after it ended, or
/// what is left cannot be had.
pub open spec fn errors_drained(c: Conversation) -> bool {
    c.polled_after && !c.polled.1 || c.drain_failed
}

/// Whether the process ended with `status`.
pub open spec fn ended_with(c: Conversation, status: ExitStatus) -> bool {
    c.ended matches Some(outcome) && exec::wait_result(outcome) == Ok::<ExitStatus, FailureView>(
        status,
    )
}

/// Whether a session remembers what the last poll said, waits for the process only when its output
/// has ended, and on pipes tells how the process ended only when its errors are drained.
spec fn session_mindful(c: Conversation, s: Session) -> bool {
    match s.phase {
        Phase::ReadingHost { out, err } => (out, err) == c.polled,
        Phase::Serving { out, err } => (out, err) == c.polled,
        Phase::ReadingStdout { out, err } => (out, err) == c.polled && out.readable,
        Phase::SendingStdout { out, err } => (out, err) == c.polled && out.readable,
        Phase::Waiting => c.polled.0.hung_up && !c.polled.0.readable,
        Phase::ReadingStderr(Some(status)) => output_ended(c) && ended_with(c, status),
        Phase::SendingStderr(Some(status)) => output_ended(c) && ended_with(c, status),
        Phase::Draining(status) => output_ended(c) && ended_with(c, status),
        Phase::Reporting(status) => output_ended(c) && ended_with(c, status) && (s.mode
            == Mode::Pipes ==> errors_drained(c)),
        _ => true,
    }
}

/// Whether the exit status that was sent is the one that the process ended with, its output had
/// ended, its errors on pipes were drained, and the connection is closed.
pub open spec fn honest(c: Conversation) -> bool {
    c.sent.len() > 0 && type_of(c.sent.last()) == EXIT_STATUS ==> {
        &&& output_ended(c)
        &&& mode(c) == Mode::Pipes ==> errors_drained(c)
        &&& c.actions.last() == ActionView::Close(Ok(()))
        &&& exists|status: ExitStatus|
            {
                &&& #[trigger] ended_with(c, status)
                &&& c.sent.last() == wire::frame(EXIT_STATUS, ExitStatus::encoding(status))
            }
    }
}

/// Whether the exit status is sent when it should be.
spec fn mindful(c: Conversation) -> bool {
    &&& c.handler.stage matches Stage::Running(s) ==> session_mindful(c, s)
    &&& honest(c)
}

proof fn lemma_mindful(c: Conversation, ev: EventView)
    requires
        linked(c),
        ordered(c),
        single(c),
        mindful(c),
        session::handler_expects(c.handler.stage, ev),
    ensures
        mindful(advance(c, ev)),
{
    let c2 = advance(c, ev);
    if c.received.len() > 0 {
        assert(c2.received[0] == c.received[0]);
        assert(mode(c2) == mode(c));
    }
    match c.handler.stage {
        Stage::Running(s) => {
            lemma_session_mode(s, ev);
            if let Phase::Reporting(status) = s.phase {
                assert(ended_with(c2, status));
            }
        },
        _ => {},
    }
}

// ---- What is never done ----

/// Whether an action has its place on a connection of mode `m`.
pub open spec fn fitting(m: Mode, a: ActionView) -> bool {
    &&& m == Mode::Terminal ==> !(a is ReadStderr) && !(a is CloseStdin) && !sends(a, STDERR_DATA)
    &&& m == Mode::Pipes ==> !(a is Resize)
    &&& a matches ActionView::Kill(signal) ==> 1 <= signal <= exec::MAX_SIGNAL
    &&& !(a is Finish)
}

/// Whether all that was done and sent has its place.
spec fn proper(c: Conversation) -> bool {
    &&& forall|k: int| 0 <= k < c.actions.len() ==> fitting(mode(c), #[trigger] c.actions[k])
    &&& mode(c) == Mode::Terminal ==> forall|k: int|
        0 <= k < c.sent.len() ==> type_of(#[trigger] c.sent[k]) != STDERR_DATA
    &&& c.handler.stage matches Stage::Running(s) ==> s.mode == Mode::Terminal ==> !(
    s.phase is ReadingStderr) && !(s.phase is SendingStderr) && !(s.phase is Draining)
}

proof fn lemma_proper(c: Conversation, ev: EventView)
    requires
        linked(c),
        ordered(c),
        single(c),
        proper(c),
        session::handler_expects(c.handler.stage, ev),
    ensures
        proper(advance(c, ev)),
{
    let c2 = advance(c, ev);
    lemma_single(c, ev);
    lemma_pending(c.handler, ev);
    if c.received.len() > 0 {
        assert(c2.received[0] == c.received[0]);
        assert(mode(c2) == mode(c));
    } else {
        assert(c.handler.stage is ReadingRequest);
        assert(fitting(mode(c2), c.actions[0]));
    }
    assert(fitting(mode(c2), c2.actions.last()));
    assert forall|k: int| 0 <= k < c2.actions.len() implies fitting(
        mode(c2),
        #[trigger] c2.actions[k],
    ) by {
        if k < c.actions.len() {
            assert(c2.actions[k] == c.actions[k]);
        }
    }
    assert forall|k: int| 0 <= k < c2.sent.len() && mode(c2) == Mode::Terminal implies type_of(
        #[trigger] c2.sent[k],
    ) != STDERR_DATA by {
        if k < c.sent.len() {
            assert(c2.sent[k] == c.sent[k]);
        }
    }
}

// ---- Start of the process ----

/// The frame that tells the host the number of the process.
pub open spec fn started_frame(pid: u32) -> Seq<u8> {
    wire::frame(EXEC_STARTED, ExecStarted::encoding(ExecStarted { pid }))
}

/// Whether the host is told first that the process started, if it did, and otherwise only that it
/// did not.
pub open spec fn truthful(c: Conversation) -> bool {
    match c.started {
        Some(pid) => {
            &&& c.sent.len() > 0 ==> c.sent[0] == started_frame(pid)
            &&& forall|k: int| 0 <= k < c.sent.len() ==> type_of(#[trigger] c.sent[k]) != EXEC_ERROR
        },
        None => c.sent.len() == 0 || c.sent.len() == 1 && type_of(c.sent[0]) == EXEC_ERROR,
    }
}

/// Whether the stage shows that the process started, and the host is told the truth about that.
spec fn candid(c: Conversation) -> bool {
    &&& truthful(c)
    &&& match c.handler.stage {
        Stage::Announcing(_) => c.started matches Some(pid) && c.actions.last() == ActionView::Send(
            started_frame(pid),
        ),
        Stage::Running(_) => c.started is Some,
        Stage::Closed => true,
        _ => c.started is None,
    }
}

proof fn lemma_candid(c: Conversation, ev: EventView)
    requires
        linked(c),
        ordered(c),
        candid(c),
        session::handler_expects(c.handler.stage, ev),
    ensures
        candid(advance(c, ev)),
{
    let c2 = advance(c, ev);
    if let Some(pid) = c.started {
        lemma_frame_parts(EXEC_STARTED, ExecStarted::encoding(ExecStarted { pid }));
    }
    if let Stage::Running(s) = c.handler.stage {
        if let Phase::Reporting(status) = s.phase {
            lemma_frame_parts(EXIT_STATUS, ExitStatus::encoding(status));
        }
    }
    assert forall|k: int| 0 <= k < c2.sent.len() && c2.started is Some implies type_of(
        #[trigger] c2.sent[k],
    ) != EXEC_ERROR by {
        if k < c.sent.len() {
            assert(c2.sent[k] == c.sent[k]);
        }
    }
}

// ---- Size of output ----

/// Whether a frame that carries bytes of the process carries some, but no more than are read at
/// once.
pub open spec fn in_bounds(frame: Seq<u8>) -> bool {
    is_output(type_of(frame)) ==> 0 < payload_of(frame).len() <= READ_SIZE
}

/// Whether bytes are a frame, of a size that can be read.
pub open spec fn is_frame(b: Seq<u8>) -> bool {
    b == wire::frame(type_of(b), payload_of(b)) && payload_of(b).len() <= MAX_PAYLOAD
}

/// Whether all that is sent is frames, and all frames are in bounds, the one that is being sent too.
spec fn bounded(c: Conversation) -> bool {
    &&& forall|k: int|
        0 <= k < c.sent.len() ==> in_bounds(#[trigger] c.sent[k]) && is_frame(c.sent[k])
    &&& c.actions.last() matches ActionView::Send(bytes) ==> in_bounds(bytes) && is_frame(bytes)
}

/// What a session sends is a frame in bounds.
proof fn lemma_session_bounded(s: Session, ev: EventView)
    requires
        session::session_expects(s.phase, ev),
    ensures
        session::session_next(s, ev).1 matches ActionView::Send(bytes) ==> in_bounds(bytes)
            && is_frame(bytes),
{
    match (s.phase, ev) {
        (Phase::ReadingStdout { .. }, EventView::Output(data)) => {
            lemma_frame_parts(STDOUT_DATA, data);
        },
        (Phase::ReadingStderr(_), EventView::Output(data)) => {
            lemma_frame_parts(STDERR_DATA, data);
        },
        (Phase::ReadingStderr(Some(status)), _) => {
            lemma_exit_framed(status);
        },
        (Phase::Waiting, EventView::Ended(outcome)) => {
            if let Ok(status) = exec::wait_result(outcome) {
                lemma_exit_framed(status);
            }
        },
        (Phase::Draining(status), _) => {
            lemma_exit_framed(status);
        },
        _ => {},
    }
}

proof fn lemma_exit_framed(status: ExitStatus)
    ensures
        ({
            let b = wire::frame(EXIT_STATUS, ExitStatus::encoding(status));
            in_bounds(b) && is_frame(b)
        }),
{
    lemma_frame_parts(EXIT_STATUS, ExitStatus::encoding(status));
    session::lemma_exit_status_fits(status);
}

/// An error that the host is told is a frame.
proof fn lemma_error_framed(text: Seq<char>)
    requires
        session::error_message(text).len() <= MAX_PAYLOAD,
    ensures
        ({
            let b = wire::frame(EXEC_ERROR, session::error_message(text));
            in_bounds(b) && is_frame(b)
        }),
{
    lemma_frame_parts(EXEC_ERROR, session::error_message(text));
}

/// What a connection sends is a frame in bounds.
proof fn lemma_handler_bounded(h: Handler, ev: EventView)
    requires
        session::handler_expects(h.stage, ev),
    ensures
        session::handler_next(h, ev).1 matches ActionView::Send(bytes) ==> in_bounds(bytes)
            && is_frame(bytes),
{
    match (h.stage, ev) {
        (Stage::ReadingRequest, EventView::Frame { type_byte, payload }) => {
            reveal_strlit("expected EXEC_REQUEST (0x01), got 0x");
            reveal_strlit("exec engine requires Linux");
            session::lemma_error_message_fits(session::not_a_request(type_byte));
            session::lemma_error_message_fits(session::no_engine());
            lemma_error_framed(session::not_a_request(type_byte));
            lemma_error_framed(session::no_engine());
        },
        (Stage::Launching(_), EventView::Launched(pid)) => {
            session::lemma_started_fits(pid);
            lemma_frame_parts(EXEC_STARTED, ExecStarted::encoding(ExecStarted { pid }));
        },
        (Stage::Launching(m), EventView::Failed(e)) => {
            let text = session::process_failed(m, e.text);
            if session::error_message(text).len() <= MAX_PAYLOAD {
                lemma_error_framed(text);
            }
        },
        (Stage::Running(s), _) => {
            lemma_session_bounded(s, ev);
        },
        _ => {},
    }
}

proof fn lemma_bounded(c: Conversation, ev: EventView)
    requires
        linked(c),
        bounded(c),
        session::handler_expects(c.handler.stage, ev),
    ensures
        bounded(advance(c, ev)),
{
    let c2 = advance(c, ev);
    lemma_handler_bounded(c.handler, ev);
    assert forall|k: int| 0 <= k < c2.sent.len() implies in_bounds(#[trigger] c2.sent[k])
        && is_frame(c2.sent[k]) by {
        if k < c.sent.len() {
            assert(c2.sent[k] == c.sent[k]);
        }
    }
}

// ---- What polls tell of ----

/// Whether what polls tell of is read before the next poll, at each phase.
spec fn prompt(c: Conversation) -> bool {
    c.handler.stage matches Stage::Running(s) ==> {
        &&& match s.phase {
            Phase::ReadingHost { out, err } => heeded(c, s, out, err),
            Phase::Serving { out, err } => heeded(c, s, out, err),
            Phase::ReadingStdout { out, err } => !c.due_stdout && heeded(c, s, out, err),
            Phase::SendingStdout { out, err } => !c.due_stdout && heeded(c, s, out, err),
            Phase::HangingUp => c.host_gone,
            Phase::WaitingAlone => c.host_gone,
            _ => !c.due_stdout && !c.due_stderr,
        }
        &&& session_open(c, s)
    }
}

/// Whether what is due is what the session remembers of the last poll.
spec fn heeded(c: Conversation, s: Session, out: Ready, err: bool) -> bool {
    &&& c.due_stdout ==> out.readable
    &&& c.due_stderr ==> err && s.mode == Mode::Pipes && !(out.hung_up && !out.readable)
}

/// Whether the process has not ended where the session does not know of it.
spec fn session_open(c: Conversation, s: Session) -> bool {
    match s.phase {
        Phase::ReadingStderr(Some(_)) => c.ended is Some,
        Phase::SendingStderr(Some(_)) => c.ended is Some,
        Phase::Draining(_) => c.ended is Some,
        Phase::Reporting(_) => c.ended is Some,
        _ => c.ended is None,
    }
}

/// Before the process runs, nothing was polled and nothing has ended.
spec fn unpolled(c: Conversation) -> bool {
    match c.handler.stage {
        Stage::Running(_) => true,
        Stage::Closed => true,
        _ => !c.due_stdout && !c.due_stderr && c.ended is None && !c.host_gone && !c.broken
            && !c.send_failed,
    }
}

proof fn lemma_prompt(c: Conversation, ev: EventView)
    requires
        linked(c),
        single(c),
        prompt(c),
        unpolled(c),
        candid(c),
        session::handler_expects(c.handler.stage, ev),
    ensures
        prompt(advance(c, ev)),
        unpolled(advance(c, ev)),
{
    lemma_requests_grow(c, ev);
    match c.handler.stage {
        Stage::Running(s) => {
            lemma_session_mode(s, ev);
        },
        _ => {},
    }
}

/// Whether the exit of the process is on its way to the host, or with it.
spec fn told_exit(c: Conversation, status: ExitStatus) -> bool {
    match c.handler.stage {
        Stage::Running(s) => match s.phase {
            Phase::ReadingStderr(Some(st)) => st == status,
            Phase::SendingStderr(Some(st)) => st == status,
            Phase::Draining(st) => st == status,
            Phase::Reporting(st) => st == status,
            _ => false,
        },
        Stage::Closed => c.send_failed || c.sent.len() > 0 && c.sent.last() == wire::frame(
            EXIT_STATUS,
            ExitStatus::encoding(status),
        ),
        _ => false,
    }
}

/// The exit status that an outcome of waiting is, if it is one.
pub open spec fn exit_of(outcome: WaitOutcomeView) -> Option<ExitStatus> {
    match outcome {
        WaitOutcomeView::Exited(code) => Some(ExitStatus { code, signal: 0 }),
        WaitOutcomeView::Signaled(signal) => Some(ExitStatus { code: -1i32, signal }),
        _ => None,
    }
}

/// Whether an exit is told to a host that is there.
spec fn forthcoming(c: Conversation) -> bool {
    c.ended is Some && !c.host_gone && exit_of(c.ended->0) is Some ==> told_exit(
        c,
        exit_of(c.ended->0)->0,
    )
}

proof fn lemma_forthcoming(c: Conversation, ev: EventView)
    requires
        linked(c),
        single(c),
        prompt(c),
        unpolled(c),
        forthcoming(c),
        session::handler_expects(c.handler.stage, ev),
    ensures
        forthcoming(advance(c, ev)),
{
}

/// Whether a connection whose process started is closed for a reason: the host got the exit status,
/// or something is broken.
spec fn patient(c: Conversation) -> bool {
    c.started is Some && c.handler.stage is Closed ==> c.broken || (c.sent.len() > 0 && type_of(
        c.sent.last(),
    ) == EXIT_STATUS)
}

proof fn lemma_patient(c: Conversation, ev: EventView)
    requires
        linked(c),
        single(c),
        candid(c),
        prompt(c),
        unpolled(c),
        patient(c),
        broken_alone(c),
        session::handler_expects(c.handler.stage, ev),
    ensures
        patient(advance(c, ev)),
        broken_alone(advance(c, ev)),
{
    lemma_requests_grow(c, ev);
    match c.handler.stage {
        Stage::Running(s) => {
            if let Phase::Reporting(status) = s.phase {
                lemma_frame_parts(EXIT_STATUS, ExitStatus::encoding(status));
            }
        },
        _ => {},
    }
}

/// A host that is gone is something broken.
spec fn broken_alone(c: Conversation) -> bool {
    c.host_gone ==> c.broken
}

/// Whether each process is launched as its request asks for.
spec fn fittingly_launched(c: Conversation) -> bool {
    forall|k: int|
        0 <= k < c.actions.len() ==> launch_fits(requested(c), #[trigger] c.actions[k])
}

/// Whether an action, if it launches a process, launches the one that was requested, on a terminal
/// exactly where the request asks for one.
pub open spec fn launch_fits(requested: Option<ExecRequestView>, a: ActionView) -> bool {
    a matches ActionView::Launch { req, mode } ==> {
        &&& requested == Some(req)
        &&& mode == Mode::Terminal <==> req.tty
        &&& mode == Mode::Pipes <==> !req.tty
    }
}

proof fn lemma_fittingly_launched(c: Conversation, ev: EventView)
    requires
        linked(c),
        single(c),
        fittingly_launched(c),
        session::handler_expects(c.handler.stage, ev),
    ensures
        fittingly_launched(advance(c, ev)),
{
    let c2 = advance(c, ev);
    if c.received.len() > 0 {
        assert(c2.received[0] == c.received[0]);
        assert(requested(c2) == requested(c));
    }
    assert forall|k: int| 0 <= k < c2.actions.len() implies launch_fits(
        requested(c2),
        #[trigger] c2.actions[k],
    ) by {
        if k < c.actions.len() {
            assert(c2.actions[k] == c.actions[k]);
        }
    }
}

// ---- Refusal ----

/// What the host is told where what its first frame asks for is not done.
pub open spec fn refusal(engine: bool, type_byte: u8, payload: Seq<u8>) -> Option<Seq<char>> {
    if type_byte != EXEC_REQUEST {
        Some(session::not_a_request(type_byte))
    } else if !engine && proto::decoding::<ExecRequest>(payload) is Some {
        Some(session::no_engine())
    } else {
        None
    }
}

/// Whether a connection that does not open with a request, or that asks for a process where none
/// can be started, is refused, and one whose request cannot be read gets no answer.
spec fn refused(c: Conversation) -> bool {
    c.received.len() > 0 ==> match refusal(c.handler.engine, c.received[0].0, c.received[0].1) {
        Some(text) => {
            let reply = wire::frame(EXEC_ERROR, session::error_message(text));
            match c.handler.stage {
                Stage::Refusing => c.actions.last() == ActionView::Send(reply) && c.sent.len() == 0,
                Stage::Closed => c.sent.len() == 0 || c.sent == seq![reply],
                _ => false,
            }
        },
        None => requested(c) is None ==> c.handler.stage is Closed && c.sent.len() == 0,
    }
}

proof fn lemma_refused(c: Conversation, ev: EventView)
    requires
        linked(c),
        ordered(c),
        single(c),
        refused(c),
        session::handler_expects(c.handler.stage, ev),
    ensures
        refused(advance(c, ev)),
{
    let c2 = advance(c, ev);
    if c.received.len() > 0 {
        assert(c2.received[0] == c.received[0]);
    }
    if c.handler.stage is Refusing && ev is Done {
        assert(c2.sent =~= seq![c.actions.last()->Send_0]);
    }
}

/// Whether the stage and the last action go together.
spec fn linked(c: Conversation) -> bool {
    c.actions.len() > 0 && pending(c.handler.stage, c.actions.last())
}

/// All that holds of a connection at any time.
spec fn sound(c: Conversation) -> bool {
    &&& linked(c)
    &&& ordered(c)
    &&& faithful(c, STDOUT_DATA, c.stdout)
    &&& faithful(c, STDERR_DATA, c.stderr)
    &&& single(c)
    &&& forwarded(c)
    &&& attentive(c)
    &&& mindful(c)
    &&& proper(c)
    &&& candid(c)
    &&& bounded(c)
    &&& prompt(c)
    &&& unpolled(c)
    &&& forthcoming(c)
    &&& patient(c)
    &&& broken_alone(c)
    &&& fittingly_launched(c)
    &&& refused(c)
}

proof fn lemma_sound(engine: bool, inputs: Seq<EventView>)
    requires
        answered(engine, inputs),
    ensures
        sound(conversation(engine, inputs)),
    decreases inputs.len(),
{
    if inputs.len() > 0 {
        let c = conversation(engine, inputs.drop_last());
        lemma_sound(engine, inputs.drop_last());
        lemma_pending(c.handler, inputs.last());
        lemma_ordered(c, inputs.last());
        lemma_faithful(c, inputs.last());
        lemma_single(c, inputs.last());
        lemma_forwarded(c, inputs.last());
        lemma_attentive(c, inputs.last());
        lemma_mindful(c, inputs.last());
        lemma_proper(c, inputs.last());
        lemma_candid(c, inputs.last());
        lemma_bounded(c, inputs.last());
        lemma_prompt(c, inputs.last());
        lemma_forthcoming(c, inputs.last());
        lemma_patient(c, inputs.last());
        lemma_fittingly_launched(c, inputs.last());
        lemma_refused(c, inputs.last());
    } else {
        let c = accepted(engine);
        reveal_with_fuel(launches, 2);
        reveal_with_fuel(written, 2);
        reveal_with_fuel(services, 2);
        reveal_with_fuel(closings, 2);
        assert(written(c.actions) =~= host_input(mode(c), requests(c)));
    }
}

// ---- Laws ----

/// The frames of a connection come in the order that the protocol has.
pub proof fn lemma_frames_in_order(engine: bool, inputs: Seq<EventView>)
    requires
        answered(engine, inputs),
    ensures
        in_order(conversation(engine, inputs).sent),
{
    lemma_sound(engine, inputs);
}

/// What the host gets as output and as errors is what was read of them from the process, byte for
/// byte and in order. Nothing that was read is missing where the host got the exit status.
pub proof fn lemma_output_delivered(engine: bool, inputs: Seq<EventView>)
    requires
        answered(engine, inputs),
    ensures
        ({
            let c = conversation(engine, inputs);
            &&& payloads(c.sent, STDOUT_DATA).is_prefix_of(c.stdout)
            &&& payloads(c.sent, STDERR_DATA).is_prefix_of(c.stderr)
            &&& c.handler.stage is Running ==> nothing_lost(c, STDOUT_DATA, c.stdout)
                && nothing_lost(c, STDERR_DATA, c.stderr)
            &&& c.sent.len() > 0 && type_of(c.sent.last()) == EXIT_STATUS ==> payloads(
                c.sent,
                STDOUT_DATA,
            ) == c.stdout && payloads(c.sent, STDERR_DATA) == c.stderr
        }),
{
    lemma_sound(engine, inputs);
}

/// The process is given as input what the host sent as such, byte for byte and in order; on pipes,
/// until the host ends the input.
pub proof fn lemma_input_forwarded(engine: bool, inputs: Seq<EventView>)
    requires
        answered(engine, inputs),
    ensures
        ({
            let c = conversation(engine, inputs);
            written(c.actions) == host_input(mode(c), requests(c))
        }),
{
    lemma_sound(engine, inputs);
}

/// What is done with the process is, in order, what the frames of the host ask for, and nothing
/// else but that it is told in the end where the host is gone. Its input is closed once where it is
/// on pipes and the host ends the input, else never.
pub proof fn lemma_requests_served(engine: bool, inputs: Seq<EventView>)
    requires
        answered(engine, inputs),
    ensures
        ({
            let c = conversation(engine, inputs);
            &&& services(c.actions) == owed(c)
            &&& closings(c.actions) == if mode(c) == Mode::Pipes && input_ended(requests(c)) {
                1nat
            } else {
                0nat
            }
        }),
{
    lemma_sound(engine, inputs);
}

/// A connection starts one process at most: the one that its first frame asks for.
pub proof fn lemma_one_process(engine: bool, inputs: Seq<EventView>)
    requires
        answered(engine, inputs),
    ensures
        ({
            let c = conversation(engine, inputs);
            launches(c.actions).len() > 0 ==> {
                &&& engine
                &&& requested(c) matches Some(req)
                &&& launches(c.actions) == seq![req]
            }
        }),
{
    lemma_sound(engine, inputs);
    lemma_engine(engine, inputs);
}

/// The errors of a process on a terminal come with its output, and its input is not closed; a
/// process on pipes has no size. Only numbers that signals have are sent as signals.
pub proof fn lemma_actions_fit(engine: bool, inputs: Seq<EventView>)
    requires
        answered(engine, inputs),
    ensures
        ({
            let c = conversation(engine, inputs);
            &&& forall|k: int|
                0 <= k < c.actions.len() ==> fitting(mode(c), #[trigger] c.actions[k])
            &&& mode(c) == Mode::Terminal ==> forall|k: int|
                0 <= k < c.sent.len() ==> type_of(#[trigger] c.sent[k]) != STDERR_DATA
        }),
{
    lemma_sound(engine, inputs);
}

/// The host gets the exit status that the process ended with, after a poll has shown that its
/// output ended and, on pipes, a poll after its end has shown that nothing is left of its errors,
/// or such a poll or reading them has failed; the connection is then over.
pub proof fn lemma_exit_status(engine: bool, inputs: Seq<EventView>)
    requires
        answered(engine, inputs),
    ensures
        honest(conversation(engine, inputs)),
{
    lemma_sound(engine, inputs);
}

/// A connection that does not open with a request, or that asks for a process where none can be
/// started, gets one error as its answer and no process. One whose request cannot be read gets
/// neither.
pub proof fn lemma_refusal(engine: bool, inputs: Seq<EventView>)
    requires
        answered(engine, inputs),
        conversation(engine, inputs).received.len() > 0,
        requested(conversation(engine, inputs)) is None || !engine,
    ensures
        ({
            let c = conversation(engine, inputs);
            let (type_byte, payload) = c.received[0];
            &&& launches(c.actions).len() == 0
            &&& match refusal(engine, type_byte, payload) {
                Some(text) => {
                    let reply = wire::frame(EXEC_ERROR, session::error_message(text));
                    &&& c.sent.len() == 0 || c.sent == seq![reply]
                    &&& !(c.handler.stage is Closed) ==> c.actions.last() == ActionView::Send(reply)
                },
                None => c.handler.stage is Closed && c.sent.len() == 0,
            }
        }),
{
    lemma_sound(engine, inputs);
    lemma_engine(engine, inputs);
}

/// Whether processes can be started does not change.
proof fn lemma_engine(engine: bool, inputs: Seq<EventView>)
    requires
        answered(engine, inputs),
    ensures
        conversation(engine, inputs).handler.engine == engine,
    decreases inputs.len(),
{
    if inputs.len() > 0 {
        let c = conversation(engine, inputs.drop_last());
        lemma_engine(engine, inputs.drop_last());
        lemma_pending(c.handler, inputs.last());
    }
}

/// What a poll tells of is not passed over: when the session polls again, or waits for the process
/// of a host that is there, it has read the output that the last poll told of, and the errors on
/// pipes, if the output had not ended.
pub proof fn lemma_nothing_passed_over(engine: bool, inputs: Seq<EventView>)
    requires
        answered(engine, inputs),
    ensures
        ({
            let c = conversation(engine, inputs);
            &&& c.actions.last() is Poll ==> !c.due_stdout && !c.due_stderr
            &&& c.actions.last() is Wait && !c.host_gone ==> !c.due_stdout && !c.due_stderr
        }),
{
    lemma_sound(engine, inputs);
}

/// When waiting brings how the process ended, the last frame that a host gets that is there is that
/// exit status, on a terminal as on pipes, unless sending fails: until then the connection is not
/// closed.
pub proof fn lemma_exit_told(engine: bool, inputs: Seq<EventView>, status: ExitStatus)
    requires
        answered(engine, inputs),
        conversation(engine, inputs).ended is Some,
        exit_of(conversation(engine, inputs).ended->0) == Some(status),
        !conversation(engine, inputs).host_gone,
        !conversation(engine, inputs).send_failed,
    ensures
        ({
            let c = conversation(engine, inputs);
            c.handler.stage is Closed ==> c.sent.len() > 0 && c.sent.last() == wire::frame(
                EXIT_STATUS,
                ExitStatus::encoding(status),
            )
        }),
{
    lemma_sound(engine, inputs);
}

/// A connection whose process started goes on until the host got the exit status, unless an action
/// fails, the host asks for what cannot be done, or waiting brings no exit.
pub proof fn lemma_not_closed_early(engine: bool, inputs: Seq<EventView>)
    requires
        answered(engine, inputs),
        conversation(engine, inputs).started is Some,
        !conversation(engine, inputs).broken,
    ensures
        ({
            let c = conversation(engine, inputs);
            c.handler.stage is Closed ==> c.sent.len() > 0 && type_of(c.sent.last()) == EXIT_STATUS
        }),
{
    lemma_sound(engine, inputs);
}

/// A process is launched as it was requested: on a terminal exactly where its request asks for one,
/// else on pipes.
pub proof fn lemma_launch_mode(engine: bool, inputs: Seq<EventView>, k: int)
    requires
        answered(engine, inputs),
        0 <= k < conversation(engine, inputs).actions.len(),
    ensures
        conversation(engine, inputs).actions[k] matches ActionView::Launch { req, mode } ==> {
            &&& requested(conversation(engine, inputs)) == Some(req)
            &&& mode == Mode::Terminal <==> req.tty
            &&& mode == Mode::Pipes <==> !req.tty
        },
{
    lemma_sound(engine, inputs);
    assert(launch_fits(
        requested(conversation(engine, inputs)),
        conversation(engine, inputs).actions[k],
    ));
}

/// All that a connection sends is frames, which can be read back one by one.
pub proof fn lemma_sent_frames(engine: bool, inputs: Seq<EventView>, k: int)
    requires
        answered(engine, inputs),
        0 <= k < conversation(engine, inputs).sent.len(),
    ensures
        ({
            let b = conversation(engine, inputs).sent[k];
            &&& b == wire::frame(type_of(b), payload_of(b))
            &&& payload_of(b).len() <= MAX_PAYLOAD
            &&& wire::frame_at(b) == (
                Ok::<(u8, Seq<u8>), FailureView>((type_of(b), payload_of(b))),
                Seq::<u8>::empty(),
            )
        }),
{
    lemma_sound(engine, inputs);
    let b = conversation(engine, inputs).sent[k];
    assert(is_frame(b));
    wire::lemma_frame_round_trip(type_of(b), payload_of(b), Seq::empty());
    assert(b + Seq::<u8>::empty() =~= b);
}

/// The first frame tells the host the number of the process, if it was started. An error is all
/// that the host gets where no process was started, and it never comes where one was.
pub proof fn lemma_start_told(engine: bool, inputs: Seq<EventView>)
    requires
        answered(engine, inputs),
    ensures
        ({
            let c = conversation(engine, inputs);
            &&& truthful(c)
            &&& forall|k: int|
                0 <= k < c.sent.len() && type_of(#[trigger] c.sent[k]) == EXEC_ERROR ==> c.sent.len()
                    == 1 && c.started is None
        }),
{
    lemma_sound(engine, inputs);
}

/// A frame with bytes of the process carries some of them, but no more than are read at once.
pub proof fn lemma_output_in_bounds(engine: bool, inputs: Seq<EventView>)
    requires
        answered(engine, inputs),
    ensures
        ({
            let c = conversation(engine, inputs);
            forall|k: int| 0 <= k < c.sent.len() ==> in_bounds(#[trigger] c.sent[k])
        }),
{
    lemma_sound(engine, inputs);
}

/// When the host is gone, the process is told so, whether that succeeds or not, and waited for, and
/// the session ends as the process did. Nothing is sent.
pub proof fn lemma_host_gone(
    s: Session,
    e: FailureView,
    told: EventView,
    outcome: WaitOutcomeView,
)
    requires
        s.phase is ReadingHost,
        e.kind == ErrorKind::UnexpectedEof,
        told is Done || told is Failed,
    ensures
        ({
            let (s1, a1) = session::session_next(s, EventView::Failed(e));
            let (s2, a2) = session::session_next(s1, told);
            let (s3, a3) = session::session_next(s2, EventView::Ended(outcome));
            &&& a1 == ActionView::Kill(SIGHUP)
            &&& a2 is Wait
            &&& a3 == ActionView::Finish(exec::wait_result(outcome))
        }),
{
}

} // verus!
