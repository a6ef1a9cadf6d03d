//! Launching a child: its command line, its environment, its descriptors; signalling it and
//! taking its exit status.

use crate::env;
use crate::env::Env;
use crate::failure::{ErrorKind, Failure, FailureView};
use crate::proto::{ExecRequest, ExitStatus};
use crate::text;
use crate::text::{push_decimal, push_signed_decimal};
use vstd::prelude::*;
use vstd::utf8::*;

verus! {

/// The exit code of a child that could not change to its directory or run its program.
pub const NOT_RUN: i32 = 127;

/// The signal that tells a child its host is gone.
pub const SIGHUP: i32 = 1;

/// The largest signal number that is forwarded.
pub const MAX_SIGNAL: i32 = 31;

/// The height of a terminal whose request names none.
pub const DEFAULT_ROWS: u16 = 24;

/// The width of a terminal whose request names none.
pub const DEFAULT_COLS: u16 = 80;

// ---- Environment ----

/// The variables that every child starts with.
pub open spec fn default_env() -> Map<Seq<char>, Seq<char>> {
    Map::empty().insert(
        "PATH"@,
        "/usr/local/sbin:/usr/local/bin:/usr/sbin:/usr/bin:/sbin:/bin"@,
    ).insert("HOME"@, "/root"@).insert("TERM"@, "xterm-256color"@)
}

/// The environment of a child: the defaults, under what the request sets. Nothing is taken over
/// from the agent.
pub fn setup_env(env: &Env) -> (r: Env)
    ensures
        r.wf(),
        r.map() == default_env().union_prefer_right(env.map()),
        forall|n: Seq<char>| #[trigger]
            env.map().dom().contains(n) ==> r.map().dom().contains(n) && r.map()[n]
                == env.map()[n],
{
    let mut r = Env::new();
    assert(r.map() =~= Map::empty());
    r.insert(
        "PATH".to_owned(),
        "/usr/local/sbin:/usr/local/bin:/usr/sbin:/usr/bin:/sbin:/bin".to_owned(),
    );
    r.insert("HOME".to_owned(), "/root".to_owned());
    r.insert("TERM".to_owned(), "xterm-256color".to_owned());
    let mut i: usize = 0;
    assert(env::to_map(env@.take(0)) =~= Map::empty());
    assert(r.map() =~= default_env().union_prefer_right(env::to_map(env@.take(0))));
    while i < env.len()
        invariant
            i <= env@.len(),
            r.wf(),
            r.map() == default_env().union_prefer_right(env::to_map(env@.take(i as int))),
        decreases env@.len() - i,
    {
        let (name, value) = env.entry(i);
        let ghost set = env::to_map(env@.take(i as int));
        let ghost before = r.map();
        r.insert(name.clone(), value.clone());
        proof {
            let longer = env@.take(i + 1);
            assert(longer.drop_last() =~= env@.take(i as int));
            assert(longer.last() == env@[i as int]);
            assert(env::to_map(longer) == set.insert(name@, value@));
            assert(before.insert(name@, value@) =~= default_env().union_prefer_right(
                set.insert(name@, value@),
            ));
        }
        i = i + 1;
    }
    assert(env@.take(i as int) =~= env@);
    r
}

// ---- Command line ----

/// Where the first zero byte is.
pub open spec fn nul_position(b: Seq<u8>) -> Option<nat>
    decreases b.len(),
{
    if b.len() == 0 {
        None
    } else if b[0] == 0 {
        Some(0)
    } else {
        match nul_position(b.skip(1)) {
            Some(i) => Some(i + 1),
            None => None,
        }
    }
}

/// Where the first zero byte is in the first argument that has one.
pub open spec fn nul_in_args(cmd: Seq<Seq<char>>) -> Option<nat>
    decreases cmd.len(),
{
    if cmd.len() == 0 {
        None
    } else {
        match nul_position(encode_utf8(cmd[0])) {
            Some(i) => Some(i),
            None => nul_in_args(cmd.skip(1)),
        }
    }
}

/// Why a request without a command is refused.
pub open spec fn empty_command() -> FailureView {
    FailureView { kind: ErrorKind::InvalidInput, text: "empty command"@ }
}

/// Why a command with a zero byte is refused.
pub open spec fn nul_in_command(position: nat) -> FailureView {
    FailureView {
        kind: ErrorKind::InvalidInput,
        text: "nul byte found in provided data at position: "@ + text::decimal(position),
    }
}

/// The bytes of each argument.
pub open spec fn args_of(cmd: Seq<Seq<char>>) -> Seq<Seq<u8>> {
    cmd.map_values(|s: Seq<char>| encode_utf8(s))
}

/// What there is to run for a command, or why it cannot be run.
pub open spec fn command_line(cmd: Seq<Seq<char>>) -> Result<Seq<Seq<u8>>, FailureView> {
    if cmd.len() == 0 {
        Err(empty_command())
    } else {
        match nul_in_args(cmd) {
            Some(i) => Err(nul_in_command(i)),
            None => Ok(args_of(cmd)),
        }
    }
}

/// Refuses a request without a command.
pub fn require_command(req: &ExecRequest) -> (r: Result<(), Failure>)
    ensures
        match r {
            Ok(()) => req@.cmd.len() > 0,
            Err(e) => req@.cmd.len() == 0 && e@ == empty_command(),
        },
{
    if req.cmd.len() == 0 {
        Err(Failure::new(ErrorKind::InvalidInput, "empty command"))
    } else {
        Ok(())
    }
}

fn find_nul(b: &[u8]) -> (r: Option<usize>)
    ensures
        match r {
            Some(i) => nul_position(b@) == Some(i as nat),
            None => nul_position(b@) is None,
        },
{
    let mut i: usize = 0;
    assert(b@.skip(0) =~= b@);
    while i < b.len()
        invariant
            i <= b@.len(),
            nul_position(b@) == match nul_position(b@.skip(i as int)) {
                Some(j) => Some((i + j) as nat),
                None => None,
            },
        decreases b@.len() - i,
    {
        assert(b@.skip(i as int).skip(1) =~= b@.skip(i + 1));
        if b[i] == 0 {
            return Some(i);
        }
        i = i + 1;
    }
    None
}

/// The bytes of a command's arguments; a zero byte has no place in them.
fn command_args(cmd: &Vec<String>) -> (r: Result<Vec<Vec<u8>>, Failure>)
    ensures
        match r {
            Ok(args) => nul_in_args(cmd@.map_values(|s: String| s@)) is None
                && args@.map_values(|a: Vec<u8>| a@) == args_of(cmd@.map_values(|s: String| s@)),
            Err(e) => nul_in_args(cmd@.map_values(|s: String| s@)) matches Some(i) && e@
                == nul_in_command(i),
        },
{
    let ghost parts = cmd@.map_values(|s: String| s@);
    let mut args: Vec<Vec<u8>> = Vec::new();
    let mut i: usize = 0;
    assert(parts.skip(0) =~= parts);
    while i < cmd.len()
        invariant
            i <= cmd@.len(),
            parts == cmd@.map_values(|s: String| s@),
            nul_in_args(parts) == nul_in_args(parts.skip(i as int)),
            args@.map_values(|a: Vec<u8>| a@) == args_of(parts.take(i as int)),
        decreases cmd@.len() - i,
    {
        assert(parts.skip(i as int).skip(1) =~= parts.skip(i + 1));
        assert(parts.skip(i as int)[0] == parts[i as int]);
        let bytes = cmd[i].as_str().as_bytes();
        match find_nul(bytes) {
            Some(at) => {
                let mut s = "nul byte found in provided data at position: ".to_owned();
                push_decimal(&mut s, at as u64);
                return Err(Failure { kind: ErrorKind::InvalidInput, text: s });
            },
            None => {},
        }
        let ghost before = args@.map_values(|a: Vec<u8>| a@);
        args.push(vstd::slice::slice_to_vec(bytes));
        assert(args@.map_values(|a: Vec<u8>| a@) =~= before.push(encode_utf8(parts[i as int])));
        assert(args_of(parts.take(i + 1)) =~= args_of(parts.take(i as int)).push(
            encode_utf8(parts[i as int]),
        ));
        i = i + 1;
    }
    assert(parts.take(i as int) =~= parts);
    Ok(args)
}

// ---- Descriptors ----

/// A change to the descriptors, the session or the terminal of a process.
#[derive(Clone, Copy, Debug, PartialEq, Eq, Structural)]
pub enum FdOp {
    /// Close a descriptor.
    Close(i32),
    /// Make `to` another name for what `from` refers to.
    Dup { from: i32, to: i32 },
    /// Become the leader of a new session.
    NewSession,
    /// Make a terminal the controlling one.
    TakeTerminal(i32),
}

/// The two ends of each pipe between the agent and a child.
#[derive(Clone, Copy, Debug, PartialEq, Eq, Structural)]
pub struct Pipes {
    pub stdin_r: i32,
    pub stdin_w: i32,
    pub stdout_r: i32,
    pub stdout_w: i32,
    pub stderr_r: i32,
    pub stderr_w: i32,
}

/// What the child does with the pipes before it runs its program.
pub open spec fn pipe_child_ops(p: Pipes) -> Seq<FdOp> {
    seq![
        FdOp::Close(p.stdin_w),
        FdOp::Close(p.stdout_r),
        FdOp::Close(p.stderr_r),
        FdOp::Dup { from: p.stdin_r, to: 0 },
        FdOp::Dup { from: p.stdout_w, to: 1 },
        FdOp::Dup { from: p.stderr_w, to: 2 },
        FdOp::Close(p.stdin_r),
        FdOp::Close(p.stdout_w),
        FdOp::Close(p.stderr_w),
    ]
}

/// What the agent does with the pipes once the child is there.
pub open spec fn pipe_parent_ops(p: Pipes) -> Seq<FdOp> {
    seq![FdOp::Close(p.stdin_r), FdOp::Close(p.stdout_w), FdOp::Close(p.stderr_w)]
}

/// What the child does with its terminal before it runs its program.
pub open spec fn tty_child_ops(master: i32, slave: i32) -> Seq<FdOp> {
    seq![
        FdOp::Close(master),
        FdOp::NewSession,
        FdOp::TakeTerminal(slave),
        FdOp::Dup { from: slave, to: 0 },
        FdOp::Dup { from: slave, to: 1 },
        FdOp::Dup { from: slave, to: 2 },
    ] + if slave > 2 {
        seq![FdOp::Close(slave)]
    } else {
        seq![]
    }
}

/// What the agent does with the terminal once the child is there.
pub open spec fn tty_parent_ops(slave: i32) -> Seq<FdOp> {
    seq![FdOp::Close(slave)]
}

/// A descriptor table after an operation. A descriptor that is not open cannot be duplicated.
pub open spec fn apply_op<F>(t: Map<i32, F>, op: FdOp) -> Map<i32, F> {
    match op {
        FdOp::Close(fd) => t.remove(fd),
        FdOp::Dup { from, to } => if t.dom().contains(from) {
            t.insert(to, t[from])
        } else {
            t
        },
        _ => t,
    }
}

/// A descriptor table after operations one after the other.
pub open spec fn apply_ops<F>(t: Map<i32, F>, ops: Seq<FdOp>) -> Map<i32, F>
    decreases ops.len(),
{
    if ops.len() == 0 {
        t
    } else {
        apply_op(apply_ops(t, ops.drop_last()), ops.last())
    }
}

// ---- Launch ----

/// All that it takes to launch a child.
pub struct Launch {
    /// The program and its arguments, without zero bytes.
    pub argv: Vec<Vec<u8>>,
    /// The directory to change to.
    pub cwd: Option<String>,
    /// The environment.
    pub env: Env,
    /// What the child does with its descriptors.
    pub child: Vec<FdOp>,
    /// What the agent does with its own.
    pub parent: Vec<FdOp>,
}

impl Launch {
    /// Whether this is how to launch `req` with the given operations.
    pub open spec fn launches(
        &self,
        req: &ExecRequest,
        child: Seq<FdOp>,
        parent: Seq<FdOp>,
    ) -> bool {
        &&& command_line(req@.cmd) == Ok::<Seq<Seq<u8>>, FailureView>(
            self.argv@.map_values(|a: Vec<u8>| a@),
        )
        &&& match self.cwd {
            Some(dir) => dir@ == req@.cwd && req@.cwd.len() > 0,
            None => req@.cwd.len() == 0,
        }
        &&& self.env.wf()
        &&& self.env.map() == default_env().union_prefer_right(req.env.map())
        &&& self.child@ == child
        &&& self.parent@ == parent
    }
}

fn launch(req: &ExecRequest, child: Vec<FdOp>, parent: Vec<FdOp>) -> (r: Result<Launch, Failure>)
    ensures
        match r {
            Ok(l) => l.launches(req, child@, parent@),
            Err(e) => command_line(req@.cmd) == Err::<Seq<Seq<u8>>, FailureView>(e@),
        },
{
    match require_command(req) {
        Err(e) => Err(e),
        Ok(()) => match command_args(&req.cmd) {
            Err(e) => Err(e),
            Ok(argv) => {
                let cwd = if req.cwd.as_str().is_empty() {
                    None
                } else {
                    Some(req.cwd.clone())
                };
                let env = setup_env(&req.env);
                Ok(Launch { argv, cwd, env, child, parent })
            },
        },
    }
}

/// How to launch a child on pipes.
pub fn exec_non_tty(req: &ExecRequest, pipes: Pipes) -> (r: Result<Launch, Failure>)
    ensures
        match r {
            Ok(l) => {
                &&& l.launches(req, pipe_child_ops(pipes), pipe_parent_ops(pipes))
                &&& l.child@ == pipe_child_ops(pipes)
                &&& l.parent@ == pipe_parent_ops(pipes)
                &&& l.env.map() == default_env().union_prefer_right(req.env.map())
                &&& l.argv@.len() == req.cmd@.len()
                &&& forall|i: int|
                    0 <= i < req.cmd@.len() ==> (#[trigger] l.argv@[i])@ == encode_utf8(
                        req.cmd@[i]@,
                    )
                &&& req.cwd@.len() > 0 ==> l.cwd is Some && l.cwd->0@ == req.cwd@
                &&& req.cwd@.len() == 0 ==> l.cwd is None
            },
            Err(e) => command_line(req@.cmd) == Err::<Seq<Seq<u8>>, FailureView>(e@),
        },
{
    let child = vec![
        FdOp::Close(pipes.stdin_w),
        FdOp::Close(pipes.stdout_r),
        FdOp::Close(pipes.stderr_r),
        FdOp::Dup { from: pipes.stdin_r, to: 0 },
        FdOp::Dup { from: pipes.stdout_w, to: 1 },
        FdOp::Dup { from: pipes.stderr_w, to: 2 },
        FdOp::Close(pipes.stdin_r),
        FdOp::Close(pipes.stdout_w),
        FdOp::Close(pipes.stderr_w),
    ];
    let parent = vec![
        FdOp::Close(pipes.stdin_r),
        FdOp::Close(pipes.stdout_w),
        FdOp::Close(pipes.stderr_w),
    ];
    assert(child@ =~= pipe_child_ops(pipes));
    assert(parent@ =~= pipe_parent_ops(pipes));
    let r = launch(req, child, parent);
    proof {
        if r is Ok {
            lemma_launch_argv(&r->Ok_0, req);
        }
    }
    r
}

/// How to launch a child on the terminal `slave`, whose other side is `master`.
pub fn exec_tty(req: &ExecRequest, master: i32, slave: i32) -> (r: Result<Launch, Failure>)
    ensures
        match r {
            Ok(l) => {
                &&& l.launches(req, tty_child_ops(master, slave), tty_parent_ops(slave))
                &&& l.child@ == tty_child_ops(master, slave)
                &&& l.parent@ == tty_parent_ops(slave)
                &&& l.env.map() == default_env().union_prefer_right(req.env.map())
                &&& l.argv@.len() == req.cmd@.len()
                &&& forall|i: int|
                    0 <= i < req.cmd@.len() ==> (#[trigger] l.argv@[i])@ == encode_utf8(
                        req.cmd@[i]@,
                    )
                &&& req.cwd@.len() > 0 ==> l.cwd is Some && l.cwd->0@ == req.cwd@
                &&& req.cwd@.len() == 0 ==> l.cwd is None
            },
            Err(e) => command_line(req@.cmd) == Err::<Seq<Seq<u8>>, FailureView>(e@),
        },
{
    let mut child = vec![
        FdOp::Close(master),
        FdOp::NewSession,
        FdOp::TakeTerminal(slave),
        FdOp::Dup { from: slave, to: 0 },
        FdOp::Dup { from: slave, to: 1 },
        FdOp::Dup { from: slave, to: 2 },
    ];
    if slave > 2 {
        child.push(FdOp::Close(slave));
    }
    let parent = vec![FdOp::Close(slave)];
    assert(child@ =~= tty_child_ops(master, slave));
    assert(parent@ =~= tty_parent_ops(slave));
    let r = launch(req, child, parent);
    proof {
        if r is Ok {
            lemma_launch_argv(&r->Ok_0, req);
        }
    }
    r
}

/// One side of a terminal's size: the low 16 bits of what was asked for, or the default for zero.
pub open spec fn window_side(asked: u32, default: u16) -> u16 {
    if asked == 0 {
        default
    } else {
        (asked % 65536) as u16
    }
}

/// The size of the terminal that a request asks for, as rows and columns.
pub fn window_size(req: &ExecRequest) -> (r: (u16, u16))
    ensures
        r.0 == window_side(req@.rows, DEFAULT_ROWS),
        r.1 == window_side(req@.cols, DEFAULT_COLS),
        r.0 == if req.rows == 0 {
            24
        } else {
            req.rows % 65536
        },
        r.1 == if req.cols == 0 {
            80
        } else {
            req.cols % 65536
        },
{
    let rows = if req.rows > 0 {
        (req.rows % 65536) as u16
    } else {
        DEFAULT_ROWS
    };
    let cols = if req.cols > 0 {
        (req.cols % 65536) as u16
    } else {
        DEFAULT_COLS
    };
    (rows, cols)
}

// ---- Signals and exit status ----

/// `nix::sys::signal::Signal::try_from` gives the signal of a number, here turned back into its
/// number. On Linux, but for MIPS and SPARC, each number from 1 to 31 has one.
#[verifier::external_body]
fn signal_of_number(signum: i32) -> (r: Option<i32>)
    requires
        1 <= signum <= MAX_SIGNAL,
    ensures
        r == Some(signum),
{
    match nix::sys::signal::Signal::try_from(signum) {
        Ok(signal) => Some(signal as i32),
        Err(_) => None,
    }
}

/// Why a number is not forwarded as a signal.
pub open spec fn invalid_signal(signum: i32) -> FailureView {
    FailureView {
        kind: ErrorKind::InvalidInput,
        text: "invalid signal number: "@ + text::signed_decimal(signum as int),
    }
}

/// The signal to send for a number that the host gave.
pub fn send_signal(signum: i32) -> (r: Result<i32, Failure>)
    ensures
        match r {
            Ok(n) => 1 <= signum <= 31 && n == signum,
            Err(e) => !(1 <= signum <= 31) && e@ == invalid_signal(signum),
        },
{
    if 1 <= signum && signum <= MAX_SIGNAL {
        if let Some(n) = signal_of_number(signum) {
            return Ok(n);
        }
    }
    let mut s = "invalid signal number: ".to_owned();
    push_signed_decimal(&mut s, signum);
    Err(Failure { kind: ErrorKind::InvalidInput, text: s })
}

/// What waiting for a child brought.
#[derive(Debug)]
pub enum WaitOutcome {
    /// It exited with a code.
    Exited(i32),
    /// It was ended by a signal.
    Signaled(i32),
    /// Something else, described in words.
    Unexpected(String),
    /// Waiting failed, for a reason in words.
    Failed(String),
}

/// The contents of a [`WaitOutcome`].
pub enum WaitOutcomeView {
    Exited(i32),
    Signaled(i32),
    Unexpected(Seq<char>),
    Failed(Seq<char>),
}

impl View for WaitOutcome {
    type V = WaitOutcomeView;

    open spec fn view(&self) -> WaitOutcomeView {
        match *self {
            WaitOutcome::Exited(code) => WaitOutcomeView::Exited(code),
            WaitOutcome::Signaled(signal) => WaitOutcomeView::Signaled(signal),
            WaitOutcome::Unexpected(what) => WaitOutcomeView::Unexpected(what@),
            WaitOutcome::Failed(why) => WaitOutcomeView::Failed(why@),
        }
    }
}

/// The exit status of a child: its exit code, or -1 and the signal that ended it.
pub open spec fn wait_result(outcome: WaitOutcomeView) -> Result<ExitStatus, FailureView> {
    match outcome {
        WaitOutcomeView::Exited(code) => Ok(ExitStatus { code, signal: 0 }),
        WaitOutcomeView::Signaled(signal) => Ok(ExitStatus { code: -1i32, signal }),
        WaitOutcomeView::Unexpected(what) => Err(
            FailureView { kind: ErrorKind::Other, text: "unexpected wait status: "@ + what },
        ),
        WaitOutcomeView::Failed(why) => Err(FailureView { kind: ErrorKind::Other, text: why }),
    }
}

/// The exit status of a child, from what waiting for it brought.
pub fn wait_child(outcome: WaitOutcome) -> (r: Result<ExitStatus, Failure>)
    ensures
        match r {
            Ok(status) => wait_result(outcome@) == Ok::<ExitStatus, FailureView>(status),
            Err(e) => wait_result(outcome@) == Err::<ExitStatus, FailureView>(e@),
        },
        outcome matches WaitOutcome::Exited(code) ==> r == Ok::<ExitStatus, Failure>(
            ExitStatus { code, signal: 0 },
        ),
        outcome matches WaitOutcome::Signaled(signal) ==> r == Ok::<ExitStatus, Failure>(
            ExitStatus { code: -1i32, signal },
        ),
        r is Ok <==> outcome is Exited || outcome is Signaled,
{
    match outcome {
        WaitOutcome::Exited(code) => Ok(ExitStatus { code, signal: 0 }),
        WaitOutcome::Signaled(signal) => Ok(ExitStatus { code: -1, signal }),
        WaitOutcome::Unexpected(what) => {
            let mut s = "unexpected wait status: ".to_owned();
            s.append(what.as_str());
            Err(Failure { kind: ErrorKind::Other, text: s })
        },
        WaitOutcome::Failed(why) => Err(Failure { kind: ErrorKind::Other, text: why }),
    }
}

// ---- Laws ----

/// Whether the six ends of the pipes are open, apart from each other and from the standard
/// descriptors.
pub open spec fn pipes_apart<F>(t: Map<i32, F>, p: Pipes) -> bool {
    let ends = seq![p.stdin_r, p.stdin_w, p.stdout_r, p.stdout_w, p.stderr_r, p.stderr_w];
    &&& ends.no_duplicates()
    &&& forall|i: int|
        0 <= i < ends.len() ==> (#[trigger] ends[i]) > 2 && t.dom().contains(ends[i])
}

/// Whether `fd` is an end of one of the pipes.
pub open spec fn is_pipe_end(p: Pipes, fd: i32) -> bool {
    fd == p.stdin_r || fd == p.stdin_w || fd == p.stdout_r || fd == p.stdout_w || fd == p.stderr_r
        || fd == p.stderr_w
}

/// A child on pipes reads its input from the one pipe and writes its output and its errors to the
/// other two. It holds no pipe by another descriptor, so that each pipe ends when its writer does.
/// Its other descriptors stay as they were.
pub proof fn lemma_pipe_child<F>(t: Map<i32, F>, p: Pipes)
    requires
        pipes_apart(t, p),
    ensures
        ({
            let after = apply_ops(t, pipe_child_ops(p));
            &&& after.dom().contains(0) && after[0] == t[p.stdin_r]
            &&& after.dom().contains(1) && after[1] == t[p.stdout_w]
            &&& after.dom().contains(2) && after[2] == t[p.stderr_w]
            &&& forall|fd: i32| is_pipe_end(p, fd) ==> !(#[trigger] after.dom().contains(fd))
            &&& forall|fd: i32|
                !(0 <= fd <= 2) && !is_pipe_end(p, fd) ==> (#[trigger] after.dom().contains(fd))
                    == t.dom().contains(fd) && (t.dom().contains(fd) ==> after[fd] == t[fd])
        }),
{
    let ends = seq![p.stdin_r, p.stdin_w, p.stdout_r, p.stdout_w, p.stderr_r, p.stderr_w];
    assert(ends[0] == p.stdin_r && ends[1] == p.stdin_w && ends[2] == p.stdout_r && ends[3]
        == p.stdout_w && ends[4] == p.stderr_r && ends[5] == p.stderr_w);
    let after = t.remove(p.stdin_w).remove(p.stdout_r).remove(p.stderr_r).insert(
        0,
        t[p.stdin_r],
    ).insert(1, t[p.stdout_w]).insert(2, t[p.stderr_w]).remove(p.stdin_r).remove(
        p.stdout_w,
    ).remove(p.stderr_w);
    let ops = pipe_child_ops(p);
    assert(apply_ops(t, ops) == after) by {
        lemma_apply_next(t, ops, 0);
        lemma_apply_next(t, ops, 1);
        lemma_apply_next(t, ops, 2);
        lemma_apply_next(t, ops, 3);
        lemma_apply_next(t, ops, 4);
        lemma_apply_next(t, ops, 5);
        lemma_apply_next(t, ops, 6);
        lemma_apply_next(t, ops, 7);
        lemma_apply_next(t, ops, 8);
    }
}

/// The agent keeps the writing end of the child's input and the reading ends of its output, and
/// nothing else of the pipes. Its other descriptors stay as they were.
pub proof fn lemma_pipe_parent<F>(t: Map<i32, F>, p: Pipes)
    requires
        pipes_apart(t, p),
    ensures
        ({
            let after = apply_ops(t, pipe_parent_ops(p));
            forall|fd: i32|
                (#[trigger] after.dom().contains(fd)) == (t.dom().contains(fd) && fd != p.stdin_r
                    && fd != p.stdout_w && fd != p.stderr_w) && (after.dom().contains(fd)
                    ==> after[fd] == t[fd])
        }),
{
    let ops = pipe_parent_ops(p);
    lemma_apply_next(t, ops, 0);
    lemma_apply_next(t, ops, 1);
    lemma_apply_next(t, ops, 2);
}

/// A child on a terminal has the terminal as its input, output and errors, and holds neither side
/// of it by another descriptor. Its other descriptors stay as they were.
pub proof fn lemma_tty_child<F>(t: Map<i32, F>, master: i32, slave: i32)
    requires
        master > 2,
        slave >= 0,
        master != slave,
        t.dom().contains(master),
        t.dom().contains(slave),
    ensures
        ({
            let after = apply_ops(t, tty_child_ops(master, slave));
            &&& forall|fd: i32|
                0 <= fd <= 2 ==> (#[trigger] after.dom().contains(fd)) && after[fd] == t[slave]
            &&& !after.dom().contains(master)
            &&& slave > 2 ==> !after.dom().contains(slave)
            &&& forall|fd: i32|
                !(0 <= fd <= 2) && fd != master && fd != slave ==> (#[trigger] after.dom().contains(
                    fd,
                )) == t.dom().contains(fd) && (t.dom().contains(fd) ==> after[fd] == t[fd])
        }),
{
    let ops = tty_child_ops(master, slave);
    lemma_apply_next(t, ops, 0);
    lemma_apply_next(t, ops, 1);
    lemma_apply_next(t, ops, 2);
    lemma_apply_next(t, ops, 3);
    lemma_apply_next(t, ops, 4);
    lemma_apply_next(t, ops, 5);
    if slave > 2 {
        lemma_apply_next(t, ops, 6);
    }
}

/// A child on a terminal leads a session of its own before it takes the terminal, and takes it
/// while it still holds it by the descriptor. A child on pipes does neither.
pub proof fn lemma_terminal_taken(master: i32, slave: i32, p: Pipes)
    ensures
        ({
            let ops = tty_child_ops(master, slave);
            exists|i: int, j: int|
                {
                    &&& 0 <= i < j < ops.len()
                    &&& #[trigger] ops[i] == FdOp::NewSession
                    &&& #[trigger] ops[j] == FdOp::TakeTerminal(slave)
                    &&& forall|k: int| 0 <= k < j ==> #[trigger] ops[k] != FdOp::Close(slave)
                        || master == slave
                }
        }),
        forall|k: int|
            0 <= k < tty_child_ops(master, slave).len() ==> ((#[trigger] tty_child_ops(
                master,
                slave,
            )[k]) is TakeTerminal ==> tty_child_ops(master, slave)[k] == FdOp::TakeTerminal(slave)),
        forall|k: int|
            0 <= k < pipe_child_ops(p).len() ==> (#[trigger] pipe_child_ops(p)[k]) is Close
                || pipe_child_ops(p)[k] is Dup,
{
    let ops = tty_child_ops(master, slave);
    assert(ops[1] == FdOp::NewSession && ops[2] == FdOp::TakeTerminal(slave));
}

/// The agent keeps its side of a terminal and lets go of the child's. Its other descriptors stay as
/// they were.
pub proof fn lemma_tty_parent<F>(t: Map<i32, F>, master: i32, slave: i32)
    requires
        master != slave,
        t.dom().contains(master),
    ensures
        ({
            let after = apply_ops(t, tty_parent_ops(slave));
            &&& after.dom().contains(master)
            &&& !after.dom().contains(slave)
            &&& forall|fd: i32|
                fd != slave ==> (#[trigger] after.dom().contains(fd)) == t.dom().contains(fd) && (
                t.dom().contains(fd) ==> after[fd] == t[fd])
        }),
{
    lemma_apply_next(t, tty_parent_ops(slave), 0);
}

/// A closed descriptor is gone, a duplicated one refers to what the first one does, and no
/// descriptor but the one that is named changes.
pub proof fn lemma_op_effect<F>(t: Map<i32, F>, fd: i32, from: i32, to: i32, other: i32)
    ensures
        !apply_op(t, FdOp::Close(fd)).dom().contains(fd),
        t.dom().contains(from) ==> apply_op(t, FdOp::Dup { from, to }).dom().contains(to)
            && apply_op(t, FdOp::Dup { from, to })[to] == t[from],
        other != fd ==> apply_op(t, FdOp::Close(fd)).dom().contains(other) == t.dom().contains(
            other,
        ),
        other != to ==> apply_op(t, FdOp::Dup { from, to }).dom().contains(other)
            == t.dom().contains(other),
        other != fd && t.dom().contains(other) ==> apply_op(t, FdOp::Close(fd))[other] == t[other],
        other != to && t.dom().contains(other) ==> apply_op(t, FdOp::Dup { from, to })[other]
            == t[other],
{
}

/// A child starts with three variables.
pub proof fn lemma_default_env()
    ensures
        default_env().dom() == set!["PATH"@, "HOME"@, "TERM"@],
        default_env()["PATH"@] == "/usr/local/sbin:/usr/local/bin:/usr/sbin:/usr/bin:/sbin:/bin"@,
        default_env()["HOME"@] == "/root"@,
        default_env()["TERM"@] == "xterm-256color"@,
{
    reveal_strlit("PATH");
    reveal_strlit("HOME");
    reveal_strlit("TERM");
    assert("PATH"@[0] == 'P' && "HOME"@[0] == 'H' && "TERM"@[0] == 'T');
    assert(default_env().dom() =~= set!["PATH"@, "HOME"@, "TERM"@]);
}

/// A variable of the child has the value that the request gives it, else its default, else there is
/// no such variable.
pub proof fn lemma_env_overrides(asked: Map<Seq<char>, Seq<char>>, name: Seq<char>)
    ensures
        ({
            let env = default_env().union_prefer_right(asked);
            &&& asked.dom().contains(name) ==> env.dom().contains(name) && env[name] == asked[name]
            &&& !asked.dom().contains(name) && (name == "PATH"@ || name == "HOME"@ || name
                == "TERM"@) ==> env.dom().contains(name) && env[name] == default_env()[name]
            &&& !asked.dom().contains(name) && name != "PATH"@ && name != "HOME"@ && name
                != "TERM"@ ==> !env.dom().contains(name)
        }),
{
    lemma_default_env();
}

/// The place of the first zero byte holds a zero, and no place before it does.
pub proof fn lemma_nul_position(b: Seq<u8>)
    ensures
        match nul_position(b) {
            Some(i) => i < b.len() && b[i as int] == 0 && forall|k: int|
                0 <= k < i ==> #[trigger] b[k] != 0,
            None => forall|k: int| 0 <= k < b.len() ==> #[trigger] b[k] != 0,
        },
    decreases b.len(),
{
    if b.len() > 0 && b[0] != 0 {
        lemma_nul_position(b.skip(1));
        assert forall|k: int| 1 <= k < b.len() implies b[k] == b.skip(1)[k - 1] by {}
        assert(b[0] != 0);
    }
}

/// Whether an argument has a zero byte.
pub open spec fn has_nul(arg: Seq<char>) -> bool {
    exists|k: int| 0 <= k < encode_utf8(arg).len() && #[trigger] encode_utf8(arg)[k] == 0
}

/// A command is refused for a zero byte exactly where an argument has one; it is the first such
/// argument that is told of.
pub proof fn lemma_nul_in_args(cmd: Seq<Seq<char>>)
    ensures
        nul_in_args(cmd) is None <==> forall|i: int|
            0 <= i < cmd.len() ==> !has_nul(#[trigger] cmd[i]),
        nul_in_args(cmd) matches Some(p) ==> exists|i: int|
            {
                &&& 0 <= i < cmd.len()
                &&& nul_position(encode_utf8(#[trigger] cmd[i])) == Some(p)
                &&& forall|j: int| 0 <= j < i ==> !has_nul(#[trigger] cmd[j])
            },
    decreases cmd.len(),
{
    if cmd.len() > 0 {
        let rest = cmd.skip(1);
        lemma_nul_position(encode_utf8(cmd[0]));
        lemma_nul_in_args(rest);
        assert forall|i: int| 1 <= i < cmd.len() implies #[trigger] cmd[i] == rest[i - 1] by {}
        match nul_position(encode_utf8(cmd[0])) {
            Some(p) => {
                assert(encode_utf8(cmd[0])[p as int] == 0);
                assert(has_nul(cmd[0]));
            },
            None => {
                assert(!has_nul(cmd[0]));
                if nul_in_args(rest) is None {
                    assert forall|i: int| 0 <= i < cmd.len() implies !has_nul(
                        #[trigger] cmd[i],
                    ) by {
                        if i > 0 {
                            assert(cmd[i] == rest[i - 1]);
                        }
                    }
                } else {
                    let p = nul_in_args(rest)->0;
                    let i = choose|i: int|
                        {
                            &&& 0 <= i < rest.len()
                            &&& nul_position(encode_utf8(#[trigger] rest[i])) == Some(p)
                            &&& forall|j: int| 0 <= j < i ==> !has_nul(#[trigger] rest[j])
                        };
                    assert(cmd[i + 1] == rest[i]);
                    assert forall|j: int| 0 <= j < i + 1 implies !has_nul(#[trigger] cmd[j]) by {
                        if j > 0 {
                            assert(cmd[j] == rest[j - 1]);
                        }
                    }
                    lemma_nul_position(encode_utf8(rest[i]));
                    assert(encode_utf8(rest[i])[p as int] == 0);
                    assert(has_nul(cmd[i + 1]));
                }
            },
        }
    }
}

/// A command can be run exactly where there is one and no argument has a zero byte. Then each of
/// its arguments is passed on, in its place, as UTF-8.
pub proof fn lemma_command_line(cmd: Seq<Seq<char>>)
    ensures
        command_line(cmd) is Ok <==> cmd.len() > 0 && forall|i: int|
            0 <= i < cmd.len() ==> !has_nul(#[trigger] cmd[i]),
        command_line(cmd) matches Ok(argv) ==> argv.len() == cmd.len() && forall|i: int|
            0 <= i < cmd.len() ==> #[trigger] argv[i] == encode_utf8(cmd[i]),
        cmd.len() == 0 ==> command_line(cmd) == Err::<Seq<Seq<u8>>, FailureView>(
            FailureView { kind: ErrorKind::InvalidInput, text: "empty command"@ },
        ),
        cmd.len() > 0 && command_line(cmd) is Err ==> exists|i: int, p: nat|
            {
                &&& 0 <= i < cmd.len()
                &&& p < encode_utf8(cmd[i]).len()
                &&& encode_utf8(#[trigger] cmd[i])[p as int] == 0
                &&& command_line(cmd)->Err_0.kind == ErrorKind::InvalidInput
                &&& command_line(cmd)->Err_0.text
                    == "nul byte found in provided data at position: "@ + #[trigger] text::decimal(
                    p,
                )
            },
{
    lemma_nul_in_args(cmd);
    if cmd.len() > 0 && nul_in_args(cmd) is Some {
        let p = nul_in_args(cmd)->0;
        let i = choose|i: int|
            {
                &&& 0 <= i < cmd.len()
                &&& nul_position(encode_utf8(#[trigger] cmd[i])) == Some(p)
                &&& forall|j: int| 0 <= j < i ==> !has_nul(#[trigger] cmd[j])
            };
        lemma_nul_position(encode_utf8(cmd[i]));
        assert(encode_utf8(cmd[i])[p as int] == 0);
        assert(command_line(cmd)->Err_0.text == "nul byte found in provided data at position: "@
            + text::decimal(p));
    }
}

/// A launch passes on each argument of its request, in its place, as UTF-8, goes to its directory
/// where it names one, and takes the variables over the defaults.
pub proof fn lemma_launch_argv(l: &Launch, req: &ExecRequest)
    requires
        l.launches(req, l.child@, l.parent@),
    ensures
        l.argv@.len() == req.cmd@.len(),
        l.argv@.len() > 0,
        forall|i: int|
            0 <= i < req.cmd@.len() ==> (#[trigger] l.argv@[i])@ == encode_utf8(req.cmd@[i]@),
        req.cwd@.len() > 0 ==> l.cwd is Some && l.cwd->0@ == req.cwd@,
        req.cwd@.len() == 0 ==> l.cwd is None,
        forall|n: Seq<char>| #[trigger]
            req.env.map().dom().contains(n) ==> l.env.map().dom().contains(n) && l.env.map()[n]
                == req.env.map()[n],
{
    lemma_command_line(req@.cmd);
    let argv = l.argv@.map_values(|a: Vec<u8>| a@);
    assert forall|i: int| 0 <= i < req.cmd@.len() implies (#[trigger] l.argv@[i])@ == encode_utf8(
        req.cmd@[i]@,
    ) by {
        assert(argv[i] == l.argv@[i]@);
        assert(req@.cmd[i] == req.cmd@[i]@);
    }
}

/// A process that exited is reported with its code and no signal, one that a signal ended with -1
/// and that signal: for every code and every signal.
pub proof fn lemma_exit_reported(code: i32, signal: i32)
    ensures
        wait_result(WaitOutcomeView::Exited(code)) == Ok::<ExitStatus, FailureView>(
            ExitStatus { code, signal: 0 },
        ),
        wait_result(WaitOutcomeView::Signaled(signal)) == Ok::<ExitStatus, FailureView>(
            ExitStatus { code: -1i32, signal },
        ),
{
}

/// Processes that ended differently are told apart by what is reported of them.
pub proof fn lemma_exits_told_apart(a: WaitOutcomeView, b: WaitOutcomeView)
    requires
        a is Exited || (a is Signaled && a != WaitOutcomeView::Signaled(0)),
        b is Exited || (b is Signaled && b != WaitOutcomeView::Signaled(0)),
        wait_result(a) == wait_result(b),
    ensures
        a == b,
{
}

/// What is no exit is a failure of no particular kind, which keeps the words.
pub proof fn lemma_wait_failures(what: Seq<char>)
    ensures
        wait_result(WaitOutcomeView::Unexpected(what)) == Err::<ExitStatus, FailureView>(
            FailureView { kind: ErrorKind::Other, text: "unexpected wait status: "@ + what },
        ),
        wait_result(WaitOutcomeView::Failed(what)) == Err::<ExitStatus, FailureView>(
            FailureView { kind: ErrorKind::Other, text: what },
        ),
{
}

/// What waiting brought is taken as it is.
pub proof fn lemma_wait_outcome_view(outcome: WaitOutcome)
    ensures
        outcome matches WaitOutcome::Exited(code) ==> outcome@ == WaitOutcomeView::Exited(code),
        outcome matches WaitOutcome::Signaled(signal) ==> outcome@ == WaitOutcomeView::Signaled(
            signal,
        ),
        outcome matches WaitOutcome::Unexpected(what) ==> outcome@ == WaitOutcomeView::Unexpected(
            what@,
        ),
        outcome matches WaitOutcome::Failed(why) ==> outcome@ == WaitOutcomeView::Failed(why@),
{
}

/// A side of a terminal is what was asked for, as far as sixteen bits hold it.
pub proof fn lemma_window_side(asked: u32, default: u16)
    ensures
        asked == 0 ==> window_side(asked, default) == default,
        0 < asked <= u16::MAX ==> window_side(asked, default) == asked,
        asked != 0 ==> (asked - window_side(asked, default)) % 65536 == 0,
{
}

/// The number that is no signal is told in the failure.
pub proof fn lemma_invalid_signal(signum: i32)
    ensures
        invalid_signal(signum).kind == ErrorKind::InvalidInput,
        signum >= 0 ==> invalid_signal(signum).text == "invalid signal number: "@ + text::decimal(
            signum as nat,
        ),
        signum < 0 ==> invalid_signal(signum).text == "invalid signal number: "@ + (seq!['-']
            + text::decimal((-signum) as nat)),
{
}

/// One operation more.
proof fn lemma_apply_next<F>(t: Map<i32, F>, ops: Seq<FdOp>, k: int)
    requires
        0 <= k < ops.len(),
    ensures
        apply_ops(t, ops.take(k + 1)) == apply_op(apply_ops(t, ops.take(k)), ops[k]),
        apply_ops(t, ops.take(0)) == t,
        ops.take(ops.len() as int) == ops,
{
    assert(ops.take(k + 1).drop_last() =~= ops.take(k));
    assert(ops.take(ops.len() as int) =~= ops);
}

} // verus!
