//! The accept loop, whatever the kind of socket.

use crate::failure::{ErrorKind, Failure};
use crate::text;
use crate::text::push_decimal;
use vstd::prelude::*;

verus! {

/// A connection accepted by a listener.
pub trait Connection {
    /// What the other side is called in messages.
    fn peer_label(&self) -> String;
}

/// A listener that accepts connections.
pub trait Listener {
    type Conn: Connection;

    /// Waits for a connection.
    fn accept(&self) -> Result<Self::Conn, Failure>;
}

/// What came of a round of the accept loop.
pub enum Tidings<C> {
    /// Whether the agent is to go on.
    Running(bool),
    /// What accepting brought.
    Accepted(Result<C, Failure>),
}

/// What to do next in the accept loop.
pub enum Round<C> {
    /// See whether the agent is to go on.
    Check,
    /// Accept a connection.
    Accept,
    /// Serve this connection beside all that is done here, and see whether the agent is to go on;
    /// `label` names the other side.
    Serve { conn: C, label: String },
    /// Say that accepting failed, and see whether the agent is to go on.
    Report(Failure),
    /// The loop is over.
    Stop,
}

/// Where the accept loop is: what its last round was for.
#[derive(Clone, Copy, Debug, PartialEq, Eq, Structural)]
pub enum Server {
    /// Seeing whether the agent is to go on.
    Checking,
    /// Accepting a connection.
    Accepting,
    /// Over.
    Stopped,
}

/// Whether `round` is what to do where accepting brought `accepted`.
pub open spec fn follows<C: Connection>(accepted: Result<C, Failure>, round: Round<C>) -> bool {
    match accepted {
        Ok(c) => round matches Round::Serve { conn, label } && conn == c && call_ensures(
            C::peer_label,
            (&c,),
            label,
        ),
        Err(e) => if e@.kind == ErrorKind::Interrupted {
            round is Check
        } else {
            round == Round::<C>::Report(e)
        },
    }
}

/// Whether `t` can come of the last round.
pub open spec fn server_expects<C>(server: Server, t: Tidings<C>) -> bool {
    match server {
        Server::Checking => t is Running,
        Server::Accepting => t is Accepted,
        Server::Stopped => false,
    }
}

/// Where the accept loop is when `t` came.
pub open spec fn server_after<C>(t: Tidings<C>) -> Server {
    match t {
        Tidings::Running(true) => Server::Accepting,
        Tidings::Running(false) => Server::Stopped,
        Tidings::Accepted(_) => Server::Checking,
    }
}

/// Whether `round` is what to do when `t` came.
pub open spec fn answers<C: Connection>(t: Tidings<C>, round: Round<C>) -> bool {
    match t {
        Tidings::Running(true) => round is Accept,
        Tidings::Running(false) => round is Stop,
        Tidings::Accepted(accepted) => follows(accepted, round),
    }
}

/// What to do with what accepting brought.
pub fn after_accept<C: Connection>(accepted: Result<C, Failure>) -> (r: Round<C>)
    ensures
        follows(accepted, r),
{
    match accepted {
        Ok(conn) => {
            let label = conn.peer_label();
            Round::Serve { conn, label }
        },
        Err(e) => if e.kind == ErrorKind::Interrupted {
            Round::Check
        } else {
            Round::Report(e)
        },
    }
}

/// Starts the accept loop: the first thing to do is to see whether the agent is to go on.
pub fn serve<C>() -> (r: (Server, Round<C>))
    ensures
        r.0 == Server::Checking,
        r.1 is Check,
{
    (Server::Checking, Round::Check)
}

impl Server {
    /// Whether `t` can come of the last round.
    pub fn expects<C>(&self, t: &Tidings<C>) -> (r: bool)
        ensures
            r == server_expects(*self, *t),
    {
        match self {
            Server::Checking => matches!(t, Tidings::Running(_)),
            Server::Accepting => matches!(t, Tidings::Accepted(_)),
            Server::Stopped => false,
        }
    }

    /// The next round, from what the last one brought.
    pub fn step<C: Connection>(self, t: Tidings<C>) -> (r: (Server, Round<C>))
        requires
            server_expects(self, t),
        ensures
            r.0 == server_after(t),
            answers(t, r.1),
    {
        match t {
            Tidings::Running(true) => (Server::Accepting, Round::Accept),
            Tidings::Running(false) => (Server::Stopped, Round::Stop),
            Tidings::Accepted(accepted) => (Server::Checking, after_accept(accepted)),
        }
    }

    /// The next round, or nothing where `t` cannot come of the last one.
    pub fn try_step<C: Connection>(self, t: Tidings<C>) -> (r: Option<(Server, Round<C>)>)
        ensures
            match r {
                Some((next, round)) => server_expects(self, t) && next == server_after(t)
                    && answers(t, round),
                None => !server_expects(self, t),
            },
    {
        if self.expects(&t) {
            Some(self.step(t))
        } else {
            None
        }
    }
}

// ---- Laws ----

/// A connection is served as it was accepted, an interruption is passed over, and any other failure
/// is told as it is.
pub proof fn lemma_accept_answered<C: Connection>(conn: C, e: Failure, round: Round<C>)
    ensures
        follows(Ok::<C, Failure>(conn), round) ==> round is Serve && round->conn == conn,
        follows(Err::<C, Failure>(e), round) && e.kind == ErrorKind::Interrupted ==> round is Check,
        follows(Err::<C, Failure>(e), round) && e.kind != ErrorKind::Interrupted ==> round
            == Round::<C>::Report(e),
{
}

/// The loop first sees whether the agent is to go on; then it accepts, or is over; and when it has
/// accepted, it sees again.
pub proof fn lemma_loop_alternates<C: Connection>(
    running: bool,
    accepted: Result<C, Failure>,
    round: Round<C>,
)
    ensures
        server_expects(Server::Checking, Tidings::<C>::Running(running)),
        server_expects(Server::Accepting, Tidings::Accepted(accepted)),
        !server_expects(Server::Checking, Tidings::Accepted(accepted)),
        !server_expects(Server::Accepting, Tidings::<C>::Running(running)),
        !server_expects(Server::Stopped, Tidings::<C>::Running(running)),
        !server_expects(Server::Stopped, Tidings::Accepted(accepted)),
        server_after(Tidings::<C>::Running(running)) == if running {
            Server::Accepting
        } else {
            Server::Stopped
        },
        server_after(Tidings::Accepted(accepted)) == Server::Checking,
        answers(Tidings::<C>::Running(running), round) ==> if running {
            round is Accept
        } else {
            round is Stop
        },
        answers(Tidings::Accepted(accepted), round) ==> round is Serve || round is Check
            || round is Report,
{
}

/// A run of the accept loop: what came, and what was done on it, the start left out.
pub struct Run<C> {
    pub tidings: Seq<Tidings<C>>,
    pub rounds: Seq<Round<C>>,
}

/// Where the accept loop is when the first `k` of `tidings` came.
pub open spec fn server_at<C>(tidings: Seq<Tidings<C>>, k: int) -> Server {
    if k == 0 {
        Server::Checking
    } else {
        server_after(tidings[k - 1])
    }
}

/// Whether the accept loop can run like this from its start.
pub open spec fn is_run<C: Connection>(run: Run<C>) -> bool {
    &&& run.tidings.len() == run.rounds.len()
    &&& forall|k: int|
        0 <= k < run.tidings.len() ==> server_expects(
            #[trigger] server_at(run.tidings, k),
            run.tidings[k],
        )
    &&& forall|k: int|
        0 <= k < run.rounds.len() ==> answers(run.tidings[k], #[trigger] run.rounds[k])
}

/// The connections that were accepted, in order.
pub open spec fn accepted_of<C>(tidings: Seq<Tidings<C>>) -> Seq<C>
    decreases tidings.len(),
{
    if tidings.len() == 0 {
        seq![]
    } else {
        match tidings.last() {
            Tidings::Accepted(Ok(conn)) => accepted_of(tidings.drop_last()).push(conn),
            _ => accepted_of(tidings.drop_last()),
        }
    }
}

/// The connections that were to be served, in order.
pub open spec fn served_of<C>(rounds: Seq<Round<C>>) -> Seq<C>
    decreases rounds.len(),
{
    if rounds.len() == 0 {
        seq![]
    } else {
        match rounds.last() {
            Round::Serve { conn, .. } => served_of(rounds.drop_last()).push(conn),
            _ => served_of(rounds.drop_last()),
        }
    }
}

/// The run before its last round.
spec fn shorter<C>(run: Run<C>) -> Run<C> {
    Run { tidings: run.tidings.drop_last(), rounds: run.rounds.drop_last() }
}

/// The front of a run is a run.
proof fn lemma_shorter<C: Connection>(run: Run<C>)
    requires
        is_run(run),
        run.tidings.len() > 0,
    ensures
        is_run(shorter(run)),
        answers(run.tidings.last(), run.rounds.last()),
{
    let before = shorter(run);
    assert forall|k: int| 0 <= k < before.tidings.len() implies server_expects(
        #[trigger] server_at(before.tidings, k),
        before.tidings[k],
    ) by {
        assert(server_at(before.tidings, k) == server_at(run.tidings, k));
    }
    assert forall|k: int| 0 <= k < before.rounds.len() implies answers(
        before.tidings[k],
        #[trigger] before.rounds[k],
    ) by {
        assert(before.rounds[k] == run.rounds[k]);
    }
}

/// Each connection that is accepted is served once, in the order in which they came.
pub proof fn lemma_each_served_once<C: Connection>(run: Run<C>)
    requires
        is_run(run),
    ensures
        served_of(run.rounds) == accepted_of(run.tidings),
    decreases run.tidings.len(),
{
    if run.tidings.len() > 0 {
        lemma_shorter(run);
        lemma_each_served_once(shorter(run));
    }
}

/// A connection is accepted exactly when the agent was just seen to go on. The loop ends exactly
/// when it was just seen not to, and nothing comes after that: no failure to accept ends it.
pub proof fn lemma_loop_ends_when_told<C: Connection>(run: Run<C>, k: int)
    requires
        is_run(run),
        0 <= k < run.rounds.len(),
    ensures
        run.rounds[k] is Accept <==> run.tidings[k] == Tidings::<C>::Running(true),
        run.rounds[k] is Stop <==> run.tidings[k] == Tidings::<C>::Running(false),
        run.rounds[k] is Stop ==> k == run.rounds.len() - 1,
        run.tidings[k] is Accepted ==> k > 0 && run.tidings[k - 1] == Tidings::<C>::Running(true),
{
    assert(answers(run.tidings[k], run.rounds[k]));
    assert(server_expects(server_at(run.tidings, k), run.tidings[k]));
    if k + 1 < run.rounds.len() {
        assert(server_expects(server_at(run.tidings, k + 1), run.tidings[k + 1]));
    }
}

/// The other side of a TCP connection: its address, where that is known.
pub struct TcpPeer {
    pub addr: Option<String>,
}

impl Connection for TcpPeer {
    fn peer_label(&self) -> (r: String)
        ensures
            r@ == match self.addr {
                Some(addr) => addr@,
                None => "unknown"@,
            },
    {
        match &self.addr {
            Some(addr) => addr.clone(),
            None => "unknown".to_owned(),
        }
    }
}

/// The other side of a vsock connection: its context identifier.
#[derive(Clone, Copy, Debug, PartialEq, Eq, Structural)]
pub struct VsockPeer {
    pub cid: u32,
}

impl Connection for VsockPeer {
    fn peer_label(&self) -> (r: String)
        ensures
            r@ == "CID "@ + text::decimal(self.cid as nat),
    {
        let mut s = "CID ".to_owned();
        push_decimal(&mut s, self.cid as u64);
        s
    }
}

} // verus!
