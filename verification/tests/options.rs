use bentos_execd::failure::{ErrorKind, Failure};
use bentos_execd::listener::{
    after_accept, serve, Connection, Listener, Round, Server, TcpPeer, Tidings, VsockPeer,
};
use bentos_execd::options::{parse_arg, parse_u32, startup, Startup, DEFAULT_PORT};

fn args(list: &[&str]) -> Vec<String> {
    list.iter().map(|s| s.to_string()).collect()
}

#[test]
fn first_flag_with_a_value_counts() {
    let a = args(&["x", "--tcp", "one", "--tcp", "two", "--port"]);
    assert_eq!(parse_arg(&a, "--tcp").as_deref(), Some("one"));
    assert_eq!(parse_arg(&a, "--port"), None);
    assert_eq!(parse_arg(&a, "one").as_deref(), Some("--tcp"));
    assert_eq!(parse_arg(&args(&[]), "--tcp"), None);
    assert_eq!(parse_arg(&args(&["--tcp"]), "--tcp"), None);
}

#[test]
fn numbers_are_read_as_the_standard_library_does() {
    for s in [
        "", "+", "0", "+0", "007", "5100", "+5100", "4294967295", "4294967296", "99999999999999",
        "-1", "++1", " 1", "1 ", "1_0", "1x", "x", "\u{661}", "42949672950",
    ] {
        assert_eq!(parse_u32(s), s.parse::<u32>().ok(), "{:?}", s);
    }
}

#[test]
fn help_comes_before_version_and_both_before_all_else() {
    assert!(matches!(startup(&args(&["x", "-V", "--help"]), true), Startup::Help));
    assert!(matches!(startup(&args(&["x", "-h", "--port", "no"]), true), Startup::Help));
    assert!(matches!(startup(&args(&["x", "--tcp", "-V"]), true), Startup::Version));
    assert!(matches!(startup(&args(&["x", "--version"]), false), Startup::Version));
}

#[test]
fn tcp_comes_before_vsock() {
    match startup(&args(&["x", "--port", "no", "--tcp", "127.0.0.1:5100"]), true) {
        Startup::Tcp { addr, log_level } => {
            assert_eq!(addr, "127.0.0.1:5100");
            assert_eq!(log_level, "info");
        }
        _ => panic!("not TCP"),
    }
}

#[test]
fn vsock_has_a_default_port() {
    assert_eq!(DEFAULT_PORT, 5100);
    match startup(&args(&["x"]), true) {
        Startup::Vsock { port, log_level } => {
            assert_eq!(port, 5100);
            assert_eq!(log_level, "info");
        }
        _ => panic!("not vsock"),
    }
    match startup(&args(&["x", "--port", "6000", "--log-level", "debug"]), true) {
        Startup::Vsock { port, log_level } => {
            assert_eq!(port, 6000);
            assert_eq!(log_level, "debug");
        }
        _ => panic!("not vsock"),
    }
}

#[test]
fn bad_ports_and_missing_vsock_are_told_apart() {
    match startup(&args(&["x", "--port", "70000000000"]), true) {
        Startup::BadPort { text, log_level } => {
            assert_eq!(text, "70000000000");
            assert_eq!(log_level, "info");
        }
        _ => panic!("not refused"),
    }
    match startup(&args(&["x", "--port", "1", "--log-level", "warn"]), false) {
        Startup::NoVsock { log_level } => assert_eq!(log_level, "warn"),
        _ => panic!("not refused"),
    }
}

struct Fake(Option<ErrorKind>);

impl Listener for Fake {
    type Conn = VsockPeer;

    fn accept(&self) -> Result<VsockPeer, Failure> {
        match self.0 {
            None => Ok(VsockPeer { cid: 3 }),
            Some(kind) => Err(Failure::new(kind, "accepting")),
        }
    }
}

/// Runs the accept loop on a listener and flags; gives the labels served, the failures told and
/// how often it accepted.
fn run(listener: &Fake, flags: &[bool]) -> (Vec<String>, Vec<String>, usize) {
    let (mut labels, mut failures, mut accepts) = (Vec::new(), Vec::new(), 0);
    let mut flags = flags.iter();
    let (mut server, mut round) = serve::<VsockPeer>();
    loop {
        let tidings = match round {
            Round::Stop => break,
            Round::Accept => {
                accepts += 1;
                Tidings::Accepted(listener.accept())
            }
            Round::Check => Tidings::Running(*flags.next().unwrap()),
            Round::Serve { conn, label } => {
                assert_eq!(conn.cid, 3);
                labels.push(label);
                Tidings::Running(*flags.next().unwrap())
            }
            Round::Report(e) => {
                failures.push(e.text);
                Tidings::Running(*flags.next().unwrap())
            }
        };
        assert!(server.expects(&tidings));
        (server, round) = server.step(tidings);
    }
    assert_eq!(server, Server::Stopped);
    assert!(!server.expects(&Tidings::<VsockPeer>::Running(true)));
    assert_eq!(flags.next(), None);
    (labels, failures, accepts)
}

#[test]
fn accept_loop_stops_only_when_told() {
    assert_eq!(run(&Fake(None), &[false]), (vec![], vec![], 0));
    let labels = vec!["CID 3".to_string(), "CID 3".to_string()];
    assert_eq!(run(&Fake(None), &[true, true, false]), (labels, vec![], 2));
    let interrupted = Fake(Some(ErrorKind::Interrupted));
    assert_eq!(run(&interrupted, &[true, true, true, false]), (vec![], vec![], 3));
    let failures = vec!["accepting".to_string(), "accepting".to_string()];
    let broken = Fake(Some(ErrorKind::Other));
    assert_eq!(run(&broken, &[true, true, false]), (vec![], failures, 2));
}

#[test]
fn accept_loop_waits_for_what_it_asked_for() {
    let (server, round) = serve::<VsockPeer>();
    assert!(matches!(round, Round::Check));
    assert!(!server.expects(&Tidings::Accepted(Ok(VsockPeer { cid: 1 }))));
    let (server, round) = server.step(Tidings::<VsockPeer>::Running(true));
    assert!(matches!(round, Round::Accept));
    assert!(!server.expects(&Tidings::<VsockPeer>::Running(true)));
    assert!(server.try_step(Tidings::<VsockPeer>::Running(true)).is_none());
    assert!(matches!(
        server.try_step(Tidings::Accepted(Ok(VsockPeer { cid: 1 }))),
        Some((Server::Checking, Round::Serve { .. }))
    ));
    assert!(server.expects(&Tidings::Accepted(Ok(VsockPeer { cid: 1 }))));
}

#[test]
fn peers_have_labels() {
    assert_eq!(VsockPeer { cid: u32::MAX }.peer_label(), "CID 4294967295");
    assert_eq!(TcpPeer { addr: None }.peer_label(), "unknown");
    let peer = TcpPeer { addr: Some("127.0.0.1:4000".into()) };
    match after_accept(Ok(peer)) {
        Round::Serve { label, .. } => assert_eq!(label, "127.0.0.1:4000"),
        _ => panic!("not served"),
    }
}
