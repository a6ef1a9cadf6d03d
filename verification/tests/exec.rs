use bentos_execd::env::Env;
use bentos_execd::exec::{
    exec_non_tty, exec_tty, require_command, send_signal, setup_env, wait_child, window_size, FdOp,
    Pipes, WaitOutcome, NOT_RUN,
};
use bentos_execd::failure::ErrorKind;
use bentos_execd::proto::ExecRequest;

const PIPES: Pipes = Pipes {
    stdin_r: 3,
    stdin_w: 4,
    stdout_r: 5,
    stdout_w: 6,
    stderr_r: 7,
    stderr_w: 8,
};

fn make_req(cmd: &[&str]) -> ExecRequest {
    ExecRequest {
        cmd: cmd.iter().map(|s| s.to_string()).collect(),
        env: Default::default(),
        cwd: String::new(),
        tty: false,
        rows: 0,
        cols: 0,
    }
}

fn value(env: &Env, name: &str) -> Option<String> {
    env.get(&name.to_string()).cloned()
}

fn apply(table: &mut Vec<(i32, &'static str)>, ops: &[FdOp]) {
    for op in ops {
        match *op {
            FdOp::Close(fd) => table.retain(|e| e.0 != fd),
            FdOp::Dup { from, to } => {
                let what = table.iter().find(|e| e.0 == from).map(|e| e.1);
                if let Some(what) = what {
                    table.retain(|e| e.0 != to);
                    table.push((to, what));
                }
            }
            FdOp::NewSession | FdOp::TakeTerminal(_) => {}
        }
    }
    table.sort();
}

#[test]
fn exec_nonexistent_command() {
    let launch = exec_non_tty(&make_req(&["nonexistent_binary_xyz"]), PIPES).unwrap();
    assert_eq!(launch.argv, [b"nonexistent_binary_xyz".to_vec()]);
    let status = wait_child(WaitOutcome::Exited(NOT_RUN)).unwrap();
    assert_eq!(status.code, 127, "nonexistent command should exit 127");
}

#[test]
fn signal_term() {
    assert!(exec_non_tty(&make_req(&["sleep", "60"]), PIPES).is_ok());
    let signal = send_signal(15).unwrap(); // SIGTERM
    let status = wait_child(WaitOutcome::Signaled(signal)).unwrap();
    assert_eq!(status.code, -1);
    assert_eq!(status.signal, 15);
}

#[test]
fn signal_kill() {
    assert!(exec_non_tty(&make_req(&["sleep", "60"]), PIPES).is_ok());
    let signal = send_signal(9).unwrap(); // SIGKILL
    let status = wait_child(WaitOutcome::Signaled(signal)).unwrap();
    assert_eq!(status.code, -1);
    assert_eq!(status.signal, 9);
}

#[test]
fn exit_code_true() {
    assert!(exec_non_tty(&make_req(&["true"]), PIPES).is_ok());
    let status = wait_child(WaitOutcome::Exited(0)).unwrap();
    assert_eq!(status.code, 0);
    assert_eq!(status.signal, 0);
}

#[test]
fn exit_code_false() {
    assert!(exec_non_tty(&make_req(&["false"]), PIPES).is_ok());
    let status = wait_child(WaitOutcome::Exited(1)).unwrap();
    assert_eq!(status.code, 1);
    assert_eq!(status.signal, 0);
}

#[test]
fn exit_code_42() {
    let launch = exec_non_tty(&make_req(&["sh", "-c", "exit 42"]), PIPES).unwrap();
    assert_eq!(launch.argv, [b"sh".to_vec(), b"-c".to_vec(), b"exit 42".to_vec()]);
    let status = wait_child(WaitOutcome::Exited(42)).unwrap();
    assert_eq!(status.code, 42);
    assert_eq!(status.signal, 0);
}

#[test]
fn every_signal_number_is_known() {
    for n in 1..=31 {
        assert_eq!(send_signal(n), Ok(n));
    }
    for n in [0, 32, -1, i32::MIN, i32::MAX] {
        let e = send_signal(n).unwrap_err();
        assert_eq!(e.kind, ErrorKind::InvalidInput);
        assert_eq!(e.text, format!("invalid signal number: {}", n));
    }
}

#[test]
fn odd_wait_outcomes_are_failures() {
    let e = wait_child(WaitOutcome::Unexpected("StillAlive".into())).unwrap_err();
    assert_eq!(e.kind, ErrorKind::Other);
    assert_eq!(e.text, "unexpected wait status: StillAlive");
    let cause = "ECHILD: No child processes".to_string();
    let e = wait_child(WaitOutcome::Failed(cause)).unwrap_err();
    assert_eq!(e.message(), "ECHILD: No child processes");
    assert_eq!(e.kind(), ErrorKind::Other);
}

#[test]
fn environment_has_defaults_under_the_request() {
    let plain = setup_env(&Env::new());
    assert_eq!(plain.len(), 3);
    assert_eq!(
        value(&plain, "PATH").unwrap(),
        "/usr/local/sbin:/usr/local/bin:/usr/sbin:/usr/bin:/sbin:/bin"
    );
    assert_eq!(value(&plain, "HOME").unwrap(), "/root");
    assert_eq!(value(&plain, "TERM").unwrap(), "xterm-256color");

    let mut asked = Env::new();
    asked.insert("HOME".into(), "/home/me".into());
    asked.insert("LANG".into(), "C".into());
    let env = setup_env(&asked);
    assert_eq!(env.len(), 4);
    assert_eq!(value(&env, "HOME").unwrap(), "/home/me");
    assert_eq!(value(&env, "LANG").unwrap(), "C");
    assert_eq!(value(&env, "TERM").unwrap(), "xterm-256color");
}

#[test]
fn empty_command_is_refused() {
    let e = require_command(&make_req(&[])).unwrap_err();
    assert_eq!(e.kind, ErrorKind::InvalidInput);
    assert_eq!(e.text, "empty command");
    assert!(require_command(&make_req(&["ls"])).is_ok());
    assert_eq!(exec_non_tty(&make_req(&[]), PIPES).err().unwrap().text, "empty command");
    assert_eq!(exec_tty(&make_req(&[]), 3, 4).err().unwrap().text, "empty command");
}

#[test]
fn zero_bytes_are_refused() {
    let e = exec_non_tty(&make_req(&["ls", "a\u{e9}\0b\0", "\0"]), PIPES).err().unwrap();
    assert_eq!(e.kind, ErrorKind::InvalidInput);
    assert_eq!(e.text, "nul byte found in provided data at position: 3");
    let e = exec_tty(&make_req(&["\0"]), 3, 4).err().unwrap();
    assert_eq!(e.text, "nul byte found in provided data at position: 0");
}

#[test]
fn launch_takes_over_the_request() {
    let mut req = make_req(&["caf\u{e9}", ""]);
    req.cwd = "/tmp".into();
    req.env.insert("A".into(), "b".into());
    let launch = exec_non_tty(&req, PIPES).unwrap();
    assert_eq!(launch.argv, ["caf\u{e9}".as_bytes().to_vec(), Vec::new()]);
    assert_eq!(launch.cwd.as_deref(), Some("/tmp"));
    assert_eq!(value(&launch.env, "A").unwrap(), "b");
    assert_eq!(launch.env.len(), 4);
    assert_eq!(exec_non_tty(&make_req(&["ls"]), PIPES).unwrap().cwd, None);
}

#[test]
fn child_on_pipes_holds_nothing_else_of_them() {
    let launch = exec_non_tty(&make_req(&["cat"]), PIPES).unwrap();
    let start = vec![
        (0, "tty"),
        (1, "tty"),
        (2, "log"),
        (3, "in-r"),
        (4, "in-w"),
        (5, "out-r"),
        (6, "out-w"),
        (7, "err-r"),
        (8, "err-w"),
        (9, "conn"),
    ];
    let mut child = start.clone();
    apply(&mut child, &launch.child);
    assert_eq!(child, [(0, "in-r"), (1, "out-w"), (2, "err-w"), (9, "conn")]);
    let mut parent = start;
    apply(&mut parent, &launch.parent);
    assert_eq!(
        parent,
        [(0, "tty"), (1, "tty"), (2, "log"), (4, "in-w"), (5, "out-r"), (7, "err-r"), (9, "conn")]
    );
}

#[test]
fn child_on_a_terminal_has_it_as_its_three_streams() {
    let launch = exec_tty(&make_req(&["/bin/sh"]), 3, 4).unwrap();
    let mut child = vec![(0, "a"), (1, "b"), (2, "c"), (3, "master"), (4, "slave"), (5, "conn")];
    apply(&mut child, &launch.child);
    assert_eq!(child, [(0, "slave"), (1, "slave"), (2, "slave"), (5, "conn")]);
    assert_eq!(launch.child[1], FdOp::NewSession);
    assert_eq!(launch.child[2], FdOp::TakeTerminal(4));
    assert_eq!(launch.parent, [FdOp::Close(4)]);
    let low = exec_tty(&make_req(&["/bin/sh"]), 3, 2).unwrap();
    assert_eq!(low.child.len(), 6);
    assert!(!low.child.contains(&FdOp::Close(2)));
}

#[test]
fn window_has_a_default_size() {
    let mut req = make_req(&["/bin/sh"]);
    assert_eq!(window_size(&req), (24, 80));
    req.rows = 48;
    req.cols = 65_536 + 7;
    assert_eq!(window_size(&req), (48, 7));
    req.rows = 65_536;
    assert_eq!(window_size(&req), (0, 7));
}
