use bentos_execd::env::Env;
use bentos_execd::failure::ErrorKind;
use bentos_execd::proto;
use bentos_execd::proto::Message;
use bentos_execd::wire::{
    parse_header, read_frame, read_proto, write_frame, write_proto, EXEC_ERROR, EXEC_REQUEST,
    EXEC_STARTED, EXIT_STATUS, HEADER_SIZE, MAX_PAYLOAD, SIGNAL, STDERR_DATA, STDIN_DATA,
    STDIN_EOF, STDOUT_DATA, WINDOW_RESIZE,
};

#[test]
fn host_to_guest_constants() {
    assert_eq!(EXEC_REQUEST, 0x01);
    assert_eq!(STDIN_DATA, 0x02);
    assert_eq!(STDIN_EOF, 0x03);
    assert_eq!(WINDOW_RESIZE, 0x04);
    assert_eq!(SIGNAL, 0x05);
}

#[test]
fn guest_to_host_constants() {
    assert_eq!(EXEC_STARTED, 0x10);
    assert_eq!(STDOUT_DATA, 0x11);
    assert_eq!(STDERR_DATA, 0x12);
    assert_eq!(EXIT_STATUS, 0x13);
    assert_eq!(EXEC_ERROR, 0x14);
}

#[test]
fn round_trip_exec_request_full() {
    let mut env = Env::new();
    env.insert("HOME".into(), "/root".into());
    env.insert("PATH".into(), "/usr/bin".into());
    let req = proto::ExecRequest {
        cmd: vec!["/bin/sh".into(), "-c".into(), "echo hello".into()],
        env,
        cwd: "/tmp".into(),
        tty: true,
        rows: 24,
        cols: 80,
    };
    let encoded = req.encode_to_vec();
    let decoded = proto::ExecRequest::decode(encoded.as_slice()).unwrap();
    assert_eq!(req, decoded);
}

#[test]
fn round_trip_exec_request_minimal() {
    let req = proto::ExecRequest {
        cmd: vec!["ls".into()],
        env: Default::default(),
        cwd: String::new(),
        tty: false,
        rows: 0,
        cols: 0,
    };
    let encoded = req.encode_to_vec();
    let decoded = proto::ExecRequest::decode(encoded.as_slice()).unwrap();
    assert_eq!(req, decoded);
}

#[test]
fn round_trip_exit_status_normal() {
    let status = proto::ExitStatus { code: 0, signal: 0 };
    let encoded = status.encode_to_vec();
    let decoded = proto::ExitStatus::decode(encoded.as_slice()).unwrap();
    assert_eq!(status, decoded);
}

#[test]
fn round_trip_exit_status_signal() {
    let status = proto::ExitStatus { code: -1, signal: 9 };
    let encoded = status.encode_to_vec();
    let decoded = proto::ExitStatus::decode(encoded.as_slice()).unwrap();
    assert_eq!(status, decoded);
}

#[test]
fn round_trip_exec_error() {
    let err = proto::ExecError {
        error: "command not found: foobar".into(),
    };
    let encoded = err.encode_to_vec();
    let decoded = proto::ExecError::decode(encoded.as_slice()).unwrap();
    assert_eq!(err, decoded);
}

#[test]
fn round_trip_window_resize() {
    let resize = proto::WindowResize { rows: 48, cols: 120 };
    let encoded = resize.encode_to_vec();
    let decoded = proto::WindowResize::decode(encoded.as_slice()).unwrap();
    assert_eq!(resize, decoded);
}

#[test]
fn round_trip_signal() {
    let sig = proto::Signal { signal: 15 };
    let encoded = sig.encode_to_vec();
    let decoded = proto::Signal::decode(encoded.as_slice()).unwrap();
    assert_eq!(sig, decoded);
}

#[test]
fn round_trip_exec_started() {
    let started = proto::ExecStarted { pid: 42 };
    let encoded = started.encode_to_vec();
    let decoded = proto::ExecStarted::decode(encoded.as_slice()).unwrap();
    assert_eq!(started, decoded);
}

#[test]
fn write_frame_basic() {
    let mut buf = Vec::new();
    write_frame(&mut buf, 0x01, b"hello").unwrap();
    // type(1) + len(4) + payload(5) = 10
    assert_eq!(buf.len(), 10);
    assert_eq!(buf[0], 0x01);
    assert_eq!(u32::from_le_bytes([buf[1], buf[2], buf[3], buf[4]]), 5);
    assert_eq!(&buf[5..], b"hello");
}

#[test]
fn write_frame_empty_payload() {
    let mut buf = Vec::new();
    write_frame(&mut buf, STDIN_EOF, &[]).unwrap();
    assert_eq!(buf.len(), 5);
    assert_eq!(buf[0], STDIN_EOF);
    assert_eq!(u32::from_le_bytes([buf[1], buf[2], buf[3], buf[4]]), 0);
}

#[test]
fn write_frame_reject_oversized() {
    let big = vec![0u8; MAX_PAYLOAD as usize + 1];
    let mut buf = Vec::new();
    let err = write_frame(&mut buf, 0x01, &big).unwrap_err();
    assert_eq!(err.kind(), ErrorKind::InvalidInput);
}

#[test]
fn read_frame_basic() {
    let mut buf = Vec::new();
    write_frame(&mut buf, STDOUT_DATA, b"world").unwrap();
    let mut cursor = buf.as_slice();
    let (t, payload) = read_frame(&mut cursor).unwrap();
    assert_eq!(t, STDOUT_DATA);
    assert_eq!(payload, b"world");
}

#[test]
fn read_frame_empty_payload() {
    let mut buf = Vec::new();
    write_frame(&mut buf, STDIN_EOF, &[]).unwrap();
    let mut cursor = buf.as_slice();
    let (t, payload) = read_frame(&mut cursor).unwrap();
    assert_eq!(t, STDIN_EOF);
    assert!(payload.is_empty());
}

#[test]
fn read_frame_reject_oversized_length() {
    // Craft a header with length > MAX_PAYLOAD
    let mut buf = vec![0x01];
    buf.extend_from_slice(&(MAX_PAYLOAD + 1).to_le_bytes());
    let mut cursor = buf.as_slice();
    let err = read_frame(&mut cursor).unwrap_err();
    assert_eq!(err.kind(), ErrorKind::InvalidData);
}

#[test]
fn read_frame_eof_on_empty() {
    let mut cursor: &[u8] = &[];
    let err = read_frame(&mut cursor).unwrap_err();
    assert_eq!(err.kind(), ErrorKind::UnexpectedEof);
}

#[test]
fn read_frame_partial_header() {
    let mut cursor: &[u8] = &[0x01, 0x00]; // only 2 of 5 header bytes
    let err = read_frame(&mut cursor).unwrap_err();
    assert_eq!(err.kind(), ErrorKind::UnexpectedEof);
}

#[test]
fn read_frame_max_payload() {
    let data = vec![0xAA; MAX_PAYLOAD as usize];
    let mut buf = Vec::new();
    write_frame(&mut buf, 0x01, &data).unwrap();
    let mut cursor = buf.as_slice();
    let (t, payload) = read_frame(&mut cursor).unwrap();
    assert_eq!(t, 0x01);
    assert_eq!(payload.len(), MAX_PAYLOAD as usize);
}

#[test]
fn write_read_proto_round_trip() {
    let req = proto::ExecRequest {
        cmd: vec!["echo".into(), "hi".into()],
        env: Default::default(),
        cwd: String::new(),
        tty: false,
        rows: 0,
        cols: 0,
    };
    let mut buf = Vec::new();
    write_proto(&mut buf, EXEC_REQUEST, &req).unwrap();
    let mut cursor = buf.as_slice();
    let decoded: proto::ExecRequest = read_proto(&mut cursor, EXEC_REQUEST).unwrap();
    assert_eq!(req, decoded);
}

#[test]
fn read_proto_type_mismatch() {
    let status = proto::ExitStatus { code: 0, signal: 0 };
    let mut buf = Vec::new();
    write_proto(&mut buf, EXIT_STATUS, &status).unwrap();
    let mut cursor = buf.as_slice();
    let err = read_proto::<proto::ExitStatus>(&mut cursor, EXEC_REQUEST).unwrap_err();
    assert_eq!(err.kind(), ErrorKind::InvalidData);
    assert!(err.message().contains("expected type"), "{}", err.message());
}

#[test]
fn raw_bytes_round_trip() {
    let data = b"some raw stdout data";
    let mut buf = Vec::new();
    write_frame(&mut buf, STDOUT_DATA, data).unwrap();
    let mut cursor = buf.as_slice();
    let (t, payload) = read_frame(&mut cursor).unwrap();
    assert_eq!(t, STDOUT_DATA);
    assert_eq!(payload, data);
}

#[test]
fn oversized_payload_is_named_and_nothing_is_written() {
    let big = vec![0u8; MAX_PAYLOAD as usize + 1];
    let mut buf = vec![7u8];
    let err = write_frame(&mut buf, 0x01, &big).unwrap_err();
    assert_eq!(err.message(), "payload too large: 1048577 > 1048576");
    assert_eq!(buf, vec![7u8]);
}

#[test]
fn oversized_header_is_named() {
    let mut hdr = vec![0x01];
    hdr.extend_from_slice(&u32::MAX.to_le_bytes());
    assert_eq!(hdr.len(), HEADER_SIZE);
    let err = parse_header(&hdr).unwrap_err();
    assert_eq!(err.kind(), ErrorKind::InvalidData);
    assert_eq!(err.message(), "frame too large: 4294967295 > 1048576");
    let mut cursor = hdr.as_slice();
    assert_eq!(read_frame(&mut cursor).unwrap_err(), err);
    assert!(cursor.is_empty());
}

#[test]
fn closed_and_cut_short_are_told_apart() {
    let mut empty: &[u8] = &[];
    assert_eq!(read_frame(&mut empty).unwrap_err().message(), "connection closed");
    let mut cut: &[u8] = &[0x02, 4, 0, 0, 0, 1, 2, 3];
    let err = read_frame(&mut cut).unwrap_err();
    assert_eq!(err.kind(), ErrorKind::UnexpectedEof);
    assert_eq!(err.message(), "failed to fill whole buffer");
    assert!(cut.is_empty());
}

#[test]
fn frame_bytes_are_exact() {
    let mut buf = Vec::new();
    write_frame(&mut buf, 0x11, &vec![9u8; 300]).unwrap();
    assert_eq!(&buf[..5], &[0x11, 0x2c, 0x01, 0x00, 0x00]);
    assert_eq!(parse_header(&buf[..5]).unwrap(), (0x11, 300));
}

#[test]
fn frames_are_read_back_in_order() {
    let mut buf = Vec::new();
    write_frame(&mut buf, STDOUT_DATA, b"one").unwrap();
    write_frame(&mut buf, STDERR_DATA, b"").unwrap();
    write_frame(&mut buf, STDOUT_DATA, b"three").unwrap();
    buf.push(0xff);
    let mut r = buf.as_slice();
    assert_eq!(read_frame(&mut r).unwrap(), (STDOUT_DATA, b"one".to_vec()));
    assert_eq!(read_frame(&mut r).unwrap(), (STDERR_DATA, vec![]));
    assert_eq!(read_frame(&mut r).unwrap(), (STDOUT_DATA, b"three".to_vec()));
    assert_eq!(r, &[0xff]);
}

#[test]
fn mismatch_text_is_exact() {
    let mut buf = Vec::new();
    write_frame(&mut buf, STDIN_DATA, b"x").unwrap();
    let mut r = buf.as_slice();
    let err = read_proto::<proto::Signal>(&mut r, 0xab).unwrap_err();
    assert_eq!(err.message(), "expected type 0xab, got 0x02");
}

#[test]
fn bidirectional_conversation() {
    let mut to_guest: Vec<u8> = Vec::new();
    let req = proto::ExecRequest {
        cmd: vec!["echo".into(), "hello".into()],
        env: Default::default(),
        cwd: String::new(),
        tty: false,
        rows: 0,
        cols: 0,
    };
    write_proto(&mut to_guest, EXEC_REQUEST, &req).unwrap();

    let mut guest = to_guest.as_slice();
    let req: proto::ExecRequest = read_proto(&mut guest, EXEC_REQUEST).unwrap();
    assert_eq!(req.cmd, vec!["echo", "hello"]);
    let mut to_host: Vec<u8> = Vec::new();
    write_proto(&mut to_host, EXEC_STARTED, &proto::ExecStarted { pid: 123 }).unwrap();
    write_frame(&mut to_host, STDOUT_DATA, b"hello\n").unwrap();
    write_proto(&mut to_host, EXIT_STATUS, &proto::ExitStatus { code: 0, signal: 0 }).unwrap();

    let mut host = to_host.as_slice();
    let started: proto::ExecStarted = read_proto(&mut host, EXEC_STARTED).unwrap();
    assert_eq!(started.pid, 123);
    let (t, payload) = read_frame(&mut host).unwrap();
    assert_eq!(t, STDOUT_DATA);
    assert_eq!(payload, b"hello\n");
    let status: proto::ExitStatus = read_proto(&mut host, EXIT_STATUS).unwrap();
    assert_eq!(status.code, 0);
    assert_eq!(status.signal, 0);
    assert!(host.is_empty());
}
