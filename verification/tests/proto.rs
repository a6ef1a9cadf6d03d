use bentos_execd::env::Env;
use bentos_execd::failure::{ErrorKind, Failure};
use bentos_execd::proto::{
    ExecError, ExecRequest, ExecStarted, ExitStatus, Message, Signal, WindowResize,
};
use bentos_execd::text::{push_decimal, push_hex_byte, push_signed_decimal};

fn request() -> ExecRequest {
    ExecRequest {
        cmd: Vec::new(),
        env: Env::new(),
        cwd: String::new(),
        tty: false,
        rows: 0,
        cols: 0,
    }
}

fn refused<M: Message>(bytes: &[u8]) -> Failure {
    match M::decode(bytes) {
        Ok(_) => panic!("decoded"),
        Err(e) => e,
    }
}

#[test]
fn defaults_take_no_bytes() {
    assert!(ExecStarted { pid: 0 }.encode_to_vec().is_empty());
    assert!(ExitStatus { code: 0, signal: 0 }.encode_to_vec().is_empty());
    assert!(WindowResize { rows: 0, cols: 0 }.encode_to_vec().is_empty());
    assert!(Signal { signal: 0 }.encode_to_vec().is_empty());
    assert!(ExecError { error: String::new() }.encode_to_vec().is_empty());
    assert!(request().encode_to_vec().is_empty());
    assert_eq!(ExecRequest::decode(&[]).unwrap(), request());
}

#[test]
fn bytes_of_messages_are_exact() {
    assert_eq!(ExecStarted { pid: 300 }.encode_to_vec(), [0x08, 0xac, 0x02]);
    assert_eq!(
        ExitStatus { code: -1, signal: 9 }.encode_to_vec(),
        [0x08, 0xff, 0xff, 0xff, 0xff, 0xff, 0xff, 0xff, 0xff, 0xff, 0x01, 0x10, 0x09]
    );
    assert_eq!(WindowResize { rows: 48, cols: 120 }.encode_to_vec(), [0x08, 48, 0x10, 120]);
    assert_eq!(Signal { signal: 15 }.encode_to_vec(), [0x08, 15]);
    assert_eq!(ExecError { error: "no".into() }.encode_to_vec(), [0x0a, 2, b'n', b'o']);
}

#[test]
fn bytes_of_a_request_are_exact() {
    let mut req = request();
    req.cmd = vec!["ls".into(), String::new()];
    req.env.insert("A".into(), "b".into());
    req.env.insert("E".into(), String::new());
    req.cwd = "/".into();
    req.tty = true;
    req.rows = 24;
    req.cols = 80;
    let bytes = [
        0x0a, 2, b'l', b's', 0x0a, 0, 0x12, 6, 0x0a, 1, b'A', 0x12, 1, b'b', 0x12, 3, 0x0a, 1,
        b'E', 0x1a, 1, b'/', 0x20, 1, 0x28, 24, 0x30, 80,
    ];
    assert_eq!(req.encode_to_vec(), bytes);
    assert_eq!(ExecRequest::decode(&bytes).unwrap(), req);
}

#[test]
fn single_fields_are_as_prost_has_them() {
    assert_eq!(prost::Message::encode_to_vec(&300u32), ExecStarted { pid: 300 }.encode_to_vec());
    assert_eq!(prost::Message::encode_to_vec(&-7i32), Signal { signal: -7 }.encode_to_vec());
    let text = String::from("caf\u{e9}");
    let error = ExecError { error: text.clone() };
    assert_eq!(prost::Message::encode_to_vec(&text), error.encode_to_vec());
}

#[test]
fn later_fields_win_and_repeated_ones_add_up() {
    let started = ExecStarted::decode(&[0x08, 1, 0x08, 2]).unwrap();
    assert_eq!(started.pid, 2);
    let req = ExecRequest::decode(&[
        0x12, 6, 0x0a, 1, b'A', 0x12, 1, b'x', 0x0a, 1, b'p', 0x12, 6, 0x0a, 1, b'A', 0x12, 1,
        b'y', 0x0a, 1, b'q',
    ])
    .unwrap();
    assert_eq!(req.cmd, ["p", "q"]);
    assert_eq!(req.env.len(), 1);
    assert_eq!(req.env.get(&"A".to_string()), Some(&"y".to_string()));
}

#[test]
fn unknown_fields_are_passed_over() {
    let bytes = [
        0x38, 0x96, 0x01, // field 7, varint
        0x41, 1, 2, 3, 4, 5, 6, 7, 8, // field 8, eight bytes
        0x4a, 2, 0xff, 0xff, // field 9, two bytes
        0x55, 1, 2, 3, 4, // field 10, four bytes
        0x5b, 0x08, 1, 0x5c, // field 11, a group
        0x08, 5,
    ];
    assert_eq!(Signal::decode(&bytes).unwrap().signal, 5);
}

#[test]
fn numbers_keep_their_low_bits() {
    let wide = [0x08, 0x85, 0x80, 0x80, 0x80, 0x10];
    assert_eq!(ExecStarted::decode(&wide).unwrap().pid, 5);
    assert_eq!(Signal::decode(&wide).unwrap().signal, 5);
    let top = [0x08, 0x80, 0x80, 0x80, 0x80, 0x08];
    assert_eq!(Signal::decode(&top).unwrap().signal, i32::MIN);
    assert!(ExecRequest::decode(&[0x20, 2]).unwrap().tty);
}

#[test]
fn malformed_messages_are_refused() {
    assert_eq!(refused::<Signal>(&[0x08]).kind, ErrorKind::InvalidData);
    assert_eq!(refused::<Signal>(&[0x00, 1]).kind, ErrorKind::InvalidData);
    assert_eq!(refused::<Signal>(&[0x0e, 1]).kind, ErrorKind::InvalidData);
    assert_eq!(refused::<Signal>(&[0x0d, 1, 0, 0, 0]).kind, ErrorKind::InvalidData);
    assert_eq!(refused::<Signal>(&[0x5c]).kind, ErrorKind::InvalidData);
    assert_eq!(refused::<Signal>(&[0x5b, 0x64]).kind, ErrorKind::InvalidData);
    assert_eq!(refused::<ExecError>(&[0x0a, 1, 0xff]).kind, ErrorKind::InvalidData);
    assert_eq!(refused::<ExecError>(&[0x0a, 9, b'x']).kind, ErrorKind::InvalidData);
    assert_eq!(refused::<ExecRequest>(&[0x20, 0x80]).kind, ErrorKind::InvalidData);
    assert_eq!(refused::<ExecRequest>(&[0x12, 2, 0x0a, 1, b'A']).kind, ErrorKind::InvalidData);
    assert_eq!(refused::<WindowResize>(&[0x0a, 0]).kind, ErrorKind::InvalidData);
    assert_eq!(
        refused::<ExecStarted>(&[0x08, 255, 255, 255, 255, 255, 255, 255, 255, 255, 2]).kind,
        ErrorKind::InvalidData
    );
}

#[test]
fn groups_nest_to_a_limit() {
    let mut deep: Vec<u8> = Vec::new();
    for _ in 0..99 {
        deep.push(0x5b);
    }
    for _ in 0..99 {
        deep.push(0x5c);
    }
    assert_eq!(Signal::decode(&deep).unwrap().signal, 0);
    deep.insert(0, 0x5b);
    deep.push(0x5c);
    assert_eq!(Signal::decode(&deep).unwrap().signal, 0);
    deep.insert(0, 0x5b);
    deep.push(0x5c);
    assert_eq!(refused::<Signal>(&deep).kind, ErrorKind::InvalidData);
}

#[test]
fn messages_have_defaults_and_copies() {
    assert_eq!(ExecStarted::default(), ExecStarted { pid: 0 });
    assert_eq!(ExitStatus::default(), ExitStatus { code: 0, signal: 0 });
    assert_eq!(WindowResize::default(), WindowResize { rows: 0, cols: 0 });
    assert_eq!(Signal::default(), Signal { signal: 0 });
    assert_eq!(ExecError::default(), ExecError { error: String::new() });
    assert_eq!(ExecRequest::default(), request());
    let error = ExecError { error: "no".into() };
    assert_eq!(error.clone(), error);
    let mut req = request();
    req.cmd = vec!["ls".into(), "-l".into()];
    req.env.insert("A".into(), "b".into());
    req.env.insert("C".into(), "d".into());
    let copy = req.clone();
    assert_eq!(copy, req);
    req.env.insert("A".into(), "e".into());
    assert!(copy != req);
    assert_eq!(copy.env.entry(1).0, "C");
}

#[test]
fn refusals_are_as_prost_has_them() {
    for bytes in [[0x08, 0x80].to_vec(), [0x0e].to_vec(), [0x80].to_vec(), [0x5b].to_vec()] {
        let theirs = <u32 as prost::Message>::decode(bytes.as_slice()).unwrap_err();
        let ours = refused::<ExecStarted>(&bytes).text;
        assert_eq!(ours.replace("ExecStarted.pid: ", ""), theirs.to_string());
    }
    assert_eq!(
        refused::<ExecStarted>(&[0x08, 0x80]).text,
        "failed to decode Protobuf message: ExecStarted.pid: invalid varint"
    );
    assert_eq!(
        refused::<ExecRequest>(&[0x0a, 1, b'x', 0x12, 9]).text,
        "failed to decode Protobuf message: ExecRequest.env: buffer underflow"
    );
    assert_eq!(
        refused::<ExecRequest>(&[0x20, 0x80]).text,
        "failed to decode Protobuf message: ExecRequest.tty: invalid varint"
    );
    assert_eq!(
        refused::<Signal>(&[0x0a, 0]).text,
        "failed to decode Protobuf message: Signal.signal: invalid wire type: LengthDelimited \
         (expected Varint)"
    );
}

#[test]
fn refusals_say_why() {
    let text = |e: Failure| e.text.replace("failed to decode Protobuf message: ", "");
    assert_eq!(text(refused::<Signal>(&[0x80])), "invalid varint");
    assert_eq!(
        text(refused::<Signal>(&[0x80, 0x80, 0x80, 0x80, 0x10])),
        "invalid key value: 4294967296"
    );
    assert_eq!(text(refused::<Signal>(&[0x0e])), "invalid wire type value: 6");
    assert_eq!(text(refused::<Signal>(&[0x0f])), "invalid wire type value: 7");
    assert_eq!(text(refused::<Signal>(&[0x00])), "invalid tag value: 0");
    for (wire, name) in [
        (1, "SixtyFourBit"),
        (2, "LengthDelimited"),
        (3, "StartGroup"),
        (4, "EndGroup"),
        (5, "ThirtyTwoBit"),
    ] {
        assert_eq!(
            text(refused::<ExitStatus>(&[0x10 | wire])),
            format!("ExitStatus.signal: invalid wire type: {} (expected Varint)", name)
        );
    }
    assert_eq!(
        text(refused::<ExecError>(&[0x08])),
        "ExecError.error: invalid wire type: Varint (expected LengthDelimited)"
    );
    assert_eq!(text(refused::<ExecError>(&[0x0a])), "ExecError.error: invalid varint");
    assert_eq!(text(refused::<ExecError>(&[0x0a, 2, b'x'])), "ExecError.error: buffer underflow");
    assert_eq!(
        text(refused::<ExecError>(&[0x0a, 1, 0xff])),
        "ExecError.error: invalid string value: data is not UTF-8 encoded"
    );
    assert_eq!(
        text(refused::<ExecRequest>(&[0x25, 0, 0, 0, 0])),
        "ExecRequest.tty: invalid wire type: ThirtyTwoBit (expected Varint)"
    );
    assert_eq!(text(refused::<WindowResize>(&[0x10, 0xff])), "WindowResize.cols: invalid varint");
}

#[test]
fn refusals_name_the_field() {
    let text = refused::<ExecError>(&[0x0a, 1, 0xff]).text;
    assert!(text.contains("failed to decode Protobuf message"));
    assert!(text.contains("ExecError.error"));
    assert!(refused::<ExecRequest>(&[0x28]).text.contains("ExecRequest.rows"));
}

#[test]
fn environments_are_equal_as_maps() {
    let mut a = Env::new();
    let mut b = Env::default();
    assert!(a == b);
    a.insert("X".into(), "1".into());
    a.insert("Y".into(), "2".into());
    b.insert("Y".into(), "0".into());
    b.insert("X".into(), "1".into());
    assert!(a != b);
    b.insert("Y".into(), "2".into());
    assert!(a == b);
    assert_eq!(b.len(), 2);
    assert_eq!(b.entry(0).0, "Y");
    assert_eq!(b.entry(0).1, "2");
    assert_eq!(b.get(&"Z".to_string()), None);
}

#[test]
fn numbers_are_written_out() {
    let mut s = String::from("<");
    push_decimal(&mut s, 0);
    s.push('|');
    push_decimal(&mut s, u64::MAX);
    s.push('|');
    push_signed_decimal(&mut s, i32::MIN);
    s.push('|');
    push_signed_decimal(&mut s, 31);
    s.push('|');
    push_hex_byte(&mut s, 0xaf);
    push_hex_byte(&mut s, 0x02);
    assert_eq!(s, "<0|18446744073709551615|-2147483648|31|af02");
}
