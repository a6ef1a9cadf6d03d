//! TLV framing.
//!
//! A frame is a type byte, the length of the payload as a little-endian `u32`, and the payload, of
//! one mebibyte at most.

use crate::failure::{ErrorKind, Failure, FailureView};
use crate::proto;
use crate::proto::Message;
use crate::text;
use crate::text::{push_decimal, push_hex_byte};
use vstd::prelude::*;
use vstd::slice::{slice_subrange, slice_to_vec};

verus! {

/// The largest payload of a frame.
pub const MAX_PAYLOAD: u32 = 1_048_576;

/// The bytes before the payload: the type and the length.
pub const HEADER_SIZE: usize = 5;

// From the host to the guest.

/// Start a process.
pub const EXEC_REQUEST: u8 = 0x01;

/// Bytes for the standard input of the process.
pub const STDIN_DATA: u8 = 0x02;

/// The standard input of the process ends.
pub const STDIN_EOF: u8 = 0x03;

/// The terminal has a new size.
pub const WINDOW_RESIZE: u8 = 0x04;

/// Send a signal to the process.
pub const SIGNAL: u8 = 0x05;

// From the guest to the host.

/// The process started.
pub const EXEC_STARTED: u8 = 0x10;

/// Bytes from the standard output of the process.
pub const STDOUT_DATA: u8 = 0x11;

/// Bytes from the standard error of the process.
pub const STDERR_DATA: u8 = 0x12;

/// The process ended.
pub const EXIT_STATUS: u8 = 0x13;

/// The process could not be started.
pub const EXEC_ERROR: u8 = 0x14;

/// `n` as four bytes, low ones first.
pub open spec fn le32(n: nat) -> Seq<u8> {
    seq![
        (n % 256) as u8,
        (n / 256 % 256) as u8,
        (n / 65536 % 256) as u8,
        (n / 16777216 % 256) as u8,
    ]
}

/// The number that four bytes stand for, low ones first.
pub open spec fn from_le32(b: Seq<u8>) -> nat {
    (b[0] + 256 * b[1] + 65536 * b[2] + 16777216 * b[3]) as nat
}

/// The bytes of a frame.
pub open spec fn frame(type_byte: u8, payload: Seq<u8>) -> Seq<u8> {
    seq![type_byte] + le32(payload.len()) + payload
}

/// The text about a size over the limit.
pub open spec fn over_limit_text(what: Seq<char>, size: nat) -> Seq<char> {
    what + " too large: "@ + text::decimal(size) + " > "@ + text::decimal(MAX_PAYLOAD as nat)
}

/// Why a payload of `size` bytes is not written.
pub open spec fn payload_too_large(size: nat) -> FailureView {
    FailureView { kind: ErrorKind::InvalidInput, text: over_limit_text("payload"@, size) }
}

/// Why a frame that announces `size` bytes is not read.
pub open spec fn frame_too_large(size: nat) -> FailureView {
    FailureView { kind: ErrorKind::InvalidData, text: over_limit_text("frame"@, size) }
}

/// Why no frame is read where the bytes end before the header does.
pub open spec fn connection_closed() -> FailureView {
    FailureView { kind: ErrorKind::UnexpectedEof, text: "connection closed"@ }
}

/// Why no frame is read where the bytes end before the payload does.
pub open spec fn payload_cut_short() -> FailureView {
    FailureView { kind: ErrorKind::UnexpectedEof, text: "failed to fill whole buffer"@ }
}

/// Why a frame of type `got` is no message of type `expected`.
pub open spec fn wrong_type(expected: u8, got: u8) -> FailureView {
    FailureView {
        kind: ErrorKind::InvalidData,
        text: "expected type 0x"@ + text::hex_byte(expected) + ", got 0x"@ + text::hex_byte(got),
    }
}

/// What a header says: the type and the length of the payload.
pub open spec fn header_of(hdr: Seq<u8>) -> Result<(u8, nat), FailureView> {
    let size = from_le32(hdr.skip(1));
    if size > MAX_PAYLOAD {
        Err(frame_too_large(size))
    } else {
        Ok((hdr[0], size))
    }
}

/// The frame at the front of `b`, and the bytes behind what was read of it.
pub open spec fn frame_at(b: Seq<u8>) -> (Result<(u8, Seq<u8>), FailureView>, Seq<u8>) {
    if b.len() < HEADER_SIZE {
        (Err(connection_closed()), seq![])
    } else {
        let rest = b.skip(HEADER_SIZE as int);
        match header_of(b.take(HEADER_SIZE as int)) {
            Err(e) => (Err(e), rest),
            Ok((type_byte, size)) => if rest.len() < size {
                (Err(payload_cut_short()), seq![])
            } else {
                (Ok((type_byte, rest.take(size as int))), rest.skip(size as int))
            },
        }
    }
}

fn over_limit(kind: ErrorKind, what: &str, size: u64) -> (r: Failure)
    ensures
        r@ == (FailureView { kind, text: over_limit_text(what@, size as nat) }),
{
    let mut s = what.to_owned();
    s.append(" too large: ");
    push_decimal(&mut s, size);
    s.append(" > ");
    push_decimal(&mut s, MAX_PAYLOAD as u64);
    Failure { kind, text: s }
}

/// Appends a frame to `w`, or leaves `w` as it is where the payload is too large.
pub fn write_frame(w: &mut Vec<u8>, type_byte: u8, payload: &[u8]) -> (r: Result<(), Failure>)
    ensures
        match r {
            Ok(()) => payload@.len() <= MAX_PAYLOAD && final(w)@ == old(w)@ + frame(
                type_byte,
                payload@,
            ),
            Err(e) => payload@.len() > MAX_PAYLOAD && e@ == payload_too_large(payload@.len())
                && final(w)@ == old(w)@,
        },
{
    let len = payload.len();
    if len > MAX_PAYLOAD as usize {
        return Err(over_limit(ErrorKind::InvalidInput, "payload", len as u64));
    }
    let n = len as u32;
    w.push(type_byte);
    w.push((n % 256) as u8);
    w.push((n / 256 % 256) as u8);
    w.push((n / 65536 % 256) as u8);
    w.push((n / 16777216 % 256) as u8);
    w.extend_from_slice(payload);
    assert(w@ =~= old(w)@ + frame(type_byte, payload@));
    Ok(())
}

/// Reads a header: the type and the length of the payload that follows.
pub fn parse_header(hdr: &[u8]) -> (r: Result<(u8, u32), Failure>)
    requires
        hdr@.len() == HEADER_SIZE,
    ensures
        match r {
            Ok((type_byte, len)) => header_of(hdr@) == Ok::<(u8, nat), FailureView>(
                (type_byte, len as nat),
            ),
            Err(e) => header_of(hdr@) == Err::<(u8, nat), FailureView>(e@),
        },
{
    let size: u64 = hdr[1] as u64 + 256 * hdr[2] as u64 + 65536 * hdr[3] as u64 + 16777216
        * hdr[4] as u64;
    assert(size == from_le32(hdr@.skip(1)));
    if size > MAX_PAYLOAD as u64 {
        return Err(over_limit(ErrorKind::InvalidData, "frame", size));
    }
    Ok((hdr[0], size as u32))
}

/// What reading a frame fails with where reading its header failed with `e`.
pub fn header_failure(e: Failure) -> (r: Failure)
    ensures
        r@ == if e@.kind == ErrorKind::UnexpectedEof {
            connection_closed()
        } else {
            e@
        },
{
    if e.kind == ErrorKind::UnexpectedEof {
        Failure::new(ErrorKind::UnexpectedEof, "connection closed")
    } else {
        e
    }
}

/// Reads a frame off the front of `r`: its type and its payload.
pub fn read_frame(r: &mut &[u8]) -> (res: Result<(u8, Vec<u8>), Failure>)
    ensures
        final(r)@ == frame_at(old(r)@).1,
        match res {
            Ok((type_byte, payload)) => frame_at(old(r)@).0 == Ok::<(u8, Seq<u8>), FailureView>(
                (type_byte, payload@),
            ),
            Err(e) => frame_at(old(r)@).0 == Err::<(u8, Seq<u8>), FailureView>(e@),
        },
{
    let b = *r;
    if b.len() < HEADER_SIZE {
        *r = slice_subrange(b, b.len(), b.len());
        assert(r@ =~= seq![]);
        let e = Failure::new(ErrorKind::UnexpectedEof, "failed to fill whole buffer");
        return Err(header_failure(e));
    }
    let rest = slice_subrange(b, HEADER_SIZE, b.len());
    assert(rest@ =~= b@.skip(HEADER_SIZE as int));
    assert(b@.subrange(0, HEADER_SIZE as int) =~= b@.take(HEADER_SIZE as int));
    match parse_header(slice_subrange(b, 0, HEADER_SIZE)) {
        Err(e) => {
            *r = rest;
            Err(e)
        },
        Ok((type_byte, len)) => {
            let len = len as usize;
            if rest.len() < len {
                *r = slice_subrange(b, b.len(), b.len());
                assert(r@ =~= seq![]);
                return Err(Failure::new(ErrorKind::UnexpectedEof, "failed to fill whole buffer"));
            }
            let payload = slice_to_vec(slice_subrange(rest, 0, len));
            *r = slice_subrange(rest, len, rest.len());
            assert(payload@ =~= rest@.take(len as int));
            assert(r@ =~= rest@.skip(len as int));
            Ok((type_byte, payload))
        },
    }
}

/// Appends a frame with a message as its payload, from which it can be read back.
pub fn write_proto<M: Message>(w: &mut Vec<u8>, type_byte: u8, msg: &M) -> (r: Result<(), Failure>)
    ensures
        proto::decoding::<M>(M::encoding(msg@)) == Some(msg@),
        match r {
            Ok(()) => M::encoding(msg@).len() <= MAX_PAYLOAD && final(w)@ == old(w)@ + frame(
                type_byte,
                M::encoding(msg@),
            ),
            Err(e) => M::encoding(msg@).len() > MAX_PAYLOAD && e@ == payload_too_large(
                M::encoding(msg@).len(),
            ) && final(w)@ == old(w)@,
        },
{
    let payload = msg.encode_to_vec();
    write_frame(w, type_byte, payload.as_slice())
}

/// Reads a frame of type `expected_type` off the front of `r` and the message in it.
pub fn read_proto<M: Message>(r: &mut &[u8], expected_type: u8) -> (res: Result<M, Failure>)
    ensures
        final(r)@ == frame_at(old(r)@).1,
        match frame_at(old(r)@).0 {
            Err(e) => res matches Err(f) && f@ == e,
            Ok((type_byte, payload)) => if type_byte != expected_type {
                res matches Err(f) && f@ == wrong_type(expected_type, type_byte)
            } else {
                match proto::decoding::<M>(payload) {
                    Some(m) => res matches Ok(x) && x@ == m && M::valid(m),
                    None => res matches Err(f) && f@ == proto::undecodable::<M>(payload),
                }
            },
        },
{
    match read_frame(r) {
        Err(e) => Err(e),
        Ok((type_byte, payload)) => {
            if type_byte != expected_type {
                let mut s = "expected type 0x".to_owned();
                push_hex_byte(&mut s, expected_type);
                s.append(", got 0x");
                push_hex_byte(&mut s, type_byte);
                return Err(Failure { kind: ErrorKind::InvalidData, text: s });
            }
            M::decode(payload.as_slice())
        },
    }
}

// ---- Laws ----

/// Four bytes give back the number that they were made from.
pub proof fn lemma_le32(n: nat)
    requires
        n <= u32::MAX,
    ensures
        from_le32(le32(n)) == n,
{
    let v = n as u32;
    assert(v == (v % 256) + 256 * (v / 256 % 256) + 65536 * (v / 65536 % 256) + 16777216 * (v
        / 16777216 % 256)) by (bit_vector);
}

/// Reading gives back the frame that was written, and stops right behind it, whatever follows.
pub proof fn lemma_frame_round_trip(type_byte: u8, payload: Seq<u8>, tail: Seq<u8>)
    requires
        payload.len() <= MAX_PAYLOAD,
    ensures
        frame_at(frame(type_byte, payload) + tail) == (
            Ok::<(u8, Seq<u8>), FailureView>((type_byte, payload)),
            tail,
        ),
{
    let b = frame(type_byte, payload) + tail;
    let hdr = b.take(HEADER_SIZE as int);
    assert(hdr.skip(1) =~= le32(payload.len()));
    lemma_le32(payload.len());
    let rest = b.skip(HEADER_SIZE as int);
    assert(rest =~= payload + tail);
    assert(rest.take(payload.len() as int) =~= payload);
    assert(rest.skip(payload.len() as int) =~= tail);
}

/// A frame is its type, the length of its payload with the low byte first, and its payload.
pub proof fn lemma_frame_layout(type_byte: u8, payload: Seq<u8>)
    requires
        payload.len() <= u32::MAX,
    ensures
        ({
            let b = frame(type_byte, payload);
            &&& b.len() == 5 + payload.len()
            &&& b[0] == type_byte
            &&& b[1] + 256 * b[2] + 65536 * b[3] + 16777216 * b[4] == payload.len()
            &&& forall|i: int| 0 <= i < payload.len() ==> b[5 + i] == #[trigger] payload[i]
        }),
{
    lemma_le32(payload.len());
    let b = frame(type_byte, payload);
    let l = le32(payload.len());
    assert(b[1] == l[0] && b[2] == l[1] && b[3] == l[2] && b[4] == l[3]);
}

/// A header is accepted exactly where the length in it is no more than a mebibyte; then it gives
/// its type and that length.
pub proof fn lemma_header(hdr: Seq<u8>)
    requires
        hdr.len() == 5,
    ensures
        ({
            let size = (hdr[1] + 256 * hdr[2] + 65536 * hdr[3] + 16777216 * hdr[4]) as nat;
            &&& size <= 1_048_576 ==> header_of(hdr) == Ok::<(u8, nat), FailureView>((hdr[0], size))
            &&& size > 1_048_576 ==> header_of(hdr) == Err::<(u8, nat), FailureView>(
                FailureView {
                    kind: ErrorKind::InvalidData,
                    text: "frame"@ + " too large: "@ + text::decimal(size) + " > "@
                        + text::decimal(1_048_576),
                },
            )
        }),
{
    assert(hdr.skip(1)[0] == hdr[1] && hdr.skip(1)[1] == hdr[2] && hdr.skip(1)[2] == hdr[3]
        && hdr.skip(1)[3] == hdr[4]);
}

/// Too few bytes for a header, or for the payload that it announces, give no frame, and nothing is
/// left of them. Bytes whose header is refused lose the header.
pub proof fn lemma_no_frame(b: Seq<u8>)
    ensures
        b.len() < 5 ==> frame_at(b) == (
            Err::<(u8, Seq<u8>), FailureView>(
                FailureView { kind: ErrorKind::UnexpectedEof, text: "connection closed"@ },
            ),
            Seq::<u8>::empty(),
        ),
        b.len() >= 5 ==> match header_of(b.take(5)) {
            Err(e) => frame_at(b) == (Err::<(u8, Seq<u8>), FailureView>(e), b.skip(5)),
            Ok((_, size)) => b.len() < 5 + size ==> frame_at(b) == (
                Err::<(u8, Seq<u8>), FailureView>(
                    FailureView {
                        kind: ErrorKind::UnexpectedEof,
                        text: "failed to fill whole buffer"@,
                    },
                ),
                Seq::<u8>::empty(),
            ),
        },
{
}

/// Bytes that give a frame start with that frame, and what is left is what is behind it.
pub proof fn lemma_frame_is_there(b: Seq<u8>)
    requires
        frame_at(b).0 is Ok,
    ensures
        ({
            let (type_byte, payload) = frame_at(b).0->Ok_0;
            &&& payload.len() <= 1_048_576
            &&& b == frame(type_byte, payload) + frame_at(b).1
        }),
{
    let (type_byte, payload) = frame_at(b).0->Ok_0;
    let hdr = b.take(5);
    lemma_header(hdr);
    lemma_frame_layout(type_byte, payload);
    let f = frame(type_byte, payload);
    let (b1, b2, b3, b4) = (b[1], b[2], b[3], b[4]);
    let (f1, f2, f3, f4) = (f[1], f[2], f[3], f[4]);
    assert(b1 + 256 * b2 + 65536 * b3 + 16777216 * b4 == f1 + 256 * f2 + 65536 * f3 + 16777216
        * f4);
    assert(b1 == f1 && b2 == f2 && b3 == f3 && b4 == f4);
    assert(b =~= f + frame_at(b).1);
}

/// A payload that is too large is refused with its size, and a frame of another type with both
/// types.
pub proof fn lemma_refusals(size: nat, expected: u8, got: u8)
    ensures
        payload_too_large(size) == (FailureView {
            kind: ErrorKind::InvalidInput,
            text: "payload"@ + " too large: "@ + text::decimal(size) + " > "@ + text::decimal(
                1_048_576,
            ),
        }),
        wrong_type(expected, got) == (FailureView {
            kind: ErrorKind::InvalidData,
            text: "expected type 0x"@ + text::hex_byte(expected) + ", got 0x"@ + text::hex_byte(
                got,
            ),
        }),
{
}

/// Frames one behind the other.
pub open spec fn frames(fs: Seq<(u8, Seq<u8>)>) -> Seq<u8>
    decreases fs.len(),
{
    if fs.len() == 0 {
        seq![]
    } else {
        frame(fs[0].0, fs[0].1) + frames(fs.drop_first())
    }
}

/// What is left of `b` behind `n` frames, and these frames; `None` where one cannot be read.
pub open spec fn read_frames(b: Seq<u8>, n: nat) -> Option<(Seq<(u8, Seq<u8>)>, Seq<u8>)>
    decreases n,
{
    if n == 0 {
        Some((seq![], b))
    } else {
        match frame_at(b) {
            (Ok(f), rest) => match read_frames(rest, (n - 1) as nat) {
                Some((fs, rest2)) => Some((seq![f] + fs, rest2)),
                None => None,
            },
            (Err(_), _) => None,
        }
    }
}

proof fn lemma_regroup(a: Seq<u8>, b: Seq<u8>, c: Seq<u8>)
    ensures
        a + b + c == a + (b + c),
{
    assert(a + b + c =~= a + (b + c));
}

/// A stream of frames is read back frame by frame, in order.
pub proof fn lemma_frames_round_trip(fs: Seq<(u8, Seq<u8>)>, tail: Seq<u8>)
    requires
        forall|i: int| 0 <= i < fs.len() ==> (#[trigger] fs[i]).1.len() <= MAX_PAYLOAD,
    ensures
        read_frames(frames(fs) + tail, fs.len()) == Some((fs, tail)),
    decreases fs.len(),
{
    if fs.len() == 0 {
        assert(frames(fs) + tail =~= tail);
        assert(fs =~= seq![]);
    } else {
        let rest = fs.drop_first();
        assert forall|i: int| 0 <= i < rest.len() implies (#[trigger] rest[i]).1.len()
            <= MAX_PAYLOAD by {
            assert(rest[i] == fs[i + 1]);
        }
        lemma_regroup(frame(fs[0].0, fs[0].1), frames(rest), tail);
        lemma_frame_round_trip(fs[0].0, fs[0].1, frames(rest) + tail);
        lemma_frames_round_trip(rest, tail);
        assert(seq![fs[0]] + rest =~= fs);
    }
}

/// A message that was written as a frame is read back from it.
pub proof fn lemma_proto_round_trip<M: Message>(type_byte: u8, m: M::V, tail: Seq<u8>)
    requires
        M::valid(m),
        M::encoding(m).len() <= MAX_PAYLOAD,
    ensures
        frame_at(frame(type_byte, M::encoding(m)) + tail) == (
            Ok::<(u8, Seq<u8>), FailureView>((type_byte, M::encoding(m))),
            tail,
        ),
        proto::decoding::<M>(M::encoding(m)) == Some(m),
{
    lemma_frame_round_trip(type_byte, M::encoding(m), tail);
    M::lemma_round_trip(m);
}

/// Whether `t` is the type of a frame from the host.
pub open spec fn from_host(t: u8) -> bool {
    t == EXEC_REQUEST || t == STDIN_DATA || t == STDIN_EOF || t == WINDOW_RESIZE || t == SIGNAL
}

/// Whether `t` is the type of a frame from the guest.
pub open spec fn from_guest(t: u8) -> bool {
    t == EXEC_STARTED || t == STDOUT_DATA || t == STDERR_DATA || t == EXIT_STATUS || t
        == EXEC_ERROR
}

/// The host's types are between 0x01 and 0x0f, the guest's between 0x10 and 0x1f.
pub proof fn lemma_type_ranges(t: u8)
    ensures
        from_host(t) ==> 0x01 <= t <= 0x0f,
        from_guest(t) ==> 0x10 <= t <= 0x1f,
        !(from_host(t) && from_guest(t)),
{
}

} // verus!
