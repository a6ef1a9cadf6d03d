//! The messages of the exec protocol and their protobuf form.

use crate::env;
use crate::env::{Entries, Env};
use crate::failure::{ErrorKind, Failure, FailureView};
use crate::protobuf;
use crate::protobuf::{
    decode_key, encode_bool, encode_entry, encode_int32, encode_string,
    encode_uint32, merge_bool, merge_entry, merge_int32, merge_string, merge_uint32,
    skip_field, LENGTH_DELIMITED, MAX_TAG, RECURSION_LIMIT, THIRTY_TWO_BIT, VARINT,
};
use vstd::prelude::*;
use vstd::utf8::*;

verus! {

/// The protobuf form of a type of message.
pub trait Schema: Sized + View {
    /// The message with every field at its default.
    spec fn empty() -> Self::V;

    /// What every message of this type that is ever built satisfies.
    spec fn valid(m: Self::V) -> bool;

    /// The bytes of a message: its fields in the order of their numbers, those at their default
    /// left out.
    spec fn encoding(m: Self::V) -> Seq<u8>;

    /// `m` with the field `tag` read off the front of `b`, and the bytes behind that.
    spec fn merged(m: Self::V, tag: u32, wire: u8, b: Seq<u8>) -> Option<(Self::V, Seq<u8>)>;

    /// The text about the field `tag` where it cannot be read off the front of `b`.
    spec fn refusal(tag: u32, wire: u8, b: Seq<u8>) -> Seq<char>;
}

/// `m` with all the fields in `b` read into it, one after the other.
pub open spec fn merged_all<M: Schema>(m: M::V, b: Seq<u8>) -> Option<M::V>
    decreases b.len(),
{
    if b.len() == 0 {
        Some(m)
    } else {
        match protobuf::read_key(b) {
            Some((tag, wire, rest)) => match M::merged(m, tag, wire, rest) {
                Some((m2, rest2)) => if rest2.len() < b.len() {
                    merged_all::<M>(m2, rest2)
                } else {
                    None
                },
                None => None,
            },
            None => None,
        }
    }
}

/// The text about the first thing in `b` that cannot be read.
pub open spec fn refused_all<M: Schema>(m: M::V, b: Seq<u8>) -> Seq<char>
    decreases b.len(),
{
    match protobuf::read_key(b) {
        Some((tag, wire, rest)) => match M::merged(m, tag, wire, rest) {
            Some((m2, rest2)) => if rest2.len() < b.len() {
                refused_all::<M>(m2, rest2)
            } else {
                seq![]
            },
            None => M::refusal(tag, wire, rest),
        },
        None => protobuf::key_refusal(b),
    }
}

/// Why `b` is no message.
pub open spec fn undecodable<M: Schema>(b: Seq<u8>) -> FailureView {
    FailureView { kind: ErrorKind::InvalidData, text: refused_all::<M>(M::empty(), b) }
}

/// The message that `b` stands for.
pub open spec fn decoding<M: Schema>(b: Seq<u8>) -> Option<M::V> {
    merged_all::<M>(M::empty(), b)
}

/// `m` unchanged, and what is left of `b` behind a field of unknown number.
pub open spec fn skipped<V>(m: V, tag: u32, wire: u8, b: Seq<u8>) -> Option<(V, Seq<u8>)> {
    match protobuf::skip_value(RECURSION_LIMIT as nat, wire, tag, b) {
        Some(rest) => Some((m, rest)),
        None => None,
    }
}

/// Reading a field that is at the front of the bytes.
proof fn lemma_merged_field<M: Schema>(
    m: M::V,
    m2: M::V,
    tag: u32,
    wire: u8,
    value: Seq<u8>,
    tail: Seq<u8>,
)
    requires
        1 <= tag <= MAX_TAG,
        wire <= THIRTY_TWO_BIT,
        M::merged(m, tag, wire, value + tail) == Some((m2, tail)),
    ensures
        merged_all::<M>(m, protobuf::key(tag, wire) + value + tail) == merged_all::<M>(m2, tail),
{
    let b = protobuf::key(tag, wire) + value + tail;
    assert(b =~= protobuf::key(tag, wire) + (value + tail));
    protobuf::lemma_read_key(tag, wire, value + tail);
    protobuf::lemma_read_key_shrinks(b);
}

/// Reading an `uint32` field that is left out where the value is zero.
proof fn lemma_merged_uint32<M: Schema>(m: M::V, m2: M::V, tag: u32, v: u32, tail: Seq<u8>)
    requires
        1 <= tag <= MAX_TAG,
        if v == 0 {
            m2 == m
        } else {
            M::merged(m, tag, VARINT, protobuf::varint(v as nat) + tail) == Some((m2, tail))
        },
    ensures
        merged_all::<M>(m, protobuf::optional_uint32_field(tag, v) + tail) == merged_all::<M>(
            m2,
            tail,
        ),
{
    if v == 0 {
        assert(protobuf::optional_uint32_field(tag, v) + tail =~= tail);
    } else {
        lemma_merged_field::<M>(m, m2, tag, VARINT, protobuf::varint(v as nat), tail);
    }
}

/// Reading an `int32` field that is left out where the value is zero.
proof fn lemma_merged_int32<M: Schema>(m: M::V, m2: M::V, tag: u32, v: i32, tail: Seq<u8>)
    requires
        1 <= tag <= MAX_TAG,
        if v == 0 {
            m2 == m
        } else {
            M::merged(m, tag, VARINT, protobuf::varint(protobuf::int32_bits(v)) + tail) == Some(
                (m2, tail),
            )
        },
    ensures
        merged_all::<M>(m, protobuf::optional_int32_field(tag, v) + tail) == merged_all::<M>(
            m2,
            tail,
        ),
{
    if v == 0 {
        assert(protobuf::optional_int32_field(tag, v) + tail =~= tail);
    } else {
        lemma_merged_field::<M>(
            m,
            m2,
            tag,
            VARINT,
            protobuf::varint(protobuf::int32_bits(v)),
            tail,
        );
    }
}

/// Reading a string field that is left out where the string is empty.
proof fn lemma_merged_string<M: Schema>(m: M::V, m2: M::V, tag: u32, v: Seq<char>, tail: Seq<u8>)
    requires
        1 <= tag <= MAX_TAG,
        if v.len() == 0 {
            m2 == m
        } else {
            M::merged(
                m,
                tag,
                LENGTH_DELIMITED,
                protobuf::delimited(encode_utf8(v)) + tail,
            ) == Some((m2, tail))
        },
    ensures
        merged_all::<M>(m, protobuf::optional_string_field(tag, v) + tail) == merged_all::<M>(
            m2,
            tail,
        ),
{
    if v.len() == 0 {
        assert(protobuf::optional_string_field(tag, v) + tail =~= tail);
    } else {
        lemma_merged_field::<M>(
            m,
            m2,
            tag,
            LENGTH_DELIMITED,
            protobuf::delimited(encode_utf8(v)),
            tail,
        );
    }
}

/// A message that can be written and read.
pub trait Message: Schema {
    /// Builds the message with every field at its default.
    fn new_empty() -> (r: Self)
        ensures
            r@ == Self::empty(),
            Self::valid(r@),
    ;

    /// Reads one field, whose key was read before.
    fn merge_field<'a>(self, tag: u32, wire: u8, buf: &'a [u8]) -> (r: Result<
        (Self, &'a [u8]),
        String,
    >)
        requires
            wire <= THIRTY_TWO_BIT,
        ensures
            match r {
                Ok((m, rest)) => {
                    &&& Self::merged(self@, tag, wire, buf@) == Some((m@, rest@))
                    &&& rest@.len() <= buf@.len()
                    &&& Self::valid(self@) ==> Self::valid(m@)
                },
                Err(text) => Self::merged(self@, tag, wire, buf@) is None && text@
                    == Self::refusal(tag, wire, buf@),
            },
    ;

    /// The bytes of the message, from which it can be read back.
    fn encode_to_vec(&self) -> (r: Vec<u8>)
        ensures
            r@ == Self::encoding(self@),
            Self::valid(self@),
            decoding::<Self>(r@) == Some(self@),
    ;

    /// Reading the bytes of a message gives the message back.
    proof fn lemma_round_trip(m: Self::V)
        requires
            Self::valid(m),
            Self::encoding(m).len() <= u64::MAX,
        ensures
            decoding::<Self>(Self::encoding(m)) == Some(m),
    ;

    /// Reads a message; all of `bytes` is used.
    fn decode(bytes: &[u8]) -> (r: Result<Self, Failure>)
        ensures
            match r {
                Ok(m) => decoding::<Self>(bytes@) == Some(m@) && Self::valid(m@),
                Err(e) => decoding::<Self>(bytes@) is None && e@ == undecodable::<Self>(bytes@),
            },
    {
        let mut message = Self::new_empty();
        let mut rest = bytes;
        while rest.len() > 0
            invariant
                decoding::<Self>(bytes@) == merged_all::<Self>(message@, rest@),
                decoding::<Self>(bytes@) is None ==> undecodable::<Self>(bytes@).text
                    == refused_all::<Self>(message@, rest@),
                Self::valid(message@),
            decreases rest@.len(),
        {
            proof {
                protobuf::lemma_read_key_shrinks(rest@);
            }
            match decode_key(rest) {
                Ok((tag, wire, behind_key)) => {
                    match message.merge_field(tag, wire, behind_key) {
                        Ok((m, behind_value)) => {
                            message = m;
                            rest = behind_value;
                        },
                        Err(text) => {
                            return Err(Failure { kind: ErrorKind::InvalidData, text });
                        },
                    }
                },
                Err(text) => {
                    return Err(Failure { kind: ErrorKind::InvalidData, text });
                },
            }
        }
        Ok(message)
    }
}

/// The process started; `pid` is its number.
#[derive(Clone, Copy, Debug, PartialEq, Eq, Structural)]
pub struct ExecStarted {
    pub pid: u32,
}

impl View for ExecStarted {
    type V = ExecStarted;

    open spec fn view(&self) -> ExecStarted {
        *self
    }
}

impl Schema for ExecStarted {
    open spec fn empty() -> ExecStarted {
        ExecStarted { pid: 0 }
    }

    open spec fn valid(m: ExecStarted) -> bool {
        true
    }

    open spec fn encoding(m: ExecStarted) -> Seq<u8> {
        protobuf::optional_uint32_field(1, m.pid)
    }

    open spec fn merged(m: ExecStarted, tag: u32, wire: u8, b: Seq<u8>) -> Option<(ExecStarted, Seq<u8>)> {
        if tag == 1 {
            match protobuf::read_uint32(wire, b) {
                Some((pid, rest)) => Some((ExecStarted { pid }, rest)),
                None => None,
            }
        } else {
            skipped(m, tag, wire, b)
        }
    }

    open spec fn refusal(tag: u32, wire: u8, b: Seq<u8>) -> Seq<char> {
        if tag == 1 {
            protobuf::varint_refusal(wire, "ExecStarted"@, "pid"@)
        } else {
            protobuf::skip_refusal(wire, tag, b)
        }
    }
}

impl Message for ExecStarted {
    fn new_empty() -> ExecStarted {
        ExecStarted { pid: 0 }
    }

    fn merge_field<'a>(self, tag: u32, wire: u8, buf: &'a [u8]) -> Result<
        (ExecStarted, &'a [u8]),
        String,
    > {
        proof {
            protobuf::lemma_read_varint_shrinks(buf@);
            protobuf::lemma_skip_value_shrinks(RECURSION_LIMIT as nat, wire, tag, buf@);
        }
        match tag {
            1 => match merge_uint32(wire, buf, "ExecStarted", "pid") {
                Ok((pid, rest)) => Ok((ExecStarted { pid }, rest)),
                Err(e) => Err(e),
            },
            _ => match skip_field(wire, tag, buf) {
                Ok(rest) => Ok((self, rest)),
                Err(e) => Err(e),
            },
        }
    }

    fn encode_to_vec(&self) -> Vec<u8> {
        let mut buf: Vec<u8> = Vec::new();
        if self.pid != 0 {
            encode_uint32(1, self.pid, &mut buf);
        }
        assert(buf@ =~= Self::encoding(self@));
        proof {
            assert(buf@.len() == buf.len());
            Self::lemma_round_trip(self@);
        }
        buf
    }

    proof fn lemma_round_trip(m: ExecStarted) {
        let none = Seq::<u8>::empty();
        protobuf::lemma_read_uint32(m.pid, none);
        lemma_merged_uint32::<ExecStarted>(Self::empty(), m, 1, m.pid, none);
        assert(Self::encoding(m) + none =~= Self::encoding(m));
    }
}

impl Default for ExecStarted {
    fn default() -> (r: ExecStarted)
        ensures
            r@ == ExecStarted::empty(),
    {
        ExecStarted::new_empty()
    }
}

/// The process ended: with an exit code, or with `code` -1 by the signal `signal`.
#[derive(Clone, Copy, Debug, PartialEq, Eq, Structural)]
pub struct ExitStatus {
    pub code: i32,
    pub signal: i32,
}

impl View for ExitStatus {
    type V = ExitStatus;

    open spec fn view(&self) -> ExitStatus {
        *self
    }
}

impl Schema for ExitStatus {
    open spec fn empty() -> ExitStatus {
        ExitStatus { code: 0, signal: 0 }
    }

    open spec fn valid(m: ExitStatus) -> bool {
        true
    }

    open spec fn encoding(m: ExitStatus) -> Seq<u8> {
        protobuf::optional_int32_field(1, m.code) + protobuf::optional_int32_field(2, m.signal)
    }

    open spec fn merged(m: ExitStatus, tag: u32, wire: u8, b: Seq<u8>) -> Option<(ExitStatus, Seq<u8>)> {
        if tag == 1 {
            match protobuf::read_int32(wire, b) {
                Some((code, rest)) => Some((ExitStatus { code, ..m }, rest)),
                None => None,
            }
        } else if tag == 2 {
            match protobuf::read_int32(wire, b) {
                Some((signal, rest)) => Some((ExitStatus { signal, ..m }, rest)),
                None => None,
            }
        } else {
            skipped(m, tag, wire, b)
        }
    }

    open spec fn refusal(tag: u32, wire: u8, b: Seq<u8>) -> Seq<char> {
        if tag == 1 {
            protobuf::varint_refusal(wire, "ExitStatus"@, "code"@)
        } else if tag == 2 {
            protobuf::varint_refusal(wire, "ExitStatus"@, "signal"@)
        } else {
            protobuf::skip_refusal(wire, tag, b)
        }
    }
}

impl Message for ExitStatus {
    fn new_empty() -> ExitStatus {
        ExitStatus { code: 0, signal: 0 }
    }

    fn merge_field<'a>(self, tag: u32, wire: u8, buf: &'a [u8]) -> Result<
        (ExitStatus, &'a [u8]),
        String,
    > {
        proof {
            protobuf::lemma_read_varint_shrinks(buf@);
            protobuf::lemma_skip_value_shrinks(RECURSION_LIMIT as nat, wire, tag, buf@);
        }
        match tag {
            1 => match merge_int32(wire, buf, "ExitStatus", "code") {
                Ok((code, rest)) => Ok((ExitStatus { code, ..self }, rest)),
                Err(e) => Err(e),
            },
            2 => match merge_int32(wire, buf, "ExitStatus", "signal") {
                Ok((signal, rest)) => Ok((ExitStatus { signal, ..self }, rest)),
                Err(e) => Err(e),
            },
            _ => match skip_field(wire, tag, buf) {
                Ok(rest) => Ok((self, rest)),
                Err(e) => Err(e),
            },
        }
    }

    fn encode_to_vec(&self) -> Vec<u8> {
        let mut buf: Vec<u8> = Vec::new();
        if self.code != 0 {
            encode_int32(1, self.code, &mut buf);
        }
        if self.signal != 0 {
            encode_int32(2, self.signal, &mut buf);
        }
        assert(buf@ =~= Self::encoding(self@));
        proof {
            assert(buf@.len() == buf.len());
            Self::lemma_round_trip(self@);
        }
        buf
    }

    proof fn lemma_round_trip(m: ExitStatus) {
        let none = Seq::<u8>::empty();
        let half = ExitStatus { code: m.code, signal: 0 };
        let last = protobuf::optional_int32_field(2, m.signal);
        protobuf::lemma_read_int32(m.signal, none);
        lemma_merged_int32::<ExitStatus>(half, m, 2, m.signal, none);
        assert(last + none =~= last);
        protobuf::lemma_read_int32(m.code, last);
        lemma_merged_int32::<ExitStatus>(Self::empty(), half, 1, m.code, last);
    }
}

impl Default for ExitStatus {
    fn default() -> (r: ExitStatus)
        ensures
            r@ == ExitStatus::empty(),
    {
        ExitStatus::new_empty()
    }
}

/// The terminal has a new size.
#[derive(Clone, Copy, Debug, PartialEq, Eq, Structural)]
pub struct WindowResize {
    pub rows: u32,
    pub cols: u32,
}

impl View for WindowResize {
    type V = WindowResize;

    open spec fn view(&self) -> WindowResize {
        *self
    }
}

impl Schema for WindowResize {
    open spec fn empty() -> WindowResize {
        WindowResize { rows: 0, cols: 0 }
    }

    open spec fn valid(m: WindowResize) -> bool {
        true
    }

    open spec fn encoding(m: WindowResize) -> Seq<u8> {
        protobuf::optional_uint32_field(1, m.rows) + protobuf::optional_uint32_field(2, m.cols)
    }

    open spec fn merged(m: WindowResize, tag: u32, wire: u8, b: Seq<u8>) -> Option<(WindowResize, Seq<u8>)> {
        if tag == 1 {
            match protobuf::read_uint32(wire, b) {
                Some((rows, rest)) => Some((WindowResize { rows, ..m }, rest)),
                None => None,
            }
        } else if tag == 2 {
            match protobuf::read_uint32(wire, b) {
                Some((cols, rest)) => Some((WindowResize { cols, ..m }, rest)),
                None => None,
            }
        } else {
            skipped(m, tag, wire, b)
        }
    }

    open spec fn refusal(tag: u32, wire: u8, b: Seq<u8>) -> Seq<char> {
        if tag == 1 {
            protobuf::varint_refusal(wire, "WindowResize"@, "rows"@)
        } else if tag == 2 {
            protobuf::varint_refusal(wire, "WindowResize"@, "cols"@)
        } else {
            protobuf::skip_refusal(wire, tag, b)
        }
    }
}

impl Message for WindowResize {
    fn new_empty() -> WindowResize {
        WindowResize { rows: 0, cols: 0 }
    }

    fn merge_field<'a>(self, tag: u32, wire: u8, buf: &'a [u8]) -> Result<
        (WindowResize, &'a [u8]),
        String,
    > {
        proof {
            protobuf::lemma_read_varint_shrinks(buf@);
            protobuf::lemma_skip_value_shrinks(RECURSION_LIMIT as nat, wire, tag, buf@);
        }
        match tag {
            1 => match merge_uint32(wire, buf, "WindowResize", "rows") {
                Ok((rows, rest)) => Ok((WindowResize { rows, ..self }, rest)),
                Err(e) => Err(e),
            },
            2 => match merge_uint32(wire, buf, "WindowResize", "cols") {
                Ok((cols, rest)) => Ok((WindowResize { cols, ..self }, rest)),
                Err(e) => Err(e),
            },
            _ => match skip_field(wire, tag, buf) {
                Ok(rest) => Ok((self, rest)),
                Err(e) => Err(e),
            },
        }
    }

    fn encode_to_vec(&self) -> Vec<u8> {
        let mut buf: Vec<u8> = Vec::new();
        if self.rows != 0 {
            encode_uint32(1, self.rows, &mut buf);
        }
        if self.cols != 0 {
            encode_uint32(2, self.cols, &mut buf);
        }
        assert(buf@ =~= Self::encoding(self@));
        proof {
            assert(buf@.len() == buf.len());
            Self::lemma_round_trip(self@);
        }
        buf
    }

    proof fn lemma_round_trip(m: WindowResize) {
        let none = Seq::<u8>::empty();
        let half = WindowResize { rows: m.rows, cols: 0 };
        let last = protobuf::optional_uint32_field(2, m.cols);
        protobuf::lemma_read_uint32(m.cols, none);
        lemma_merged_uint32::<WindowResize>(half, m, 2, m.cols, none);
        assert(last + none =~= last);
        protobuf::lemma_read_uint32(m.rows, last);
        lemma_merged_uint32::<WindowResize>(Self::empty(), half, 1, m.rows, last);
    }
}

impl Default for WindowResize {
    fn default() -> (r: WindowResize)
        ensures
            r@ == WindowResize::empty(),
    {
        WindowResize::new_empty()
    }
}

/// A signal for the process.
#[derive(Clone, Copy, Debug, PartialEq, Eq, Structural)]
pub struct Signal {
    pub signal: i32,
}

impl View for Signal {
    type V = Signal;

    open spec fn view(&self) -> Signal {
        *self
    }
}

impl Schema for Signal {
    open spec fn empty() -> Signal {
        Signal { signal: 0 }
    }

    open spec fn valid(m: Signal) -> bool {
        true
    }

    open spec fn encoding(m: Signal) -> Seq<u8> {
        protobuf::optional_int32_field(1, m.signal)
    }

    open spec fn merged(m: Signal, tag: u32, wire: u8, b: Seq<u8>) -> Option<(Signal, Seq<u8>)> {
        if tag == 1 {
            match protobuf::read_int32(wire, b) {
                Some((signal, rest)) => Some((Signal { signal }, rest)),
                None => None,
            }
        } else {
            skipped(m, tag, wire, b)
        }
    }

    open spec fn refusal(tag: u32, wire: u8, b: Seq<u8>) -> Seq<char> {
        if tag == 1 {
            protobuf::varint_refusal(wire, "Signal"@, "signal"@)
        } else {
            protobuf::skip_refusal(wire, tag, b)
        }
    }
}

impl Message for Signal {
    fn new_empty() -> Signal {
        Signal { signal: 0 }
    }

    fn merge_field<'a>(self, tag: u32, wire: u8, buf: &'a [u8]) -> Result<
        (Signal, &'a [u8]),
        String,
    > {
        proof {
            protobuf::lemma_read_varint_shrinks(buf@);
            protobuf::lemma_skip_value_shrinks(RECURSION_LIMIT as nat, wire, tag, buf@);
        }
        match tag {
            1 => match merge_int32(wire, buf, "Signal", "signal") {
                Ok((signal, rest)) => Ok((Signal { signal }, rest)),
                Err(e) => Err(e),
            },
            _ => match skip_field(wire, tag, buf) {
                Ok(rest) => Ok((self, rest)),
                Err(e) => Err(e),
            },
        }
    }

    fn encode_to_vec(&self) -> Vec<u8> {
        let mut buf: Vec<u8> = Vec::new();
        if self.signal != 0 {
            encode_int32(1, self.signal, &mut buf);
        }
        assert(buf@ =~= Self::encoding(self@));
        proof {
            assert(buf@.len() == buf.len());
            Self::lemma_round_trip(self@);
        }
        buf
    }

    proof fn lemma_round_trip(m: Signal) {
        let none = Seq::<u8>::empty();
        protobuf::lemma_read_int32(m.signal, none);
        lemma_merged_int32::<Signal>(Self::empty(), m, 1, m.signal, none);
        assert(Self::encoding(m) + none =~= Self::encoding(m));
    }
}

impl Default for Signal {
    fn default() -> (r: Signal)
        ensures
            r@ == Signal::empty(),
    {
        Signal::new_empty()
    }
}

/// The process could not be started.
#[derive(Debug, PartialEq, Eq)]
pub struct ExecError {
    pub error: String,
}

/// The contents of an [`ExecError`].
pub struct ExecErrorView {
    pub error: Seq<char>,
}

impl View for ExecError {
    type V = ExecErrorView;

    open spec fn view(&self) -> ExecErrorView {
        ExecErrorView { error: self.error@ }
    }
}

impl Schema for ExecError {
    open spec fn empty() -> ExecErrorView {
        ExecErrorView { error: seq![] }
    }

    open spec fn valid(m: ExecErrorView) -> bool {
        true
    }

    open spec fn encoding(m: ExecErrorView) -> Seq<u8> {
        protobuf::optional_string_field(1, m.error)
    }

    open spec fn merged(m: ExecErrorView, tag: u32, wire: u8, b: Seq<u8>) -> Option<
        (ExecErrorView, Seq<u8>),
    > {
        if tag == 1 {
            match protobuf::read_string(wire, b) {
                Some((error, rest)) => Some((ExecErrorView { error }, rest)),
                None => None,
            }
        } else {
            skipped(m, tag, wire, b)
        }
    }

    open spec fn refusal(tag: u32, wire: u8, b: Seq<u8>) -> Seq<char> {
        if tag == 1 {
            protobuf::string_refusal(wire, b, "ExecError"@, "error"@)
        } else {
            protobuf::skip_refusal(wire, tag, b)
        }
    }
}

impl Message for ExecError {
    fn new_empty() -> ExecError {
        ExecError { error: String::new() }
    }

    fn merge_field<'a>(self, tag: u32, wire: u8, buf: &'a [u8]) -> Result<
        (ExecError, &'a [u8]),
        String,
    > {
        proof {
            protobuf::lemma_read_varint_shrinks(buf@);
            protobuf::lemma_skip_value_shrinks(RECURSION_LIMIT as nat, wire, tag, buf@);
        }
        match tag {
            1 => match merge_string(wire, buf, "ExecError", "error") {
                Ok((error, rest)) => Ok((ExecError { error }, rest)),
                Err(e) => Err(e),
            },
            _ => match skip_field(wire, tag, buf) {
                Ok(rest) => Ok((self, rest)),
                Err(e) => Err(e),
            },
        }
    }

    fn encode_to_vec(&self) -> Vec<u8> {
        let mut buf: Vec<u8> = Vec::new();
        if !self.error.as_str().is_empty() {
            encode_string(1, &self.error, &mut buf);
        }
        assert(buf@ =~= Self::encoding(self@));
        proof {
            assert(buf@.len() == buf.len());
            Self::lemma_round_trip(self@);
        }
        buf
    }

    proof fn lemma_round_trip(m: ExecErrorView) {
        let none = Seq::<u8>::empty();
        if m.error.len() > 0 {
            protobuf::lemma_read_string(m.error, none);
        } else {
            assert(m.error =~= Self::empty().error);
        }
        lemma_merged_string::<ExecError>(Self::empty(), m, 1, m.error, none);
        assert(Self::encoding(m) + none =~= Self::encoding(m));
    }
}

impl Default for ExecError {
    fn default() -> (r: ExecError)
        ensures
            r@ == ExecError::empty(),
    {
        ExecError::new_empty()
    }
}

impl Clone for ExecError {
    fn clone(&self) -> (r: ExecError)
        ensures
            r@ == self@,
    {
        ExecError { error: self.error.clone() }
    }
}

/// A request to start a process.
#[derive(Debug, PartialEq)]
pub struct ExecRequest {
    /// The program and its arguments.
    pub cmd: Vec<String>,
    /// Variables on top of the default environment.
    pub env: Env,
    /// The working directory, or empty for the agent's own.
    pub cwd: String,
    /// Whether the process gets a terminal.
    pub tty: bool,
    /// The height of the terminal, or 0 for the default.
    pub rows: u32,
    /// The width of the terminal, or 0 for the default.
    pub cols: u32,
}

/// The contents of an [`ExecRequest`].
pub struct ExecRequestView {
    pub cmd: Seq<Seq<char>>,
    pub env: Entries,
    pub cwd: Seq<char>,
    pub tty: bool,
    pub rows: u32,
    pub cols: u32,
}

impl View for ExecRequest {
    type V = ExecRequestView;

    open spec fn view(&self) -> ExecRequestView {
        ExecRequestView {
            cmd: self.cmd@.map_values(|s: String| s@),
            env: self.env@,
            cwd: self.cwd@,
            tty: self.tty,
            rows: self.rows,
            cols: self.cols,
        }
    }
}

/// A string field for each part of a command, empty ones too.
pub open spec fn cmd_fields(cmd: Seq<Seq<char>>) -> Seq<u8>
    decreases cmd.len(),
{
    if cmd.len() == 0 {
        seq![]
    } else {
        cmd_fields(cmd.drop_last()) + protobuf::string_field(1, cmd.last())
    }
}

/// A map entry for each variable.
pub open spec fn env_fields(e: Entries) -> Seq<u8>
    decreases e.len(),
{
    if e.len() == 0 {
        seq![]
    } else {
        env_fields(e.drop_last()) + protobuf::entry_field(2, e.last().0, e.last().1)
    }
}

impl Schema for ExecRequest {
    open spec fn empty() -> ExecRequestView {
        ExecRequestView {
            cmd: seq![],
            env: seq![],
            cwd: seq![],
            tty: false,
            rows: 0,
            cols: 0,
        }
    }

    open spec fn valid(m: ExecRequestView) -> bool {
        env::distinct(m.env)
    }

    open spec fn encoding(m: ExecRequestView) -> Seq<u8> {
        cmd_fields(m.cmd) + env_fields(m.env) + protobuf::optional_string_field(3, m.cwd)
            + protobuf::optional_bool_field(4, m.tty) + protobuf::optional_uint32_field(5, m.rows)
            + protobuf::optional_uint32_field(6, m.cols)
    }

    open spec fn merged(m: ExecRequestView, tag: u32, wire: u8, b: Seq<u8>) -> Option<
        (ExecRequestView, Seq<u8>),
    > {
        if tag == 1 {
            match protobuf::read_string(wire, b) {
                Some((s, rest)) => Some((ExecRequestView { cmd: m.cmd.push(s), ..m }, rest)),
                None => None,
            }
        } else if tag == 2 {
            match protobuf::read_entry(b) {
                Some((k, v, rest)) => Some(
                    (ExecRequestView { env: env::set_entry(m.env, k, v), ..m }, rest),
                ),
                None => None,
            }
        } else if tag == 3 {
            match protobuf::read_string(wire, b) {
                Some((cwd, rest)) => Some((ExecRequestView { cwd, ..m }, rest)),
                None => None,
            }
        } else if tag == 4 {
            match protobuf::read_bool(wire, b) {
                Some((tty, rest)) => Some((ExecRequestView { tty, ..m }, rest)),
                None => None,
            }
        } else if tag == 5 {
            match protobuf::read_uint32(wire, b) {
                Some((rows, rest)) => Some((ExecRequestView { rows, ..m }, rest)),
                None => None,
            }
        } else if tag == 6 {
            match protobuf::read_uint32(wire, b) {
                Some((cols, rest)) => Some((ExecRequestView { cols, ..m }, rest)),
                None => None,
            }
        } else {
            skipped(m, tag, wire, b)
        }
    }

    open spec fn refusal(tag: u32, wire: u8, b: Seq<u8>) -> Seq<char> {
        if tag == 1 {
            protobuf::string_refusal(wire, b, "ExecRequest"@, "cmd"@)
        } else if tag == 2 {
            protobuf::entry_refusal(b, "ExecRequest"@, "env"@)
        } else if tag == 3 {
            protobuf::string_refusal(wire, b, "ExecRequest"@, "cwd"@)
        } else if tag == 4 {
            protobuf::varint_refusal(wire, "ExecRequest"@, "tty"@)
        } else if tag == 5 {
            protobuf::varint_refusal(wire, "ExecRequest"@, "rows"@)
        } else if tag == 6 {
            protobuf::varint_refusal(wire, "ExecRequest"@, "cols"@)
        } else {
            protobuf::skip_refusal(wire, tag, b)
        }
    }
}

proof fn lemma_merged_cmd(m: ExecRequestView, cmd: Seq<Seq<char>>, tail: Seq<u8>)
    requires
        cmd_fields(cmd).len() <= u64::MAX,
    ensures
        merged_all::<ExecRequest>(m, cmd_fields(cmd) + tail) == merged_all::<ExecRequest>(
            ExecRequestView { cmd: m.cmd + cmd, ..m },
            tail,
        ),
    decreases cmd.len(),
{
    if cmd.len() == 0 {
        assert(cmd_fields(cmd) + tail =~= tail);
        assert(m.cmd + cmd =~= m.cmd);
    } else {
        let front = cmd.drop_last();
        let last = protobuf::string_field(1, cmd.last());
        assert(cmd_fields(cmd) + tail =~= cmd_fields(front) + (last + tail));
        lemma_merged_cmd(m, front, last + tail);
        assert((m.cmd + front).push(cmd.last()) =~= m.cmd + cmd);
        protobuf::lemma_read_string(cmd.last(), tail);
        lemma_merged_field::<ExecRequest>(
            ExecRequestView { cmd: m.cmd + front, ..m },
            ExecRequestView { cmd: m.cmd + cmd, ..m },
            1,
            LENGTH_DELIMITED,
            protobuf::delimited(encode_utf8(cmd.last())),
            tail,
        );
    }
}

proof fn lemma_merged_env(m: ExecRequestView, e: Entries, tail: Seq<u8>)
    requires
        m.env == Entries::empty(),
        env::distinct(e),
        env_fields(e).len() <= u64::MAX,
    ensures
        merged_all::<ExecRequest>(m, env_fields(e) + tail) == merged_all::<ExecRequest>(
            ExecRequestView { env: e, ..m },
            tail,
        ),
    decreases e.len(),
{
    if e.len() == 0 {
        assert(env_fields(e) + tail =~= tail);
        assert(e =~= m.env);
    } else {
        let front = e.drop_last();
        let (k, v) = e.last();
        let last = protobuf::entry_field(2, k, v);
        assert(env_fields(e) + tail =~= env_fields(front) + (last + tail));
        assert(env::distinct(front)) by {
            assert forall|i: int, j: int| 0 <= i < j < front.len() implies (#[trigger] front[i]).0
                != (#[trigger] front[j]).0 by {
                assert(front[i] == e[i] && front[j] == e[j]);
            }
        }
        lemma_merged_env(m, front, last + tail);
        assert(env::set_entry(front, k, v) == e) by {
            env::lemma_find(front, k);
            if env::find(front, k) is Some {
                let i = env::find(front, k)->0;
                assert(front[i] == e[i] && e[e.len() - 1] == (k, v));
            }
            assert(front.push((k, v)) =~= e);
        }
        protobuf::lemma_read_entry(k, v, tail);
        lemma_merged_field::<ExecRequest>(
            ExecRequestView { env: front, ..m },
            ExecRequestView { env: e, ..m },
            2,
            LENGTH_DELIMITED,
            protobuf::delimited(
                protobuf::optional_string_field(1, k) + protobuf::optional_string_field(2, v),
            ),
            tail,
        );
    }
}

/// The fields of a request behind its command and its variables.
spec fn scalar_fields(m: ExecRequestView) -> Seq<u8> {
    protobuf::optional_string_field(3, m.cwd) + (protobuf::optional_bool_field(4, m.tty) + (
    protobuf::optional_uint32_field(5, m.rows) + (protobuf::optional_uint32_field(6, m.cols)
        + Seq::<u8>::empty())))
}

proof fn lemma_regroup(a: Seq<u8>, b: Seq<u8>, c: Seq<u8>, d: Seq<u8>, e: Seq<u8>, f: Seq<u8>)
    ensures
        a + b + c + d + e + f == a + (b + (c + (d + (e + (f + Seq::<u8>::empty()))))),
{
    assert(a + b + c + d + e + f =~= a + (b + (c + (d + (e + (f + Seq::<u8>::empty()))))));
}

proof fn lemma_merged_scalars(m2: ExecRequestView, m: ExecRequestView)
    requires
        scalar_fields(m).len() <= u64::MAX,
        m2.cmd == m.cmd,
        m2.env == m.env,
        m2.cwd == Seq::<char>::empty(),
        !m2.tty,
        m2.rows == 0,
        m2.cols == 0,
    ensures
        merged_all::<ExecRequest>(m2, scalar_fields(m)) == Some(m),
{
    let none = Seq::<u8>::empty();
    let t6 = protobuf::optional_uint32_field(6, m.cols) + none;
    let t5 = protobuf::optional_uint32_field(5, m.rows) + t6;
    let t4 = protobuf::optional_bool_field(4, m.tty) + t5;
    let m3 = ExecRequestView { cwd: m.cwd, ..m2 };
    let m4 = ExecRequestView { tty: m.tty, ..m3 };
    let m5 = ExecRequestView { rows: m.rows, ..m4 };
    assert(merged_all::<ExecRequest>(m2, scalar_fields(m)) == merged_all::<ExecRequest>(m3, t4)) by {
        if m.cwd.len() > 0 {
            protobuf::lemma_read_string(m.cwd, t4);
        } else {
            assert(m.cwd =~= m2.cwd);
        }
        lemma_merged_string::<ExecRequest>(m2, m3, 3, m.cwd, t4);
    }
    assert(merged_all::<ExecRequest>(m3, t4) == merged_all::<ExecRequest>(m4, t5)) by {
        if m.tty {
            protobuf::lemma_read_bool(true, t5);
            lemma_merged_field::<ExecRequest>(m3, m4, 4, VARINT, protobuf::varint(1), t5);
        } else {
            assert(t4 =~= t5);
        }
    }
    assert(merged_all::<ExecRequest>(m4, t5) == merged_all::<ExecRequest>(m5, t6)) by {
        protobuf::lemma_read_uint32(m.rows, t6);
        lemma_merged_uint32::<ExecRequest>(m4, m5, 5, m.rows, t6);
    }
    assert(merged_all::<ExecRequest>(m5, t6) == merged_all::<ExecRequest>(m, none)) by {
        protobuf::lemma_read_uint32(m.cols, none);
        lemma_merged_uint32::<ExecRequest>(m5, m, 6, m.cols, none);
    }
}

impl Message for ExecRequest {
    fn new_empty() -> ExecRequest {
        let r = ExecRequest {
            cmd: Vec::new(),
            env: Env::new(),
            cwd: String::new(),
            tty: false,
            rows: 0,
            cols: 0,
        };
        assert(r@.cmd =~= Self::empty().cmd);
        r
    }

    fn merge_field<'a>(self, tag: u32, wire: u8, buf: &'a [u8]) -> Result<
        (ExecRequest, &'a [u8]),
        String,
    > {
        proof {
            protobuf::lemma_read_varint_shrinks(buf@);
            protobuf::lemma_read_entry_shrinks(buf@);
            protobuf::lemma_skip_value_shrinks(RECURSION_LIMIT as nat, wire, tag, buf@);
        }
        let ghost before = self@;
        let mut m = self;
        match tag {
            1 => match merge_string(wire, buf, "ExecRequest", "cmd") {
                Ok((s, rest)) => {
                    m.cmd.push(s);
                    assert(m@.cmd =~= before.cmd.push(s@));
                    Ok((m, rest))
                },
                Err(e) => Err(e),
            },
            2 => match merge_entry(buf, "ExecRequest", "env") {
                Ok((k, v, rest)) => {
                    m.env.insert(k, v);
                    Ok((m, rest))
                },
                Err(e) => Err(e),
            },
            3 => match merge_string(wire, buf, "ExecRequest", "cwd") {
                Ok((cwd, rest)) => {
                    m.cwd = cwd;
                    Ok((m, rest))
                },
                Err(e) => Err(e),
            },
            4 => match merge_bool(wire, buf, "ExecRequest", "tty") {
                Ok((tty, rest)) => {
                    m.tty = tty;
                    Ok((m, rest))
                },
                Err(e) => Err(e),
            },
            5 => match merge_uint32(wire, buf, "ExecRequest", "rows") {
                Ok((rows, rest)) => {
                    m.rows = rows;
                    Ok((m, rest))
                },
                Err(e) => Err(e),
            },
            6 => match merge_uint32(wire, buf, "ExecRequest", "cols") {
                Ok((cols, rest)) => {
                    m.cols = cols;
                    Ok((m, rest))
                },
                Err(e) => Err(e),
            },
            _ => match skip_field(wire, tag, buf) {
                Ok(rest) => Ok((m, rest)),
                Err(e) => Err(e),
            },
        }
    }

    fn encode_to_vec(&self) -> Vec<u8> {
        proof {
            use_type_invariant(&self.env);
        }
        let mut buf: Vec<u8> = Vec::new();
        let mut i: usize = 0;
        while i < self.cmd.len()
            invariant
                i <= self.cmd@.len(),
                buf@ == cmd_fields(self@.cmd.take(i as int)),
            decreases self.cmd@.len() - i,
        {
            encode_string(1, &self.cmd[i], &mut buf);
            assert(self@.cmd.take(i + 1).drop_last() =~= self@.cmd.take(i as int));
            i = i + 1;
        }
        assert(self@.cmd.take(i as int) =~= self@.cmd);
        let ghost cmd_bytes = buf@;
        let mut j: usize = 0;
        assert(cmd_bytes + env_fields(self@.env.take(0)) =~= cmd_bytes);
        while j < self.env.len()
            invariant
                j <= self@.env.len(),
                buf@ == cmd_bytes + env_fields(self@.env.take(j as int)),
            decreases self@.env.len() - j,
        {
            let (name, value) = self.env.entry(j);
            encode_entry(2, name, value, &mut buf);
            assert(self@.env.take(j + 1).drop_last() =~= self@.env.take(j as int));
            assert(self@.env.take(j + 1).last() == self@.env[j as int]);
            j = j + 1;
        }
        assert(self@.env.take(j as int) =~= self@.env);
        if !self.cwd.as_str().is_empty() {
            encode_string(3, &self.cwd, &mut buf);
        }
        if self.tty {
            encode_bool(4, self.tty, &mut buf);
        }
        if self.rows != 0 {
            encode_uint32(5, self.rows, &mut buf);
        }
        if self.cols != 0 {
            encode_uint32(6, self.cols, &mut buf);
        }
        assert(buf@ =~= Self::encoding(self@));
        proof {
            assert(buf@.len() == buf.len());
            Self::lemma_round_trip(self@);
        }
        buf
    }

    #[verifier::rlimit(30)]
    proof fn lemma_round_trip(m: ExecRequestView) {
        let m0 = Self::empty();
        let m1 = ExecRequestView { cmd: m.cmd, ..m0 };
        let m2 = ExecRequestView { env: m.env, ..m1 };
        let t3 = scalar_fields(m);
        let t2 = env_fields(m.env) + t3;
        lemma_regroup(
            cmd_fields(m.cmd),
            env_fields(m.env),
            protobuf::optional_string_field(3, m.cwd),
            protobuf::optional_bool_field(4, m.tty),
            protobuf::optional_uint32_field(5, m.rows),
            protobuf::optional_uint32_field(6, m.cols),
        );
        assert(Self::encoding(m) == cmd_fields(m.cmd) + t2);
        lemma_merged_cmd(m0, m.cmd, t2);
        assert(m0.cmd + m.cmd =~= m.cmd);
        lemma_merged_env(m1, m.env, t3);
        lemma_merged_scalars(m2, m);
    }
}

impl Default for ExecRequest {
    fn default() -> (r: ExecRequest)
        ensures
            r@ == ExecRequest::empty(),
    {
        ExecRequest::new_empty()
    }
}

impl Clone for ExecRequest {
    fn clone(&self) -> (r: ExecRequest)
        ensures
            r@ == self@,
    {
        let mut cmd: Vec<String> = Vec::new();
        let mut i: usize = 0;
        while i < self.cmd.len()
            invariant
                i <= self.cmd@.len(),
                cmd@.map_values(|s: String| s@) == self@.cmd.take(i as int),
            decreases self.cmd@.len() - i,
        {
            let ghost front = cmd@.map_values(|s: String| s@);
            cmd.push(self.cmd[i].clone());
            assert(cmd@.map_values(|s: String| s@) =~= front.push(self@.cmd[i as int]));
            assert(self@.cmd.take(i + 1) =~= self@.cmd.take(i as int).push(self@.cmd[i as int]));
            i = i + 1;
        }
        assert(self@.cmd.take(i as int) =~= self@.cmd);
        ExecRequest {
            cmd,
            env: self.env.clone(),
            cwd: self.cwd.clone(),
            tty: self.tty,
            rows: self.rows,
            cols: self.cols,
        }
    }
}

// ---- Laws ----

/// The bytes of each message: the key of each field, which has its number and its kind in it, and
/// its value; a field at its default takes none.
pub proof fn lemma_layouts(pid: u32, code: i32, signal: i32, rows: u32, cols: u32, error: Seq<char>)
    ensures
        pid != 0 ==> ExecStarted::encoding(ExecStarted { pid }) == seq![0x08u8] + protobuf::varint(
            pid as nat,
        ),
        signal != 0 ==> Signal::encoding(Signal { signal }) == seq![0x08u8] + protobuf::varint(
            protobuf::int32_bits(signal),
        ),
        code != 0 && signal != 0 ==> ExitStatus::encoding(ExitStatus { code, signal }) == seq![
            0x08u8,
        ] + protobuf::varint(protobuf::int32_bits(code)) + (seq![0x10u8] + protobuf::varint(
            protobuf::int32_bits(signal),
        )),
        code != 0 ==> ExitStatus::encoding(ExitStatus { code, signal: 0 }) == seq![0x08u8]
            + protobuf::varint(protobuf::int32_bits(code)),
        signal != 0 ==> ExitStatus::encoding(ExitStatus { code: 0, signal }) == seq![0x10u8]
            + protobuf::varint(protobuf::int32_bits(signal)),
        rows != 0 && cols != 0 ==> WindowResize::encoding(WindowResize { rows, cols }) == seq![
            0x08u8,
        ] + protobuf::varint(rows as nat) + (seq![0x10u8] + protobuf::varint(cols as nat)),
        rows != 0 ==> WindowResize::encoding(WindowResize { rows, cols: 0 }) == seq![0x08u8]
            + protobuf::varint(rows as nat),
        cols != 0 ==> WindowResize::encoding(WindowResize { rows: 0, cols }) == seq![0x10u8]
            + protobuf::varint(cols as nat),
        error.len() > 0 ==> ExecError::encoding(ExecErrorView { error }) == seq![0x0au8] + (
        protobuf::varint(encode_utf8(error).len()) + encode_utf8(error)),
        ExecStarted::encoding(ExecStarted { pid: 0 }).len() == 0,
        Signal::encoding(Signal { signal: 0 }).len() == 0,
        ExitStatus::encoding(ExitStatus { code: 0, signal: 0 }).len() == 0,
        WindowResize::encoding(WindowResize { rows: 0, cols: 0 }).len() == 0,
        ExecError::encoding(ExecErrorView { error: seq![] }).len() == 0,
{
    let none = Seq::<u8>::empty();
    assert(protobuf::key(1, VARINT) =~= seq![0x08u8]);
    assert(protobuf::key(2, VARINT) =~= seq![0x10u8]);
    assert(protobuf::key(1, LENGTH_DELIMITED) =~= seq![0x0au8]);
    let c = protobuf::optional_int32_field(1, code);
    let g = protobuf::optional_int32_field(2, signal);
    assert(c + none =~= c && none + g =~= g);
    let r = protobuf::optional_uint32_field(1, rows);
    let k = protobuf::optional_uint32_field(2, cols);
    assert(r + none =~= r && none + k =~= k);
}

/// A number that is kept where the new one is zero.
pub open spec fn or_else<T>(new: T, default: T, old: T) -> T {
    if new == default {
        old
    } else {
        new
    }
}

proof fn lemma_merge_started(a: ExecStarted, b: ExecStarted, tail: Seq<u8>)
    ensures
        merged_all::<ExecStarted>(a, ExecStarted::encoding(b) + tail) == merged_all::<ExecStarted>(
            ExecStarted { pid: or_else(b.pid, 0, a.pid) },
            tail,
        ),
{
    protobuf::lemma_read_uint32(b.pid, tail);
    lemma_merged_uint32::<ExecStarted>(a, ExecStarted { pid: or_else(b.pid, 0, a.pid) }, 1, b.pid, tail);
}

/// Two messages one behind the other are read as one, in which the later one's fields count.
pub proof fn lemma_started_joined(a: ExecStarted, b: ExecStarted)
    ensures
        decoding::<ExecStarted>(ExecStarted::encoding(a) + ExecStarted::encoding(b)) == Some(ExecStarted { pid: or_else(b.pid, 0, a.pid) }),
{
    let none = Seq::<u8>::empty();
    lemma_merge_started(ExecStarted::empty(), a, ExecStarted::encoding(b));
    lemma_merge_started(a, b, none);
    assert(ExecStarted::encoding(b) + none =~= ExecStarted::encoding(b));
}

proof fn lemma_merge_status(a: ExitStatus, b: ExitStatus, tail: Seq<u8>)
    ensures
        merged_all::<ExitStatus>(a, ExitStatus::encoding(b) + tail) == merged_all::<ExitStatus>(
            ExitStatus { code: or_else(b.code, 0, a.code), signal: or_else(b.signal, 0, a.signal) },
            tail,
        ),
{
    let rest = protobuf::optional_int32_field(2, b.signal) + tail;
    let mid = ExitStatus { code: or_else(b.code, 0, a.code), ..a };
    protobuf::lemma_read_int32(b.code, rest);
    lemma_merged_int32::<ExitStatus>(a, mid, 1, b.code, rest);
    protobuf::lemma_read_int32(b.signal, tail);
    lemma_merged_int32::<ExitStatus>(mid, ExitStatus { signal: or_else(b.signal, 0, a.signal), ..mid }, 2, b.signal, tail);
    assert(ExitStatus::encoding(b) + tail =~= protobuf::optional_int32_field(1, b.code) + rest);
}

/// Two messages one behind the other are read as one, in which the later one's fields count.
pub proof fn lemma_status_joined(a: ExitStatus, b: ExitStatus)
    ensures
        decoding::<ExitStatus>(ExitStatus::encoding(a) + ExitStatus::encoding(b)) == Some(ExitStatus { code: or_else(b.code, 0, a.code), signal: or_else(b.signal, 0, a.signal) }),
{
    let none = Seq::<u8>::empty();
    lemma_merge_status(ExitStatus::empty(), a, ExitStatus::encoding(b));
    lemma_merge_status(a, b, none);
    assert(ExitStatus::encoding(b) + none =~= ExitStatus::encoding(b));
}

proof fn lemma_merge_resize(a: WindowResize, b: WindowResize, tail: Seq<u8>)
    ensures
        merged_all::<WindowResize>(a, WindowResize::encoding(b) + tail) == merged_all::<WindowResize>(
            WindowResize { rows: or_else(b.rows, 0, a.rows), cols: or_else(b.cols, 0, a.cols) },
            tail,
        ),
{
    let rest = protobuf::optional_uint32_field(2, b.cols) + tail;
    let mid = WindowResize { rows: or_else(b.rows, 0, a.rows), ..a };
    protobuf::lemma_read_uint32(b.rows, rest);
    lemma_merged_uint32::<WindowResize>(a, mid, 1, b.rows, rest);
    protobuf::lemma_read_uint32(b.cols, tail);
    lemma_merged_uint32::<WindowResize>(mid, WindowResize { cols: or_else(b.cols, 0, a.cols), ..mid }, 2, b.cols, tail);
    assert(WindowResize::encoding(b) + tail =~= protobuf::optional_uint32_field(1, b.rows) + rest);
}

/// Two messages one behind the other are read as one, in which the later one's fields count.
pub proof fn lemma_resize_joined(a: WindowResize, b: WindowResize)
    ensures
        decoding::<WindowResize>(WindowResize::encoding(a) + WindowResize::encoding(b)) == Some(WindowResize { rows: or_else(b.rows, 0, a.rows), cols: or_else(b.cols, 0, a.cols) }),
{
    let none = Seq::<u8>::empty();
    lemma_merge_resize(WindowResize::empty(), a, WindowResize::encoding(b));
    lemma_merge_resize(a, b, none);
    assert(WindowResize::encoding(b) + none =~= WindowResize::encoding(b));
}

proof fn lemma_merge_signal(a: Signal, b: Signal, tail: Seq<u8>)
    ensures
        merged_all::<Signal>(a, Signal::encoding(b) + tail) == merged_all::<Signal>(
            Signal { signal: or_else(b.signal, 0, a.signal) },
            tail,
        ),
{
    protobuf::lemma_read_int32(b.signal, tail);
    lemma_merged_int32::<Signal>(a, Signal { signal: or_else(b.signal, 0, a.signal) }, 1, b.signal, tail);
}

/// Two messages one behind the other are read as one, in which the later one's fields count.
pub proof fn lemma_signal_joined(a: Signal, b: Signal)
    ensures
        decoding::<Signal>(Signal::encoding(a) + Signal::encoding(b)) == Some(Signal { signal: or_else(b.signal, 0, a.signal) }),
{
    let none = Seq::<u8>::empty();
    lemma_merge_signal(Signal::empty(), a, Signal::encoding(b));
    lemma_merge_signal(a, b, none);
    assert(Signal::encoding(b) + none =~= Signal::encoding(b));
}

/// Two messages one behind the other are read as one, in which the later one's text counts.
pub proof fn lemma_error_joined(a: ExecErrorView, b: ExecErrorView)
    requires
        ExecError::encoding(a).len() <= u64::MAX,
        ExecError::encoding(b).len() <= u64::MAX,
    ensures
        decoding::<ExecError>(ExecError::encoding(a) + ExecError::encoding(b)) == Some(
            if b.error.len() == 0 {
                a
            } else {
                b
            },
        ),
{
    let none = Seq::<u8>::empty();
    let rest = ExecError::encoding(b);
    if a.error.len() > 0 {
        protobuf::lemma_read_string(a.error, rest);
    } else {
        assert(a.error =~= ExecError::empty().error);
    }
    lemma_merged_string::<ExecError>(ExecError::empty(), a, 1, a.error, rest);
    if b.error.len() > 0 {
        protobuf::lemma_read_string(b.error, none);
        lemma_merged_string::<ExecError>(a, b, 1, b.error, none);
    }
    assert(rest + none =~= rest);
}

/// A field of a number that a message does not know.
proof fn lemma_unknown<M: Schema>(m: M::V, tag: u32, wire: u8, value: Seq<u8>, tail: Seq<u8>)
    requires
        1 <= tag <= MAX_TAG,
        wire <= THIRTY_TWO_BIT,
        M::merged(m, tag, wire, value + tail) == skipped(m, tag, wire, value + tail),
        protobuf::skip_value(RECURSION_LIMIT as nat, wire, tag, value + tail) == Some(tail),
    ensures
        merged_all::<M>(m, protobuf::key(tag, wire) + value + tail) == merged_all::<M>(m, tail),
{
    lemma_merged_field::<M>(m, m, tag, wire, value, tail);
}

proof fn lemma_skipped(tag: u32, n: u64, body: Seq<u8>, tail: Seq<u8>)
    requires
        body.len() <= u64::MAX,
    ensures
        protobuf::skip_value(
            RECURSION_LIMIT as nat,
            VARINT,
            tag,
            protobuf::varint(n as nat) + tail,
        ) == Some(tail),
        protobuf::skip_value(
            RECURSION_LIMIT as nat,
            LENGTH_DELIMITED,
            tag,
            protobuf::delimited(body) + tail,
        ) == Some(tail),
{
    protobuf::lemma_read_varint(n, tail);
    protobuf::lemma_read_varint(body.len() as u64, body + tail);
    assert(protobuf::delimited(body) + tail =~= protobuf::varint(body.len()) + (body + tail));
    assert((body + tail).skip(body.len() as int) =~= tail);
}

/// Fields whose numbers the message does not know, numbers or bytes, are passed over wherever they
/// stand.
pub proof fn lemma_started_ignores(
    m: ExecStarted,
    tag: u32,
    n: u64,
    body: Seq<u8>,
    tail: Seq<u8>,
)
    requires
        1 < tag <= MAX_TAG,
        body.len() <= u64::MAX,
    ensures
        merged_all::<ExecStarted>(m, protobuf::key(tag, VARINT) + protobuf::varint(n as nat) + tail)
            == merged_all::<ExecStarted>(m, tail),
        merged_all::<ExecStarted>(
            m,
            protobuf::key(tag, LENGTH_DELIMITED) + protobuf::delimited(body) + tail,
        ) == merged_all::<ExecStarted>(m, tail),
{
    lemma_skipped(tag, n, body, tail);
    lemma_unknown::<ExecStarted>(m, tag, VARINT, protobuf::varint(n as nat), tail);
    lemma_unknown::<ExecStarted>(m, tag, LENGTH_DELIMITED, protobuf::delimited(body), tail);
}

/// Fields whose numbers the message does not know, numbers or bytes, are passed over wherever they
/// stand.
pub proof fn lemma_status_ignores(
    m: ExitStatus,
    tag: u32,
    n: u64,
    body: Seq<u8>,
    tail: Seq<u8>,
)
    requires
        2 < tag <= MAX_TAG,
        body.len() <= u64::MAX,
    ensures
        merged_all::<ExitStatus>(m, protobuf::key(tag, VARINT) + protobuf::varint(n as nat) + tail)
            == merged_all::<ExitStatus>(m, tail),
        merged_all::<ExitStatus>(
            m,
            protobuf::key(tag, LENGTH_DELIMITED) + protobuf::delimited(body) + tail,
        ) == merged_all::<ExitStatus>(m, tail),
{
    lemma_skipped(tag, n, body, tail);
    lemma_unknown::<ExitStatus>(m, tag, VARINT, protobuf::varint(n as nat), tail);
    lemma_unknown::<ExitStatus>(m, tag, LENGTH_DELIMITED, protobuf::delimited(body), tail);
}

/// Fields whose numbers the message does not know, numbers or bytes, are passed over wherever they
/// stand.
pub proof fn lemma_resize_ignores(
    m: WindowResize,
    tag: u32,
    n: u64,
    body: Seq<u8>,
    tail: Seq<u8>,
)
    requires
        2 < tag <= MAX_TAG,
        body.len() <= u64::MAX,
    ensures
        merged_all::<WindowResize>(m, protobuf::key(tag, VARINT) + protobuf::varint(n as nat) + tail)
            == merged_all::<WindowResize>(m, tail),
        merged_all::<WindowResize>(
            m,
            protobuf::key(tag, LENGTH_DELIMITED) + protobuf::delimited(body) + tail,
        ) == merged_all::<WindowResize>(m, tail),
{
    lemma_skipped(tag, n, body, tail);
    lemma_unknown::<WindowResize>(m, tag, VARINT, protobuf::varint(n as nat), tail);
    lemma_unknown::<WindowResize>(m, tag, LENGTH_DELIMITED, protobuf::delimited(body), tail);
}

/// Fields whose numbers the message does not know, numbers or bytes, are passed over wherever they
/// stand.
pub proof fn lemma_signal_ignores(
    m: Signal,
    tag: u32,
    n: u64,
    body: Seq<u8>,
    tail: Seq<u8>,
)
    requires
        1 < tag <= MAX_TAG,
        body.len() <= u64::MAX,
    ensures
        merged_all::<Signal>(m, protobuf::key(tag, VARINT) + protobuf::varint(n as nat) + tail)
            == merged_all::<Signal>(m, tail),
        merged_all::<Signal>(
            m,
            protobuf::key(tag, LENGTH_DELIMITED) + protobuf::delimited(body) + tail,
        ) == merged_all::<Signal>(m, tail),
{
    lemma_skipped(tag, n, body, tail);
    lemma_unknown::<Signal>(m, tag, VARINT, protobuf::varint(n as nat), tail);
    lemma_unknown::<Signal>(m, tag, LENGTH_DELIMITED, protobuf::delimited(body), tail);
}

/// Fields whose numbers the message does not know, numbers or bytes, are passed over wherever they
/// stand.
pub proof fn lemma_error_ignores(
    m: ExecErrorView,
    tag: u32,
    n: u64,
    body: Seq<u8>,
    tail: Seq<u8>,
)
    requires
        1 < tag <= MAX_TAG,
        body.len() <= u64::MAX,
    ensures
        merged_all::<ExecError>(m, protobuf::key(tag, VARINT) + protobuf::varint(n as nat) + tail)
            == merged_all::<ExecError>(m, tail),
        merged_all::<ExecError>(
            m,
            protobuf::key(tag, LENGTH_DELIMITED) + protobuf::delimited(body) + tail,
        ) == merged_all::<ExecError>(m, tail),
{
    lemma_skipped(tag, n, body, tail);
    lemma_unknown::<ExecError>(m, tag, VARINT, protobuf::varint(n as nat), tail);
    lemma_unknown::<ExecError>(m, tag, LENGTH_DELIMITED, protobuf::delimited(body), tail);
}

/// Fields whose numbers the message does not know, numbers or bytes, are passed over wherever they
/// stand.
pub proof fn lemma_request_ignores(
    m: ExecRequestView,
    tag: u32,
    n: u64,
    body: Seq<u8>,
    tail: Seq<u8>,
)
    requires
        6 < tag <= MAX_TAG,
        body.len() <= u64::MAX,
    ensures
        merged_all::<ExecRequest>(m, protobuf::key(tag, VARINT) + protobuf::varint(n as nat) + tail)
            == merged_all::<ExecRequest>(m, tail),
        merged_all::<ExecRequest>(
            m,
            protobuf::key(tag, LENGTH_DELIMITED) + protobuf::delimited(body) + tail,
        ) == merged_all::<ExecRequest>(m, tail),
{
    lemma_skipped(tag, n, body, tail);
    lemma_unknown::<ExecRequest>(m, tag, VARINT, protobuf::varint(n as nat), tail);
    lemma_unknown::<ExecRequest>(m, tag, LENGTH_DELIMITED, protobuf::delimited(body), tail);
}

/// The text about a field that cannot be read names the message and the field.
pub proof fn lemma_refusals_name_the_field(wire: u8, b: Seq<u8>)
    ensures
        ExecStarted::refusal(1, wire, b) == protobuf::varint_refusal(wire, "ExecStarted"@, "pid"@),
        ExitStatus::refusal(1, wire, b) == protobuf::varint_refusal(wire, "ExitStatus"@, "code"@),
        ExitStatus::refusal(2, wire, b) == protobuf::varint_refusal(wire, "ExitStatus"@, "signal"@),
        WindowResize::refusal(1, wire, b) == protobuf::varint_refusal(wire, "WindowResize"@, "rows"@),
        WindowResize::refusal(2, wire, b) == protobuf::varint_refusal(wire, "WindowResize"@, "cols"@),
        Signal::refusal(1, wire, b) == protobuf::varint_refusal(wire, "Signal"@, "signal"@),
        ExecError::refusal(1, wire, b) == protobuf::string_refusal(wire, b, "ExecError"@, "error"@),
        ExecRequest::refusal(1, wire, b) == protobuf::string_refusal(wire, b, "ExecRequest"@, "cmd"@),
        ExecRequest::refusal(2, wire, b) == protobuf::entry_refusal(b, "ExecRequest"@, "env"@),
        ExecRequest::refusal(3, wire, b) == protobuf::string_refusal(wire, b, "ExecRequest"@, "cwd"@),
        ExecRequest::refusal(4, wire, b) == protobuf::varint_refusal(wire, "ExecRequest"@, "tty"@),
        ExecRequest::refusal(5, wire, b) == protobuf::varint_refusal(wire, "ExecRequest"@, "rows"@),
        ExecRequest::refusal(6, wire, b) == protobuf::varint_refusal(wire, "ExecRequest"@, "cols"@),
{
}

/// A field that is known by its number but has the wrong kind is refused, but for variables, whose
/// kind is not looked at.
pub proof fn lemma_wrong_kind_refused(
    started: ExecStarted,
    status: ExitStatus,
    size: WindowResize,
    signal: Signal,
    error: ExecErrorView,
    req: ExecRequestView,
    wire: u8,
    b: Seq<u8>,
)
    ensures
        wire != VARINT ==> ExecStarted::merged(started, 1, wire, b) is None,
        wire != VARINT ==> ExitStatus::merged(status, 1, wire, b) is None,
        wire != VARINT ==> ExitStatus::merged(status, 2, wire, b) is None,
        wire != VARINT ==> WindowResize::merged(size, 1, wire, b) is None,
        wire != VARINT ==> WindowResize::merged(size, 2, wire, b) is None,
        wire != VARINT ==> Signal::merged(signal, 1, wire, b) is None,
        wire != LENGTH_DELIMITED ==> ExecError::merged(error, 1, wire, b) is None,
        wire != LENGTH_DELIMITED ==> ExecRequest::merged(req, 1, wire, b) is None,
        wire != LENGTH_DELIMITED ==> ExecRequest::merged(req, 3, wire, b) is None,
        wire != VARINT ==> ExecRequest::merged(req, 4, wire, b) is None,
        wire != VARINT ==> ExecRequest::merged(req, 5, wire, b) is None,
        wire != VARINT ==> ExecRequest::merged(req, 6, wire, b) is None,
{
}

/// What is no message is so for the first thing in it that cannot be read.
pub proof fn lemma_undecodable<M: Schema>(b: Seq<u8>)
    ensures
        undecodable::<M>(b).kind == ErrorKind::InvalidData,
        b.len() > 0 && protobuf::read_key(b) is None ==> decoding::<M>(b) is None
            && undecodable::<M>(b).text == protobuf::key_refusal(b),
        protobuf::read_key(b) matches Some((tag, wire, rest)) ==> M::merged(
            M::empty(),
            tag,
            wire,
            rest,
        ) is None ==> b.len() > 0 ==> decoding::<M>(b) is None && undecodable::<M>(b).text
            == M::refusal(tag, wire, rest),
{
}

/// The bytes of a request: a field for each part of the command and one for each variable, in
/// order, and then those of the other fields that are not at their defaults.
pub proof fn lemma_request_layout(
    m: ExecRequestView,
    part: Seq<char>,
    name: Seq<char>,
    value: Seq<char>,
)
    ensures
        cmd_fields(seq![]).len() == 0,
        cmd_fields(m.cmd.push(part)) == cmd_fields(m.cmd) + (seq![0x0au8] + (protobuf::varint(
            encode_utf8(part).len(),
        ) + encode_utf8(part))),
        env_fields(seq![]).len() == 0,
        env_fields(m.env.push((name, value))) == env_fields(m.env) + (seq![0x12u8]
            + protobuf::delimited(
            protobuf::optional_string_field(1, name) + protobuf::optional_string_field(2, value),
        )),
        ExecRequest::encoding(m) == cmd_fields(m.cmd) + env_fields(m.env) + (if m.cwd.len() == 0 {
            seq![]
        } else {
            seq![0x1au8] + (protobuf::varint(encode_utf8(m.cwd).len()) + encode_utf8(m.cwd))
        }) + (if m.tty {
            seq![0x20u8, 0x01u8]
        } else {
            seq![]
        }) + (if m.rows == 0 {
            seq![]
        } else {
            seq![0x28u8] + protobuf::varint(m.rows as nat)
        }) + (if m.cols == 0 {
            seq![]
        } else {
            seq![0x30u8] + protobuf::varint(m.cols as nat)
        }),
{
    assert(protobuf::key(1, LENGTH_DELIMITED) =~= seq![0x0au8]);
    assert(protobuf::key(2, LENGTH_DELIMITED) =~= seq![0x12u8]);
    assert(protobuf::key(3, LENGTH_DELIMITED) =~= seq![0x1au8]);
    assert(protobuf::key(4, VARINT) =~= seq![0x20u8]);
    assert(protobuf::key(5, VARINT) =~= seq![0x28u8]);
    assert(protobuf::key(6, VARINT) =~= seq![0x30u8]);
    assert(m.cmd.push(part).drop_last() =~= m.cmd);
    assert(m.env.push((name, value)).drop_last() =~= m.env);
    assert(protobuf::bool_field(4, true) =~= seq![0x20u8, 0x01u8]);
}

/// Variables set one after the other.
pub open spec fn set_all(base: Entries, e: Entries) -> Entries
    decreases e.len(),
{
    if e.len() == 0 {
        base
    } else {
        env::set_entry(set_all(base, e.drop_last()), e.last().0, e.last().1)
    }
}

/// Variables that are set take the place of those of the same names, and leave the others.
pub proof fn lemma_set_all(base: Entries, e: Entries)
    ensures
        env::to_map(set_all(base, e)) == env::to_map(base).union_prefer_right(env::to_map(e)),
    decreases e.len(),
{
    if e.len() == 0 {
        assert(env::to_map(base).union_prefer_right(env::to_map(e)) =~= env::to_map(base));
    } else {
        let front = e.drop_last();
        lemma_set_all(base, front);
        env::lemma_set_entry(set_all(base, front), e.last().0, e.last().1);
        assert(env::to_map(base).union_prefer_right(env::to_map(front)).insert(
            e.last().0,
            e.last().1,
        ) =~= env::to_map(base).union_prefer_right(env::to_map(e)));
    }
}

proof fn lemma_merge_env(m: ExecRequestView, e: Entries, tail: Seq<u8>)
    requires
        env_fields(e).len() <= u64::MAX,
    ensures
        merged_all::<ExecRequest>(m, env_fields(e) + tail) == merged_all::<ExecRequest>(
            ExecRequestView { env: set_all(m.env, e), ..m },
            tail,
        ),
    decreases e.len(),
{
    if e.len() == 0 {
        assert(env_fields(e) + tail =~= tail);
    } else {
        let front = e.drop_last();
        let (k, v) = e.last();
        let last = protobuf::entry_field(2, k, v);
        assert(env_fields(e) + tail =~= env_fields(front) + (last + tail));
        lemma_merge_env(m, front, last + tail);
        protobuf::lemma_read_entry(k, v, tail);
        lemma_merged_field::<ExecRequest>(
            ExecRequestView { env: set_all(m.env, front), ..m },
            ExecRequestView { env: set_all(m.env, e), ..m },
            2,
            LENGTH_DELIMITED,
            protobuf::delimited(
                protobuf::optional_string_field(1, k) + protobuf::optional_string_field(2, v),
            ),
            tail,
        );
    }
}

/// The fields of a request behind its command and its variables, and what follows.
spec fn scalars_then(m: ExecRequestView, tail: Seq<u8>) -> Seq<u8> {
    protobuf::optional_string_field(3, m.cwd) + (protobuf::optional_bool_field(4, m.tty) + (
    protobuf::optional_uint32_field(5, m.rows) + (protobuf::optional_uint32_field(6, m.cols)
        + tail)))
}

/// A request with the fields of another read into it: parts of the command and variables add up,
/// of the others the later one counts.
pub open spec fn joined(a: ExecRequestView, b: ExecRequestView) -> ExecRequestView {
    ExecRequestView {
        cmd: a.cmd + b.cmd,
        env: set_all(a.env, b.env),
        cwd: if b.cwd.len() == 0 {
            a.cwd
        } else {
            b.cwd
        },
        tty: a.tty || b.tty,
        rows: or_else(b.rows, 0, a.rows),
        cols: or_else(b.cols, 0, a.cols),
    }
}

proof fn lemma_merge_scalars(m2: ExecRequestView, b: ExecRequestView, tail: Seq<u8>)
    requires
        encode_utf8(b.cwd).len() <= u64::MAX,
    ensures
        merged_all::<ExecRequest>(m2, scalars_then(b, tail)) == merged_all::<ExecRequest>(
            ExecRequestView { cmd: m2.cmd, env: m2.env, ..joined(m2, b) },
            tail,
        ),
{
    let t6 = protobuf::optional_uint32_field(6, b.cols) + tail;
    let t5 = protobuf::optional_uint32_field(5, b.rows) + t6;
    let t4 = protobuf::optional_bool_field(4, b.tty) + t5;
    let m3 = ExecRequestView {
        cwd: if b.cwd.len() == 0 {
            m2.cwd
        } else {
            b.cwd
        },
        ..m2
    };
    let m4 = ExecRequestView { tty: m2.tty || b.tty, ..m3 };
    let m5 = ExecRequestView { rows: or_else(b.rows, 0, m2.rows), ..m4 };
    let m6 = ExecRequestView { cols: or_else(b.cols, 0, m2.cols), ..m5 };
    assert(merged_all::<ExecRequest>(m2, scalars_then(b, tail)) == merged_all::<ExecRequest>(
        m3,
        t4,
    )) by {
        if b.cwd.len() > 0 {
            protobuf::lemma_read_string(b.cwd, t4);
        }
        lemma_merged_string::<ExecRequest>(m2, m3, 3, b.cwd, t4);
    }
    assert(merged_all::<ExecRequest>(m3, t4) == merged_all::<ExecRequest>(m4, t5)) by {
        if b.tty {
            protobuf::lemma_read_bool(true, t5);
            lemma_merged_field::<ExecRequest>(m3, m4, 4, VARINT, protobuf::varint(1), t5);
        } else {
            assert(t4 =~= t5);
        }
    }
    assert(merged_all::<ExecRequest>(m4, t5) == merged_all::<ExecRequest>(m5, t6)) by {
        protobuf::lemma_read_uint32(b.rows, t6);
        lemma_merged_uint32::<ExecRequest>(m4, m5, 5, b.rows, t6);
    }
    assert(merged_all::<ExecRequest>(m5, t6) == merged_all::<ExecRequest>(m6, tail)) by {
        protobuf::lemma_read_uint32(b.cols, tail);
        lemma_merged_uint32::<ExecRequest>(m5, m6, 6, b.cols, tail);
    }
}

proof fn lemma_merge_request(a: ExecRequestView, b: ExecRequestView, tail: Seq<u8>)
    requires
        ExecRequest::encoding(b).len() <= u64::MAX,
    ensures
        merged_all::<ExecRequest>(a, ExecRequest::encoding(b) + tail) == merged_all::<ExecRequest>(
            joined(a, b),
            tail,
        ),
{
    let t3 = scalars_then(b, tail);
    let t2 = env_fields(b.env) + t3;
    let m1 = ExecRequestView { cmd: a.cmd + b.cmd, ..a };
    let m2 = ExecRequestView { env: set_all(a.env, b.env), ..m1 };
    lemma_regroup_tail(
        cmd_fields(b.cmd),
        env_fields(b.env),
        protobuf::optional_string_field(3, b.cwd),
        protobuf::optional_bool_field(4, b.tty),
        protobuf::optional_uint32_field(5, b.rows),
        protobuf::optional_uint32_field(6, b.cols),
        tail,
    );
    assert(encode_utf8(b.cwd).len() <= u64::MAX) by {
        if b.cwd.len() == 0 {
            assert(encode_utf8(b.cwd).len() == 0);
        }
    }
    lemma_merged_cmd(a, b.cmd, t2);
    lemma_merge_env(m1, b.env, t3);
    lemma_merge_scalars(m2, b, tail);
}

proof fn lemma_regroup_tail(
    a: Seq<u8>,
    b: Seq<u8>,
    c: Seq<u8>,
    d: Seq<u8>,
    e: Seq<u8>,
    f: Seq<u8>,
    tail: Seq<u8>,
)
    ensures
        a + b + c + d + e + f + tail == a + (b + (c + (d + (e + (f + tail))))),
{
    assert(a + b + c + d + e + f + tail =~= a + (b + (c + (d + (e + (f + tail))))));
}

/// Two requests one behind the other are read as one: the command of the one is followed by that of
/// the other, variables of the later one take the place of those of the same names, and of the
/// other fields the later one counts.
pub proof fn lemma_request_joined(a: ExecRequestView, b: ExecRequestView)
    requires
        ExecRequest::valid(a),
        ExecRequest::encoding(a).len() <= u64::MAX,
        ExecRequest::encoding(b).len() <= u64::MAX,
    ensures
        ({
            let r = decoding::<ExecRequest>(ExecRequest::encoding(a) + ExecRequest::encoding(b));
            &&& r is Some
            &&& r->0.cmd == a.cmd + b.cmd
            &&& env::to_map(r->0.env) == env::to_map(a.env).union_prefer_right(env::to_map(b.env))
            &&& r->0.cwd == if b.cwd.len() > 0 {
                b.cwd
            } else {
                a.cwd
            }
            &&& r->0.tty == (a.tty || b.tty)
            &&& r->0.rows == or_else(b.rows, 0, a.rows)
            &&& r->0.cols == or_else(b.cols, 0, a.cols)
        }),
{
    let none = Seq::<u8>::empty();
    let (ea, eb) = (ExecRequest::encoding(a), ExecRequest::encoding(b));
    let start = ExecRequest::empty();
    lemma_merge_request(start, a, eb);
    lemma_merge_request(joined(start, a), b, none);
    assert(eb + none =~= eb);
    lemma_set_all(start.env, a.env);
    lemma_set_all(joined(start, a).env, b.env);
    assert(start.cmd + a.cmd + b.cmd =~= a.cmd + b.cmd);
    assert(a.cwd.len() == 0 ==> a.cwd =~= start.cwd);
    assert(env::to_map(start.env).union_prefer_right(env::to_map(a.env)) =~= env::to_map(a.env));
}

/// Reading a number sets its field to that number, zero as any other, and keeps the other fields.
pub proof fn lemma_numbers_set(
    started: ExecStarted,
    status: ExitStatus,
    size: WindowResize,
    signal: Signal,
    req: ExecRequestView,
    u: u32,
    i: i32,
    flag: bool,
    tail: Seq<u8>,
)
    ensures
        ({
            let ub = protobuf::varint(u as nat) + tail;
            let ib = protobuf::varint(protobuf::int32_bits(i)) + tail;
            let fb = protobuf::varint(
                if flag {
                    1
                } else {
                    0
                },
            ) + tail;
            &&& ExecStarted::merged(started, 1, VARINT, ub) == Some(
                (ExecStarted { pid: u }, tail),
            )
            &&& ExitStatus::merged(status, 1, VARINT, ib) == Some(
                (ExitStatus { code: i, ..status }, tail),
            )
            &&& ExitStatus::merged(status, 2, VARINT, ib) == Some(
                (ExitStatus { signal: i, ..status }, tail),
            )
            &&& WindowResize::merged(size, 1, VARINT, ub) == Some(
                (WindowResize { rows: u, ..size }, tail),
            )
            &&& WindowResize::merged(size, 2, VARINT, ub) == Some(
                (WindowResize { cols: u, ..size }, tail),
            )
            &&& Signal::merged(signal, 1, VARINT, ib) == Some(
                (Signal { signal: i }, tail),
            )
            &&& ExecRequest::merged(req, 4, VARINT, fb) == Some(
                (ExecRequestView { tty: flag, ..req }, tail),
            )
            &&& ExecRequest::merged(req, 5, VARINT, ub) == Some(
                (ExecRequestView { rows: u, ..req }, tail),
            )
            &&& ExecRequest::merged(req, 6, VARINT, ub) == Some(
                (ExecRequestView { cols: u, ..req }, tail),
            )
        }),
{
    protobuf::lemma_read_uint32(u, tail);
    protobuf::lemma_read_int32(i, tail);
    protobuf::lemma_read_bool(flag, tail);
}

/// Reading a text sets its field to that text, the empty one as any other, but for a part of a
/// command, which comes behind the parts that are there; the other fields are kept.
pub proof fn lemma_texts_set(error: ExecErrorView, req: ExecRequestView, s: Seq<char>, tail: Seq<u8>)
    requires
        encode_utf8(s).len() <= u64::MAX,
    ensures
        ({
            let b = protobuf::delimited(encode_utf8(s)) + tail;
            &&& ExecError::merged(error, 1, LENGTH_DELIMITED, b) == Some(
                (ExecErrorView { error: s }, tail),
            )
            &&& ExecRequest::merged(req, 1, LENGTH_DELIMITED, b) == Some(
                (ExecRequestView { cmd: req.cmd.push(s), ..req }, tail),
            )
            &&& ExecRequest::merged(req, 3, LENGTH_DELIMITED, b) == Some(
                (ExecRequestView { cwd: s, ..req }, tail),
            )
        }),
{
    protobuf::lemma_read_string(s, tail);
}

/// Reading a variable sets it in the environment, and keeps the other fields.
pub proof fn lemma_variable_set(
    req: ExecRequestView,
    wire: u8,
    name: Seq<char>,
    value: Seq<char>,
    tail: Seq<u8>,
)
    requires
        protobuf::optional_string_field(1, name).len() + protobuf::optional_string_field(
            2,
            value,
        ).len() <= u64::MAX,
    ensures
        ({
            let b = protobuf::delimited(
                protobuf::optional_string_field(1, name) + protobuf::optional_string_field(
                    2,
                    value,
                ),
            ) + tail;
            let r = ExecRequest::merged(req, 2, wire, b);
            &&& r matches Some((req2, rest))
            &&& rest == tail
            &&& env::to_map(req2.env) == env::to_map(req.env).insert(name, value)
            &&& req2 == (ExecRequestView { env: req2.env, ..req })
        }),
{
    protobuf::lemma_read_entry(name, value, tail);
    env::lemma_set_entry(req.env, name, value);
}

/// What can be read in front does not change what is said of the rest.
pub proof fn lemma_refused_behind<M: Schema>(m: M::V, b: Seq<u8>)
    ensures
        protobuf::read_key(b) matches Some((tag, wire, rest)) ==> (M::merged(m, tag, wire, rest)
            matches Some((m2, rest2)) ==> (b.len() > rest2.len() ==> refused_all::<M>(m, b)
            == refused_all::<M>(m2, rest2) && merged_all::<M>(m, b) == merged_all::<M>(m2, rest2))),
{
}

/// Messages are taken as they are.
pub proof fn lemma_message_views(error: ExecError, req: ExecRequest)
    ensures
        error@.error == error.error@,
        req@.cmd.len() == req.cmd@.len(),
        forall|i: int| 0 <= i < req.cmd@.len() ==> #[trigger] req@.cmd[i] == req.cmd@[i]@,
        req@.env == req.env@,
        req@.cwd == req.cwd@,
        req@.tty == req.tty,
        req@.rows == req.rows,
        req@.cols == req.cols,
{
}

/// The empty messages have every field at its default.
pub proof fn lemma_empty_messages()
    ensures
        ExecStarted::empty() == (ExecStarted { pid: 0 }),
        ExitStatus::empty() == (ExitStatus { code: 0, signal: 0 }),
        WindowResize::empty() == (WindowResize { rows: 0, cols: 0 }),
        Signal::empty() == (Signal { signal: 0 }),
        ExecError::empty().error.len() == 0,
        ExecRequest::empty().cmd.len() == 0,
        ExecRequest::empty().env.len() == 0,
        ExecRequest::empty().cwd.len() == 0,
        !ExecRequest::empty().tty,
        ExecRequest::empty().rows == 0,
        ExecRequest::empty().cols == 0,
        decoding::<ExecStarted>(seq![]) == Some(ExecStarted::empty()),
        decoding::<ExitStatus>(seq![]) == Some(ExitStatus::empty()),
        decoding::<WindowResize>(seq![]) == Some(WindowResize::empty()),
        decoding::<Signal>(seq![]) == Some(Signal::empty()),
        decoding::<ExecError>(seq![]) == Some(ExecError::empty()),
        decoding::<ExecRequest>(seq![]) == Some(ExecRequest::empty()),
{
}

} // verus!
