//! The protobuf wire format: what bytes stand for which values, and the functions of prost that
//! write and read them.

use crate::text;
use vstd::prelude::*;
use vstd::utf8::*;

verus! {

/// Wire type of a variable-length integer.
pub const VARINT: u8 = 0;

/// Wire type of eight bytes.
pub const SIXTY_FOUR_BIT: u8 = 1;

/// Wire type of a length followed by that many bytes.
pub const LENGTH_DELIMITED: u8 = 2;

/// Wire type that opens a group.
pub const START_GROUP: u8 = 3;

/// Wire type that closes a group.
pub const END_GROUP: u8 = 4;

/// Wire type of four bytes.
pub const THIRTY_TWO_BIT: u8 = 5;

/// The largest field number.
pub const MAX_TAG: u32 = 536_870_911;

/// How deep groups and embedded messages may nest.
pub const RECURSION_LIMIT: u32 = 100;

// ---- Values to bytes ----

/// `n` in LEB128: seven bits a byte, low ones first, the high bit set on all bytes but the last.
pub open spec fn varint(n: nat) -> Seq<u8>
    decreases n,
{
    if n < 128 {
        seq![n as u8]
    } else {
        seq![(n % 128 + 128) as u8] + varint(n / 128)
    }
}

/// The key that opens a field.
pub open spec fn key(tag: u32, wire: u8) -> Seq<u8> {
    varint((8 * tag + wire) as nat)
}

/// A field of type `uint32`.
pub open spec fn uint32_field(tag: u32, v: u32) -> Seq<u8> {
    key(tag, VARINT) + varint(v as nat)
}

/// The number that stands for an `int32` on the wire: negative ones are sign-extended to 64 bits.
pub open spec fn int32_bits(v: i32) -> nat {
    if v < 0 {
        (v + 0x1_0000_0000_0000_0000) as nat
    } else {
        v as nat
    }
}

/// A field of type `int32`.
pub open spec fn int32_field(tag: u32, v: i32) -> Seq<u8> {
    key(tag, VARINT) + varint(int32_bits(v))
}

/// A field of type `bool`.
pub open spec fn bool_field(tag: u32, v: bool) -> Seq<u8> {
    key(tag, VARINT) + varint(if v {
        1
    } else {
        0
    })
}

/// Bytes behind their length.
pub open spec fn delimited(body: Seq<u8>) -> Seq<u8> {
    varint(body.len()) + body
}

/// A field of type `string`.
pub open spec fn string_field(tag: u32, s: Seq<char>) -> Seq<u8> {
    key(tag, LENGTH_DELIMITED) + delimited(encode_utf8(s))
}

/// A `uint32` field that is left out where the value is zero.
pub open spec fn optional_uint32_field(tag: u32, v: u32) -> Seq<u8> {
    if v == 0 {
        seq![]
    } else {
        uint32_field(tag, v)
    }
}

/// An `int32` field that is left out where the value is zero.
pub open spec fn optional_int32_field(tag: u32, v: i32) -> Seq<u8> {
    if v == 0 {
        seq![]
    } else {
        int32_field(tag, v)
    }
}

/// A `bool` field that is left out where the value is false.
pub open spec fn optional_bool_field(tag: u32, v: bool) -> Seq<u8> {
    if v {
        bool_field(tag, v)
    } else {
        seq![]
    }
}

/// A string field that is left out where the string is empty.
pub open spec fn optional_string_field(tag: u32, s: Seq<char>) -> Seq<u8> {
    if s.len() == 0 {
        seq![]
    } else {
        string_field(tag, s)
    }
}

/// One entry of a field of type `map<string, string>`: an embedded message with the key as field
/// 1 and the value as field 2.
pub open spec fn entry_field(tag: u32, k: Seq<char>, v: Seq<char>) -> Seq<u8> {
    key(tag, LENGTH_DELIMITED) + delimited(optional_string_field(1, k) + optional_string_field(2, v))
}

// ---- Bytes to values: each gives the value at the front and the bytes behind it ----

/// The LEB128 number at the front of `b`, in at most `limit` bytes.
pub open spec fn leb128(b: Seq<u8>, limit: nat) -> Option<(nat, Seq<u8>)>
    decreases limit,
{
    if limit == 0 || b.len() == 0 {
        None
    } else if b[0] < 128 {
        Some((b[0] as nat, b.skip(1)))
    } else {
        match leb128(b.skip(1), (limit - 1) as nat) {
            Some((n, rest)) => Some(((128 * n + b[0] - 128) as nat, rest)),
            None => None,
        }
    }
}

/// The varint at the front of `b`: at most ten bytes and 64 bits.
pub open spec fn read_varint(b: Seq<u8>) -> Option<(u64, Seq<u8>)> {
    match leb128(b, 10) {
        Some((n, rest)) => if n <= u64::MAX {
            Some((n as u64, rest))
        } else {
            None
        },
        None => None,
    }
}

/// The key at the front of `b`, as field number and wire type.
pub open spec fn read_key(b: Seq<u8>) -> Option<(u32, u8, Seq<u8>)> {
    match read_varint(b) {
        Some((n, rest)) => if n <= u32::MAX && n % 8 <= THIRTY_TWO_BIT && n / 8 >= 1 {
            Some(((n / 8) as u32, (n % 8) as u8, rest))
        } else {
            None
        },
        None => None,
    }
}

/// The `uint32` at the front of `b`: the low 32 bits of the varint.
pub open spec fn read_uint32(wire: u8, b: Seq<u8>) -> Option<(u32, Seq<u8>)> {
    match read_varint(b) {
        Some((n, rest)) => if wire == VARINT {
            Some(((n % 0x1_0000_0000) as u32, rest))
        } else {
            None
        },
        None => None,
    }
}

/// The 32 low bits of `n`, read as a signed number.
pub open spec fn low_int32(n: u64) -> i32 {
    let low = n % 0x1_0000_0000;
    if low < 0x8000_0000 {
        low as i32
    } else {
        (low - 0x1_0000_0000) as i32
    }
}

/// The `int32` at the front of `b`: the low 32 bits of the varint.
pub open spec fn read_int32(wire: u8, b: Seq<u8>) -> Option<(i32, Seq<u8>)> {
    match read_varint(b) {
        Some((n, rest)) => if wire == VARINT {
            Some((low_int32(n), rest))
        } else {
            None
        },
        None => None,
    }
}

/// The `bool` at the front of `b`: whether the varint is not zero.
pub open spec fn read_bool(wire: u8, b: Seq<u8>) -> Option<(bool, Seq<u8>)> {
    match read_varint(b) {
        Some((n, rest)) => if wire == VARINT {
            Some((n != 0, rest))
        } else {
            None
        },
        None => None,
    }
}

/// The `string` at the front of `b`: its length, then as many bytes of UTF-8.
pub open spec fn read_string(wire: u8, b: Seq<u8>) -> Option<(Seq<char>, Seq<u8>)> {
    match read_varint(b) {
        Some((n, rest)) => if wire == LENGTH_DELIMITED && n <= rest.len() && valid_utf8(
            rest.take(n as int),
        ) {
            Some((decode_utf8(rest.take(n as int)), rest.skip(n as int)))
        } else {
            None
        },
        None => None,
    }
}

/// What is left of `b` behind a field whose number nobody knows. Groups may nest less than
/// `depth` deep.
pub open spec fn skip_value(depth: nat, wire: u8, tag: u32, b: Seq<u8>) -> Option<Seq<u8>>
    decreases b.len(), 1nat,
{
    if depth == 0 {
        None
    } else if wire == VARINT {
        match read_varint(b) {
            Some((_, rest)) => Some(rest),
            None => None,
        }
    } else if wire == SIXTY_FOUR_BIT {
        if b.len() < 8 {
            None
        } else {
            Some(b.skip(8))
        }
    } else if wire == THIRTY_TWO_BIT {
        if b.len() < 4 {
            None
        } else {
            Some(b.skip(4))
        }
    } else if wire == LENGTH_DELIMITED {
        match read_varint(b) {
            Some((n, rest)) => if n <= rest.len() {
                Some(rest.skip(n as int))
            } else {
                None
            },
            None => None,
        }
    } else if wire == START_GROUP {
        skip_group(depth, tag, b)
    } else {
        None
    }
}

/// What is left of `b` behind the fields of a group and the key that closes it.
pub open spec fn skip_group(depth: nat, tag: u32, b: Seq<u8>) -> Option<Seq<u8>>
    decreases b.len(), 0nat,
{
    match read_key(b) {
        Some((t, w, rest)) => if rest.len() >= b.len() || depth == 0 {
            None
        } else if w == END_GROUP {
            if t == tag {
                Some(rest)
            } else {
                None
            }
        } else {
            match skip_value((depth - 1) as nat, w, t, rest) {
                Some(rest2) => if rest2.len() >= b.len() {
                    None
                } else {
                    skip_group(depth, tag, rest2)
                },
                None => None,
            }
        },
        None => None,
    }
}

/// The fields of a map entry, read until `limit` bytes are left, into the key `k` and the value
/// `v`; the last one of a kind counts.
pub open spec fn read_entry_fields(b: Seq<u8>, limit: nat, k: Seq<char>, v: Seq<char>) -> Option<
    (Seq<char>, Seq<char>, Seq<u8>),
>
    decreases b.len(),
{
    if b.len() == limit {
        Some((k, v, b))
    } else if b.len() < limit {
        None
    } else {
        match read_key(b) {
            Some((tag, wire, rest)) => if tag == 1 {
                match read_string(wire, rest) {
                    Some((k2, rest2)) => if rest2.len() < b.len() {
                        read_entry_fields(rest2, limit, k2, v)
                    } else {
                        None
                    },
                    None => None,
                }
            } else if tag == 2 {
                match read_string(wire, rest) {
                    Some((v2, rest2)) => if rest2.len() < b.len() {
                        read_entry_fields(rest2, limit, k, v2)
                    } else {
                        None
                    },
                    None => None,
                }
            } else {
                match skip_value((RECURSION_LIMIT - 1) as nat, wire, tag, rest) {
                    Some(rest2) => if rest2.len() < b.len() {
                        read_entry_fields(rest2, limit, k, v)
                    } else {
                        None
                    },
                    None => None,
                }
            },
            None => None,
        }
    }
}

/// The map entry at the front of `b`: its length, then that many bytes of fields. A key or a
/// value that is missing is empty.
pub open spec fn read_entry(b: Seq<u8>) -> Option<(Seq<char>, Seq<char>, Seq<u8>)> {
    match read_varint(b) {
        Some((n, rest)) => if n <= rest.len() {
            read_entry_fields(rest, (rest.len() - n) as nat, seq![], seq![])
        } else {
            None
        },
        None => None,
    }
}

// ---- What is written is read back ----

/// How many numbers fit in `limit` groups of seven bits.
spec fn leb128_bound(limit: nat) -> nat
    decreases limit,
{
    if limit == 0 {
        1
    } else {
        128 * leb128_bound((limit - 1) as nat)
    }
}

proof fn lemma_leb128_varint(n: nat, limit: nat, tail: Seq<u8>)
    requires
        limit > 0,
        n < leb128_bound(limit),
    ensures
        leb128(varint(n) + tail, limit) == Some((n, tail)),
    decreases limit,
{
    let b = varint(n) + tail;
    if n < 128 {
        assert(b.skip(1) =~= tail);
    } else {
        let low = (n % 128 + 128) as u8;
        assert(b =~= seq![low] + (varint(n / 128) + tail));
        assert(b.skip(1) =~= varint(n / 128) + tail);
        assert(limit > 1) by {
            if limit == 1 {
                assert(leb128_bound(0) == 1);
            }
        }
        lemma_leb128_varint(n / 128, (limit - 1) as nat, tail);
    }
}

/// Reading a varint gives back the number that was written.
pub proof fn lemma_read_varint(n: u64, tail: Seq<u8>)
    ensures
        read_varint(varint(n as nat) + tail) == Some((n, tail)),
{
    assert(n < leb128_bound(10)) by {
        reveal_with_fuel(leb128_bound, 11);
    }
    lemma_leb128_varint(n as nat, 10, tail);
}

proof fn lemma_leb128_shrinks(b: Seq<u8>, limit: nat)
    ensures
        leb128(b, limit) matches Some((_, rest)) ==> rest.len() < b.len(),
    decreases limit,
{
    if limit > 0 && b.len() > 0 && b[0] >= 128 {
        lemma_leb128_shrinks(b.skip(1), (limit - 1) as nat);
    }
}

/// A number of 64 bits takes ten bytes at most.
pub proof fn lemma_varint_len(n: nat)
    requires
        n <= u64::MAX,
    ensures
        varint(n).len() <= 10,
{
    reveal_with_fuel(varint, 10);
}

/// A character takes four bytes at most.
pub proof fn lemma_utf8_len(s: Seq<char>)
    ensures
        encode_utf8(s).len() <= 4 * s.len(),
    decreases s.len(),
{
    if s.len() > 0 {
        lemma_utf8_len(s.drop_first());
    }
}

/// A varint takes at least one byte.
pub proof fn lemma_read_varint_shrinks(b: Seq<u8>)
    ensures
        read_varint(b) matches Some((_, rest)) ==> rest.len() < b.len(),
{
    lemma_leb128_shrinks(b, 10);
}

/// A key takes at least one byte.
pub proof fn lemma_read_key_shrinks(b: Seq<u8>)
    ensures
        read_key(b) matches Some((_, _, rest)) ==> rest.len() < b.len(),
{
    lemma_read_varint_shrinks(b);
}

/// Skipping a value takes no byte that is not there.
pub proof fn lemma_skip_value_shrinks(depth: nat, wire: u8, tag: u32, b: Seq<u8>)
    ensures
        skip_value(depth, wire, tag, b) matches Some(rest) ==> rest.len() <= b.len(),
    decreases b.len(), 1nat,
{
    lemma_read_varint_shrinks(b);
    if wire == START_GROUP {
        lemma_skip_group_shrinks(depth, tag, b);
    }
}

proof fn lemma_skip_group_shrinks(depth: nat, tag: u32, b: Seq<u8>)
    ensures
        skip_group(depth, tag, b) matches Some(rest) ==> rest.len() <= b.len(),
    decreases b.len(), 0nat,
{
    match read_key(b) {
        Some((t, w, rest)) => {
            if rest.len() < b.len() && depth > 0 && w != END_GROUP {
                match skip_value((depth - 1) as nat, w, t, rest) {
                    Some(rest2) => {
                        if rest2.len() < b.len() {
                            lemma_skip_group_shrinks(depth, tag, rest2);
                        }
                    },
                    None => {},
                }
            }
        },
        None => {},
    }
}

proof fn lemma_read_entry_fields_shrinks(b: Seq<u8>, limit: nat, k: Seq<char>, v: Seq<char>)
    ensures
        read_entry_fields(b, limit, k, v) matches Some((_, _, rest)) ==> rest.len() <= b.len(),
    decreases b.len(),
{
    match read_key(b) {
        Some((tag, wire, rest)) => {
            match read_string(wire, rest) {
                Some((s, rest2)) => {
                    if rest2.len() < b.len() {
                        lemma_read_entry_fields_shrinks(rest2, limit, s, v);
                        lemma_read_entry_fields_shrinks(rest2, limit, k, s);
                    }
                },
                None => {},
            }
            match skip_value((RECURSION_LIMIT - 1) as nat, wire, tag, rest) {
                Some(rest2) => {
                    if rest2.len() < b.len() {
                        lemma_read_entry_fields_shrinks(rest2, limit, k, v);
                    }
                },
                None => {},
            }
        },
        None => {},
    }
}

/// A map entry takes at least one byte.
pub proof fn lemma_read_entry_shrinks(b: Seq<u8>)
    ensures
        read_entry(b) matches Some((_, _, rest)) ==> rest.len() < b.len(),
{
    lemma_read_varint_shrinks(b);
    match read_varint(b) {
        Some((n, rest)) => {
            if n <= rest.len() {
                lemma_read_entry_fields_shrinks(rest, (rest.len() - n) as nat, seq![], seq![]);
            }
        },
        None => {},
    }
}

/// Reading a key gives back the field number and the wire type that were written.
pub proof fn lemma_read_key(tag: u32, wire: u8, tail: Seq<u8>)
    requires
        1 <= tag <= MAX_TAG,
        wire <= THIRTY_TWO_BIT,
    ensures
        read_key(key(tag, wire) + tail) == Some((tag, wire, tail)),
{
    lemma_read_varint((8 * tag + wire) as u64, tail);
}

/// Reading a `uint32` gives back the value that was written.
pub proof fn lemma_read_uint32(v: u32, tail: Seq<u8>)
    ensures
        read_uint32(VARINT, varint(v as nat) + tail) == Some((v, tail)),
{
    lemma_read_varint(v as u64, tail);
}

/// Reading an `int32` gives back the value that was written.
pub proof fn lemma_read_int32(v: i32, tail: Seq<u8>)
    ensures
        read_int32(VARINT, varint(int32_bits(v)) + tail) == Some((v, tail)),
{
    lemma_read_varint(int32_bits(v) as u64, tail);
}

/// Reading a `bool` gives back the value that was written.
pub proof fn lemma_read_bool(v: bool, tail: Seq<u8>)
    ensures
        read_bool(VARINT, varint(if v {
            1
        } else {
            0
        }) + tail) == Some((v, tail)),
{
    lemma_read_varint(if v {
        1
    } else {
        0
    }, tail);
}

/// Reading a `string` gives back the value that was written.
pub proof fn lemma_read_string(s: Seq<char>, tail: Seq<u8>)
    requires
        encode_utf8(s).len() <= u64::MAX,
    ensures
        read_string(LENGTH_DELIMITED, delimited(encode_utf8(s)) + tail) == Some((s, tail)),
{
    let body = encode_utf8(s);
    encode_utf8_valid_utf8(s);
    encode_utf8_decode_utf8(s);
    assert(delimited(body) + tail =~= varint(body.len()) + (body + tail));
    lemma_read_varint(body.len() as u64, body + tail);
    assert((body + tail).take(body.len() as int) =~= body);
    assert((body + tail).skip(body.len() as int) =~= tail);
}

/// Reading a map entry gives back the key and the value that were written.
pub proof fn lemma_read_entry(k: Seq<char>, v: Seq<char>, tail: Seq<u8>)
    requires
        optional_string_field(1, k).len() + optional_string_field(2, v).len() <= u64::MAX,
    ensures
        read_entry(delimited(optional_string_field(1, k) + optional_string_field(2, v)) + tail)
            == Some((k, v, tail)),
{
    let kf = optional_string_field(1, k);
    let vf = optional_string_field(2, v);
    let body = kf + vf;
    assert(delimited(body) + tail =~= varint(body.len()) + (body + tail));
    lemma_read_varint(body.len() as u64, body + tail);
    let limit = tail.len();
    let empty = Seq::<char>::empty();
    assert(read_entry_fields(vf + tail, limit, k, empty) == Some((k, v, tail))) by {
        if v.len() > 0 {
            lemma_read_entry_field(2, v, tail, limit, k, empty);
        } else {
            assert(vf + tail =~= tail);
            assert(v =~= empty);
        }
    }
    assert(read_entry_fields(body + tail, limit, empty, empty) == Some((k, v, tail))) by {
        assert(body + tail =~= kf + (vf + tail));
        if k.len() > 0 {
            lemma_read_entry_field(1, k, vf + tail, limit, empty, empty);
        } else {
            assert(kf + (vf + tail) =~= vf + tail);
            assert(k =~= empty);
        }
    }
}

/// One string field of a map entry is read into its place.
proof fn lemma_read_entry_field(
    tag: u32,
    s: Seq<char>,
    tail: Seq<u8>,
    limit: nat,
    k: Seq<char>,
    v: Seq<char>,
)
    requires
        tag == 1 || tag == 2,
        encode_utf8(s).len() <= u64::MAX,
        limit <= tail.len(),
    ensures
        read_entry_fields(string_field(tag, s) + tail, limit, k, v) == if tag == 1 {
            read_entry_fields(tail, limit, s, v)
        } else {
            read_entry_fields(tail, limit, k, s)
        },
{
    let b = string_field(tag, s) + tail;
    let value = delimited(encode_utf8(s)) + tail;
    assert(b =~= key(tag, LENGTH_DELIMITED) + value);
    lemma_read_key(tag, LENGTH_DELIMITED, value);
    lemma_read_string(s, tail);
}

// ---- Why something cannot be read ----

/// The name of a wire type.
pub open spec fn wire_name(wire: u8) -> Seq<char> {
    if wire == VARINT {
        "Varint"@
    } else if wire == SIXTY_FOUR_BIT {
        "SixtyFourBit"@
    } else if wire == LENGTH_DELIMITED {
        "LengthDelimited"@
    } else if wire == START_GROUP {
        "StartGroup"@
    } else if wire == END_GROUP {
        "EndGroup"@
    } else {
        "ThirtyTwoBit"@
    }
}

/// The text about a key at the front of `b` that cannot be read.
pub open spec fn key_refusal(b: Seq<u8>) -> Seq<char> {
    let reason = match read_varint(b) {
        None => "invalid varint"@,
        Some((n, _)) => if n > u32::MAX {
            "invalid key value: "@ + text::decimal(n as nat)
        } else if n % 8 > THIRTY_TWO_BIT {
            "invalid wire type value: "@ + text::decimal((n % 8) as nat)
        } else {
            "invalid tag value: 0"@
        },
    };
    "failed to decode Protobuf message: "@ + reason
}

/// The text about a field that cannot be read for the reason `reason`.
pub open spec fn field_refusal(
    message: Seq<char>,
    field: Seq<char>,
    reason: Seq<char>,
) -> Seq<char> {
    "failed to decode Protobuf message: "@ + message + "."@ + field + ": "@ + reason
}

/// The reason where a field has the wire type `wire` in place of `expected`.
pub open spec fn wrong_wire(wire: u8, expected: u8) -> Seq<char> {
    "invalid wire type: "@ + wire_name(wire) + " (expected "@ + wire_name(expected) + ")"@
}

/// The text about a `uint32`, `int32` or `bool` that cannot be read.
pub open spec fn varint_refusal(wire: u8, message: Seq<char>, field: Seq<char>) -> Seq<char> {
    field_refusal(
        message,
        field,
        if wire != VARINT {
            wrong_wire(wire, VARINT)
        } else {
            "invalid varint"@
        },
    )
}

/// The text about a `string` at the front of `b` that cannot be read.
pub open spec fn string_refusal(
    wire: u8,
    b: Seq<u8>,
    message: Seq<char>,
    field: Seq<char>,
) -> Seq<char> {
    field_refusal(
        message,
        field,
        if wire != LENGTH_DELIMITED {
            wrong_wire(wire, LENGTH_DELIMITED)
        } else {
            match read_varint(b) {
                None => "invalid varint"@,
                Some((n, rest)) => if n > rest.len() {
                    "buffer underflow"@
                } else {
                    "invalid string value: data is not UTF-8 encoded"@
                },
            }
        },
    )
}

// ---- prost ----

/// The text of the error of `prost::encoding::skip_field` on `b`.
pub uninterp spec fn skip_refusal(wire: u8, tag: u32, b: Seq<u8>) -> Seq<char>;

/// The text of the error of `prost::encoding::hash_map::merge` on `b`, with the names of the
/// message and the field noted.
pub uninterp spec fn entry_refusal(b: Seq<u8>, message: Seq<char>, field: Seq<char>) -> Seq<char>;

/// `prost::encoding::decode_key` reads a field's key off the front of a buffer. It fails on an
/// invalid varint, on a number over 32 bits, on an unknown wire type and on field number 0. Its
/// error comes as text, which says which of these it was.
#[verifier::external_body]
pub(crate) fn decode_key<'a>(buf: &'a [u8]) -> (r: Result<(u32, u8, &'a [u8]), String>)
    ensures
        match r {
            Ok((tag, wire, rest)) => read_key(buf@) == Some((tag, wire, rest@)),
            Err(text) => read_key(buf@) is None && text@ == key_refusal(buf@),
        },
{
    let mut rest = buf;
    match prost::encoding::decode_key(&mut rest) {
        Ok((tag, wire)) => Ok((tag, wire as u8, rest)),
        Err(error) => Err(error.to_string()),
    }
}

/// `prost::encoding::skip_field` moves past the value of a field. It fails where the value is cut
/// short, where a group is closed by another field's key or nests too deep, and on a lone end of
/// a group. Its error comes as text, which has a name only: it tells of the innermost value.
#[verifier::external_body]
pub(crate) fn skip_field<'a>(wire: u8, tag: u32, buf: &'a [u8]) -> (r: Result<&'a [u8], String>)
    requires
        wire <= THIRTY_TWO_BIT,
    ensures
        match r {
            Ok(rest) => skip_value(RECURSION_LIMIT as nat, wire, tag, buf@) == Some(rest@),
            Err(text) => skip_value(RECURSION_LIMIT as nat, wire, tag, buf@) is None && text@
                == skip_refusal(wire, tag, buf@),
        },
{
    let mut rest = buf;
    let wire_type = prost::encoding::WireType::try_from(u64::from(wire)).unwrap();
    let ctx = prost::encoding::DecodeContext::default();
    match prost::encoding::skip_field(wire_type, tag, &mut rest, ctx) {
        Ok(()) => Ok(rest),
        Err(error) => Err(error.to_string()),
    }
}

/// `prost::encoding::uint32::encode` appends a `uint32` field.
#[verifier::external_body]
pub(crate) fn encode_uint32(tag: u32, value: u32, buf: &mut Vec<u8>)
    requires
        1 <= tag <= MAX_TAG,
    ensures
        final(buf)@ == old(buf)@ + uint32_field(tag, value),
{
    prost::encoding::uint32::encode(tag, &value, buf)
}

/// `prost::encoding::uint32::merge` reads a `uint32` off the front of a buffer. It fails on
/// another wire type and on an invalid varint. Its error comes as text, with the names of
/// the message and the field noted in it by `prost::DecodeError::push`, and says which of these it
/// was.
#[verifier::external_body]
pub(crate) fn merge_uint32<'a>(
    wire: u8,
    buf: &'a [u8],
    message: &'static str,
    field: &'static str,
) -> (r: Result<(u32, &'a [u8]), String>)
    requires
        wire <= THIRTY_TWO_BIT,
    ensures
        match r {
            Ok((v, rest)) => read_uint32(wire, buf@) == Some((v, rest@)),
            Err(text) => read_uint32(wire, buf@) is None && text@ == varint_refusal(
                wire,
                message@,
                field@,
            ),
        },
{
    let mut rest = buf;
    let mut value = u32::default();
    let wire_type = prost::encoding::WireType::try_from(u64::from(wire)).unwrap();
    let ctx = prost::encoding::DecodeContext::default();
    match prost::encoding::uint32::merge(wire_type, &mut value, &mut rest, ctx) {
        Ok(()) => Ok((value, rest)),
        Err(mut error) => {
            error.push(message, field);
            Err(error.to_string())
        },
    }
}

/// `prost::encoding::int32::encode` appends an `int32` field.
#[verifier::external_body]
pub(crate) fn encode_int32(tag: u32, value: i32, buf: &mut Vec<u8>)
    requires
        1 <= tag <= MAX_TAG,
    ensures
        final(buf)@ == old(buf)@ + int32_field(tag, value),
{
    prost::encoding::int32::encode(tag, &value, buf)
}

/// `prost::encoding::int32::merge` reads an `int32` off the front of a buffer. It fails on
/// another wire type and on an invalid varint. Its error comes as text, with the names of
/// the message and the field noted in it by `prost::DecodeError::push`, and says which of these it
/// was.
#[verifier::external_body]
pub(crate) fn merge_int32<'a>(
    wire: u8,
    buf: &'a [u8],
    message: &'static str,
    field: &'static str,
) -> (r: Result<(i32, &'a [u8]), String>)
    requires
        wire <= THIRTY_TWO_BIT,
    ensures
        match r {
            Ok((v, rest)) => read_int32(wire, buf@) == Some((v, rest@)),
            Err(text) => read_int32(wire, buf@) is None && text@ == varint_refusal(
                wire,
                message@,
                field@,
            ),
        },
{
    let mut rest = buf;
    let mut value = i32::default();
    let wire_type = prost::encoding::WireType::try_from(u64::from(wire)).unwrap();
    let ctx = prost::encoding::DecodeContext::default();
    match prost::encoding::int32::merge(wire_type, &mut value, &mut rest, ctx) {
        Ok(()) => Ok((value, rest)),
        Err(mut error) => {
            error.push(message, field);
            Err(error.to_string())
        },
    }
}

/// `prost::encoding::bool::encode` appends a `bool` field.
#[verifier::external_body]
pub(crate) fn encode_bool(tag: u32, value: bool, buf: &mut Vec<u8>)
    requires
        1 <= tag <= MAX_TAG,
    ensures
        final(buf)@ == old(buf)@ + bool_field(tag, value),
{
    prost::encoding::bool::encode(tag, &value, buf)
}

/// `prost::encoding::bool::merge` reads a `bool` off the front of a buffer. It fails on
/// another wire type and on an invalid varint. Its error comes as text, with the names of
/// the message and the field noted in it by `prost::DecodeError::push`, and says which of these it
/// was.
#[verifier::external_body]
pub(crate) fn merge_bool<'a>(
    wire: u8,
    buf: &'a [u8],
    message: &'static str,
    field: &'static str,
) -> (r: Result<(bool, &'a [u8]), String>)
    requires
        wire <= THIRTY_TWO_BIT,
    ensures
        match r {
            Ok((v, rest)) => read_bool(wire, buf@) == Some((v, rest@)),
            Err(text) => read_bool(wire, buf@) is None && text@ == varint_refusal(
                wire,
                message@,
                field@,
            ),
        },
{
    let mut rest = buf;
    let mut value = bool::default();
    let wire_type = prost::encoding::WireType::try_from(u64::from(wire)).unwrap();
    let ctx = prost::encoding::DecodeContext::default();
    match prost::encoding::bool::merge(wire_type, &mut value, &mut rest, ctx) {
        Ok(()) => Ok((value, rest)),
        Err(mut error) => {
            error.push(message, field);
            Err(error.to_string())
        },
    }
}

/// `prost::encoding::string::encode` appends a `string` field.
#[verifier::external_body]
pub(crate) fn encode_string(tag: u32, value: &String, buf: &mut Vec<u8>)
    requires
        1 <= tag <= MAX_TAG,
    ensures
        final(buf)@ == old(buf)@ + string_field(tag, value@),
{
    prost::encoding::string::encode(tag, value, buf)
}

/// `prost::encoding::string::merge` reads a `string` off the front of a buffer. It fails on
/// another wire type, on an invalid or too large length and on bytes that are not UTF-8. Its error
/// comes as text, with the names of the message and the field noted in it by
/// `prost::DecodeError::push`, and says which of these it was.
#[verifier::external_body]
pub(crate) fn merge_string<'a>(
    wire: u8,
    buf: &'a [u8],
    message: &'static str,
    field: &'static str,
) -> (r: Result<(String, &'a [u8]), String>)
    requires
        wire <= THIRTY_TWO_BIT,
    ensures
        match r {
            Ok((v, rest)) => read_string(wire, buf@) == Some((v@, rest@)),
            Err(text) => read_string(wire, buf@) is None && text@ == string_refusal(
                wire,
                buf@,
                message@,
                field@,
            ),
        },
{
    let mut rest = buf;
    let mut value = String::new();
    let wire_type = prost::encoding::WireType::try_from(u64::from(wire)).unwrap();
    let ctx = prost::encoding::DecodeContext::default();
    match prost::encoding::string::merge(wire_type, &mut value, &mut rest, ctx) {
        Ok(()) => Ok((value, rest)),
        Err(mut error) => {
            error.push(message, field);
            Err(error.to_string())
        },
    }
}

/// `prost::encoding::hash_map::encode` appends a field for each entry of a map; here the map has
/// one entry. An empty key or value is left out of its entry.
#[verifier::external_body]
pub(crate) fn encode_entry(tag: u32, k: &String, v: &String, buf: &mut Vec<u8>)
    requires
        1 <= tag <= MAX_TAG,
    ensures
        final(buf)@ == old(buf)@ + entry_field(tag, k@, v@),
{
    let values = std::collections::HashMap::from([(k.clone(), v.clone())]);
    prost::encoding::hash_map::encode(
        prost::encoding::string::encode,
        prost::encoding::string::encoded_len,
        prost::encoding::string::encode,
        prost::encoding::string::encoded_len,
        tag,
        &values,
        buf,
    )
}

/// `prost::encoding::hash_map::merge` reads one entry off the front of a buffer into a map; here
/// the map was empty. It fails where the entry is cut short, where a field of it is malformed and
/// where its last field ends behind it. Its error comes as text, with the names of the message and
/// the field noted in it by `prost::DecodeError::push`; the text has a name only, as it tells of
/// what is inside the entry.
#[verifier::external_body]
pub(crate) fn merge_entry<'a>(
    buf: &'a [u8],
    message: &'static str,
    field: &'static str,
) -> (r: Result<(String, String, &'a [u8]), String>)
    ensures
        match r {
            Ok((k, v, rest)) => read_entry(buf@) == Some((k@, v@, rest@)),
            Err(text) => read_entry(buf@) is None && text@ == entry_refusal(
                buf@,
                message@,
                field@,
            ),
        },
{
    let (mut rest, mut values) = (buf, std::collections::HashMap::new());
    let ctx = prost::encoding::DecodeContext::default();
    let merge = prost::encoding::string::merge;
    match prost::encoding::hash_map::merge(merge, merge, &mut values, &mut rest, ctx) {
        Ok(()) => {
            let (k, v): (String, String) = values.into_iter().next().unwrap_or_default();
            Ok((k, v, rest))
        },
        Err(mut error) => {
            error.push(message, field);
            Err(error.to_string())
        },
    }
}

} // verus!
