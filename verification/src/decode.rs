//! Reading the choices out of a decrypted ballot: the message is a protobuf
//! `Choices` message whose field 1 is a `repeated uint32` of option numbers.
//! The loop over the fields is the message's own parser; reading each field
//! is left to the protobuf runtime, on a stream over the whole message that
//! is brought to the field's position first, so that each field is read
//! from the same position, with the same limits, as by a single stream over
//! the message.
use vstd::prelude::*;

use protobuf::wire_format::WireType;
use protobuf::{CodedInputStream, UnknownFields};

verus! {

/// What reading a protobuf tag at position `pos` of `message` gives: the
/// field number, the wire type's number and the position after the tag;
/// `None` when no well-formed tag stands there.
pub uninterp spec fn protobuf_tag(message: Seq<u8>, pos: int) -> Option<(u32, u32, u64)>;

/// What reading one occurrence of a `repeated uint32` field with wire type
/// number `wire` at position `pos` of `message` gives: the numbers read, and
/// the position after the field, or `None` when it is malformed.
pub uninterp spec fn protobuf_uint32_field(wire: u32, message: Seq<u8>, pos: int) -> (
    Seq<u32>,
    Option<u64>,
);

/// The position after a field that the message does not declare, numbered
/// `field_number` with wire type number `wire`, at position `pos` of
/// `message`; `None` when it is malformed.
pub uninterp spec fn protobuf_unknown_field(
    field_number: u32,
    wire: u32,
    message: Seq<u8>,
    pos: int,
) -> Option<u64>;

/// `CodedInputStream::read_tag_unpack` on a stream over `message` that first
/// read the `pos` bytes before the tag, with the wire type given as its
/// number and the stream's position after the tag. The result is named by
/// `protobuf_tag`. Its source reads the tag as a varint of at least one
/// byte, within `message`, and only accepts a field number above zero and a
/// wire type numbered up to five.
#[verifier::external_body]
fn read_tag(message: &[u8], pos: usize) -> (r: Option<(u32, u32, u64)>)
    requires
        pos <= message@.len(),
    ensures
        r == protobuf_tag(message@, pos as int),
        r matches Some((field_number, wire, end)) ==> pos < end <= message@.len() && 1
            <= field_number && wire <= 5,
{
    let mut is = CodedInputStream::from_bytes(message);
    is.read(&mut vec![0u8; pos]).ok()?;
    match is.read_tag_unpack() {
        Ok((field_number, wire_type)) => Some((field_number, wire_type as u32, is.pos())),
        Err(_) => None,
    }
}

/// `protobuf::rt::read_repeated_uint32_into` on a stream over `message` that
/// first read the `pos` bytes before the field, with the wire type given by
/// its number (`WireType::new`) and the stream's position after the field.
/// The numbers it appends to `target` and the position are named by
/// `protobuf_uint32_field`; its source only ever pushes onto `target`, also
/// when it fails part way, and only moves forward, within `message`.
#[verifier::external_body]
fn read_uint32_field(wire: u32, message: &[u8], pos: usize, target: &mut Vec<u32>) -> (r: Option<
    u64,
>)
    requires
        pos <= message@.len(),
    ensures
        final(target)@ == old(target)@ + protobuf_uint32_field(wire, message@, pos as int).0,
        r == protobuf_uint32_field(wire, message@, pos as int).1,
        r matches Some(end) ==> pos <= end <= message@.len(),
{
    let mut is = CodedInputStream::from_bytes(message);
    is.read(&mut vec![0u8; pos]).ok()?;
    match WireType::new(wire) {
        Some(wire_type) => match protobuf::rt::read_repeated_uint32_into(wire_type, &mut is, target) {
            Ok(()) => Some(is.pos()),
            Err(_) => None,
        },
        None => None,
    }
}

/// `protobuf::rt::read_unknown_or_skip_group` on a stream over `message`
/// that first read the `pos` bytes before the field, with the wire type
/// given by its number (`WireType::new`), fresh unknown fields that are then
/// dropped, and the stream's position after the field. The result is named
/// by `protobuf_unknown_field`; its source only moves forward, within
/// `message`.
#[verifier::external_body]
fn skip_unknown_field(field_number: u32, wire: u32, message: &[u8], pos: usize) -> (r: Option<u64>)
    requires
        pos <= message@.len(),
    ensures
        r == protobuf_unknown_field(field_number, wire, message@, pos as int),
        r matches Some(end) ==> pos <= end <= message@.len(),
{
    let mut is = CodedInputStream::from_bytes(message);
    is.read(&mut vec![0u8; pos]).ok()?;
    match WireType::new(wire) {
        Some(wire_type) => match protobuf::rt::read_unknown_or_skip_group(
            field_number,
            wire_type,
            &mut is,
            &mut UnknownFields::new(),
        ) {
            Ok(()) => Some(is.pos()),
            Err(_) => None,
        },
        None => None,
    }
}

/// The option numbers of a `Choices` message read from position `pos` of
/// `message` on, the way the message's parser merges it: fields are read in
/// order until the input ends or a field is malformed; the numbers read
/// before a malformed field are kept, fields other than field 1 are passed
/// over.
pub open spec fn choices_from(message: Seq<u8>, pos: int) -> Seq<u32>
    decreases message.len() - pos,
{
    if pos < 0 || pos >= message.len() {
        Seq::empty()
    } else {
        match protobuf_tag(message, pos) {
            None => Seq::empty(),
            Some((field_number, wire, tag_end)) => if pos < tag_end <= message.len() {
                if field_number == 1 {
                    let numbers = protobuf_uint32_field(wire, message, tag_end as int).0;
                    match protobuf_uint32_field(wire, message, tag_end as int).1 {
                        Some(end) => if tag_end <= end <= message.len() {
                            numbers + choices_from(message, end as int)
                        } else {
                            numbers
                        },
                        None => numbers,
                    }
                } else {
                    match protobuf_unknown_field(field_number, wire, message, tag_end as int) {
                        Some(end) => if tag_end <= end <= message.len() {
                            choices_from(message, end as int)
                        } else {
                            Seq::empty()
                        },
                        None => Seq::empty(),
                    }
                }
            } else {
                Seq::empty()
            },
        }
    }
}

/// The option numbers of a `Choices` message whose bytes are `message`.
pub open spec fn choices_in(message: Seq<u8>) -> Seq<u32> {
    choices_from(message, 0)
}

/// The option numbers of a `Choices` message, read as `choices_in` says.
/// The input ends where the position reaches the message's length, which is
/// what the stream's `eof` answers over a byte slice with no limit pushed.
pub fn decode_choices(message: &[u8]) -> (data: Vec<u32>)
    ensures
        data@ == choices_in(message@),
{
    let mut data: Vec<u32> = Vec::new();
    let mut pos: usize = 0;
    loop
        invariant_except_break
            choices_in(message@) == data@ + choices_from(message@, pos as int),
        invariant
            pos <= message@.len(),
        ensures
            data@ == choices_in(message@),
        decreases message@.len() - pos,
    {
        if pos == message.len() {
            assert(data@ + Seq::<u32>::empty() =~= data@);
            break;
        }
        let (field_number, wire, tag_end) = match read_tag(message, pos) {
            Some(tag) => tag,
            None => {
                assert(data@ + Seq::<u32>::empty() =~= data@);
                break;
            },
        };
        let tag_end: usize = tag_end as usize;
        let ghost before = data@;
        let read = if field_number == 1 {
            read_uint32_field(wire, message, tag_end, &mut data)
        } else {
            skip_unknown_field(field_number, wire, message, tag_end)
        };
        match read {
            Some(end) => {
                proof {
                    if field_number == 1 {
                        assert(before + protobuf_uint32_field(wire, message@, tag_end as int).0
                            + choices_from(message@, end as int) =~= before + (
                        protobuf_uint32_field(wire, message@, tag_end as int).0 + choices_from(
                            message@,
                            end as int,
                        )));
                    }
                }
                pos = end as usize;
            },
            None => {
                if field_number != 1 {
                    assert(data@ + Seq::<u32>::empty() =~= data@);
                }
                break;
            },
        }
    }
    data
}

} // verus!
