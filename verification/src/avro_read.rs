//! The trusted boundary to the Avro container format: whole-file
//! decompression and record decoding. Decompression and envelope-parse
//! success are functions of the bytes alone and carry names; nothing is
//! assumed of the decoded entries themselves — the engine is verified for
//! every possible outcome.
use vstd::prelude::*;
use avro_rs::types::Value;
use crate::service::DecodedEntry;
use crate::value::FieldValue;

verus! {

#[verifier::external_type_specification]
#[verifier::external_body]
pub struct ExAvroValue(Value);

/// Relies on the variants of `avro_rs::types::Value`: carries each decoded
/// scalar into the library's value model, one arm per variant; the float
/// variants are fixed as their display text here, once. Compound variants
/// are handed on to `nested_field_value_of`.
#[verifier::external_body]
fn field_value_of(v: Value) -> FieldValue {
    match v {
        Value::Null => FieldValue::Null,
        Value::Boolean(b) => FieldValue::Boolean(b),
        Value::Int(i) => FieldValue::Int(i),
        Value::Long(l) => FieldValue::Long(l),
        Value::Float(f) => FieldValue::Float(format!("{}", f)),
        Value::Double(d) => FieldValue::Double(format!("{}", d)),
        Value::Bytes(b) => FieldValue::Bytes(b),
        Value::String(s) => FieldValue::Str(s),
        Value::Fixed(w, b) => FieldValue::Fixed(w, b),
        Value::Enum(i, s) => FieldValue::Enum(i, s),
        other => nested_field_value_of(other),
    }
}

/// Relies on the compound variants of `avro_rs::types::Value`: carries each
/// into the library's value model, converting the contained values
/// recursively, one arm per variant and moving fields only. A map's entries
/// arrive in its iteration order.
#[verifier::external_body]
fn nested_field_value_of(v: Value) -> FieldValue {
    match v {
        Value::Union(u) => FieldValue::Union(Box::new(field_value_of(*u))),
        Value::Array(a) => FieldValue::Array(
            a.into_iter().map(field_value_of).collect(),
        ),
        Value::Map(m) => FieldValue::Mapping(
            m.into_iter().map(|(k, w)| (k, field_value_of(w))).collect(),
        ),
        Value::Record(r) => FieldValue::Record(
            r.into_iter().map(|(k, w)| (k, field_value_of(w))).collect(),
        ),
        other => field_value_of(other),
    }
}

/// What inflating a whole byte buffer with the deflate codec yields: the
/// inflated bytes where the buffer is a valid RFC 1951 stream, `None` where
/// it is not. The name stands for the result of
/// `avro_rs::Codec::decompress` with the `Deflate` codec, which depends on
/// the bytes alone.
pub uninterp spec fn inflate_of(bytes: Seq<u8>) -> Option<Seq<u8>>;

/// Whether a byte buffer opens as an Avro container: its magic bytes,
/// metadata and embedded schema parse. The name stands for the success of
/// `avro_rs::Reader::new`, which depends on the bytes alone.
pub uninterp spec fn avro_container_ok(bytes: Seq<u8>) -> bool;

/// Whether the record decoder runs to completion on a container buffer
/// rather than faulting. Two crafted-input faults of the decoder escape its
/// own error handling: an enum entry whose data carries an index one past
/// the schema's symbol list indexes out of bounds (the decoder's bound
/// check accepts the length itself), and a block whose declared byte length
/// does not fit a buffer overflows the buffer's capacity. The library's
/// verified functions promise not to panic, so the decode boundary keeps
/// such buffers out by precondition. Nothing short of running the decoder
/// can test this predicate: it is trusted, not checked, and a caller
/// handing the loader an adversarial container faults exactly where the
/// decoder does.
pub uninterp spec fn avro_decode_safe(bytes: Seq<u8>) -> bool;

/// Relies on `avro_rs::Codec::decompress` with the `Deflate` codec: inflates
/// the whole byte buffer in place, or fails on bytes that are not a valid
/// deflate stream — either way a function of the bytes alone.
#[verifier::external_body]
pub(crate) fn deflate_decompress(data: Vec<u8>) -> (r: Result<Vec<u8>, ()>)
    ensures
        r matches Ok(out) ==> inflate_of(data@) == Option::Some(out@),
        r is Err ==> inflate_of(data@) is None,
{
    let mut buf = data;
    match avro_rs::Codec::Deflate.decompress(&mut buf) {
        Ok(()) => Ok(buf),
        Err(_) => Err(()),
    }
}

/// Relies on `avro_rs::Reader::new` and its record iterator: parses the
/// container envelope — succeeding exactly on the buffers whose envelope is
/// readable, a function of the bytes alone — then decodes the records in
/// file order; a record that fails to decode becomes the corrupt marker at
/// its position, and the reader yields nothing after a failed record.
/// The precondition keeps out the buffers that would fault the decoder
/// (see `avro_decode_safe`); the last clause records that any returning
/// call was such a run. Nothing is assumed of the entries themselves: a
/// map's entries arrive in an iteration order that is not a function of
/// the bytes.
#[verifier::external_body]
pub(crate) fn read_entries(data: &Vec<u8>) -> (r: Result<Vec<DecodedEntry>, ()>)
    requires
        avro_decode_safe(data@),
    ensures
        r is Ok <==> avro_container_ok(data@),
        r is Ok ==> avro_decode_safe(data@),
{
    let reader = match avro_rs::Reader::new(&data[..]) {
        Ok(reader) => reader,
        Err(_) => return Err(()),
    };
    Ok(
        reader.map(
            |row| match row {
                Ok(v) => DecodedEntry::Value(field_value_of(v)),
                Err(_) => DecodedEntry::Corrupt,
            },
        ).collect(),
    )
}

} // verus!
