//! The binary framing of one key/value record.
//!
//! A record is laid out as a CRC-32 of the payload, the key's length, the
//! value's length (each four bytes, little-endian), and then the payload:
//! the key's bytes followed by the value's bytes.

use vstd::prelude::*;
use vstd::slice::{slice_subrange, slice_to_vec};
use byteorder::{ByteOrder, LittleEndian};
use crate::checksum::{crc32_checksum, crc32_iso_hdlc};
use crate::error::StoreError;

verus! {

/// The number of bytes that precede a record's payload.
pub const HEADER_LEN: usize = 12;

/// A key and its value, as one record of the log holds them.
#[derive(Debug, Clone, PartialEq, Eq)]
pub struct KeyValuePair {
    pub key: Vec<u8>,
    pub value: Vec<u8>,
}

/// What is found at the start of a byte sequence that is read as a record.
pub enum Frame {
    /// No bytes at all: the clean end of a log.
    End,
    /// A whole record whose checksum matches its payload.
    Record { key: Seq<u8>, value: Seq<u8> },
    /// Fewer bytes than a header, or fewer than the header declares.
    Truncated,
    /// A whole record whose checksum does not match its payload.
    Corrupt,
}

/// The four bytes of `n`, least significant first.
pub open spec fn le_bytes(n: u32) -> Seq<u8> {
    seq![
        (n & 0xff) as u8,
        ((n >> 8) & 0xff) as u8,
        ((n >> 16) & 0xff) as u8,
        ((n >> 24) & 0xff) as u8,
    ]
}

/// The number whose little-endian bytes are the first four of `bytes`.
pub open spec fn le_value(bytes: Seq<u8>) -> u32
    recommends
        bytes.len() >= 4,
{
    (bytes[0] as u32) | ((bytes[1] as u32) << 8) | ((bytes[2] as u32) << 16) | ((bytes[3] as u32)
        << 24)
}

/// The header of the record that holds `key` and `value`: the checksum of
/// the payload, the key's length and the value's length.
pub open spec fn header(key: Seq<u8>, value: Seq<u8>) -> Seq<u8> {
    le_bytes(crc32_iso_hdlc(key + value)) + le_bytes(key.len() as u32) + le_bytes(
        value.len() as u32,
    )
}

/// The bytes of a record that is laid out with the checksum `checksum`.
pub open spec fn framed(checksum: u32, key: Seq<u8>, value: Seq<u8>) -> Seq<u8> {
    le_bytes(checksum) + le_bytes(key.len() as u32) + le_bytes(value.len() as u32) + key + value
}

/// The bytes of the record that holds `key` and `value`: laid out with the
/// checksum of the key followed by the value.
pub open spec fn encoded(key: Seq<u8>, value: Seq<u8>) -> Seq<u8> {
    framed(crc32_iso_hdlc(key + value), key, value)
}

/// The length of the record that holds `key` and `value`.
pub open spec fn encoded_len(key: Seq<u8>, value: Seq<u8>) -> nat {
    HEADER_LEN as nat + key.len() + value.len()
}

/// Where the record at the start of a byte sequence lies, before its
/// checksum is judged.
pub enum Layout {
    /// No bytes at all: the clean end of a log.
    End,
    /// Fewer bytes than a header, or fewer than the header declares.
    Truncated,
    /// A whole record: its stored checksum, the length of its key, and its
    /// payload, the key followed by the value.
    Framed { checksum: u32, key_len: u32, payload: Seq<u8> },
}

/// Finds the record at the start of `source`.
pub open spec fn layout(source: Seq<u8>) -> Layout {
    if source.len() == 0 {
        Layout::End
    } else if source.len() < HEADER_LEN {
        Layout::Truncated
    } else {
        let key_len = le_value(source.subrange(4, 8));
        let value_len = le_value(source.subrange(8, 12));
        if source.len() < HEADER_LEN + key_len + value_len {
            Layout::Truncated
        } else {
            Layout::Framed {
                checksum: le_value(source.subrange(0, 4)),
                key_len,
                payload: source.subrange(HEADER_LEN as int, HEADER_LEN + key_len + value_len),
            }
        }
    }
}

/// Judges a payload by its checksum: a record where the computed checksum
/// is the stored one, corrupt where it is not.
pub open spec fn judged(saved: u32, computed: u32, key_len: int, payload: Seq<u8>) -> Frame {
    if saved != computed {
        Frame::Corrupt
    } else {
        Frame::Record { key: payload.take(key_len), value: payload.skip(key_len) }
    }
}

/// Reads the start of `source` as one record: finds it, and judges its
/// payload by the checksum of that payload.
pub open spec fn parse(source: Seq<u8>) -> Frame {
    match layout(source) {
        Layout::End => Frame::End,
        Layout::Truncated => Frame::Truncated,
        Layout::Framed { checksum, key_len, payload } => judged(
            checksum,
            crc32_iso_hdlc(payload),
            key_len as int,
            payload,
        ),
    }
}

/// Reading back the little-endian bytes of a number gives the number.
pub proof fn lemma_le_value_of_le_bytes(n: u32)
    ensures
        le_bytes(n).len() == 4,
        le_value(le_bytes(n)) == n,
{
    let b0 = (n & 0xff) as u8;
    let b1 = ((n >> 8) & 0xff) as u8;
    let b2 = ((n >> 16) & 0xff) as u8;
    let b3 = ((n >> 24) & 0xff) as u8;
    assert((b0 as u32) | ((b1 as u32) << 8) | ((b2 as u32) << 16) | ((b3 as u32) << 24) == n)
        by (bit_vector)
        requires
            b0 == (n & 0xff) as u8,
            b1 == ((n >> 8) & 0xff) as u8,
            b2 == ((n >> 16) & 0xff) as u8,
            b3 == ((n >> 24) & 0xff) as u8,
    ;
}

/// A record that is read from a byte sequence lies within it.
pub proof fn lemma_record_fits(source: Seq<u8>)
    ensures
        match parse(source) {
            Frame::Record { key, value } => encoded_len(key, value) <= source.len(),
            _ => true,
        },
{
}

/// A header followed by a payload of the length that it declares is read as
/// a record where the payload's checksum is the stored one, and as corrupt
/// where it is not, whatever follows the payload.
pub proof fn lemma_parse_framed(key: Seq<u8>, value: Seq<u8>, payload: Seq<u8>, rest: Seq<u8>)
    requires
        key.len() <= u32::MAX,
        value.len() <= u32::MAX,
        payload.len() == key.len() + value.len(),
    ensures
        parse(header(key, value) + payload + rest) == (if crc32_iso_hdlc(payload)
            == crc32_iso_hdlc(key + value) {
            Frame::Record {
                key: payload.take(key.len() as int),
                value: payload.skip(key.len() as int),
            }
        } else {
            Frame::Corrupt
        }),
{
    let source = header(key, value) + payload + rest;
    let sum = crc32_iso_hdlc(key + value);
    lemma_le_value_of_le_bytes(sum);
    lemma_le_value_of_le_bytes(key.len() as u32);
    lemma_le_value_of_le_bytes(value.len() as u32);
    assert(source.subrange(0, 4) =~= le_bytes(sum));
    assert(source.subrange(4, 8) =~= le_bytes(key.len() as u32));
    assert(source.subrange(8, 12) =~= le_bytes(value.len() as u32));
    assert(source.subrange(HEADER_LEN as int, HEADER_LEN + key.len() + value.len())
        =~= payload);
}

/// Decoding an encoded record gives back its key and its value, whatever
/// follows the record.
pub proof fn lemma_parse_encoded(key: Seq<u8>, value: Seq<u8>, rest: Seq<u8>)
    requires
        key.len() <= u32::MAX,
        value.len() <= u32::MAX,
    ensures
        encoded(key, value).len() == encoded_len(key, value),
        parse(encoded(key, value) + rest) == (Frame::Record { key, value }),
{
    lemma_parse_framed(key, value, key + value, rest);
    lemma_le_value_of_le_bytes(crc32_iso_hdlc(key + value));
    lemma_le_value_of_le_bytes(key.len() as u32);
    lemma_le_value_of_le_bytes(value.len() as u32);
    assert(encoded(key, value) + rest =~= header(key, value) + (key + value) + rest);
    assert((key + value).take(key.len() as int) =~= key);
    assert((key + value).skip(key.len() as int) =~= value);
}

/// Round trip: decoding the record that holds `key` and `value` gives `key`
/// and `value`.
pub proof fn lemma_decode_encode_roundtrip(key: Seq<u8>, value: Seq<u8>)
    requires
        key.len() <= u32::MAX,
        value.len() <= u32::MAX,
    ensures
        parse(encoded(key, value)) == (Frame::Record { key, value }),
{
    lemma_parse_encoded(key, value, Seq::empty());
    assert(encoded(key, value) + Seq::<u8>::empty() =~= encoded(key, value));
}

/// An encoded record whose payload was altered in place is reported as
/// corrupt exactly where the altered payload's checksum differs from the
/// stored one; it is never read as the record that was written.
pub proof fn lemma_altered_payload_detected(key: Seq<u8>, value: Seq<u8>, altered: Seq<u8>)
    requires
        key.len() <= u32::MAX,
        value.len() <= u32::MAX,
        altered.len() == key.len() + value.len(),
        altered != key + value,
    ensures
        parse(header(key, value) + altered) == Frame::Corrupt <==> crc32_iso_hdlc(altered)
            != crc32_iso_hdlc(key + value),
        parse(header(key, value) + altered) != (Frame::Record { key, value }),
{
    lemma_parse_framed(key, value, altered, Seq::empty());
    assert(header(key, value) + altered + Seq::<u8>::empty() =~= header(key, value) + altered);
    if parse(header(key, value) + altered) == (Frame::Record { key, value }) {
        assert(altered.take(key.len() as int) + altered.skip(key.len() as int) =~= altered);
    }
}

/// The bytes `payload` with bit `bit` of the byte at `at` flipped.
pub open spec fn flipped(payload: Seq<u8>, at: int, bit: u8) -> Seq<u8> {
    payload.update(at, payload[at] ^ (1u8 << bit))
}

/// An encoded record in whose payload one bit was flipped is never read as
/// the record that was written: it is reported as corrupt, unless the
/// checksum of the flipped payload is the stored one.
pub proof fn lemma_flipped_bit_detected(key: Seq<u8>, value: Seq<u8>, at: int, bit: u8)
    requires
        key.len() <= u32::MAX,
        value.len() <= u32::MAX,
        0 <= at < key.len() + value.len(),
        bit < 8,
    ensures
        flipped(key + value, at, bit) != key + value,
        parse(header(key, value) + flipped(key + value, at, bit)) == Frame::Corrupt
            <==> crc32_iso_hdlc(flipped(key + value, at, bit)) != crc32_iso_hdlc(key + value),
        parse(header(key, value) + flipped(key + value, at, bit)) != (Frame::Record {
            key,
            value,
        }),
{
    let payload = key + value;
    let byte = payload[at];
    assert(byte ^ (1u8 << bit) != byte) by (bit_vector)
        requires
            bit < 8,
    ;
    assert(flipped(payload, at, bit)[at] != payload[at]);
    lemma_altered_payload_detected(key, value, flipped(payload, at, bit));
}

/// Calls `byteorder::LittleEndian::write_u32` on a buffer of four bytes, which
/// it fills with the bytes of `n`, least significant first.
#[verifier::external_body]
fn write_le_u32(n: u32) -> (bytes: [u8; 4])
    ensures
        bytes@ == le_bytes(n),
{
    let mut buf = [0u8; 4];
    LittleEndian::write_u32(&mut buf, n);
    buf
}

/// Calls `byteorder::LittleEndian::read_u32`, which reads the first four bytes
/// of `buf` as a number, least significant byte first. It panics on a shorter
/// buffer.
#[verifier::external_body]
fn read_le_u32(buf: &[u8]) -> (n: u32)
    requires
        buf@.len() >= 4,
    ensures
        n == le_value(buf@),
{
    LittleEndian::read_u32(buf)
}

/// Appends `bytes` to `buf`.
pub(crate) fn put(buf: &mut Vec<u8>, bytes: &[u8])
    ensures
        final(buf)@ == old(buf)@ + bytes@,
{
    buf.extend_from_slice(bytes);
    proof {
        assert(buf@ =~= old(buf)@ + bytes@);
    }
}

/// Lays out a record: the checksum, the two lengths, the key and the
/// value.
pub fn frame(checksum: u32, key: &[u8], value: &[u8]) -> (bytes: Vec<u8>)
    requires
        key@.len() <= u32::MAX,
        value@.len() <= u32::MAX,
    ensures
        bytes@ == framed(checksum, key@, value@),
{
    let mut bytes: Vec<u8> = Vec::new();
    let sum_bytes = write_le_u32(checksum);
    let key_len_bytes = write_le_u32(key.len() as u32);
    let value_len_bytes = write_le_u32(value.len() as u32);
    put(&mut bytes, sum_bytes.as_slice());
    put(&mut bytes, key_len_bytes.as_slice());
    put(&mut bytes, value_len_bytes.as_slice());
    put(&mut bytes, key);
    put(&mut bytes, value);
    assert(bytes@ =~= framed(checksum, key@, value@));
    bytes
}

/// Builds the record that holds `key` and `value`: laid out with the
/// checksum of the key followed by the value.
pub fn encode(key: &[u8], value: &[u8]) -> (bytes: Vec<u8>)
    requires
        key@.len() <= u32::MAX,
        value@.len() <= u32::MAX,
    ensures
        bytes@ == encoded(key@, value@),
{
    let mut payload: Vec<u8> = Vec::new();
    put(&mut payload, key);
    put(&mut payload, value);
    assert(payload@ =~= key@ + value@);
    let checksum = crc32_checksum(payload.as_slice());
    let bytes = frame(checksum, key, value);
    assert(bytes@ =~= encoded(key@, value@));
    bytes
}

/// Finds the record at the start of `source` without judging its
/// checksum: gives the stored checksum, the key's length and the payload.
/// The clean end of a log (no bytes at all) gives `Ok(None)`; fewer bytes
/// than a header, or than the header declares, is a truncated record.
pub fn split_frame(source: &[u8]) -> (outcome: Result<Option<(u32, u32, &[u8])>, StoreError>)
    ensures
        match layout(source@) {
            Layout::End => outcome matches Ok(None),
            Layout::Truncated => outcome matches Err(StoreError::Truncated),
            Layout::Framed { checksum, key_len, payload } => match outcome {
                Ok(Some(found)) => found.0 == checksum && found.1 == key_len && found.2@
                    == payload,
                _ => false,
            },
        },
{
    let available = source.len();
    if available == 0 {
        return Ok(None);
    }
    if available < HEADER_LEN {
        return Err(StoreError::Truncated);
    }
    let saved_checksum = read_le_u32(slice_subrange(source, 0, 4));
    let key_len = read_le_u32(slice_subrange(source, 4, 8));
    let value_len = read_le_u32(slice_subrange(source, 8, 12));
    let data_len: u64 = key_len as u64 + value_len as u64;
    if ((available - HEADER_LEN) as u64) < data_len {
        return Err(StoreError::Truncated);
    }
    let end: usize = HEADER_LEN + key_len as usize + value_len as usize;
    Ok(Some((saved_checksum, key_len, slice_subrange(source, HEADER_LEN, end))))
}

/// Judges a payload by its checksum: where the computed checksum is the
/// stored one, the payload is split into the key and the value; where it is
/// not, the record is corrupt.
pub fn accept(saved: u32, computed: u32, key_len: u32, payload: &[u8]) -> (outcome: Result<
    KeyValuePair,
    StoreError,
>)
    requires
        key_len <= payload@.len(),
    ensures
        match judged(saved, computed, key_len as int, payload@) {
            Frame::Record { key, value } => match outcome {
                Ok(pair) => pair.key@ == key && pair.value@ == value,
                _ => false,
            },
            _ => outcome matches Err(StoreError::Corruption),
        },
{
    if saved != computed {
        return Err(StoreError::Corruption);
    }
    let key_part = slice_subrange(payload, 0, key_len as usize);
    let value_part = slice_subrange(payload, key_len as usize, payload.len());
    assert(key_part@ =~= payload@.take(key_len as int));
    assert(value_part@ =~= payload@.skip(key_len as int));
    Ok(KeyValuePair { key: slice_to_vec(key_part), value: slice_to_vec(value_part) })
}

/// Reads one record from the start of `source`. The clean end of a log (no
/// bytes at all) is no failure: it gives `Ok(None)`.
pub fn decode(source: &[u8]) -> (outcome: Result<Option<KeyValuePair>, StoreError>)
    ensures
        match parse(source@) {
            Frame::End => outcome == Ok::<Option<KeyValuePair>, StoreError>(None),
            Frame::Record { key, value } => match outcome {
                Ok(Some(pair)) => pair.key@ == key && pair.value@ == value,
                _ => false,
            },
            Frame::Truncated => outcome == Err::<Option<KeyValuePair>, StoreError>(
                StoreError::Truncated,
            ),
            Frame::Corrupt => outcome == Err::<Option<KeyValuePair>, StoreError>(
                StoreError::Corruption,
            ),
        },
{
    match split_frame(source) {
        Ok(None) => Ok(None),
        Ok(Some((saved, key_len, payload))) => {
            match accept(saved, crc32_checksum(payload), key_len, payload) {
                Ok(pair) => Ok(Some(pair)),
                Err(error) => Err(error),
            }
        },
        Err(error) => Err(error),
    }
}

} // verus!
