//! The byte layout of the protocol: big-endian integers, the constants of
//! the handshake and of the continuation marker, and the frame of one file.

use vstd::prelude::*;
use vstd::string::StringSliceAdditionalSpecFns;
use vstd::utf8::encode_utf8;

verus! {

/// The only protocol version this implementation speaks.
pub const PROTOCOL_VERSION: u32 = 0;

/// The byte a client sends to accept the server's version.
pub const ACKNOWLEDGEMENT: u8 = 0;

/// The continuation marker that announces another file.
pub const MARKER_FILE_FOLLOWS: u8 = 1;

/// The continuation marker that ends the stream.
pub const MARKER_END_OF_STREAM: u8 = 0;

/// Width of the version and of the name-length field.
pub const WORD_BYTES: usize = 4;

/// Width of the file-size field.
pub const SIZE_BYTES: usize = 8;

/// Largest number of payload bytes requested from the connection at once.
/// An implementation constant, not part of the wire format.
pub const CHUNK_BYTES: usize = 1024;

/// The number that `bytes` denotes when read as a big-endian integer.
pub open spec fn be_value(bytes: Seq<u8>) -> nat
    decreases bytes.len(),
{
    if bytes.len() == 0 {
        0
    } else {
        be_value(bytes.drop_last()) * 256 + bytes.last() as nat
    }
}

/// The big-endian representation of `value` in `width` bytes (the low
/// `width` bytes of it, where it does not fit).
pub open spec fn be_bytes(value: nat, width: nat) -> Seq<u8>
    decreases width,
{
    if width == 0 {
        Seq::empty()
    } else {
        be_bytes(value / 256, (width - 1) as nat).push((value % 256) as u8)
    }
}

/// The number of values that `width` bytes can tell apart.
pub open spec fn be_limit(width: nat) -> nat
    decreases width,
{
    if width == 0 {
        1
    } else {
        256 * be_limit((width - 1) as nat)
    }
}

/// The representation in `width` bytes has `width` bytes.
pub proof fn lemma_be_bytes_len(value: nat, width: nat)
    ensures
        be_bytes(value, width).len() == width,
    decreases width,
{
    if width > 0 {
        lemma_be_bytes_len(value / 256, (width - 1) as nat);
    }
}

/// Decoding undoes encoding for every value that fits the width.
pub proof fn lemma_be_round_trip(value: nat, width: nat)
    requires
        value < be_limit(width),
    ensures
        be_value(be_bytes(value, width)) == value,
    decreases width,
{
    if width > 0 {
        let head = be_bytes(value / 256, (width - 1) as nat);
        lemma_be_round_trip(value / 256, (width - 1) as nat);
        assert(be_bytes(value, width).drop_last() =~= head);
    }
}

/// A big-endian number is below the limit of its width.
pub proof fn lemma_be_value_bound(bytes: Seq<u8>)
    ensures
        be_value(bytes) < be_limit(bytes.len()),
    decreases bytes.len(),
{
    if bytes.len() > 0 {
        lemma_be_value_bound(bytes.drop_last());
    }
}

/// The limits of the two widths that the protocol uses.
pub proof fn lemma_be_limits()
    ensures
        be_limit(4) == 0x1_0000_0000,
        be_limit(8) == 0x1_0000_0000_0000_0000,
{
    reveal_with_fuel(be_limit, 9);
}

proof fn lemma_be_value_word(bytes: Seq<u8>)
    requires
        bytes.len() == 4,
    ensures
        be_value(bytes) == bytes[0] * 0x100_0000 + bytes[1] * 0x1_0000 + bytes[2] * 0x100
            + bytes[3],
{
    let b3 = bytes.drop_last();
    let b2 = b3.drop_last();
    let b1 = b2.drop_last();
    let b0 = b1.drop_last();
    assert(be_value(b0) == 0);
    assert(be_value(b1) == bytes[0]);
    assert(be_value(b2) == bytes[0] * 0x100 + bytes[1]);
    assert(be_value(b3) == bytes[0] * 0x1_0000 + bytes[1] * 0x100 + bytes[2]);
}

proof fn lemma_be_value_split(bytes: Seq<u8>, at: int)
    requires
        0 <= at <= bytes.len(),
    ensures
        be_value(bytes) == be_value(bytes.subrange(0, at)) * be_limit((bytes.len() - at) as nat)
            + be_value(bytes.subrange(at, bytes.len() as int)),
    decreases bytes.len(),
{
    let low = bytes.subrange(at, bytes.len() as int);
    let high = bytes.subrange(0, at);
    let h = be_value(high);
    let scale = be_limit((bytes.len() - at) as nat);
    if at == bytes.len() {
        assert(high =~= bytes);
        assert(low.len() == 0);
        assert(scale == 1);
        assert(h * scale == h) by (nonlinear_arith)
            requires
                scale == 1,
        ;
    } else {
        let front = bytes.drop_last();
        lemma_be_value_split(front, at);
        assert(front.subrange(0, at) =~= high);
        assert(front.subrange(at, front.len() as int) =~= low.drop_last());
        let l = be_limit((front.len() - at) as nat);
        let x = be_value(low.drop_last());
        assert(scale == 256 * l);
        assert(be_value(low) == x * 256 + bytes.last());
        assert(be_value(front) == h * l + x);
        assert(be_value(bytes) == be_value(front) * 256 + bytes.last());
        assert(h * scale == (h * l) * 256) by (nonlinear_arith)
            requires
                scale == 256 * l,
        ;
    }
}

/// Reads a big-endian `u32`; `None` unless exactly four bytes are given.
pub fn decode_u32(bytes: &[u8]) -> (value: Option<u32>)
    ensures
        value is Some <==> bytes@.len() == 4,
        value matches Some(v) ==> v == be_value(bytes@),
{
    if bytes.len() != 4 {
        return None;
    }
    proof {
        lemma_be_value_word(bytes@);
    }
    Some(
        (bytes[0] as u32) * 0x100_0000 + (bytes[1] as u32) * 0x1_0000 + (bytes[2] as u32) * 0x100
            + (bytes[3] as u32),
    )
}

/// Reads a big-endian `u64`; `None` unless exactly eight bytes are given.
pub fn decode_u64(bytes: &[u8]) -> (value: Option<u64>)
    ensures
        value is Some <==> bytes@.len() == 8,
        value matches Some(v) ==> v == be_value(bytes@),
{
    if bytes.len() != 8 {
        return None;
    }
    proof {
        lemma_be_value_split(bytes@, 4);
        lemma_be_value_word(bytes@.subrange(0, 4));
        lemma_be_value_word(bytes@.subrange(4, 8));
        lemma_be_limits();
    }
    let high: u64 = (bytes[0] as u64) * 0x100_0000 + (bytes[1] as u64) * 0x1_0000
        + (bytes[2] as u64) * 0x100 + (bytes[3] as u64);
    let low: u64 = (bytes[4] as u64) * 0x100_0000 + (bytes[5] as u64) * 0x1_0000
        + (bytes[6] as u64) * 0x100 + (bytes[7] as u64);
    Some(high * 0x1_0000_0000 + low)
}

/// Appends the big-endian representation of `value` in `width` bytes.
pub fn append_be(out: &mut Vec<u8>, value: u64, width: usize)
    ensures
        final(out)@ == old(out)@ + be_bytes(value as nat, width as nat),
    decreases width,
{
    if width > 0 {
        append_be(out, value / 256, width - 1);
        out.push((value % 256) as u8);
        assert(out@ =~= old(out)@ + be_bytes(value as nat, width as nat));
    } else {
        assert(out@ =~= old(out)@ + be_bytes(value as nat, width as nat));
    }
}

/// What precedes the payload of a file on the wire: the length of the name,
/// the bytes of the name, and the size of the payload.
pub open spec fn frame_header(name: Seq<u8>, size: nat) -> Seq<u8> {
    be_bytes(name.len(), 4) + name + be_bytes(size, 8)
}

/// The frame of one file on the wire: the header, with the name in UTF-8,
/// and the payload.
pub open spec fn file_frame(name: Seq<char>, payload: Seq<u8>) -> Seq<u8> {
    frame_header(encode_utf8(name), payload.len()) + payload
}

/// Whether a file of this name and payload can be framed: both lengths must
/// fit their fields.
pub open spec fn frameable(name: Seq<char>, payload: Seq<u8>) -> bool {
    encode_utf8(name).len() <= u32::MAX && payload.len() <= u64::MAX
}

/// Frames one file for sending; `None` where the name is too long for its
/// length field.
pub fn encode_file(name: &str, payload: &[u8]) -> (frame: Option<Vec<u8>>)
    ensures
        frame is Some <==> frameable(name@, payload@),
        frame matches Some(bytes) ==> bytes@ == file_frame(name@, payload@),
{
    let name_bytes = name.as_bytes();
    if name_bytes.len() > 0xffff_ffff {
        return None;
    }
    let mut out: Vec<u8> = Vec::new();
    append_be(&mut out, name_bytes.len() as u64, 4);
    extend(&mut out, name_bytes);
    append_be(&mut out, payload.len() as u64, 8);
    extend(&mut out, payload);
    Some(out)
}

/// Appends a copy of `bytes` to `out`.
pub fn extend(out: &mut Vec<u8>, bytes: &[u8])
    ensures
        final(out)@ == old(out)@ + bytes@,
{
    out.extend_from_slice(bytes);
    assert(out@ =~= old(out)@ + bytes@);
}

} // verus!
