//! How messages are laid out as bytes on a stream.
//!
//! A control message is preceded by its length, four bytes with the lowest
//! first. A clipboard message has a stream of its own, and a tag byte before its
//! length.
use vstd::prelude::*;

verus! {

/// The first byte of a stream that carries clipboard contents.
pub const CLIPBOARD_TAG: u8 = 0xCB;

/// The longest clipboard message that is read, in bytes.
pub const CLIPBOARD_LIMIT: usize = 10485760;

/// A number below `2^32` as four bytes, the lowest first.
pub open spec fn le32(n: int) -> Seq<u8> {
    seq![
        (n % 256) as u8,
        (n / 256 % 256) as u8,
        (n / 65536 % 256) as u8,
        (n / 16777216 % 256) as u8,
    ]
}

/// The number that four bytes stand for, the lowest first.
pub open spec fn le32_value(b: Seq<u8>) -> int {
    b[0] + 256 * b[1] + 65536 * b[2] + 16777216 * b[3]
}

/// A number survives the way into four bytes and back.
pub proof fn le32_reads_back(n: int)
    requires
        0 <= n <= u32::MAX,
    ensures
        le32_value(le32(n)) == n,
        le32(n).len() == 4,
{
}

/// Appends bytes to a buffer.
pub fn append_bytes(out: &mut Vec<u8>, bytes: &[u8])
    ensures
        final(out)@ == old(out)@ + bytes@,
{
    out.extend_from_slice(bytes);
    assert(out@ == old(out)@ + bytes@);
}

/// Appends a number as four bytes, the lowest first.
pub fn append_le32(out: &mut Vec<u8>, n: u32)
    ensures
        final(out)@ == old(out)@ + le32(n as int),
{
    out.push((n % 256) as u8);
    out.push((n / 256 % 256) as u8);
    out.push((n / 65536 % 256) as u8);
    out.push((n / 16777216 % 256) as u8);
    assert(out@ == old(out)@ + le32(n as int));
}

/// The length that is written before a message: its number of bytes, as far as
/// 32 bits can tell.
pub open spec fn length_field(payload: Seq<u8>) -> int {
    payload.len() as int % 0x1_0000_0000
}

fn length_of(payload: &[u8]) -> (r: u32)
    ensures
        r == length_field(payload@),
{
    (payload.len() as u64 % 0x1_0000_0000) as u32
}

/// A control message on the stream.
pub open spec fn control_framed(payload: Seq<u8>) -> Seq<u8> {
    le32(length_field(payload)) + payload
}

/// Puts the length before a control message.
pub fn control_frame(payload: &[u8]) -> (r: Vec<u8>)
    ensures
        r@ == control_framed(payload@),
{
    let mut r: Vec<u8> = Vec::new();
    append_le32(&mut r, length_of(payload));
    append_bytes(&mut r, payload);
    r
}

/// The number of bytes that follow the length of a control message.
pub fn control_length(header: [u8; 4]) -> (r: usize)
    ensures
        r == le32_value(header@),
{
    let v: u32 = header[0] as u32 + 256 * header[1] as u32 + 65536 * header[2] as u32 + 16777216
        * header[3] as u32;
    v as usize
}

/// A clipboard message on its stream.
pub open spec fn clipboard_framed(payload: Seq<u8>) -> Seq<u8> {
    seq![CLIPBOARD_TAG] + le32(length_field(payload)) + payload
}

/// Puts the tag and the length before a clipboard message.
pub fn clipboard_frame(payload: &[u8]) -> (r: Vec<u8>)
    ensures
        r@ == clipboard_framed(payload@),
{
    let mut r: Vec<u8> = Vec::new();
    r.push(CLIPBOARD_TAG);
    append_le32(&mut r, length_of(payload));
    append_bytes(&mut r, payload);
    r
}

/// Whether a stream with the given first byte carries clipboard contents.
pub fn is_clipboard_tag(tag: u8) -> (r: bool)
    ensures
        r == (tag == CLIPBOARD_TAG),
{
    tag == CLIPBOARD_TAG
}

/// The number of bytes of a clipboard message, unless it is too long to read.
pub open spec fn clipboard_length_of(header: Seq<u8>) -> Option<int> {
    if le32_value(header) <= CLIPBOARD_LIMIT {
        Some(le32_value(header))
    } else {
        None
    }
}

/// The number of bytes of a clipboard message, unless it is too long to read.
pub fn clipboard_length(header: [u8; 4]) -> (r: Option<usize>)
    ensures
        r is Some <==> clipboard_length_of(header@) is Some,
        r matches Some(n) ==> clipboard_length_of(header@) == Some(n as int),
{
    let n = control_length(header);
    if n > CLIPBOARD_LIMIT {
        None
    } else {
        Some(n)
    }
}

/// A control message is read back from the stream whole, and what follows it on
/// the stream is left in place.
pub proof fn control_frame_reads_back(payload: Seq<u8>, rest: Seq<u8>)
    requires
        payload.len() <= u32::MAX,
    ensures
        ({
            let stream = control_framed(payload) + rest;
            let n = le32_value(stream.take(4));
            &&& n == payload.len()
            &&& stream.subrange(4, 4 + n) == payload
            &&& stream.skip(4 + n) == rest
        }),
{
    let stream = control_framed(payload) + rest;
    le32_reads_back(length_field(payload));
    assert(stream.take(4) == le32(length_field(payload)));
    let n = payload.len() as int;
    assert(stream.subrange(4, 4 + n) == payload);
    assert(stream.skip(4 + n) == rest);
}

/// A clipboard message within the limit is read back from its stream whole; a
/// longer one is refused.
pub proof fn clipboard_frame_reads_back(payload: Seq<u8>)
    requires
        payload.len() <= u32::MAX,
    ensures
        ({
            let stream = clipboard_framed(payload);
            &&& stream[0] == CLIPBOARD_TAG
            &&& clipboard_length_of(stream.subrange(1, 5)) == (if payload.len()
                <= CLIPBOARD_LIMIT {
                Some(payload.len() as int)
            } else {
                None
            })
            &&& stream.skip(5) == payload
        }),
{
    let stream = clipboard_framed(payload);
    le32_reads_back(length_field(payload));
    assert(stream.subrange(1, 5) == le32(length_field(payload)));
    assert(stream.skip(5) == payload);
}

/// Four bytes are written with the lowest first, as a little-endian machine does.
pub proof fn the_lowest_byte_is_written_first(n: int)
    requires
        0 <= n < 0x1_0000_0000,
    ensures
        le32(n) == crate::evdev::u32_bytes(n, false),
{
    crate::evdev::bytes_have_an_order(n, seq![], 0);
}

/// Four bytes are read with the lowest first, and every four bytes are some
/// number's.
pub proof fn the_lowest_byte_is_read_first(b: Seq<u8>)
    requires
        b.len() == 4,
    ensures
        le32_value(b) == b[0] + 256 * (b[1] + 256 * (b[2] + 256 * b[3])),
        0 <= le32_value(b) < 0x1_0000_0000,
        le32(le32_value(b)) == b,
{
    let n = le32_value(b);
    let n1 = b[1] + 256 * (b[2] + 256 * b[3]);
    let n2 = b[2] + 256 * b[3];
    assert(n == b[0] + 256 * n1);
    assert(n / 256 == n1 && n % 256 == b[0]);
    assert(n1 == b[1] + 256 * n2);
    assert(n1 / 256 == n2 && n1 % 256 == b[1]);
    assert(n2 / 256 == b[3] && n2 % 256 == b[2]);
    assert(n / 65536 == n2);
    assert(n / 16777216 == b[3]);
    let r = le32(n);
    assert(r[0] == b[0] && r[1] == b[1] && r[2] == b[2] && r[3] == b[3]);
    assert(r =~= b);
}

/// The length before a message is the number of its bytes, where 32 bits can tell
/// it.
pub proof fn lengths_count_bytes(payload: Seq<u8>)
    requires
        payload.len() < 0x1_0000_0000,
    ensures
        length_field(payload) == payload.len(),
        control_framed(payload).len() == 4 + payload.len(),
        control_framed(payload).skip(4) == payload,
        clipboard_framed(payload).len() == 5 + payload.len(),
        clipboard_framed(payload)[0] == 0xcb,
        clipboard_framed(payload).skip(1) == control_framed(payload),
{
    assert(control_framed(payload).skip(4) =~= payload);
    assert(clipboard_framed(payload).skip(1) =~= control_framed(payload));
}

/// A clipboard message of up to ten mebibytes is read, and no longer one.
pub proof fn long_clipboards_are_refused(header: Seq<u8>)
    ensures
        le32_value(header) <= 10 * 1024 * 1024 ==> clipboard_length_of(header) == Some(
            le32_value(header),
        ),
        le32_value(header) > 10 * 1024 * 1024 ==> clipboard_length_of(header) is None,
        CLIPBOARD_TAG == 0xcb,
        CLIPBOARD_LIMIT == 10 * 1024 * 1024,
{
}

/// The length before a message is the number of its bytes, but for whole multiples
/// of what 32 bits can tell.
pub proof fn lengths_wrap_around(payload: Seq<u8>)
    ensures
        0 <= length_field(payload) <= 0xffff_ffff,
        (payload.len() - length_field(payload)) % 0x1_0000_0000 == 0,
        control_framed(payload).take(4) == le32(length_field(payload)),
        control_framed(payload).skip(4) == payload,
{
    assert(control_framed(payload).take(4) =~= le32(length_field(payload)));
    assert(control_framed(payload).skip(4) =~= payload);
}

} // verus!
