//! Length-prefixed framing: native-messaging frames to the browser (4-byte
//! little-endian length) and Cast channel frames to the receiver (4-byte
//! big-endian length). The byte order conversions are `byteorder`'s.

use vstd::prelude::*;
use vstd::utf8::encode_utf8;
use byteorder::ByteOrder;
use crate::protobuf::{build_cast_message, cast_connect_msg, cast_message, push_bytes, connect_payload, connection_namespace};

verus! {

broadcast use vstd::string::group_string_axioms;

/// `n` as four bytes, least significant first.
pub open spec fn le_bytes(n: u32) -> Seq<u8> {
    seq![(n % 256) as u8, ((n / 256) % 256) as u8, ((n / 65536) % 256) as u8, (n / 16777216) as u8]
}

/// `n` as four bytes, most significant first.
pub open spec fn be_bytes(n: u32) -> Seq<u8> {
    seq![(n / 16777216) as u8, ((n / 65536) % 256) as u8, ((n / 256) % 256) as u8, (n % 256) as u8]
}

/// The number four bytes stand for, least significant first.
pub open spec fn le_value(b: Seq<u8>) -> nat {
    b[0] as nat + 256 * (b[1] as nat) + 65536 * (b[2] as nat) + 16777216 * (b[3] as nat)
}

/// `byteorder::LittleEndian::write_u32` into a four-byte buffer.
/// Trusted: the buffer holds `n`, least significant byte first.
#[verifier::external_body]
fn write_u32_le(n: u32) -> (b: [u8; 4])
    ensures
        b@ == le_bytes(n),
{
    let mut b = [0u8; 4];
    byteorder::LittleEndian::write_u32(&mut b, n);
    b
}

/// `byteorder::BigEndian::write_u32` into a four-byte buffer.
/// Trusted: the buffer holds `n`, most significant byte first.
#[verifier::external_body]
fn write_u32_be(n: u32) -> (b: [u8; 4])
    ensures
        b@ == be_bytes(n),
{
    let mut b = [0u8; 4];
    byteorder::BigEndian::write_u32(&mut b, n);
    b
}

/// `byteorder::LittleEndian::read_u32` on a four-byte buffer.
/// Trusted: the result is the number the bytes stand for, least significant first.
#[verifier::external_body]
fn read_u32_le(b: &[u8; 4]) -> (n: u32)
    ensures
        n == le_value(b@),
{
    byteorder::LittleEndian::read_u32(b)
}

/// A native-messaging frame: the body's length (truncated to 32 bits)
/// little-endian, then the body.
pub open spec fn native_frame(body: Seq<u8>) -> Seq<u8> {
    le_bytes(body.len() as u32) + body
}

/// A Cast channel frame: the payload's length (truncated to 32 bits)
/// big-endian, then the payload.
pub open spec fn cast_frame_bytes(payload: Seq<u8>) -> Seq<u8> {
    be_bytes(payload.len() as u32) + payload
}

/// The frame that carries the JSON message `msg` to the browser.
pub fn native_message_frame(msg: &str) -> (frame: Vec<u8>)
    ensures
        frame@ == native_frame(encode_utf8(msg@)),
{
    let bytes = msg.as_bytes();
    let n = bytes.len();
    let header = write_u32_le(#[verifier::truncate] (n as u32));
    let mut frame: Vec<u8> = Vec::new();
    push_bytes(&mut frame, &header);
    push_bytes(&mut frame, bytes);
    frame
}

/// The body length announced by a native-messaging frame header.
pub fn native_message_length(header: &[u8; 4]) -> (n: u32)
    ensures
        n == le_value(header@),
{
    read_u32_le(header)
}

/// The frame that carries a serialised `CastMessage` to the receiver.
pub fn cast_frame(payload: &[u8]) -> (frame: Vec<u8>)
    ensures
        frame@ == cast_frame_bytes(payload@),
{
    let n = payload.len();
    let header = write_u32_be(#[verifier::truncate] (n as u32));
    let mut frame: Vec<u8> = Vec::new();
    push_bytes(&mut frame, &header);
    push_bytes(&mut frame, payload);
    frame
}

/// Reading the header of a native-messaging frame gives back the body's length,
/// and the rest of the frame is the body, for every body shorter than 4 GiB.
pub proof fn lemma_native_frame_roundtrip(body: Seq<u8>)
    requires
        body.len() < 0x1_0000_0000,
    ensures
        le_value(native_frame(body).take(4)) == body.len(),
        native_frame(body).skip(4) == body,
{
    let f = native_frame(body);
    let n = body.len() as u32;
    assert(n == body.len());
    assert(f.take(4) =~= le_bytes(n));
    assert(f.skip(4) =~= body);
    assert(le_value(le_bytes(n)) == n as nat) by (nonlinear_arith)
        requires
            le_bytes(n)[0] == (n % 256) as u8,
            le_bytes(n)[1] == ((n / 256) % 256) as u8,
            le_bytes(n)[2] == ((n / 65536) % 256) as u8,
            le_bytes(n)[3] == (n / 16777216) as u8,
    ;
}

/// The sender id used on raw Cast connections.
pub open spec fn sender_id() -> Seq<char> {
    "sender-0"@
}

/// The platform receiver's id.
pub open spec fn receiver_id() -> Seq<char> {
    "receiver-0"@
}

/// The namespace of the Cast media channel.
pub open spec fn media_namespace() -> Seq<char> {
    "urn:x-cast:com.google.cast.media"@
}

/// The `CONNECT` message from `source` to `dest`, framed.
pub open spec fn connect_frame(source: Seq<char>, dest: Seq<char>) -> Seq<u8> {
    cast_frame_bytes(
        cast_message(
            encode_utf8(source),
            encode_utf8(dest),
            encode_utf8(connection_namespace()),
            encode_utf8(connect_payload()),
        ),
    )
}

/// The frames a raw `LOAD` with a subtitle track sends, in order: `CONNECT` to
/// the platform receiver, `CONNECT` to the application's transport, then the
/// `LOAD` message (its JSON text is `load_json`) on the media channel.
pub open spec fn subtitle_load_frames(transport_id: Seq<char>, load_json: Seq<char>) -> Seq<Seq<u8>> {
    seq![
        connect_frame(sender_id(), receiver_id()),
        connect_frame(sender_id(), transport_id),
        cast_frame_bytes(
            cast_message(
                encode_utf8(sender_id()),
                encode_utf8(transport_id),
                encode_utf8(media_namespace()),
                encode_utf8(load_json),
            ),
        ),
    ]
}

/// The frames of a raw `LOAD` that declares an external subtitle track (see
/// `subtitle_load_frames`); the caller writes them to the receiver in order.
pub fn raw_load_frames(transport_id: &str, load_json: &str) -> (frames: Vec<Vec<u8>>)
    ensures
        frames@.len() == 3,
        forall|i: int| 0 <= i < 3 ==> #[trigger] frames@[i]@ == subtitle_load_frames(transport_id@, load_json@)[i],
{
    let to_receiver = cast_connect_msg("sender-0", "receiver-0");
    let to_transport = cast_connect_msg("sender-0", transport_id);
    let load = build_cast_message(
        "sender-0",
        transport_id,
        "urn:x-cast:com.google.cast.media",
        load_json,
    );
    let mut frames: Vec<Vec<u8>> = Vec::new();
    frames.push(cast_frame(to_receiver.as_slice()));
    frames.push(cast_frame(to_transport.as_slice()));
    frames.push(cast_frame(load.as_slice()));
    frames
}

} // verus!
