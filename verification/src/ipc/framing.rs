//! The wire framing: a message is a length prefix of four bytes, least
//! significant first, and then as many bytes of header as the prefix says.
//! The prefix of all ones ends the stream and is followed by no message.

use vstd::prelude::*;
use crate::error::EncError;

verus! {

/// The length prefix that ends the stream.
pub const END_OF_STREAM: u32 = 0xFFFF_FFFF;

/// The number that four bytes spell, least significant byte first.
pub open spec fn le_u32(bytes: Seq<u8>) -> int {
    bytes[0] + bytes[1] * 0x100 + bytes[2] * 0x1_0000 + bytes[3] * 0x100_0000
}

/// The four bytes that spell `n`, least significant byte first.
pub open spec fn prefix_of(n: int) -> Seq<u8> {
    seq![
        (n % 0x100) as u8,
        (n / 0x100 % 0x100) as u8,
        (n / 0x1_0000 % 0x100) as u8,
        (n / 0x100_0000 % 0x100) as u8,
    ]
}

/// The bytes of one message on the wire: the prefix of its length, then the
/// header.
pub open spec fn encode_frame(header: Seq<u8>) -> Seq<u8> {
    prefix_of(header.len() as int) + header
}

/// The bytes of a stream of messages: the frames in order, then the
/// end-of-stream prefix.
pub open spec fn encode_stream(headers: Seq<Seq<u8>>) -> Seq<u8>
    decreases headers.len(),
{
    if headers.len() == 0 {
        prefix_of(END_OF_STREAM as int)
    } else {
        encode_frame(headers[0]) + encode_stream(headers.drop_first())
    }
}

/// A prefix spells the number that it was made of.
pub proof fn lemma_prefix_round_trip(n: int)
    requires
        0 <= n <= 0xFFFF_FFFF,
    ensures
        prefix_of(n).len() == 4,
        le_u32(prefix_of(n)) == n,
{
}

/// What a length prefix announces: `None` for the end of the stream, else
/// the number of header bytes that follow.
pub open spec fn announced(prefix: Seq<u8>) -> Option<int> {
    if le_u32(prefix) == END_OF_STREAM {
        None
    } else {
        Some(le_u32(prefix))
    }
}

/// Reads a length prefix: `Ok(None)` where it ends the stream, else the
/// number of header bytes that follow it.
///
/// Fails with `MalformedPrefix` if `prefix` is not four bytes long.
pub fn decode_prefix(prefix: &[u8]) -> (r: Result<Option<u32>, EncError>)
    ensures
        prefix@.len() != 4 ==> r == Err::<Option<u32>, EncError>(EncError::MalformedPrefix),
        prefix@.len() == 4 ==> match r {
            Ok(Some(n)) => announced(prefix@) == Some(n as int),
            Ok(None) => announced(prefix@) is None,
            Err(_) => false,
        },
{
    if prefix.len() != 4 {
        return Err(EncError::MalformedPrefix);
    }
    let len: u32 = prefix[0] as u32 + prefix[1] as u32 * 0x100 + prefix[2] as u32 * 0x1_0000
        + prefix[3] as u32 * 0x100_0000;
    if len == END_OF_STREAM {
        Ok(None)
    } else {
        Ok(Some(len))
    }
}

/// Admits a header payload that was read for a prefix which announced
/// `announced` bytes.
///
/// Fails with `TruncatedHeader` if the payload has another size, else with
/// `MalformedHeader` if it is no well-formed header record.
pub fn admit_header(announced: u32, payload_len: usize, well_formed: bool) -> (r: Result<
    (),
    EncError,
>)
    ensures
        r == header_verdict(announced as int, payload_len as int, well_formed),
{
    if payload_len != announced as usize {
        Err(EncError::TruncatedHeader)
    } else if !well_formed {
        Err(EncError::MalformedHeader)
    } else {
        Ok(())
    }
}

/// Whether a payload of `payload_len` bytes is admitted as the header that a
/// prefix announced, and if not, why.
pub open spec fn header_verdict(announced: int, payload_len: int, well_formed: bool) -> Result<
    (),
    EncError,
> {
    if payload_len != announced {
        Err(EncError::TruncatedHeader)
    } else if !well_formed {
        Err(EncError::MalformedHeader)
    } else {
        Ok(())
    }
}

} // verus!
