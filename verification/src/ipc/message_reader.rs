//! The reading end of a message channel, with one message of lookahead.
//!
//! The reader does no input itself. Its caller reads a length prefix from
//! the byte source, asks `decode_prefix` how many bytes of header follow,
//! reads those, and hands both to the reader, which decides what they mean.

use vstd::prelude::*;
use vstd::slice::*;
use bytes::{Bytes, BytesMut};
use crate::error::EncError;
use crate::ipc::framing::{
    admit_header, announced, decode_prefix, encode_stream, header_verdict,
    lemma_prefix_round_trip, prefix_of, END_OF_STREAM,
};

verus! {

/// `bytes::BytesMut`, a growable buffer of bytes. What it holds is spoken of
/// as `buffer_bytes`.
#[verifier::external_type_specification]
#[verifier::external_body]
pub struct ExBytesMut(bytes::BytesMut);

/// `bytes::Bytes`, an immutable buffer of bytes. What it holds is spoken of
/// as `frozen_bytes`.
#[verifier::external_type_specification]
#[verifier::external_body]
pub struct ExBytes(bytes::Bytes);

/// The bytes that a buffer holds.
pub uninterp spec fn buffer_bytes(buffer: BytesMut) -> Seq<u8>;

/// The bytes that a frozen buffer holds.
pub uninterp spec fn frozen_bytes(buffer: Bytes) -> Seq<u8>;

/// Whether the bytes are a well-formed header record: a flatbuffer whose root
/// is a table inside the buffer, with a vtable inside the buffer.
pub uninterp spec fn well_formed_header(bytes: Seq<u8>) -> bool;

/// `bytes::BytesMut::new`: the empty buffer.
#[verifier::external_body]
fn buffer_new() -> (buffer: BytesMut)
    ensures
        buffer_bytes(buffer) == Seq::<u8>::empty(),
{
    BytesMut::new()
}

/// `From<&[u8]>` of `bytes::BytesMut`: a buffer of a copy of the bytes.
#[verifier::external_body]
fn buffer_from_slice(bytes: &[u8]) -> (buffer: BytesMut)
    ensures
        buffer_bytes(buffer) == bytes@,
{
    BytesMut::from(bytes)
}

/// `AsRef<[u8]>` of `bytes::BytesMut`: the bytes of the buffer.
#[verifier::external_body]
fn buffer_as_slice(buffer: &BytesMut) -> (bytes: &[u8])
    ensures
        bytes@ == buffer_bytes(*buffer),
{
    buffer.as_ref()
}

/// `Clone` of `bytes::BytesMut`: a buffer of the same bytes.
#[verifier::external_body]
fn buffer_clone(buffer: &BytesMut) -> (copy: BytesMut)
    ensures
        buffer_bytes(copy) == buffer_bytes(*buffer),
{
    buffer.clone()
}

/// `bytes::BytesMut::freeze`: the same bytes, immutable.
#[verifier::external_body]
fn buffer_freeze(buffer: BytesMut) -> (frozen: Bytes)
    ensures
        frozen_bytes(frozen) == buffer_bytes(buffer),
{
    buffer.freeze()
}

/// The verifier of `flatbuffers`, with its default limits, run on the root
/// offset and on the table that it points at: whether both lie inside the
/// buffer and the table's vtable does.
#[verifier::external_body]
fn header_is_well_formed(bytes: &[u8]) -> (ok: bool)
    ensures
        ok == well_formed_header(bytes@),
{
    let opts = flatbuffers::VerifierOptions::default();
    let mut verifier = flatbuffers::Verifier::new(&opts, bytes);
    match verifier.get_uoffset(0) {
        Ok(root) => verifier.visit_table(root as usize).is_ok(),
        Err(_) => false,
    }
}

/// The state of a channel: a validated header is pending, or the end of the
/// stream was seen.
pub enum ChannelState {
    Pending(Seq<u8>),
    Finished,
}

/// What a frame, as read from the stream, makes of a channel that loads it.
pub open spec fn load(prefix: Seq<u8>, payload: Seq<u8>) -> Result<ChannelState, EncError> {
    if prefix.len() != 4 {
        Err(EncError::MalformedPrefix)
    } else {
        match announced(prefix) {
            None => Ok(ChannelState::Finished),
            Some(n) => match header_verdict(n, payload.len() as int, well_formed_header(payload)) {
                Ok(()) => Ok(ChannelState::Pending(payload)),
                Err(e) => Err(e),
            },
        }
    }
}

/// The reading end of a message channel.
///
/// It holds at most one header at a time, already validated: the pending
/// one. Once the end of the stream was seen, or a frame was refused, the
/// channel is finished and yields nothing more.
pub struct MonoIoMessageReader {
    message: BytesMut,
    prev_message: BytesMut,
    finished: bool,
}

impl View for MonoIoMessageReader {
    type V = ChannelState;

    closed spec fn view(&self) -> ChannelState {
        if self.finished {
            ChannelState::Finished
        } else {
            ChannelState::Pending(buffer_bytes(self.message))
        }
    }
}

impl MonoIoMessageReader {
    #[verifier::type_invariant]
    spec fn pending_is_valid(self) -> bool {
        !self.finished ==> well_formed_header(buffer_bytes(self.message))
    }

    /// The bytes of the header that was consumed last. Empty before the
    /// first was.
    pub closed spec fn consumed(&self) -> Seq<u8> {
        buffer_bytes(self.prev_message)
    }

    /// The channel that has loaded its first frame. The caller has read
    /// `prefix` and, where that announced a header, `payload`.
    ///
    /// Fails as `load` says.
    pub fn try_new(prefix: &[u8], payload: BytesMut) -> (r: Result<MonoIoMessageReader, EncError>)
        ensures
            match load(prefix@, buffer_bytes(payload)) {
                Ok(state) => r matches Ok(reader) && reader@ == state && reader.consumed()
                    == Seq::<u8>::empty(),
                Err(e) => r matches Err(f) && f == e,
            },
    {
        let mut reader = MonoIoMessageReader {
            message: buffer_new(),
            prev_message: buffer_new(),
            finished: true,
        };
        match reader.load_next_message(prefix, payload) {
            Ok(_) => Ok(reader),
            Err(e) => Err(e),
        }
    }

    /// Loads the frame that the caller has read: `prefix`, and `payload`
    /// where the prefix announced a header. Answers whether a header is
    /// pending now: `false` once the stream has ended.
    ///
    /// Fails as `load` says, and then leaves the channel finished.
    pub fn load_next_message(&mut self, prefix: &[u8], payload: BytesMut) -> (r: Result<
        bool,
        EncError,
    >)
        ensures
            final(self).consumed() == old(self).consumed(),
            match load(prefix@, buffer_bytes(payload)) {
                Ok(state) => final(self)@ == state && r == Ok::<bool, EncError>(state is Pending),
                Err(e) => final(self)@ is Finished && r == Err::<bool, EncError>(e),
            },
    {
        self.finished = true;
        let len = match decode_prefix(prefix) {
            Ok(Some(len)) => len,
            Ok(None) => {
                return Ok(false);
            },
            Err(e) => {
                return Err(e);
            },
        };
        let bytes = buffer_as_slice(&payload);
        let well_formed = header_is_well_formed(bytes);
        match admit_header(len, bytes.len(), well_formed) {
            Ok(()) => {},
            Err(e) => {
                return Err(e);
            },
        }
        self.message = payload;
        self.finished = false;
        Ok(true)
    }

    /// The pending header, untouched: `None` once the channel is finished.
    pub fn peek(&self) -> (r: Option<&[u8]>)
        ensures
            match self@ {
                ChannelState::Pending(header) => r matches Some(bytes) && bytes@ == header
                    && well_formed_header(header),
                ChannelState::Finished => r is None,
            },
    {
        proof {
            use_type_invariant(self);
        }
        if self.finished {
            return None;
        }
        Some(buffer_as_slice(&self.message))
    }

    /// Whether the channel is finished.
    pub fn is_finished(&self) -> (b: bool)
        ensures
            b == (self@ is Finished),
    {
        self.finished
    }

    /// Consumes the pending header and loads the frame behind it, which the
    /// caller has read. Returns the bytes of the consumed header.
    ///
    /// The caller checks with `peek` that a header is pending. Fails as
    /// `load` says, and then leaves the channel finished.
    pub fn next(&mut self, prefix: &[u8], payload: BytesMut) -> (r: Result<Vec<u8>, EncError>)
        requires
            old(self)@ is Pending,
        ensures
            final(self).consumed() == old(self)@->Pending_0,
            match load(prefix@, buffer_bytes(payload)) {
                Ok(state) => r matches Ok(header) && header@ == old(self)@->Pending_0
                    && final(self)@ == state,
                Err(e) => final(self)@ is Finished && r == Err::<Vec<u8>, EncError>(e),
            },
    {
        self.finished = true;
        let mut taken = buffer_new();
        core::mem::swap(&mut self.message, &mut taken);
        self.prev_message = taken;
        match self.load_next_message(prefix, payload) {
            Ok(_) => {},
            Err(e) => {
                return Err(e);
            },
        }
        Ok(slice_to_vec(buffer_as_slice(&self.prev_message)))
    }

    /// As `next`, but returns the consumed header as the raw buffer that
    /// held it, to be passed on as it is.
    pub fn next_raw(&mut self, prefix: &[u8], payload: BytesMut) -> (r: Result<Bytes, EncError>)
        requires
            old(self)@ is Pending,
        ensures
            final(self).consumed() == old(self)@->Pending_0,
            match load(prefix@, buffer_bytes(payload)) {
                Ok(state) => r matches Ok(raw) && frozen_bytes(raw) == old(self)@->Pending_0
                    && final(self)@ == state,
                Err(e) => r matches Err(f) && f == e && final(self)@ is Finished,
            },
    {
        self.finished = true;
        let mut taken = buffer_new();
        core::mem::swap(&mut self.message, &mut taken);
        self.prev_message = taken;
        match self.load_next_message(prefix, payload) {
            Ok(_) => {},
            Err(e) => {
                return Err(e);
            },
        }
        Ok(buffer_freeze(buffer_clone(&self.prev_message)))
    }
}

/// The headers that a stream of bytes holds: those of its frames up to the
/// end-of-stream prefix, behind which nothing is read.
///
/// A stream that ends inside a frame gives `UnexpectedEof`, a header that is
/// not well formed `MalformedHeader`.
pub open spec fn frames(stream: Seq<u8>) -> Result<Seq<Seq<u8>>, EncError>
    decreases stream.len(),
{
    if stream.len() < 4 {
        Err(EncError::UnexpectedEof)
    } else {
        match announced(stream.take(4)) {
            None => Ok(Seq::empty()),
            Some(n) => if n < 0 || stream.len() < 4 + n {
                Err(EncError::UnexpectedEof)
            } else if !well_formed_header(stream.subrange(4, 4 + n)) {
                Err(EncError::MalformedHeader)
            } else {
                match frames(stream.skip(4 + n)) {
                    Ok(rest) => Ok(seq![stream.subrange(4, 4 + n)] + rest),
                    Err(e) => Err(e),
                }
            },
        }
    }
}

/// The byte sequences of a list of headers.
pub open spec fn headers_view(headers: Seq<Vec<u8>>) -> Seq<Seq<u8>> {
    Seq::new(headers.len(), |i: int| headers[i]@)
}

/// The result `r` with `headers` in front of what it holds.
pub open spec fn after(headers: Seq<Seq<u8>>, r: Result<Seq<Seq<u8>>, EncError>) -> Result<
    Seq<Seq<u8>>,
    EncError,
> {
    match r {
        Ok(rest) => Ok(headers + rest),
        Err(e) => Err(e),
    }
}

/// The frame that starts at byte `at` of the stream: its prefix, its
/// payload, empty behind the end-of-stream prefix, and the position behind
/// it. Fails with `UnexpectedEof` if the stream ends inside the frame.
pub fn take_frame(stream: &[u8], at: usize) -> (r: Result<(&[u8], &[u8], usize), EncError>)
    requires
        at <= stream@.len(),
    ensures
        ({
            let rest = stream@.skip(at as int);
            if rest.len() < 4 {
                r matches Err(e) && e == EncError::UnexpectedEof
            } else {
                match announced(rest.take(4)) {
                    None => r matches Ok((prefix, payload, next)) && prefix@ == rest.take(4)
                        && payload@ == Seq::<u8>::empty() && next == at + 4,
                    Some(n) => if rest.len() < 4 + n {
                        r matches Err(e) && e == EncError::UnexpectedEof
                    } else {
                        r matches Ok((prefix, payload, next)) && prefix@ == rest.take(4)
                            && payload@ == rest.subrange(4, 4 + n) && next == at + 4 + n
                    },
                }
            }
        }),
{
    if stream.len() - at < 4 {
        return Err(EncError::UnexpectedEof);
    }
    let prefix = slice_subrange(stream, at, at + 4);
    assert(prefix@ == stream@.skip(at as int).take(4));
    match decode_prefix(prefix) {
        Ok(None) => {
            let payload = slice_subrange(stream, at + 4, at + 4);
            Ok((prefix, payload, at + 4))
        },
        Ok(Some(len)) => {
            if stream.len() - at - 4 < len as usize {
                return Err(EncError::UnexpectedEof);
            }
            let end = at + 4 + len as usize;
            let payload = slice_subrange(stream, at + 4, end);
            assert(payload@ == stream@.skip(at as int).subrange(4, 4 + len));
            Ok((prefix, payload, end))
        },
        Err(e) => {
            proof {
                assert(false);
            }
            Err(e)
        },
    }
}

/// Reads a whole stream that lies in memory: loads the first frame, then
/// while a header is pending reads the frame behind it and consumes the
/// pending one. Returns the headers in the order of the stream.
pub fn read_messages(stream: &[u8]) -> (r: Result<Vec<Vec<u8>>, EncError>)
    ensures
        match frames(stream@) {
            Ok(headers) => r matches Ok(read) && headers_view(read@) == headers,
            Err(e) => r matches Err(f) && f == e,
        },
{
    let (prefix, payload, first) = match take_frame(stream, 0) {
        Ok(frame) => frame,
        Err(e) => {
            return Err(e);
        },
    };
    assert(stream@.skip(0) == stream@);
    let mut reader = match MonoIoMessageReader::try_new(prefix, buffer_from_slice(payload)) {
        Ok(reader) => reader,
        Err(e) => {
            return Err(e);
        },
    };
    let mut at = first;
    let mut read: Vec<Vec<u8>> = Vec::new();
    assert(headers_view(read@) =~= Seq::<Seq<u8>>::empty());
    loop
        invariant
            at <= stream@.len(),
            match reader@ {
                ChannelState::Pending(header) => frames(stream@) == after(
                    headers_view(read@).push(header),
                    frames(stream@.skip(at as int)),
                ),
                ChannelState::Finished => frames(stream@) == Ok::<Seq<Seq<u8>>, EncError>(
                    headers_view(read@),
                ),
            },
        ensures
            frames(stream@) == Ok::<Seq<Seq<u8>>, EncError>(headers_view(read@)),
        decreases stream@.len() - at,
    {
        if reader.is_finished() {
            break ;
        }
        let ghost pending = reader@->Pending_0;
        let ghost before = headers_view(read@);
        let (prefix, payload, next) = match take_frame(stream, at) {
            Ok(frame) => frame,
            Err(e) => {
                return Err(e);
            },
        };
        let header = match reader.next(prefix, buffer_from_slice(payload)) {
            Ok(header) => header,
            Err(e) => {
                return Err(e);
            },
        };
        read.push(header);
        proof {
            assert(headers_view(read@) =~= before.push(pending));
            let rest = stream@.skip(at as int);
            match reader@ {
                ChannelState::Pending(loaded) => {
                    assert(rest.skip(next - at) == stream@.skip(next as int));
                    assert(before.push(pending) + (seq![loaded] + frames(
                        stream@.skip(next as int),
                    )->Ok_0) =~= before.push(pending).push(loaded) + frames(
                        stream@.skip(next as int),
                    )->Ok_0);
                },
                ChannelState::Finished => {
                    assert(before.push(pending) + Seq::<Seq<u8>>::empty() =~= before.push(pending));
                },
            }
        }
        at = next;
    }
    Ok(read)
}

/// A stream that holds nothing but the end-of-stream prefix finishes the
/// channel at once: no header is ever pending.
pub proof fn lemma_sentinel_finishes(payload: Seq<u8>)
    ensures
        load(prefix_of(END_OF_STREAM as int), payload) == Ok::<ChannelState, EncError>(
            ChannelState::Finished,
        ),
{
    lemma_prefix_round_trip(END_OF_STREAM as int);
}

/// A frame whose header is well formed, and shorter than the end-of-stream
/// prefix spells, loads as that header.
pub proof fn lemma_frame_loads(header: Seq<u8>)
    requires
        well_formed_header(header),
        header.len() < END_OF_STREAM,
    ensures
        load(prefix_of(header.len() as int), header) == Ok::<ChannelState, EncError>(
            ChannelState::Pending(header),
        ),
{
    lemma_prefix_round_trip(header.len() as int);
}

/// Reading enumerates what was written: the stream that encodes the given
/// headers holds exactly these headers, in their order, whatever follows
/// the end-of-stream prefix.
pub proof fn lemma_enumeration(headers: Seq<Seq<u8>>, trailing: Seq<u8>)
    requires
        forall|i: int|
            0 <= i < headers.len() ==> well_formed_header(#[trigger] headers[i]) && headers[i].len()
                < END_OF_STREAM,
    ensures
        frames(encode_stream(headers) + trailing) == Ok::<Seq<Seq<u8>>, EncError>(headers),
    decreases headers.len(),
{
    let stream = encode_stream(headers) + trailing;
    if headers.len() == 0 {
        lemma_prefix_round_trip(END_OF_STREAM as int);
        assert(stream.take(4) == prefix_of(END_OF_STREAM as int));
        assert(headers == Seq::<Seq<u8>>::empty());
    } else {
        let first = headers[0];
        let others = headers.drop_first();
        let n = first.len() as int;
        lemma_prefix_round_trip(n);
        lemma_enumeration(others, trailing);
        assert(stream.take(4) == prefix_of(n));
        assert(stream.subrange(4, 4 + n) == first);
        assert(stream.skip(4 + n) == encode_stream(others) + trailing);
        assert(seq![first] + others == headers);
    }
}

} // verus!
