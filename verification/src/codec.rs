//! The frame codec.
//!
//! A frame travels as a header and a payload. In uncompressed mode the
//! header is the payload length as a big-endian `u32`:
//!
//! ```text
//! [u32 length][length bytes payload]
//! ```
//!
//! In compressed mode a flag byte comes first and, where it is not zero, a
//! second `u32` holds the length of the payload once decompressed:
//!
//! ```text
//! [u8 compressed-flag][u32 payload-length][u32 decompressed-length if flag][payload-length bytes]
//! ```
//!
//! The decoder is a state machine over a buffer that grows as bytes arrive:
//! it waits for a whole header, then for the whole payload.

use crate::buffer::{
    be_bytes, be_value, buffer_len, byte_at, bytes_of, contents, lemma_be_bytes_len, lemma_be_round_trip,
    lemma_pow256_values, new_buffer, put_be, put_buffer, put_byte, put_bytes, reserve_room,
    split_front,
    take_be, take_byte,
};
use lz4_flex::block::DecompressError;
use tokio_util::bytes::BytesMut;
use vstd::prelude::*;

verus! {

/// No payload may be longer than this, compressed or not.
pub const MAX_PACKET_SIZE: u32 = 8 * 1024 * 1024;

/// Why a frame could not be encoded or decoded.
#[derive(Debug, Clone, Copy, PartialEq, Eq, Structural)]
pub enum CodecError {
    /// A length is over `MAX_PACKET_SIZE`.
    PacketTooBig,
    /// The payload is not what the block decompressor accepts.
    InvalidData,
}

/// `lz4_flex::block::DecompressError`: why a block was rejected.
#[verifier::external_type_specification]
#[verifier::external_body]
pub struct ExDecompressError(DecompressError);

/// The LZ4 block that `lz4_flex`'s compressor makes of the data.
pub uninterp spec fn lz4_compressed(data: Seq<u8>) -> Seq<u8>;

/// What `lz4_flex`'s block decompressor makes of a block when it is given
/// room for `size` bytes: the data, or nothing where it rejects the block.
pub uninterp spec fn lz4_decompressed(block: Seq<u8>, size: nat) -> Option<Seq<u8>>;

/// `lz4_flex::block::compress`. The block is a function of the data alone,
/// and decompressing it with room for exactly the data's length gives the
/// data back. Match positions are kept in 32 bits, so longer inputs are left out.
#[verifier::external_body]
fn lz4_compress(data: &[u8]) -> (block: Vec<u8>)
    requires
        data@.len() <= u32::MAX,
    ensures
        block@ == lz4_compressed(data@),
        lz4_decompressed(block@, data@.len()) == Some(data@),
{
    lz4_flex::block::compress(data)
}

/// `lz4_flex::block::decompress` with checked decoding: the data, or the
/// decompressor's error. A length field of the block is summed up in 32
/// bits from bytes of at most 255, so inputs that could overflow it are left out.
#[verifier::external_body]
fn lz4_decompress(block: &[u8], size: usize) -> (res: Result<Vec<u8>, DecompressError>)
    requires
        block@.len() <= u32::MAX / 255,
    ensures
        match lz4_decompressed(block@, size as nat) {
            Some(data) => res matches Ok(found) && found@ == data,
            None => res is Err,
        },
{
    lz4_flex::block::decompress(block, size)
}

/// Where the decoder stands: before a header, or before the payload that
/// the header announced.
#[derive(Debug, Clone, Copy, PartialEq, Eq, Structural)]
pub enum OlympusPacketCodecState {
    Header,
    Data { compressed: bool, decompressed_length: usize, length: usize },
}

#[derive(Debug, Clone, Copy, PartialEq, Eq, Structural)]
pub struct OlympusCompressionSettings {
    pub enabled: bool,
    pub min_size_to_compress: u32,
}

/// A codec that compresses or not, as it was made.
#[derive(Debug)]
pub struct OlympusPacketCodec {
    pub state: OlympusPacketCodecState,
    pub compression: OlympusCompressionSettings,
}

/// A codec in compressed mode.
#[derive(Debug)]
pub struct CompressedOlympusPacketCodec {
    pub state: OlympusPacketCodecState,
    pub min_size_to_compress: usize,
}

/// The number of bytes before the payload length: one in compressed mode.
pub open spec fn flag_len(enabled: bool) -> int {
    if enabled {
        1
    } else {
        0
    }
}

/// What the front of a buffer holds where a header is due.
pub enum HeaderStep {
    /// Not all of the header is there yet.
    Incomplete,
    /// A length is over the limit.
    TooBig { used: int },
    /// A header of `used` bytes.
    Header { compressed: bool, length: nat, decompressed_length: nat, used: int },
}

/// Reads a header off the front of `bytes`.
pub open spec fn read_header(enabled: bool, bytes: Seq<u8>) -> HeaderStep {
    let flag = flag_len(enabled);
    if bytes.len() < flag + 4 {
        HeaderStep::Incomplete
    } else {
        let compressed = enabled && bytes[0] != 0;
        let used = flag + 4 + if compressed {
            4int
        } else {
            0int
        };
        if bytes.len() < used {
            HeaderStep::Incomplete
        } else {
            let length = be_value(bytes.subrange(flag as int, flag + 4));
            let decompressed_length = if compressed {
                be_value(bytes.subrange(flag + 4, flag + 8))
            } else {
                0
            };
            if length > MAX_PACKET_SIZE || decompressed_length > MAX_PACKET_SIZE {
                HeaderStep::TooBig { used }
            } else {
                HeaderStep::Header { compressed, length, decompressed_length, used }
            }
        }
    }
}

/// What one call of the decoder gives: the state it is left in, the bytes
/// it leaves in the buffer, and the frame, nothing yet, or the failure.
pub struct Decoded {
    pub state: OlympusPacketCodecState,
    pub rest: Seq<u8>,
    pub result: Result<Option<Seq<u8>>, CodecError>,
}

/// The decoder before a payload of `length` bytes.
pub open spec fn decode_body(
    compressed: bool,
    decompressed_length: usize,
    length: usize,
    bytes: Seq<u8>,
) -> Decoded {
    let state = OlympusPacketCodecState::Data { compressed, decompressed_length, length };
    if bytes.len() < length {
        Decoded { state, rest: bytes, result: Ok(None) }
    } else {
        let body = bytes.take(length as int);
        let rest = bytes.skip(length as int);
        if compressed {
            match lz4_decompressed(body, decompressed_length as nat) {
                Some(data) => Decoded {
                    state: OlympusPacketCodecState::Header,
                    rest,
                    result: Ok(Some(data)),
                },
                None => Decoded { state, rest, result: Err(CodecError::InvalidData) },
            }
        } else {
            Decoded { state: OlympusPacketCodecState::Header, rest, result: Ok(Some(body)) }
        }
    }
}

/// One call of the decoder on a buffer that holds `bytes`.
pub open spec fn decode_step(state: OlympusPacketCodecState, enabled: bool, bytes: Seq<u8>) -> Decoded {
    match state {
        OlympusPacketCodecState::Header => match read_header(enabled, bytes) {
            HeaderStep::Incomplete => Decoded { state, rest: bytes, result: Ok(None) },
            HeaderStep::TooBig { used } => Decoded {
                state,
                rest: bytes.skip(used),
                result: Err(CodecError::PacketTooBig),
            },
            HeaderStep::Header { compressed, length, decompressed_length, used } => decode_body(
                compressed,
                decompressed_length as usize,
                length as usize,
                bytes.skip(used),
            ),
        },
        OlympusPacketCodecState::Data { compressed, decompressed_length, length } => decode_body(
            compressed,
            decompressed_length,
            length,
            bytes,
        ),
    }
}

/// The bytes that the encoder writes for a payload, or why it writes none.
/// In compressed mode a payload of at least `min_size` bytes is compressed.
pub open spec fn encode_frame(enabled: bool, min_size: nat, payload: Seq<u8>) -> Result<
    Seq<u8>,
    CodecError,
> {
    if payload.len() > MAX_PACKET_SIZE {
        Err(CodecError::PacketTooBig)
    } else if enabled && payload.len() >= min_size {
        let block = lz4_compressed(payload);
        if block.len() > MAX_PACKET_SIZE {
            Err(CodecError::PacketTooBig)
        } else {
            Ok(seq![1u8] + be_bytes(block.len(), 4) + be_bytes(payload.len(), 4) + block)
        }
    } else if enabled {
        Ok(seq![0u8] + be_bytes(payload.len(), 4) + payload)
    } else {
        Ok(be_bytes(payload.len(), 4) + payload)
    }
}

/// True when a decoder that waits for a header takes `frame` off the front
/// of any buffer that starts with it and emits `payload`.
pub open spec fn reads_back(enabled: bool, frame: Seq<u8>, payload: Seq<u8>) -> bool {
    forall|tail: Seq<u8>|
        #[trigger] decode_step(OlympusPacketCodecState::Header, enabled, frame + tail) == (Decoded {
            state: OlympusPacketCodecState::Header,
            rest: tail,
            result: Ok(Some(payload)),
        })
}

/// A state that the decoder can be in: the lengths it waits for are within
/// the limit, and only compressed mode waits for a compressed payload.
pub open spec fn state_wf(state: OlympusPacketCodecState, enabled: bool) -> bool {
    match state {
        OlympusPacketCodecState::Header => true,
        OlympusPacketCodecState::Data { compressed, decompressed_length, length } => {
            &&& length <= MAX_PACKET_SIZE
            &&& decompressed_length <= MAX_PACKET_SIZE
            &&& compressed ==> enabled
        },
    }
}

/// The header of a frame that the encoder wrote reads back as written.
proof fn lemma_header_reads_back(
    enabled: bool,
    compressed: bool,
    length: nat,
    decompressed_length: nat,
    tail: Seq<u8>,
)
    requires
        length <= MAX_PACKET_SIZE,
        decompressed_length <= MAX_PACKET_SIZE,
        compressed ==> enabled,
    ensures
        ({
            let flag = if enabled {
                seq![if compressed {
                    1u8
                } else {
                    0u8
                }]
            } else {
                Seq::<u8>::empty()
            };
            let second = if compressed {
                be_bytes(decompressed_length, 4)
            } else {
                Seq::<u8>::empty()
            };
            let header = flag + be_bytes(length, 4) + second;
            &&& read_header(enabled, header + tail) == HeaderStep::Header {
                compressed,
                length,
                decompressed_length: if compressed {
                    decompressed_length
                } else {
                    0
                },
                used: header.len() as int,
            }
            &&& (header + tail).skip(header.len() as int) == tail
        }),
{
    let flag = if enabled {
        seq![if compressed {
            1u8
        } else {
            0u8
        }]
    } else {
        Seq::<u8>::empty()
    };
    let second = if compressed {
        be_bytes(decompressed_length, 4)
    } else {
        Seq::<u8>::empty()
    };
    let header = flag + be_bytes(length, 4) + second;
    let bytes = header + tail;
    lemma_be_bytes_len(length, 4);
    lemma_be_bytes_len(decompressed_length, 4);
    lemma_pow256_values();
    lemma_be_round_trip(length, 4);
    lemma_be_round_trip(decompressed_length, 4);
    let f = flag_len(enabled);
    assert(bytes.subrange(f as int, f + 4) =~= be_bytes(length, 4));
    if compressed {
        assert(bytes.subrange(f + 4, f + 8) =~= be_bytes(decompressed_length, 4));
    }
    assert(bytes.skip(header.len() as int) =~= tail);
}

/// The decoder gives back what the encoder was given: on a buffer that
/// starts with an encoded frame, a decoder that waits for a header emits the
/// payload, leaves what follows the frame, and waits for a header again.
/// For a payload that is compressed this rests on the compressor's promise
/// that its block decompresses to the payload, which the encoder has of
/// every payload it compresses.
pub proof fn lemma_decode_encoded(enabled: bool, min_size: nat, payload: Seq<u8>, tail: Seq<u8>)
    requires
        encode_frame(enabled, min_size, payload) is Ok,
        enabled && payload.len() >= min_size ==> lz4_decompressed(
            lz4_compressed(payload),
            payload.len(),
        ) == Some(payload),
    ensures
        decode_step(
            OlympusPacketCodecState::Header,
            enabled,
            encode_frame(enabled, min_size, payload).unwrap() + tail,
        ) == (Decoded {
            state: OlympusPacketCodecState::Header,
            rest: tail,
            result: Ok(Some(payload)),
        }),
{
    let frame = encode_frame(enabled, min_size, payload).unwrap();
    if enabled && payload.len() >= min_size {
        let block = lz4_compressed(payload);
        let header = seq![1u8] + be_bytes(block.len(), 4) + be_bytes(payload.len(), 4);
        lemma_header_reads_back(true, true, block.len(), payload.len(), block + tail);
        assert(frame + tail =~= header + (block + tail));
        assert((block + tail).take(block.len() as int) =~= block);
        assert((block + tail).skip(block.len() as int) =~= tail);
    } else {
        let flag = if enabled {
            seq![0u8]
        } else {
            Seq::<u8>::empty()
        };
        let header = flag + be_bytes(payload.len(), 4) + Seq::<u8>::empty();
        lemma_header_reads_back(enabled, false, payload.len(), 0, payload + tail);
        assert(frame + tail =~= header + (payload + tail));
        assert((payload + tail).take(payload.len() as int) =~= payload);
        assert((payload + tail).skip(payload.len() as int) =~= tail);
    }
}

/// Bytes that arrive later do not change what the decoder does with the
/// bytes it has: where a call gives nothing yet, a second call after more
/// bytes have arrived gives what a single call on all the bytes gives.
pub proof fn lemma_chunks(state: OlympusPacketCodecState, enabled: bool, bytes: Seq<u8>, more: Seq<u8>)
    requires
        decode_step(state, enabled, bytes).result == Ok::<Option<Seq<u8>>, CodecError>(None),
    ensures
        decode_step(
            decode_step(state, enabled, bytes).state,
            enabled,
            decode_step(state, enabled, bytes).rest + more,
        ) == decode_step(state, enabled, bytes + more),
{
    match state {
        OlympusPacketCodecState::Header => {
            match read_header(enabled, bytes) {
                HeaderStep::Header { compressed, length, decompressed_length, used } => {
                    let f = flag_len(enabled);
                    assert((bytes + more).subrange(f, f + 4) =~= bytes.subrange(f, f + 4));
                    if compressed {
                        assert((bytes + more).subrange(f + 4, f + 8) =~= bytes.subrange(
                            f + 4,
                            f + 8,
                        ));
                    }
                    assert((bytes + more).skip(used) =~= bytes.skip(used) + more);
                },
                _ => {},
            }
        },
        OlympusPacketCodecState::Data { .. } => {},
    }
}

/// The decoder emits nothing before the last byte of a frame has arrived:
/// on any proper prefix of an encoded frame it gives nothing yet.
pub proof fn lemma_prefix_waits(enabled: bool, min_size: nat, payload: Seq<u8>, k: int)
    requires
        encode_frame(enabled, min_size, payload) is Ok,
        0 <= k < encode_frame(enabled, min_size, payload).unwrap().len(),
    ensures
        decode_step(
            OlympusPacketCodecState::Header,
            enabled,
            encode_frame(enabled, min_size, payload).unwrap().take(k),
        ).result == Ok::<Option<Seq<u8>>, CodecError>(None),
{
    let frame = encode_frame(enabled, min_size, payload).unwrap();
    let compressed = enabled && payload.len() >= min_size;
    let body = if compressed {
        lz4_compressed(payload)
    } else {
        payload
    };
    let flag = if enabled {
        seq![if compressed {
            1u8
        } else {
            0u8
        }]
    } else {
        Seq::<u8>::empty()
    };
    let second = if compressed {
        be_bytes(payload.len(), 4)
    } else {
        Seq::<u8>::empty()
    };
    let header = flag + be_bytes(body.len(), 4) + second;
    lemma_be_bytes_len(body.len(), 4);
    lemma_be_bytes_len(payload.len(), 4);
    assert(frame =~= header + body);
    let prefix = frame.take(k);
    if k >= header.len() {
        let tail = body.take(k - header.len());
        assert(prefix =~= header + tail);
        lemma_header_reads_back(enabled, compressed, body.len(), payload.len(), tail);
    } else {
        let f = flag_len(enabled);
        if k >= f + 4 {
            assert(prefix[0] == frame[0]);
        }
    }
}

/// The bytes that the encoder writes for the frames, one after another.
pub open spec fn encode_stream(enabled: bool, min_size: nat, frames: Seq<Seq<u8>>) -> Seq<u8>
    decreases frames.len(),
{
    if frames.len() == 0 {
        Seq::empty()
    } else {
        encode_frame(enabled, min_size, frames.first()).unwrap() + encode_stream(
            enabled,
            min_size,
            frames.drop_first(),
        )
    }
}

/// The frames that a decoder emits which waits for a header and is called
/// on a buffer that holds `bytes` until it gives nothing more.
pub open spec fn decode_stream(enabled: bool, bytes: Seq<u8>) -> Seq<Seq<u8>>
    decreases bytes.len(),
{
    let out = decode_step(OlympusPacketCodecState::Header, enabled, bytes);
    match out.result {
        Ok(Some(frame)) => if out.state is Header && out.rest.len() < bytes.len() {
            seq![frame] + decode_stream(enabled, out.rest)
        } else {
            seq![frame]
        },
        _ => Seq::empty(),
    }
}

/// The decoder emits exactly the frames that the encoder was given, in
/// their order. For frames that are compressed this rests on the
/// compressor's promise, as in `lemma_decode_encoded`.
pub proof fn lemma_stream_round_trip(enabled: bool, min_size: nat, frames: Seq<Seq<u8>>)
    requires
        forall|i: int|
            0 <= i < frames.len() ==> encode_frame(enabled, min_size, #[trigger] frames[i]) is Ok,
        forall|i: int|
            0 <= i < frames.len() && enabled && frames[i].len() >= min_size ==> lz4_decompressed(
                lz4_compressed(#[trigger] frames[i]),
                frames[i].len(),
            ) == Some(frames[i]),
    ensures
        decode_stream(enabled, encode_stream(enabled, min_size, frames)) == frames,
    decreases frames.len(),
{
    if frames.len() > 0 {
        let first = frames.first();
        let rest = frames.drop_first();
        let tail = encode_stream(enabled, min_size, rest);
        assert(frames[0] == first);
        assert forall|i: int| 0 <= i < rest.len() implies encode_frame(
            enabled,
            min_size,
            #[trigger] rest[i],
        ) is Ok by {
            assert(rest[i] == frames[i + 1]);
        }
        assert forall|i: int|
            0 <= i < rest.len() && enabled && rest[i].len() >= min_size implies lz4_decompressed(
            lz4_compressed(#[trigger] rest[i]),
            rest[i].len(),
        ) == Some(rest[i]) by {
            assert(rest[i] == frames[i + 1]);
        }
        lemma_decode_encoded(enabled, min_size, first, tail);
        lemma_stream_round_trip(enabled, min_size, rest);
        lemma_be_bytes_len(first.len(), 4);
        lemma_be_bytes_len(lz4_compressed(first).len(), 4);
        assert(seq![first] + rest =~= frames);
    } else {
        assert(encode_stream(enabled, min_size, frames).len() == 0);
        assert(frames =~= Seq::<Seq<u8>>::empty());
    }
}

impl OlympusPacketCodec {
    /// A codec in compressed mode that compresses payloads of at least
    /// `min_size_to_compress` bytes.
    pub fn compress(min_size_to_compress: u32) -> (codec: Self)
        ensures
            codec.state is Header,
            codec.compression == (OlympusCompressionSettings { enabled: true, min_size_to_compress }),
    {
        Self {
            state: OlympusPacketCodecState::Header,
            compression: OlympusCompressionSettings { enabled: true, min_size_to_compress },
        }
    }

    /// The codec waits for nothing that is over the limit.
    pub open spec fn wf(&self) -> bool {
        state_wf(self.state, self.compression.enabled)
    }

    /// Takes the next frame off the front of `src`, if all of it is there.
    pub fn decode(&mut self, src: &mut BytesMut) -> (res: Result<Option<BytesMut>, CodecError>)
        requires
            old(self).wf(),
        ensures
            final(self).wf(),
            final(self).compression == old(self).compression,
            ({
                let out = decode_step(
                    old(self).state,
                    old(self).compression.enabled,
                    contents(*old(src)),
                );
                &&& final(self).state == out.state
                &&& contents(*final(src)) == out.rest
                &&& match out.result {
                    Ok(Some(frame)) => res matches Ok(Some(found)) && contents(found) == frame,
                    Ok(None) => res matches Ok(None),
                    Err(e) => res matches Err(err) && err == e,
                }
            }),
    {
        let enabled = self.compression.enabled;
        decode_with(&mut self.state, enabled, src)
    }

    /// Appends the frame for `item` to `dst`.
    pub fn encode(&mut self, item: BytesMut, dst: &mut BytesMut) -> (res: Result<(), CodecError>)
        ensures
            *final(self) == *old(self),
            match encode_frame(
                old(self).compression.enabled,
                old(self).compression.min_size_to_compress as nat,
                contents(item),
            ) {
                Ok(frame) => res is Ok && contents(*final(dst)) == contents(*old(dst)) + frame
                    && reads_back(old(self).compression.enabled, frame, contents(item)),
                Err(e) => res == Err::<(), CodecError>(e) && contents(*final(dst)) == contents(
                    *old(dst),
                ),
            },
    {
        encode_with(
            self.compression.enabled,
            self.compression.min_size_to_compress as usize,
            &item,
            dst,
        )
    }
}

impl Default for OlympusPacketCodec {
    /// A codec in uncompressed mode.
    fn default() -> (codec: Self)
        ensures
            codec.state is Header,
            codec.compression == (OlympusCompressionSettings {
                enabled: false,
                min_size_to_compress: u32::MAX,
            }),
    {
        Self {
            state: OlympusPacketCodecState::Header,
            compression: OlympusCompressionSettings { enabled: false, min_size_to_compress: u32::MAX },
        }
    }
}

impl CompressedOlympusPacketCodec {
    /// A codec that compresses payloads of at least `min_size` bytes.
    pub fn new(min_size: usize) -> (codec: Self)
        ensures
            codec.state is Header,
            codec.min_size_to_compress == min_size,
    {
        Self { state: OlympusPacketCodecState::Header, min_size_to_compress: min_size }
    }

    /// The codec waits for nothing that is over the limit.
    pub open spec fn wf(&self) -> bool {
        state_wf(self.state, true)
    }

    /// Takes the next frame off the front of `src`, if all of it is there.
    pub fn decode(&mut self, src: &mut BytesMut) -> (res: Result<Option<BytesMut>, CodecError>)
        requires
            old(self).wf(),
        ensures
            final(self).wf(),
            final(self).min_size_to_compress == old(self).min_size_to_compress,
            ({
                let out = decode_step(old(self).state, true, contents(*old(src)));
                &&& final(self).state == out.state
                &&& contents(*final(src)) == out.rest
                &&& match out.result {
                    Ok(Some(frame)) => res matches Ok(Some(found)) && contents(found) == frame,
                    Ok(None) => res matches Ok(None),
                    Err(e) => res matches Err(err) && err == e,
                }
            }),
    {
        decode_with(&mut self.state, true, src)
    }

    /// Appends the frame for `item` to `dst`.
    pub fn encode(&mut self, item: BytesMut, dst: &mut BytesMut) -> (res: Result<(), CodecError>)
        ensures
            *final(self) == *old(self),
            match encode_frame(true, old(self).min_size_to_compress as nat, contents(item)) {
                Ok(frame) => res is Ok && contents(*final(dst)) == contents(*old(dst)) + frame
                    && reads_back(true, frame, contents(item)),
                Err(e) => res == Err::<(), CodecError>(e) && contents(*final(dst)) == contents(
                    *old(dst),
                ),
            },
    {
        encode_with(true, self.min_size_to_compress, &item, dst)
    }
}

impl Default for CompressedOlympusPacketCodec {
    /// A codec that compresses payloads of at least 8192 bytes.
    fn default() -> (codec: Self)
        ensures
            codec.state is Header,
            codec.min_size_to_compress == 8192,
    {
        Self { state: OlympusPacketCodecState::Header, min_size_to_compress: 8192 }
    }
}

/// The decoder of both codecs.
fn decode_with(state: &mut OlympusPacketCodecState, enabled: bool, src: &mut BytesMut) -> (res: Result<
    Option<BytesMut>,
    CodecError,
>)
    requires
        state_wf(*old(state), enabled),
    ensures
        state_wf(*final(state), enabled),
        ({
            let out = decode_step(*old(state), enabled, contents(*old(src)));
            &&& *final(state) == out.state
            &&& contents(*final(src)) == out.rest
            &&& match out.result {
                Ok(Some(frame)) => res matches Ok(Some(found)) && contents(found) == frame,
                Ok(None) => res matches Ok(None),
                Err(e) => res matches Err(err) && err == e,
            }
        }),
{
    let ghost bytes = contents(*src);
    let (compressed, decompressed_length, length) = match *state {
        OlympusPacketCodecState::Header => {
            let available = buffer_len(src);
            let flag: usize = if enabled {
                1
            } else {
                0
            };
            if available < flag + 4 {
                return Ok(None);
            }
            let compressed = enabled && byte_at(src, 0) != 0;
            if compressed && available < 9 {
                return Ok(None);
            }
            if enabled {
                let _ = take_byte(src);
            }
            proof {
                lemma_pow256_values();
                assert(bytes.skip(flag as int).take(4) =~= bytes.subrange(flag as int, flag + 4));
            }
            let length = take_be(src, 4) as u32;
            let decompressed_length = if compressed {
                proof {
                    assert(bytes.skip(flag as int).skip(4).take(4) =~= bytes.subrange(
                        flag + 4,
                        flag + 8,
                    ));
                }
                take_be(src, 4) as u32
            } else {
                0
            };
            proof {
                let used = flag + 4 + if compressed {
                    4int
                } else {
                    0int
                };
                assert(contents(*src) =~= bytes.skip(used));
            }
            if length > MAX_PACKET_SIZE || decompressed_length > MAX_PACKET_SIZE {
                return Err(CodecError::PacketTooBig);
            }
            *state =
            OlympusPacketCodecState::Data {
                compressed,
                decompressed_length: decompressed_length as usize,
                length: length as usize,
            };
            if buffer_len(src) <= (isize::MAX as usize) - (length as usize) {
                reserve_room(src, length as usize);
            }
            (compressed, decompressed_length as usize, length as usize)
        },
        OlympusPacketCodecState::Data { compressed, decompressed_length, length } => (
            compressed,
            decompressed_length,
            length,
        ),
    };
    if buffer_len(src) < length {
        return Ok(None);
    }
    let body = split_front(src, length);
    let data = if compressed {
        match lz4_decompress(bytes_of(&body), decompressed_length) {
            Ok(data) => {
                let mut frame = new_buffer();
                put_bytes(&mut frame, data.as_slice());
                assert(contents(frame) =~= data@);
                frame
            },
            Err(_) => {
                return Err(CodecError::InvalidData);
            },
        }
    } else {
        body
    };
    *state = OlympusPacketCodecState::Header;
    Ok(Some(data))
}

/// The encoder of both codecs.
fn encode_with(enabled: bool, min_size: usize, item: &BytesMut, dst: &mut BytesMut) -> (res: Result<
    (),
    CodecError,
>)
    ensures
        match encode_frame(enabled, min_size as nat, contents(*item)) {
            Ok(frame) => res is Ok && contents(*final(dst)) == contents(*old(dst)) + frame
                && reads_back(enabled, frame, contents(*item)),
            Err(e) => res == Err::<(), CodecError>(e) && contents(*final(dst)) == contents(
                *old(dst),
            ),
        },
{
    let ghost before = contents(*dst);
    let len = buffer_len(item);
    if len > MAX_PACKET_SIZE as usize {
        return Err(CodecError::PacketTooBig);
    }
    if enabled && len >= min_size {
        let block = lz4_compress(bytes_of(item));
        if block.len() > MAX_PACKET_SIZE as usize {
            return Err(CodecError::PacketTooBig);
        }
        proof {
            assert forall|tail: Seq<u8>|
                #[trigger] decode_step(
                    OlympusPacketCodecState::Header,
                    enabled,
                    encode_frame(enabled, min_size as nat, contents(*item)).unwrap() + tail,
                ) == (Decoded {
                    state: OlympusPacketCodecState::Header,
                    rest: tail,
                    result: Ok(Some(contents(*item))),
                }) by {
                lemma_decode_encoded(enabled, min_size as nat, contents(*item), tail);
            }
        }
        put_byte(dst, 1);
        put_be(dst, block.len() as u128, 4);
        put_be(dst, len as u128, 4);
        put_bytes(dst, block.as_slice());
        assert(contents(*dst) =~= before + (seq![1u8] + be_bytes(block@.len(), 4) + be_bytes(
            len as nat,
            4,
        ) + block@));
    } else {
        proof {
            assert forall|tail: Seq<u8>|
                #[trigger] decode_step(
                    OlympusPacketCodecState::Header,
                    enabled,
                    encode_frame(enabled, min_size as nat, contents(*item)).unwrap() + tail,
                ) == (Decoded {
                    state: OlympusPacketCodecState::Header,
                    rest: tail,
                    result: Ok(Some(contents(*item))),
                }) by {
                lemma_decode_encoded(enabled, min_size as nat, contents(*item), tail);
            }
        }
        if enabled {
            put_byte(dst, 0);
        }
        put_be(dst, len as u128, 4);
        put_buffer(dst, item);
        if enabled {
            assert(contents(*dst) =~= before + (seq![0u8] + be_bytes(len as nat, 4) + contents(
                *item,
            )));
        } else {
            assert(contents(*dst) =~= before + (be_bytes(len as nat, 4) + contents(*item)));
        }
    }
    Ok(())
}

} // verus!
