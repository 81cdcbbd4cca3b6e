use olympus::codec::{
    CodecError, CompressedOlympusPacketCodec, OlympusCompressionSettings, OlympusPacketCodec,
    OlympusPacketCodecState, MAX_PACKET_SIZE,
};
use tokio_util::bytes::BytesMut;

fn patterned(len: usize) -> Vec<u8> {
    (0..len).map(|i| ((i * 31 + i / 7) % 251) as u8).collect()
}

fn encoded(codec: &mut OlympusPacketCodec, payload: &[u8]) -> BytesMut {
    let mut dst = BytesMut::new();
    codec.encode(BytesMut::from(payload), &mut dst).unwrap();
    dst
}

#[test]
fn an_uncompressed_frame() {
    let mut codec = OlympusPacketCodec::default();
    assert_eq!(
        &encoded(&mut codec, b"hello")[..],
        &[0x00, 0x00, 0x00, 0x05, 0x68, 0x65, 0x6c, 0x6c, 0x6f]
    );
}

#[test]
fn one_byte_at_a_time() {
    let bytes = [0x00u8, 0x00, 0x00, 0x05, 0x68, 0x65, 0x6c, 0x6c, 0x6f];
    let mut codec = OlympusPacketCodec::default();
    let mut src = BytesMut::new();
    for (fed, byte) in bytes.iter().enumerate() {
        src.extend_from_slice(&[*byte]);
        let frame = codec.decode(&mut src).unwrap();
        if fed < 8 {
            assert_eq!(frame, None, "after {} bytes", fed + 1);
        } else {
            assert_eq!(frame, Some(BytesMut::from(&b"hello"[..])));
        }
    }
    assert!(src.is_empty());
    assert_eq!(codec.state, OlympusPacketCodecState::Header);
    assert_eq!(codec.decode(&mut src).unwrap(), None);
}

#[test]
fn a_small_payload_is_not_compressed() {
    let mut codec = OlympusPacketCodec::compress(8192);
    assert_eq!(
        &encoded(&mut codec, b"hello")[..],
        &[0x00, 0x00, 0x00, 0x00, 0x05, 0x68, 0x65, 0x6c, 0x6c, 0x6f]
    );
    let mut older = CompressedOlympusPacketCodec::new(8192);
    let mut dst = BytesMut::new();
    older.encode(BytesMut::from(&b"hello"[..]), &mut dst).unwrap();
    assert_eq!(&dst[..], &[0x00, 0x00, 0x00, 0x00, 0x05, 0x68, 0x65, 0x6c, 0x6c, 0x6f]);
}

#[test]
fn how_codecs_are_made() {
    let codec = OlympusPacketCodec::default();
    assert_eq!(codec.state, OlympusPacketCodecState::Header);
    assert_eq!(
        codec.compression,
        OlympusCompressionSettings { enabled: false, min_size_to_compress: u32::MAX }
    );
    let codec = OlympusPacketCodec::compress(17);
    assert_eq!(codec.compression, OlympusCompressionSettings { enabled: true, min_size_to_compress: 17 });
    assert_eq!(CompressedOlympusPacketCodec::default().min_size_to_compress, 8192);
    assert_eq!(CompressedOlympusPacketCodec::new(5).min_size_to_compress, 5);
    assert_eq!(MAX_PACKET_SIZE, 8_388_608);
}

#[test]
fn a_large_payload_is_compressed() {
    let payload = vec![7u8; 10_000];
    let mut codec = OlympusPacketCodec::compress(8192);
    let frame = encoded(&mut codec, &payload);
    assert_eq!(frame[0], 1);
    let block_len = u32::from_be_bytes([frame[1], frame[2], frame[3], frame[4]]) as usize;
    assert_eq!(&frame[5..9], &[0x00, 0x00, 0x27, 0x10]);
    assert_eq!(frame.len(), 9 + block_len);
    assert!(block_len < 200);
    assert_ne!(&frame[9..], &payload[..]);
    let mut src = frame;
    let mut peer = OlympusPacketCodec::compress(1);
    assert_eq!(peer.decode(&mut src).unwrap(), Some(BytesMut::from(&payload[..])));
    assert!(src.is_empty());
}

#[test]
fn the_threshold_is_inclusive() {
    let mut codec = OlympusPacketCodec::compress(16);
    assert_eq!(encoded(&mut codec, &[1u8; 15])[0], 0);
    assert_eq!(encoded(&mut codec, &[1u8; 16])[0], 1);
    let mut older = CompressedOlympusPacketCodec::new(16);
    let mut dst = BytesMut::new();
    older.encode(BytesMut::from(&[1u8; 16][..]), &mut dst).unwrap();
    assert_eq!(dst[0], 1);
    assert_eq!(older.decode(&mut dst).unwrap(), Some(BytesMut::from(&[1u8; 16][..])));
}

#[test]
fn frames_come_out_as_they_went_in() {
    let payloads: Vec<Vec<u8>> =
        vec![patterned(0), patterned(1), patterned(300), vec![9u8; 5000], patterned(4096), patterned(3)];
    for (enabled, min) in [(false, 0u32), (true, 1000), (true, 0), (true, u32::MAX)] {
        let mut sender =
            if enabled { OlympusPacketCodec::compress(min) } else { OlympusPacketCodec::default() };
        let mut stream = BytesMut::new();
        for payload in &payloads {
            sender.encode(BytesMut::from(&payload[..]), &mut stream).unwrap();
        }
        for chunk in [1usize, 2, 3, 7, 64, 1000, 100_000] {
            let mut receiver = if enabled {
                OlympusPacketCodec::compress(min)
            } else {
                OlympusPacketCodec::default()
            };
            let mut src = BytesMut::new();
            let mut frames: Vec<Vec<u8>> = Vec::new();
            for piece in stream.chunks(chunk) {
                src.extend_from_slice(piece);
                while let Some(frame) = receiver.decode(&mut src).unwrap() {
                    frames.push(frame.to_vec());
                }
            }
            assert_eq!(frames, payloads, "enabled {enabled}, min {min}, chunk {chunk}");
            assert!(src.is_empty());
            assert_eq!(receiver.state, OlympusPacketCodecState::Header);
        }
    }
}

#[test]
fn an_empty_payload() {
    let mut codec = OlympusPacketCodec::default();
    let mut frame = encoded(&mut codec, b"");
    assert_eq!(&frame[..], &[0, 0, 0, 0]);
    assert_eq!(codec.decode(&mut frame).unwrap(), Some(BytesMut::new()));
    let mut codec = OlympusPacketCodec::compress(1);
    let mut frame = encoded(&mut codec, b"");
    assert_eq!(&frame[..], &[0, 0, 0, 0, 0]);
    assert_eq!(codec.decode(&mut frame).unwrap(), Some(BytesMut::new()));
}

#[test]
fn the_decoder_waits_between_header_and_payload() {
    let mut codec = OlympusPacketCodec::compress(8192);
    let mut src = BytesMut::from(&[0u8, 0, 0, 0, 3, 0xaa][..]);
    assert_eq!(codec.decode(&mut src).unwrap(), None);
    assert_eq!(
        codec.state,
        OlympusPacketCodecState::Data { compressed: false, decompressed_length: 0, length: 3 }
    );
    assert_eq!(&src[..], &[0xaa]);
    assert_eq!(codec.decode(&mut src).unwrap(), None);
    src.extend_from_slice(&[0xbb, 0xcc, 0x00]);
    assert_eq!(codec.decode(&mut src).unwrap(), Some(BytesMut::from(&[0xaa, 0xbb, 0xcc][..])));
    assert_eq!(&src[..], &[0x00]);
    assert_eq!(codec.state, OlympusPacketCodecState::Header);
}

#[test]
fn a_compressed_header_has_nine_bytes() {
    let mut codec = OlympusPacketCodec::compress(8192);
    let mut src = BytesMut::from(&[1u8, 0, 0, 0, 1, 0, 0, 0][..]);
    assert_eq!(codec.decode(&mut src).unwrap(), None);
    assert_eq!(src.len(), 8);
    assert_eq!(codec.state, OlympusPacketCodecState::Header);
}

#[test]
fn oversized_frames_fail() {
    let big = vec![0u8; MAX_PACKET_SIZE as usize + 1];
    let mut dst = BytesMut::new();
    assert_eq!(
        OlympusPacketCodec::default().encode(BytesMut::from(&big[..]), &mut dst),
        Err(CodecError::PacketTooBig)
    );
    assert!(dst.is_empty());
    assert_eq!(
        OlympusPacketCodec::compress(0).encode(BytesMut::from(&big[..]), &mut dst),
        Err(CodecError::PacketTooBig)
    );
    assert_eq!(
        CompressedOlympusPacketCodec::default().encode(BytesMut::from(&big[..]), &mut dst),
        Err(CodecError::PacketTooBig)
    );
    assert!(dst.is_empty());

    let mut src = BytesMut::from(&[0x00u8, 0x80, 0x00, 0x01, 0x00][..]);
    assert_eq!(OlympusPacketCodec::default().decode(&mut src), Err(CodecError::PacketTooBig));
    let mut src = BytesMut::from(&[0x00u8, 0x00, 0x80, 0x00, 0x01][..]);
    assert_eq!(OlympusPacketCodec::compress(0).decode(&mut src), Err(CodecError::PacketTooBig));
    let mut src = BytesMut::from(&[0x01u8, 0, 0, 0, 1, 0x00, 0x80, 0x00, 0x01, 0][..]);
    assert_eq!(CompressedOlympusPacketCodec::default().decode(&mut src), Err(CodecError::PacketTooBig));
}

#[test]
fn the_largest_frame_passes() {
    let payload = vec![0x5au8; MAX_PACKET_SIZE as usize];
    let mut codec = OlympusPacketCodec::default();
    let mut stream = BytesMut::new();
    assert_eq!(codec.encode(BytesMut::from(&payload[..]), &mut stream), Ok(()));
    assert_eq!(&stream[..4], &[0x00, 0x80, 0x00, 0x00]);
    let frame = codec.decode(&mut stream).unwrap().unwrap();
    assert_eq!(frame.len(), payload.len());
    assert!(frame[..] == payload[..]);
}

#[test]
fn a_block_that_is_no_block_fails() {
    let mut codec = OlympusPacketCodec::compress(0);
    let mut src = BytesMut::from(&[1u8, 0, 0, 0, 3, 0, 0, 0, 8, 0xff, 0xff, 0xff][..]);
    assert_eq!(codec.decode(&mut src), Err(CodecError::InvalidData));
}

#[test]
fn a_block_that_needs_more_room_fails() {
    let payload = vec![3u8; 1000];
    let mut codec = OlympusPacketCodec::compress(0);
    let mut frame = encoded(&mut codec, &payload);
    frame[5..9].copy_from_slice(&[0, 0, 0, 10]);
    assert_eq!(codec.decode(&mut frame), Err(CodecError::InvalidData));
}

#[test]
fn any_flag_but_zero_means_compressed() {
    let payload = vec![3u8; 100];
    let mut codec = OlympusPacketCodec::compress(0);
    let mut frame = encoded(&mut codec, &payload);
    frame[0] = 0x7f;
    assert_eq!(codec.decode(&mut frame).unwrap(), Some(BytesMut::from(&payload[..])));
}

#[test]
fn peers_in_different_modes_do_not_agree() {
    let mut sender = OlympusPacketCodec::default();
    let mut frame = encoded(&mut sender, b"hello");
    let mut receiver = OlympusPacketCodec::compress(8192);
    assert_ne!(receiver.decode(&mut frame), Ok(Some(BytesMut::from(&b"hello"[..]))));
}
