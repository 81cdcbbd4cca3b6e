use olympus::codec::OlympusPacketCodec;
use olympus::dispatch::{
    request_frame, response_frame, step, take_fingerprint, CallAction, CallEvent, CallState,
    HandlerRegistry, ProcedureHolder,
};
use olympus::fnv::fnv;
use olympus::models::{Action, File, GetFileParams};
use olympus::varint::Variable;
use olympus::wire::{ProcedureInput, ProcedureOutput};
use tokio_util::bytes::BytesMut;

#[test]
fn the_later_registration_wins() {
    let mut registry: HandlerRegistry<u32> = HandlerRegistry::new();
    assert!(registry.lookup(fnv("getFile")).is_none());
    registry.register("getFile", 1);
    registry.register("deleteFile", 2);
    assert_eq!(registry.lookup(fnv("getFile")), Some(&(1, "getFile".to_string())));
    registry.register("getFile", 3);
    assert_eq!(registry.lookup(fnv("getFile")), Some(&(3, "getFile".to_string())));
    assert_eq!(registry.lookup(fnv("deleteFile")), Some(&(2, "deleteFile".to_string())));
    registry.register("getFile", 3);
    assert_eq!(registry.lookup(fnv("getFile")), Some(&(3, "getFile".to_string())));
    assert_eq!(registry.handlers.len(), 2);
    assert!(registry.lookup(fnv("get_file")).is_none());
    assert!(registry.lookup(0).is_none());
}

#[test]
fn a_frame_starts_with_a_fingerprint() {
    let mut frame = BytesMut::from(&[0x09u8, 0x2f, 0x6e, 0xef, 0x58, 0x6a, 0x57, 0x49, 1, 2][..]);
    assert_eq!(take_fingerprint(&mut frame), Some(fnv("getFile")));
    assert_eq!(&frame[..], &[1, 2]);
    let mut exact = BytesMut::from(&[0xffu8; 8][..]);
    assert_eq!(take_fingerprint(&mut exact), Some(u64::MAX));
    assert!(exact.is_empty());
}

#[test]
fn a_short_frame_has_no_fingerprint() {
    let mut frame = BytesMut::from(&[1u8, 2, 3, 4, 5, 6, 7][..]);
    assert_eq!(take_fingerprint(&mut frame), None);
    assert_eq!(frame.len(), 7);
    assert_eq!(take_fingerprint(&mut BytesMut::new()), None);
}

#[test]
fn a_request_carries_name_and_input() {
    let body = BytesMut::from(&[0xaau8, 0xbb][..]);
    let frame = request_frame("getFile", &body);
    assert_eq!(&frame[..], &[0x09, 0x2f, 0x6e, 0xef, 0x58, 0x6a, 0x57, 0x49, 0xaa, 0xbb]);
    let mut frame = frame;
    assert_eq!(take_fingerprint(&mut frame), Some(fnv("getFile")));
    assert_eq!(frame, body);
}

#[test]
fn no_bytes_no_answer() {
    assert_eq!(response_frame(7, &BytesMut::new()), None);
    let answer = response_frame(0x0102_0304_0506_0708, &BytesMut::from(&[9u8][..])).unwrap();
    assert_eq!(&answer[..], &[1, 2, 3, 4, 5, 6, 7, 8, 9]);
}

#[test]
fn the_life_of_a_call() {
    assert_eq!(
        step(CallState::Registered, CallEvent::FrameArrived),
        Some((CallState::Dispatching, CallAction::Decode))
    );
    assert_eq!(
        step(CallState::Dispatching, CallEvent::Decoded),
        Some((CallState::Executing, CallAction::Invoke))
    );
    assert_eq!(
        step(CallState::Dispatching, CallEvent::DecodeFailed),
        Some((CallState::Silent, CallAction::LogFailure))
    );
    assert_eq!(
        step(CallState::Executing, CallEvent::Returned { len: 1 }),
        Some((CallState::Responded, CallAction::Respond))
    );
    assert_eq!(
        step(CallState::Executing, CallEvent::Returned { len: 0 }),
        Some((CallState::Silent, CallAction::Nothing))
    );
    for state in [CallState::Responded, CallState::Silent] {
        for event in [
            CallEvent::FrameArrived,
            CallEvent::Decoded,
            CallEvent::DecodeFailed,
            CallEvent::Returned { len: 3 },
        ] {
            assert_eq!(step(state, event), None);
        }
    }
    assert_eq!(step(CallState::Registered, CallEvent::Decoded), None);
    assert_eq!(step(CallState::Executing, CallEvent::FrameArrived), None);
    assert_eq!(step(CallState::Dispatching, CallEvent::Returned { len: 1 }), None);
}

#[test]
fn a_call_of_get_file() {
    let mut server: HandlerRegistry<fn(GetFileParams) -> File> = HandlerRegistry::new();
    server.register("getFile", |params| File {
        path: params.path,
        size: Variable(2),
        content: vec![0xab, 0xcd],
    });

    let asked = GetFileParams { path: "/p".to_string(), after_action: Some(Action::Delete) };
    let request = request_frame("getFile", &asked.serialize().unwrap());
    let mut client_codec = OlympusPacketCodec::compress(8192);
    let mut wire = BytesMut::new();
    client_codec.encode(request, &mut wire).unwrap();

    let mut server_codec = OlympusPacketCodec::compress(8192);
    let mut frame = server_codec.decode(&mut wire).unwrap().unwrap();
    let fingerprint = take_fingerprint(&mut frame).unwrap();
    let (handler, name) = server.lookup(fingerprint).unwrap();
    assert_eq!(name, "getFile");
    let params = GetFileParams::deserialize(&mut frame).unwrap();
    assert_eq!(params, asked);
    let answer = handler(params).serialize().unwrap();
    let response = response_frame(fingerprint, &answer).unwrap();

    let mut expected = fnv("getFile").to_be_bytes().to_vec();
    expected.extend_from_slice(&[0x00, 0x00, 0x00, 0x02, 0x2f, 0x70]);
    expected.extend_from_slice(&[0x02]);
    expected.extend_from_slice(&[0x00, 0x00, 0x00, 0x02, 0xab, 0xcd]);
    assert_eq!(&response[..], &expected[..]);

    server_codec.encode(response, &mut wire).unwrap();
    let mut frame = client_codec.decode(&mut wire).unwrap().unwrap();
    assert_eq!(take_fingerprint(&mut frame), Some(fnv("getFile")));
    assert_eq!(
        File::deserialize(&mut frame),
        Ok(File { path: "/p".to_string(), size: Variable(2), content: vec![0xab, 0xcd] })
    );
    assert!(frame.is_empty());
}

#[test]
fn a_call_without_parameters() {
    let request = request_frame("getServerVersion", &().serialize().unwrap());
    assert_eq!(request.len(), 8);
    assert_eq!(&request[..], &fnv("getServerVersion").to_be_bytes());
    let mut frame = request;
    let fingerprint = take_fingerprint(&mut frame).unwrap();
    assert_eq!(<()>::deserialize(&mut frame), Ok(()));
    let response = response_frame(fingerprint, &69i8.serialize().unwrap()).unwrap();
    assert_eq!(response.len(), 9);
    assert_eq!(&response[..8], &fnv("getServerVersion").to_be_bytes());
    assert_eq!(response[8], 0x45);
}

#[test]
fn a_call_that_returns_nothing_is_not_answered() {
    let answer = ().serialize().unwrap();
    assert_eq!(response_frame(fnv("deleteFile"), &answer), None);
    assert_eq!(
        step(CallState::Executing, CallEvent::Returned { len: answer.len() }),
        Some((CallState::Silent, CallAction::Nothing))
    );
}

#[test]
fn a_frame_for_nobody_is_found_out() {
    let registry: HandlerRegistry<u8> = HandlerRegistry::new();
    let mut frame = request_frame("unknown", &BytesMut::new());
    let fingerprint = take_fingerprint(&mut frame).unwrap();
    assert!(registry.lookup(fingerprint).is_none());
}

#[test]
fn a_holder_keeps_its_function() {
    let holder: ProcedureHolder<fn(u8) -> u8, u8> = ProcedureHolder::new(|x| x + 1);
    assert_eq!((holder.procedure)(2), 3);
    let mut registry: HandlerRegistry<ProcedureHolder<fn(u8) -> u8, u8>> = HandlerRegistry::new();
    registry.register("inc", holder);
    let (found, name) = registry.lookup(fnv("inc")).unwrap();
    assert_eq!(name, "inc");
    assert_eq!((found.procedure)(41), 42);
}
