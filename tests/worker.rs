use stt_engine::endpoint::Endpoint;
use stt_engine::protocol::maker::encode_frame;
use stt_engine::protocol::parser::decode_frame;
use stt_engine::protocol::{Ack, Body, EndpointType, Frame, IOChunk, RwMode, IO_CHUNK_SIZE};
use stt_engine::server::worker::{
    pcm_samples, result_packet, TcpWorkerConfig, TcpWorkerEndpoint, WorkerAction, WorkerSession,
};

const SN: [u8; 6] = [0x7f, 0x00, 0x00, 0x01, 0x23, 0x8c];

fn registered() -> WorkerSession {
    let mut w = WorkerSession::new();
    let reg_ok = Frame { e_type: EndpointType::Handler, body: Body::RegOk(SN) };
    assert_eq!(w.on_frame(&reg_ok), WorkerAction::Idle);
    assert_eq!(w.serial_no, SN);
    w
}

fn audio(cid: u32, fill: u8, length: u16) -> Frame {
    let chunk = IOChunk::new(RwMode::Client, SN, cid, length, [fill; IO_CHUNK_SIZE]);
    Frame { e_type: EndpointType::Client, body: Body::Data(chunk) }
}

fn eos(cid: u32) -> Frame {
    Frame { e_type: EndpointType::Handler, body: Body::Eos(SN, cid) }
}

fn alive(available: bool) -> Vec<u8> {
    encode_frame(&Frame { e_type: EndpointType::Handler, body: Body::Ack(Ack::new(SN, available)) })
}

#[test]
fn silent_session_sends_no_result_and_frees_the_worker() {
    let mut w = registered();
    let action = w.on_frame(&audio(11, 0, 1024));
    match action {
        WorkerAction::Transcribe(sn, cid, samples) => {
            assert_eq!(sn, SN);
            assert_eq!(cid, 11);
            assert_eq!(samples, vec![0i16; 512]);
        },
        other => panic!("expected a transcription, got {:?}", other),
    }
    assert!(!w.available);
    // the recogniser heard nothing: no result frame
    assert_eq!(result_packet(SN, 11, ""), None);
    // whitespace alone still goes back, as an empty transcript
    let blank = result_packet(SN, 11, "  \n").unwrap();
    assert_eq!(transcript_of(&blank), Vec::<u8>::new());
    assert_eq!(w.on_frame(&eos(11)), WorkerAction::ResetAndReport(alive(true)));
    assert!(w.available);
    assert_eq!(w.session, None);
}

#[test]
fn streaming_keeps_order_and_resets_once() {
    let mut w = registered();
    for k in 0..100u32 {
        match w.on_frame(&audio(3, k as u8, 1024)) {
            WorkerAction::Transcribe(_, cid, samples) => {
                assert_eq!(cid, 3);
                assert_eq!(samples.len(), 512);
                let b = k as u8 as u16;
                assert_eq!(samples[0], ((b << 8) | b) as i16);
            },
            other => panic!("expected a transcription, got {:?}", other),
        }
    }
    let mut resets = 0;
    for _ in 0..2 {
        if let WorkerAction::ResetAndReport(_) = w.on_frame(&eos(3)) {
            resets += 1;
        }
    }
    assert_eq!(resets, 1);
}

#[test]
fn second_eos_is_dropped() {
    let mut w = registered();
    w.on_frame(&audio(8, 1, 2));
    assert!(matches!(w.on_frame(&eos(8)), WorkerAction::ResetAndReport(_)));
    let before = w;
    assert_eq!(w.on_frame(&eos(8)), WorkerAction::Idle);
    assert_eq!(w, before);
}

#[test]
fn repeated_eos_of_an_earlier_client_is_dropped() {
    let mut w = registered();
    w.on_frame(&audio(8, 1, 2));
    assert!(matches!(w.on_frame(&eos(8)), WorkerAction::ResetAndReport(_)));
    w.on_frame(&audio(9, 1, 2));
    assert_eq!(w.on_frame(&eos(8)), WorkerAction::Idle);
    assert_eq!(w.session, Some(9));
    assert!(!w.available);
}

#[test]
fn odd_length_chunk_is_dropped() {
    let mut w = registered();
    assert_eq!(w.on_frame(&audio(1, 0, 1023)), WorkerAction::Idle);
    assert!(!w.available);
    assert_eq!(w.on_frame(&audio(1, 0, 1026)), WorkerAction::Idle);
}

#[test]
fn status_is_answered_with_availability() {
    let mut w = registered();
    let status = Frame { e_type: EndpointType::Handler, body: Body::Status };
    assert_eq!(w.on_frame(&status), WorkerAction::Send(alive(true)));
    w.on_frame(&audio(1, 0, 2));
    assert_eq!(w.on_frame(&status), WorkerAction::Send(alive(false)));
    w.on_idle();
    assert_eq!(w.on_frame(&status), WorkerAction::Send(alive(true)));
}

#[test]
fn frames_of_other_kinds_are_ignored() {
    let mut w = registered();
    let before = w;
    let server_chunk = IOChunk::new(RwMode::Server, SN, 1, 2, [0; IO_CHUNK_SIZE]);
    let f = Frame { e_type: EndpointType::Client, body: Body::Data(server_chunk) };
    assert_eq!(w.on_frame(&f), WorkerAction::Idle);
    let f = Frame { e_type: EndpointType::Client, body: Body::Status };
    assert_eq!(w.on_frame(&f), WorkerAction::Idle);
    assert_eq!(w, before);
}

#[test]
fn pcm_is_little_endian_signed() {
    let mut data = [0u8; IO_CHUNK_SIZE];
    data[..6].copy_from_slice(&[0x01, 0x00, 0xff, 0x7f, 0x00, 0x80]);
    let c = IOChunk::new(RwMode::Client, SN, 1, 6, data);
    assert_eq!(pcm_samples(&c), Some(vec![1, 32767, -32768]));
    let c = IOChunk::new(RwMode::Client, SN, 1, 0, data);
    assert_eq!(pcm_samples(&c), Some(vec![]));
    let c = IOChunk::new(RwMode::Client, SN, 1, 5, data);
    assert_eq!(pcm_samples(&c), None);
}

#[test]
fn transcript_is_trimmed_and_padded() {
    let bytes = result_packet(SN, 77, " \t你好 world\n").unwrap();
    let (frame, n) = decode_frame(&bytes).unwrap();
    assert_eq!(n, bytes.len());
    assert_eq!(frame.e_type, EndpointType::Handler);
    match frame.body {
        Body::Data(c) => {
            let text = "你好 world".as_bytes();
            assert_eq!(c.get_mode(), RwMode::Server);
            assert_eq!(c.get_serial_no(), SN);
            assert_eq!(c.get_client_id(), 77);
            assert_eq!(c.get_length() as usize, text.len());
            assert_eq!(&c.get_data()[..text.len()], text);
            assert!(c.get_data()[text.len()..].iter().all(|b| *b == 0));
        },
        other => panic!("expected data, got {:?}", other),
    }
    assert_eq!(result_packet(SN, 1, &"a".repeat(1025)), None);
    assert!(result_packet(SN, 1, &format!(" {} ", "a".repeat(1024))).is_some());
}

#[test]
fn register_packet_names_the_worker() {
    let bytes = WorkerSession::register_packet([127, 0, 0, 1], 8888);
    assert_eq!(bytes, vec![0x89, 0xab, 0, 0, 127, 0, 0, 1, 0x22, 0xb8]);
}

#[test]
fn dotted_quad_is_read() {
    let w = TcpWorkerEndpoint::init(TcpWorkerConfig::new("127.0.0.1".to_string(), 8888)).unwrap();
    assert_eq!(w.exact_ip(), Some([127, 0, 0, 1]));
    let ip = |s: &str| TcpWorkerEndpoint::init(TcpWorkerConfig::new(s.to_string(), 1)).unwrap().exact_ip();
    assert_eq!(ip("255.255.255.255"), Some([255, 255, 255, 255]));
    assert_eq!(ip("010.0.0.9"), Some([10, 0, 0, 9]));
    assert_eq!(ip("256.0.0.1"), None);
    assert_eq!(ip("1.2.3"), None);
    assert_eq!(ip("1.2.3.4.5"), None);
    assert_eq!(ip("1..3.4"), None);
    assert_eq!(ip("1.2.3.4."), None);
    assert_eq!(ip("localhost"), None);
    assert_eq!(ip(""), None);
}

fn transcript_of(packet: &[u8]) -> Vec<u8> {
    match decode_frame(packet).unwrap().0.body {
        Body::Data(c) => c.get_data()[..c.get_length() as usize].to_vec(),
        other => panic!("expected data, got {:?}", other),
    }
}

#[test]
fn ideographic_space_is_trimmed() {
    let bytes = result_packet(SN, 5, "\u{3000}你好\u{3000}").unwrap();
    assert_eq!(transcript_of(&bytes), "你好".as_bytes().to_vec());
    let blank = result_packet(SN, 5, "\u{3000}\u{a0}\u{2028}").unwrap();
    assert_eq!(transcript_of(&blank), Vec::<u8>::new());
}

#[test]
fn vertical_tab_is_trimmed() {
    let bytes = result_packet(SN, 5, "\u{b}A").unwrap();
    let (frame, _) = decode_frame(&bytes).unwrap();
    match frame.body {
        Body::Data(c) => assert_eq!(c.get_length(), 1),
        other => panic!("expected data, got {:?}", other),
    }
    assert_eq!(transcript_of(&bytes), b"A".to_vec());
    let bytes = result_packet(SN, 5, "\u{85}a b\u{205f}").unwrap();
    assert_eq!(transcript_of(&bytes), b"a b".to_vec());
}

#[test]
fn whitespace_only_transcript_is_an_empty_frame() {
    let bytes = result_packet(SN, 9, " ").unwrap();
    let (frame, _) = decode_frame(&bytes).unwrap();
    match frame.body {
        Body::Data(c) => {
            assert_eq!(c.get_length(), 0);
            assert_eq!(c.get_client_id(), 9);
            assert!(c.get_data().iter().all(|b| *b == 0));
        },
        other => panic!("expected data, got {:?}", other),
    }
}

#[test]
fn eos_without_audio_resets_and_reports() {
    let mut w = registered();
    assert_eq!(w.on_frame(&eos(4)), WorkerAction::ResetAndReport(alive(true)));
    assert!(w.available);
    assert_eq!(w.closed, Some(4));
    assert_eq!(w.on_frame(&eos(4)), WorkerAction::Idle);
    // a new client's end of stream is not a repeat
    assert_eq!(w.on_frame(&eos(5)), WorkerAction::ResetAndReport(alive(true)));
    // audio from the same client id opens a new session that ends normally
    w.on_frame(&audio(5, 0, 2));
    assert!(matches!(w.on_frame(&eos(5)), WorkerAction::ResetAndReport(_)));
}
