use stt_engine::client::{
    audio_packets, connect_packet, eos_packet, next_part, result_text, split_lines,
    ClientSession, TcpClientConfig, TcpClientEndpoint, TcpClientState, PART_FILES,
};
use stt_engine::endpoint::Endpoint;
use stt_engine::protocol::parser::decode_frame;
use stt_engine::protocol::{Body, EndpointType, Frame, RwMode, TranscribeResult, IO_CHUNK_SIZE};

const SN: [u8; 6] = [0x7f, 0x00, 0x00, 0x01, 0x23, 0x8c];

#[test]
fn audio_is_cut_into_chunks() {
    let audio: Vec<u8> = (0..2500u32).map(|i| (i % 251) as u8).collect();
    let packets = audio_packets(SN, 5, &audio);
    assert_eq!(packets.len(), 3);
    let mut rebuilt = Vec::new();
    for (k, p) in packets.iter().enumerate() {
        assert_eq!(p.len(), 4 + 1037);
        let (frame, _) = decode_frame(p).unwrap();
        assert_eq!(frame.e_type, EndpointType::Client);
        match frame.body {
            Body::Data(c) => {
                assert_eq!(c.get_mode(), RwMode::Client);
                assert_eq!(c.get_client_id(), 5);
                let want = if k < 2 { 1024 } else { 452 };
                assert_eq!(c.get_length(), want);
                rebuilt.extend_from_slice(&c.get_data()[..want as usize]);
                assert!(c.get_data()[want as usize..].iter().all(|b| *b == 0));
            },
            other => panic!("expected data, got {:?}", other),
        }
    }
    assert_eq!(rebuilt, audio);
}

#[test]
fn chunk_count_edges() {
    assert_eq!(audio_packets(SN, 1, &[]).len(), 0);
    assert_eq!(audio_packets(SN, 1, &[0u8; 1024]).len(), 1);
    assert_eq!(audio_packets(SN, 1, &[0u8; 1025]).len(), 2);
    assert_eq!(audio_packets(SN, 1, &vec![0u8; 100 * 1024]).len(), 100);
}

#[test]
fn session_follows_the_proxy() {
    let mut s = ClientSession::new();
    assert_eq!(s.state, TcpClientState::Init);
    assert_eq!(s.finish(), None);
    let ok = Frame { e_type: EndpointType::Client, body: Body::ConnOk(SN, 99) };
    assert_eq!(s.on_frame(&ok), None);
    assert_eq!(s.state, TcpClientState::Connected);
    assert_eq!(s.client_id, 99);
    let mut data = [0u8; IO_CHUNK_SIZE];
    data[..2].copy_from_slice(b"hi");
    let res = Frame { e_type: EndpointType::Client, body: Body::Result(TranscribeResult::new(2, data)) };
    assert_eq!(s.on_frame(&res), Some(b"hi".to_vec()));
    assert_eq!(s.finish(), Some(eos_packet(SN, 99)));
    assert_eq!(s.state, TcpClientState::Eos);
    assert_eq!(s.finish(), None);
}

#[test]
fn rejected_session() {
    let mut s = ClientSession::new();
    let no = Frame { e_type: EndpointType::Client, body: Body::ConnRejected };
    assert_eq!(s.on_frame(&no), None);
    assert_eq!(s.state, TcpClientState::Rejected);
    assert_eq!(s.finish(), None);
}

#[test]
fn client_frames_are_exact() {
    assert_eq!(connect_packet(), vec![0x89, 0xab, 1, 4]);
    assert_eq!(eos_packet(SN, 0x01020304), vec![0x89, 0xab, 1, 9, 0x7f, 0, 0, 1, 0x23, 0x8c, 1, 2, 3, 4]);
}

#[test]
fn result_text_takes_the_valid_prefix() {
    let t = TranscribeResult::new(3, [b'x'; IO_CHUNK_SIZE]);
    assert_eq!(result_text(&t), b"xxx".to_vec());
    let t = TranscribeResult::new(5000, [b'y'; IO_CHUNK_SIZE]);
    assert_eq!(result_text(&t).len(), IO_CHUNK_SIZE);
}

#[test]
fn client_endpoint_from_config() {
    let e = TcpClientEndpoint::init(TcpClientConfig::new("1.2.3.4".to_string(), 80, "a.wav".to_string())).unwrap();
    assert_eq!(e.ip, "1.2.3.4");
    assert_eq!(e.port, 80);
    assert_eq!(e.file, "a.wav");
}

#[test]
fn benchmark_cycles_through_the_files() {
    assert_eq!(next_part(1), 2);
    assert_eq!(next_part(99), 100);
    assert_eq!(next_part(PART_FILES), 1);
    assert_eq!(next_part(0), 1);
    let mut i = 1;
    for _ in 0..100 {
        i = next_part(i);
    }
    assert_eq!(i, 1);
}

#[test]
fn raw_text_is_split_into_lines() {
    assert_eq!(split_lines(b"one\ntwo\n"), vec![b"one".to_vec(), b"two".to_vec()]);
    assert_eq!(split_lines(b"a\n\n\nb"), vec![b"a".to_vec(), b"b".to_vec()]);
    assert_eq!(split_lines(b""), Vec::<Vec<u8>>::new());
    assert_eq!(split_lines(b"\n\n"), Vec::<Vec<u8>>::new());
    assert_eq!(split_lines("你好\n".as_bytes()), vec!["你好".as_bytes().to_vec()]);
}
