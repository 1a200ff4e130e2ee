use stt_engine::protocol::maker::encode_frame;
use stt_engine::protocol::parser::decode_frame;
use stt_engine::protocol::{
    Ack, Body, DecodeError, EndpointType, Frame, IOChunk, Register, RwMode, IO_CHUNK_SIZE,
};
use stt_engine::server::channel::{WorkerChannel, WorkerChannelMessage};
use stt_engine::server::proxy::{
    classify, keep_reading, rejection_packet, route, Opening, Roster, TcpListenerConfig,
};

fn sn(k: u8) -> [u8; 6] {
    [127, 0, 0, 1, 0x23, k]
}

#[test]
fn no_worker_means_rejection() {
    let mut roster: Roster<u32> = Roster::new();
    assert_eq!(roster.connect(), None);
    assert_eq!(roster.len(), 0);
    let rejected = rejection_packet();
    assert_eq!(rejected, vec![0x89, 0xab, 1, 6]);
    assert_eq!(
        decode_frame(&rejected),
        Ok((Frame { e_type: EndpointType::Client, body: Body::ConnRejected }, 4))
    );
}

#[test]
fn two_clients_race_for_one_worker() {
    let mut roster: Roster<u32> = Roster::new();
    assert_eq!(roster.register(sn(0x8c), 1), None);
    let first = roster.connect();
    let second = roster.connect();
    let (i, cid) = first.expect("one client is admitted");
    assert_eq!(i, 0);
    assert_eq!(second, None);
    let (w, h) = roster.get(0);
    assert!(!w.is_available());
    assert_eq!(w.client, Some(cid));
    assert_eq!(*h, 1);
}

#[test]
fn workers_are_never_shared_and_are_reused_after_finishing() {
    let mut roster: Roster<u8> = Roster::new();
    for k in 0..50u8 {
        roster.register(sn(k), k);
    }
    let mut seen = Vec::new();
    for _ in 0..50 {
        let (i, _) = roster.connect().expect("a worker is free");
        assert!(!seen.contains(&i));
        seen.push(i);
    }
    assert_eq!(seen, (0..50usize).collect::<Vec<_>>());
    assert_eq!(roster.connect(), None);
    // worker 7 reports itself available after its session ends
    assert_eq!(roster.update_available(&sn(7), true), Some(7));
    assert_eq!(roster.get(7).0.client, None);
    let (i, _) = roster.connect().unwrap();
    assert_eq!(i, 7);
    assert_eq!(roster.connect(), None);
}

#[test]
fn unavailable_report_keeps_the_client() {
    let mut roster: Roster<u8> = Roster::new();
    roster.register(sn(1), 0);
    let (_, cid) = roster.connect().unwrap();
    assert_eq!(roster.update_available(&sn(1), false), Some(0));
    assert_eq!(roster.get(0).0.client, Some(cid));
    assert_eq!(roster.update_available(&sn(9), true), None);
}

#[test]
fn first_available_worker_is_chosen() {
    let mut roster: Roster<u8> = Roster::new();
    roster.register(sn(1), 10);
    roster.register(sn(2), 20);
    roster.register(sn(3), 30);
    roster.connect().unwrap();
    roster.update_available(&sn(1), true);
    roster.connect().unwrap();
    assert_eq!(roster.connect().unwrap().0, 1);
    assert_eq!(roster.connect().unwrap().0, 2);
}

#[test]
fn reregistration_replaces_in_place() {
    let mut roster: Roster<u8> = Roster::new();
    roster.register(sn(1), 10);
    roster.register(sn(2), 20);
    roster.connect().unwrap();
    assert_eq!(roster.register(sn(1), 11), Some(10));
    assert_eq!(roster.len(), 2);
    let (w, h) = roster.get(0);
    assert_eq!(*w, WorkerChannel::new(sn(1)));
    assert_eq!(*h, 11);
    assert_eq!(roster.find(&sn(2)), Some(1));
    assert_eq!(roster.find(&sn(3)), None);
}

#[test]
fn closed_worker_is_swept() {
    let mut roster: Roster<u8> = Roster::new();
    roster.register(sn(1), 10);
    roster.register(sn(2), 20);
    roster.register(sn(3), 30);
    assert_eq!(roster.sweep(), Vec::<u8>::new());
    assert_eq!(roster.len(), 3);
    roster.mark_stream_closed(&sn(2));
    assert!(roster.get(1).0.is_stream_closed());
    assert_eq!(roster.sweep(), vec![20]);
    assert_eq!(roster.len(), 2);
    assert_eq!(roster.find(&sn(2)), None);
    assert_eq!(roster.get(1).1, 30);
}

#[test]
fn crashed_only_worker_leads_to_rejection() {
    let mut roster: Roster<u8> = Roster::new();
    roster.register(sn(1), 10);
    roster.mark_stream_closed(&sn(1));
    roster.sweep();
    assert_eq!(roster.len(), 0);
    assert_eq!(roster.connect(), None);
}

#[test]
fn first_frame_classification() {
    let reg = Frame {
        e_type: EndpointType::Handler,
        body: Body::Register(Register::new([127, 0, 0, 1], 9100)),
    };
    assert_eq!(classify(&reg), Opening::Worker([0x7f, 0, 0, 1, 0x23, 0x8c]));
    let conn = Frame { e_type: EndpointType::Client, body: Body::Connect };
    assert_eq!(classify(&conn), Opening::Client);
    let wrong = Frame { e_type: EndpointType::Client, body: Body::Register(Register::new([1, 1, 1, 1], 1)) };
    assert_eq!(classify(&wrong), Opening::Close);
    assert_eq!(classify(&Frame { e_type: EndpointType::Handler, body: Body::Connect }), Opening::Close);
}

#[test]
fn steady_state_routing() {
    let s = sn(5);
    let ack = Frame { e_type: EndpointType::Handler, body: Body::Ack(Ack::new(s, true)) };
    assert_eq!(route(&ack), Some((s, WorkerChannelMessage::Alive(s, true))));
    let audio = IOChunk::new(RwMode::Client, s, 3, 2, [0u8; IO_CHUNK_SIZE]);
    let text = IOChunk::new(RwMode::Server, s, 3, 2, [0u8; IO_CHUNK_SIZE]);
    let client_data = Frame { e_type: EndpointType::Client, body: Body::Data(audio) };
    assert_eq!(route(&client_data), Some((s, WorkerChannelMessage::ClientData(audio))));
    let server_data = Frame { e_type: EndpointType::Handler, body: Body::Data(text) };
    assert_eq!(route(&server_data), Some((s, WorkerChannelMessage::ServerData(text))));
    let wrong_mode = Frame { e_type: EndpointType::Client, body: Body::Data(text) };
    assert_eq!(route(&wrong_mode), None);
    let eos = Frame { e_type: EndpointType::Client, body: Body::Eos(s, 3) };
    assert_eq!(route(&eos), Some((s, WorkerChannelMessage::Eos(s, 3))));
    let stray = Frame { e_type: EndpointType::Client, body: Body::Connect };
    assert_eq!(route(&stray), None);
    assert_eq!(decode_frame(&encode_frame(&eos)).unwrap().0, eos);
}

#[test]
fn read_error_policy() {
    assert!(keep_reading(DecodeError::MagicMismatch, false));
    assert!(!keep_reading(DecodeError::MagicMismatch, true));
    assert!(!keep_reading(DecodeError::UnexpectedEof, false));
    assert!(!keep_reading(DecodeError::TruncatedPayload, false));
    assert!(!keep_reading(DecodeError::UnknownPacket, false));
}

#[test]
fn listener_config() {
    let c = TcpListenerConfig::new("0.0.0.0".to_string(), 8888);
    assert_eq!(c.ip, "0.0.0.0");
    assert_eq!(c.port, 8888);
}

#[test]
fn crash_of_one_of_many_workers_leaves_the_others() {
    let mut roster: Roster<u8> = Roster::new();
    for k in 0..5u8 {
        roster.register(sn(k), k);
    }
    roster.mark_stream_closed(&sn(2));
    assert_eq!(roster.sweep(), vec![2]);
    assert_eq!(roster.len(), 4);
    let left: Vec<u8> = (0..roster.len()).map(|i| roster.get(i).1).collect();
    assert_eq!(left, vec![0, 1, 3, 4]);
}
