use stt_engine::protocol::maker::encode_frame;
use stt_engine::protocol::{
    Ack, Body, EndpointType, Frame, IOChunk, RwMode, TranscribeResult, IO_CHUNK_SIZE,
};
use stt_engine::server::channel::{Mailbox, Target, WorkerChannel, WorkerChannelMessage, Write};

const SN: [u8; 6] = [127, 0, 0, 1, 0x23, 0x8c];

fn attached() -> Mailbox {
    let mut m = Mailbox::new(SN);
    assert!(m.handle(WorkerChannelMessage::Attach).is_empty());
    m
}

fn chunk(mode: RwMode, cid: u32, fill: u8) -> IOChunk {
    IOChunk::new(mode, SN, cid, 4, [fill; IO_CHUNK_SIZE])
}

#[test]
fn register_ok_goes_to_the_worker() {
    let mut m = attached();
    let out = m.handle(WorkerChannelMessage::RegisterOk(SN));
    let want = encode_frame(&Frame { e_type: EndpointType::Handler, body: Body::RegOk(SN) });
    assert_eq!(out, vec![Write { to: Target::Worker, bytes: want }]);
}

#[test]
fn nothing_is_written_before_attach() {
    let mut m = Mailbox::new(SN);
    assert!(m.handle(WorkerChannelMessage::RegisterOk(SN)).is_empty());
    assert!(m.handle(WorkerChannelMessage::ClientData(chunk(RwMode::Client, 1, 0))).is_empty());
}

#[test]
fn audio_reaches_the_worker_in_order() {
    let mut m = attached();
    let mut written = Vec::new();
    for k in 0..10u8 {
        let c = chunk(RwMode::Client, 7, k);
        let out = m.handle(WorkerChannelMessage::ClientData(c));
        assert_eq!(out.len(), 1);
        assert_eq!(out[0].to, Target::Worker);
        written.push(out[0].bytes.clone());
        let want = encode_frame(&Frame { e_type: EndpointType::Client, body: Body::Data(c) });
        assert_eq!(out[0].bytes, want);
    }
    for (k, bytes) in written.iter().enumerate() {
        assert_eq!(bytes[4 + 13], k as u8);
    }
}

#[test]
fn results_reach_the_admitted_client_in_order() {
    let mut m = attached();
    let out = m.handle(WorkerChannelMessage::ConnOk(42));
    let conn_ok = encode_frame(&Frame { e_type: EndpointType::Client, body: Body::ConnOk(SN, 42) });
    assert_eq!(out, vec![Write { to: Target::Client(42), bytes: conn_ok }]);
    assert!(m.has_client(42));
    for k in 0..5u8 {
        let c = chunk(RwMode::Server, 42, k);
        let out = m.handle(WorkerChannelMessage::ServerData(c));
        let result = TranscribeResult::new(4, [k; IO_CHUNK_SIZE]);
        let want = encode_frame(&Frame { e_type: EndpointType::Client, body: Body::Result(result) });
        assert_eq!(out, vec![Write { to: Target::Client(42), bytes: want }]);
    }
}

#[test]
fn results_for_unknown_clients_are_dropped() {
    let mut m = attached();
    m.handle(WorkerChannelMessage::ConnOk(1));
    assert!(m.handle(WorkerChannelMessage::ServerData(chunk(RwMode::Server, 2, 0))).is_empty());
}

#[test]
fn duplicate_conn_ok_is_ignored() {
    let mut m = attached();
    assert_eq!(m.handle(WorkerChannelMessage::ConnOk(5)).len(), 1);
    assert!(m.handle(WorkerChannelMessage::ConnOk(5)).is_empty());
}

#[test]
fn failed_client_is_dropped() {
    let mut m = attached();
    m.handle(WorkerChannelMessage::ConnOk(5));
    m.client_write_failed(5);
    assert!(!m.has_client(5));
    assert!(m.handle(WorkerChannelMessage::ServerData(chunk(RwMode::Server, 5, 0))).is_empty());
}

#[test]
fn failed_worker_write_closes_the_stream() {
    let mut m = attached();
    assert!(!m.is_stream_closed());
    m.worker_write_failed();
    assert!(m.is_stream_closed());
    assert_eq!(m.handle(WorkerChannelMessage::Eos(SN, 1)).len(), 1);
}

#[test]
fn status_probes_every_client_then_the_worker() {
    let mut m = attached();
    m.handle(WorkerChannelMessage::ConnOk(1));
    m.handle(WorkerChannelMessage::ConnOk(2));
    let out = m.handle(WorkerChannelMessage::Status);
    assert_eq!(out.len(), 3);
    let probe = encode_frame(&Frame { e_type: EndpointType::Client, body: Body::Status });
    let mut ids: Vec<u32> = out[..2]
        .iter()
        .map(|w| match w.to {
            Target::Client(c) => {
                assert_eq!(w.bytes, probe);
                c
            },
            _ => panic!("client probe expected"),
        })
        .collect();
    ids.sort();
    assert_eq!(ids, vec![1, 2]);
    assert_eq!(out[2].to, Target::Worker);
    assert_eq!(out[2].bytes, vec![0x89, 0xab, 0, 2]);
}

#[test]
fn alive_and_eos_are_forwarded_to_the_worker() {
    let mut m = attached();
    let out = m.handle(WorkerChannelMessage::Alive(SN, true));
    let ack = encode_frame(&Frame { e_type: EndpointType::Handler, body: Body::Ack(Ack::new(SN, true)) });
    assert_eq!(out, vec![Write { to: Target::Worker, bytes: ack }]);
    let out = m.handle(WorkerChannelMessage::Eos(SN, 9));
    let eos = encode_frame(&Frame { e_type: EndpointType::Handler, body: Body::Eos(SN, 9) });
    assert_eq!(out, vec![Write { to: Target::Worker, bytes: eos }]);
}

#[test]
fn detach_closes_the_worker_and_ends_the_mailbox() {
    let mut m = attached();
    let out = m.handle(WorkerChannelMessage::Detach);
    assert_eq!(out, vec![Write { to: Target::CloseWorker, bytes: vec![] }]);
    assert!(m.is_detached());
    assert!(m.handle(WorkerChannelMessage::RegisterOk(SN)).is_empty());
    assert!(m.handle(WorkerChannelMessage::Status).is_empty());
}

#[test]
fn worker_record_accessors() {
    let mut w = WorkerChannel::new(SN);
    assert_eq!(w.get_serial_no(), SN);
    assert!(w.is_available());
    assert!(!w.is_stream_closed());
    w.update_available(false);
    assert!(!w.is_available());
}

#[test]
fn audio_order_survives_other_messages() {
    let mut m = attached();
    m.handle(WorkerChannelMessage::ConnOk(7));
    let mut data_frames = Vec::new();
    let mut expected = Vec::new();
    for k in 0..20u8 {
        let c = chunk(RwMode::Client, 7, k);
        expected.push(encode_frame(&Frame { e_type: EndpointType::Client, body: Body::Data(c) }));
        let mut outs = m.handle(WorkerChannelMessage::ClientData(c));
        outs.extend(m.handle(WorkerChannelMessage::Alive(SN, k % 2 == 0)));
        outs.extend(m.handle(WorkerChannelMessage::ServerData(chunk(RwMode::Server, 7, k))));
        outs.extend(m.handle(WorkerChannelMessage::RegisterOk(SN)));
        for w in outs {
            if w.to == Target::Worker && w.bytes[3] == 7 {
                data_frames.push(w.bytes);
            }
        }
    }
    assert_eq!(data_frames, expected);
}

#[test]
fn hundred_chunks_then_eos_reach_the_worker() {
    let mut m = attached();
    let mut written = Vec::new();
    let mut expected = Vec::new();
    for k in 0..100u32 {
        let c = IOChunk::new(RwMode::Client, SN, 3, 1024, [k as u8; IO_CHUNK_SIZE]);
        expected.push(encode_frame(&Frame { e_type: EndpointType::Client, body: Body::Data(c) }));
        for w in m.handle(WorkerChannelMessage::ClientData(c)) {
            assert_eq!(w.to, Target::Worker);
            written.push(w.bytes);
        }
    }
    for w in m.handle(WorkerChannelMessage::Eos(SN, 3)) {
        written.push(w.bytes);
    }
    expected.push(encode_frame(&Frame { e_type: EndpointType::Handler, body: Body::Eos(SN, 3) }));
    assert_eq!(written, expected);
}
