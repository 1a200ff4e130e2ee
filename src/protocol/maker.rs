//! Encoders: each payload and frame as the exact byte sequence of the wire
//! format, with no padding.

use vstd::prelude::*;

use super::{
    body_packet, endpoint_code, packet_code, rw_mode_code, Ack, Body, ClientId, EndpointType,
    Frame, IOChunk, Packet, Register, SerialNo, TranscribeResult, MAGIC_HI, MAGIC_LO,
};

verus! {

/// Big-endian bytes of a 16-bit integer.
pub open spec fn be16(v: u16) -> Seq<u8> {
    seq![(v / 256) as u8, (v % 256) as u8]
}

/// Big-endian bytes of a 32-bit integer.
pub open spec fn be32(v: u32) -> Seq<u8> {
    seq![(v / 0x1000000) as u8, ((v / 0x10000) % 256) as u8, ((v / 256) % 256) as u8, (v % 256) as u8]
}

pub open spec fn header_bytes(e: EndpointType, p: Packet) -> Seq<u8> {
    seq![MAGIC_HI, MAGIC_LO, endpoint_code(e), packet_code(p)]
}

pub open spec fn register_bytes(r: Register) -> Seq<u8> {
    r.ip@ + be16(r.port)
}

pub open spec fn ack_bytes(a: Ack) -> Seq<u8> {
    a.serial_no@.push(if a.available { 1u8 } else { 0u8 })
}

pub open spec fn connection_info_bytes(serial_no: SerialNo, client_id: ClientId) -> Seq<u8> {
    serial_no@ + be32(client_id)
}

pub open spec fn io_chunk_bytes(c: IOChunk) -> Seq<u8> {
    seq![rw_mode_code(c.mode)] + c.serial_no@ + be32(c.client_id) + be16(c.length) + c.data@
}

pub open spec fn transcribe_result_bytes(t: TranscribeResult) -> Seq<u8> {
    be16(t.length) + t.data@
}

pub open spec fn body_bytes(b: Body) -> Seq<u8> {
    match b {
        Body::Register(r) => register_bytes(r),
        Body::RegOk(sn) => sn@,
        Body::Status => Seq::empty(),
        Body::Ack(a) => ack_bytes(a),
        Body::Connect => Seq::empty(),
        Body::ConnOk(sn, cid) => connection_info_bytes(sn, cid),
        Body::ConnRejected => Seq::empty(),
        Body::Data(c) => io_chunk_bytes(c),
        Body::Result(t) => transcribe_result_bytes(t),
        Body::Eos(sn, cid) => connection_info_bytes(sn, cid),
    }
}

/// The bytes of a whole frame: header, then payload.
pub open spec fn frame_bytes(f: Frame) -> Seq<u8> {
    header_bytes(f.e_type, body_packet(f.body)) + body_bytes(f.body)
}

fn push_be16(out: &mut Vec<u8>, v: u16)
    ensures
        final(out)@ == old(out)@ + be16(v),
{
    out.push((v / 256) as u8);
    out.push((v % 256) as u8);
}

fn push_be32(out: &mut Vec<u8>, v: u32)
    ensures
        final(out)@ == old(out)@ + be32(v),
{
    out.push((v / 0x1000000) as u8);
    out.push(((v / 0x10000) % 256) as u8);
    out.push(((v / 256) % 256) as u8);
    out.push((v % 256) as u8);
}

fn push_all(out: &mut Vec<u8>, bytes: &[u8])
    ensures
        final(out)@ == old(out)@ + bytes@,
{
    let ghost start = out@;
    let mut i: usize = 0;
    while i < bytes.len()
        invariant
            i <= bytes@.len(),
            out@ == start + bytes@.subrange(0, i as int),
        decreases bytes@.len() - i,
    {
        out.push(bytes[i]);
        i = i + 1;
        assert(bytes@.subrange(0, i as int) == bytes@.subrange(0, i - 1).push(bytes@[i - 1]));
    }
    assert(bytes@.subrange(0, i as int) == bytes@);
}

/// The serial number of a worker: its address, then its port big-endian.
pub fn make_serial_no(ip: [u8; 4], port: u16) -> (r: SerialNo)
    ensures
        r@ == ip@ + be16(port),
{
    let r: SerialNo = [ip[0], ip[1], ip[2], ip[3], (port / 256) as u8, (port % 256) as u8];
    assert(r@ == ip@ + be16(port));
    r
}

pub fn make_register_payload(register: &Register) -> (r: Vec<u8>)
    ensures
        r@ == register_bytes(*register),
{
    let mut payload: Vec<u8> = Vec::new();
    push_all(&mut payload, &register.ip);
    push_be16(&mut payload, register.port);
    payload
}

pub fn make_ack_payload(ack: &Ack) -> (r: Vec<u8>)
    ensures
        r@ == ack_bytes(*ack),
{
    let mut payload: Vec<u8> = Vec::new();
    push_all(&mut payload, &ack.serial_no);
    payload.push(if ack.available { 1u8 } else { 0u8 });
    payload
}

/// Payload of `ConnOk` and of `Eos`: serial number, then client id.
pub fn make_connect_ok_payload(serial_no: &SerialNo, client_id: &ClientId) -> (r: Vec<u8>)
    ensures
        r@ == connection_info_bytes(*serial_no, *client_id),
{
    let mut payload: Vec<u8> = Vec::new();
    push_all(&mut payload, serial_no);
    push_be32(&mut payload, *client_id);
    payload
}

pub fn make_io_chunk_payload(io_chunk: &IOChunk) -> (r: Vec<u8>)
    ensures
        r@ == io_chunk_bytes(*io_chunk),
{
    let mut payload: Vec<u8> = Vec::new();
    payload.push(io_chunk.mode.code());
    push_all(&mut payload, &io_chunk.serial_no);
    push_be32(&mut payload, io_chunk.client_id);
    push_be16(&mut payload, io_chunk.length);
    push_all(&mut payload, &io_chunk.data);
    payload
}

pub fn make_transcribe_result_payload(transcribe_result: &TranscribeResult) -> (r: Vec<u8>)
    ensures
        r@ == transcribe_result_bytes(*transcribe_result),
{
    let mut payload: Vec<u8> = Vec::new();
    push_be16(&mut payload, transcribe_result.length);
    push_all(&mut payload, &transcribe_result.data);
    payload
}

/// A frame with no payload.
pub fn make_pure_packet(e_type: EndpointType, p_type: Packet) -> (r: Vec<u8>)
    ensures
        r@ == header_bytes(e_type, p_type),
{
    let mut packet: Vec<u8> = Vec::new();
    packet.push(MAGIC_HI);
    packet.push(MAGIC_LO);
    packet.push(e_type.code());
    packet.push(p_type.code());
    packet
}

/// A frame: the header, then `payload` as it is.
pub fn make_packet(e_type: EndpointType, p_type: Packet, payload: &[u8]) -> (r: Vec<u8>)
    ensures
        r@ == header_bytes(e_type, p_type) + payload@,
{
    let mut packet = make_pure_packet(e_type, p_type);
    push_all(&mut packet, payload);
    packet
}

/// The bytes of a whole frame.
pub fn encode_frame(frame: &Frame) -> (r: Vec<u8>)
    ensures
        r@ == frame_bytes(*frame),
{
    let payload: Vec<u8> = match &frame.body {
        Body::Register(reg) => make_register_payload(reg),
        Body::RegOk(sn) => {
            let mut v: Vec<u8> = Vec::new();
            push_all(&mut v, sn);
            assert(v@ == sn@);
            v
        },
        Body::Status => Vec::new(),
        Body::Ack(a) => make_ack_payload(a),
        Body::Connect => Vec::new(),
        Body::ConnOk(sn, cid) => make_connect_ok_payload(sn, cid),
        Body::ConnRejected => Vec::new(),
        Body::Data(c) => make_io_chunk_payload(c),
        Body::Result(t) => make_transcribe_result_payload(t),
        Body::Eos(sn, cid) => make_connect_ok_payload(sn, cid),
    };
    assert(payload@ == body_bytes(frame.body));
    make_packet(frame.e_type, frame.body.packet(), payload.as_slice())
}

} // verus!
