//! Decoders: payloads and frames read back from bytes.

use vstd::prelude::*;

use super::{
    endpoint_type_of, packet_of, payload_len, payload_len_spec, rw_mode_of, Ack, Body,
    ClientId, DecodeError, EndpointType, Frame, IOChunk, Packet, Register, RwMode, SerialNo,
    TranscribeResult, IO_CHUNK_SIZE, MAGIC_HI, MAGIC_LO,
};

verus! {

/// The 16-bit integer stored big-endian at `b[i]`, `b[i + 1]`.
pub open spec fn u16_at(b: Seq<u8>, i: int) -> u16 {
    (b[i] as int * 256 + b[i + 1] as int) as u16
}

/// The 32-bit integer stored big-endian at `b[i]` to `b[i + 3]`.
pub open spec fn u32_at(b: Seq<u8>, i: int) -> u32 {
    (b[i] as int * 0x1000000 + b[i + 1] as int * 0x10000 + b[i + 2] as int * 256
        + b[i + 3] as int) as u32
}

/// The serial number stored at `b[i]` to `b[i + 5]`.
pub open spec fn serial_no_at(b: Seq<u8>, i: int) -> SerialNo {
    [b[i], b[i + 1], b[i + 2], b[i + 3], b[i + 4], b[i + 5]]
}

/// The chunk data array whose bytes are `b`.
pub open spec fn data_of(b: Seq<u8>) -> [u8; IO_CHUNK_SIZE] {
    choose|a: [u8; IO_CHUNK_SIZE]| a@ == b
}

pub open spec fn register_at(b: Seq<u8>) -> Register {
    Register { ip: [b[0], b[1], b[2], b[3]], port: u16_at(b, 4) }
}

pub open spec fn ack_at(b: Seq<u8>) -> Ack {
    Ack { serial_no: serial_no_at(b, 0), available: b[6] != 0 }
}

pub open spec fn io_chunk_at(b: Seq<u8>) -> IOChunk {
    IOChunk {
        mode: rw_mode_of(b[0]),
        serial_no: serial_no_at(b, 1),
        client_id: u32_at(b, 7),
        length: u16_at(b, 11),
        data: data_of(b.subrange(13, 1037)),
    }
}

pub open spec fn transcribe_result_at(b: Seq<u8>) -> TranscribeResult {
    TranscribeResult { length: u16_at(b, 0), data: data_of(b.subrange(2, 1026)) }
}

/// The body of kind `p` whose payload starts `b`.
pub open spec fn body_at(p: Packet, b: Seq<u8>) -> Body {
    match p {
        Packet::Register => Body::Register(register_at(b)),
        Packet::RegOk => Body::RegOk(serial_no_at(b, 0)),
        Packet::Status => Body::Status,
        Packet::Ack => Body::Ack(ack_at(b)),
        Packet::Connect => Body::Connect,
        Packet::ConnOk => Body::ConnOk(serial_no_at(b, 0), u32_at(b, 6)),
        Packet::ConnRejected => Body::ConnRejected,
        Packet::Data => Body::Data(io_chunk_at(b)),
        Packet::Result => Body::Result(transcribe_result_at(b)),
        _ => Body::Eos(serial_no_at(b, 0), u32_at(b, 6)),
    }
}

pub open spec fn magic_ok(b: Seq<u8>) -> bool {
    b[0] == MAGIC_HI && b[1] == MAGIC_LO
}

/// The first frame of `b` and the number of bytes it takes, or why there is none.
pub open spec fn decode_spec(b: Seq<u8>) -> Result<(Frame, nat), DecodeError> {
    if b.len() < 2 {
        Err(DecodeError::UnexpectedEof)
    } else if !magic_ok(b) {
        Err(DecodeError::MagicMismatch)
    } else if b.len() < 4 {
        Err(DecodeError::TruncatedPayload)
    } else {
        match payload_len_spec(packet_of(b[3])) {
            None => Err(DecodeError::UnknownPacket),
            Some(n) => if b.len() < 4 + n {
                Err(DecodeError::TruncatedPayload)
            } else {
                Ok(
                    (
                        Frame {
                            e_type: endpoint_type_of(b[2]),
                            body: body_at(packet_of(b[3]), b.subrange(4, 4 + n as int)),
                        },
                        4 + n,
                    ),
                )
            },
        }
    }
}

fn read_u16(b: &[u8], i: usize) -> (r: u16)
    requires
        i + 2 <= b@.len(),
    ensures
        r == u16_at(b@, i as int),
{
    (b[i] as u16) * 256 + (b[i + 1] as u16)
}

fn read_u32(b: &[u8], i: usize) -> (r: u32)
    requires
        i + 4 <= b@.len(),
    ensures
        r == u32_at(b@, i as int),
{
    (b[i] as u32) * 0x1000000 + (b[i + 1] as u32) * 0x10000 + (b[i + 2] as u32) * 256 + (
    b[i + 3] as u32)
}

fn read_serial_no(b: &[u8], i: usize) -> (r: SerialNo)
    requires
        i + 6 <= b@.len(),
    ensures
        r == serial_no_at(b@, i as int),
{
    [b[i], b[i + 1], b[i + 2], b[i + 3], b[i + 4], b[i + 5]]
}

fn read_data(b: &[u8], i: usize) -> (r: [u8; IO_CHUNK_SIZE])
    requires
        i + IO_CHUNK_SIZE <= b@.len(),
    ensures
        r == data_of(b@.subrange(i as int, i + IO_CHUNK_SIZE)),
{
    let mut data = [0u8; IO_CHUNK_SIZE];
    let mut k: usize = 0;
    while k < IO_CHUNK_SIZE
        invariant
            k <= IO_CHUNK_SIZE,
            i + IO_CHUNK_SIZE <= b.len(),
            forall|j: int| 0 <= j < k ==> data@[j] == b@[i + j],
        decreases IO_CHUNK_SIZE - k,
    {
        data[k] = b[i + k];
        k = k + 1;
    }
    let ghost want = b@.subrange(i as int, i + IO_CHUNK_SIZE);
    assert(data@ =~= want);
    assert(data == data_of(want)) by {
        let a = data_of(want);
        assert(a@ == want);
        assert(a =~= data);
    }
    data
}

/// Checks the magic number at the start of `b`, reading two bytes at most.
pub fn is_magic_number(b: &[u8]) -> (r: Result<(), DecodeError>)
    ensures
        b@.len() < 2 ==> r == Err::<(), DecodeError>(DecodeError::UnexpectedEof),
        b@.len() >= 2 && magic_ok(b@) ==> r is Ok,
        b@.len() >= 2 && !magic_ok(b@) ==> r == Err::<(), DecodeError>(
            DecodeError::MagicMismatch,
        ),
{
    if b.len() < 2 {
        Err(DecodeError::UnexpectedEof)
    } else if b[0] == MAGIC_HI && b[1] == MAGIC_LO {
        Ok(())
    } else {
        Err(DecodeError::MagicMismatch)
    }
}

pub fn parse_register_payload(payload: &[u8]) -> (r: Option<Register>)
    ensures
        r == (if payload@.len() >= 6 {
            Some(register_at(payload@))
        } else {
            None
        }),
{
    if payload.len() < 6 {
        return None;
    }
    Some(Register { ip: [payload[0], payload[1], payload[2], payload[3]], port: read_u16(payload, 4) })
}

pub fn parse_reg_ok_payload(payload: &[u8]) -> (r: Option<SerialNo>)
    ensures
        r == (if payload@.len() >= 6 {
            Some(serial_no_at(payload@, 0))
        } else {
            None
        }),
{
    if payload.len() < 6 {
        return None;
    }
    Some(read_serial_no(payload, 0))
}

/// Payload of `ConnOk` and of `Eos`.
pub fn parse_connect_ok_payload(payload: &[u8]) -> (r: Option<(SerialNo, ClientId)>)
    ensures
        r == (if payload@.len() >= 10 {
            Some((serial_no_at(payload@, 0), u32_at(payload@, 6)))
        } else {
            None
        }),
{
    if payload.len() < 10 {
        return None;
    }
    Some((read_serial_no(payload, 0), read_u32(payload, 6)))
}

pub fn parse_ack_payload(payload: &[u8]) -> (r: Option<Ack>)
    ensures
        r == (if payload@.len() >= 7 {
            Some(ack_at(payload@))
        } else {
            None
        }),
{
    if payload.len() < 7 {
        return None;
    }
    Some(Ack { serial_no: read_serial_no(payload, 0), available: payload[6] != 0 })
}

pub fn parse_io_chunk_payload(payload: &[u8]) -> (r: Option<IOChunk>)
    ensures
        r == (if payload@.len() >= 1037 {
            Some(io_chunk_at(payload@))
        } else {
            None
        }),
{
    if payload.len() < 1037 {
        return None;
    }
    Some(
        IOChunk {
            mode: RwMode::from(payload[0]),
            serial_no: read_serial_no(payload, 1),
            client_id: read_u32(payload, 7),
            length: read_u16(payload, 11),
            data: read_data(payload, 13),
        },
    )
}

pub fn parse_transcribe_result_payload(payload: &[u8]) -> (r: Option<TranscribeResult>)
    ensures
        r == (if payload@.len() >= 1026 {
            Some(transcribe_result_at(payload@))
        } else {
            None
        }),
{
    if payload.len() < 1026 {
        return None;
    }
    Some(TranscribeResult { length: read_u16(payload, 0), data: read_data(payload, 2) })
}

/// The frames that `b` holds one after another, up to the first byte that
/// does not start a whole frame, and the number of bytes that they take.
pub open spec fn decode_all(b: Seq<u8>) -> (Seq<Frame>, nat)
    decreases b.len(),
{
    match decode_spec(b) {
        Ok((f, n)) => if 0 < n <= b.len() {
            let rest = decode_all(b.subrange(n as int, b.len() as int));
            (seq![f] + rest.0, n + rest.1)
        } else {
            (seq![f], n)
        },
        Err(_) => (Seq::empty(), 0),
    }
}

/// Decodes the first frame of `buf`. The magic number is checked before
/// anything else is read; every payload is read at its exact length.
pub fn decode_frame(buf: &[u8]) -> (r: Result<(Frame, usize), DecodeError>)
    ensures
        r matches Ok((f, n)) ==> decode_spec(buf@) == Ok::<(Frame, nat), DecodeError>(
            (f, n as nat),
        ),
        r matches Err(e) ==> decode_spec(buf@) == Err::<(Frame, nat), DecodeError>(e),
{
    match is_magic_number(buf) {
        Err(e) => {
            return Err(e);
        },
        Ok(()) => {},
    }
    if buf.len() < 4 {
        return Err(DecodeError::TruncatedPayload);
    }
    let e_type = EndpointType::from(buf[2]);
    let p_type = Packet::from(buf[3]);
    let n = match payload_len(p_type) {
        None => {
            return Err(DecodeError::UnknownPacket);
        },
        Some(n) => n,
    };
    if buf.len() - 4 < n {
        return Err(DecodeError::TruncatedPayload);
    }
    let payload = vstd::slice::slice_subrange(buf, 4, 4 + n);
    let body = match p_type {
        Packet::Register => Body::Register(parse_register_payload(payload).unwrap()),
        Packet::RegOk => Body::RegOk(parse_reg_ok_payload(payload).unwrap()),
        Packet::Status => Body::Status,
        Packet::Ack => Body::Ack(parse_ack_payload(payload).unwrap()),
        Packet::Connect => Body::Connect,
        Packet::ConnOk => {
            let (sn, cid) = parse_connect_ok_payload(payload).unwrap();
            Body::ConnOk(sn, cid)
        },
        Packet::ConnRejected => Body::ConnRejected,
        Packet::Data => Body::Data(parse_io_chunk_payload(payload).unwrap()),
        Packet::Result => Body::Result(parse_transcribe_result_payload(payload).unwrap()),
        _ => {
            let (sn, cid) = parse_connect_ok_payload(payload).unwrap();
            Body::Eos(sn, cid)
        },
    };
    Ok((Frame { e_type, body }, 4 + n))
}

/// Decodes frames from `buf` one after another until the rest is not a whole
/// frame; returns them with the number of bytes they take.
pub fn decode_stream(buf: &[u8]) -> (r: (Vec<Frame>, usize))
    ensures
        r.0@ == decode_all(buf@).0,
        r.1 == decode_all(buf@).1,
{
    let mut frames: Vec<Frame> = Vec::new();
    let mut pos: usize = 0;
    let len = buf.len();
    assert(buf@.subrange(0, len as int) =~= buf@);
    assert(frames@ + decode_all(buf@).0 =~= decode_all(buf@).0);
    loop
        invariant
            len == buf@.len(),
            pos <= len,
            decode_all(buf@).0 == frames@ + decode_all(buf@.subrange(pos as int, len as int)).0,
            decode_all(buf@).1 == pos + decode_all(buf@.subrange(pos as int, len as int)).1,
        decreases len - pos,
    {
        let rest = vstd::slice::slice_subrange(buf, pos, len);
        match decode_frame(rest) {
            Err(_) => {
                assert(decode_all(rest@) == (Seq::<Frame>::empty(), 0nat));
                assert(frames@ + Seq::<Frame>::empty() =~= frames@);
                return (frames, pos);
            },
            Ok((f, n)) => {
                let ghost old_frames = frames@;
                assert(buf@.subrange(pos as int, len as int).subrange(n as int, rest@.len() as int)
                    =~= buf@.subrange(pos + n, len as int));
                frames.push(f);
                assert(frames@ + decode_all(buf@.subrange(pos + n, len as int)).0 =~= old_frames
                    + (seq![f] + decode_all(buf@.subrange(pos + n, len as int)).0));
                pos = pos + n;
            },
        }
    }
}

} // verus!
